//! A verified core for a subtitle (SRT) language service.
//!
//! The crate parses SRT documents into structured entries with exact
//! source spans, recovers from malformed blocks without losing the rest
//! of the document, keeps per-document parse state with a version guard,
//! and maps parse failures to line/column diagnostics.

pub mod diagnostics;
pub mod entry;
pub mod errors;
pub mod parser;
pub mod roundtrip;
pub mod scan;
pub mod serialize;
pub mod span;
pub mod store;
pub mod timecode;

pub use diagnostics::Diagnostic;
pub use entry::Entry;
pub use entry::Token;
pub use errors::ErrorKind;
pub use errors::ParseError;
pub use parser::parse;
pub use span::Span;
pub use store::DocumentStore;
pub use timecode::Timecode;
pub use timecode::Timespan;
