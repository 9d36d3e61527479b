//! Parse failures and their classification.

use vstd::prelude::*;
use crate::span::Span;

verus! {

/// Why a block failed to match the grammar.
#[derive(Clone, Copy, Debug, PartialEq, Eq, Structural)]
pub enum ErrorKind {
    /// The block's first line is digits followed by more than a line
    /// terminator, or its number does not fit in the index type.
    MalformedIndex,
    /// A timecode field is non-numeric, too short, or misses one of its
    /// `:` or `,` separators, or does not fit its field type.
    MalformedTimecode,
    /// The timespan line misses the `-->` marker, or carries trailing
    /// content after the second timecode.
    MalformedTimespan,
    /// The input ended where the block still owed a timespan line.
    UnterminatedBlock,
    /// The block's first line does not begin with a digit at all.
    UnexpectedCharacter,
}

/// One parse failure: the discarded region and why it was discarded.
/// It owns no source text, only offsets into it.
#[derive(Clone, Copy, Debug, PartialEq, Eq, Structural)]
pub struct ParseError {
    pub span: Span,
    pub kind: ErrorKind,
}

impl ParseError {
    pub open spec fn wf(self) -> bool {
        self.span.wf()
    }

    /// A short human-readable account of the failure.
    pub fn message(&self) -> (m: &'static str)
        ensures
            m@ == spec_message(self.kind),
    {
        match self.kind {
            ErrorKind::MalformedIndex => "malformed index line",
            ErrorKind::MalformedTimecode => "malformed timecode",
            ErrorKind::MalformedTimespan => "malformed timespan: missing arrow",
            ErrorKind::UnterminatedBlock => "unterminated block",
            ErrorKind::UnexpectedCharacter => "unexpected character",
        }
    }
}

/// The message text that belongs to each kind of failure.
pub open spec fn spec_message(kind: ErrorKind) -> Seq<char> {
    match kind {
        ErrorKind::MalformedIndex => "malformed index line"@,
        ErrorKind::MalformedTimecode => "malformed timecode"@,
        ErrorKind::MalformedTimespan => "malformed timespan: missing arrow"@,
        ErrorKind::UnterminatedBlock => "unterminated block"@,
        ErrorKind::UnexpectedCharacter => "unexpected character"@,
    }
}

} // verus!
