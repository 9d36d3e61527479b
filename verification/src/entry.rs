//! Parsed subtitle entries and transient lexical tokens.

use vstd::prelude::*;
use crate::span::Span;
use crate::timecode::Timespan;

verus! {

/// One subtitle caption block: its index line, its display interval and
/// its text, together with the span of source it was read from. An
/// entry is immutable once constructed and owns its text outright, so
/// it outlives the source revision that produced it.
#[derive(Clone, Debug)]
pub struct Entry {
    pub index: u32,
    pub timespan: Timespan,
    pub text: String,
    pub span: Span,
}

/// The mathematical content of an `Entry`.
pub struct EntryV {
    pub index: u32,
    pub timespan: Timespan,
    pub text: Seq<char>,
    pub span_start: int,
    pub span_end: int,
}

impl View for Entry {
    type V = EntryV;

    open spec fn view(&self) -> EntryV {
        EntryV {
            index: self.index,
            timespan: self.timespan,
            text: self.text@,
            span_start: self.span.start as int,
            span_end: self.span.end as int,
        }
    }
}

impl Entry {
    /// Whether the structural fields of the two entries agree: the
    /// index, the timespan and the text, spans aside. This is the
    /// equality that survives re-serialization, which need not
    /// reproduce the original spelling byte for byte.
    pub fn same_content(&self, other: &Entry) -> (r: bool)
        ensures
            r == (self.index == other.index && self.timespan == other.timespan && self.text@
                == other.text@),
    {
        self.index == other.index && self.timespan == other.timespan && self.text == other.text
    }
}

impl PartialEq for Entry {
    fn eq(&self, other: &Entry) -> (r: bool) {
        self.index == other.index && self.timespan == other.timespan && self.text == other.text
            && self.span == other.span
    }
}

impl vstd::std_specs::cmp::PartialEqSpecImpl for Entry {
    open spec fn obeys_eq_spec() -> bool {
        true
    }

    open spec fn eq_spec(&self, other: &Entry) -> bool {
        self.index == other.index && self.timespan == other.timespan && self.text@ == other.text@
            && self.span == other.span
    }
}

/// A transient lexical unit: the classification of one source line (or
/// of the blank line that delimits blocks). Tokens are consumed by the
/// structural layer while it assembles entries and are not retained
/// after parsing.
#[derive(Clone, Debug)]
pub enum Token {
    Index(u32),
    Timespan(Timespan),
    Text(String),
    Delimeter,
}

/// The mathematical content of a `Token`.
pub enum TokenV {
    Index(u32),
    Timespan(Timespan),
    Text(Seq<char>),
    Delimeter,
}

impl View for Token {
    type V = TokenV;

    open spec fn view(&self) -> TokenV {
        match self {
            Token::Index(i) => TokenV::Index(*i),
            Token::Timespan(ts) => TokenV::Timespan(*ts),
            Token::Text(t) => TokenV::Text(t@),
            Token::Delimeter => TokenV::Delimeter,
        }
    }
}

impl PartialEq for Token {
    fn eq(&self, other: &Token) -> (r: bool) {
        match (self, other) {
            (Token::Index(a), Token::Index(b)) => *a == *b,
            (Token::Timespan(a), Token::Timespan(b)) => *a == *b,
            (Token::Text(a), Token::Text(b)) => *a == *b,
            (Token::Delimeter, Token::Delimeter) => true,
            _ => false,
        }
    }
}

impl vstd::std_specs::cmp::PartialEqSpecImpl for Token {
    open spec fn obeys_eq_spec() -> bool {
        true
    }

    open spec fn eq_spec(&self, other: &Token) -> bool {
        match (self, other) {
            (Token::Index(a), Token::Index(b)) => a == b,
            (Token::Timespan(a), Token::Timespan(b)) => a == b,
            (Token::Text(a), Token::Text(b)) => a@ == b@,
            (Token::Delimeter, Token::Delimeter) => true,
            _ => false,
        }
    }
}

} // verus!
