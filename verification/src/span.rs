//! Half-open intervals of positions into the source text.

use vstd::prelude::*;

verus! {

/// A half-open interval `[start, end)` of character offsets into the
/// source text that produced the enclosing node. Spans never own or
/// borrow the source: they are plain offsets, so a parsed node outlives
/// the text revision it came from.
#[derive(Clone, Copy, Debug, PartialEq, Eq, Structural)]
pub struct Span {
    pub start: usize,
    pub end: usize,
}

impl Span {
    /// A span is well formed when it is a genuine half-open interval.
    pub open spec fn wf(self) -> bool {
        self.start <= self.end
    }

    /// Builds the span `[start, end)`.
    pub fn new(start: usize, end: usize) -> (s: Span)
        requires
            start <= end,
        ensures
            s.start == start,
            s.end == end,
            s.wf(),
    {
        Span { start, end }
    }

    /// The number of characters the span covers.
    pub fn len(&self) -> (n: usize)
        requires
            self.wf(),
        ensures
            n == self.end - self.start,
    {
        self.end - self.start
    }
}

} // verus!
