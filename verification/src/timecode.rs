//! Timecodes and display intervals.

use vstd::prelude::*;

verus! {

/// A single point in time: `hours:minutes:seconds,milliseconds`. The
/// parser reads minutes and seconds as exactly two digits and
/// milliseconds as exactly three, so parsed values are bounded by their
/// field widths; whether they also lie in the calendar ranges is a
/// separate, semantic question answered by [`Timecode::in_range`].
#[derive(Clone, Copy, Debug, PartialEq, Eq, Structural)]
pub struct Timecode {
    pub hours: u32,
    pub minutes: u32,
    pub seconds: u32,
    pub milliseconds: u32,
}

impl Timecode {
    /// What the fixed-width fields of the grammar can hold: two digits
    /// of minutes and seconds, three of milliseconds. Every timecode
    /// the parser produces satisfies this.
    pub open spec fn wf(self) -> bool {
        self.minutes <= 99 && self.seconds <= 99 && self.milliseconds <= 999
    }

    /// Whether the fields lie in their calendar ranges. The grammar
    /// does not enforce this: a violation is a semantic matter, not a
    /// structural parse failure.
    pub open spec fn spec_in_range(self) -> bool {
        self.minutes <= 59 && self.seconds <= 59 && self.milliseconds <= 999
    }

    /// Checks the calendar ranges of the fields.
    pub fn in_range(&self) -> (r: bool)
        ensures
            r == self.spec_in_range(),
    {
        self.minutes <= 59 && self.seconds <= 59 && self.milliseconds <= 999
    }

    /// The timecode as a total number of milliseconds, the measure by
    /// which timecodes are ordered.
    pub open spec fn spec_total_millis(self) -> int {
        ((self.hours * 3600 + self.minutes * 60 + self.seconds) * 1000 + self.milliseconds) as int
    }

    /// Whether `self` is no later than `other`.
    pub open spec fn spec_le(self, other: Timecode) -> bool {
        self.spec_total_millis() <= other.spec_total_millis()
    }

    /// Compares two timecodes as points in time.
    pub fn le(&self, other: &Timecode) -> (r: bool)
        ensures
            r == self.spec_le(*other),
    {
        let a: u64 = (self.hours as u64 * 3600 + self.minutes as u64 * 60 + self.seconds as u64)
            * 1000 + self.milliseconds as u64;
        let b: u64 = (other.hours as u64 * 3600 + other.minutes as u64 * 60 + other.seconds as u64)
            * 1000 + other.milliseconds as u64;
        a <= b
    }
}

/// An entry's display interval: an ordered pair of timecodes. That
/// `start <= end` actually holds is a semantic warning when violated,
/// not a parse failure, so the struct itself does not demand it; ask
/// [`Timespan::is_ordered`].
#[derive(Clone, Copy, Debug, PartialEq, Eq, Structural)]
pub struct Timespan {
    pub start: Timecode,
    pub end: Timecode,
}

impl Timespan {
    pub open spec fn wf(self) -> bool {
        self.start.wf() && self.end.wf()
    }

    /// Whether the interval runs forward in time.
    pub fn is_ordered(&self) -> (r: bool)
        ensures
            r == self.start.spec_le(self.end),
    {
        self.start.le(&self.end)
    }
}

} // verus!
