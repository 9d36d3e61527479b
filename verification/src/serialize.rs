//! Rendering entries back to SRT text.
//!
//! Each rendering function is proved to produce exactly the character
//! sequence its spec function describes; the round-trip law then shows
//! that re-parsing a rendered entry restores the entry's structural
//! fields.

use vstd::prelude::*;
use crate::entry::{Entry, EntryV};
use crate::timecode::{Timecode, Timespan};

verus! {

/// The digit character with value `d`.
pub open spec fn digit_char(d: nat) -> char
    recommends
        d <= 9,
{
    if d == 0 {
        '0'
    } else if d == 1 {
        '1'
    } else if d == 2 {
        '2'
    } else if d == 3 {
        '3'
    } else if d == 4 {
        '4'
    } else if d == 5 {
        '5'
    } else if d == 6 {
        '6'
    } else if d == 7 {
        '7'
    } else if d == 8 {
        '8'
    } else {
        '9'
    }
}

/// The shortest decimal spelling of `n`, most significant digit first.
pub open spec fn dec_rep(n: nat) -> Seq<char>
    decreases n,
{
    if n < 10 {
        seq![digit_char(n)]
    } else {
        dec_rep(n / 10).push(digit_char(n % 10))
    }
}

/// `n` spelled as exactly two digits, zero padded.
pub open spec fn pad2(n: nat) -> Seq<char>
    recommends
        n <= 99,
{
    seq![digit_char((n / 10) % 10), digit_char(n % 10)]
}

/// `n` spelled as exactly three digits, zero padded.
pub open spec fn pad3(n: nat) -> Seq<char>
    recommends
        n <= 999,
{
    seq![digit_char((n / 100) % 10), digit_char((n / 10) % 10), digit_char(n % 10)]
}

/// The text of a timecode: `H+:MM:SS,mmm`.
pub open spec fn spec_render_timecode(tc: Timecode) -> Seq<char> {
    dec_rep(tc.hours as nat) + seq![':'] + pad2(tc.minutes as nat) + seq![':'] + pad2(
        tc.seconds as nat,
    ) + seq![','] + pad3(tc.milliseconds as nat)
}

/// The text of a timespan line body: the two timecodes around the
/// arrow marker with one space of padding on each side.
pub open spec fn spec_render_timespan(ts: Timespan) -> Seq<char> {
    spec_render_timecode(ts.start) + seq![' ', '-', '-', '>', ' '] + spec_render_timecode(ts.end)
}

/// The full SRT text of one entry: index line, timespan line, then the
/// text block followed by its terminating newline — or nothing, when
/// the text is empty, so that the block ends right after the timespan
/// line.
pub open spec fn spec_render_entry(e: EntryV) -> Seq<char> {
    dec_rep(e.index as nat) + seq!['\n'] + spec_render_timespan(e.timespan) + seq!['\n'] + (
    if e.text.len() == 0 {
        Seq::<char>::empty()
    } else {
        e.text + seq!['\n']
    })
}

/// Whether `t` can stand as the text block of an entry: text blocks
/// hold one or more non-blank lines, so the text must not begin or end
/// with a newline nor hold two in a row. The empty text is fine: it
/// renders as a block that ends right after the timespan line.
pub open spec fn text_wf(t: Seq<char>) -> bool {
    &&& t.len() > 0 ==> t[0] != '\n' && t[t.len() - 1] != '\n'
    &&& forall|k: int| 0 <= k < t.len() - 1 ==> !(#[trigger] t[k] == '\n' && t[k + 1] == '\n')
}

/// Whether the entry can be rendered so that parsing reads it back:
/// the timecode fields must fit their fixed widths and the text must
/// be a well-formed text block.
pub open spec fn renderable(e: EntryV) -> bool {
    e.timespan.wf() && text_wf(e.text)
}

/// The single-character string spelling the digit `d`.
fn digit_str(d: u32) -> (r: &'static str)
    requires
        d <= 9,
    ensures
        r@ == seq![digit_char(d as nat)],
{
    proof {
        reveal_strlit("0");
        reveal_strlit("1");
        reveal_strlit("2");
        reveal_strlit("3");
        reveal_strlit("4");
        reveal_strlit("5");
        reveal_strlit("6");
        reveal_strlit("7");
        reveal_strlit("8");
        reveal_strlit("9");
    }
    let r: &'static str = match d {
        0 => "0",
        1 => "1",
        2 => "2",
        3 => "3",
        4 => "4",
        5 => "5",
        6 => "6",
        7 => "7",
        8 => "8",
        _ => "9",
    };
    proof {
        assert(r@ =~= seq![digit_char(d as nat)]);
    }
    r
}

/// Spells `n` in decimal, as `dec_rep` describes.
fn u32_to_dec(n: u32) -> (r: String)
    ensures
        r@ == dec_rep(n as nat),
    decreases n,
{
    if n < 10 {
        digit_str(n).to_owned()
    } else {
        let mut s: String = u32_to_dec(n / 10);
        s.append(digit_str(n % 10));
        proof {
            assert(s@ =~= dec_rep(n as nat));
        }
        s
    }
}

/// Spells `n` as exactly two digits, as `pad2` describes.
fn render_pad2(n: u32) -> (r: String)
    requires
        n <= 99,
    ensures
        r@ == pad2(n as nat),
{
    let mut s: String = digit_str((n / 10) % 10).to_owned();
    s.append(digit_str(n % 10));
    proof {
        assert(s@ =~= pad2(n as nat));
    }
    s
}

/// Spells `n` as exactly three digits, as `pad3` describes.
fn render_pad3(n: u32) -> (r: String)
    requires
        n <= 999,
    ensures
        r@ == pad3(n as nat),
{
    let mut s: String = digit_str((n / 100) % 10).to_owned();
    s.append(digit_str((n / 10) % 10));
    s.append(digit_str(n % 10));
    proof {
        assert(s@ =~= pad3(n as nat));
    }
    s
}

impl Timecode {
    /// The timecode as text: `H+:MM:SS,mmm`.
    pub fn render(&self) -> (r: String)
        requires
            self.wf(),
        ensures
            r@ == spec_render_timecode(*self),
    {
        proof {
            reveal_strlit(":");
            reveal_strlit(",");
        }
        let mut s: String = u32_to_dec(self.hours);
        s.append(":");
        let m: String = render_pad2(self.minutes);
        s.append(m.as_str());
        s.append(":");
        let sec: String = render_pad2(self.seconds);
        s.append(sec.as_str());
        s.append(",");
        let ms: String = render_pad3(self.milliseconds);
        s.append(ms.as_str());
        proof {
            assert(s@ =~= spec_render_timecode(*self));
        }
        s
    }
}

impl Timespan {
    /// The timespan as the body of a timespan line:
    /// `H+:MM:SS,mmm --> H+:MM:SS,mmm`.
    pub fn render(&self) -> (r: String)
        requires
            self.wf(),
        ensures
            r@ == spec_render_timespan(*self),
    {
        proof {
            reveal_strlit(" --> ");
        }
        let mut s: String = self.start.render();
        s.append(" --> ");
        let e: String = self.end.render();
        s.append(e.as_str());
        proof {
            assert((" --> ")@ =~= seq![' ', '-', '-', '>', ' ']);
            assert(s@ =~= spec_render_timespan(*self));
        }
        s
    }
}

impl Entry {
    /// The entry as SRT text, as `spec_render_entry` describes. The
    /// spelling normalizes padding but re-parses to the same index,
    /// timespan and text.
    pub fn render(&self) -> (r: String)
        requires
            self.timespan.wf(),
        ensures
            r@ == spec_render_entry(self@),
    {
        proof {
            reveal_strlit("\n");
        }
        let mut s: String = u32_to_dec(self.index);
        s.append("\n");
        let ts: String = self.timespan.render();
        s.append(ts.as_str());
        s.append("\n");
        if !self.text.as_str().is_empty() {
            s.append(self.text.as_str());
            s.append("\n");
        }
        proof {
            assert(("\n")@ =~= seq!['\n']);
            assert(s@ =~= spec_render_entry(self@));
        }
        s
    }
}

} // verus!
