//! The round-trip law: parsing a rendered entry restores the entry.
//!
//! Rendering normalizes spelling (padding, the arrow's spacing), so
//! the rendered text need not be byte-identical to what the entry was
//! first parsed from; what the law pins down is that the structural
//! fields — index, timespan, text — survive the trip exactly.

use vstd::prelude::*;
use crate::entry::EntryV;
use crate::parser::{
    spec_block, spec_parse, spec_parse_from, spec_timecode, spec_timespan_line, BlockOutcome,
    ErrV,
};
use crate::scan::{
    digit_val, digits_val, is_digit, lemma_digits_end_finds, lemma_digits_val_congruent,
    lemma_digits_val_shift, lemma_line_end_finds, lemma_skip_hspace_finds,
    lemma_text_end_runs_out, skip_blank_lines, text_end,
};
use crate::serialize::{
    dec_rep, digit_char, renderable, spec_render_entry, spec_render_timecode,
    spec_render_timespan,
};
use crate::timecode::{Timecode, Timespan};

verus! {

/// The decimal spelling is never empty and holds digits only.
proof fn lemma_dec_rep_digits(n: nat)
    ensures
        dec_rep(n).len() >= 1,
        forall|k: int| 0 <= k < dec_rep(n).len() ==> is_digit(#[trigger] dec_rep(n)[k]),
    decreases n,
{
    if n >= 10 {
        lemma_dec_rep_digits(n / 10);
    }
}

/// A digit character reads back as the digit it spells.
proof fn lemma_digit_char_val(d: nat)
    requires
        d <= 9,
    ensures
        is_digit(digit_char(d)),
        digit_val(digit_char(d)) == d,
{
}

/// Reading the decimal spelling back gives the number it spells.
proof fn lemma_dec_rep_val(n: nat)
    ensures
        digits_val(dec_rep(n), 0, dec_rep(n).len() as int) == n,
    decreases n,
{
    if n < 10 {
        lemma_digit_char_val(n);
        assert(digits_val(dec_rep(n), 0, 0) == 0);
    } else {
        lemma_dec_rep_val(n / 10);
        lemma_digit_char_val(n % 10);
        let d = dec_rep(n / 10);
        let full = dec_rep(n);
        lemma_digits_val_congruent(full, d, 0, d.len() as int);
        assert(digits_val(full, 0, full.len() as int) == digits_val(
            full,
            0,
            d.len() as int,
        ) * 10 + digit_val(full[d.len() as int]));
    }
}

/// Every character of a rendered timecode is a digit, a `:` or a `,`;
/// and the rendered timecode is the hours spelling plus ten more
/// characters.
proof fn lemma_render_timecode_chars(tc: Timecode)
    ensures
        spec_render_timecode(tc).len() == dec_rep(tc.hours as nat).len() + 10,
        forall|k: int|
            0 <= k < spec_render_timecode(tc).len() ==> (is_digit(
                #[trigger] spec_render_timecode(tc)[k],
            ) || spec_render_timecode(tc)[k] == ':' || spec_render_timecode(tc)[k] == ','),
{
    lemma_dec_rep_digits(tc.hours as nat);
    let rc = spec_render_timecode(tc);
    let h = dec_rep(tc.hours as nat);
    let hl = h.len() as int;
    assert forall|k: int| 0 <= k < rc.len() implies (is_digit(#[trigger] rc[k]) || rc[k] == ':'
        || rc[k] == ',') by {
        if k < hl {
            assert(rc[k] == h[k]);
        }
    }
}

/// Reading a rendered timecode out of the middle of a larger text
/// yields the timecode back, provided no digit follows it directly.
#[verifier::rlimit(100)]
proof fn lemma_timecode_parses(s: Seq<char>, i: int, tc: Timecode)
    requires
        tc.wf(),
        0 <= i,
        i + spec_render_timecode(tc).len() <= s.len(),
        forall|k: int|
            0 <= k < spec_render_timecode(tc).len() ==> s[i + k] == #[trigger] spec_render_timecode(
                tc,
            )[k],
        i + spec_render_timecode(tc).len() < s.len() ==> !is_digit(
            s[i + spec_render_timecode(tc).len()],
        ),
    ensures
        spec_timecode(s, i) == Some((tc, i + spec_render_timecode(tc).len())),
{
    let rc = spec_render_timecode(tc);
    let h = dec_rep(tc.hours as nat);
    let hl = h.len() as int;
    lemma_dec_rep_digits(tc.hours as nat);
    lemma_render_timecode_chars(tc);
    assert forall|k: int| 0 <= k < hl implies s[i + k] == h[k] by {
        assert(s[i + k] == rc[k]);
        assert(rc[k] == h[k]);
    }
    assert forall|k: int| i <= k < i + hl implies is_digit(s[k]) by {
        assert(s[k] == rc[k - i]);
        assert(rc[k - i] == h[k - i]);
    }
    assert(s[i + hl] == rc[hl]);
    assert(rc[hl] == ':');
    lemma_digits_end_finds(s, i, i + hl);
    let he = i + hl;
    lemma_digits_val_shift(s, i, he);
    assert(s.subrange(i, he) =~= h);
    lemma_dec_rep_val(tc.hours as nat);
    assert(digits_val(s, i, he) == tc.hours as nat);
    assert(s[he + 1] == rc[hl + 1] && s[he + 2] == rc[hl + 2] && s[he + 3] == rc[hl + 3]);
    assert(s[he + 4] == rc[hl + 4] && s[he + 5] == rc[hl + 5] && s[he + 6] == rc[hl + 6]);
    assert(s[he + 7] == rc[hl + 7] && s[he + 8] == rc[hl + 8] && s[he + 9] == rc[hl + 9]);
    let m = tc.minutes as nat;
    let sec = tc.seconds as nat;
    let ms = tc.milliseconds as nat;
    assert(rc[hl + 1] == digit_char((m / 10) % 10) && rc[hl + 2] == digit_char(m % 10));
    assert(rc[hl + 4] == digit_char((sec / 10) % 10) && rc[hl + 5] == digit_char(sec % 10));
    assert(rc[hl + 7] == digit_char((ms / 100) % 10) && rc[hl + 8] == digit_char((ms / 10) % 10)
        && rc[hl + 9] == digit_char(ms % 10));
    assert(((m / 10) % 10) * 10 + m % 10 == m);
    assert(((sec / 10) % 10) * 10 + sec % 10 == sec);
    assert(((ms / 100) % 10) * 100 + ((ms / 10) % 10) * 10 + ms % 10 == ms);
    match spec_timecode(s, i) {
        Some((got, e)) => {
            assert(got.hours == tc.hours);
            assert(got.minutes == tc.minutes);
            assert(got.seconds == tc.seconds);
            assert(got.milliseconds == tc.milliseconds);
            assert(e == i + rc.len());
        },
        None => {
            assert(false);
        },
    }
}

/// Reading a rendered timespan line out of the middle of a larger
/// text, up to the newline that ends the line, yields the timespan
/// back and moves to the start of the next line.
#[verifier::rlimit(100)]
#[verifier::spinoff_prover]
proof fn lemma_timespan_line_parses(s: Seq<char>, i: int, ts: Timespan)
    requires
        ts.wf(),
        0 <= i,
        i + spec_render_timespan(ts).len() < s.len(),
        forall|k: int|
            0 <= k < spec_render_timespan(ts).len() ==> s[i + k]
                == #[trigger] spec_render_timespan(ts)[k],
        s[i + spec_render_timespan(ts).len()] == '\n',
    ensures
        spec_timespan_line(s, i) == Ok::<(Timespan, int), crate::errors::ErrorKind>(
            (ts, i + spec_render_timespan(ts).len() + 1),
        ),
{
    let b = spec_render_timespan(ts);
    let bl = b.len() as int;
    let rc1 = spec_render_timecode(ts.start);
    let rc2 = spec_render_timecode(ts.end);
    let l1 = rc1.len() as int;
    let l2 = rc2.len() as int;
    lemma_render_timecode_chars(ts.start);
    lemma_render_timecode_chars(ts.end);
    assert(bl == l1 + 5 + l2);
    assert forall|k: int| 0 <= k < l1 implies b[k] == rc1[k] by {}
    assert(b[l1] == ' ' && b[l1 + 1] == '-' && b[l1 + 2] == '-' && b[l1 + 3] == '>' && b[l1 + 4]
        == ' ');
    assert forall|k: int| 0 <= k < l2 implies b[l1 + 5 + k] == rc2[k] by {}
    // the first timecode, ended by the arrow's padding
    assert forall|k: int| 0 <= k < l1 implies s[i + k] == rc1[k] by {
        assert(s[i + k] == b[k]);
    }
    assert(s[i + l1] == ' ');
    lemma_timecode_parses(s, i, ts.start);
    let e1 = i + l1;
    // one space of padding, then the arrow
    assert(s[e1 + 1] == '-' && s[e1 + 2] == '-' && s[e1 + 3] == '>');
    lemma_skip_hspace_finds(s, e1, e1 + 1);
    let a = e1 + 1;
    // one space of padding, then the second timecode
    assert(s[a + 3] == ' ');
    assert(s[a + 4] == rc2[0]);
    assert(is_digit(rc2[0]) || rc2[0] == ':' || rc2[0] == ',');
    assert(rc2[0] == dec_rep(ts.end.hours as nat)[0]);
    lemma_dec_rep_digits(ts.end.hours as nat);
    assert(is_digit(s[a + 4]));
    lemma_skip_hspace_finds(s, a + 3, a + 4);
    let bpos = a + 4;
    assert forall|k: int| 0 <= k < l2 implies s[bpos + k] == rc2[k] by {
        assert(s[i + (l1 + 5 + k)] == b[l1 + 5 + k]);
    }
    assert(s[bpos + l2] == '\n');
    lemma_timecode_parses(s, bpos, ts.end);
    let e2 = bpos + l2;
    assert(e2 == i + bl);
    // the line ends right after the second timecode
    lemma_skip_hspace_finds(s, e2, e2);
    assert forall|k: int| i <= k < i + bl implies s[k] != '\n' by {
        let j = k - i;
        assert(s[k] == b[j]);
        if j < l1 {
            assert(b[j] == rc1[j]);
            assert(is_digit(rc1[j]) || rc1[j] == ':' || rc1[j] == ',');
        } else if j >= l1 + 5 {
            assert(b[j] == rc2[j - l1 - 5]);
            assert(is_digit(rc2[j - l1 - 5]) || rc2[j - l1 - 5] == ':' || rc2[j - l1 - 5] == ',');
        }
    }
    lemma_line_end_finds(s, i, i + bl);
    match spec_timespan_line(s, i) {
        Ok((got, p)) => {
            assert(got == ts);
            assert(p == i + bl + 1);
        },
        Err(_) => {
            assert(false);
        },
    }
}

/// The round-trip law: rendering an entry and parsing the rendered
/// text yields exactly one entry and no errors, and that entry's
/// index, timespan and text are the ones rendered.
#[verifier::rlimit(100)]
#[verifier::spinoff_prover]
pub proof fn lemma_render_parse_round_trip(e: EntryV)
    requires
        renderable(e),
    ensures
        spec_parse(spec_render_entry(e)).1 == Seq::<ErrV>::empty(),
        spec_parse(spec_render_entry(e)).0.len() == 1,
        spec_parse(spec_render_entry(e)).0[0].index == e.index,
        spec_parse(spec_render_entry(e)).0[0].timespan == e.timespan,
        spec_parse(spec_render_entry(e)).0[0].text == e.text,
{
    let s = spec_render_entry(e);
    let h = dec_rep(e.index as nat);
    let hl = h.len() as int;
    let b = spec_render_timespan(e.timespan);
    let bl = b.len() as int;
    let tail: Seq<char> = if e.text.len() == 0 {
        Seq::<char>::empty()
    } else {
        e.text + seq!['\n']
    };
    let tl = tail.len() as int;
    lemma_dec_rep_digits(e.index as nat);
    assert(s.len() == hl + 1 + bl + 1 + tl);
    assert forall|k: int| 0 <= k < hl implies s[k] == h[k] by {}
    assert(s[hl] == '\n');
    assert forall|k: int| 0 <= k < bl implies s[hl + 1 + k] == b[k] by {}
    assert(s[hl + 1 + bl] == '\n');
    assert forall|k: int| 0 <= k < tl implies s[hl + bl + 2 + k] == tail[k] by {}
    // the first line is the index: digits, then the newline
    assert(is_digit(s[0]));
    assert(skip_blank_lines(s, 0) == 0) by {
        assert(s[0] != '\n');
    }
    lemma_line_end_finds(s, 0, hl);
    lemma_digits_end_finds(s, 0, hl);
    lemma_digits_val_shift(s, 0, hl);
    assert(s.subrange(0, hl) =~= h);
    lemma_dec_rep_val(e.index as nat);
    assert(digits_val(s, 0, hl) == e.index as nat);
    // the second line is the timespan
    let p1 = hl + 1;
    lemma_timespan_line_parses(s, p1, e.timespan);
    let p2 = p1 + bl + 1;
    // the text block
    let te = text_end(s, p2);
    if e.text.len() == 0 {
        assert(p2 == s.len());
        assert(te == p2);
        assert(crate::parser::spec_text(s, p2) =~= e.text);
    } else {
        assert(s[p2] == e.text[0]);
        assert(s[s.len() - 1] == tail[tl - 1]);
        assert(tail[tl - 1] == '\n');
        assert forall|k: int| p2 <= k < s.len() - 1 implies !(#[trigger] s[k] == '\n' && s[k + 1]
            == '\n') by {
            let j = k - p2;
            assert(s[k] == tail[j]);
            assert(s[k + 1] == tail[j + 1]);
            if j < tl - 2 {
                assert(tail[j] == e.text[j] && tail[j + 1] == e.text[j + 1]);
                assert(!(e.text[j] == '\n' && e.text[j + 1] == '\n'));
            } else {
                assert(j == tl - 2);
                assert(tail[j] == e.text[e.text.len() - 1]);
            }
        }
        lemma_text_end_runs_out(s, p2);
        assert(te == s.len());
        assert(s[te - 1] == '\n');
        assert(crate::parser::spec_text(s, p2) =~= e.text);
    }
    // one block, no errors, and nothing after it
    match spec_block(s, 0) {
        BlockOutcome::Parsed { entry, next } => {
            assert(entry.index == e.index);
            assert(entry.timespan == e.timespan);
            assert(entry.text == e.text);
            assert(next == s.len() as int);
            assert(spec_parse_from(s, next) == (Seq::<EntryV>::empty(), Seq::<ErrV>::empty()));
            assert(spec_parse_from(s, 0).0 =~= seq![entry]);
            assert(spec_parse_from(s, 0).1 =~= Seq::<ErrV>::empty());
        },
        BlockOutcome::Failed { err, next } => {
            assert(false);
        },
    }
}

} // verus!
