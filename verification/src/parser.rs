//! The lexical/structural SRT parser.
//!
//! The grammar is line oriented: an entry is an index line, a timespan
//! line, a possibly empty text block, and a blank-line (or end of
//! input) delimiter, in that order. The whole parse is first defined as
//! spec functions over the source's character sequence; the executable
//! parser is then proved to return exactly what those functions
//! describe. Error recovery discards a malformed block up to the next
//! blank line, records one error whose span covers the discarded
//! region, and resumes, so a failure never costs more than its own
//! block and the parser always moves forward.

use vstd::prelude::*;
use crate::entry::{Entry, EntryV, Token, TokenV};
use crate::errors::{ErrorKind, ParseError};
use crate::scan::{
    all_digits, digit_val, digits_end, digits_end_at, digits_val, digits_value_at, is_digit,
    lemma_digits_end, lemma_line_end, lemma_skip_blank_lines, lemma_skip_hspace, lemma_text_end,
    line_end, line_end_at, next_line_start, skip_blank_lines, skip_blank_lines_at, skip_hspace,
    skip_hspace_at, text_end, text_end_at,
};
use crate::span::Span;
use crate::timecode::{Timecode, Timespan};

verus! {

/// The mathematical content of a `ParseError`.
pub struct ErrV {
    pub start: int,
    pub end: int,
    pub kind: ErrorKind,
}

impl View for ParseError {
    type V = ErrV;

    open spec fn view(&self) -> ErrV {
        ErrV { start: self.span.start as int, end: self.span.end as int, kind: self.kind }
    }
}

/// What scanning one block from a non-blank line yields: an entry, or
/// one error covering the discarded region; either way, the offset at
/// which scanning resumes.
pub enum BlockOutcome {
    Parsed { entry: EntryV, next: int },
    Failed { err: ErrV, next: int },
}

/// Reads the timecode pattern `H+:MM:SS,mmm` at `i`: one or more hours
/// digits whose value fits `u32`, then exactly two digits of minutes,
/// two of seconds and three of milliseconds behind their `:` and `,`
/// separators. Yields the timecode and the offset just past it.
pub open spec fn spec_timecode(s: Seq<char>, i: int) -> Option<(Timecode, int)>
    recommends
        0 <= i <= s.len(),
{
    let he = digits_end(s, i);
    if he == i || digits_val(s, i, he) > u32::MAX {
        None
    } else if !(he + 10 <= s.len() && s[he] == ':' && is_digit(s[he + 1]) && is_digit(s[he + 2])
        && s[he + 3] == ':' && is_digit(s[he + 4]) && is_digit(s[he + 5]) && s[he + 6] == ','
        && is_digit(s[he + 7]) && is_digit(s[he + 8]) && is_digit(s[he + 9])) {
        None
    } else if he + 10 < s.len() && is_digit(s[he + 10]) {
        // the milliseconds field is exactly three digits wide
        None
    } else {
        Some(
            (
                Timecode {
                    hours: digits_val(s, i, he) as u32,
                    minutes: (digit_val(s[he + 1]) * 10 + digit_val(s[he + 2])) as u32,
                    seconds: (digit_val(s[he + 4]) * 10 + digit_val(s[he + 5])) as u32,
                    milliseconds: (digit_val(s[he + 7]) * 100 + digit_val(s[he + 8]) * 10
                        + digit_val(s[he + 9])) as u32,
                },
                he + 10,
            ),
        )
    }
}

/// Reads a whole timespan line starting at `i`: a timecode, the `-->`
/// marker with arbitrary horizontal padding around it, a second
/// timecode, and then the end of the line (trailing horizontal padding
/// permitted). Yields the timespan and the start of the next line, or
/// the kind of failure.
pub open spec fn spec_timespan_line(s: Seq<char>, i: int) -> Result<(Timespan, int), ErrorKind>
    recommends
        0 <= i <= s.len(),
{
    match spec_timecode(s, i) {
        None => Err(ErrorKind::MalformedTimecode),
        Some((start_tc, e1)) => {
            let a = skip_hspace(s, e1);
            if !(a + 3 <= s.len() && s[a] == '-' && s[a + 1] == '-' && s[a + 2] == '>') {
                Err(ErrorKind::MalformedTimespan)
            } else {
                match spec_timecode(s, skip_hspace(s, a + 3)) {
                    None => Err(ErrorKind::MalformedTimecode),
                    Some((end_tc, e2)) => {
                        if skip_hspace(s, e2) != line_end(s, i) {
                            Err(ErrorKind::MalformedTimespan)
                        } else {
                            Ok(
                                (
                                    Timespan { start: start_tc, end: end_tc },
                                    next_line_start(s, i),
                                ),
                            )
                        }
                    },
                }
            }
        },
    }
}

/// The text of a text block that starts at `i` and runs to
/// `text_end(s, i)`: the lines verbatim, with the newline separators
/// between them preserved but without the newline that ends the last
/// line.
pub open spec fn spec_text(s: Seq<char>, i: int) -> Seq<char>
    recommends
        0 <= i <= s.len(),
{
    let te = text_end(s, i);
    if te > i && s[te - 1] == '\n' {
        s.subrange(i, te - 1)
    } else {
        s.subrange(i, te)
    }
}

/// The offset at which scanning resumes once the region up to `e`
/// (a blank line or the end of the input) is consumed: past the one
/// blank line that delimits the block, if there is one.
pub open spec fn spec_resume(s: Seq<char>, e: int) -> int
    recommends
        0 <= e <= s.len(),
{
    if e < s.len() {
        e + 1
    } else {
        e
    }
}

/// The error outcome for the block starting at `i`: the block is
/// discarded up to the next blank line (or end of input), one error of
/// kind `kind` covers exactly the discarded region, and scanning
/// resumes past the delimiter.
pub open spec fn spec_fail(s: Seq<char>, i: int, kind: ErrorKind) -> BlockOutcome
    recommends
        0 <= i <= s.len(),
{
    let e = text_end(s, i);
    BlockOutcome::Failed { err: ErrV { start: i, end: e, kind }, next: spec_resume(s, e) }
}

/// Scans one block whose first line starts at `i` and is not blank.
/// The order of the attempts encodes the grammar: index line, timespan
/// line, text block, delimiter. On any failure the whole block becomes
/// one error via `spec_fail`.
pub open spec fn spec_block(s: Seq<char>, i: int) -> BlockOutcome
    recommends
        0 <= i < s.len(),
        s[i] != '\n',
{
    let le0 = line_end(s, i);
    if !(le0 > i && all_digits(s, i, le0)) {
        // not an index line; say whether it at least began like one
        spec_fail(
            s,
            i,
            if is_digit(s[i]) {
                ErrorKind::MalformedIndex
            } else {
                ErrorKind::UnexpectedCharacter
            },
        )
    } else if digits_val(s, i, le0) > u32::MAX {
        spec_fail(s, i, ErrorKind::MalformedIndex)
    } else {
        let p1 = next_line_start(s, i);
        if p1 >= s.len() {
            // the input ended where the block still owed a timespan line
            spec_fail(s, i, ErrorKind::UnterminatedBlock)
        } else {
            match spec_timespan_line(s, p1) {
                Err(kind) => spec_fail(s, i, kind),
                Ok((ts, p2)) => {
                    let te = text_end(s, p2);
                    BlockOutcome::Parsed {
                        entry: EntryV {
                            index: digits_val(s, i, le0) as u32,
                            timespan: ts,
                            text: spec_text(s, p2),
                            span_start: i,
                            span_end: te,
                        },
                        next: spec_resume(s, te),
                    }
                },
            }
        }
    }
}

/// Whichever way a block goes, scanning resumes strictly beyond where
/// it began: the forward-progress invariant that bounds the parse by
/// the input length.
pub proof fn lemma_block_progress(s: Seq<char>, i: int)
    requires
        0 <= i < s.len(),
        s[i] != '\n',
    ensures
        match spec_block(s, i) {
            BlockOutcome::Parsed { entry, next } => i < next <= s.len() && i == entry.span_start
                && entry.span_start <= entry.span_end <= s.len() && entry.span_end <= next,
            BlockOutcome::Failed { err, next } => i < next <= s.len() && i == err.start
                && err.start <= err.end <= s.len() && err.end <= next,
        },
{
    lemma_line_end(s, i);
    lemma_text_end(s, i);
    let le0 = line_end(s, i);
    if le0 > i && all_digits(s, i, le0) && digits_val(s, i, le0) <= u32::MAX {
        let p1 = next_line_start(s, i);
        if p1 < s.len() {
            match spec_timespan_line(s, p1) {
                Err(_) => {},
                Ok((ts, p2)) => {
                    lemma_line_end(s, p1);
                    lemma_text_end(s, p2);
                },
            }
        }
    }
}

/// The parse of the whole suffix of `s` that starts at `i`: skip blank
/// lines, scan one block, recurse on the rest.
pub open spec fn spec_parse_from(s: Seq<char>, i: int) -> (Seq<EntryV>, Seq<ErrV>)
    recommends
        0 <= i <= s.len(),
    decreases s.len() - i
        when 0 <= i <= s.len()
        via spec_parse_from_decreases
{
    let j = skip_blank_lines(s, i);
    if j >= s.len() {
        (Seq::<EntryV>::empty(), Seq::<ErrV>::empty())
    } else {
        match spec_block(s, j) {
            BlockOutcome::Parsed { entry, next } => {
                let rest = spec_parse_from(s, next);
                (seq![entry] + rest.0, rest.1)
            },
            BlockOutcome::Failed { err, next } => {
                let rest = spec_parse_from(s, next);
                (rest.0, seq![err] + rest.1)
            },
        }
    }
}

#[via_fn]
proof fn spec_parse_from_decreases(s: Seq<char>, i: int) {
    lemma_skip_blank_lines(s, i);
    let j = skip_blank_lines(s, i);
    if j < s.len() {
        lemma_block_progress(s, j);
    }
}

/// What the parser returns on `s`: the entries of every well-formed
/// block in order, and one error per malformed block in order.
pub open spec fn spec_parse(s: Seq<char>) -> (Seq<EntryV>, Seq<ErrV>) {
    spec_parse_from(s, 0)
}

/// Every error the parse of the suffix at `i` reports lies within
/// `[i, s.len()]`, and the reported regions come in source order, one
/// after the other without overlap.
pub proof fn lemma_parse_from_spans(s: Seq<char>, i: int)
    requires
        0 <= i <= s.len(),
    ensures
        forall|j: int|
            0 <= j < spec_parse_from(s, i).1.len() ==> i <= (#[trigger] spec_parse_from(
                s,
                i,
            ).1[j]).start && spec_parse_from(s, i).1[j].start <= spec_parse_from(s, i).1[j].end
                <= s.len(),
        forall|j: int, k: int|
            0 <= j < k < spec_parse_from(s, i).1.len() ==> (#[trigger] spec_parse_from(
                s,
                i,
            ).1[j]).end <= (#[trigger] spec_parse_from(s, i).1[k]).start,
    decreases s.len() - i,
{
    lemma_skip_blank_lines(s, i);
    let j = skip_blank_lines(s, i);
    if j < s.len() {
        lemma_block_progress(s, j);
        match spec_block(s, j) {
            BlockOutcome::Parsed { entry, next } => {
                lemma_parse_from_spans(s, next);
            },
            BlockOutcome::Failed { err, next } => {
                lemma_parse_from_spans(s, next);
            },
        }
    }
}

/// Every entry the parse of the suffix at `i` yields carries the span
/// of the block it was read from: the spans lie within `[i, s.len()]`
/// and come in source order, one block after the other.
pub proof fn lemma_parse_from_entry_spans(s: Seq<char>, i: int)
    requires
        0 <= i <= s.len(),
    ensures
        forall|j: int|
            0 <= j < spec_parse_from(s, i).0.len() ==> i <= (#[trigger] spec_parse_from(
                s,
                i,
            ).0[j]).span_start && spec_parse_from(s, i).0[j].span_start <= spec_parse_from(
                s,
                i,
            ).0[j].span_end <= s.len(),
        forall|j: int, k: int|
            0 <= j < k < spec_parse_from(s, i).0.len() ==> (#[trigger] spec_parse_from(
                s,
                i,
            ).0[j]).span_end <= (#[trigger] spec_parse_from(s, i).0[k]).span_start,
    decreases s.len() - i,
{
    lemma_skip_blank_lines(s, i);
    let j = skip_blank_lines(s, i);
    if j < s.len() {
        lemma_block_progress(s, j);
        match spec_block(s, j) {
            BlockOutcome::Parsed { entry, next } => {
                lemma_parse_from_entry_spans(s, next);
                let rest = spec_parse_from(s, next).0;
                let all = spec_parse_from(s, i).0;
                assert(all == seq![entry] + rest);
                assert forall|j2: int, k2: int| 0 <= j2 < k2 < all.len() implies (
                #[trigger] all[j2]).span_end <= (#[trigger] all[k2]).span_start by {
                    assert(all[k2] == rest[k2 - 1]);
                    if j2 > 0 {
                        assert(all[j2] == rest[j2 - 1]);
                    }
                }
            },
            BlockOutcome::Failed { err, next } => {
                lemma_parse_from_entry_spans(s, next);
                assert(spec_parse_from(s, i).0 == spec_parse_from(s, next).0);
            },
        }
    }
}

/// Every error the parser reports lies within the input, and the
/// reported regions come in source order without overlap.
pub proof fn lemma_parse_spans(s: Seq<char>)
    ensures
        forall|j: int|
            0 <= j < spec_parse(s).1.len() ==> 0 <= (#[trigger] spec_parse(s).1[j]).start
                <= spec_parse(s).1[j].end <= s.len(),
        forall|j: int, k: int|
            0 <= j < k < spec_parse(s).1.len() ==> (#[trigger] spec_parse(s).1[j]).end
                <= (#[trigger] spec_parse(s).1[k]).start,
{
    lemma_parse_from_spans(s, 0);
}

/// Every entry the parser yields carries the span of the block it was
/// read from: the spans lie within the input and come in source order
/// without overlap, so downstream tooling can rely on the provenance.
pub proof fn lemma_parse_entry_spans(s: Seq<char>)
    ensures
        forall|j: int|
            0 <= j < spec_parse(s).0.len() ==> 0 <= (#[trigger] spec_parse(s).0[j]).span_start
                <= spec_parse(s).0[j].span_end <= s.len(),
        forall|j: int, k: int|
            0 <= j < k < spec_parse(s).0.len() ==> (#[trigger] spec_parse(s).0[j]).span_end
                <= (#[trigger] spec_parse(s).0[k]).span_start,
{
    lemma_parse_from_entry_spans(s, 0);
}

/// The lexical classification of the line starting at `i` (`None` only
/// at the end of the input): the blank-line delimiter, a timespan
/// line, an index line, or plain text. A line that begins with digits
/// could open either an index or a timespan; the timespan reading is
/// tried first and wins exactly when the full colon-delimited timecode
/// pattern with its arrow follows, so the classification is
/// deterministic.
pub open spec fn spec_next_token(s: Seq<char>, i: int) -> Option<(TokenV, int)>
    recommends
        0 <= i <= s.len(),
{
    if i >= s.len() {
        None
    } else if s[i] == '\n' {
        Some((TokenV::Delimeter, i + 1))
    } else {
        let le = line_end(s, i);
        let nxt = next_line_start(s, i);
        if spec_timespan_line(s, i) is Ok {
            Some((TokenV::Timespan(spec_timespan_line(s, i)->Ok_0.0), nxt))
        } else if all_digits(s, i, le) && digits_val(s, i, le) <= u32::MAX {
            Some((TokenV::Index(digits_val(s, i, le) as u32), nxt))
        } else {
            Some((TokenV::Text(s.subrange(i, le)), nxt))
        }
    }
}

/// Reads the next token at offset `i`, exactly as `spec_next_token`
/// describes it, together with the offset just past it.
pub fn next_token(s: &str, i: usize) -> (r: Option<(Token, usize)>)
    requires
        i <= s@.len(),
    ensures
        r is Some <==> spec_next_token(s@, i as int) is Some,
        r matches Some((t, p)) ==> spec_next_token(s@, i as int) matches Some(sp) && t@ == sp.0
            && p as int == sp.1,
{
    let n: usize = s.unicode_len();
    if i >= n {
        return None;
    }
    if s.get_char(i) == '\n' {
        return Some((Token::Delimeter, i + 1));
    }
    let le: usize = line_end_at(s, i);
    proof {
        lemma_line_end(s@, i as int);
    }
    let nxt: usize = if le < n {
        le + 1
    } else {
        le
    };
    match timespan_line_at(s, i) {
        Ok((ts, _p)) => Some((Token::Timespan(ts), nxt)),
        Err(_) => {
            let de: usize = digits_end_at(s, i);
            proof {
                lemma_digits_end(s@, i as int);
                if de != le && all_digits(s@, i as int, le as int) {
                    assert(is_digit(s@[de as int]));
                }
            }
            if de == le {
                match digits_value_at(s, i, le) {
                    Some(v) => Some((Token::Index(v), nxt)),
                    None => Some((Token::Text(s.substring_char(i, le).to_owned()), nxt)),
                }
            } else {
                Some((Token::Text(s.substring_char(i, le).to_owned()), nxt))
            }
        },
    }
}

/// An empty input parses to no entries and no errors.
pub proof fn lemma_parse_empty(s: Seq<char>)
    requires
        s.len() == 0,
    ensures
        spec_parse(s) == (Seq::<EntryV>::empty(), Seq::<ErrV>::empty()),
{
}

/// An input of blank lines alone also parses to no entries and no
/// errors: leading and trailing blank lines are tolerated and produce
/// nothing.
pub proof fn lemma_parse_blank(s: Seq<char>)
    requires
        forall|k: int| 0 <= k < s.len() ==> s[k] == '\n',
    ensures
        spec_parse(s) == (Seq::<EntryV>::empty(), Seq::<ErrV>::empty()),
{
    lemma_skip_blank_lines(s, 0);
    let j = skip_blank_lines(s, 0);
    if j < s.len() {
        assert(s[j] == '\n');
    }
}

/// Reads the timecode pattern `H+:MM:SS,mmm` at offset `i`, exactly as
/// `spec_timecode` describes it.
fn timecode_at(s: &str, i: usize) -> (r: Option<(Timecode, usize)>)
    requires
        i <= s@.len(),
    ensures
        r is Some <==> spec_timecode(s@, i as int) is Some,
        r matches Some((tc, e)) ==> spec_timecode(s@, i as int) == Some::<(Timecode, int)>(
            (tc, e as int),
        ),
        r matches Some((tc, e)) ==> i < e <= s@.len(),
{
    let n: usize = s.unicode_len();
    let he: usize = digits_end_at(s, i);
    proof {
        lemma_digits_end(s@, i as int);
    }
    if he == i {
        return None;
    }
    let hours: u32 = match digits_value_at(s, i, he) {
        Some(v) => v,
        None => { return None; },
    };
    if !(n - he >= 10 && s.get_char(he) == ':' && is_digit_at(s, he + 1) && is_digit_at(s, he + 2)
        && s.get_char(he + 3) == ':' && is_digit_at(s, he + 4) && is_digit_at(s, he + 5)
        && s.get_char(he + 6) == ',' && is_digit_at(s, he + 7) && is_digit_at(s, he + 8)
        && is_digit_at(s, he + 9)) {
        return None;
    }
    if he + 10 < n && is_digit_at(s, he + 10) {
        return None;
    }
    let minutes: u32 = digit_at(s, he + 1) * 10 + digit_at(s, he + 2);
    let seconds: u32 = digit_at(s, he + 4) * 10 + digit_at(s, he + 5);
    let milliseconds: u32 = digit_at(s, he + 7) * 100 + digit_at(s, he + 8) * 10 + digit_at(
        s,
        he + 9,
    );
    Some((Timecode { hours, minutes, seconds, milliseconds }, he + 10))
}

/// Whether the character at offset `i` is a decimal digit.
fn is_digit_at(s: &str, i: usize) -> (r: bool)
    requires
        i < s@.len(),
    ensures
        r == is_digit(s@[i as int]),
{
    let c: char = s.get_char(i);
    '0' <= c && c <= '9'
}

/// The value of the decimal digit at offset `i`.
fn digit_at(s: &str, i: usize) -> (d: u32)
    requires
        i < s@.len(),
        is_digit(s@[i as int]),
    ensures
        d == digit_val(s@[i as int]),
        d <= 9,
{
    let c: char = s.get_char(i);
    (c as u32) - ('0' as u32)
}

/// Reads a whole timespan line at offset `i`, exactly as
/// `spec_timespan_line` describes it.
fn timespan_line_at(s: &str, i: usize) -> (r: Result<(Timespan, usize), ErrorKind>)
    requires
        i <= s@.len(),
    ensures
        r is Ok <==> spec_timespan_line(s@, i as int) is Ok,
        r matches Ok((ts, p)) ==> spec_timespan_line(s@, i as int) == Ok::<
            (Timespan, int),
            ErrorKind,
        >((ts, p as int)),
        r matches Ok((ts, p)) ==> i < p <= s@.len(),
        r matches Err(k) ==> spec_timespan_line(s@, i as int) == Err::<
            (Timespan, int),
            ErrorKind,
        >(k),
{
    let n: usize = s.unicode_len();
    let (start_tc, e1): (Timecode, usize) = match timecode_at(s, i) {
        Some(p) => p,
        None => { return Err(ErrorKind::MalformedTimecode); },
    };
    let a: usize = skip_hspace_at(s, e1);
    proof {
        lemma_skip_hspace(s@, e1 as int);
    }
    if !(n - a >= 3 && s.get_char(a) == '-' && s.get_char(a + 1) == '-' && s.get_char(a + 2)
        == '>') {
        return Err(ErrorKind::MalformedTimespan);
    }
    let b: usize = skip_hspace_at(s, a + 3);
    proof {
        lemma_skip_hspace(s@, a as int + 3);
    }
    let (end_tc, e2): (Timecode, usize) = match timecode_at(s, b) {
        Some(p) => p,
        None => { return Err(ErrorKind::MalformedTimecode); },
    };
    let t: usize = skip_hspace_at(s, e2);
    let le: usize = line_end_at(s, i);
    proof {
        lemma_line_end(s@, i as int);
    }
    if t != le {
        return Err(ErrorKind::MalformedTimespan);
    }
    if le < n {
        Ok((Timespan { start: start_tc, end: end_tc }, le + 1))
    } else {
        Ok((Timespan { start: start_tc, end: end_tc }, le))
    }
}

/// Parses a whole document: every structurally complete block becomes
/// one `Entry`, every malformed block exactly one `ParseError` covering
/// the discarded region, both in source order, as `spec_parse`
/// describes. Never panics and never fails as a whole: malformed input
/// only adds errors.
#[verifier::rlimit(60)]
pub fn parse(source: &str) -> (r: (Vec<Entry>, Vec<ParseError>))
    ensures
        r.0@.map_values(|e: Entry| e@) == spec_parse(source@).0,
        r.1@.map_values(|e: ParseError| e@) == spec_parse(source@).1,
{
    let n: usize = source.unicode_len();
    let mut entries: Vec<Entry> = Vec::new();
    let mut errors: Vec<ParseError> = Vec::new();
    let mut pos: usize = 0;
    while pos < n
        invariant
            pos <= n,
            n == source@.len(),
            spec_parse(source@).0 == entries@.map_values(|e: Entry| e@) + spec_parse_from(
                source@,
                pos as int,
            ).0,
            spec_parse(source@).1 == errors@.map_values(|e: ParseError| e@) + spec_parse_from(
                source@,
                pos as int,
            ).1,
        decreases n - pos,
    {
        let j: usize = skip_blank_lines_at(source, pos);
        proof {
            lemma_skip_blank_lines(source@, pos as int);
        }
        if j >= n {
            pos = j;
            continue;
        }
        proof {
            lemma_block_progress(source@, j as int);
        }
        let ghost entries_pre = entries@;
        let ghost errors_pre = errors@;
        let next: usize = match block_at(source, j) {
            Ok((entry, next)) => {
                entries.push(entry);
                proof {
                    assert(entries@.map_values(|e: Entry| e@) =~= entries_pre.map_values(
                        |e: Entry| e@,
                    ) + seq![entry@]);
                    assert(entries_pre.map_values(|e: Entry| e@) + spec_parse_from(
                        source@,
                        j as int,
                    ).0 =~= entries@.map_values(|e: Entry| e@) + spec_parse_from(
                        source@,
                        next as int,
                    ).0);
                }
                next
            },
            Err((err, next)) => {
                errors.push(err);
                proof {
                    assert(errors@.map_values(|e: ParseError| e@) =~= errors_pre.map_values(
                        |e: ParseError| e@,
                    ) + seq![err@]);
                    assert(errors_pre.map_values(|e: ParseError| e@) + spec_parse_from(
                        source@,
                        j as int,
                    ).1 =~= errors@.map_values(|e: ParseError| e@) + spec_parse_from(
                        source@,
                        next as int,
                    ).1);
                }
                next
            },
        };
        pos = next;
    }
    proof {
        assert(entries@.map_values(|e: Entry| e@) + spec_parse_from(source@, pos as int).0
            =~= entries@.map_values(|e: Entry| e@));
        assert(errors@.map_values(|e: ParseError| e@) + spec_parse_from(source@, pos as int).1
            =~= errors@.map_values(|e: ParseError| e@));
    }
    (entries, errors)
}

/// Scans one block whose first line starts at `j` and is not blank,
/// exactly as `spec_block` describes it; either way hands back the
/// offset at which scanning resumes.
fn block_at(s: &str, j: usize) -> (r: Result<(Entry, usize), (ParseError, usize)>)
    requires
        j < s@.len(),
        s@[j as int] != '\n',
    ensures
        r matches Ok((entry, next)) ==> spec_block(s@, j as int) == (BlockOutcome::Parsed {
            entry: entry@,
            next: next as int,
        }),
        r matches Err((err, next)) ==> spec_block(s@, j as int) == (BlockOutcome::Failed {
            err: err@,
            next: next as int,
        }),
{
    let n: usize = s.unicode_len();
    let le0: usize = line_end_at(s, j);
    proof {
        lemma_line_end(s@, j as int);
    }
    let de: usize = digits_end_at(s, j);
    proof {
        lemma_digits_end(s@, j as int);
    }
    // the index line is all digits exactly when the digit run reaches the line end
    if !(le0 > j && de == le0) {
        proof {
            if le0 > j && all_digits(s@, j as int, le0 as int) {
                assert(is_digit(s@[de as int]));
            }
        }
        let kind = if is_digit_at(s, j) {
            ErrorKind::MalformedIndex
        } else {
            ErrorKind::UnexpectedCharacter
        };
        return Err(fail_at(s, j, kind));
    }
    let index: u32 = match digits_value_at(s, j, le0) {
        Some(v) => v,
        None => { return Err(fail_at(s, j, ErrorKind::MalformedIndex)); },
    };
    let p1: usize = if le0 < n {
        le0 + 1
    } else {
        le0
    };
    if p1 >= n {
        return Err(fail_at(s, j, ErrorKind::UnterminatedBlock));
    }
    let (ts, p2): (Timespan, usize) = match timespan_line_at(s, p1) {
        Ok(p) => p,
        Err(kind) => { return Err(fail_at(s, j, kind)); },
    };
    let te: usize = text_end_at(s, p2);
    proof {
        lemma_text_end(s@, p2 as int);
    }
    let text: String = if te > p2 && s.get_char(te - 1) == '\n' {
        s.substring_char(p2, te - 1).to_owned()
    } else {
        s.substring_char(p2, te).to_owned()
    };
    let next: usize = if te < n {
        te + 1
    } else {
        te
    };
    let entry = Entry { index, timespan: ts, text, span: Span { start: j, end: te } };
    Ok((entry, next))
}

/// Builds the one error that stands for the whole malformed block at
/// `j`, spanning the discarded region, and the offset at which
/// scanning resumes.
fn fail_at(s: &str, j: usize, kind: ErrorKind) -> (r: (ParseError, usize))
    requires
        j < s@.len(),
        s@[j as int] != '\n',
    ensures
        spec_fail(s@, j as int, kind) == (BlockOutcome::Failed { err: r.0@, next: r.1 as int }),
{
    let n: usize = s.unicode_len();
    let e: usize = text_end_at(s, j);
    proof {
        lemma_text_end(s@, j as int);
    }
    let next: usize = if e < n {
        e + 1
    } else {
        e
    };
    (ParseError { span: Span { start: j, end: e }, kind }, next)
}

} // verus!
