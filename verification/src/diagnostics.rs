//! Mapping parse failures to line/column diagnostics.
//!
//! Parse errors carry offsets into the source text; the editor-facing
//! boundary wants zero-based line/column positions. The mapping scans
//! the text once per offset, and the positions it produces respect the
//! order of the offsets, so diagnostics come out sorted by source
//! position.

use vstd::prelude::*;
use crate::errors::{spec_message, ParseError};
use crate::parser::{lemma_parse_spans, parse, spec_parse, ErrV};

verus! {

/// The zero-based line number of offset `off`: how many newlines
/// precede it.
pub open spec fn line_of(s: Seq<char>, off: int) -> nat
    recommends
        0 <= off <= s.len(),
    decreases off,
{
    if off <= 0 {
        0
    } else if s[off - 1] == '\n' {
        line_of(s, off - 1) + 1
    } else {
        line_of(s, off - 1)
    }
}

/// The zero-based column of offset `off`: its distance from the start
/// of its line.
pub open spec fn col_of(s: Seq<char>, off: int) -> nat
    recommends
        0 <= off <= s.len(),
    decreases off,
{
    if off <= 0 {
        0
    } else if s[off - 1] == '\n' {
        0
    } else {
        col_of(s, off - 1) + 1
    }
}

/// One editor-consumable diagnostic: a zero-based line/column range
/// and a message. Every parse failure is reported as an error, the
/// only severity the core produces.
#[derive(Clone, Debug)]
pub struct Diagnostic {
    pub line: usize,
    pub column: usize,
    pub end_line: usize,
    pub end_column: usize,
    pub message: String,
}

/// The mathematical content of a `Diagnostic`.
pub struct DiagnosticV {
    pub line: nat,
    pub column: nat,
    pub end_line: nat,
    pub end_column: nat,
    pub message: Seq<char>,
}

impl View for Diagnostic {
    type V = DiagnosticV;

    open spec fn view(&self) -> DiagnosticV {
        DiagnosticV {
            line: self.line as nat,
            column: self.column as nat,
            end_line: self.end_line as nat,
            end_column: self.end_column as nat,
            message: self.message@,
        }
    }
}

/// The diagnostic that stands for one parse failure against the text
/// it came from.
pub open spec fn spec_diagnostic_of(s: Seq<char>, e: ErrV) -> DiagnosticV {
    DiagnosticV {
        line: line_of(s, e.start),
        column: col_of(s, e.start),
        end_line: line_of(s, e.end),
        end_column: col_of(s, e.end),
        message: spec_message(e.kind),
    }
}

/// Walking the text forward can only move the position forward: lines
/// never decrease, and within one line columns never decrease. An
/// offset at exactly the end of the input maps to the position just
/// past the last character, by the same rule.
pub proof fn lemma_position_monotone(s: Seq<char>, a: int, b: int)
    requires
        0 <= a <= b <= s.len(),
    ensures
        line_of(s, a) <= line_of(s, b),
        line_of(s, a) == line_of(s, b) ==> col_of(s, a) <= col_of(s, b),
    decreases b - a,
{
    if a < b {
        lemma_position_monotone(s, a, b - 1);
    }
}

/// Finds the line/column position of offset `off` in `text`.
pub fn position_of(text: &str, off: usize) -> (r: (usize, usize))
    requires
        off <= text@.len(),
    ensures
        r.0 == line_of(text@, off as int),
        r.1 == col_of(text@, off as int),
{
    let mut line: usize = 0;
    let mut col: usize = 0;
    let mut k: usize = 0;
    while k < off
        invariant
            k <= off <= text@.len(),
            line == line_of(text@, k as int),
            col == col_of(text@, k as int),
            line <= k,
            col <= k,
        decreases off - k,
    {
        if text.get_char(k) == '\n' {
            line = line + 1;
            col = 0;
        } else {
            col = col + 1;
        }
        k = k + 1;
    }
    (line, col)
}

/// Converts each parse failure into a line/column diagnostic, in
/// order. The positions are those of the failure spans' starts and
/// ends; the message is the failure kind's.
pub fn to_positions(text: &str, errors: &Vec<ParseError>) -> (r: Vec<Diagnostic>)
    requires
        forall|j: int|
            0 <= j < errors@.len() ==> (#[trigger] errors@[j]).span.wf() && errors@[j].span.end
                <= text@.len(),
    ensures
        r@.len() == errors@.len(),
        forall|j: int|
            0 <= j < errors@.len() ==> (#[trigger] r@[j])@ == spec_diagnostic_of(
                text@,
                errors@[j]@,
            ),
{
    let mut out: Vec<Diagnostic> = Vec::new();
    let mut j: usize = 0;
    while j < errors.len()
        invariant
            j <= errors@.len(),
            out@.len() == j,
            forall|i: int|
                0 <= i < errors@.len() ==> (#[trigger] errors@[i]).span.wf()
                    && errors@[i].span.end <= text@.len(),
            forall|i: int|
                0 <= i < j ==> (#[trigger] out@[i])@ == spec_diagnostic_of(text@, errors@[i]@),
        decreases errors@.len() - j,
    {
        let e: &ParseError = &errors[j];
        let (line, column) = position_of(text, e.span.start);
        let (end_line, end_column) = position_of(text, e.span.end);
        let message: String = e.message().to_owned();
        out.push(Diagnostic { line, column, end_line, end_column, message });
        j = j + 1;
    }
    out
}

/// Parses `text` and maps every failure straight to a diagnostic: one
/// diagnostic per malformed block, in source order.
pub fn parse_diagnostics(text: &str) -> (r: Vec<Diagnostic>)
    ensures
        r@.len() == spec_parse(text@).1.len(),
        forall|j: int|
            0 <= j < r@.len() ==> (#[trigger] r@[j])@ == spec_diagnostic_of(
                text@,
                spec_parse(text@).1[j],
            ),
{
    let (_entries, errors) = parse(text);
    proof {
        lemma_parse_spans(text@);
        assert forall|j: int| 0 <= j < errors@.len() implies (#[trigger] errors@[j]).span.wf()
            && errors@[j].span.end <= text@.len() by {
            assert(errors@.map_values(|e: ParseError| e@)[j] == spec_parse(text@).1[j]);
        }
    }
    let r = to_positions(text, &errors);
    proof {
        assert forall|j: int| 0 <= j < r@.len() implies (#[trigger] r@[j])@ == spec_diagnostic_of(
            text@,
            spec_parse(text@).1[j],
        ) by {
            assert(errors@.map_values(|e: ParseError| e@)[j] == spec_parse(text@).1[j]);
        }
    }
    r
}

/// The diagnostics of a parse come out sorted: mapping the failures
/// the parser reports on `s` yields positions that never step
/// backwards.
pub proof fn lemma_parse_diagnostics_ordered(s: Seq<char>)
    ensures
        forall|j: int, k: int|
            0 <= j < k < spec_parse(s).1.len() ==> {
                let p = spec_diagnostic_of(s, #[trigger] spec_parse(s).1[j]);
                let q = spec_diagnostic_of(s, #[trigger] spec_parse(s).1[k]);
                p.line < q.line || (p.line == q.line && p.column <= q.column)
            },
{
    lemma_parse_spans(s);
    lemma_diagnostics_ordered(s, spec_parse(s).1);
}

/// Diagnostics are non-decreasing in source position: whenever the
/// failure regions come in non-decreasing start order — as the parser
/// reports them — the mapped positions come in non-decreasing
/// line/column order.
pub proof fn lemma_diagnostics_ordered(s: Seq<char>, errors: Seq<ErrV>)
    requires
        forall|j: int|
            0 <= j < errors.len() ==> 0 <= (#[trigger] errors[j]).start && errors[j].start
                <= errors[j].end <= s.len(),
        forall|j: int, k: int|
            0 <= j < k < errors.len() ==> (#[trigger] errors[j]).start
                <= (#[trigger] errors[k]).start,
    ensures
        forall|j: int, k: int|
            0 <= j < k < errors.len() ==> {
                let p = spec_diagnostic_of(s, #[trigger] errors[j]);
                let q = spec_diagnostic_of(s, #[trigger] errors[k]);
                p.line < q.line || (p.line == q.line && p.column <= q.column)
            },
{
    assert forall|j: int, k: int| 0 <= j < k < errors.len() implies {
        let p = spec_diagnostic_of(s, #[trigger] errors[j]);
        let q = spec_diagnostic_of(s, #[trigger] errors[k]);
        p.line < q.line || (p.line == q.line && p.column <= q.column)
    } by {
        lemma_position_monotone(s, errors[j].start, errors[k].start);
    }
}

} // verus!
