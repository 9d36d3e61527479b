//! Line and digit scanning over the source text.
//!
//! The grammar is line oriented, so everything else is built from a few
//! scanning primitives: find the end of the current line, skip blank
//! lines, find the end of a run of decimal digits, and read the value of
//! such a run. Each primitive exists twice: a spec function over the
//! source's character sequence, and an executable function proved to
//! compute exactly the spec function.

use vstd::prelude::*;

verus! {

/// Whether `c` is a decimal digit.
pub open spec fn is_digit(c: char) -> bool {
    '0' <= c && c <= '9'
}

/// The numeric value of the digit `c`.
pub open spec fn digit_val(c: char) -> nat
    recommends
        is_digit(c),
{
    (c as nat - '0' as nat) as nat
}

/// The offset of the first newline at or after `i`, or `s.len()` when
/// the rest of the text holds none: the exclusive end of the line that
/// starts at `i`.
pub open spec fn line_end(s: Seq<char>, i: int) -> int
    recommends
        0 <= i <= s.len(),
    decreases s.len() - i,
{
    if i < 0 || i >= s.len() {
        s.len() as int
    } else if s[i] == '\n' {
        i
    } else {
        line_end(s, i + 1)
    }
}

/// `line_end` stays within `[i, s.len()]`, points at a newline unless it
/// is the end of the text, and nothing before it on the line is one.
pub proof fn lemma_line_end(s: Seq<char>, i: int)
    requires
        0 <= i <= s.len(),
    ensures
        i <= line_end(s, i) <= s.len(),
        line_end(s, i) < s.len() ==> s[line_end(s, i)] == '\n',
        forall|k: int| i <= k < line_end(s, i) ==> s[k] != '\n',
    decreases s.len() - i,
{
    if i < s.len() && s[i] != '\n' {
        lemma_line_end(s, i + 1);
    }
}

/// The start of the line after the one that starts at `i`.
pub open spec fn next_line_start(s: Seq<char>, i: int) -> int
    recommends
        0 <= i <= s.len(),
{
    if line_end(s, i) < s.len() {
        line_end(s, i) + 1
    } else {
        s.len() as int
    }
}

/// The first offset at or after `i` whose character is not a newline,
/// or `s.len()`: skipping blank lines between blocks.
pub open spec fn skip_blank_lines(s: Seq<char>, i: int) -> int
    recommends
        0 <= i <= s.len(),
    decreases s.len() - i,
{
    if i < 0 || i >= s.len() {
        s.len() as int
    } else if s[i] == '\n' {
        skip_blank_lines(s, i + 1)
    } else {
        i
    }
}

/// `skip_blank_lines` stays within bounds, skips only newlines, and
/// stops on the first character that is not one.
pub proof fn lemma_skip_blank_lines(s: Seq<char>, i: int)
    requires
        0 <= i <= s.len(),
    ensures
        i <= skip_blank_lines(s, i) <= s.len(),
        skip_blank_lines(s, i) < s.len() ==> s[skip_blank_lines(s, i)] != '\n',
        forall|k: int| i <= k < skip_blank_lines(s, i) ==> s[k] == '\n',
    decreases s.len() - i,
{
    if i < s.len() && s[i] == '\n' {
        lemma_skip_blank_lines(s, i + 1);
    }
}

/// The offset of the first character at or after `i` that is not a
/// decimal digit, or `s.len()`: the exclusive end of the digit run
/// starting at `i`.
pub open spec fn digits_end(s: Seq<char>, i: int) -> int
    recommends
        0 <= i <= s.len(),
    decreases s.len() - i,
{
    if i < 0 || i >= s.len() {
        s.len() as int
    } else if is_digit(s[i]) {
        digits_end(s, i + 1)
    } else {
        i
    }
}

/// `digits_end` stays within bounds, covers only digits, and stops on
/// the first character that is not one.
pub proof fn lemma_digits_end(s: Seq<char>, i: int)
    requires
        0 <= i <= s.len(),
    ensures
        i <= digits_end(s, i) <= s.len(),
        digits_end(s, i) < s.len() ==> !is_digit(s[digits_end(s, i)]),
        forall|k: int| i <= k < digits_end(s, i) ==> is_digit(s[k]),
    decreases s.len() - i,
{
    if i < s.len() && is_digit(s[i]) {
        lemma_digits_end(s, i + 1);
    }
}

/// Whether every character in `[i, j)` is a decimal digit.
pub open spec fn all_digits(s: Seq<char>, i: int, j: int) -> bool {
    forall|k: int| i <= k < j ==> is_digit(s[k])
}

/// The value of the decimal digit run `s[i..j]`, most significant digit
/// first.
pub open spec fn digits_val(s: Seq<char>, i: int, j: int) -> nat
    recommends
        0 <= i <= j <= s.len(),
        all_digits(s, i, j),
    decreases j - i,
{
    if j <= i {
        0
    } else {
        digits_val(s, i, j - 1) * 10 + digit_val(s[j - 1])
    }
}

/// Reading one more digit never shrinks the value.
pub proof fn lemma_digits_val_grows(s: Seq<char>, i: int, j: int, j2: int)
    requires
        i <= j <= j2,
    ensures
        digits_val(s, i, j) <= digits_val(s, i, j2),
    decreases j2 - j,
{
    if j < j2 {
        lemma_digits_val_grows(s, i, j, j2 - 1);
        assert(digits_val(s, i, j2 - 1) * 10 >= digits_val(s, i, j2 - 1) * 1) by (nonlinear_arith);
    }
}

/// The first offset at or after `i` whose character is not a space or a
/// horizontal tab, or `s.len()`: skipping the padding around the arrow
/// of a timespan line.
pub open spec fn skip_hspace(s: Seq<char>, i: int) -> int
    recommends
        0 <= i <= s.len(),
    decreases s.len() - i,
{
    if i < 0 || i >= s.len() {
        s.len() as int
    } else if s[i] == ' ' || s[i] == '\t' {
        skip_hspace(s, i + 1)
    } else {
        i
    }
}

/// `skip_hspace` stays within bounds, skips only horizontal space, and
/// stops on the first character that is not such.
pub proof fn lemma_skip_hspace(s: Seq<char>, i: int)
    requires
        0 <= i <= s.len(),
    ensures
        i <= skip_hspace(s, i) <= s.len(),
        skip_hspace(s, i) < s.len() ==> s[skip_hspace(s, i)] != ' ' && s[skip_hspace(s, i)]
            != '\t',
        forall|k: int| i <= k < skip_hspace(s, i) ==> (s[k] == ' ' || s[k] == '\t'),
    decreases s.len() - i,
{
    if i < s.len() && (s[i] == ' ' || s[i] == '\t') {
        lemma_skip_hspace(s, i + 1);
    }
}

/// The exclusive end of the run of non-blank lines that starts at `i`:
/// scans whole lines until a blank line or the end of the text. This is
/// both where a text block ends and where error recovery synchronizes.
pub open spec fn text_end(s: Seq<char>, i: int) -> int
    recommends
        0 <= i <= s.len(),
    decreases s.len() - i
        when 0 <= i <= s.len()
        via text_end_decreases
{
    if i >= s.len() {
        i
    } else if s[i] == '\n' {
        i
    } else {
        text_end(s, next_line_start(s, i))
    }
}

#[via_fn]
proof fn text_end_decreases(s: Seq<char>, i: int) {
    if 0 <= i < s.len() && s[i] != '\n' {
        lemma_line_end(s, i);
    }
}

/// `text_end` stays within bounds and moves strictly forward off a
/// non-blank line; it stops at a blank line or at the end of the text.
pub proof fn lemma_text_end(s: Seq<char>, i: int)
    requires
        0 <= i <= s.len(),
    ensures
        i <= text_end(s, i) <= s.len(),
        text_end(s, i) < s.len() ==> s[text_end(s, i)] == '\n',
        i < s.len() && s[i] != '\n' ==> text_end(s, i) > i,
    decreases s.len() - i,
{
    if i < s.len() && s[i] != '\n' {
        lemma_line_end(s, i);
        lemma_text_end(s, next_line_start(s, i));
    }
}

/// `line_end` lands exactly on `p` when nothing before `p` on the line
/// is a newline and `p` is one, or is the end of the text.
pub proof fn lemma_line_end_finds(s: Seq<char>, i: int, p: int)
    requires
        0 <= i <= p <= s.len(),
        forall|k: int| i <= k < p ==> s[k] != '\n',
        p == s.len() || s[p] == '\n',
    ensures
        line_end(s, i) == p,
    decreases p - i,
{
    if i < p {
        lemma_line_end_finds(s, i + 1, p);
    }
}

/// `digits_end` lands exactly on `p` when everything before `p` is a
/// digit and `p` is not one, or is the end of the text.
pub proof fn lemma_digits_end_finds(s: Seq<char>, i: int, p: int)
    requires
        0 <= i <= p <= s.len(),
        forall|k: int| i <= k < p ==> is_digit(s[k]),
        p == s.len() || !is_digit(s[p]),
    ensures
        digits_end(s, i) == p,
    decreases p - i,
{
    if i < p {
        lemma_digits_end_finds(s, i + 1, p);
    }
}

/// `skip_hspace` lands exactly on `p` when everything before `p` is
/// horizontal space and `p` is not, or is the end of the text.
pub proof fn lemma_skip_hspace_finds(s: Seq<char>, i: int, p: int)
    requires
        0 <= i <= p <= s.len(),
        forall|k: int| i <= k < p ==> (s[k] == ' ' || s[k] == '\t'),
        p == s.len() || (s[p] != ' ' && s[p] != '\t'),
    ensures
        skip_hspace(s, i) == p,
    decreases p - i,
{
    if i < p {
        lemma_skip_hspace_finds(s, i + 1, p);
    }
}

/// When the rest of the text from `i` on is one run of non-blank lines
/// — it does not start with a newline, holds no two newlines in a row,
/// and ends with one — the text block runs to the very end.
pub proof fn lemma_text_end_runs_out(s: Seq<char>, i: int)
    requires
        0 <= i < s.len(),
        s[i] != '\n',
        s[s.len() - 1] == '\n',
        forall|k: int| i <= k < s.len() - 1 ==> !(#[trigger] s[k] == '\n' && s[k + 1] == '\n'),
    ensures
        text_end(s, i) == s.len(),
    decreases s.len() - i,
{
    lemma_line_end(s, i);
    let le = line_end(s, i);
    let nls = next_line_start(s, i);
    if le == s.len() {
        assert(s[s.len() - 1] != '\n');
    }
    assert(text_end(s, i) == text_end(s, nls));
    if nls < s.len() {
        assert(s[nls - 1] == '\n');
        if s[nls] == '\n' {
            let k = nls - 1;
            assert(!(s[k] == '\n' && s[k + 1] == '\n'));
        }
        lemma_text_end_runs_out(s, nls);
    } else {
        assert(nls == s.len());
        assert(text_end(s, nls) == s.len());
    }
}

/// The value of a digit run depends only on the characters in it.
pub proof fn lemma_digits_val_congruent(s1: Seq<char>, s2: Seq<char>, i: int, j: int)
    requires
        forall|k: int| i <= k < j ==> s1[k] == s2[k],
    ensures
        digits_val(s1, i, j) == digits_val(s2, i, j),
    decreases j - i,
{
    if i < j {
        lemma_digits_val_congruent(s1, s2, i, j - 1);
    }
}

/// Reading a digit run in place reads the run extracted on its own.
pub proof fn lemma_digits_val_shift(s: Seq<char>, i: int, j: int)
    requires
        0 <= i <= j <= s.len(),
    ensures
        digits_val(s, i, j) == digits_val(s.subrange(i, j), 0, j - i),
    decreases j - i,
{
    if i < j {
        lemma_digits_val_shift(s, i, j - 1);
        lemma_digits_val_congruent(s.subrange(i, j - 1), s.subrange(i, j), 0, j - 1 - i);
    }
}

/// Finds `line_end(s@, i)` executably.
pub fn line_end_at(s: &str, i: usize) -> (j: usize)
    requires
        i <= s@.len(),
    ensures
        j == line_end(s@, i as int),
{
    let n: usize = s.unicode_len();
    let mut j: usize = i;
    while j < n && s.get_char(j) != '\n'
        invariant
            i <= j <= n,
            n == s@.len(),
            line_end(s@, i as int) == line_end(s@, j as int),
        decreases n - j,
    {
        j = j + 1;
    }
    j
}

/// Finds `skip_blank_lines(s@, i)` executably.
pub fn skip_blank_lines_at(s: &str, i: usize) -> (j: usize)
    requires
        i <= s@.len(),
    ensures
        j == skip_blank_lines(s@, i as int),
{
    let n: usize = s.unicode_len();
    let mut j: usize = i;
    while j < n && s.get_char(j) == '\n'
        invariant
            i <= j <= n,
            n == s@.len(),
            skip_blank_lines(s@, i as int) == skip_blank_lines(s@, j as int),
        decreases n - j,
    {
        j = j + 1;
    }
    j
}

/// Finds `digits_end(s@, i)` executably.
pub fn digits_end_at(s: &str, i: usize) -> (j: usize)
    requires
        i <= s@.len(),
    ensures
        j == digits_end(s@, i as int),
{
    let n: usize = s.unicode_len();
    let mut j: usize = i;
    while j < n && '0' <= s.get_char(j) && s.get_char(j) <= '9'
        invariant
            i <= j <= n,
            n == s@.len(),
            digits_end(s@, i as int) == digits_end(s@, j as int),
        decreases n - j,
    {
        j = j + 1;
    }
    j
}

/// Finds `skip_hspace(s@, i)` executably.
pub fn skip_hspace_at(s: &str, i: usize) -> (j: usize)
    requires
        i <= s@.len(),
    ensures
        j == skip_hspace(s@, i as int),
{
    let n: usize = s.unicode_len();
    let mut j: usize = i;
    while j < n && (s.get_char(j) == ' ' || s.get_char(j) == '\t')
        invariant
            i <= j <= n,
            n == s@.len(),
            skip_hspace(s@, i as int) == skip_hspace(s@, j as int),
        decreases n - j,
    {
        j = j + 1;
    }
    j
}

/// Finds `text_end(s@, i)` executably.
pub fn text_end_at(s: &str, i: usize) -> (j: usize)
    requires
        i <= s@.len(),
    ensures
        j == text_end(s@, i as int),
{
    let n: usize = s.unicode_len();
    let mut j: usize = i;
    while j < n && s.get_char(j) != '\n'
        invariant
            i <= j <= n,
            n == s@.len(),
            text_end(s@, i as int) == text_end(s@, j as int),
        decreases n - j,
    {
        let le: usize = line_end_at(s, j);
        proof {
            lemma_line_end(s@, j as int);
        }
        if le < n {
            j = le + 1;
        } else {
            j = le;
        }
    }
    j
}

/// Reads the value of the digit run `s[i..j]`, or reports that it does
/// not fit in a `u32`.
pub fn digits_value_at(s: &str, i: usize, j: usize) -> (r: Option<u32>)
    requires
        i <= j <= s@.len(),
        all_digits(s@, i as int, j as int),
    ensures
        match r {
            Some(v) => v == digits_val(s@, i as int, j as int) && digits_val(
                s@,
                i as int,
                j as int,
            ) <= u32::MAX,
            None => digits_val(s@, i as int, j as int) > u32::MAX,
        },
{
    let mut acc: u64 = 0;
    let mut k: usize = i;
    while k < j
        invariant
            i <= k <= j <= s@.len(),
            all_digits(s@, i as int, j as int),
            acc == digits_val(s@, i as int, k as int),
            acc <= u32::MAX,
        decreases j - k,
    {
        let c: char = s.get_char(k);
        let d: u32 = (c as u32) - ('0' as u32);
        let next: u64 = acc * 10 + (d as u64);
        if next > u32::MAX as u64 {
            proof {
                lemma_digits_val_grows(s@, i as int, k as int + 1, j as int);
            }
            return None;
        }
        acc = next;
        k = k + 1;
    }
    Some(acc as u32)
}

} // verus!
