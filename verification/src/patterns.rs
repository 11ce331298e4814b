//! The line shapes of a `@listspecs` sheet: the title bar, the lines that
//! end the ship's art, the weapon section headers and the weapon rows.
//!
//! In these shapes whitespace is ASCII whitespace and digits are ASCII
//! digits. Each is stated for a single line (no line feed).

use vstd::prelude::*;
use crate::text::{
    chars_of, find_from, lemma_find_from_some, find_from_exec, is_ascii_ws, is_digit, matches_at, matches_at_exec,
    single_line, sub_vec, char_is_ascii_ws,
};

verus! {

/// The kinds of character runs the shapes are made of.
pub enum Run {
    AsciiWs,
    Tilde,
    Digit,
    DigitOrDot,
}

pub open spec fn in_run(c: char, k: Run) -> bool {
    match k {
        Run::AsciiWs => is_ascii_ws(c),
        Run::Tilde => c == '~',
        Run::Digit => is_digit(c),
        Run::DigitOrDot => is_digit(c) || c == '.',
    }
}

/// The end of the run of class `k` starting at `i`.
pub open spec fn run_end(s: Seq<char>, i: int, k: Run) -> int
    decreases s.len() - i,
{
    if i < 0 {
        0
    } else if i >= s.len() {
        s.len() as int
    } else if in_run(s[i], k) {
        run_end(s, i + 1, k)
    } else {
        i
    }
}

pub proof fn lemma_run_end_bounds(s: Seq<char>, i: int, k: Run)
    requires
        0 <= i <= s.len(),
    ensures
        i <= run_end(s, i, k) <= s.len(),
        run_end(s, i, k) < s.len() ==> !in_run(s[run_end(s, i, k)], k),
        forall|m: int| i <= m < run_end(s, i, k) ==> in_run(#[trigger] s[m], k),
    decreases s.len() - i,
{
    if i < s.len() && in_run(s[i], k) {
        lemma_run_end_bounds(s, i + 1, k);
    }
}

fn in_run_exec(c: char, k: &Run) -> (r: bool)
    ensures
        r == in_run(c, *k),
{
    match k {
        Run::AsciiWs => char_is_ascii_ws(c),
        Run::Tilde => c == '~',
        Run::Digit => '0' <= c && c <= '9',
        Run::DigitOrDot => ('0' <= c && c <= '9') || c == '.',
    }
}

/// The end of the run of class `k` starting at `i`.
pub fn run_end_exec(s: &[char], i: usize, k: Run) -> (r: usize)
    requires
        i <= s@.len(),
    ensures
        r == run_end(s@, i as int, k),
        i <= r <= s@.len(),
{
    proof {
        lemma_run_end_bounds(s@, i as int, k);
    }
    let mut j = i;
    while j < s.len() && in_run_exec(s[j], &k)
        invariant
            i <= j <= s@.len(),
            run_end(s@, j as int, k) == run_end(s@, i as int, k),
        decreases s@.len() - j,
    {
        j = j + 1;
    }
    j
}

/// What follows the title: `\s*\(#(\d+)\)\s*~~+\s*$` at `q`, giving the
/// digits.
pub open spec fn title_tail(s: Seq<char>, q: int) -> Option<Seq<char>> {
    let a = run_end(s, q, Run::AsciiWs);
    if !(0 <= q && a + 1 < s.len() && s[a] == '(' && s[a + 1] == '#') {
        None
    } else {
        let d1 = run_end(s, a + 2, Run::Digit);
        if d1 == a + 2 || d1 >= s.len() || s[d1] != ')' {
            None
        } else {
            let f = run_end(s, d1 + 1, Run::AsciiWs);
            let g = run_end(s, f, Run::Tilde);
            if g - f < 2 || run_end(s, g, Run::AsciiWs) != s.len() {
                None
            } else {
                Some(s.subrange(a + 2, d1))
            }
        }
    }
}

/// The first position at or after `q` where the title's tail matches.
pub open spec fn title_search(s: Seq<char>, q: int) -> Option<(int, Seq<char>)>
    decreases s.len() + 1 - q,
{
    if q < 0 || q > s.len() {
        None
    } else {
        match title_tail(s, q) {
            Some(d) => Some((q, d)),
            None => title_search(s, q + 1),
        }
    }
}

/// The captures of the title pattern `~~+\s*(?P<inner>.*?)\s*\(#(?P<dbref>\d+)\)\s*~~+\s*$`
/// searched in `s`: the inner text and the digits of the reference.
///
/// The leftmost match starts at the first `~~`; its tildes and the
/// whitespace after them are taken greedily, and the inner text is the
/// shortest one after which the tail matches.
pub open spec fn title_captures(s: Seq<char>) -> Option<(Seq<char>, Seq<char>)> {
    match find_from(s, seq!['~', '~'], 0) {
        None => None,
        Some(p) => {
            let s0 = run_end(s, run_end(s, p, Run::Tilde), Run::AsciiWs);
            match title_search(s, s0) {
                None => None,
                Some((q, d)) => Some((s.subrange(s0, q), d)),
            }
        },
    }
}

fn title_tail_exec(s: &[char], q: usize) -> (r: Option<Vec<char>>)
    requires
        q <= s@.len(),
    ensures
        r is Some <==> title_tail(s@, q as int) is Some,
        r matches Some(d) ==> title_tail(s@, q as int) == Some(d@),
        r matches Some(d) ==> crate::number::all_digits(d@),
{
    let n = s.len();
    let a = run_end_exec(s, q, Run::AsciiWs);
    if !(a < n && a + 1 < n && s[a] == '(' && s[a + 1] == '#') {
        return None;
    }
    let d1 = run_end_exec(s, a + 2, Run::Digit);
    if d1 == a + 2 || d1 >= n || s[d1] != ')' {
        return None;
    }
    let f = run_end_exec(s, d1 + 1, Run::AsciiWs);
    let g = run_end_exec(s, f, Run::Tilde);
    if g - f < 2 || run_end_exec(s, g, Run::AsciiWs) != n {
        return None;
    }
    proof {
        lemma_run_end_bounds(s@, a + 2, Run::Digit);
    }
    let d = sub_vec(s, a + 2, d1);
    assert forall|i: int| 0 <= i < d@.len() implies crate::text::is_digit(#[trigger] d@[i]) by {
        assert(d@[i] == s@[a + 2 + i]);
        assert(in_run(s@[a + 2 + i], Run::Digit));
    }
    Some(d)
}

/// The captures of the title pattern: the inner text and the reference
/// digits.
pub fn title_captures_exec(s: &[char]) -> (r: Option<(Vec<char>, Vec<char>)>)
    requires
        single_line(s@),
    ensures
        r is Some <==> title_captures(s@) is Some,
        r matches Some((inner, d)) ==> title_captures(s@) == Some((inner@, d@)),
        r matches Some((inner, d)) ==> crate::number::all_digits(d@),
{
    let mut tt = Vec::new();
    tt.push('~');
    tt.push('~');
    assert(tt@ =~= seq!['~', '~']);
    let p = match find_from_exec(s, tt.as_slice(), 0) {
        None => return None,
        Some(p) => p,
    };
    proof {
        lemma_find_from_some(s@, seq!['~', '~'], 0, p as int);
    }
    let t_end = run_end_exec(s, p, Run::Tilde);
    let s0 = run_end_exec(s, t_end, Run::AsciiWs);
    let n = s.len();
    let mut q = s0;
    while q < n
        invariant
            n == s@.len(),
            s0 <= q <= n,
            title_search(s@, q as int) == title_search(s@, s0 as int),
            title_captures(s@) == match title_search(s@, s0 as int) {
                None => None,
                Some((q, d)) => Some((s@.subrange(s0 as int, q), d)),
            },
        decreases s@.len() + 1 - q,
    {
        match title_tail_exec(s, q) {
            Some(d) => {
                let inner = sub_vec(s, s0, q);
                return Some((inner, d));
            },
            None => {
                q = q + 1;
            },
        }
    }
    match title_tail_exec(s, q) {
        Some(d) => {
            let inner = sub_vec(s, s0, q);
            Some((inner, d))
        },
        None => {
            assert(title_search(s@, q + 1) is None);
            None
        },
    }
}

/// `^\s*(Class|SensorClass|Type|Structure):` matches: the ship's art has
/// ended and this line holds fields.
pub open spec fn art_end_match(s: Seq<char>) -> bool {
    let a = run_end(s, 0, Run::AsciiWs);
    matches_at(s, "Class:"@, a) || matches_at(s, "SensorClass:"@, a) || matches_at(s, "Type:"@, a)
        || matches_at(s, "Structure:"@, a)
}

pub fn art_end_match_exec(s: &[char]) -> (r: bool)
    ensures
        r == art_end_match(s@),
{
    let a = run_end_exec(s, 0, Run::AsciiWs);
    matches_at_exec(s, chars_of("Class:").as_slice(), a) || matches_at_exec(
        s,
        chars_of("SensorClass:").as_slice(),
        a,
    ) || matches_at_exec(s, chars_of("Type:").as_slice(), a) || matches_at_exec(
        s,
        chars_of("Structure:").as_slice(),
        a,
    )
}

/// The captures of `^\s*<word>\s*(\d+)\s+DPS:\s*([\d.]+)` for a section
/// word such as `Beams:`: the count digits and the DPS text.
pub open spec fn header_captures(s: Seq<char>, word: Seq<char>) -> Option<(Seq<char>, Seq<char>)> {
    let a = run_end(s, 0, Run::AsciiWs);
    if !matches_at(s, word, a) {
        None
    } else {
        let b = run_end(s, a + word.len(), Run::AsciiWs);
        let c = run_end(s, b, Run::Digit);
        let d = run_end(s, c, Run::AsciiWs);
        if c == b || d == c || !matches_at(s, "DPS:"@, d) {
            None
        } else {
            let e = run_end(s, d + "DPS:"@.len(), Run::AsciiWs);
            let f = run_end(s, e, Run::DigitOrDot);
            if f == e {
                None
            } else {
                Some((s.subrange(b, c), s.subrange(e, f)))
            }
        }
    }
}

pub fn header_captures_exec(s: &[char], word: &str) -> (r: Option<(Vec<char>, Vec<char>)>)
    ensures
        r is Some <==> header_captures(s@, word@) is Some,
        r matches Some((count, dps)) ==> header_captures(s@, word@) == Some((count@, dps@)),
        r matches Some((count, dps)) ==> crate::number::all_digits(count@),
{
    let n = s.len();
    let w = chars_of(word);
    let dps_key = chars_of("DPS:");
    let a = run_end_exec(s, 0, Run::AsciiWs);
    if !matches_at_exec(s, w.as_slice(), a) {
        return None;
    }
    assert(a + w@.len() <= n);
    let b = run_end_exec(s, a + w.len(), Run::AsciiWs);
    let c = run_end_exec(s, b, Run::Digit);
    let d = run_end_exec(s, c, Run::AsciiWs);
    if c == b || d == c || !matches_at_exec(s, dps_key.as_slice(), d) {
        return None;
    }
    assert(d + dps_key@.len() <= n);
    let e = run_end_exec(s, d + dps_key.len(), Run::AsciiWs);
    let f = run_end_exec(s, e, Run::DigitOrDot);
    if f == e {
        return None;
    }
    proof {
        lemma_run_end_bounds(s@, b as int, Run::Digit);
    }
    let count = sub_vec(s, b, c);
    assert forall|i: int| 0 <= i < count@.len() implies crate::text::is_digit(#[trigger] count@[i]) by {
        assert(count@[i] == s@[b + i]);
        assert(in_run(s@[b + i], Run::Digit));
    }
    Some((count, sub_vec(s, e, f)))
}

/// The row labels of a weapon table.
#[derive(PartialEq, Eq, Structural, Clone, Copy)]
pub enum RowLabel {
    Cost,
    Range,
    Arcs,
    Damage,
    Time,
    Dps,
}

pub open spec fn row_key(l: RowLabel) -> Seq<char> {
    match l {
        RowLabel::Cost => "Cost:"@,
        RowLabel::Range => "Range:"@,
        RowLabel::Arcs => "Arcs:"@,
        RowLabel::Damage => "Damage:"@,
        RowLabel::Time => "Time:"@,
        RowLabel::Dps => "DPS:"@,
    }
}

/// The first row label whose key (label and colon) occurs at `a`.
pub open spec fn row_label_at(s: Seq<char>, a: int) -> Option<RowLabel> {
    if matches_at(s, row_key(RowLabel::Cost), a) {
        Some(RowLabel::Cost)
    } else if matches_at(s, row_key(RowLabel::Range), a) {
        Some(RowLabel::Range)
    } else if matches_at(s, row_key(RowLabel::Arcs), a) {
        Some(RowLabel::Arcs)
    } else if matches_at(s, row_key(RowLabel::Damage), a) {
        Some(RowLabel::Damage)
    } else if matches_at(s, row_key(RowLabel::Time), a) {
        Some(RowLabel::Time)
    } else if matches_at(s, row_key(RowLabel::Dps), a) {
        Some(RowLabel::Dps)
    } else {
        None
    }
}

/// The index just after the last char that is not ASCII whitespace.
pub open spec fn ascii_trim_end_index(s: Seq<char>, j: int) -> int
    decreases j,
{
    if j <= 0 {
        0
    } else if is_ascii_ws(s[j - 1]) {
        ascii_trim_end_index(s, j - 1)
    } else {
        j
    }
}

/// The captures of `^\s*(Cost|Range|Arcs|Damage|Time|DPS):\s+(.*\S)\s*$`:
/// the row label and the row's values, from the first char after the
/// label's whitespace to the last char that is not whitespace.
pub open spec fn row_captures(s: Seq<char>) -> Option<(RowLabel, Seq<char>)> {
    let a = run_end(s, 0, Run::AsciiWs);
    match row_label_at(s, a) {
        None => None,
        Some(l) => {
            let b = a + row_key(l).len();
            let c = run_end(s, b, Run::AsciiWs);
            let e = ascii_trim_end_index(s, s.len() as int);
            if c == b || e <= c {
                None
            } else {
                Some((l, s.subrange(c, e)))
            }
        },
    }
}

proof fn lemma_ascii_trim_end_bounds(s: Seq<char>, j: int)
    requires
        0 <= j <= s.len(),
    ensures
        0 <= ascii_trim_end_index(s, j) <= j,
    decreases j,
{
    if j > 0 && is_ascii_ws(s[j - 1]) {
        lemma_ascii_trim_end_bounds(s, j - 1);
    }
}

fn row_key_exec(l: RowLabel) -> (k: Vec<char>)
    ensures
        k@ == row_key(l),
{
    match l {
        RowLabel::Cost => chars_of("Cost:"),
        RowLabel::Range => chars_of("Range:"),
        RowLabel::Arcs => chars_of("Arcs:"),
        RowLabel::Damage => chars_of("Damage:"),
        RowLabel::Time => chars_of("Time:"),
        RowLabel::Dps => chars_of("DPS:"),
    }
}

pub fn row_captures_exec(s: &[char]) -> (r: Option<(RowLabel, Vec<char>)>)
    ensures
        r is Some <==> row_captures(s@) is Some,
        r matches Some((l, v)) ==> row_captures(s@) == Some((l, v@)),
{
    let a = run_end_exec(s, 0, Run::AsciiWs);
    let label = if matches_at_exec(s, row_key_exec(RowLabel::Cost).as_slice(), a) {
        RowLabel::Cost
    } else if matches_at_exec(s, row_key_exec(RowLabel::Range).as_slice(), a) {
        RowLabel::Range
    } else if matches_at_exec(s, row_key_exec(RowLabel::Arcs).as_slice(), a) {
        RowLabel::Arcs
    } else if matches_at_exec(s, row_key_exec(RowLabel::Damage).as_slice(), a) {
        RowLabel::Damage
    } else if matches_at_exec(s, row_key_exec(RowLabel::Time).as_slice(), a) {
        RowLabel::Time
    } else if matches_at_exec(s, row_key_exec(RowLabel::Dps).as_slice(), a) {
        RowLabel::Dps
    } else {
        return None;
    };
    let n = s.len();
    let key = row_key_exec(label);
    assert(matches_at(s@, key@, a as int));
    assert(a + key@.len() <= n);
    let b = a + key.len();
    let c = run_end_exec(s, b, Run::AsciiWs);
    let mut e = s.len();
    proof {
        lemma_ascii_trim_end_bounds(s@, s@.len() as int);
    }
    while e > 0 && char_is_ascii_ws(s[e - 1])
        invariant
            e <= s@.len(),
            ascii_trim_end_index(s@, e as int) == ascii_trim_end_index(s@, s@.len() as int),
        decreases e,
    {
        e = e - 1;
    }
    if c == b || e <= c {
        return None;
    }
    Some((label, sub_vec(s, c, e)))
}

} // verus!
