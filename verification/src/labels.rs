//! Reading values that follow a `Label:` on a spec sheet line.

use vstd::prelude::*;
use smallvec::SmallVec;
use crate::number::{Number, is_float_literal};
use crate::text::{
    chars_of, contains_seq, lemma_find_from_some, find_from, find_from_exec, first_token, first_token_exec, is_digit,
    matches_at, matches_at_exec, starts_with, sub_vec, trim, trim_exec, trim_start, trim_start_exec,
};

verus! {

/// The text searched for: the label followed by a colon.
pub open spec fn key_of(label: Seq<char>) -> Seq<char> {
    label.push(':')
}

pub open spec fn is_num_char(c: char) -> bool {
    is_digit(c) || c == '.' || c == '-'
}

/// The end of the run of digits, dots and minus signs starting at `i`.
pub open spec fn num_run_end(s: Seq<char>, i: int) -> int
    decreases s.len() - i,
{
    if i < 0 || i >= s.len() {
        if i < 0 { 0 } else { s.len() as int }
    } else if is_num_char(s[i]) {
        num_run_end(s, i + 1)
    } else {
        i
    }
}

/// The end of `t.take(j)` with trailing dots removed.
pub open spec fn dots_end(t: Seq<char>, j: int) -> int
    decreases j,
{
    if j <= 0 {
        0
    } else if t[j - 1] == '.' {
        dots_end(t, j - 1)
    } else {
        j
    }
}

/// The numeric token that starts after leading whitespace at index `i`:
/// digits, dots and minus signs, with trailing dots removed.
pub open spec fn token_after(line: Seq<char>, i: int) -> Seq<char> {
    let r = trim_start(line.subrange(i, line.len() as int));
    let t = r.take(num_run_end(r, 0));
    t.take(dots_end(t, t.len() as int))
}

/// The number after the first `label:` on the line; `None` when there is
/// no `label:`, or when what follows the first one is not a number.
pub open spec fn float_after_label(line: Seq<char>, label: Seq<char>) -> Option<Seq<char>> {
    match find_from(line, key_of(label), 0) {
        None => None,
        Some(k) => {
            let t = token_after(line, k + key_of(label).len());
            if is_float_literal(t) {
                Some(t)
            } else {
                None
            }
        },
    }
}

/// Every number after an occurrence of `key` at or after `i`, in order.
pub open spec fn all_floats_from(line: Seq<char>, key: Seq<char>, i: int) -> Seq<Seq<char>>
    decreases line.len() + 1 - i,
{
    if key.len() == 0 || i < 0 || i + key.len() > line.len() {
        Seq::empty()
    } else if matches_at(line, key, i) {
        let t = token_after(line, i + key.len());
        if is_float_literal(t) {
            seq![t] + all_floats_from(line, key, i + key.len())
        } else {
            all_floats_from(line, key, i + key.len())
        }
    } else {
        all_floats_from(line, key, i + 1)
    }
}

/// Every number following an occurrence of `label:` on the line.
pub open spec fn all_floats_after_label(line: Seq<char>, label: Seq<char>) -> Seq<Seq<char>> {
    all_floats_from(line, key_of(label), 0)
}

/// The text after the first `label:`, with leading whitespace removed.
pub open spec fn rest_after(line: Seq<char>, label: Seq<char>) -> Option<Seq<char>> {
    match find_from(line, key_of(label), 0) {
        None => None,
        Some(k) => Some(trim_start(line.subrange(k + key_of(label).len(), line.len() as int))),
    }
}

/// The end of the run of spaces starting at `i`.
pub open spec fn space_run_end(s: Seq<char>, i: int) -> int
    decreases s.len() - i,
{
    if i < 0 || i >= s.len() {
        if i < 0 { 0 } else { s.len() as int }
    } else if s[i] == ' ' {
        space_run_end(s, i + 1)
    } else {
        i
    }
}

/// The value text ends at the first run of two or more spaces whose next
/// token holds a colon (the next label); otherwise it is the whole rest.
pub open spec fn value_scan(rest: Seq<char>, i: int) -> Seq<char>
    decreases rest.len() - i,
{
    if i < 0 || i >= rest.len() {
        trim(rest)
    } else {
        match find_from(rest, seq![' '], i) {
            None => trim(rest),
            Some(p) => {
                let j = space_run_end(rest, p);
                if j - p >= 2 && contains_seq(first_token(rest.subrange(j, rest.len() as int)), seq![':']) {
                    trim(rest.take(p))
                } else if j <= i || j > rest.len() {
                    trim(rest)
                } else {
                    value_scan(rest, j)
                }
            },
        }
    }
}

/// The text value after the first `label:`, up to the next label.
pub open spec fn string_after_label(line: Seq<char>, label: Seq<char>) -> Option<Seq<char>> {
    match rest_after(line, label) {
        None => None,
        Some(r) => Some(value_scan(r, 0)),
    }
}

/// `Yes` or `No` after the first `label:`.
pub open spec fn bool_after_label(line: Seq<char>, label: Seq<char>) -> Option<bool> {
    match rest_after(line, label) {
        None => None,
        Some(r) => if starts_with(r, seq!['Y', 'e', 's']) {
            Some(true)
        } else if starts_with(r, seq!['N', 'o']) {
            Some(false)
        } else {
            None
        },
    }
}

/// Whether `char::is_alphanumeric` holds of a char (Unicode Alphabetic or
/// Numeric).
pub uninterp spec fn char_alphanumeric(c: char) -> bool;

/// Calls `char::is_alphanumeric`. Claimed: the answer depends on the char
/// alone, and is named `char_alphanumeric`; which chars the Unicode tables
/// count as alphabetic or numeric is left unsaid.
#[verifier::external_body]
fn is_alphanumeric(c: char) -> (r: bool)
    ensures
        r == char_alphanumeric(c),
{
    c.is_alphanumeric()
}

/// The first `Cloak:` on the line is followed by the word `No`.
pub open spec fn cloak_is_no(line: Seq<char>) -> bool {
    match rest_after(line, seq!['C', 'l', 'o', 'a', 'k']) {
        None => false,
        Some(r) => starts_with(r, seq!['N', 'o']) && !(r.len() > 2 && char_alphanumeric(r[2])),
    }
}

proof fn lemma_num_run_end_bounds(s: Seq<char>, i: int)
    requires
        0 <= i <= s.len(),
    ensures
        i <= num_run_end(s, i) <= s.len(),
    decreases s.len() - i,
{
    if i < s.len() && is_num_char(s[i]) {
        lemma_num_run_end_bounds(s, i + 1);
    }
}

proof fn lemma_dots_end_bounds(t: Seq<char>, j: int)
    requires
        0 <= j <= t.len(),
    ensures
        0 <= dots_end(t, j) <= j,
    decreases j,
{
    if j > 0 && t[j - 1] == '.' {
        lemma_dots_end_bounds(t, j - 1);
    }
}

proof fn lemma_space_run_end_bounds(s: Seq<char>, i: int)
    requires
        0 <= i <= s.len(),
    ensures
        i <= space_run_end(s, i) <= s.len(),
        i < s.len() && s[i] == ' ' ==> space_run_end(s, i) > i,
    decreases s.len() - i,
{
    if i < s.len() && s[i] == ' ' {
        lemma_space_run_end_bounds(s, i + 1);
    }
}

/// The label's search key: its characters followed by a colon.
pub fn key_exec(label: &str) -> (k: Vec<char>)
    ensures
        k@ == key_of(label@),
{
    let mut k = chars_of(label);
    k.push(':');
    k
}

/// The numeric token starting at `i` after leading whitespace.
fn token_after_exec(line: &[char], i: usize) -> (t: Vec<char>)
    requires
        i <= line@.len(),
    ensures
        t@ == token_after(line@, i as int),
{
    let rest = sub_vec(line, i, line.len());
    let r = trim_start_exec(rest.as_slice());
    let ghost rs = r@;
    let mut e: usize = 0;
    proof {
        lemma_num_run_end_bounds(rs, 0);
    }
    while e < r.len() && (('0' <= r[e] && r[e] <= '9') || r[e] == '.' || r[e] == '-')
        invariant
            e <= r@.len(),
            num_run_end(r@, e as int) == num_run_end(r@, 0),
        decreases r@.len() - e,
    {
        e = e + 1;
    }
    let t = sub_vec(r.as_slice(), 0, e);
    assert(t@ =~= r@.take(num_run_end(r@, 0)));
    let mut d = t.len();
    proof {
        lemma_dots_end_bounds(t@, t@.len() as int);
    }
    while d > 0 && t[d - 1] == '.'
        invariant
            d <= t@.len(),
            dots_end(t@, d as int) == dots_end(t@, t@.len() as int),
        decreases d,
    {
        d = d - 1;
    }
    let out = sub_vec(t.as_slice(), 0, d);
    assert(out@ =~= t@.take(dots_end(t@, t@.len() as int)));
    out
}

/// The number after the first `label:` on the line, when it is followed
/// by one.
pub fn float_after_label_exec(line: &[char], label: &str) -> (r: Option<Number>)
    ensures
        r is Some <==> float_after_label(line@, label@) is Some,
        r matches Some(n) ==> float_after_label(line@, label@) == Some(n@),
        r.deep_view() == float_after_label(line@, label@),
{
    let key = key_exec(label);
    match find_from_exec(line, key.as_slice(), 0) {
        None => None,
        Some(k) => {
            proof {
                lemma_find_from_some(line@, key@, 0, k as int);
            }
            let n = line.len();
            assert(k + key@.len() <= n);
            let t = token_after_exec(line, k + key.len());
            Number::parse(t.as_slice())
        },
    }
}

/// Positions before the first occurrence do not change the result.
proof fn lemma_find_some_float(s: Seq<char>, key: Seq<char>, i: int, k: int)
    requires
        key.len() > 0,
        find_from(s, key, i) == Some(k),
    ensures
        i <= k,
        matches_at(s, key, k),
        all_floats_from(s, key, i) == all_floats_from(s, key, k),
    decreases s.len() + 1 - i,
{
    if i < 0 || i + key.len() > s.len() {
    } else if matches_at(s, key, i) {
    } else {
        lemma_find_some_float(s, key, i + 1, k);
    }
}

proof fn lemma_find_none_float(s: Seq<char>, key: Seq<char>, i: int)
    requires
        key.len() > 0,
        find_from(s, key, i) is None,
    ensures
        all_floats_from(s, key, i) == Seq::<Seq<char>>::empty(),
    decreases s.len() + 1 - i,
{
    if i < 0 || i + key.len() > s.len() {
    } else if matches_at(s, key, i) {
    } else {
        lemma_find_none_float(s, key, i + 1);
    }
}

/// A short list of numbers, kept in a `smallvec::SmallVec` that holds its
/// first twelve items inline. Verus sees only what `held_numbers` says of
/// it.
#[verifier::external_body]
pub struct NumberList {
    items: SmallVec<[Number; 12]>,
}

/// The texts of the numbers that a list holds, in order.
pub uninterp spec fn held_numbers(v: NumberList) -> Seq<Seq<char>>;

/// `SmallVec::new`: a new list holds nothing.
#[verifier::external_body]
fn new_numbers() -> (v: NumberList)
    ensures
        held_numbers(v) == Seq::<Seq<char>>::empty(),
{
    NumberList { items: SmallVec::new() }
}

/// `SmallVec::push`: the number goes at the end of the list.
#[verifier::external_body]
fn push_number(v: &mut NumberList, x: Number)
    ensures
        held_numbers(*final(v)) == held_numbers(*old(v)).push(x@),
{
    v.items.push(x);
}

/// `SmallVec::get` (through its slice): number `i` of the list, `None`
/// past its end.
#[verifier::external_body]
pub(crate) fn number_at(v: &NumberList, i: usize) -> (r: Option<&Number>)
    ensures
        match r {
            Some(x) => i < held_numbers(*v).len() && x@ == held_numbers(*v)[i as int],
            None => i >= held_numbers(*v).len(),
        },
{
    v.items.get(i)
}

/// Every number following an occurrence of `label:` on the line, in order.
pub fn all_floats_after_label_exec(line: &[char], label: &str) -> (r: NumberList)
    ensures
        held_numbers(r) == all_floats_after_label(line@, label@),
{
    let key = key_exec(label);
    let mut out = new_numbers();
    let ghost done: Seq<Seq<char>> = Seq::empty();
    let mut from: usize = 0;
    loop
        invariant
            key@ == key_of(label@),
            held_numbers(out) == done,
            done + all_floats_from(line@, key@, from as int) == all_floats_after_label(line@, label@),
        decreases line@.len() + 1 - from,
    {
        if from > line.len() || key.len() > line.len() - from {
            assert(all_floats_from(line@, key@, from as int) =~= Seq::<Seq<char>>::empty());
            assert(done =~= all_floats_after_label(line@, label@));
            return out;
        }
        match find_from_exec(line, key.as_slice(), from) {
            None => {
                proof {
                    lemma_find_none_float(line@, key@, from as int);
                    assert(done =~= all_floats_after_label(line@, label@));
                }
                return out;
            },
            Some(k) => {
                proof {
                    lemma_find_some_float(line@, key@, from as int, k as int);
                }
                let t = token_after_exec(line, k + key.len());
                let ghost tail = all_floats_from(line@, key@, k + key@.len());
                match Number::parse(t.as_slice()) {
                    Some(n) => {
                        proof {
                            assert(all_floats_from(line@, key@, k as int) == seq![t@] + tail);
                            assert(done.push(t@) + tail =~= done + (seq![t@] + tail));
                            done = done.push(t@);
                        }
                        push_number(&mut out, n);
                    },
                    None => {},
                }
                from = k + key.len();
            },
        }
    }
}

/// The text after the first `label:`, with leading whitespace removed.
fn rest_after_exec(line: &[char], label: &str) -> (r: Option<Vec<char>>)
    ensures
        r is Some <==> rest_after(line@, label@) is Some,
        r matches Some(v) ==> rest_after(line@, label@) == Some(v@),
{
    let key = key_exec(label);
    let n = line.len();
    match find_from_exec(line, key.as_slice(), 0) {
        None => None,
        Some(k) => {
            proof {
                lemma_find_from_some(line@, key@, 0, k as int);
            }
            let rest = sub_vec(line, k + key.len(), n);
            Some(trim_start_exec(rest.as_slice()))
        },
    }
}

/// Whether `s` contains a colon.
fn contains_colon(s: &[char]) -> (r: bool)
    ensures
        r == contains_seq(s@, seq![':']),
{
    let mut c = Vec::new();
    c.push(':');
    assert(c@ =~= seq![':']);
    find_from_exec(s, c.as_slice(), 0).is_some()
}

/// The text value after the first `label:`, up to the next label.
pub fn string_after_label_exec(line: &[char], label: &str) -> (r: Option<Vec<char>>)
    ensures
        r is Some <==> string_after_label(line@, label@) is Some,
        r matches Some(v) ==> string_after_label(line@, label@) == Some(v@),
        r.deep_view() == string_after_label(line@, label@),
{
    let rest = match rest_after_exec(line, label) {
        None => return None,
        Some(r) => r,
    };
    let mut space = Vec::new();
    space.push(' ');
    assert(space@ =~= seq![' ']);
    let mut i: usize = 0;
    while i < rest.len()
        invariant
            space@ == seq![' '],
            rest_after(line@, label@) == Some(rest@),
            i <= rest@.len(),
            value_scan(rest@, i as int) == value_scan(rest@, 0),
        ensures
            value_scan(rest@, 0) == trim(rest@),
        decreases rest@.len() - i,
    {
        match find_from_exec(rest.as_slice(), space.as_slice(), i) {
            None => {
                break;
            },
            Some(p) => {
                proof {
                    lemma_find_from_some(rest@, seq![' '], i as int, p as int);
                    assert(rest@.subrange(p as int, p + 1)[0] == rest@[p as int]);
                    lemma_space_run_end_bounds(rest@, p as int);
                }
                let start = p;
                let mut j = p;
                while j < rest.len() && rest[j] == ' '
                    invariant
                        start <= j <= rest@.len(),
                        space_run_end(rest@, j as int) == space_run_end(rest@, start as int),
                    decreases rest@.len() - j,
                {
                    j = j + 1;
                }
                assert(space_run_end(rest@, j as int) == j);
                assert(rest@.subrange(j as int, rest@.len() as int) == rest@.subrange(j as int, rest@.len() as int));
                if j - start >= 2 {
                    let after = sub_vec(rest.as_slice(), j, rest.len());
                    let next = first_token_exec(after.as_slice());
                    if contains_colon(next.as_slice()) {
                        let head = sub_vec(rest.as_slice(), 0, start);
                        assert(head@ =~= rest@.take(start as int));
                        assert(after@ == rest@.subrange(j as int, rest@.len() as int));
                        assert(find_from(rest@, seq![' '], i as int) == Some(p as int));
                        assert(j - p >= 2);
                        assert(contains_seq(first_token(rest@.subrange(j as int, rest@.len() as int)), seq![':']));
                        assert(value_scan(rest@, i as int) == trim(rest@.take(p as int)));
                        return Some(trim_exec(head.as_slice()));
                    }
                }
                i = j;
            },
        }
    }
    Some(trim_exec(rest.as_slice()))
}

/// `Yes` or `No` after the first `label:`.
pub fn bool_after_label_exec(line: &[char], label: &str) -> (r: Option<bool>)
    ensures
        r == bool_after_label(line@, label@),
{
    let rest = match rest_after_exec(line, label) {
        None => return None,
        Some(r) => r,
    };
    let mut yes = Vec::new();
    yes.push('Y');
    yes.push('e');
    yes.push('s');
    let mut no = Vec::new();
    no.push('N');
    no.push('o');
    assert(yes@ =~= seq!['Y', 'e', 's']);
    assert(no@ =~= seq!['N', 'o']);
    if matches_at_exec(rest.as_slice(), yes.as_slice(), 0) {
        Some(true)
    } else if matches_at_exec(rest.as_slice(), no.as_slice(), 0) {
        Some(false)
    } else {
        None
    }
}

/// Whether the first `Cloak:` on the line is followed by the word `No`.
pub fn cloak_is_no_exec(line: &[char]) -> (r: bool)
    ensures
        r == cloak_is_no(line@),
{
    let mut label = Vec::new();
    label.push('C');
    label.push('l');
    label.push('o');
    label.push('a');
    label.push('k');
    label.push(':');
    assert(label@ =~= key_of(seq!['C', 'l', 'o', 'a', 'k']));
    let n = line.len();
    match find_from_exec(line, label.as_slice(), 0) {
        None => false,
        Some(k) => {
            proof {
                lemma_find_from_some(line@, label@, 0, k as int);
            }
            let rest = sub_vec(line, k + 6, n);
            let r = trim_start_exec(rest.as_slice());
            let mut no = Vec::new();
            no.push('N');
            no.push('o');
            assert(no@ =~= seq!['N', 'o']);
            matches_at_exec(r.as_slice(), no.as_slice(), 0) && !(r.len() > 2 && is_alphanumeric(
                r[2],
            ))
        },
    }
}

proof fn lemma_floats_skip_to_first(line: Seq<char>, key: Seq<char>, i: int, k: int)
    requires
        key.len() > 0,
        0 <= i,
        find_from(line, key, i) == Some(k),
    ensures
        all_floats_from(line, key, i) == all_floats_from(line, key, k),
        i <= k,
        matches_at(line, key, k),
        k + key.len() <= line.len(),
    decreases line.len() + 1 - i,
{
    if !matches_at(line, key, i) {
        lemma_floats_skip_to_first(line, key, i + 1, k);
    }
}

/// The numbers after every `label:` begin with the number after the first
/// one, when that one is followed by a number; and when the line has no
/// `label:` there are none.
pub proof fn law_first_of_all_floats_is_the_float(line: Seq<char>, label: Seq<char>)
    ensures
        float_after_label(line, label) is Some ==> all_floats_after_label(line, label).len() > 0
            && all_floats_after_label(line, label)[0] == float_after_label(line, label)->0,
        find_from(line, key_of(label), 0) is None ==> all_floats_after_label(line, label).len() == 0,
{
    let key = key_of(label);
    match find_from(line, key, 0) {
        Some(k) => {
            lemma_floats_skip_to_first(line, key, 0, k);
        },
        None => {
            lemma_floats_none(line, key, 0);
        },
    }
}

proof fn lemma_floats_none(line: Seq<char>, key: Seq<char>, i: int)
    requires
        0 <= i,
        find_from(line, key, i) is None,
    ensures
        all_floats_from(line, key, i).len() == 0,
    decreases line.len() + 1 - i,
{
    if key.len() > 0 && i + key.len() <= line.len() {
        lemma_floats_none(line, key, i + 1);
    }
}

} // verus!
