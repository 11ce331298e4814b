//! Character-level text helpers with their specifications.
//!
//! Lines are handled as sequences of `char`. Whitespace in the trimming and
//! splitting helpers is Unicode `White_Space`, as in `str::trim` and
//! `str::split_whitespace`; the pattern helpers use ASCII whitespace.

use vstd::prelude::*;

verus! {

/// Unicode `White_Space`, which `char::is_whitespace` tests.
pub open spec fn is_ws(c: char) -> bool {
    let u = c as u32;
    (0x09 <= u <= 0x0d) || u == 0x20 || u == 0x85 || u == 0xa0 || u == 0x1680 || (0x2000 <= u
        <= 0x200a) || u == 0x2028 || u == 0x2029 || u == 0x202f || u == 0x205f || u == 0x3000
}

/// ASCII whitespace: tab, line feed, vertical tab, form feed, carriage
/// return and space.
pub open spec fn is_ascii_ws(c: char) -> bool {
    c == '\t' || c == '\n' || c == '\x0B' || c == '\x0C' || c == '\r' || c == ' '
}

/// A line holds no line feed.
pub open spec fn single_line(s: Seq<char>) -> bool {
    forall|i: int| 0 <= i < s.len() ==> #[trigger] s[i] != '\n'
}

pub open spec fn is_digit(c: char) -> bool {
    '0' <= c <= '9'
}

/// Whether a char is Unicode whitespace.
pub fn char_is_ws(c: char) -> (r: bool)
    ensures
        r == is_ws(c),
{
    let u = c as u32;
    (0x09 <= u && u <= 0x0d) || u == 0x20 || u == 0x85 || u == 0xa0 || u == 0x1680 || (0x2000
        <= u && u <= 0x200a) || u == 0x2028 || u == 0x2029 || u == 0x202f || u == 0x205f || u
        == 0x3000
}

/// Whether a char is ASCII whitespace.
pub fn char_is_ascii_ws(c: char) -> (r: bool)
    ensures
        r == is_ascii_ws(c),
{
    c == '\t' || c == '\n' || c == '\x0B' || c == '\x0C' || c == '\r' || c == ' '
}

/// The first index at or after `i` that is not whitespace.
pub open spec fn skip_ws(s: Seq<char>, i: int) -> int
    decreases s.len() - i,
{
    if i >= s.len() {
        s.len() as int
    } else if is_ws(s[i]) {
        skip_ws(s, i + 1)
    } else {
        i
    }
}

/// The first index at or after `i` that is whitespace.
pub open spec fn skip_non_ws(s: Seq<char>, i: int) -> int
    decreases s.len() - i,
{
    if i >= s.len() {
        s.len() as int
    } else if !is_ws(s[i]) {
        skip_non_ws(s, i + 1)
    } else {
        i
    }
}

/// The end of `s.take(j)` with trailing whitespace removed.
pub open spec fn trim_end_index(s: Seq<char>, j: int) -> int
    decreases j,
{
    if j <= 0 {
        0
    } else if is_ws(s[j - 1]) {
        trim_end_index(s, j - 1)
    } else {
        j
    }
}

pub open spec fn trim_start(s: Seq<char>) -> Seq<char> {
    s.subrange(skip_ws(s, 0), s.len() as int)
}

pub open spec fn trim_end(s: Seq<char>) -> Seq<char> {
    s.subrange(0, trim_end_index(s, s.len() as int))
}

pub open spec fn trim(s: Seq<char>) -> Seq<char> {
    trim_end(trim_start(s))
}

/// The first whitespace-separated token, or empty.
pub open spec fn first_token(s: Seq<char>) -> Seq<char> {
    s.subrange(skip_ws(s, 0), skip_non_ws(s, skip_ws(s, 0)))
}

/// The whitespace-separated tokens from index `i` on.
pub open spec fn tokens_from(s: Seq<char>, i: int) -> Seq<Seq<char>>
    decreases s.len() - i,
{
    if i < 0 || i > s.len() || skip_ws(s, i) >= s.len() {
        Seq::empty()
    } else {
        proof {
            lemma_skip_ws_bounds(s, i);
            lemma_skip_non_ws_bounds(s, skip_ws(s, i) + 1);
        }
        seq![s.subrange(skip_ws(s, i), skip_non_ws(s, skip_ws(s, i)))] + tokens_from(
            s,
            skip_non_ws(s, skip_ws(s, i)),
        )
    }
}

pub open spec fn matches_at(s: Seq<char>, pat: Seq<char>, i: int) -> bool {
    0 <= i && i + pat.len() <= s.len() && s.subrange(i, i + pat.len()) == pat
}

/// The first index at or after `i` where `pat` occurs.
pub open spec fn find_from(s: Seq<char>, pat: Seq<char>, i: int) -> Option<int>
    decreases s.len() + 1 - i,
{
    if i < 0 || i + pat.len() > s.len() {
        None
    } else if matches_at(s, pat, i) {
        Some(i)
    } else {
        find_from(s, pat, i + 1)
    }
}

/// The number of non-overlapping occurrences of a nonempty `pat` at or
/// after `i`, counted left to right.
pub open spec fn count_from(s: Seq<char>, pat: Seq<char>, i: int) -> nat
    decreases s.len() - i,
{
    if i < 0 || pat.len() == 0 || i + pat.len() > s.len() {
        0
    } else if matches_at(s, pat, i) {
        1 + count_from(s, pat, i + pat.len())
    } else {
        count_from(s, pat, i + 1)
    }
}

pub open spec fn starts_with(s: Seq<char>, pat: Seq<char>) -> bool {
    matches_at(s, pat, 0)
}

pub open spec fn contains_seq(s: Seq<char>, pat: Seq<char>) -> bool {
    find_from(s, pat, 0) is Some
}

/// Where `find_from` finds `pat`, it occurs there, inside `s`, at or after
/// the start.
pub proof fn lemma_find_from_some(s: Seq<char>, pat: Seq<char>, i: int, k: int)
    requires
        find_from(s, pat, i) == Some(k),
    ensures
        i <= k,
        k + pat.len() <= s.len(),
        matches_at(s, pat, k),
    decreases s.len() + 1 - i,
{
    if i < 0 || i + pat.len() > s.len() {
    } else if matches_at(s, pat, i) {
    } else {
        lemma_find_from_some(s, pat, i + 1, k);
    }
}

pub proof fn lemma_skip_ws_bounds(s: Seq<char>, i: int)
    requires
        0 <= i <= s.len(),
    ensures
        i <= skip_ws(s, i) <= s.len(),
        forall|k: int| i <= k < skip_ws(s, i) ==> is_ws(#[trigger] s[k]),
        skip_ws(s, i) < s.len() ==> !is_ws(s[skip_ws(s, i)]),
    decreases s.len() - i,
{
    if i < s.len() && is_ws(s[i]) {
        lemma_skip_ws_bounds(s, i + 1);
    }
}

pub proof fn lemma_skip_non_ws_bounds(s: Seq<char>, i: int)
    requires
        0 <= i <= s.len(),
    ensures
        i <= skip_non_ws(s, i) <= s.len(),
    decreases s.len() - i,
{
    if i < s.len() && !is_ws(s[i]) {
        lemma_skip_non_ws_bounds(s, i + 1);
    }
}

pub proof fn lemma_trim_end_bounds(s: Seq<char>, j: int)
    requires
        0 <= j <= s.len(),
    ensures
        0 <= trim_end_index(s, j) <= j,
    decreases j,
{
    if j > 0 && is_ws(s[j - 1]) {
        lemma_trim_end_bounds(s, j - 1);
    }
}

/// The first index at or after `i` that is not whitespace.
pub fn skip_ws_exec(s: &[char], i: usize) -> (r: usize)
    requires
        i <= s@.len(),
    ensures
        r == skip_ws(s@, i as int),
        i <= r <= s@.len(),
{
    proof {
        lemma_skip_ws_bounds(s@, i as int);
    }
    let mut k = i;
    while k < s.len() && char_is_ws(s[k])
        invariant
            i <= k <= s@.len(),
            skip_ws(s@, k as int) == skip_ws(s@, i as int),
        decreases s@.len() - k,
    {
        k = k + 1;
    }
    k
}

/// The first index at or after `i` that is whitespace.
pub fn skip_non_ws_exec(s: &[char], i: usize) -> (r: usize)
    requires
        i <= s@.len(),
    ensures
        r == skip_non_ws(s@, i as int),
        i <= r <= s@.len(),
{
    proof {
        lemma_skip_non_ws_bounds(s@, i as int);
    }
    let mut k = i;
    while k < s.len() && !char_is_ws(s[k])
        invariant
            i <= k <= s@.len(),
            skip_non_ws(s@, k as int) == skip_non_ws(s@, i as int),
        decreases s@.len() - k,
    {
        k = k + 1;
    }
    k
}

/// The end of `s[..j]` with trailing whitespace removed.
pub fn trim_end_exec(s: &[char], j: usize) -> (r: usize)
    requires
        j <= s@.len(),
    ensures
        r == trim_end_index(s@, j as int),
        r <= j,
{
    proof {
        lemma_trim_end_bounds(s@, j as int);
    }
    let mut k = j;
    while k > 0 && char_is_ws(s[k - 1])
        invariant
            k <= j <= s@.len(),
            trim_end_index(s@, k as int) == trim_end_index(s@, j as int),
        decreases k,
    {
        k = k - 1;
    }
    k
}

/// A copy of `s[lo..hi]`.
pub fn sub_vec(s: &[char], lo: usize, hi: usize) -> (v: Vec<char>)
    requires
        lo <= hi <= s@.len(),
    ensures
        v@ == s@.subrange(lo as int, hi as int),
{
    let mut v: Vec<char> = Vec::new();
    let mut k = lo;
    while k < hi
        invariant
            lo <= k <= hi <= s@.len(),
            v@ == s@.subrange(lo as int, k as int),
        decreases hi - k,
    {
        v.push(s[k]);
        k = k + 1;
        assert(v@ =~= s@.subrange(lo as int, k as int));
    }
    v
}

/// `s` with leading whitespace removed.
pub fn trim_start_exec(s: &[char]) -> (v: Vec<char>)
    ensures
        v@ == trim_start(s@),
{
    let a = skip_ws_exec(s, 0);
    sub_vec(s, a, s.len())
}

/// `s` with trailing whitespace removed.
pub fn trim_end_exec_vec(s: &[char]) -> (v: Vec<char>)
    ensures
        v@ == trim_end(s@),
{
    let b = trim_end_exec(s, s.len());
    sub_vec(s, 0, b)
}

/// `s` with leading and trailing whitespace removed.
pub fn trim_exec(s: &[char]) -> (v: Vec<char>)
    ensures
        v@ == trim(s@),
{
    let t = trim_start_exec(s);
    trim_end_exec_vec(t.as_slice())
}

/// The first whitespace-separated token of `s`, or empty.
pub fn first_token_exec(s: &[char]) -> (v: Vec<char>)
    ensures
        v@ == first_token(s@),
{
    let a = skip_ws_exec(s, 0);
    let b = skip_non_ws_exec(s, a);
    sub_vec(s, a, b)
}

/// Whether `pat` occurs in `s` at index `i`.
pub fn matches_at_exec(s: &[char], pat: &[char], i: usize) -> (r: bool)
    ensures
        r == matches_at(s@, pat@, i as int),
{
    let n = s.len();
    let m = pat.len();
    if i > n || m > n - i {
        return false;
    }
    let mut k: usize = 0;
    while k < m
        invariant
            n == s@.len(),
            m == pat@.len(),
            i + m <= n,
            k <= pat@.len(),
            forall|m: int| 0 <= m < k ==> s@[i + m] == pat@[m],
        decreases pat@.len() - k,
    {
        if s[i + k] != pat[k] {
            assert(s@.subrange(i as int, i + pat@.len())[k as int] != pat@[k as int]);
            return false;
        }
        k = k + 1;
    }
    assert(s@.subrange(i as int, i + pat@.len()) =~= pat@);
    true
}

/// The first index at or after `i` where `pat` occurs.
pub fn find_from_exec(s: &[char], pat: &[char], i: usize) -> (r: Option<usize>)
    ensures
        r matches Some(k) ==> find_from(s@, pat@, i as int) == Some(k as int),
        r is None ==> find_from(s@, pat@, i as int) is None,
{
    let n = s.len();
    let m = pat.len();
    if m == 0 {
        if i <= n {
            assert(s@.subrange(i as int, i as int) =~= pat@);
            return Some(i);
        }
        return None;
    }
    let mut k = i;
    while k <= n && m <= n - k
        invariant
            n == s@.len(),
            m == pat@.len(),
            m > 0,
            i <= k,
            find_from(s@, pat@, k as int) == find_from(s@, pat@, i as int),
        decreases s@.len() + 1 - k,
    {
        if matches_at_exec(s, pat, k) {
            return Some(k);
        }
        k = k + 1;
    }
    None
}

/// The number of non-overlapping occurrences of `pat` at or after `i`.
pub fn count_from_exec(s: &[char], pat: &[char], i: usize) -> (r: usize)
    ensures
        r == count_from(s@, pat@, i as int),
{
    let mut k = i;
    let mut n: usize = 0;
    let len = s.len();
    let m = pat.len();
    if m == 0 {
        return 0;
    }
    while k <= len && m <= len - k
        invariant
            len == s@.len(),
            m == pat@.len(),
            i <= k,
            pat@.len() > 0,
            n <= k,
            n + count_from(s@, pat@, k as int) == count_from(s@, pat@, i as int),
        decreases s@.len() + 1 - k,
    {
        if matches_at_exec(s, pat, k) {
            n = n + 1;
            k = k + m;
        } else {
            k = k + 1;
        }
    }
    n
}

/// The whitespace-separated tokens of `s`.
pub fn tokens_exec(s: &[char]) -> (v: Vec<Vec<char>>)
    ensures
        v@.len() == tokens_from(s@, 0).len(),
        forall|k: int| 0 <= k < v@.len() ==> #[trigger] v@[k]@ == tokens_from(s@, 0)[k],
{
    let mut v: Vec<Vec<char>> = Vec::new();
    let mut i: usize = 0;
    let ghost done: Seq<Seq<char>> = Seq::empty();
    loop
        invariant
            i <= s@.len(),
            v@.len() == done.len(),
            forall|k: int| 0 <= k < v@.len() ==> #[trigger] v@[k]@ == done[k],
            done + tokens_from(s@, i as int) == tokens_from(s@, 0),
        decreases s@.len() - i,
    {
        let a = skip_ws_exec(s, i);
        if a >= s.len() {
            assert(tokens_from(s@, i as int) =~= Seq::<Seq<char>>::empty());
            assert(done =~= tokens_from(s@, 0));
            return v;
        }
        let b = skip_non_ws_exec(s, a);
        proof {
            lemma_skip_ws_bounds(s@, i as int);
        }
        let t = sub_vec(s, a, b);
        proof {
            let tail = tokens_from(s@, b as int);
            assert(tokens_from(s@, i as int) == seq![t@] + tail);
            done = done.push(t@);
            assert(done + tail =~= (done.drop_last() + seq![t@]) + tail);
            assert((done.drop_last() + seq![t@]) + tail =~= done.drop_last() + (seq![t@] + tail));
        }
        v.push(t);
        i = b;
    }
}

/// The characters of a string slice.
pub fn chars_of(s: &str) -> (v: Vec<char>)
    ensures
        v@ == s@,
{
    let mut v: Vec<char> = Vec::new();
    for c in it: s.chars()
        invariant
            v@ == it.seq().take(it.index() as int),
            it.seq() == s@,
    {
        v.push(c);
    }
    v
}

/// Calls `String::push`. Claimed: the string gains the char at its end.
#[verifier::external_body]
fn string_push(s: &mut String, c: char)
    ensures
        final(s)@ == old(s)@.push(c),
{
    s.push(c)
}

/// A string holding the given characters.
pub fn string_of(v: &[char]) -> (s: String)
    ensures
        s@ == v@,
{
    let mut s = String::new();
    let mut k: usize = 0;
    while k < v.len()
        invariant
            k <= v@.len(),
            s@ == v@.take(k as int),
        decreases v@.len() - k,
    {
        string_push(&mut s, v[k]);
        k = k + 1;
        assert(s@ =~= v@.take(k as int));
    }
    assert(v@.take(v@.len() as int) =~= v@);
    s
}

} // verus!
