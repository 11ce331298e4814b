//! Looking ships up in a catalog, and the small texts the front-ends read
//! or show.
//!
//! A ship is named by any part of its name, in any case: the first ship
//! whose lowercase name contains the lowercase query is the one meant.

use vstd::prelude::*;
use crate::groups::{new_groups, put_group, take_group};
use crate::number::{
    all_digits, digits_value, eq_ignore_case, eq_ignore_case_range, index_of2, parse_i64_exec,
};
use crate::ship::{Ship, lowercase, to_lowercase};
use crate::text::{
    chars_of, contains_seq, find_from_exec, is_digit, matches_at, matches_at_exec, string_of, sub_vec,
    trim, trim_exec,
};

verus! {

// ---------------------------------------------------------------------
// Ship queries
// ---------------------------------------------------------------------

/// A piece of a list, kept when it is not empty.
pub open spec fn keep_nonempty(p: Seq<char>) -> Seq<Seq<char>> {
    if p.len() > 0 {
        seq![p]
    } else {
        Seq::empty()
    }
}

/// The names of a comma-separated list from index `p` on: each piece
/// between commas, trimmed, empty ones left out.
pub open spec fn names_from(s: Seq<char>, p: int) -> Seq<Seq<char>>
    decreases s.len() - p,
{
    if p < 0 || p > s.len() {
        Seq::empty()
    } else {
        match index_of2(s, ',', ',', p) {
            None => keep_nonempty(trim(s.subrange(p, s.len() as int))),
            Some(i) => if i < p || i >= s.len() {
                Seq::empty()
            } else {
                keep_nonempty(trim(s.subrange(p, i))) + names_from(s, i + 1)
            },
        }
    }
}

/// The ship names of a comma-separated query.
pub open spec fn query_names(q: Seq<char>) -> Seq<Seq<char>> {
    names_from(q, 0)
}

proof fn lemma_index_of2_bounds(s: Seq<char>, c1: char, c2: char, i: int)
    requires
        0 <= i,
    ensures
        index_of2(s, c1, c2, i) matches Some(k) ==> i <= k < s.len() && (s[k] == c1 || s[k] == c2),
        index_of2(s, c1, c2, i) is None ==> forall|k: int| i <= k < s.len() ==> s[k] != c1 && s[k]
            != c2,
    decreases s.len() - i,
{
    if i < s.len() && s[i] != c1 && s[i] != c2 {
        lemma_index_of2_bounds(s, c1, c2, i + 1);
    }
}

proof fn lemma_index_shift(x: Seq<char>, y: Seq<char>, c: char, p: int)
    requires
        0 <= p <= y.len(),
    ensures
        index_of2(x + y, c, c, x.len() + p) == (match index_of2(y, c, c, p) {
            Some(k) => Some(x.len() + k),
            None => None,
        }),
    decreases y.len() - p,
{
    if p < y.len() && y[p] != c {
        lemma_index_shift(x, y, c, p + 1);
    }
    if p < y.len() {
        assert((x + y)[x.len() + p] == y[p]);
    }
}

proof fn lemma_names_shift(x: Seq<char>, y: Seq<char>, p: int)
    requires
        0 <= p <= y.len(),
    ensures
        names_from(x + y, x.len() + p) == names_from(y, p),
    decreases y.len() - p,
{
    let s = x + y;
    lemma_index_shift(x, y, ',', p);
    lemma_index_of2_bounds(y, ',', ',', p);
    match index_of2(y, ',', ',', p) {
        None => {
            assert(s.subrange(x.len() + p, s.len() as int) =~= y.subrange(p, y.len() as int));
        },
        Some(i) => {
            assert(s.subrange(x.len() + p, x.len() + i) =~= y.subrange(p, i));
            lemma_names_shift(x, y, i + 1);
        },
    }
}

proof fn lemma_no_comma_index(s: Seq<char>, a: Seq<char>, p: int)
    requires
        0 <= p <= a.len(),
        a.len() <= s.len(),
        !a.contains(','),
        forall|k: int| 0 <= k < a.len() ==> s[k] == a[k],
    ensures
        index_of2(s, ',', ',', p) == (if a.len() < s.len() && s[a.len() as int] == ',' {
            Some(a.len() as int)
        } else if a.len() == s.len() {
            None::<int>
        } else {
            index_of2(s, ',', ',', a.len() as int)
        }),
    decreases a.len() - p,
{
    if p < a.len() {
        assert(s[p] == a[p]);
        if a[p] == ',' {
            assert(a.contains(','));
        }
        lemma_no_comma_index(s, a, p + 1);
    }
}

/// The names of a query are its comma-separated pieces, trimmed, with the
/// empty ones left out, in order: a piece without a comma is one name when
/// it is not blank and none when it is, and the names of `a,b` are the
/// names of `a` followed by the names of `b`. So an empty piece, such as
/// between two commas in a row, drops out without taking later names with
/// it.
pub proof fn law_query_names_are_the_pieces(a: Seq<char>, b: Seq<char>)
    requires
        !a.contains(','),
    ensures
        query_names(a) == (if trim(a).len() > 0 {
            seq![trim(a)]
        } else {
            Seq::<Seq<char>>::empty()
        }),
        query_names(a + seq![','] + b) == query_names(a) + query_names(b),
{
    lemma_no_comma_index(a, a, 0);
    assert(a.subrange(0, a.len() as int) =~= a);
    let s = a + seq![','] + b;
    assert forall|k: int| 0 <= k < a.len() implies s[k] == a[k] by {}
    lemma_no_comma_index(s, a, 0);
    assert(s[a.len() as int] == ',');
    assert(s.subrange(0, a.len() as int) =~= a);
    let x = a + seq![','];
    assert(s =~= x + b);
    lemma_names_shift(x, b, 0);
}

/// The ship names of a comma-separated query: each piece between commas,
/// trimmed, empty ones left out.
pub fn ship_query_names(query: &str) -> (r: Vec<String>)
    ensures
        r@.map_values(|s: String| s@) == query_names(query@),
{
    let s = chars_of(query);
    let n = s.len();
    let mut out: Vec<String> = Vec::new();
    let ghost done: Seq<Seq<char>> = Seq::empty();
    let mut p: usize = 0;
    loop
        invariant
            s@ == query@,
            n == s@.len(),
            p <= n,
            out@.map_values(|s: String| s@) == done,
            done + names_from(s@, p as int) == query_names(query@),
        decreases n - p,
    {
        let mut k = p;
        while k < n && s[k] != ','
            invariant
                p <= k <= n,
                n == s@.len(),
                index_of2(s@, ',', ',', k as int) == index_of2(s@, ',', ',', p as int),
            decreases n - k,
        {
            k = k + 1;
        }
        let piece = trim_exec(sub_vec(s.as_slice(), p, k).as_slice());
        let ghost kept = keep_nonempty(piece@);
        if piece.len() > 0 {
            let ghost before = out@;
            out.push(string_of(piece.as_slice()));
            assert(out@.map_values(|s: String| s@) =~= before.map_values(|s: String| s@).push(
                piece@,
            ));
        }
        proof {
            assert(out@.map_values(|s: String| s@) =~= done + kept);
        }
        if k >= n {
            proof {
                assert(index_of2(s@, ',', ',', k as int) is None);
                assert(names_from(s@, p as int) == kept);
                done = done + kept;
            }
            return out;
        }
        proof {
            assert(index_of2(s@, ',', ',', p as int) == Some(k as int));
            assert(names_from(s@, p as int) == kept + names_from(s@, k + 1));
            assert(done + (kept + names_from(s@, k + 1)) =~= (done + kept) + names_from(s@, k + 1));
            done = done + kept;
        }
        p = k + 1;
    }
}

/// A ship's name matches a query: its lowercase form contains the
/// query's.
pub open spec fn name_matches(name: Seq<char>, query: Seq<char>) -> bool {
    contains_seq(lowercase(name), lowercase(query))
}

/// The index of the first ship whose name matches the query.
pub open spec fn first_match(names: Seq<Seq<char>>, query: Seq<char>, i: int) -> Option<int>
    decreases names.len() - i,
{
    if i < 0 || i >= names.len() {
        None
    } else if name_matches(names[i], query) {
        Some(i)
    } else {
        first_match(names, query, i + 1)
    }
}

pub open spec fn ship_names(ships: Seq<Ship>) -> Seq<Seq<char>> {
    ships.map_values(|s: Ship| s.name@)
}

/// The index of the first ship whose name contains `name`, ignoring case.
pub fn find_ship(ships: &[Ship], name: &str) -> (r: Option<usize>)
    ensures
        r matches Some(i) ==> first_match(ship_names(ships@), name@, 0) == Some(i as int),
        r is None ==> first_match(ship_names(ships@), name@, 0) is None,
{
    let needle_s = to_lowercase(name);
    let needle = chars_of(needle_s.as_str());
    let mut i: usize = 0;
    while i < ships.len()
        invariant
            needle@ == lowercase(name@),
            i <= ships@.len(),
            first_match(ship_names(ships@), name@, i as int) == first_match(
                ship_names(ships@),
                name@,
                0,
            ),
        decreases ships@.len() - i,
    {
        let lower = to_lowercase(ships[i].name.as_str());
        let hay = chars_of(lower.as_str());
        assert(ship_names(ships@)[i as int] == ships@[i as int].name@);
        if find_from_exec(hay.as_slice(), needle.as_slice(), 0).is_some() {
            return Some(i);
        }
        i = i + 1;
    }
    None
}

/// The ship named by a query is the first that matches: no earlier ship
/// matches, and no ship matches when none is found.
pub proof fn law_first_match_is_first(names: Seq<Seq<char>>, query: Seq<char>, i: int)
    requires
        0 <= i,
    ensures
        first_match(names, query, i) matches Some(k) ==> i <= k < names.len() && name_matches(
            names[k],
            query,
        ) && forall|j: int| i <= j < k ==> !name_matches(#[trigger] names[j], query),
        first_match(names, query, i) is None ==> forall|j: int|
            i <= j < names.len() ==> !name_matches(#[trigger] names[j], query),
    decreases names.len() - i,
{
    if i < names.len() && !name_matches(names[i], query) {
        law_first_match_is_first(names, query, i + 1);
    }
}

// ---------------------------------------------------------------------
// Uploaded ships
// ---------------------------------------------------------------------

/// Where an uploaded ship goes.
#[derive(PartialEq, Eq, Structural, Clone, Copy, Debug)]
pub enum Upload {
    /// A built-in ship has its reference: the built-in catalog wins.
    Skipped,
    /// It replaces the uploaded ship at this index, which has its reference.
    Replaced(usize),
    /// It is new, and goes at the end.
    Appended,
}

/// The first index holding `x`.
pub open spec fn index_of_ref(v: Seq<i64>, x: i64) -> Option<int>
    decreases v.len(),
{
    if v.len() == 0 {
        None
    } else {
        match index_of_ref(v.drop_last(), x) {
            Some(i) => Some(i),
            None => if v.last() == x {
                Some(v.len() - 1)
            } else {
                None
            },
        }
    }
}

/// Where a ship with reference `dbref` goes, given the references of the
/// built-in and of the uploaded ships.
pub open spec fn placement(builtin: Seq<i64>, uploaded: Seq<i64>, dbref: i64) -> Upload {
    if builtin.contains(dbref) {
        Upload::Skipped
    } else {
        match index_of_ref(uploaded, dbref) {
            Some(i) => Upload::Replaced(i as usize),
            None => Upload::Appended,
        }
    }
}

proof fn lemma_index_of_ref(v: Seq<i64>, x: i64)
    ensures
        index_of_ref(v, x) matches Some(i) ==> 0 <= i < v.len() && v[i] == x && forall|j: int|
            0 <= j < i ==> v[j] != x,
        index_of_ref(v, x) is None <==> !v.contains(x),
    decreases v.len(),
{
    if v.len() > 0 {
        let p = v.drop_last();
        lemma_index_of_ref(p, x);
        if p.contains(x) {
            let j = choose|j: int| 0 <= j < p.len() && p[j] == x;
            assert(v[j] == x);
        }
        if index_of_ref(v, x) is None {
            assert forall|j: int| 0 <= j < v.len() implies v[j] != x by {
                if j < p.len() {
                    assert(v[j] == p[j]);
                    assert(!p.contains(x));
                }
            }
        } else {
            assert(v.contains(x)) by {
                let i = index_of_ref(v, x).unwrap();
                if i < p.len() {
                    assert(v[i] == p[i]);
                }
            }
        }
        if index_of_ref(p, x) is Some {
            let i = index_of_ref(p, x).unwrap();
            assert(v[i] == p[i]);
            assert forall|j: int| 0 <= j < i implies v[j] != x by {
                assert(v[j] == p[j]);
            }
        } else {
            assert forall|j: int| 0 <= j < v.len() - 1 implies v[j] != x by {
                assert(v[j] == p[j]);
                assert(!p.contains(x));
            }
        }
    }
}

fn index_of_ref_exec(v: &[i64], x: i64) -> (r: Option<usize>)
    ensures
        r matches Some(i) ==> index_of_ref(v@, x) == Some(i as int),
        r is None ==> index_of_ref(v@, x) is None,
{
    let mut k: usize = 0;
    while k < v.len()
        invariant
            k <= v@.len(),
            forall|j: int| 0 <= j < k ==> v@[j] != x,
        decreases v@.len() - k,
    {
        if v[k] == x {
            proof {
                lemma_index_of_ref(v@, x);
                if index_of_ref(v@, x) is None {
                    assert(v@.contains(x));
                }
            }
            return Some(k);
        }
        k = k + 1;
    }
    proof {
        lemma_index_of_ref(v@, x);
        if v@.contains(x) {
            let j = choose|j: int| 0 <= j < v@.len() && v@[j] == x;
            assert(v@[j] != x);
        }
    }
    None
}

/// Where an uploaded ship with reference `dbref` goes: skipped when a
/// built-in ship has it, in place of the first uploaded ship that has it,
/// or at the end.
pub fn place_upload(builtin: &[i64], uploaded: &[i64], dbref: i64) -> (r: Upload)
    ensures
        r == placement(builtin@, uploaded@, dbref),
{
    proof {
        lemma_index_of_ref(builtin@, dbref);
    }
    if index_of_ref_exec(builtin, dbref).is_some() {
        return Upload::Skipped;
    }
    match index_of_ref_exec(uploaded, dbref) {
        Some(i) => Upload::Replaced(i),
        None => Upload::Appended,
    }
}

/// An uploaded ship never shadows a built-in one, and replaces the first
/// uploaded ship with its reference.
pub proof fn law_upload_placement(builtin: Seq<i64>, uploaded: Seq<i64>, dbref: i64)
    requires
        uploaded.len() <= usize::MAX,
    ensures
        placement(builtin, uploaded, dbref) == Upload::Skipped <==> builtin.contains(dbref),
        placement(builtin, uploaded, dbref) matches Upload::Replaced(i) ==> i < uploaded.len()
            && uploaded[i as int] == dbref && forall|j: int|
            0 <= j < i ==> uploaded[j] != dbref,
        placement(builtin, uploaded, dbref) == Upload::Appended ==> !builtin.contains(dbref)
            && !uploaded.contains(dbref),
{
    lemma_index_of_ref(uploaded, dbref);
}

// ---------------------------------------------------------------------
// Numbers with thousands separators
// ---------------------------------------------------------------------

pub open spec fn digit_char(d: int) -> char {
    seq!['0', '1', '2', '3', '4', '5', '6', '7', '8', '9'][d]
}

/// The decimal digits of a number, most significant first.
pub open spec fn decimal_digits(v: nat) -> Seq<char>
    decreases v,
{
    if v < 10 {
        seq![digit_char(v as int)]
    } else {
        decimal_digits(v / 10).push(digit_char((v % 10) as int))
    }
}

/// Digits with a comma before each group of three from the right.
pub open spec fn group_thousands(d: Seq<char>) -> Seq<char>
    decreases d.len(),
{
    if d.len() <= 3 {
        d
    } else {
        group_thousands(d.take(d.len() - 3)) + seq![','] + d.skip(d.len() - 3)
    }
}

/// A whole number written with thousands separators, a minus sign first
/// when it is negative.
pub open spec fn with_commas(n: int) -> Seq<char> {
    if n < 0 {
        seq!['-'] + group_thousands(decimal_digits((-n) as nat))
    } else {
        group_thousands(decimal_digits(n as nat))
    }
}

/// Grouping only adds separators: without its commas, a grouped number
/// is its digits again.
pub proof fn law_grouping_keeps_digits(d: Seq<char>)
    requires
        !d.contains(','),
    ensures
        group_thousands(d).filter(|c: char| c != ',') == d,
    decreases d.len(),
{
    let keep = |c: char| c != ',';
    if d.len() <= 3 {
        assert forall|i: int| 0 <= i < d.len() implies keep(d[i]) by {
            if d[i] == ',' {
                assert(d.contains(','));
            }
        }
        lemma_filter_all_kept(d, keep);
    } else {
        let head = d.take(d.len() - 3);
        let tail = d.skip(d.len() - 3);
        assert(!head.contains(',')) by {
            if head.contains(',') {
                let i = choose|i: int| 0 <= i < head.len() && head[i] == ',';
                assert(d[i] == ',');
            }
        }
        assert(!tail.contains(',')) by {
            if tail.contains(',') {
                let i = choose|i: int| 0 <= i < tail.len() && tail[i] == ',';
                assert(d[d.len() - 3 + i] == ',');
            }
        }
        law_grouping_keeps_digits(head);
        Seq::filter_distributes_over_add(group_thousands(head) + seq![','], tail, keep);
        Seq::filter_distributes_over_add(group_thousands(head), seq![','], keep);
        assert(seq![','].filter(keep) =~= Seq::<char>::empty()) by {
            reveal_with_fuel(Seq::filter, 2);
            assert(seq![','].drop_last() =~= Seq::<char>::empty());
            assert(seq![','].last() == ',');
            assert(!keep(','));
        }
        assert(tail.filter(keep) =~= tail) by {
            lemma_filter_all_kept(tail, keep);
        }
        assert(head + Seq::<char>::empty() + tail =~= d);
    }
}

proof fn lemma_filter_all_kept(s: Seq<char>, keep: spec_fn(char) -> bool)
    requires
        forall|i: int| 0 <= i < s.len() ==> keep(#[trigger] s[i]),
    ensures
        s.filter(keep) == s,
    decreases s.len(),
{
    reveal(Seq::filter);
    if s.len() > 0 {
        let p = s.drop_last();
        assert forall|i: int| 0 <= i < p.len() implies keep(#[trigger] p[i]) by {
            assert(p[i] == s[i]);
        }
        lemma_filter_all_kept(p, keep);
        assert(keep(s[s.len() - 1]));
        assert(p.push(s.last()) =~= s);
    } else {
        assert(s.filter(keep) =~= s);
    }
}

/// Digits written in groups of three from the right: the text starts with
/// a digit, holds only digits and commas, every comma is followed by three
/// digits and then a comma or the end, and the first group has at most
/// three digits.
pub open spec fn grouped_by_threes(g: Seq<char>) -> bool {
    &&& g.len() > 0
    &&& g[0] != ','
    &&& forall|i: int| 0 <= i < g.len() && #[trigger] g[i] != ',' ==> is_digit(g[i])
    &&& forall|i: int|
        0 <= i < g.len() && #[trigger] g[i] == ',' ==> i + 3 < g.len() && is_digit(g[i + 1])
            && is_digit(g[i + 2]) && is_digit(g[i + 3]) && (i + 4 == g.len() || g[i + 4] == ',')
    &&& g.len() > 3 ==> (g[1] == ',' || g[2] == ',' || g[3] == ',')
}

proof fn lemma_digit_char(d: int)
    requires
        0 <= d < 10,
    ensures
        is_digit(digit_char(d)),
        digit_char(d) as u32 - '0' as u32 == d,
        digit_char(d) == '0' <==> d == 0,
{
    let t = seq!['0', '1', '2', '3', '4', '5', '6', '7', '8', '9'];
    assert(digit_char(d) == t[d]);
    if d == 0 {
    } else if d == 1 {
    } else if d == 2 {
    } else if d == 3 {
    } else if d == 4 {
    } else if d == 5 {
    } else if d == 6 {
    } else if d == 7 {
    } else if d == 8 {
    } else {
        assert(d == 9);
    }
}

/// The decimal digits of `v` are digits, read back as `v`, and start with
/// `0` only for zero itself.
proof fn lemma_decimal_digits(v: nat)
    ensures
        decimal_digits(v).len() >= 1,
        crate::number::all_digits(decimal_digits(v)),
        digits_value(decimal_digits(v)) == v,
        decimal_digits(v)[0] == '0' <==> v == 0,
    decreases v,
{
    if v < 10 {
        lemma_digit_char(v as int);
        let d = decimal_digits(v);
        assert(d.drop_last() =~= Seq::<char>::empty());
        assert(digits_value(d.drop_last()) == 0);
    } else {
        lemma_decimal_digits(v / 10);
        lemma_digit_char((v % 10) as int);
        let h = decimal_digits(v / 10);
        let d = decimal_digits(v);
        assert(d.drop_last() =~= h);
        assert(d[0] == h[0]);
        assert(v == 10 * (v / 10) + v % 10);
    }
}

/// Grouping a run of digits gives digits grouped by threes.
proof fn lemma_group_shape(d: Seq<char>)
    requires
        d.len() >= 1,
        crate::number::all_digits(d),
    ensures
        grouped_by_threes(group_thousands(d)),
    decreases d.len(),
{
    let g = group_thousands(d);
    if d.len() <= 3 {
        assert forall|i: int| 0 <= i < g.len() && #[trigger] g[i] != ',' implies is_digit(g[i]) by {
            assert(is_digit(d[i]));
        }
        assert forall|i: int| 0 <= i < g.len() && #[trigger] g[i] == ',' implies false by {
            assert(is_digit(d[i]));
        }
        assert(is_digit(d[0]));
    } else {
        let head = d.take(d.len() - 3);
        let tail = d.skip(d.len() - 3);
        assert(crate::number::all_digits(head)) by {
            assert forall|i: int| 0 <= i < head.len() implies is_digit(#[trigger] head[i]) by {
                assert(is_digit(d[i]));
            }
        }
        assert forall|j: int| 0 <= j < 3 implies is_digit(#[trigger] tail[j]) by {
            assert(is_digit(d[d.len() - 3 + j]));
        }
        lemma_group_shape(head);
        let gh = group_thousands(head);
        let l = gh.len() as int;
        assert(g == gh + seq![','] + tail);
        assert(g.len() == l + 4);
        assert(forall|k: int| 0 <= k < l ==> #[trigger] g[k] == gh[k]);
        assert(g[l] == ',');
        assert(forall|j: int| 0 <= j < 3 ==> #[trigger] g[l + 1 + j] == tail[j]);
        assert(g[l + 1] == tail[0] && g[l + 2] == tail[1] && g[l + 3] == tail[2]);
        assert(g[0] == gh[0]);
        assert forall|i: int| 0 <= i < g.len() && #[trigger] g[i] != ',' implies is_digit(g[i]) by {
            if i < l {
                assert(gh[i] != ',');
            } else if i > l {
                assert(g[i] == tail[i - l - 1]);
            }
        }
        assert forall|i: int| 0 <= i < g.len() && #[trigger] g[i] == ',' implies i + 3 < g.len()
            && is_digit(g[i + 1]) && is_digit(g[i + 2]) && is_digit(g[i + 3]) && (i + 4 == g.len()
            || g[i + 4] == ',') by {
            if i < l {
                assert(gh[i] == ',');
                assert(g[i + 1] == gh[i + 1] && g[i + 2] == gh[i + 2] && g[i + 3] == gh[i + 3]);
                if i + 4 < l {
                    assert(g[i + 4] == gh[i + 4]);
                }
            } else if i > l {
                assert(g[i] == tail[i - l - 1]);
                assert(is_digit(tail[i - l - 1]));
            }
        }
        if l > 3 {
            assert(g[1] == gh[1] && g[2] == gh[2] && g[3] == gh[3]);
        }
    }
}

/// A whole number with thousands separators is its decimal digits, with no
/// leading zero, in groups of three from the right; a negative number is a
/// minus sign followed by its magnitude written so, so no comma comes
/// first or right after the sign.
pub proof fn law_commas_write_the_number(n: int)
    ensures
        n < 0 ==> with_commas(n) == seq!['-'] + with_commas(-n),
        n >= 0 ==> grouped_by_threes(with_commas(n)),
        n >= 0 ==> digits_value(with_commas(n).filter(|c: char| c != ',')) == n,
        n > 0 ==> with_commas(n)[0] != '0',
        n == 0 ==> with_commas(n) == seq!['0'],
{
    if n >= 0 {
        let d = decimal_digits(n as nat);
        lemma_decimal_digits(n as nat);
        lemma_group_shape(d);
        assert(!d.contains(',')) by {
            if d.contains(',') {
                let i = choose|i: int| 0 <= i < d.len() && d[i] == ',';
                assert(is_digit(d[i]));
            }
        }
        law_grouping_keeps_digits(d);
        let g = group_thousands(d);
        if d.len() <= 3 {
            assert(g[0] == d[0]);
        } else {
            lemma_group_first(d);
        }
        if n == 0 {
            lemma_digit_char(0);
            assert(d =~= seq!['0']);
        }
    }
}

/// Grouping keeps the first digit first.
proof fn lemma_group_first(d: Seq<char>)
    requires
        d.len() >= 1,
    ensures
        group_thousands(d).len() >= 1,
        group_thousands(d)[0] == d[0],
    decreases d.len(),
{
    if d.len() > 3 {
        let head = d.take(d.len() - 3);
        lemma_group_first(head);
        assert(head[0] == d[0]);
    }
}

fn decimal_exec(v: u64) -> (r: Vec<char>)
    ensures
        r@ == decimal_digits(v as nat),
    decreases v,
{
    let digits = ['0', '1', '2', '3', '4', '5', '6', '7', '8', '9'];
    assert(digits@ =~= seq!['0', '1', '2', '3', '4', '5', '6', '7', '8', '9']);
    if v < 10 {
        let mut r = Vec::new();
        r.push(digits[v as usize]);
        assert(r@ =~= seq![digit_char(v as int)]);
        r
    } else {
        let mut r = decimal_exec(v / 10);
        r.push(digits[(v % 10) as usize]);
        r
    }
}

fn group_exec(d: &[char], hi: usize) -> (r: Vec<char>)
    requires
        hi <= d@.len(),
    ensures
        r@ == group_thousands(d@.take(hi as int)),
    decreases hi,
{
    if hi <= 3 {
        let r = sub_vec(d, 0, hi);
        assert(r@ =~= d@.take(hi as int));
        r
    } else {
        let mut r = group_exec(d, hi - 3);
        let ghost t = d@.take(hi as int);
        assert(t.take(t.len() - 3) =~= d@.take(hi - 3));
        r.push(',');
        let tail = sub_vec(d, hi - 3, hi);
        assert(tail@ =~= t.skip(t.len() - 3));
        let mut k: usize = 0;
        let ghost head = r@;
        while k < tail.len()
            invariant
                k <= tail@.len(),
                r@ == head + tail@.take(k as int),
            decreases tail@.len() - k,
        {
            r.push(tail[k]);
            k = k + 1;
            assert(r@ =~= head + tail@.take(k as int));
        }
        assert(tail@.take(tail@.len() as int) =~= tail@);
        r
    }
}

/// A whole number written with thousands separators, as in `1,234,567`.
pub fn add_commas(n: i64) -> (r: String)
    ensures
        r@ == with_commas(n as int),
{
    let neg = n < 0;
    let abs: u64 = if neg {
        (-(n as i128)) as u64
    } else {
        n as u64
    };
    let digits = decimal_exec(abs);
    let grouped = group_exec(digits.as_slice(), digits.len());
    assert(digits@.take(digits@.len() as int) =~= digits@);
    if neg {
        let mut out: Vec<char> = Vec::new();
        out.push('-');
        let mut k: usize = 0;
        while k < grouped.len()
            invariant
                k <= grouped@.len(),
                out@ == seq!['-'] + grouped@.take(k as int),
            decreases grouped@.len() - k,
        {
            out.push(grouped[k]);
            k = k + 1;
            assert(out@ =~= seq!['-'] + grouped@.take(k as int));
        }
        assert(grouped@.take(grouped@.len() as int) =~= grouped@);
        string_of(out.as_slice())
    } else {
        string_of(grouped.as_slice())
    }
}

// ---------------------------------------------------------------------
// Turn timing
// ---------------------------------------------------------------------

/// When a pilot starts turning toward the next arc to come online.
#[derive(PartialEq, Eq, Structural, Clone, Copy, Debug)]
pub enum TurnTimingModel {
    /// Start turning before the next weapon comes online, so no turn delay
    /// is added when the turn is shorter than the wait.
    Anticipatory,
    /// Turn to an arc when its weapons report coming online.
    Reactive,
}

/// The timing model a front-end names: `anticipatory` in any ASCII case,
/// else reactive.
pub open spec fn timing_named(s: Seq<char>) -> TurnTimingModel {
    if eq_ignore_case(s, "anticipatory"@) {
        TurnTimingModel::Anticipatory
    } else {
        TurnTimingModel::Reactive
    }
}

/// The timing model a front-end names.
pub fn parse_timing(s: &str) -> (r: TurnTimingModel)
    ensures
        r == timing_named(s@),
{
    let cs = chars_of(s);
    let w = chars_of("anticipatory");
    assert(cs@.subrange(0, cs@.len() as int) =~= cs@);
    if eq_ignore_case_range(cs.as_slice(), 0, cs.len(), w.as_slice()) {
        TurnTimingModel::Anticipatory
    } else {
        TurnTimingModel::Reactive
    }
}

// ---------------------------------------------------------------------
// Colours
// ---------------------------------------------------------------------

/// `s` with every leading copy of `pat` removed.
pub open spec fn strip_prefix_all(s: Seq<char>, pat: Seq<char>) -> Seq<char>
    decreases s.len(),
{
    if pat.len() > 0 && matches_at(s, pat, 0) {
        strip_prefix_all(s.skip(pat.len() as int), pat)
    } else {
        s
    }
}

/// `s` with every trailing `c` removed.
pub open spec fn strip_trailing(s: Seq<char>, c: char) -> Seq<char>
    decreases s.len(),
{
    if s.len() > 0 && s.last() == c {
        strip_trailing(s.drop_last(), c)
    } else {
        s
    }
}

/// The pieces of `s` between commas from index `p` on, empty ones
/// included, as `str::split` gives them.
pub open spec fn pieces_from(s: Seq<char>, p: int) -> Seq<Seq<char>>
    decreases s.len() - p,
{
    if p < 0 || p > s.len() {
        Seq::empty()
    } else {
        match index_of2(s, ',', ',', p) {
            None => seq![s.subrange(p, s.len() as int)],
            Some(i) => if i < p || i >= s.len() {
                Seq::empty()
            } else {
                seq![s.subrange(p, i)] + pieces_from(s, i + 1)
            },
        }
    }
}

/// What `u8::from_str` gives: an optional `+` and decimal digits worth at
/// most 255.
pub open spec fn parse_u8_text(t: Seq<char>) -> Option<u8> {
    let u = if t.len() > 0 && t[0] == '+' {
        t.skip(1)
    } else {
        t
    };
    if u.len() > 0 && all_digits(u) && digits_value(u) <= 255 {
        Some(digits_value(u) as u8)
    } else {
        None
    }
}

/// The pieces that read as colour components, trimmed, in order.
pub open spec fn color_values(pieces: Seq<Seq<char>>) -> Seq<u8>
    decreases pieces.len(),
{
    if pieces.len() == 0 {
        Seq::empty()
    } else {
        let rest = color_values(pieces.drop_last());
        match parse_u8_text(trim(pieces.last())) {
            Some(v) => rest.push(v),
            None => rest,
        }
    }
}

/// The red, green and blue of a CSS colour such as `rgb(29, 29, 32)` or
/// `rgba(29, 29, 32, 0.5)`: its first three components that read as bytes.
pub open spec fn rgb_of(bg: Seq<char>) -> Option<(u8, u8, u8)> {
    let body = strip_trailing(
        strip_prefix_all(strip_prefix_all(bg, "rgba("@), "rgb("@),
        ')',
    );
    let v = color_values(pieces_from(body, 0));
    if v.len() >= 3 {
        Some((v[0], v[1], v[2]))
    } else {
        None
    }
}

fn strip_prefix_all_exec(s: Vec<char>, pat: &str) -> (r: Vec<char>)
    ensures
        r@ == strip_prefix_all(s@, pat@),
{
    let p = chars_of(pat);
    let mut cur = s;
    if p.len() == 0 {
        return cur;
    }
    while matches_at_exec(cur.as_slice(), p.as_slice(), 0)
        invariant
            p@ == pat@,
            p@.len() > 0,
            strip_prefix_all(cur@, pat@) == strip_prefix_all(s@, pat@),
        decreases cur@.len(),
    {
        let n = cur.len();
        let next = sub_vec(cur.as_slice(), p.len(), n);
        assert(next@ =~= cur@.skip(p@.len() as int));
        cur = next;
    }
    cur
}

fn strip_trailing_exec(s: &[char], c: char) -> (r: Vec<char>)
    ensures
        r@ == strip_trailing(s@, c),
{
    let mut e = s.len();
    assert(s@.take(e as int) =~= s@);
    while e > 0 && s[e - 1] == c
        invariant
            e <= s@.len(),
            strip_trailing(s@.take(e as int), c) == strip_trailing(s@, c),
        decreases e,
    {
        assert(s@.take(e as int).drop_last() =~= s@.take(e - 1));
        e = e - 1;
    }
    if e > 0 {
        assert(s@.take(e as int).last() == s@[e - 1]);
    }
    let r = sub_vec(s, 0, e);
    assert(r@ =~= s@.take(e as int));
    r
}

fn parse_u8_exec(t: &[char]) -> (r: Option<u8>)
    ensures
        r == parse_u8_text(t@),
{
    let start: usize = if t.len() > 0 && t[0] == '+' {
        1
    } else {
        0
    };
    let u = sub_vec(t, start, t.len());
    let ghost su = if t@.len() > 0 && t@[0] == '+' {
        t@.skip(1)
    } else {
        t@
    };
    assert(u@ =~= su);
    if u.len() == 0 {
        return None;
    }
    let mut k: usize = 0;
    while k < u.len()
        invariant
            u@ == su,
            su == (if t@.len() > 0 && t@[0] == '+' {
                t@.skip(1)
            } else {
                t@
            }),
            k <= u@.len(),
            forall|m: int| 0 <= m < k ==> is_digit(#[trigger] u@[m]),
        decreases u@.len() - k,
    {
        if !('0' <= u[k] && u[k] <= '9') {
            assert(!is_digit(su[k as int]));
            assert(!all_digits(su));
            return None;
        }
        k = k + 1;
    }
    assert(all_digits(u@));
    match parse_i64_exec(u.as_slice()) {
        Some(v) => if v <= 255 {
            Some(v as u8)
        } else {
            None
        },
        None => None,
    }
}

/// The red, green and blue of a CSS colour such as `rgb(29, 29, 32)`, when
/// it has three components that read as bytes.
pub fn parse_rgb(bg: &str) -> (r: Option<(u8, u8, u8)>)
    ensures
        r == rgb_of(bg@),
{
    let a = strip_prefix_all_exec(chars_of(bg), "rgba(");
    let b = strip_prefix_all_exec(a, "rgb(");
    let s = strip_trailing_exec(b.as_slice(), ')');
    let ghost body = s@;
    let n = s.len();
    let mut values: Vec<u8> = Vec::new();
    let ghost done: Seq<Seq<char>> = Seq::empty();
    let mut p: usize = 0;
    loop
        invariant
            body == s@,
            body == strip_trailing(
                strip_prefix_all(strip_prefix_all(bg@, "rgba("@), "rgb("@),
                ')',
            ),
            n == s@.len(),
            p <= n,
            values@ == color_values(done),
            done + pieces_from(body, p as int) == pieces_from(body, 0),
        decreases n - p,
    {
        let mut k = p;
        while k < n && s[k] != ','
            invariant
                p <= k <= n,
                n == s@.len(),
                index_of2(s@, ',', ',', k as int) == index_of2(s@, ',', ',', p as int),
            decreases n - k,
        {
            k = k + 1;
        }
        let piece = sub_vec(s.as_slice(), p, k);
        let t = trim_exec(piece.as_slice());
        let v = parse_u8_exec(t.as_slice());
        proof {
            assert(done.push(piece@).drop_last() =~= done);
            assert(done.push(piece@).last() == piece@);
        }
        match v {
            Some(x) => values.push(x),
            None => {},
        }
        if k >= n {
            proof {
                assert(index_of2(s@, ',', ',', k as int) is None);
                assert(pieces_from(body, p as int) == seq![piece@]);
                assert(done + seq![piece@] =~= done.push(piece@));
                done = done.push(piece@);
                assert(done == pieces_from(body, 0));
            }
            if values.len() >= 3 {
                return Some((values[0], values[1], values[2]));
            } else {
                return None;
            }
        }
        proof {
            assert(index_of2(s@, ',', ',', p as int) == Some(k as int));
            assert(pieces_from(body, p as int) == seq![piece@] + pieces_from(body, k + 1));
            assert(done + (seq![piece@] + pieces_from(body, k + 1)) =~= done.push(piece@)
                + pieces_from(body, k + 1));
            done = done.push(piece@);
        }
        p = k + 1;
    }
}

// ---------------------------------------------------------------------
// Weapon rows of a stored catalog
// ---------------------------------------------------------------------

/// The indices, in order, of the first `n` rows that belong to ship `d`.
pub open spec fn rows_of(row_refs: Seq<i64>, d: i64, n: int) -> Seq<usize>
    decreases n,
{
    if n <= 0 {
        Seq::empty()
    } else if row_refs[n - 1] == d {
        rows_of(row_refs, d, n - 1).push((n - 1) as usize)
    } else {
        rows_of(row_refs, d, n - 1)
    }
}

/// No earlier ship has ship `i`'s reference.
pub open spec fn first_with_ref(ship_refs: Seq<i64>, i: int) -> bool {
    forall|j: int| 0 <= j < i ==> ship_refs[j] != ship_refs[i]
}

/// The weapon rows a stored ship gets: every row with its reference, in
/// row order, for the first ship with that reference; none for a later
/// one.
pub open spec fn rows_for_ship(ship_refs: Seq<i64>, row_refs: Seq<i64>, i: int) -> Seq<usize> {
    if first_with_ref(ship_refs, i) {
        rows_of(row_refs, ship_refs[i], row_refs.len() as int)
    } else {
        Seq::empty()
    }
}

/// For each stored ship, the indices of the weapon rows that go with it:
/// every row with its reference, in row order, for the first ship with
/// that reference.
pub fn weapon_rows_of_ships(ship_refs: &[i64], row_refs: &[i64]) -> (r: Vec<Vec<usize>>)
    ensures
        r@.len() == ship_refs@.len(),
        forall|i: int|
            0 <= i < ship_refs@.len() ==> #[trigger] r@[i]@ == rows_for_ship(
                ship_refs@,
                row_refs@,
                i,
            ),
{
    let mut by_ship = new_groups::<Vec<usize>>();
    let m = row_refs.len();
    let mut j: usize = 0;
    while j < m
        invariant
            m == row_refs@.len(),
            j <= m,
            forall|k: i64| #[trigger]
                by_ship@.contains_key(k) ==> by_ship@[k]@ == rows_of(row_refs@, k, j as int),
            forall|k: i64| !#[trigger] by_ship@.contains_key(k) ==> rows_of(row_refs@, k, j as int)
                =~= Seq::<usize>::empty(),
        decreases m - j,
    {
        let d = row_refs[j];
        let mut v = match take_group(&mut by_ship, d) {
            Some(v) => v,
            None => Vec::new(),
        };
        v.push(j);
        put_group(&mut by_ship, d, v);
        j = j + 1;
    }
    let n = ship_refs.len();
    let mut out: Vec<Vec<usize>> = Vec::new();
    let mut i: usize = 0;
    while i < n
        invariant
            n == ship_refs@.len(),
            m == row_refs@.len(),
            i <= n,
            out@.len() == i,
            forall|q: int| 0 <= q < i ==> #[trigger] out@[q]@ == rows_for_ship(ship_refs@, row_refs@, q),
            forall|k: i64| #[trigger]
                by_ship@.contains_key(k) ==> by_ship@[k]@ == rows_of(row_refs@, k, m as int),
            forall|k: i64|
                #![trigger by_ship@.contains_key(k)]
                !by_ship@.contains_key(k) ==> rows_of(row_refs@, k, m as int) =~= Seq::<usize>::empty()
                    || exists|q: int| 0 <= q < i && ship_refs@[q] == k,
            forall|q: int| 0 <= q < i ==> !by_ship@.contains_key(#[trigger] ship_refs@[q]),
        decreases n - i,
    {
        let d = ship_refs[i];
        let ghost before = by_ship@;
        let w = match take_group(&mut by_ship, d) {
            Some(v) => v,
            None => Vec::new(),
        };
        proof {
            if first_with_ref(ship_refs@, i as int) {
                if w@.len() == 0 && !(rows_of(row_refs@, d, m as int) =~= Seq::<usize>::empty()) {
                    let q = choose|q: int| 0 <= q < i && ship_refs@[q] == d;
                    assert(ship_refs@[q] != ship_refs@[i as int]);
                }
            } else {
                let q = choose|q: int| 0 <= q < i && ship_refs@[q] == ship_refs@[i as int];
                assert(!before.contains_key(ship_refs@[q]));
            }
        }
        out.push(w);
        i = i + 1;
    }
    out
}

} // verus!
