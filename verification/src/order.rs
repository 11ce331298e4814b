//! Stable sorting orders: names as the ship list shows them, by their
//! lowercase form, and weapons by slot. Items with equal keys keep their
//! order.
//!
//! Texts compare character by character, by code point; for UTF-8 strings
//! this is the order of their bytes.

use vstd::prelude::*;
use crate::ship::{lowercase, to_lowercase};
use crate::text::chars_of;

verus! {

/// `a` comes strictly before `b` in lexicographic order of code points.
pub open spec fn lex_lt(a: Seq<char>, b: Seq<char>) -> bool
    decreases a.len(),
{
    if a.len() == 0 {
        b.len() > 0
    } else if b.len() == 0 {
        false
    } else if a[0] != b[0] {
        a[0] < b[0]
    } else {
        lex_lt(a.skip(1), b.skip(1))
    }
}

proof fn lemma_lex_irreflexive(a: Seq<char>)
    ensures
        !lex_lt(a, a),
    decreases a.len(),
{
    if a.len() > 0 {
        lemma_lex_irreflexive(a.skip(1));
    }
}

proof fn lemma_lex_transitive(a: Seq<char>, b: Seq<char>, c: Seq<char>)
    requires
        lex_lt(a, b),
        lex_lt(b, c),
    ensures
        lex_lt(a, c),
    decreases a.len(),
{
    if a.len() > 0 && b.len() > 0 && c.len() > 0 && a[0] == b[0] && b[0] == c[0] {
        lemma_lex_transitive(a.skip(1), b.skip(1), c.skip(1));
    }
}

proof fn lemma_lex_total(a: Seq<char>, b: Seq<char>)
    ensures
        lex_lt(a, b) || lex_lt(b, a) || a == b,
    decreases a.len(),
{
    if a.len() > 0 && b.len() > 0 && a[0] == b[0] {
        lemma_lex_total(a.skip(1), b.skip(1));
        if a.skip(1) == b.skip(1) {
            assert(a =~= seq![a[0]] + a.skip(1));
            assert(b =~= seq![b[0]] + b.skip(1));
        }
    } else if a.len() == 0 && b.len() == 0 {
        assert(a =~= b);
    }
}

/// `lt` is a strict total order: irreflexive, transitive, and any two
/// different keys are ordered one way or the other.
pub open spec fn strict_total<K>(lt: spec_fn(K, K) -> bool) -> bool {
    &&& forall|a: K| !#[trigger] lt(a, a)
    &&& forall|a: K, b: K, c: K| #[trigger] lt(a, b) && #[trigger] lt(b, c) ==> lt(a, c)
    &&& forall|a: K, b: K| #[trigger] lt(a, b) || lt(b, a) || a == b
}

/// Lexicographic order of code points.
pub open spec fn lex_order() -> spec_fn(Seq<char>, Seq<char>) -> bool {
    |a: Seq<char>, b: Seq<char>| lex_lt(a, b)
}

/// Numeric order of slots.
pub open spec fn slot_order() -> spec_fn(i64, i64) -> bool {
    |a: i64, b: i64| a < b
}

proof fn lemma_lex_strict_total()
    ensures
        strict_total(lex_order()),
{
    assert forall|a: Seq<char>| !#[trigger] lex_order()(a, a) by {
        lemma_lex_irreflexive(a);
    }
    assert forall|a: Seq<char>, b: Seq<char>, c: Seq<char>|
        #[trigger] lex_order()(a, b) && #[trigger] lex_order()(b, c) implies lex_order()(a, c) by {
        lemma_lex_transitive(a, b, c);
    }
    assert forall|a: Seq<char>, b: Seq<char>|
        #[trigger] lex_order()(a, b) || lex_order()(b, a) || a == b by {
        lemma_lex_total(a, b);
    }
}

/// `p` lists each index below `n` once.
pub open spec fn is_index_perm(p: Seq<usize>, n: nat) -> bool {
    &&& p.len() == n
    &&& p.no_duplicates()
    &&& forall|k: int| 0 <= k < p.len() ==> #[trigger] p[k] < n
}

/// The keys of `p`'s indices never decrease.
pub open spec fn sorted_by<K>(keys: Seq<K>, lt: spec_fn(K, K) -> bool, p: Seq<usize>) -> bool {
    forall|a: int, b: int| 0 <= a < b < p.len() ==> !lt(keys[p[b] as int], keys[p[a] as int])
}

/// Indices with equal keys stay in increasing order.
pub open spec fn stable_by<K>(keys: Seq<K>, p: Seq<usize>) -> bool {
    forall|a: int, b: int|
        0 <= a < b < p.len() && keys[p[a] as int] == keys[p[b] as int] ==> p[a] < p[b]
}

/// `p` is the stable sorting order of `keys` under `lt`.
pub open spec fn stable_order<K>(keys: Seq<K>, lt: spec_fn(K, K) -> bool, p: Seq<usize>) -> bool {
    &&& is_index_perm(p, keys.len())
    &&& sorted_by(keys, lt, p)
    &&& stable_by(keys, p)
}

/// The lowercase forms of names.
pub open spec fn lower_keys(names: Seq<String>) -> Seq<Seq<char>> {
    names.map_values(|s: String| lowercase(s@))
}

/// Inserting index `i`, larger than every index so far, just before the
/// first key it is below keeps the order sorted and stable.
proof fn lemma_insertion_step<K>(
    keys: Seq<K>,
    lt: spec_fn(K, K) -> bool,
    p: Seq<usize>,
    pos: int,
    i: usize,
)
    requires
        strict_total(lt),
        i < keys.len(),
        0 <= pos <= p.len(),
        p.no_duplicates(),
        forall|k: int| 0 <= k < p.len() ==> #[trigger] p[k] < i,
        sorted_by(keys, lt, p),
        stable_by(keys, p),
        forall|k: int| 0 <= k < pos ==> !lt(keys[i as int], #[trigger] keys[p[k] as int]),
        pos < p.len() ==> lt(keys[i as int], keys[p[pos] as int]),
    ensures
        p.insert(pos, i).no_duplicates(),
        forall|k: int| 0 <= k < p.insert(pos, i).len() ==> #[trigger] p.insert(pos, i)[k] < i + 1,
        sorted_by(keys, lt, p.insert(pos, i)),
        stable_by(keys, p.insert(pos, i)),
{
    p.insert_ensures(pos, i);
    let q = p.insert(pos, i);
    let ki = keys[i as int];
    assert forall|k: int| 0 <= k < q.len() implies #[trigger] q[k] < i + 1 by {
        if k < pos {
            assert(q[k] == p[k]);
        } else if k > pos {
            assert(q[k] == p[k - 1]);
        }
    }
    assert(q.no_duplicates()) by {
        assert forall|a: int, b: int| 0 <= a < b < q.len() implies q[a] != q[b] by {
            if a < pos && b < pos {
                assert(q[a] == p[a] && q[b] == p[b]);
            } else if a < pos && b == pos {
                assert(q[a] == p[a]);
            } else if a < pos && b > pos {
                assert(q[a] == p[a] && q[b] == p[b - 1]);
            } else if a == pos {
                assert(q[b] == p[b - 1]);
            } else {
                assert(q[a] == p[a - 1] && q[b] == p[b - 1]);
            }
        }
    }
    assert forall|a: int, b: int| 0 <= a < b < q.len() implies !lt(
        keys[q[b] as int],
        keys[q[a] as int],
    ) && (keys[q[a] as int] == keys[q[b] as int] ==> q[a] < q[b]) by {
        if b < pos {
            assert(q[a] == p[a] && q[b] == p[b]);
        } else if b == pos {
            assert(q[a] == p[a]);
        } else if a < pos {
            assert(q[a] == p[a] && q[b] == p[b - 1]);
        } else if a == pos {
            // the new index goes before every index whose key is larger
            let kp = keys[p[pos] as int];
            let kb = keys[p[b - 1] as int];
            assert(q[b] == p[b - 1]);
            assert(lt(ki, kp));
            if b - 1 > pos {
                assert(!lt(kb, kp));
                assert(lt(kp, kb) || lt(kb, kp) || kp == kb);
                if lt(kp, kb) {
                    assert(lt(ki, kp) && lt(kp, kb));
                }
            }
            assert(lt(ki, kb));
            if lt(kb, ki) {
                assert(lt(ki, kb) && lt(kb, ki));
                assert(lt(ki, ki));
            }
            assert(!lt(ki, ki));
        } else {
            assert(q[a] == p[a - 1] && q[b] == p[b - 1]);
        }
    }
}

fn lex_lt_exec(a: &[char], b: &[char]) -> (r: bool)
    ensures
        r == lex_lt(a@, b@),
{
    let mut i: usize = 0;
    assert(a@.skip(0) =~= a@);
    assert(b@.skip(0) =~= b@);
    while i < a.len() && i < b.len() && a[i] == b[i]
        invariant
            i <= a@.len(),
            i <= b@.len(),
            lex_lt(a@.skip(i as int), b@.skip(i as int)) == lex_lt(a@, b@),
        decreases a@.len() - i,
    {
        assert(a@.skip(i as int).skip(1) =~= a@.skip(i + 1));
        assert(b@.skip(i as int).skip(1) =~= b@.skip(i + 1));
        assert(a@.skip(i as int)[0] == a@[i as int]);
        assert(b@.skip(i as int)[0] == b@[i as int]);
        i = i + 1;
    }
    if i < a.len() && i < b.len() {
        assert(a@.skip(i as int)[0] == a@[i as int]);
        assert(b@.skip(i as int)[0] == b@[i as int]);
        a[i] < b[i]
    } else {
        i >= a.len() && i < b.len()
    }
}

/// The order in which the ship list shows names: the indices of `names`
/// sorted by lowercase name, names with the same lowercase form in their
/// order in the list.
pub fn order_ignoring_case(names: &[String]) -> (p: Vec<usize>)
    ensures
        stable_order(lower_keys(names@), lex_order(), p@),
{
    proof {
        lemma_lex_strict_total();
    }
    let ghost keys = lower_keys(names@);
    let ghost lt = lex_order();
    let n = names.len();
    let mut lower: Vec<Vec<char>> = Vec::new();
    let mut j: usize = 0;
    while j < n
        invariant
            n == names@.len(),
            keys == lower_keys(names@),
            j <= n,
            lower@.len() == j,
            forall|k: int| 0 <= k < j ==> #[trigger] lower@[k]@ == keys[k],
        decreases n - j,
    {
        let l = to_lowercase(names[j].as_str());
        lower.push(chars_of(l.as_str()));
        j = j + 1;
    }
    let mut p: Vec<usize> = Vec::new();
    let mut i: usize = 0;
    while i < n
        invariant
            strict_total(lt),
            lt == lex_order(),
            n == names@.len(),
            keys == lower_keys(names@),
            keys.len() == n,
            lower@.len() == n,
            forall|k: int| 0 <= k < n ==> #[trigger] lower@[k]@ == keys[k],
            i <= n,
            p@.len() == i,
            p@.no_duplicates(),
            forall|k: int| 0 <= k < p@.len() ==> #[trigger] p@[k] < i,
            sorted_by(keys, lt, p@),
            stable_by(keys, p@),
        decreases n - i,
    {
        let mut pos: usize = 0;
        while pos < p.len() && !lex_lt_exec(lower[i].as_slice(), lower[p[pos]].as_slice())
            invariant
                lt == lex_order(),
                lower@.len() == n,
                forall|k: int| 0 <= k < n ==> #[trigger] lower@[k]@ == keys[k],
                i < n,
                pos <= p@.len(),
                forall|k: int| 0 <= k < p@.len() ==> #[trigger] p@[k] < i,
                forall|k: int| 0 <= k < pos ==> !lt(keys[i as int], #[trigger] keys[p@[k] as int]),
            decreases p@.len() - pos,
        {
            pos = pos + 1;
        }
        proof {
            lemma_insertion_step(keys, lt, p@, pos as int, i);
        }
        p.insert(pos, i);
        i = i + 1;
    }
    p
}

/// The names as the ship list shows them: sorted by lowercase name,
/// names with the same lowercase form in their order in the list.
pub fn sorted_ignoring_case(names: &[String]) -> (r: Vec<String>)
    ensures
        r@.len() == names@.len(),
        exists|p: Seq<usize>|
            stable_order(lower_keys(names@), lex_order(), p) && forall|k: int|
                0 <= k < r@.len() ==> #[trigger] r@[k]@ == names@[p[k] as int]@,
{
    let p = order_ignoring_case(names);
    let mut r: Vec<String> = Vec::new();
    let mut k: usize = 0;
    while k < p.len()
        invariant
            stable_order(lower_keys(names@), lex_order(), p@),
            lower_keys(names@).len() == names@.len(),
            k <= p@.len(),
            r@.len() == k,
            forall|m: int| 0 <= m < k ==> #[trigger] r@[m]@ == names@[p@[m] as int]@,
        decreases p@.len() - k,
    {
        assert(p@[k as int] < names@.len());
        r.push(names[p[k]].clone());
        k = k + 1;
    }
    r
}

/// The order of weapons by slot: the indices of `slots` sorted by slot,
/// equal slots in their order in the list.
pub fn order_by_slot(slots: &[i64]) -> (p: Vec<usize>)
    ensures
        stable_order(slots@, slot_order(), p@),
{
    let ghost lt = slot_order();
    let n = slots.len();
    let mut p: Vec<usize> = Vec::new();
    let mut i: usize = 0;
    while i < n
        invariant
            strict_total(lt),
            lt == slot_order(),
            n == slots@.len(),
            i <= n,
            p@.len() == i,
            p@.no_duplicates(),
            forall|k: int| 0 <= k < p@.len() ==> #[trigger] p@[k] < i,
            sorted_by(slots@, lt, p@),
            stable_by(slots@, p@),
        decreases n - i,
    {
        let mut pos: usize = 0;
        while pos < p.len() && !(slots[i] < slots[p[pos]])
            invariant
                lt == slot_order(),
                n == slots@.len(),
                i < n,
                pos <= p@.len(),
                forall|k: int| 0 <= k < p@.len() ==> #[trigger] p@[k] < i,
                forall|k: int| 0 <= k < pos ==> !lt(slots@[i as int], #[trigger] slots@[p@[k] as int]),
            decreases p@.len() - pos,
        {
            pos = pos + 1;
        }
        proof {
            lemma_insertion_step(slots@, lt, p@, pos as int, i);
        }
        p.insert(pos, i);
        i = i + 1;
    }
    p
}

/// Every index below `n` appears in a permutation of the indices below `n`.
proof fn lemma_perm_contains(p: Seq<usize>, n: nat, x: usize)
    requires
        is_index_perm(p, n),
        x < n,
    ensures
        exists|k: int| 0 <= k < p.len() && p[k] == x,
{
    let s = p.map_values(|u: usize| u as int);
    assert(s.no_duplicates()) by {
        assert forall|a: int, b: int| 0 <= a < s.len() && 0 <= b < s.len() && a != b implies s[a]
            != s[b] by {
            assert(p[a] != p[b]);
        }
    }
    s.unique_seq_to_set();
    let range = vstd::set_lib::set_int_range(0, n as int);
    vstd::set_lib::lemma_int_range(0, n as int);
    assert(s.to_set().subset_of(range)) by {
        assert forall|v: int| s.to_set().contains(v) implies range.contains(v) by {
            let k = choose|k: int| 0 <= k < s.len() && s[k] == v;
            assert(p[k] < n);
        }
    }
    vstd::seq_lib::seq_to_set_is_finite(s);
    vstd::set_lib::lemma_subset_equality(s.to_set(), range);
    assert(range.contains(x as int));
    assert(s.to_set().contains(x as int));
    let k = choose|k: int| 0 <= k < s.len() && s[k] == x as int;
    assert(p[k] == x);
}

proof fn lemma_orders_agree_up_to<K>(
    keys: Seq<K>,
    lt: spec_fn(K, K) -> bool,
    p: Seq<usize>,
    q: Seq<usize>,
    k: int,
)
    requires
        strict_total(lt),
        stable_order(keys, lt, p),
        stable_order(keys, lt, q),
        0 <= k < p.len(),
    ensures
        forall|j: int| 0 <= j <= k ==> #[trigger] p[j] == q[j],
    decreases k,
{
    if k > 0 {
        lemma_orders_agree_up_to(keys, lt, p, q, k - 1);
    }
    let x = p[k];
    let y = q[k];
    if x != y {
        lemma_perm_contains(q, keys.len(), x);
        lemma_perm_contains(p, keys.len(), y);
        let j = choose|j: int| 0 <= j < q.len() && q[j] == x;
        let i = choose|i: int| 0 <= i < p.len() && p[i] == y;
        if j < k {
            assert(p[j] == q[j]);
        }
        if i < k {
            assert(p[i] == q[i]);
        }
        assert(k < j && k < i);
        assert(!lt(keys[y as int], keys[x as int]));
        assert(!lt(keys[x as int], keys[y as int]));
        assert(lt(keys[x as int], keys[y as int]) || lt(keys[y as int], keys[x as int])
            || keys[x as int] == keys[y as int]);
        assert(x < y);
        assert(y < x);
    }
}

/// There is one stable sorting order under a strict total order: two
/// orders that both list each index once, never decrease in key and keep
/// equal keys in index order are the same.
pub proof fn law_stable_order_unique<K>(
    keys: Seq<K>,
    lt: spec_fn(K, K) -> bool,
    p: Seq<usize>,
    q: Seq<usize>,
)
    requires
        strict_total(lt),
        stable_order(keys, lt, p),
        stable_order(keys, lt, q),
    ensures
        p == q,
{
    if p.len() > 0 {
        lemma_orders_agree_up_to(keys, lt, p, q, p.len() - 1);
    }
    assert(p =~= q);
}

/// The orders compared are strict total orders.
pub proof fn law_orders_are_strict_total()
    ensures
        strict_total(lex_order()),
        strict_total(slot_order()),
{
    lemma_lex_strict_total();
}

} // verus!
