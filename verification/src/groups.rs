//! Groups of values kept under an integer key, in `fxhash`'s map.
//!
//! `fxhash::FxHashMap` is std's `HashMap` with `fxhash`'s hasher. Each
//! method used here is a trusted item whose contract states the map's
//! view before and after the call.

use vstd::prelude::*;
use fxhash::FxHashMap;

verus! {

/// The hasher with which `fxhash` builds its maps (`fxhash::FxHasher`).
#[verifier::external_type_specification]
#[verifier::external_body]
pub struct ExFxHasher(fxhash::FxHasher);

/// std's builder of default-made hashers (`std::hash::BuildHasherDefault`),
/// with which `fxhash::FxHashMap` uses `FxHasher`.
#[verifier::external_type_specification]
#[verifier::external_body]
#[verifier::reject_recursive_types(H)]
pub struct ExBuildHasherDefault<H>(std::hash::BuildHasherDefault<H>);

/// `FxHashMap::default` (std's `HashMap::default`): a new map holds no
/// entry.
#[verifier::external_body]
pub(crate) fn new_groups<V>() -> (m: FxHashMap<i64, V>)
    ensures
        (m@ == Map::<i64, V>::empty()),
{
    FxHashMap::default()
}

/// `HashMap::remove` on an `FxHashMap`: the key's entry leaves the map,
/// and its value comes back, `None` where the key had no entry.
#[verifier::external_body]
pub(crate) fn take_group<V>(m: &mut FxHashMap<i64, V>, k: i64) -> (r: Option<V>)
    ensures
        final(m)@ == old(m)@.remove(k),
        old(m)@.contains_key(k) ==> r == Some(old(m)@[k]),
        !old(m)@.contains_key(k) ==> r is None,
{
    m.remove(&k)
}

/// `HashMap::insert` on an `FxHashMap`: afterwards the key maps to the
/// value, and every other entry is as it was.
#[verifier::external_body]
pub(crate) fn put_group<V>(m: &mut FxHashMap<i64, V>, k: i64, v: V)
    ensures
        final(m)@ == old(m)@.insert(k, v),
{
    m.insert(k, v);
}

/// `HashMap::get` on an `FxHashMap`: the key's value, `None` where the key
/// has no entry.
#[verifier::external_body]
pub(crate) fn group<V>(m: &FxHashMap<i64, V>, k: i64) -> (r: Option<&V>)
    ensures
        m@.contains_key(k) ==> r == Some(&m@[k]),
        !m@.contains_key(k) ==> r is None,
{
    m.get(&k)
}

} // verus!
