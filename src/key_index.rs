//! The concurrent map that locates each key's slot in a formula system.
use vstd::prelude::*;

use dashmap::DashMap;

use crate::keys::Key;

verus! {

#[verifier::external_type_specification]
#[verifier::external_body]
#[verifier::reject_recursive_types(K)]
#[verifier::reject_recursive_types(V)]
#[verifier::reject_recursive_types(S)]
pub struct ExDashMap<K, V, S>(DashMap<K, V, S>);

/// The entries of a key index, as a map from key to slot number.
pub uninterp spec fn slot_map(m: DashMap<Key, usize>) -> Map<Key, usize>;

/// Relies on `DashMap::new`: a new map holds no entry.
#[verifier::external_body]
pub(crate) fn index_new() -> (r: DashMap<Key, usize>)
    ensures
        slot_map(r).dom() == Set::<Key>::empty(),
{
    DashMap::new()
}

/// Relies on `DashMap::get`: it finds the value stored under an equal key, if
/// any. The key types derive `Eq` and `Hash`, so equal means structurally equal.
#[verifier::external_body]
pub(crate) fn index_get(m: &DashMap<Key, usize>, k: &Key) -> (r: Option<usize>)
    ensures
        r == slot_map(*m).get(*k),
{
    m.get(k).map(|e| *e.value())
}

/// Relies on `DashMap::insert`: it stores `v` under `k`, replacing what was there.
#[verifier::external_body]
pub(crate) fn index_insert(m: &mut DashMap<Key, usize>, k: Key, v: usize)
    ensures
        slot_map(*final(m)) == slot_map(*old(m)).insert(k, v),
{
    m.insert(k, v);
}

} // verus!
