//! Hash maps and sets with the hasher of `rustc_hash`.
//!
//! `FxHashMap` and `FxHashSet` are std's collections with a hasher that maps equal integers to
//! equal hashes. So with integer keys they behave as maps and sets of mathematics do.
use rustc_hash::{FxHashMap, FxHashSet};
use std::hash::Hash;
use vstd::prelude::*;

verus! {

/// The hasher of the maps and sets.
#[verifier::external_type_specification]
#[verifier::external_body]
pub struct ExFxBuildHasher(rustc_hash::FxBuildHasher);

/// An integer that serves as a key.
pub(crate) trait IntegerKey: Copy + Eq + Hash {

}

impl IntegerKey for i32 {

}

impl IntegerKey for u64 {

}

/// A set without members, by `default` of `FxHashSet`.
#[verifier::external_body]
pub(crate) fn empty_set<K: IntegerKey>() -> (set: FxHashSet<K>)
    ensures
        forall|key: K| !(#[trigger] set@.contains(key)),
{
    FxHashSet::default()
}

/// Whether a set of integers holds a key, by `contains` of `FxHashSet`: membership.
#[verifier::external_body]
pub(crate) fn holds_key<K: IntegerKey>(set: &FxHashSet<K>, key: K) -> (held: bool)
    ensures
        held == set@.contains(key),
{
    set.contains(&key)
}

/// Makes a key a member, by `insert` of `FxHashSet`.
#[verifier::external_body]
pub(crate) fn insert_key<K: IntegerKey>(set: &mut FxHashSet<K>, key: K)
    ensures
        final(set)@ == old(set)@.insert(key),
{
    set.insert(key);
}

/// Makes a key no member, by `remove` of `FxHashSet`.
#[verifier::external_body]
pub(crate) fn remove_key<K: IntegerKey>(set: &mut FxHashSet<K>, key: K)
    ensures
        final(set)@ == old(set)@.remove(key),
{
    set.remove(&key);
}

/// A map without entries, by `default` of `FxHashMap`.
#[verifier::external_body]
pub(crate) fn empty_map<K: IntegerKey, V>() -> (map: FxHashMap<K, V>)
    ensures
        forall|key: K| !(#[trigger] map@.dom().contains(key)),
{
    FxHashMap::default()
}

/// Enters a value under a key, by `insert` of `FxHashMap`: a value that was there is replaced.
#[verifier::external_body]
pub(crate) fn insert_entry<K: IntegerKey, V>(map: &mut FxHashMap<K, V>, key: K, value: V)
    ensures
        final(map)@ == old(map)@.insert(key, value),
{
    map.insert(key, value);
}

/// Takes the entry of a key out, by `remove` of `FxHashMap`, and gives the value that was there.
#[verifier::external_body]
pub(crate) fn remove_entry<K: IntegerKey, V>(map: &mut FxHashMap<K, V>, key: K) -> (value: Option<
    V,
>)
    ensures
        final(map)@ == old(map)@.remove(key),
        value == (if old(map)@.dom().contains(key) {
            Some(old(map)@[key])
        } else {
            None
        }),
{
    map.remove(&key)
}

/// Whether a key has an entry, by `contains_key` of `FxHashMap`.
#[verifier::external_body]
pub(crate) fn has_entry<K: IntegerKey, V>(map: &FxHashMap<K, V>, key: K) -> (held: bool)
    ensures
        held == map@.dom().contains(key),
{
    map.contains_key(&key)
}

/// Whether a map has no entry, by `is_empty` of `FxHashMap`.
#[verifier::external_body]
pub(crate) fn has_no_entries<K: IntegerKey, V>(map: &FxHashMap<K, V>) -> (empty: bool)
    ensures
        empty == forall|key: K| !(#[trigger] map@.dom().contains(key)),
{
    map.is_empty()
}

} // verus!
