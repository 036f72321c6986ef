//! The value side of the store: a sharded concurrent hash map from key to a
//! `(value, deadline-handle)` pair.
//!
//! The map itself is `dashmap::DashMap`; this module gives it a mathematical
//! face. `dm_entries` names, for a map value, the finite map from key to the
//! pair stored under it. Every call into the map goes through a wrapper below
//! whose contract says how it moves that map.

use vstd::prelude::*;

verus! {

/// The sharded concurrent hash map holding each key's value and its current
/// deadline handle.
#[verifier::external_type_specification]
#[verifier::external_body]
#[verifier::reject_recursive_types(K)]
#[verifier::reject_recursive_types(V)]
#[verifier::reject_recursive_types(S)]
pub struct ExDashMap<K, V, S>(dashmap::DashMap<K, V, S>);

/// What a value-store entry holds beside the value: the handle of the entry's
/// current scheduled expiration.
pub type StoredPair = (u64, tokio_util::time::delay_queue::Key);

/// The contents of the value store: which `(value, handle)` pair is kept
/// under each key.
pub uninterp spec fn dm_entries(
    m: dashmap::DashMap<u64, StoredPair, std::collections::hash_map::RandomState>,
) -> Map<u64, StoredPair>;

/// The contents of a store holding no entries.
pub open spec fn dm_empty() -> Map<u64, StoredPair> {
    Map::empty()
}

/// Relies on `std::hash::RandomState::default`: a freshly seeded hash
/// strategy. The seed is random, so nothing is promised of the result.
pub assume_specification[ <std::collections::hash_map::RandomState as core::default::Default>::default ]() -> std::collections::hash_map::RandomState;

/// Relies on `dashmap::DashMap::with_hasher`: a freshly created map holds no
/// entries.
#[verifier::external_body]
pub(crate) fn dm_new(
    hasher: std::collections::hash_map::RandomState,
) -> (m: dashmap::DashMap<u64, StoredPair, std::collections::hash_map::RandomState>)
    ensures
        dm_entries(m) == dm_empty(),
{
    dashmap::DashMap::with_hasher(hasher)
}

/// Relies on `dashmap::DashMap::insert`: stores `pair` under `key` and
/// returns the pair previously stored there, if any.
#[verifier::external_body]
pub(crate) fn dm_insert(
    m: &mut dashmap::DashMap<u64, StoredPair, std::collections::hash_map::RandomState>,
    key: u64,
    pair: StoredPair,
) -> (prev: Option<StoredPair>)
    ensures
        dm_entries(*final(m)) == dm_entries(*old(m)).insert(key, pair),
        prev == (if dm_entries(*old(m)).dom().contains(key) {
            Some(dm_entries(*old(m))[key])
        } else {
            None::<StoredPair>
        }),
{
    m.insert(key, pair)
}

/// Relies on `dashmap::DashMap::get`: returns a copy of the pair stored under
/// `key`, if any.
#[verifier::external_body]
pub(crate) fn dm_get(
    m: &dashmap::DashMap<u64, StoredPair, std::collections::hash_map::RandomState>,
    key: u64,
) -> (r: Option<StoredPair>)
    ensures
        r == (if dm_entries(*m).dom().contains(key) {
            Some(dm_entries(*m)[key])
        } else {
            None::<StoredPair>
        }),
{
    m.get(&key).map(|entry| *entry)
}

/// Relies on `dashmap::DashMap::get_mut`: when `key` is present, overwrites
/// the pair stored under it through the returned mutable view and hands back
/// the pair it replaced; when absent, changes nothing.
#[verifier::external_body]
pub(crate) fn dm_update(
    m: &mut dashmap::DashMap<u64, StoredPair, std::collections::hash_map::RandomState>,
    key: u64,
    pair: StoredPair,
) -> (prev: Option<StoredPair>)
    ensures
        (dm_entries(*old(m)).dom().contains(key) ==> dm_entries(*final(m)) == dm_entries(
            *old(m),
        ).insert(key, pair)),
        (!dm_entries(*old(m)).dom().contains(key) ==> dm_entries(*final(m)) == dm_entries(
            *old(m),
        )),
        prev == (if dm_entries(*old(m)).dom().contains(key) {
            Some(dm_entries(*old(m))[key])
        } else {
            None::<StoredPair>
        }),
{
    match m.get_mut(&key) {
        Some(mut entry) => {
            let prev = *entry;
            *entry = pair;
            Some(prev)
        },
        None => None,
    }
}

/// Relies on `dashmap::DashMap::remove`: removes the entry under `key`,
/// returning its pair if one was present.
#[verifier::external_body]
pub(crate) fn dm_remove(
    m: &mut dashmap::DashMap<u64, StoredPair, std::collections::hash_map::RandomState>,
    key: u64,
) -> (r: Option<StoredPair>)
    ensures
        dm_entries(*final(m)) == dm_entries(*old(m)).remove(key),
        r == (if dm_entries(*old(m)).dom().contains(key) {
            Some(dm_entries(*old(m))[key])
        } else {
            None::<StoredPair>
        }),
{
    m.remove(&key).map(|(_k, pair)| pair)
}

/// Relies on `dashmap::DashMap::len`: the number of entries in the map.
#[verifier::external_body]
pub(crate) fn dm_len(
    m: &dashmap::DashMap<u64, StoredPair, std::collections::hash_map::RandomState>,
) -> (n: usize)
    ensures
        n == dm_entries(*m).dom().len(),
{
    m.len()
}

/// Relies on `dashmap::DashMap::contains_key`: whether an entry is stored
/// under `key`.
#[verifier::external_body]
pub(crate) fn dm_contains_key(
    m: &dashmap::DashMap<u64, StoredPair, std::collections::hash_map::RandomState>,
    key: u64,
) -> (r: bool)
    ensures
        r == dm_entries(*m).dom().contains(key),
{
    m.contains_key(&key)
}

/// Relies on `dashmap::DashMap::clear`: removes every entry.
#[verifier::external_body]
pub(crate) fn dm_clear(
    m: &mut dashmap::DashMap<u64, StoredPair, std::collections::hash_map::RandomState>,
)
    ensures
        dm_entries(*final(m)) == dm_empty(),
{
    m.clear()
}

} // verus!
