//! The server's cache index: a concurrent hash map from key bytes to cache
//! entries, sharded so that operations on distinct keys proceed in
//! parallel.
use crate::protocol::{CacheEntry, EntryView};
use dashmap::DashMap;
use vstd::prelude::*;

verus! {

/// Key bytes to cache entries.
pub type CacheIndex = DashMap<Vec<u8>, CacheEntry>;

#[verifier::external_type_specification]
#[verifier::external_body]
#[verifier::reject_recursive_types(K)]
#[verifier::reject_recursive_types(V)]
#[verifier::reject_recursive_types(S)]
pub struct ExDashMap<K, V, S>(DashMap<K, V, S>);

/// The index's contents: each key's bytes to the value of its entry.
pub uninterp spec fn index_items(m: DashMap<Vec<u8>, CacheEntry>) -> Map<Seq<u8>, EntryView>;

/// Relies on dashmap's `DashMap::new`: a map with no entries.
#[verifier::external_body]
pub(crate) fn index_new() -> (r: CacheIndex)
    ensures
        index_items(r).dom() == Set::<Seq<u8>>::empty(),
{
    DashMap::new()
}

/// Relies on dashmap's `DashMap::insert`: the key now maps to the entry,
/// other keys keep theirs, and the entry it replaced comes back.
#[verifier::external_body]
pub(crate) fn index_insert(m: &mut DashMap<Vec<u8>, CacheEntry>, key: Vec<u8>, entry: CacheEntry) -> (r:
    Option<CacheEntry>)
    ensures
        index_items(*final(m)) == index_items(*old(m)).insert(key@, entry@),
        r is Some <==> index_items(*old(m)).contains_key(key@),
        r matches Some(e) ==> e@ == index_items(*old(m))[key@],
{
    m.insert(key, entry)
}

/// Relies on dashmap's `DashMap::get`: a copy of the key's entry, if it has
/// one.
#[verifier::external_body]
pub(crate) fn index_get(m: &DashMap<Vec<u8>, CacheEntry>, key: &[u8]) -> (r: Option<CacheEntry>)
    ensures
        r is Some <==> index_items(*m).contains_key(key@),
        r matches Some(e) ==> e@ == index_items(*m)[key@],
{
    m.get(key).map(|e| e.value().clone())
}

/// Relies on dashmap's `DashMap::remove`: the key leaves the map and its
/// entry, if it had one, comes back.
#[verifier::external_body]
pub(crate) fn index_remove(m: &mut DashMap<Vec<u8>, CacheEntry>, key: &[u8]) -> (r: Option<CacheEntry>)
    ensures
        index_items(*final(m)) == index_items(*old(m)).remove(key@),
        r is Some <==> index_items(*old(m)).contains_key(key@),
        r matches Some(e) ==> e@ == index_items(*old(m))[key@],
{
    m.remove(key).map(|p| p.1)
}

/// Relies on dashmap's `DashMap::len`: the number of keys.
#[verifier::external_body]
pub(crate) fn index_len(m: &DashMap<Vec<u8>, CacheEntry>) -> (r: usize)
    ensures
        r == index_items(*m).len(),
{
    m.len()
}

} // verus!
