//! The expiring bounded store behind each queue.
//!
//! The store is `moka::sync::Cache`. Its entries leave on their own: when
//! their time to live has passed, or when the store is over its capacity. No
//! contract can say when that happens. Each contract below therefore says
//! what the store holds when the call returns at most: what it held before,
//! changed as the call changes it. What a lookup returns is exact for what
//! the store holds then, and what is written is held when it has been
//! written.
//!
//! Nothing in this module is proved. The contracts are read off the source
//! of moka, on the assumption that a store is reached through one owner
//! only, as it is in this crate: a `Cache` is never cloned here.

use vstd::prelude::*;
use moka::sync::Cache;
use std::time::Duration;

verus! {

/// `moka::sync::Cache`, of which Verus sees nothing but the name.
#[verifier::external_type_specification]
#[verifier::external_body]
#[verifier::reject_recursive_types(K)]
#[verifier::reject_recursive_types(V)]
#[verifier::reject_recursive_types(S)]
pub struct ExCache<K, V, S>(Cache<K, V, S>);

/// The longest time to live, in seconds, that a store can be built with.
pub const MAX_TTL_SECONDS: u64 = 31_536_000_000;

/// The entries that `store` holds: what was written and has neither been
/// discarded nor left on its own.
pub uninterp spec fn cache_entries(store: Cache<String, Vec<u8>>) -> Map<Seq<char>, Seq<u8>>;

/// The limits that `store` was built with: the largest number of entries it
/// holds, and the time that an entry lives, in seconds.
pub uninterp spec fn cache_limits(store: Cache<String, Vec<u8>>) -> (nat, nat);

/// Whether every entry of `now` is an entry of `before`: entries may have
/// left, none has come or changed.
pub open spec fn remains_of(now: Map<Seq<char>, Seq<u8>>, before: Map<Seq<char>, Seq<u8>>) -> bool {
    forall|k: Seq<char>| #[trigger]
        now.dom().contains(k) ==> before.dom().contains(k) && now[k] == before[k]
}

/// Builds an empty store through `moka::sync::CacheBuilder`: `max_capacity`
/// bounds the number of entries and every entry lives `ttl_seconds` at most.
/// The builder panics on a time to live of more than a thousand years, which
/// the precondition leaves out.
#[verifier::external_body]
pub(crate) fn cache_new(max_capacity: u64, ttl_seconds: u64) -> (built: Cache<String, Vec<u8>>)
    requires
        ttl_seconds <= MAX_TTL_SECONDS,
    ensures
        cache_entries(built).dom() == Set::<Seq<char>>::empty(),
        cache_limits(built).0 == max_capacity,
        cache_limits(built).1 == ttl_seconds,
{
    Cache::builder()
        .max_capacity(max_capacity)
        .time_to_live(Duration::from_secs(ttl_seconds))
        .build()
}

/// Looks `key` up through `moka::sync::Cache::get`, which returns a clone of
/// the value. Entries may have left the store by the time of the lookup: the
/// answer is exact for the entries held afterwards, and it is to show them
/// that the store is taken by mutable reference.
#[verifier::external_body]
pub(crate) fn cache_get(store: &mut Cache<String, Vec<u8>>, key: &str) -> (found: Option<Vec<u8>>)
    ensures
        remains_of(cache_entries(*final(store)), cache_entries(*old(store))),
        cache_limits(*final(store)) == cache_limits(*old(store)),
        match found {
            Some(value) => cache_entries(*final(store)).contains_pair(key@, value@),
            None => !cache_entries(*final(store)).contains_key(key@),
        },
{
    store.get(key)
}

/// Writes an entry through `moka::sync::Cache::insert`, which replaces the
/// value of a key that is present. Nothing else enters the store. The entry
/// itself is in the store when it has been written, unless the store was
/// built to hold nothing or to let entries live no time at all.
#[verifier::external_body]
pub(crate) fn cache_insert(store: &mut Cache<String, Vec<u8>>, key: String, value: Vec<u8>)
    ensures
        remains_of(cache_entries(*final(store)), cache_entries(*old(store)).insert(key@, value@)),
        cache_limits(*final(store)) == cache_limits(*old(store)),
        cache_limits(*old(store)).0 > 0 && cache_limits(*old(store)).1 > 0 ==> cache_entries(
            *final(store),
        ).contains_pair(key@, value@),
{
    store.insert(key, value)
}

/// Discards the entry of `key` through `moka::sync::Cache::invalidate`.
#[verifier::external_body]
pub(crate) fn cache_invalidate(store: &mut Cache<String, Vec<u8>>, key: &str)
    ensures
        remains_of(cache_entries(*final(store)), cache_entries(*old(store)).remove(key@)),
        cache_limits(*final(store)) == cache_limits(*old(store)),
{
    store.invalidate(key)
}

} // verus!
