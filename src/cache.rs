use vstd::prelude::*;
use std::hash::BuildHasher;
use std::hash::Hash;
use ttl_cache::TtlCache;

verus! {

#[verifier::external_type_specification]
#[verifier::external_body]
#[verifier::reject_recursive_types(K)]
#[verifier::reject_recursive_types(V)]
#[verifier::reject_recursive_types(S)]
pub struct ExTtlCache<K: Eq + Hash, V, S: BuildHasher>(TtlCache<K, V, S>);

/// What a content cache physically holds, expired entries included.
pub uninterp spec fn cache_held(c: TtlCache<u64, Vec<u8>>) -> Map<u64, Seq<u8>>;

/// The most entries a content cache keeps at once.
pub uninterp spec fn cache_capacity(c: TtlCache<u64, Vec<u8>>) -> nat;

/// Relies on `TtlCache::new`: an empty cache with the given capacity.
#[verifier::external_body]
pub(crate) fn cache_new(capacity: usize) -> (r: TtlCache<u64, Vec<u8>>)
    ensures
        cache_held(r) =~= Map::empty(),
        cache_capacity(r) == capacity,
{
    TtlCache::new(capacity)
}

/// Relies on `TtlCache::get`: an unexpired entry's value, or nothing. Any held
/// entry may have expired, so a miss is always possible.
#[verifier::external_body]
pub(crate) fn cache_get(c: &TtlCache<u64, Vec<u8>>, key: u64) -> (r: Option<&Vec<u8>>)
    ensures
        r matches Some(v) ==> cache_held(*c).contains_key(key) && v@ == cache_held(*c)[key],
{
    c.get(&key)
}

/// Relies on `TtlCache::insert`: the pair is added with a time to live of
/// `ttl_ms` milliseconds; past capacity the oldest inserted entry goes. Every
/// other entry that remains kept its value.
#[verifier::external_body]
pub(crate) fn cache_insert(c: &mut TtlCache<u64, Vec<u8>>, key: u64, value: Vec<u8>, ttl_ms: u64)
    ensures
        cache_capacity(*final(c)) == cache_capacity(*old(c)),
        cache_capacity(*old(c)) > 0 ==> cache_held(*final(c)).contains_key(key)
            && cache_held(*final(c))[key] == value@,
        forall|k: u64|
            k != key && #[trigger] cache_held(*final(c)).contains_key(k) ==> cache_held(
                *old(c),
            ).contains_key(k) && cache_held(*final(c))[k] == cache_held(*old(c))[k],
{
    c.insert(key, value, std::time::Duration::from_millis(ttl_ms));
}

} // verus!
