//! The requested-target cache: a bounded record of which peer each part
//! was requested from, used to credit the right peer when a part
//! arrives. Backed by an LRU cache of the `lru` crate, keyed by
//! `(part_index, sync_hash)`.

use vstd::prelude::*;
use crate::types::{CryptoHash, PeerId, MAX_PENDING_PART};
use lru::LruCache;

verus! {

/// The cache key: `(part_index, sync_hash)`.
pub type TargetKey = (u64, u64);

#[verifier::external_type_specification]
#[verifier::external_body]
#[verifier::reject_recursive_types(K)]
#[verifier::reject_recursive_types(V)]
#[verifier::reject_recursive_types(S)]
pub struct ExLruCache<K, V, S>(LruCache<K, V, S>);

/// What the cache holds: the peer recorded for each `(part, hash)` key.
pub uninterp spec fn lru_contents(c: LruCache<TargetKey, u64>) -> Map<TargetKey, u64>;

/// The bound the cache was created with.
pub uninterp spec fn lru_bound(c: LruCache<TargetKey, u64>) -> int;

/// Relies on `lru::LruCache::new`: a fresh cache is empty and holds at
/// most `cap` items. `cap >= 1` keeps the `NonZeroUsize` conversion from
/// panicking.
#[verifier::external_body]
fn lru_new(cap: usize) -> (r: LruCache<TargetKey, u64>)
    requires
        cap >= 1,
    ensures
        lru_bound(r) == cap,
        forall|k: TargetKey| !lru_contents(r).contains_key(k),
{
    LruCache::new(std::num::NonZeroUsize::new(cap).unwrap())
}

/// Relies on `lru::LruCache::put`: an existing key is updated in place;
/// a new key is inserted directly while the cache is below its bound,
/// and otherwise replaces the least-recently-used entry, which leaves.
#[verifier::external_body]
fn lru_put(c: &mut LruCache<TargetKey, u64>, part_id: u64, hash: u64, peer: u64)
    ensures
        lru_bound(*final(c)) == lru_bound(*old(c)),
        ({
            let m0 = lru_contents(*old(c));
            let m1 = lru_contents(*final(c));
            if m0.contains_key((part_id, hash)) {
                m1 == m0.insert((part_id, hash), peer)
            } else if m0.dom().finite() && m0.len() < lru_bound(*old(c)) {
                m1 == m0.insert((part_id, hash), peer)
            } else {
                exists|e: (u64, u64)|
                    #![auto]
                    m0.contains_key(e) && e != (part_id, hash) && m1 == m0.remove(e).insert(
                        (part_id, hash),
                        peer,
                    )
            }
        }),
{
    c.put((part_id, hash), peer);
}

/// Relies on `lru::LruCache::get`: returns the value of the key if
/// present; it touches only the recency order, not the contents.
#[verifier::external_body]
fn lru_get(c: &mut LruCache<TargetKey, u64>, part_id: u64, hash: u64) -> (r: Option<u64>)
    ensures
        lru_contents(*final(c)) == lru_contents(*old(c)),
        lru_bound(*final(c)) == lru_bound(*old(c)),
        match r {
            Some(v) => lru_contents(*old(c)).contains_pair((part_id, hash), v),
            None => !lru_contents(*old(c)).contains_key((part_id, hash)),
        },
{
    c.get(&(part_id, hash)).copied()
}

/// Bounded record of which peer each part was requested from, keyed by
/// `(part_index, sync_hash)`.
pub struct RequestedTargets {
    cache: LruCache<TargetKey, u64>,
}

impl RequestedTargets {
    /// The recorded targets.
    pub closed spec fn spec_map(self) -> Map<TargetKey, u64> {
        lru_contents(self.cache)
    }

    /// The bound the record was created with.
    pub closed spec fn spec_bound(self) -> int {
        lru_bound(self.cache)
    }

    /// The record never outgrows the bound it was created with.
    pub closed spec fn wf(self) -> bool {
        &&& self.spec_map().dom().finite()
        &&& self.spec_map().len() <= lru_bound(self.cache)
        &&& lru_bound(self.cache) >= 1
    }

    /// An empty record, bounded by the most parts that may ever be
    /// pending at once.
    pub fn new() -> (r: Self)
        ensures
            r.wf(),
            forall|k: TargetKey| !r.spec_map().contains_key(k),
            r.spec_bound() == MAX_PENDING_PART,
    {
        let r = RequestedTargets { cache: lru_new(MAX_PENDING_PART as usize) };
        proof {
            assert(r.spec_map().dom() =~= Set::<TargetKey>::empty());
        }
        r
    }

    /// Record that `part_id` of the sync target `sync_hash` was
    /// requested from `peer`.
    pub fn put(&mut self, part_id: u64, sync_hash: CryptoHash, peer: PeerId)
        requires
            old(self).wf(),
        ensures
            final(self).wf(),
            final(self).spec_map().contains_pair((part_id, sync_hash), peer),
    {
        lru_put(&mut self.cache, part_id, sync_hash, peer);
    }

    /// The peer that `part_id` of the sync target `sync_hash` was last
    /// requested from, if still recorded.
    pub fn get(&mut self, part_id: u64, sync_hash: CryptoHash) -> (r: Option<PeerId>)
        requires
            old(self).wf(),
        ensures
            final(self).wf(),
            final(self).spec_map() == old(self).spec_map(),
            match r {
                Some(v) => old(self).spec_map().contains_pair((part_id, sync_hash), v),
                None => !old(self).spec_map().contains_key((part_id, sync_hash)),
            },
    {
        lru_get(&mut self.cache, part_id, sync_hash)
    }
}

} // verus!
