//! The orchestrator: a per-shard state machine driving a
//! header-then-parts download, with target selection, bounded
//! concurrency, a pending-request ledger, and response ingestion.

use vstd::prelude::*;
use std::collections::HashMap;
use std::sync::Arc;
use crate::epoch::EpochManagerView;
use crate::pending::PendingLedger;
use crate::rng::random_below;
use crate::sampler::{lemma_sampler_counts, SamplerLimited};
use crate::permits::{semaphore_available_permits, semaphore_new, semaphore_try_acquire};
use crate::store::ChainStore;
use crate::target_cache::RequestedTargets;
use crate::types::{
    CryptoHash, DownloadStatus, EpochHeight, EpochId, PartId, PeerId, ShardId, ShardSyncDownload,
    ShardStateSyncResponse, ShardSyncDownloadView, ShardSyncStatus, StateHeaderInfo, StateRoot, StateSyncResult, StateSyncGetPartResult, SyncConfig,
    SyncError, TimeDelta, Timestamp, MAX_PENDING_PART, MAX_STATE_PART_REQUEST,
};
use crate::types::spec_sat_inc;
use crate::validator::SyncValidator;

verus! {

broadcast use vstd::std_specs::hash::group_hash_axioms;

/// One piece of outside work that a tick asks the caller to perform:
/// a network send, an enqueue on a downstream scheduler, or a background
/// fetch from the external store.
pub enum Action {
    /// Ask `peer_id` for the state header of `shard_id`.
    StateRequestHeader { shard_id: ShardId, sync_hash: CryptoHash, peer_id: PeerId },
    /// Ask `peer_id` for one state part of `shard_id`.
    StateRequestPart { shard_id: ShardId, sync_hash: CryptoHash, part_id: u64, peer_id: PeerId },
    /// Enqueue the application of all downloaded parts of `shard_id`.
    ScheduleApplyStateParts { shard_id: ShardId, sync_hash: CryptoHash, num_parts: u64 },
    /// Enqueue the splitting of the downloaded state of `shard_id` into
    /// the next epoch's shard layout.
    ScheduleStateSplit { shard_id: ShardId, sync_hash: CryptoHash },
    /// Fetch one part from the external store in the background,
    /// holding `permit` until the fetch is over.
    FetchExternalPart {
        shard_id: ShardId,
        sync_hash: CryptoHash,
        epoch_id: EpochId,
        epoch_height: EpochHeight,
        part_id: u64,
        num_parts: u64,
        state_root: StateRoot,
        permit: tokio::sync::OwnedSemaphorePermit,
    },
}

/// How the state data is retrieved.
enum StateSyncInner {
    /// Request both the state header and the state parts from peers.
    Peers {
        /// Which parts were requested from which peer and when.
        last_part_id_requested: PendingLedger,
        /// From whom each part was requested.
        requested_target: RequestedTargets,
    },
    /// Request the state header from peers but fetch the state parts
    /// from an external store.
    PartsFromExternal {
        /// Chain identity, part of each object's location in the store.
        chain_id: String,
        /// Bound on the number of simultaneous downloads.
        semaphore: Arc<tokio::sync::Semaphore>,
    },
}

/// Helper to track state sync: decides each tick what to request, from
/// whom, and how each shard's phase advances.
pub struct StateSync {
    /// How the state data is retrieved.
    inner: StateSyncInner,
    /// When the sync block was last requested.
    last_time_block_requested: Option<Timestamp>,
    /// How long to wait for an answer before retrying.
    timeout: TimeDelta,
    /// Per shard, the result of applying the downloaded state, posted by
    /// the caller.
    state_parts_apply_results: HashMap<u64, Result<(), String>>,
    /// Per shard, the result of splitting the state for resharding,
    /// posted by the caller.
    split_state_roots: HashMap<u64, Result<Vec<(ShardId, StateRoot)>, String>>,
}

impl StateSync {
    /// Whether the parts come from peers rather than from the external
    /// store.
    pub closed spec fn is_peers_mode(self) -> bool {
        self.inner is Peers
    }

    /// The configured timeout.
    pub closed spec fn spec_timeout(self) -> TimeDelta {
        self.timeout
    }

    /// When the sync block was last requested.
    pub closed spec fn spec_last_block_request(self) -> Option<Timestamp> {
        self.last_time_block_requested
    }

    /// The outstanding-parts entry of `(peer, shard)`; `None` outside
    /// peers mode.
    pub closed spec fn spec_pending_get(self, peer: PeerId, shard: ShardId) -> Option<
        crate::pending::PendingRequestStatus,
    > {
        match self.inner {
            StateSyncInner::Peers { last_part_id_requested, .. } => last_part_id_requested.spec_get(
                peer,
                shard,
            ),
            StateSyncInner::PartsFromExternal { .. } => None,
        }
    }

    /// How many parts are outstanding to `peer` for `shard`; zero
    /// outside peers mode.
    pub open spec fn spec_pending_count(self, peer: PeerId, shard: ShardId) -> int {
        match self.spec_pending_get(peer, shard) {
            Some(e) => e.missing_parts as int,
            None => 0,
        }
    }

    /// The recorded request targets, keyed by `(part_index, sync_hash)`;
    /// empty outside peers mode.
    pub closed spec fn spec_targets(self) -> Map<(u64, u64), u64> {
        match self.inner {
            StateSyncInner::Peers { requested_target, .. } => requested_target.spec_map(),
            StateSyncInner::PartsFromExternal { .. } => Map::empty(),
        }
    }

    /// The chain identity the external store is keyed by; `None` in
    /// peers mode.
    pub closed spec fn spec_chain_id(self) -> Option<Seq<char>> {
        match self.inner {
            StateSyncInner::Peers { .. } => None,
            StateSyncInner::PartsFromExternal { chain_id, .. } => Some(chain_id@),
        }
    }

    /// The number of permits the download semaphore was created with;
    /// `None` in peers mode.
    pub closed spec fn spec_semaphore_bound(self) -> Option<int> {
        match self.inner {
            StateSyncInner::Peers { .. } => None,
            StateSyncInner::PartsFromExternal { semaphore, .. } => Some(
                crate::permits::semaphore_bound(semaphore),
            ),
        }
    }

    /// The bound of the requested-target record; `None` in external
    /// mode.
    pub closed spec fn spec_target_bound(self) -> Option<int> {
        match self.inner {
            StateSyncInner::Peers { requested_target, .. } => Some(requested_target.spec_bound()),
            StateSyncInner::PartsFromExternal { .. } => None,
        }
    }

    /// The posted apply results.
    pub closed spec fn spec_apply_results(self) -> Map<u64, Result<(), String>> {
        self.state_parts_apply_results@
    }

    /// The posted split results.
    pub closed spec fn spec_split_results(self) -> Map<
        u64,
        Result<Vec<(ShardId, StateRoot)>, String>,
    > {
        self.split_state_roots@
    }

    /// The ledger and the target record are well formed; in particular
    /// no peer ever has more than `MAX_STATE_PART_REQUEST` parts
    /// outstanding for one shard.
    pub closed spec fn wf(self) -> bool {
        match self.inner {
            StateSyncInner::Peers { last_part_id_requested, requested_target } => {
                &&& last_part_id_requested.wf()
                &&& requested_target.wf()
            },
            StateSyncInner::PartsFromExternal { .. } => true,
        }
    }

    /// Build the orchestrator: in peers mode with an empty ledger and an
    /// empty target record bounded by `MAX_PENDING_PART`; in external
    /// mode keeping the chain identity and a semaphore of as many
    /// permits as the configuration allows during this kind of sync
    /// (clamped to what a semaphore can carry).
    pub fn new(timeout: TimeDelta, chain_id: &str, sync_config: &SyncConfig, catchup: bool) -> (r:
        Self)
        ensures
            r.wf(),
            r.spec_timeout() == timeout,
            r.spec_last_block_request() is None,
            r.is_peers_mode() <==> sync_config is Peers,
            forall|p: PeerId, s: ShardId| r.spec_pending_get(p, s) is None,
            forall|k: (u64, u64)| !r.spec_targets().contains_key(k),
            forall|s: u64| !r.spec_apply_results().contains_key(s),
            forall|s: u64| !r.spec_split_results().contains_key(s),
            match sync_config {
                SyncConfig::Peers => {
                    &&& r.spec_target_bound() == Some(MAX_PENDING_PART as int)
                    &&& r.spec_chain_id() is None
                    &&& r.spec_semaphore_bound() is None
                },
                SyncConfig::ExternalStorage(config) => {
                    &&& r.spec_chain_id() == Some(chain_id@)
                    &&& r.spec_target_bound() is None
                    &&& ({
                        let want = (if catchup {
                            config.num_concurrent_requests_during_catchup
                        } else {
                            config.num_concurrent_requests
                        }) as usize;
                        r.spec_semaphore_bound() == Some(
                            (if want > usize::MAX >> 3 {
                                usize::MAX >> 3
                            } else {
                                want
                            }) as int,
                        )
                    })
                },
            },
    {
        let inner = match sync_config {
            SyncConfig::Peers => StateSyncInner::Peers {
                last_part_id_requested: PendingLedger::new(),
                requested_target: RequestedTargets::new(),
            },
            SyncConfig::ExternalStorage(config) => {
                let num_permits: u32 = if catchup {
                    config.num_concurrent_requests_during_catchup
                } else {
                    config.num_concurrent_requests
                };
                let max_permits: usize = usize::MAX >> 3;
                let permits: usize = if num_permits as usize > max_permits {
                    max_permits
                } else {
                    num_permits as usize
                };
                StateSyncInner::PartsFromExternal {
                    chain_id: chain_id.to_owned(),
                    semaphore: semaphore_new(permits),
                }
            },
        };
        StateSync {
            inner,
            last_time_block_requested: None,
            timeout,
            state_parts_apply_results: HashMap::new(),
            split_state_roots: HashMap::new(),
        }
    }

    /// Called by the caller when it finished applying all the
    /// downloaded parts of `shard_id`.
    pub fn set_apply_result(&mut self, shard_id: ShardId, apply_result: Result<(), String>)
        ensures
            final(self).spec_apply_results() == old(self).spec_apply_results().insert(
                shard_id,
                apply_result,
            ),
            final(self).spec_split_results() == old(self).spec_split_results(),
            final(self).wf() == old(self).wf(),
            final(self).spec_timeout() == old(self).spec_timeout(),
            final(self).spec_last_block_request() == old(self).spec_last_block_request(),
            final(self).is_peers_mode() == old(self).is_peers_mode(),
            forall|p: PeerId, s: ShardId|
                final(self).spec_pending_get(p, s) == old(self).spec_pending_get(p, s),
            final(self).spec_targets() == old(self).spec_targets(),
    {
        self.state_parts_apply_results.insert(shard_id, apply_result);
    }

    /// Called by the caller when it finished splitting the state of
    /// `shard_id` for the new layout.
    pub fn set_split_result(
        &mut self,
        shard_id: ShardId,
        result: Result<Vec<(ShardId, StateRoot)>, String>,
    )
        ensures
            final(self).spec_split_results() == old(self).spec_split_results().insert(
                shard_id,
                result,
            ),
            final(self).spec_apply_results() == old(self).spec_apply_results(),
            final(self).wf() == old(self).wf(),
            final(self).spec_timeout() == old(self).spec_timeout(),
            final(self).spec_last_block_request() == old(self).spec_last_block_request(),
            final(self).is_peers_mode() == old(self).is_peers_mode(),
            forall|p: PeerId, s: ShardId|
                final(self).spec_pending_get(p, s) == old(self).spec_pending_get(p, s),
            final(self).spec_targets() == old(self).spec_targets(),
    {
        self.split_state_roots.insert(shard_id, result);
    }

    /// Whether the sync block must be (re)requested and whether it is
    /// already here. The sync block is the block before the one pinned
    /// by the sync hash. A request is recorded when emitted, and
    /// re-emitted only once the timeout has elapsed.
    pub fn sync_block_status(&mut self, prev_hash: &CryptoHash, chain: &ChainStore, now: Timestamp) -> (r:
        (bool, bool))
        ensures
            ({
                let (request_block, have_block) = r;
                let have = chain.spec_block_exists(*prev_hash);
                &&& have_block == have
                &&& have ==> !request_block && final(self).spec_last_block_request() is None
                &&& !have ==> {
                    &&& request_block == match old(self).spec_last_block_request() {
                        None => true,
                        Some(t) => now >= t + old(self).spec_timeout(),
                    }
                    &&& (request_block ==> final(self).spec_last_block_request() == Some(now))
                    &&& (!request_block ==> final(self).spec_last_block_request() == old(self).spec_last_block_request())
                }
            }),
            final(self).wf() == old(self).wf(),
            final(self).spec_timeout() == old(self).spec_timeout(),
            final(self).is_peers_mode() == old(self).is_peers_mode(),
            forall|p: PeerId, s: ShardId|
                final(self).spec_pending_get(p, s) == old(self).spec_pending_get(p, s),
            final(self).spec_targets() == old(self).spec_targets(),
            final(self).spec_apply_results() == old(self).spec_apply_results(),
            final(self).spec_split_results() == old(self).spec_split_results(),
    {
        let (request_block, have_block) = if !chain.block_exists(*prev_hash) {
            match self.last_time_block_requested {
                None => (true, false),
                Some(last_time) => {
                    if now >= last_time && now - last_time >= self.timeout {
                        (true, false)
                    } else {
                        (false, false)
                    }
                },
            }
        } else {
            self.last_time_block_requested = None;
            (false, true)
        };
        if request_block {
            self.last_time_block_requested = Some(now);
        }
        (request_block, have_block)
    }

    /// The hash of the first block of the epoch that the block
    /// `sync_hash` belongs to, found by walking the chain backwards
    /// until the epoch changes or the genesis sentinel is reached.
    /// It fails exactly where a needed header is missing.
    pub fn get_epoch_start_sync_hash(chain: &ChainStore, sync_hash: &CryptoHash) -> (r: Result<
        CryptoHash,
        SyncError,
    >)
        requires
            chain.headers_wf(),
        ensures
            r is Ok <==> spec_epoch_start(*chain, *sync_hash) is Some,
            r is Ok ==> r.unwrap() == spec_epoch_start(*chain, *sync_hash).unwrap(),
            r is Err ==> match r.unwrap_err() {
                SyncError::MissingBlockHeader(h) => chain.spec_header(h) is None,
                _ => false,
            },
    {
        let mut header = match chain.get_block_header(*sync_hash) {
            None => {
                return Err(SyncError::MissingBlockHeader(*sync_hash));
            },
            Some(h) => h,
        };
        let mut hash: CryptoHash = *sync_hash;
        loop
            invariant
                chain.headers_wf(),
                chain.spec_header(hash) == Some(header),
                spec_epoch_start(*chain, hash) == spec_epoch_start(*chain, *sync_hash),
            decreases header.height,
        {
            if header.prev_hash == 0 {
                return Ok(hash);
            }
            let prev_header = match chain.get_block_header(header.prev_hash) {
                None => {
                    return Err(SyncError::MissingBlockHeader(header.prev_hash));
                },
                Some(h) => h,
            };
            if prev_header.epoch_id != header.epoch_id {
                return Ok(hash);
            }
            hash = header.prev_hash;
            header = prev_header;
        }
    }

}

/// The given peers without those that still have an outstanding entry
/// for the shard, in input order.
pub open spec fn spec_eligible_filter(peers: Seq<PeerId>, s: StateSync, shard_id: ShardId) -> Seq<
    PeerId,
>
    decreases peers.len(),
{
    if peers.len() == 0 {
        peers
    } else {
        let r = spec_eligible_filter(peers.drop_last(), s, shard_id);
        if s.spec_pending_get(peers.last(), shard_id) is None {
            r.push(peers.last())
        } else {
            r
        }
    }
}

impl StateSync {
    /// The peers worth asking for `shard_id` right now: in peers mode,
    /// expired ledger entries are swept and every peer with a still
    /// outstanding request for this shard is excluded; in external mode
    /// all given peers qualify.
    pub fn select_peers(
        &mut self,
        highest_height_peers: &Vec<PeerId>,
        shard_id: ShardId,
        now: Timestamp,
    ) -> (r: Vec<PeerId>)
        requires
            old(self).wf(),
            forall|i: int, j: int|
                0 <= i < j < highest_height_peers@.len() ==> highest_height_peers@[i]
                    != highest_height_peers@[j],
        ensures
            final(self).wf(),
            forall|i: int| 0 <= i < r@.len() ==> highest_height_peers@.contains(#[trigger] r@[i]),
            forall|i: int|
                0 <= i < r@.len() ==> (final(self).is_peers_mode() ==> final(self).spec_pending_get(
                    #[trigger] r@[i],
                    shard_id,
                ) is None),
            forall|p: PeerId|
                highest_height_peers@.contains(p) && (final(self).is_peers_mode()
                    ==> final(self).spec_pending_get(p, shard_id) is None) ==> r@.contains(p),
            forall|i: int, j: int| 0 <= i < j < r@.len() ==> r@[i] != r@[j],
            final(self).is_peers_mode() ==> r@ == spec_eligible_filter(
                highest_height_peers@,
                *final(self),
                shard_id,
            ),
            final(self).is_peers_mode() == old(self).is_peers_mode(),
            final(self).spec_timeout() == old(self).spec_timeout(),
            final(self).spec_last_block_request() == old(self).spec_last_block_request(),
            final(self).spec_targets() == old(self).spec_targets(),
            final(self).spec_apply_results() == old(self).spec_apply_results(),
            final(self).spec_split_results() == old(self).spec_split_results(),
            final(self).is_peers_mode() ==> forall|p: PeerId, s: ShardId|
                final(self).spec_pending_get(p, s) == match old(self).spec_pending_get(p, s) {
                    Some(e) => if now > e.wait_until {
                        None::<crate::pending::PendingRequestStatus>
                    } else {
                        Some(e)
                    },
                    None => None::<crate::pending::PendingRequestStatus>,
                },
            !final(self).is_peers_mode() ==> r@ == highest_height_peers@,
    {
        let is_peers = match &self.inner {
            StateSyncInner::Peers { .. } => true,
            StateSyncInner::PartsFromExternal { .. } => false,
        };
        if is_peers {
            match &mut self.inner {
                StateSyncInner::Peers { last_part_id_requested, .. } => {
                    last_part_id_requested.sweep_expired(now);
                },
                StateSyncInner::PartsFromExternal { .. } => {},
            }
            let mut res: Vec<PeerId> = Vec::new();
            let n = highest_height_peers.len();
            let mut i: usize = 0;
            while i < n
                invariant
                    i <= n,
                    n == highest_height_peers@.len(),
                    self.wf(),
                    self.is_peers_mode(),
                    forall|a: int, b: int|
                        0 <= a < b < highest_height_peers@.len() ==> highest_height_peers@[a]
                            != highest_height_peers@[b],
                    res@ == spec_eligible_filter(
                        highest_height_peers@.take(i as int),
                        *self,
                        shard_id,
                    ),
                    forall|t: int|
                        0 <= t < res@.len() ==> exists|a: int|
                            0 <= a < i && highest_height_peers@[a] == #[trigger] res@[t],
                    forall|t: int|
                        0 <= t < res@.len() ==> self.spec_pending_get(
                            #[trigger] res@[t],
                            shard_id,
                        ) is None,
                    forall|t: int|
                        0 <= t < i ==> (self.spec_pending_get(
                            #[trigger] highest_height_peers@[t],
                            shard_id,
                        ) is None ==> res@.contains(highest_height_peers@[t])),
                    forall|t: int, u: int| 0 <= t < u < res@.len() ==> res@[t] != res@[u],
                decreases n - i,
            {
                let p = highest_height_peers[i];
                let ghost pre = res@;
                let eligible = match self.pending_request(p, shard_id) {
                    None => true,
                    Some(_) => false,
                };
                proof {
                    assert(highest_height_peers@.take((i + 1) as int).drop_last()
                        =~= highest_height_peers@.take(i as int));
                    assert(highest_height_peers@.take((i + 1) as int).last()
                        == highest_height_peers@[i as int]);
                }
                if eligible {
                    res.push(p);
                    proof {
                        assert forall|t: int, u: int|
                            0 <= t < u < res@.len() implies res@[t] != res@[u] by {
                            if u == res@.len() - 1 {
                                assert(res@[t] == pre[t]);
                                assert(res@[u] == p);
                                let a = choose|a: int|
                                    0 <= a < i && highest_height_peers@[a] == pre[t];
                                assert(highest_height_peers@[i as int] == p);
                            } else {
                                assert(res@[t] == pre[t] && res@[u] == pre[u]);
                            }
                        }
                        assert forall|t: int|
                            0 <= t < res@.len() implies exists|a: int|
                            0 <= a < i + 1 && highest_height_peers@[a] == #[trigger] res@[t] by {
                            if t < pre.len() {
                                let a = choose|a: int|
                                    0 <= a < i && highest_height_peers@[a] == pre[t];
                                assert(res@[t] == pre[t]);
                                assert(0 <= a < i + 1 && highest_height_peers@[a] == res@[t]);
                            } else {
                                assert(res@[t] == p);
                                assert(highest_height_peers@[i as int] == res@[t]);
                            }
                        }
                        assert(res@[res@.len() - 1] == p);
                        assert(res@.contains(p));
                        assert forall|t: int|
                            0 <= t < i + 1 && self.spec_pending_get(
                                #[trigger] highest_height_peers@[t],
                                shard_id,
                            ) is None implies res@.contains(highest_height_peers@[t]) by {
                            if t < i {
                                assert(pre.contains(highest_height_peers@[t]));
                                let w = choose|w: int|
                                    0 <= w < pre.len() && pre[w] == highest_height_peers@[t];
                                assert(res@[w] == highest_height_peers@[t]);
                            } else {
                                assert(highest_height_peers@[t] == p);
                            }
                        }
                    }
                }
                i = i + 1;
            }
            proof {
                assert(highest_height_peers@.take(n as int) =~= highest_height_peers@);
                assert forall|t: int|
                    0 <= t < res@.len() implies highest_height_peers@.contains(
                    #[trigger] res@[t],
                ) by {
                    let a = choose|a: int| 0 <= a < n && highest_height_peers@[a] == res@[t];
                }
            }
            res
        } else {
            let mut res: Vec<PeerId> = Vec::new();
            let n = highest_height_peers.len();
            let mut i: usize = 0;
            while i < n
                invariant
                    i <= n,
                    n == highest_height_peers@.len(),
                    res@ == highest_height_peers@.take(i as int),
                decreases n - i,
            {
                res.push(highest_height_peers[i]);
                proof {
                    assert(res@ =~= highest_height_peers@.take((i + 1) as int));
                }
                i = i + 1;
            }
            proof {
                assert(res@ =~= highest_height_peers@);
            }
            res
        }
    }
}

/// The hash of the first block of the epoch of `hash`: the walk along
/// `prev_hash` links stops where the previous block belongs to another
/// epoch or is the genesis sentinel; it is `None` where a needed header
/// is missing.
pub open spec fn spec_epoch_start(chain: ChainStore, hash: CryptoHash) -> Option<CryptoHash>
    decreases (match chain.spec_header(hash) {
        Some(h) => h.height as int,
        None => 0int,
    })
        when chain.headers_wf()
    via spec_epoch_start_decreases
{
    match chain.spec_header(hash) {
        None => None,
        Some(h) => {
            if h.prev_hash == 0 {
                Some(hash)
            } else {
                match chain.spec_header(h.prev_hash) {
                    None => None,
                    Some(ph) => {
                        if ph.epoch_id != h.epoch_id {
                            Some(hash)
                        } else {
                            spec_epoch_start(chain, h.prev_hash)
                        }
                    },
                }
            }
        },
    }
}

#[via_fn]
proof fn spec_epoch_start_decreases(chain: ChainStore, hash: CryptoHash) {
    match chain.spec_header(hash) {
        None => {},
        Some(h) => {
            if h.prev_hash != 0 {
                match chain.spec_header(h.prev_hash) {
                    None => {},
                    Some(ph) => {
                        assert(ph.height < h.height);
                    },
                }
            }
        },
    }
}


/// A single per-part outcome applied to one artifact record: a success
/// marks it done (clearing a stale failure flag), a failure marks it
/// failed unless the artifact is already done.
pub open spec fn spec_apply_part_outcome(dl: DownloadStatus, ok: bool) -> DownloadStatus {
    if ok {
        DownloadStatus { run_me: false, done: true, error: false, ..dl }
    } else if dl.done {
        dl
    } else {
        DownloadStatus { error: true, ..dl }
    }
}

/// One fetched-part message applied to the shard map: a message for
/// another sync target, an untracked shard, a shard outside the parts
/// phase, or an out-of-range part index changes nothing.
pub open spec fn spec_process_one(
    m: Map<u64, ShardSyncDownloadView>,
    msg: StateSyncGetPartResult,
    sync_hash: CryptoHash,
) -> Map<u64, ShardSyncDownloadView> {
    if msg.sync_hash != sync_hash {
        m
    } else if !m.contains_key(msg.shard_id) {
        m
    } else {
        let ssd = m[msg.shard_id];
        if !(ssd.status is StateDownloadParts) {
            m
        } else if msg.part_id.idx >= ssd.downloads.len() {
            m
        } else {
            let dl = ssd.downloads[msg.part_id.idx as int];
            let new_dl = spec_apply_part_outcome(dl, msg.part_result is Ok);
            m.insert(
                msg.shard_id,
                ShardSyncDownloadView {
                    downloads: ssd.downloads.update(msg.part_id.idx as int, new_dl),
                    status: ssd.status,
                },
            )
        }
    }
}

/// A batch of fetched-part messages applied in order.
pub open spec fn spec_process_part_results(
    m: Map<u64, ShardSyncDownloadView>,
    msgs: Seq<StateSyncGetPartResult>,
    sync_hash: CryptoHash,
) -> Map<u64, ShardSyncDownloadView>
    decreases msgs.len(),
{
    if msgs.len() == 0 {
        m
    } else {
        spec_process_one(
            spec_process_part_results(m, msgs.drop_last(), sync_hash),
            msgs.last(),
            sync_hash,
        )
    }
}

/// Apply one fetched-part outcome to the part's record: a success
/// marks it done, a failure marks it failed unless it is already done.
fn process_part_response(part_result: &Result<u64, String>, part_download: &mut DownloadStatus)
    ensures
        *final(part_download) == spec_apply_part_outcome(*old(part_download), part_result is Ok),
{
    match part_result {
        Ok(_) => {
            part_download.run_me = false;
            part_download.done = true;
            part_download.error = false;
        },
        Err(_) => {
            if !part_download.done {
                part_download.error = true;
            }
        },
    }
}

/// The mathematical value of the per-shard map.
pub open spec fn shard_map_view(m: Map<u64, ShardSyncDownload>) -> Map<u64, ShardSyncDownloadView> {
    Map::new(|k: u64| m.contains_key(k), |k: u64| m[k]@)
}

/// A response whose sync hash is not the current one is dropped without
/// any change of state.
pub proof fn lemma_mismatched_sync_hash_dropped(
    m: Map<u64, ShardSyncDownloadView>,
    msg: StateSyncGetPartResult,
    sync_hash: CryptoHash,
)
    requires
        msg.sync_hash != sync_hash,
    ensures
        spec_process_one(m, msg, sync_hash) == m,
{
}

/// A part response whose part index is not below the number of parts is
/// rejected without any change of state.
pub proof fn lemma_out_of_range_part_dropped(
    m: Map<u64, ShardSyncDownloadView>,
    msg: StateSyncGetPartResult,
    sync_hash: CryptoHash,
)
    requires
        m.contains_key(msg.shard_id),
        m[msg.shard_id].status is StateDownloadParts,
        msg.part_id.idx >= m[msg.shard_id].downloads.len(),
    ensures
        spec_process_one(m, msg, sync_hash) == m,
{
}

/// Every artifact marked done in the parts phase has its part persisted
/// in the parts column under the key of its index.
pub open spec fn spec_parts_done_persisted(
    m: Map<u64, ShardSyncDownloadView>,
    chain: ChainStore,
    sync_hash: CryptoHash,
) -> bool {
    forall|s: u64, j: int|
        #![trigger m[s].downloads[j]]
        m.contains_key(s) && m[s].status is StateDownloadParts && 0 <= j < m[s].downloads.len()
            && m[s].downloads[j].done ==> chain.spec_part(sync_hash, s, j as u64) is Some
}

/// Every successful message in a batch reports a part that is persisted
/// under the message's own key.
pub open spec fn spec_ok_results_persisted(
    msgs: Seq<StateSyncGetPartResult>,
    chain: ChainStore,
) -> bool {
    forall|i: int|
        0 <= i < msgs.len() && (#[trigger] msgs[i]).part_result is Ok ==> chain.spec_part(
            msgs[i].sync_hash,
            msgs[i].shard_id,
            msgs[i].part_id.idx,
        ) is Some
}

/// Ingesting a batch of fetched-part messages keeps every done part
/// persisted, as long as each successful message reports a persisted
/// part.
#[verifier::rlimit(50)]
pub proof fn lemma_ingestion_keeps_parts_persisted(
    m: Map<u64, ShardSyncDownloadView>,
    msgs: Seq<StateSyncGetPartResult>,
    chain: ChainStore,
    sync_hash: CryptoHash,
)
    requires
        spec_parts_done_persisted(m, chain, sync_hash),
        spec_ok_results_persisted(msgs, chain),
    ensures
        spec_parts_done_persisted(spec_process_part_results(m, msgs, sync_hash), chain, sync_hash),
    decreases msgs.len(),
{
    if msgs.len() == 0 {
    } else {
        assert(spec_ok_results_persisted(msgs.drop_last(), chain)) by {
            assert forall|i: int|
                0 <= i < msgs.drop_last().len() && (#[trigger] msgs.drop_last()[i]).part_result
                    is Ok implies chain.spec_part(
                msgs.drop_last()[i].sync_hash,
                msgs.drop_last()[i].shard_id,
                msgs.drop_last()[i].part_id.idx,
            ) is Some by {
                assert(msgs.drop_last()[i] == msgs[i]);
            }
        }
        lemma_ingestion_keeps_parts_persisted(m, msgs.drop_last(), chain, sync_hash);
        let m1 = spec_process_part_results(m, msgs.drop_last(), sync_hash);
        let msg = msgs.last();
        let m2 = spec_process_one(m1, msg, sync_hash);
        assert(msg == msgs[msgs.len() - 1]);
        assert forall|s: u64, j: int|
            #![trigger m2[s].downloads[j]]
            m2.contains_key(s) && m2[s].status is StateDownloadParts && 0 <= j
                < m2[s].downloads.len() && m2[s].downloads[j].done implies chain.spec_part(
            sync_hash,
            s,
            j as u64,
        ) is Some by {
            if msg.sync_hash == sync_hash && m1.contains_key(msg.shard_id) && m1[msg.shard_id].status
                is StateDownloadParts && msg.part_id.idx < m1[msg.shard_id].downloads.len() && s
                == msg.shard_id {
                let ssd = m1[msg.shard_id];
                if j == msg.part_id.idx as int {
                    if !ssd.downloads[j].done {
                        assert(msg.part_result is Ok);
                    } else {
                        assert(m1[s].downloads[j].done);
                        assert(chain.spec_part(sync_hash, s, j as u64) is Some);
                    }
                } else {
                    assert(m2[s].downloads[j] == m1[s].downloads[j]);
                }
            } else {
                assert(m1.contains_key(s));
                assert(m2[s] == m1[s]);
                assert(m2[s].downloads[j] == m1[s].downloads[j]);
            }
        }
    }
}

impl StateSync {
    /// Drain the fetched-part outcomes of this tick into the per-shard
    /// records: a success marks the part done, a failure marks it
    /// failed; stale, untracked, out-of-phase and out-of-range messages
    /// are dropped.
    pub fn process_downloaded_parts(
        &self,
        sync_hash: CryptoHash,
        shard_sync: &mut HashMap<u64, ShardSyncDownload>,
        incoming: Vec<StateSyncGetPartResult>,
    )
        ensures
            shard_map_view(final(shard_sync)@) == spec_process_part_results(
                shard_map_view(old(shard_sync)@),
                incoming@,
                sync_hash,
            ),
    {
        let n = incoming.len();
        let mut i: usize = 0;
        proof {
            assert(incoming@.take(0) =~= Seq::<StateSyncGetPartResult>::empty());
        }
        while i < n
            invariant
                i <= n,
                n == incoming@.len(),
                shard_map_view(shard_sync@) == spec_process_part_results(
                    shard_map_view(old(shard_sync)@),
                    incoming@.take(i as int),
                    sync_hash,
                ),
            decreases n - i,
        {
            let ghost pre = shard_sync@;
            let msg = &incoming[i];
            proof {
                assert(incoming@.take((i + 1) as int).drop_last() =~= incoming@.take(i as int));
                assert(incoming@.take((i + 1) as int).last() == incoming@[i as int]);
            }
            if msg.sync_hash == sync_hash {
                let proceed = match shard_sync.get(&msg.shard_id) {
                    None => false,
                    Some(ssd) => ssd.status == ShardSyncStatus::StateDownloadParts
                        && msg.part_id.idx < ssd.downloads.len() as u64,
                };
                if proceed {
                    match shard_sync.remove(&msg.shard_id) {
                        Some(mut ssd) => {
                            let idx = msg.part_id.idx as usize;
                            let ghost ssd0 = ssd@;
                            let mut dl = ssd.downloads[idx];
                            process_part_response(&msg.part_result, &mut dl);
                            ssd.downloads[idx] = dl;
                            proof {
                                assert(ssd@.downloads =~= ssd0.downloads.update(
                                    msg.part_id.idx as int,
                                    spec_apply_part_outcome(
                                        ssd0.downloads[msg.part_id.idx as int],
                                        incoming@[i as int].part_result is Ok,
                                    ),
                                ));
                            }
                            shard_sync.insert(msg.shard_id, ssd);
                            proof {
                                assert(shard_map_view(shard_sync@) =~= spec_process_one(
                                    shard_map_view(pre),
                                    incoming@[i as int],
                                    sync_hash,
                                ));
                            }
                        },
                        None => {
                            proof {
                                assert(false);
                            }
                        },
                    }
                } else {
                    proof {
                        assert(shard_map_view(shard_sync@) =~= spec_process_one(
                            shard_map_view(pre),
                            incoming@[i as int],
                            sync_hash,
                        ));
                    }
                }
            } else {
                proof {
                    assert(shard_map_view(shard_sync@) =~= spec_process_one(
                        shard_map_view(pre),
                        incoming@[i as int],
                        sync_hash,
                    ));
                }
            }
            i = i + 1;
        }
        proof {
            assert(incoming@.take(n as int) =~= incoming@);
        }
    }
}

/// Persist one fetched part exactly when its validation passed: on
/// success the bytes stand in the parts column under the part's key and
/// the byte length is reported; on failure nothing changes and an error
/// is reported. A part is never persisted without passing validation.
pub fn persist_validated_part(
    valid: bool,
    data: &Vec<u8>,
    sync_hash: CryptoHash,
    shard_id: ShardId,
    part_idx: u64,
    chain: &mut ChainStore,
) -> (r: Result<u64, String>)
    requires
        data@.len() <= u64::MAX,
    ensures
        valid ==> {
            &&& r == Ok::<u64, String>(data@.len() as u64)
            &&& final(chain).spec_part(sync_hash, shard_id, part_idx) == Some(data@)
            &&& forall|h: CryptoHash, s: ShardId, i: u64|
                !(h == sync_hash && s == shard_id && i == part_idx) ==> final(chain).spec_part(
                    h,
                    s,
                    i,
                ) == old(chain).spec_part(h, s, i)
        },
        !valid ==> {
            &&& r is Err
            &&& *final(chain) == *old(chain)
        },
        forall|h: CryptoHash| final(chain).spec_header(h) == old(chain).spec_header(h),
        forall|h: CryptoHash| final(chain).spec_block_exists(h) == old(chain).spec_block_exists(h),
        forall|s: ShardId, h: CryptoHash|
            final(chain).spec_state_header(s, h) == old(chain).spec_state_header(s, h),
{
    if valid {
        chain.set_state_part(sync_hash, shard_id, part_idx, data);
        Ok(data.len() as u64)
    } else {
        Err("validate_state_part failed".to_owned())
    }
}

/// Persist a downloaded state header exactly when its validation
/// passed: on acceptance the header stands in the store and the record
/// is marked done; on rejection nothing is stored and the record is
/// marked failed. A header is never persisted or marked done without
/// passing validation.
pub fn persist_validated_header(
    valid: bool,
    header: StateHeaderInfo,
    sync_hash: CryptoHash,
    shard_id: ShardId,
    download: &mut DownloadStatus,
    chain: &mut ChainStore,
)
    requires
        !old(download).done,
        valid ==> header.num_parts <= usize::MAX,
    ensures
        valid ==> {
            &&& final(chain).spec_state_header(shard_id, sync_hash) == Some(header)
            &&& *final(download) == (DownloadStatus {
                run_me: false,
                done: true,
                error: false,
                ..*old(download)
            })
            &&& forall|s: ShardId, h: CryptoHash|
                !(s == shard_id && h == sync_hash) ==> final(chain).spec_state_header(s, h) == old(chain).spec_state_header(s, h)
        },
        !valid ==> {
            &&& *final(chain) == *old(chain)
            &&& *final(download) == (DownloadStatus { error: true, ..*old(download) })
        },
        old(chain).state_headers_wf() ==> final(chain).state_headers_wf(),
        forall|h: CryptoHash| final(chain).spec_header(h) == old(chain).spec_header(h),
        forall|h: CryptoHash| final(chain).spec_block_exists(h) == old(chain).spec_block_exists(h),
        forall|h: CryptoHash, s: ShardId, i: u64|
            final(chain).spec_part(h, s, i) == old(chain).spec_part(h, s, i),
{
    if valid {
        chain.set_state_header(shard_id, sync_hash, header);
        download.run_me = false;
        download.done = true;
        download.error = false;
    } else {
        download.error = true;
    }
}

/// The decision core of one background fetch from the external store:
/// validate what came back, persist it when valid, and report the
/// outcome as a message for the response channel. The reported message
/// is successful only if the fetch succeeded, validation passed, and the
/// bytes are persisted under the part's key.
pub fn process_external_part_response<V: SyncValidator>(
    sync_hash: CryptoHash,
    shard_id: ShardId,
    part_id: PartId,
    state_root: StateRoot,
    fetch_result: Result<Vec<u8>, String>,
    chain: &mut ChainStore,
    validator: &V,
) -> (r: StateSyncGetPartResult)
    ensures
        r.sync_hash == sync_hash,
        r.shard_id == shard_id,
        r.part_id == part_id,
        r.part_result is Ok ==> {
            &&& fetch_result is Ok
            &&& final(chain).spec_part(sync_hash, shard_id, part_id.idx) == Some(
                fetch_result.unwrap()@,
            )
            &&& r.part_result.unwrap() == fetch_result.unwrap()@.len()
        },
        r.part_result is Err ==> forall|h: CryptoHash, s: ShardId, i: u64|
            final(chain).spec_part(h, s, i) == old(chain).spec_part(h, s, i),
        forall|h: CryptoHash, s: ShardId, i: u64|
            !(h == sync_hash && s == shard_id && i == part_id.idx) ==> final(chain).spec_part(
                h,
                s,
                i,
            ) == old(chain).spec_part(h, s, i),
        forall|h: CryptoHash| final(chain).spec_header(h) == old(chain).spec_header(h),
        forall|h: CryptoHash| final(chain).spec_block_exists(h) == old(chain).spec_block_exists(h),
        forall|s: ShardId, h: CryptoHash|
            final(chain).spec_state_header(s, h) == old(chain).spec_state_header(s, h),
{
    match fetch_result {
        Err(e) => StateSyncGetPartResult { sync_hash, shard_id, part_id, part_result: Err(e) },
        Ok(data) => {
            if data.len() > u64::MAX as usize {
                return StateSyncGetPartResult {
                    sync_hash,
                    shard_id,
                    part_id,
                    part_result: Err("state part too large".to_owned()),
                };
            }
            let valid = validator.validate_state_part(state_root, part_id, &data);
            let part_result = persist_validated_part(
                valid,
                &data,
                sync_hash,
                shard_id,
                part_id.idx,
                chain,
            );
            StateSyncGetPartResult { sync_hash, shard_id, part_id, part_result }
        },
    }
}


/// The artifact record after a request for it went out to `peer`: no
/// longer to be issued, one more attempt counted, the source recorded;
/// nothing else moves.
pub open spec fn spec_assigned_download(d0: DownloadStatus, d1: DownloadStatus, peer: Option<PeerId>) -> bool {
    d1 == (DownloadStatus {
        run_me: false,
        state_requests_count: spec_sat_inc(d0.state_requests_count),
        last_target: peer,
        ..d0
    })
}

/// The artifact record after a request could not be issued for want of a
/// permit: the attempt is counted but the artifact stays to be issued.
pub open spec fn spec_rearmed_download(d0: DownloadStatus, d1: DownloadStatus) -> bool {
    d1 == (DownloadStatus {
        run_me: true,
        state_requests_count: spec_sat_inc(d0.state_requests_count),
        last_target: None::<PeerId>,
        ..d0
    })
}

/// What the parts dispatcher may do to one artifact record in one tick.
pub open spec fn spec_dispatch_step(d0: DownloadStatus, d1: DownloadStatus) -> bool {
    ||| d1 == d0
    ||| (d0.run_me && !d0.done && ((exists|p: Option<PeerId>| spec_assigned_download(d0, d1, p))
        || spec_rearmed_download(d0, d1)))
}

impl StateSync {
    /// Send a header request for `shard_id` to one of the given peers,
    /// chosen uniformly at random: the artifact is marked issued and
    /// exactly one header request is emitted.
    pub fn request_shard_header(
        &self,
        shard_id: ShardId,
        sync_hash: CryptoHash,
        possible_targets: &Vec<PeerId>,
        new_shard_sync_download: &mut ShardSyncDownload,
        actions: &mut Vec<Action>,
    )
        requires
            possible_targets@.len() > 0,
            old(new_shard_sync_download).status is StateDownloadHeader,
            old(new_shard_sync_download).downloads@.len() == 1,
            old(new_shard_sync_download).downloads@[0].run_me,
            old(new_shard_sync_download)@.wf(),
        ensures
            final(new_shard_sync_download).status is StateDownloadHeader,
            final(new_shard_sync_download).downloads@.len() == 1,
            final(new_shard_sync_download)@.wf(),
            ({
                let d0 = old(new_shard_sync_download).downloads@[0];
                let d1 = final(new_shard_sync_download).downloads@[0];
                &&& d1.last_target is Some
                &&& possible_targets@.contains(d1.last_target.unwrap())
                &&& spec_assigned_download(d0, d1, d1.last_target)
                &&& final(actions)@ == old(actions)@.push(Action::StateRequestHeader {
                    shard_id,
                    sync_hash,
                    peer_id: d1.last_target.unwrap(),
                })
            }),
    {
        let ix = random_below(possible_targets.len());
        let peer_id = possible_targets[ix];
        let mut d = new_shard_sync_download.downloads[0];
        d.run_me = false;
        d.state_requests_count = if d.state_requests_count == u64::MAX {
            u64::MAX
        } else {
            d.state_requests_count + 1
        };
        d.last_target = Some(peer_id);
        new_shard_sync_download.downloads[0] = d;
        actions.push(Action::StateRequestHeader { shard_id, sync_hash, peer_id });
        proof {
            assert(possible_targets@[ix as int] == peer_id);
        }
    }
}

/// Note one sent part request: record who the part was requested from
/// and charge the peer's outstanding count in the ledger.
fn sent_request_part(
    peer_id: PeerId,
    part_id: u64,
    shard_id: ShardId,
    sync_hash: CryptoHash,
    last_part_id_requested: &mut PendingLedger,
    requested_target: &mut RequestedTargets,
    timeout: TimeDelta,
    now: Timestamp,
)
    requires
        old(last_part_id_requested).wf(),
        old(requested_target).wf(),
        old(last_part_id_requested).spec_count(peer_id, shard_id) < MAX_STATE_PART_REQUEST,
    ensures
        final(last_part_id_requested).wf(),
        final(requested_target).wf(),
        final(last_part_id_requested).spec_count(peer_id, shard_id) == old(last_part_id_requested).spec_count(peer_id, shard_id) + 1,
        forall|p: PeerId, s: ShardId|
            !(p == peer_id && s == shard_id) ==> final(last_part_id_requested).spec_get(p, s)
                == old(last_part_id_requested).spec_get(p, s),
        final(requested_target).spec_map().contains_pair((part_id, sync_hash), peer_id),
{
    requested_target.put(part_id, sync_hash, peer_id);
    last_part_id_requested.note_request(peer_id, shard_id, now, timeout);
}

/// The part index an action asks for, where the action is a part
/// request or an external fetch for the given shard and sync target.
pub open spec fn spec_action_part(a: Action, shard_id: ShardId, sync_hash: CryptoHash) -> Option<
    u64,
> {
    match a {
        Action::StateRequestPart { shard_id: s, sync_hash: h, part_id, .. } => {
            if s == shard_id && h == sync_hash {
                Some(part_id)
            } else {
                None
            }
        },
        Action::FetchExternalPart { shard_id: s, sync_hash: h, part_id, .. } => {
            if s == shard_id && h == sync_hash {
                Some(part_id)
            } else {
                None
            }
        },
        _ => None,
    }
}

/// Whether an emitted action agrees with the record of the part it
/// issues: a peer request names the recorded target, an external fetch
/// leaves no target.
pub open spec fn spec_action_matches_record(a: Action, d1: DownloadStatus) -> bool {
    match a {
        Action::StateRequestPart { peer_id, .. } => d1.last_target == Some(peer_id),
        Action::FetchExternalPart { .. } => d1.last_target is None,
        _ => false,
    }
}

/// How many of the first `hi` records are armed for dispatch.
pub open spec fn spec_count_armed(d: Seq<DownloadStatus>, hi: int) -> int
    decreases hi,
{
    if hi <= 0 {
        0
    } else {
        spec_count_armed(d, hi - 1) + if 0 <= hi - 1 < d.len() && d[hi - 1].run_me {
            1int
        } else {
            0int
        }
    }
}

/// One tick's dispatch over the parts of one shard, up to the boundary
/// `b`: below it every armed part was processed (issued, or re-armed for
/// want of a permit) and everything at or above the boundary is
/// untouched; each emitted action issues exactly one armed part below
/// the boundary, in increasing part order, agreeing with that part's
/// record; and every issued part has its one action.
pub open spec fn spec_parts_dispatch_to(
    b: int,
    d0: Seq<DownloadStatus>,
    d1: Seq<DownloadStatus>,
    new_actions: Seq<Action>,
    shard_id: ShardId,
    sync_hash: CryptoHash,
) -> bool {
    &&& 0 <= b <= d0.len()
    &&& d1.len() == d0.len()
    &&& forall|j: int| b <= j < d0.len() ==> d1[j] == d0[j]
    &&& forall|j: int| 0 <= j < b && !d0[j].run_me ==> d1[j] == d0[j]
    &&& forall|j: int|
        0 <= j < b && d0[j].run_me ==> (spec_assigned_download(
            d0[j],
            #[trigger] d1[j],
            d1[j].last_target,
        ) || spec_rearmed_download(d0[j], d1[j]))
    &&& forall|t: int|
        0 <= t < new_actions.len() ==> match spec_action_part(
            #[trigger] new_actions[t],
            shard_id,
            sync_hash,
        ) {
            Some(pid) => pid < b && d0[pid as int].run_me && !d1[pid as int].run_me
                && spec_action_matches_record(new_actions[t], d1[pid as int]),
            None => false,
        }
    &&& forall|t: int, u: int|
        0 <= t < u < new_actions.len() ==> spec_action_part(
            #[trigger] new_actions[t],
            shard_id,
            sync_hash,
        ).unwrap() < spec_action_part(#[trigger] new_actions[u], shard_id, sync_hash).unwrap()
    &&& forall|j: int|
        0 <= j < b && d0[j].run_me && !(#[trigger] d1[j]).run_me ==> exists|t: int|
            0 <= t < new_actions.len() && spec_action_part(
                #[trigger] new_actions[t],
                shard_id,
                sync_hash,
            ) == Some(j as u64)
}

/// Assign each still-needed part of one shard a peer drawn from the
/// bounded sampler, note every assignment in the ledger and the target
/// record, and emit one part request per assignment. The boundary of
/// the sweep is the whole list unless the sampler ran out, which happens
/// exactly when `MAX_STATE_PART_REQUEST` parts per candidate were
/// assigned; a candidate must enter with no outstanding entry, so no
/// peer ever exceeds the cap.
fn request_parts_from_peers(
    ledger: &mut PendingLedger,
    targets: &mut RequestedTargets,
    timeout: TimeDelta,
    shard_id: ShardId,
    sync_hash: CryptoHash,
    possible_targets: Vec<PeerId>,
    downloads: &mut Vec<DownloadStatus>,
    now: Timestamp,
    actions: &mut Vec<Action>,
)
    requires
        old(ledger).wf(),
        old(targets).wf(),
        forall|i: int, j: int|
            0 <= i < j < possible_targets@.len() ==> possible_targets@[i] != possible_targets@[j],
        forall|i: int|
            0 <= i < possible_targets@.len() ==> old(ledger).spec_get(
                #[trigger] possible_targets@[i],
                shard_id,
            ) is None,
        forall|j: int| 0 <= j < old(downloads)@.len() ==> (#[trigger] old(downloads)@[j]).wf(),
    ensures
        final(ledger).wf(),
        final(targets).wf(),
        final(downloads)@.len() == old(downloads)@.len(),
        forall|j: int|
            0 <= j < old(downloads)@.len() ==> spec_dispatch_step(
                old(downloads)@[j],
                #[trigger] final(downloads)@[j],
            ),
        forall|j: int|
            0 <= j < old(downloads)@.len() ==> (#[trigger] final(downloads)@[j]).done == old(downloads)@[j].done,
        forall|p: PeerId, s: ShardId|
            !(s == shard_id && possible_targets@.contains(p)) ==> final(ledger).spec_get(p, s)
                == old(ledger).spec_get(p, s),
        final(actions)@.len() >= old(actions)@.len(),
        forall|t: int| 0 <= t < old(actions)@.len() ==> final(actions)@[t] == old(actions)@[t],
        exists|b: int|
            #![trigger spec_count_armed(old(downloads)@, b)]
            {
                &&& spec_parts_dispatch_to(
                    b,
                    old(downloads)@,
                    final(downloads)@,
                    final(actions)@.skip(old(actions)@.len() as int),
                    shard_id,
                    sync_hash,
                )
                &&& forall|j: int|
                    0 <= j < b && old(downloads)@[j].run_me ==> !(#[trigger] final(downloads)@[j]).run_me && final(downloads)@[j].last_target is Some
                        && possible_targets@.contains(final(downloads)@[j].last_target.unwrap())
                &&& (b == old(downloads)@.len() || spec_count_armed(old(downloads)@, b)
                    == MAX_STATE_PART_REQUEST * possible_targets@.len())
                &&& spec_count_armed(old(downloads)@, b) <= MAX_STATE_PART_REQUEST
                    * possible_targets@.len()
                &&& (b < old(downloads)@.len() ==> forall|c: PeerId|
                    possible_targets@.contains(c) ==> final(ledger).spec_count(c, shard_id)
                        == MAX_STATE_PART_REQUEST)
            },
{
    let ghost d0 = downloads@;
    let ghost base = actions@.len() as int;
    let ghost tseq = possible_targets@;
    let ghost k = MAX_STATE_PART_REQUEST;
    let mut sampler = SamplerLimited::new(possible_targets, MAX_STATE_PART_REQUEST);
    proof {
        lemma_sampler_counts(sampler, tseq, MAX_STATE_PART_REQUEST);
        assert forall|p: PeerId| tseq.contains(p) implies ledger.spec_count(p, shard_id)
            + sampler.count(p) == k by {
            let i = choose|i: int| 0 <= i < tseq.len() && tseq[i] == p;
        }
        assert forall|p: PeerId| sampler.count(p) >= 0 by {
            if tseq.contains(p) {
                let i = choose|i: int| 0 <= i < tseq.len() && tseq[i] == p;
            }
        }
        assert(spec_count_armed(d0, 0) == 0);
    }
    let n = downloads.len();
    let mut i: usize = 0;
    let mut exhausted = false;
    while i < n && !exhausted
        invariant
            i <= n,
            n == downloads@.len(),
            n == d0.len(),
            d0 == old(downloads)@,
            base == old(actions)@.len(),
            actions@.len() >= base,
            forall|t: int| 0 <= t < base ==> actions@[t] == old(actions)@[t],
            k == MAX_STATE_PART_REQUEST,
            forall|a: int, b: int| 0 <= a < b < tseq.len() ==> tseq[a] != tseq[b],
            forall|j: int| 0 <= j < n ==> (#[trigger] d0[j]).wf(),
            ledger.wf(),
            targets.wf(),
            sampler.wf(),
            forall|p: PeerId|
                tseq.contains(p) ==> ledger.spec_count(p, shard_id) + sampler.count(p) == k,
            forall|p: PeerId| !tseq.contains(p) ==> sampler.count(p) == 0,
            forall|p: PeerId| sampler.count(p) >= 0,
            sampler.remaining() >= 0,
            sampler.remaining() == k * tseq.len() - spec_count_armed(d0, i as int),
            exhausted ==> sampler.remaining() == 0,
            exhausted ==> forall|p: PeerId| sampler.count(p) == 0,
            forall|p: PeerId, s: ShardId|
                !(s == shard_id && tseq.contains(p)) ==> ledger.spec_get(p, s) == old(ledger).spec_get(p, s),
            forall|j: int| i <= j < n ==> downloads@[j] == d0[j],
            forall|j: int| 0 <= j < i && !d0[j].run_me ==> downloads@[j] == d0[j],
            forall|j: int|
                0 <= j < i && d0[j].run_me ==> spec_assigned_download(
                    d0[j],
                    #[trigger] downloads@[j],
                    downloads@[j].last_target,
                ) && !downloads@[j].run_me && downloads@[j].last_target is Some && tseq.contains(
                    downloads@[j].last_target.unwrap(),
                ),
            forall|j: int| 0 <= j < n ==> (#[trigger] downloads@[j]).done == d0[j].done,
            forall|t: int|
                base <= t < actions@.len() ==> match spec_action_part(
                    #[trigger] actions@[t],
                    shard_id,
                    sync_hash,
                ) {
                    Some(pid) => pid < i && d0[pid as int].run_me && !downloads@[pid as int].run_me
                        && spec_action_matches_record(actions@[t], downloads@[pid as int]),
                    None => false,
                },
            forall|t: int, u: int|
                base <= t < u < actions@.len() ==> spec_action_part(
                    #[trigger] actions@[t],
                    shard_id,
                    sync_hash,
                ).unwrap() < spec_action_part(#[trigger] actions@[u], shard_id, sync_hash).unwrap(),
            forall|j: int|
                0 <= j < i && d0[j].run_me ==> exists|t: int|
                    base <= t < actions@.len() && spec_action_part(
                        #[trigger] actions@[t],
                        shard_id,
                        sync_hash,
                    ) == Some(j as u64),
            actions@.len() - base == spec_count_armed(d0, i as int),
        decreases n - i + (if exhausted {
            0int
        } else {
            1int
        }),
    {
        if downloads[i].run_me {
            match sampler.next() {
                None => {
                    exhausted = true;
                },
                Some(target) => {
                    proof {
                        if !tseq.contains(target) {
                            assert(sampler.count(target) == 0);
                        }
                        assert(tseq.contains(target));
                        assert(ledger.spec_count(target, shard_id) + (sampler.count(target) + 1)
                            == k);
                        assert(ledger.spec_count(target, shard_id) < k);
                    }
                    sent_request_part(
                        target,
                        i as u64,
                        shard_id,
                        sync_hash,
                        ledger,
                        targets,
                        timeout,
                        now,
                    );
                    let mut d = downloads[i];
                    let ghost dpre = d;
                    d.run_me = false;
                    d.state_requests_count = if d.state_requests_count == u64::MAX {
                        u64::MAX
                    } else {
                        d.state_requests_count + 1
                    };
                    d.last_target = Some(target);
                    downloads[i] = d;
                    let ghost pre_actions = actions@;
                    actions.push(
                        Action::StateRequestPart {
                            shard_id,
                            sync_hash,
                            part_id: i as u64,
                            peer_id: target,
                        },
                    );
                    proof {
                        assert(dpre == d0[i as int]);
                        assert(spec_assigned_download(d0[i as int], d, Some(target)));
                        assert(spec_count_armed(d0, (i + 1) as int) == spec_count_armed(
                            d0,
                            i as int,
                        ) + 1);
                        let na = actions@[actions@.len() - 1];
                        assert(spec_action_part(na, shard_id, sync_hash) == Some(i as u64));
                        assert(spec_action_matches_record(na, d));
                        assert forall|j: int|
                            0 <= j < i + 1 && d0[j].run_me implies exists|t: int|
                            base <= t < actions@.len() && spec_action_part(
                                #[trigger] actions@[t],
                                shard_id,
                                sync_hash,
                            ) == Some(j as u64) by {
                            if j < i {
                                let t0 = choose|t0: int|
                                    base <= t0 < pre_actions.len() && spec_action_part(
                                        pre_actions[t0],
                                        shard_id,
                                        sync_hash,
                                    ) == Some(j as u64);
                                assert(actions@[t0] == pre_actions[t0]);
                            } else {
                                assert(spec_action_part(
                                    actions@[actions@.len() - 1],
                                    shard_id,
                                    sync_hash,
                                ) == Some(j as u64));
                            }
                        }
                    }
                    i = i + 1;
                },
            }
        } else {
            proof {
                assert(spec_count_armed(d0, (i + 1) as int) == spec_count_armed(d0, i as int));
            }
            i = i + 1;
        }
    }
    proof {
        let b = i as int;
        let d1 = downloads@;
        let new = actions@.skip(base);
        assert forall|t: int| 0 <= t < new.len() implies new[t] == actions@[base + t] by {}
        assert(spec_parts_dispatch_to(b, d0, d1, new, shard_id, sync_hash)) by {
            assert forall|t: int|
                0 <= t < new.len() implies match spec_action_part(
                #[trigger] new[t],
                shard_id,
                sync_hash,
            ) {
                Some(pid) => pid < b && d0[pid as int].run_me && !d1[pid as int].run_me
                    && spec_action_matches_record(new[t], d1[pid as int]),
                None => false,
            } by {
                assert(new[t] == actions@[base + t]);
            }
            assert forall|t: int, u: int|
                0 <= t < u < new.len() implies spec_action_part(
                #[trigger] new[t],
                shard_id,
                sync_hash,
            ).unwrap() < spec_action_part(#[trigger] new[u], shard_id, sync_hash).unwrap() by {
                assert(new[t] == actions@[base + t]);
                assert(new[u] == actions@[base + u]);
            }
            assert forall|j: int|
                0 <= j < b && d0[j].run_me && !(#[trigger] d1[j]).run_me implies exists|t: int|
                0 <= t < new.len() && spec_action_part(#[trigger] new[t], shard_id, sync_hash)
                    == Some(j as u64) by {
                let t0 = choose|t0: int|
                    base <= t0 < actions@.len() && spec_action_part(
                        actions@[t0],
                        shard_id,
                        sync_hash,
                    ) == Some(j as u64);
                assert(new[t0 - base] == actions@[t0]);
            }
        }
        if b < n as int {
            assert(sampler.remaining() == 0);
            assert(spec_count_armed(d0, b) == k * tseq.len());
            assert forall|c: PeerId| tseq.contains(c) implies ledger.spec_count(c, shard_id)
                == MAX_STATE_PART_REQUEST by {
                assert(sampler.count(c) == 0);
            }
        }
        assert(spec_count_armed(d0, b) <= k * tseq.len());
    }
}

/// For each still-needed part of one shard, try to take one permit from
/// the download semaphore: with a permit the part is marked issued and a
/// background fetch is emitted carrying the permit; without one the
/// attempt is counted but the part stays to be issued. The sweep stops
/// as soon as no permit is left.
fn request_parts_from_external(
    semaphore: &Arc<tokio::sync::Semaphore>,
    shard_id: ShardId,
    sync_hash: CryptoHash,
    epoch_id: EpochId,
    epoch_height: EpochHeight,
    num_parts: u64,
    state_root: StateRoot,
    downloads: &mut Vec<DownloadStatus>,
    actions: &mut Vec<Action>,
)
    requires
        forall|j: int| 0 <= j < old(downloads)@.len() ==> (#[trigger] old(downloads)@[j]).wf(),
    ensures
        final(downloads)@.len() == old(downloads)@.len(),
        forall|j: int|
            0 <= j < old(downloads)@.len() ==> spec_dispatch_step(
                old(downloads)@[j],
                #[trigger] final(downloads)@[j],
            ),
        forall|j: int|
            0 <= j < old(downloads)@.len() ==> (#[trigger] final(downloads)@[j]).done == old(downloads)@[j].done,
        final(actions)@.len() >= old(actions)@.len(),
        forall|t: int| 0 <= t < old(actions)@.len() ==> final(actions)@[t] == old(actions)@[t],
        forall|t: int|
            old(actions)@.len() <= t < final(actions)@.len() ==> (#[trigger] final(actions)@[t]
                matches Action::FetchExternalPart {
                epoch_id: e,
                epoch_height: eh,
                num_parts: np,
                state_root: sr,
                ..
            } && e == epoch_id && eh == epoch_height && np == num_parts && sr == state_root),
        exists|b: int|
            #![trigger spec_parts_dispatch_to(b, old(downloads)@, final(downloads)@, final(actions)@.skip(old(actions)@.len() as int), shard_id, sync_hash)]
            {
                &&& spec_parts_dispatch_to(
                    b,
                    old(downloads)@,
                    final(downloads)@,
                    final(actions)@.skip(old(actions)@.len() as int),
                    shard_id,
                    sync_hash,
                )
                &&& (b < old(downloads)@.len() ==> b > 0 && old(downloads)@[b - 1].run_me && !final(downloads)@[b - 1].run_me)
            },
{
    let ghost d0 = downloads@;
    let ghost base = actions@.len() as int;
    let n = downloads.len();
    let mut i: usize = 0;
    let mut stop = false;
    while i < n && !stop
        invariant
            i <= n,
            n == downloads@.len(),
            n == d0.len(),
            d0 == old(downloads)@,
            base == old(actions)@.len(),
            actions@.len() >= base,
            forall|t: int| 0 <= t < base ==> actions@[t] == old(actions)@[t],
            forall|j: int| 0 <= j < n ==> (#[trigger] d0[j]).wf(),
            forall|j: int| i <= j < n ==> downloads@[j] == d0[j],
            forall|j: int| 0 <= j < i && !d0[j].run_me ==> downloads@[j] == d0[j],
            forall|j: int|
                0 <= j < i && d0[j].run_me ==> (spec_assigned_download(
                    d0[j],
                    #[trigger] downloads@[j],
                    downloads@[j].last_target,
                ) && downloads@[j].last_target is None && !downloads@[j].run_me)
                    || spec_rearmed_download(d0[j], downloads@[j]),
            forall|j: int| 0 <= j < n ==> (#[trigger] downloads@[j]).done == d0[j].done,
            forall|t: int|
                base <= t < actions@.len() ==> match spec_action_part(
                    #[trigger] actions@[t],
                    shard_id,
                    sync_hash,
                ) {
                    Some(pid) => pid < i && d0[pid as int].run_me && !downloads@[pid as int].run_me
                        && spec_action_matches_record(actions@[t], downloads@[pid as int]),
                    None => false,
                },
            forall|t: int, u: int|
                base <= t < u < actions@.len() ==> spec_action_part(
                    #[trigger] actions@[t],
                    shard_id,
                    sync_hash,
                ).unwrap() < spec_action_part(#[trigger] actions@[u], shard_id, sync_hash).unwrap(),
            forall|j: int|
                0 <= j < i && d0[j].run_me && !(#[trigger] downloads@[j]).run_me ==> exists|t: int|
                    base <= t < actions@.len() && spec_action_part(
                        #[trigger] actions@[t],
                        shard_id,
                        sync_hash,
                    ) == Some(j as u64),
            forall|t: int|
                base <= t < actions@.len() ==> (#[trigger] actions@[t]
                    matches Action::FetchExternalPart {
                    epoch_id: e,
                    epoch_height: eh,
                    num_parts: np,
                    state_root: sr,
                    ..
                } && e == epoch_id && eh == epoch_height && np == num_parts && sr == state_root),
            stop ==> i > 0 && d0[i - 1].run_me && !downloads@[i - 1].run_me,
        decreases n - i,
    {
        if downloads[i].run_me {
            let mut d = downloads[i];
            let ghost dpre = d;
            d.run_me = false;
            d.state_requests_count = if d.state_requests_count == u64::MAX {
                u64::MAX
            } else {
                d.state_requests_count + 1
            };
            d.last_target = None;
            match semaphore_try_acquire(semaphore) {
                Ok(permit) => {
                    downloads[i] = d;
                    let ghost pre_actions = actions@;
                    actions.push(
                        Action::FetchExternalPart {
                            shard_id,
                            sync_hash,
                            epoch_id,
                            epoch_height,
                            part_id: i as u64,
                            num_parts,
                            state_root,
                            permit,
                        },
                    );
                    proof {
                        assert(dpre == d0[i as int]);
                        assert(spec_assigned_download(d0[i as int], d, None::<PeerId>));
                        let na = actions@[actions@.len() - 1];
                        assert(spec_action_part(na, shard_id, sync_hash) == Some(i as u64));
                        assert(spec_action_matches_record(na, d));
                        assert forall|j: int|
                            0 <= j < i + 1 && d0[j].run_me && !(
                        #[trigger] downloads@[j]).run_me implies exists|t: int|
                            base <= t < actions@.len() && spec_action_part(
                                #[trigger] actions@[t],
                                shard_id,
                                sync_hash,
                            ) == Some(j as u64) by {
                            if j < i {
                                let t0 = choose|t0: int|
                                    base <= t0 < pre_actions.len() && spec_action_part(
                                        pre_actions[t0],
                                        shard_id,
                                        sync_hash,
                                    ) == Some(j as u64);
                                assert(actions@[t0] == pre_actions[t0]);
                            } else {
                                assert(spec_action_part(
                                    actions@[actions@.len() - 1],
                                    shard_id,
                                    sync_hash,
                                ) == Some(j as u64));
                            }
                        }
                    }
                    if semaphore_available_permits(semaphore) == 0 {
                        stop = true;
                    }
                },
                Err(_) => {
                    d.run_me = true;
                    downloads[i] = d;
                    proof {
                        assert(dpre == d0[i as int]);
                        assert(spec_rearmed_download(d0[i as int], d));
                    }
                },
            }
        }
        i = i + 1;
    }
    proof {
        let b = i as int;
        let d1 = downloads@;
        let new = actions@.skip(base);
        assert(spec_parts_dispatch_to(b, d0, d1, new, shard_id, sync_hash)) by {
            assert forall|t: int|
                0 <= t < new.len() implies match spec_action_part(
                #[trigger] new[t],
                shard_id,
                sync_hash,
            ) {
                Some(pid) => pid < b && d0[pid as int].run_me && !d1[pid as int].run_me
                    && spec_action_matches_record(new[t], d1[pid as int]),
                None => false,
            } by {
                assert(new[t] == actions@[base + t]);
            }
            assert forall|t: int, u: int|
                0 <= t < u < new.len() implies spec_action_part(
                #[trigger] new[t],
                shard_id,
                sync_hash,
            ).unwrap() < spec_action_part(#[trigger] new[u], shard_id, sync_hash).unwrap() by {
                assert(new[t] == actions@[base + t]);
                assert(new[u] == actions@[base + u]);
            }
            assert forall|j: int|
                0 <= j < b && d0[j].run_me && !(#[trigger] d1[j]).run_me implies exists|t: int|
                0 <= t < new.len() && spec_action_part(#[trigger] new[t], shard_id, sync_hash)
                    == Some(j as u64) by {
                let t0 = choose|t0: int|
                    base <= t0 < actions@.len() && spec_action_part(
                        actions@[t0],
                        shard_id,
                        sync_hash,
                    ) == Some(j as u64);
                assert(new[t0 - base] == actions@[t0]);
            }
            assert forall|j: int|
                0 <= j < b && d0[j].run_me implies (spec_assigned_download(
                d0[j],
                #[trigger] d1[j],
                d1[j].last_target,
            ) || spec_rearmed_download(d0[j], d1[j])) by {}
        }
        if b < n as int {
            assert(stop);
            assert(b > 0 && d0[b - 1].run_me && !d1[b - 1].run_me);
        }
        let wb = spec_count_armed(d0, b);
        assert(spec_parts_dispatch_to(b, d0, d1, new, shard_id, sync_hash) && (b < d0.len() ==> b
            > 0 && d0[b - 1].run_me && !d1[b - 1].run_me));
    }
}

/// Whether `peer` may be asked for parts of `shard_id` at `now`: in
/// peers mode it must have no unexpired outstanding entry; in external
/// mode every peer qualifies.
pub open spec fn spec_peer_eligible(s: StateSync, peer: PeerId, shard_id: ShardId, now: Timestamp) -> bool {
    !s.is_peers_mode() || match s.spec_pending_get(peer, shard_id) {
        None => true,
        Some(e) => now > e.wait_until,
    }
}

/// A ledger entry after the expiry sweep of one tick.
pub open spec fn spec_swept_entry(
    e: Option<crate::pending::PendingRequestStatus>,
    now: Timestamp,
) -> Option<crate::pending::PendingRequestStatus> {
    match e {
        Some(x) => if now > x.wait_until {
            None
        } else {
            Some(x)
        },
        None => None,
    }
}

/// One parts-dispatch sweep over a candidate pool: the pool is exactly
/// the eligible peers, and the sweep satisfies the boundary relation; in
/// peers mode nothing is re-armed, the boundary is the whole list unless
/// exactly the per-peer cap went to every candidate, and then every
/// candidate carries exactly the cap.
pub open spec fn spec_parts_pool_dispatch(
    cands: Seq<PeerId>,
    b: int,
    peers: Seq<PeerId>,
    s0: StateSync,
    s1: StateSync,
    d0: Seq<DownloadStatus>,
    d1: Seq<DownloadStatus>,
    new_actions: Seq<Action>,
    shard_id: ShardId,
    sync_hash: CryptoHash,
    now: Timestamp,
) -> bool {
    &&& forall|a: int, c: int| 0 <= a < c < cands.len() ==> cands[a] != cands[c]
    &&& forall|a: int|
        0 <= a < cands.len() ==> peers.contains(#[trigger] cands[a]) && spec_peer_eligible(
            s0,
            cands[a],
            shard_id,
            now,
        )
    &&& forall|p: PeerId|
        peers.contains(p) && spec_peer_eligible(s0, p, shard_id, now) ==> cands.contains(p)
    &&& spec_parts_dispatch_to(b, d0, d1, new_actions, shard_id, sync_hash)
    &&& s0.is_peers_mode() ==> {
        &&& forall|j: int|
            0 <= j < b && d0[j].run_me ==> !(#[trigger] d1[j]).run_me
        &&& (b == d0.len() || spec_count_armed(d0, b) == MAX_STATE_PART_REQUEST * cands.len())
        &&& spec_count_armed(d0, b) <= MAX_STATE_PART_REQUEST * cands.len()
        &&& (b < d0.len() ==> forall|c: PeerId|
            cands.contains(c) ==> s1.spec_pending_count(c, shard_id) == MAX_STATE_PART_REQUEST)
    }
}

impl StateSync {
    /// Issue the requests one shard needs this tick: a header request in
    /// the header phase, part requests in the parts phase, nothing
    /// otherwise. With an eligible target the header request is always
    /// issued; with none, nothing is issued or changed.
    pub fn request_shard(
        &mut self,
        shard_id: ShardId,
        chain: &ChainStore,
        epoch_manager: &EpochManagerView,
        sync_hash: CryptoHash,
        shard_sync_download: &mut ShardSyncDownload,
        highest_height_peers: &Vec<PeerId>,
        now: Timestamp,
        actions: &mut Vec<Action>,
    ) -> (r: Result<(), SyncError>)
        requires
            old(self).wf(),
            old(shard_sync_download)@.wf(),
            forall|i: int, j: int|
                0 <= i < j < highest_height_peers@.len() ==> highest_height_peers@[i]
                    != highest_height_peers@[j],
            old(shard_sync_download).status is StateDownloadHeader ==> old(shard_sync_download).downloads@[0].run_me,
        ensures
            final(self).wf(),
            final(shard_sync_download)@.wf(),
            final(shard_sync_download).status == old(shard_sync_download).status,
            final(shard_sync_download).downloads@.len() == old(shard_sync_download).downloads@.len(),
            forall|j: int|
                0 <= j < old(shard_sync_download).downloads@.len() ==> (#[trigger] final(shard_sync_download).downloads@[j]).done == old(shard_sync_download).downloads@[j].done,
            final(self).is_peers_mode() == old(self).is_peers_mode(),
            final(self).spec_timeout() == old(self).spec_timeout(),
            final(self).spec_last_block_request() == old(self).spec_last_block_request(),
            final(self).spec_apply_results() == old(self).spec_apply_results(),
            final(self).spec_split_results() == old(self).spec_split_results(),
            final(self).spec_targets() == old(self).spec_targets() || final(self).is_peers_mode(),
            final(actions)@.len() >= old(actions)@.len(),
            forall|t: int| 0 <= t < old(actions)@.len() ==> final(actions)@[t] == old(actions)@[t],
            final(self).is_peers_mode() ==> forall|p: PeerId, s: ShardId|
                s != shard_id ==> final(self).spec_pending_get(p, s) == spec_swept_entry(
                    old(self).spec_pending_get(p, s),
                    now,
                ),
            // With no eligible target nothing is issued or changed.
            (forall|p: PeerId|
                highest_height_peers@.contains(p) ==> !spec_peer_eligible(
                    *old(self),
                    p,
                    shard_id,
                    now,
                )) ==> {
                &&& r is Ok
                &&& *final(shard_sync_download) == *old(shard_sync_download)
                &&& final(actions)@ == old(actions)@
            },
            // Outside the two download phases nothing is issued or changed.
            !(old(shard_sync_download).status is StateDownloadHeader) && !(old(shard_sync_download).status is StateDownloadParts) ==> {
                &&& r is Ok
                &&& *final(shard_sync_download) == *old(shard_sync_download)
                &&& final(actions)@ == old(actions)@
            },
            // Header phase with an eligible target: exactly one header
            // request goes out, to an eligible peer, and the record is
            // marked issued.
            (old(shard_sync_download).status is StateDownloadHeader && exists|p: PeerId|
                highest_height_peers@.contains(p) && spec_peer_eligible(
                    *old(self),
                    p,
                    shard_id,
                    now,
                )) ==> {
                let d0 = old(shard_sync_download).downloads@[0];
                let d1 = final(shard_sync_download).downloads@[0];
                &&& r is Ok
                &&& d1.last_target is Some
                &&& highest_height_peers@.contains(d1.last_target.unwrap())
                &&& spec_peer_eligible(*old(self), d1.last_target.unwrap(), shard_id, now)
                &&& spec_assigned_download(d0, d1, d1.last_target)
                &&& final(actions)@ == old(actions)@.push(Action::StateRequestHeader {
                    shard_id,
                    sync_hash,
                    peer_id: d1.last_target.unwrap(),
                })
            },
            // Parts phase with an eligible target: the dispatch sweep ran
            // over the candidate pool, which is exactly the eligible
            // peers.
            (old(shard_sync_download).status is StateDownloadParts && r is Ok && exists|p: PeerId|
                highest_height_peers@.contains(p) && spec_peer_eligible(
                    *old(self),
                    p,
                    shard_id,
                    now,
                )) ==> exists|cands: Seq<PeerId>, b: int|
                #[trigger] spec_parts_pool_dispatch(
                    cands,
                    b,
                    highest_height_peers@,
                    *old(self),
                    *final(self),
                    old(shard_sync_download).downloads@,
                    final(shard_sync_download).downloads@,
                    final(actions)@.skip(old(actions)@.len() as int),
                    shard_id,
                    sync_hash,
                    now,
                ),
            // In peers mode a dispatch never fails; in external mode it
            // fails exactly where a needed lookup is missing.
            old(self).is_peers_mode() ==> r is Ok,
            !(old(self).is_peers_mode()) && old(shard_sync_download).status is StateDownloadParts
                && (exists|p: PeerId| highest_height_peers@.contains(p)) ==> spec_external_dispatch_result(
                r,
                *chain,
                *epoch_manager,
                shard_id,
                sync_hash,
            ) && (r is Err ==> *final(shard_sync_download) == *old(shard_sync_download) && final(actions)@ == old(actions)@),
            !(old(self).is_peers_mode()) && old(shard_sync_download).status is StateDownloadParts
                && r is Ok ==> forall|t: int|
                old(actions)@.len() <= t < final(actions)@.len() ==> (#[trigger] final(actions)@[t]
                    matches Action::FetchExternalPart {
                    epoch_id: e,
                    epoch_height: eh,
                    num_parts: np,
                    state_root: sr,
                    ..
                } && e == chain.spec_header(sync_hash).unwrap().epoch_id && eh
                    == epoch_manager.spec_epoch(
                    chain.spec_header(sync_hash).unwrap().epoch_id,
                ).unwrap().epoch_height && np == chain.spec_state_header(
                    shard_id,
                    sync_hash,
                ).unwrap().num_parts && sr == chain.spec_state_header(
                    shard_id,
                    sync_hash,
                ).unwrap().state_root),
    {
        let possible_targets = self.select_peers(highest_height_peers, shard_id, now);
        proof {
            if self.is_peers_mode() {
                assert forall|p: PeerId|
                    highest_height_peers@.contains(p) implies (self.spec_pending_get(
                    p,
                    shard_id,
                ) is None <==> spec_peer_eligible(*old(self), p, shard_id, now)) by {}
            }
            if possible_targets.len() == 0 {
                assert forall|p: PeerId|
                    highest_height_peers@.contains(p) implies !spec_peer_eligible(
                    *old(self),
                    p,
                    shard_id,
                    now,
                ) by {
                    if spec_peer_eligible(*old(self), p, shard_id, now) {
                        assert(possible_targets@.contains(p));
                    }
                }
            } else {
                assert(highest_height_peers@.contains(possible_targets@[0]));
                assert(spec_peer_eligible(*old(self), possible_targets@[0], shard_id, now));
            }
        }
        if possible_targets.is_empty() {
            return Ok(());
        }
        match shard_sync_download.status {
            ShardSyncStatus::StateDownloadHeader => {
                self.request_shard_header(
                    shard_id,
                    sync_hash,
                    &possible_targets,
                    shard_sync_download,
                    actions,
                );
                Ok(())
            },
            ShardSyncStatus::StateDownloadParts => {
                let ghost cands = possible_targets@;
                let r = self.request_shard_parts(
                    shard_id,
                    chain,
                    epoch_manager,
                    sync_hash,
                    possible_targets,
                    shard_sync_download,
                    now,
                    actions,
                );
                proof {
                    let d0 = old(shard_sync_download).downloads@;
                    let d1 = shard_sync_download.downloads@;
                    let new_acts = actions@.skip(old(actions)@.len() as int);
                    assert forall|a: int|
                        0 <= a < cands.len() implies highest_height_peers@.contains(
                        #[trigger] cands[a],
                    ) && spec_peer_eligible(*old(self), cands[a], shard_id, now) by {}
                    assert forall|p: PeerId|
                        highest_height_peers@.contains(p) && spec_peer_eligible(
                            *old(self),
                            p,
                            shard_id,
                            now,
                        ) implies cands.contains(p) by {}
                    if old(self).is_peers_mode() {
                        let b0 = choose|b: int|
                            #![trigger spec_count_armed(d0, b)]
                            {
                                &&& spec_parts_dispatch_to(
                                    b,
                                    d0,
                                    d1,
                                    new_acts,
                                    shard_id,
                                    sync_hash,
                                )
                                &&& forall|j: int|
                                    0 <= j < b && d0[j].run_me ==> !(#[trigger] d1[j]).run_me
                                        && d1[j].last_target is Some && cands.contains(
                                        d1[j].last_target.unwrap(),
                                    )
                                &&& (b == d0.len() || spec_count_armed(d0, b)
                                    == MAX_STATE_PART_REQUEST * cands.len())
                                &&& spec_count_armed(d0, b) <= MAX_STATE_PART_REQUEST
                                    * cands.len()
                                &&& (b < d0.len() ==> forall|c: PeerId|
                                    cands.contains(c) ==> self.spec_pending_count(c, shard_id)
                                        == MAX_STATE_PART_REQUEST)
                            };
                        assert(spec_parts_pool_dispatch(
                            cands,
                            b0,
                            highest_height_peers@,
                            *old(self),
                            *self,
                            d0,
                            d1,
                            new_acts,
                            shard_id,
                            sync_hash,
                            now,
                        ));
                    } else if r is Ok {
                        let b0 = choose|b: int|
                            #[trigger] spec_parts_dispatch_to(
                                b,
                                d0,
                                d1,
                                new_acts,
                                shard_id,
                                sync_hash,
                            );
                        assert(spec_parts_pool_dispatch(
                            cands,
                            b0,
                            highest_height_peers@,
                            *old(self),
                            *self,
                            d0,
                            d1,
                            new_acts,
                            shard_id,
                            sync_hash,
                            now,
                        ));
                    }
                }
                r
            },
            _ => Ok(()),
        }
    }

    /// Issue requests for the still-needed parts of one shard, from
    /// peers or from the external store depending on the mode. In peers
    /// mode the sweep is bounded by the sampler: it covers the whole
    /// list unless exactly `MAX_STATE_PART_REQUEST` parts per candidate
    /// went out. In external mode it fails exactly where a lookup the
    /// fetch needs is missing.
    pub fn request_shard_parts(
        &mut self,
        shard_id: ShardId,
        chain: &ChainStore,
        epoch_manager: &EpochManagerView,
        sync_hash: CryptoHash,
        possible_targets: Vec<PeerId>,
        new_shard_sync_download: &mut ShardSyncDownload,
        now: Timestamp,
        actions: &mut Vec<Action>,
    ) -> (r: Result<(), SyncError>)
        requires
            old(self).wf(),
            old(new_shard_sync_download)@.wf(),
            old(new_shard_sync_download).status is StateDownloadParts,
            possible_targets@.len() > 0,
            forall|i: int, j: int|
                0 <= i < j < possible_targets@.len() ==> possible_targets@[i]
                    != possible_targets@[j],
            old(self).is_peers_mode() ==> forall|i: int|
                0 <= i < possible_targets@.len() ==> old(self).spec_pending_get(
                    #[trigger] possible_targets@[i],
                    shard_id,
                ) is None,
        ensures
            final(self).wf(),
            final(new_shard_sync_download)@.wf(),
            final(new_shard_sync_download).status == old(new_shard_sync_download).status,
            final(new_shard_sync_download).downloads@.len() == old(new_shard_sync_download).downloads@.len(),
            forall|j: int|
                0 <= j < old(new_shard_sync_download).downloads@.len() ==> spec_dispatch_step(
                    old(new_shard_sync_download).downloads@[j],
                    #[trigger] final(new_shard_sync_download).downloads@[j],
                ),
            forall|j: int|
                0 <= j < old(new_shard_sync_download).downloads@.len() ==> (#[trigger] final(new_shard_sync_download).downloads@[j]).done == old(new_shard_sync_download).downloads@[j].done,
            final(self).is_peers_mode() == old(self).is_peers_mode(),
            final(self).spec_timeout() == old(self).spec_timeout(),
            final(self).spec_last_block_request() == old(self).spec_last_block_request(),
            final(self).spec_apply_results() == old(self).spec_apply_results(),
            final(self).spec_split_results() == old(self).spec_split_results(),
            final(actions)@.len() >= old(actions)@.len(),
            forall|t: int| 0 <= t < old(actions)@.len() ==> final(actions)@[t] == old(actions)@[t],
            final(self).is_peers_mode() ==> forall|p: PeerId, s: ShardId|
                !(s == shard_id && possible_targets@.contains(p)) ==> final(self).spec_pending_get(
                    p,
                    s,
                ) == old(self).spec_pending_get(p, s),
            old(self).is_peers_mode() ==> r is Ok,
            old(self).is_peers_mode() ==> exists|b: int|
                #![trigger spec_count_armed(old(new_shard_sync_download).downloads@, b)]
                {
                    &&& spec_parts_dispatch_to(
                        b,
                        old(new_shard_sync_download).downloads@,
                        final(new_shard_sync_download).downloads@,
                        final(actions)@.skip(old(actions)@.len() as int),
                        shard_id,
                        sync_hash,
                    )
                    &&& forall|j: int|
                        0 <= j < b && old(new_shard_sync_download).downloads@[j].run_me ==> !(
                        #[trigger] final(new_shard_sync_download).downloads@[j]).run_me && final(new_shard_sync_download).downloads@[j].last_target is Some
                            && possible_targets@.contains(
                            final(new_shard_sync_download).downloads@[j].last_target.unwrap(),
                        )
                    &&& (b == old(new_shard_sync_download).downloads@.len() || spec_count_armed(
                        old(new_shard_sync_download).downloads@,
                        b,
                    ) == MAX_STATE_PART_REQUEST * possible_targets@.len())
                    &&& spec_count_armed(old(new_shard_sync_download).downloads@, b)
                        <= MAX_STATE_PART_REQUEST * possible_targets@.len()
                    &&& (b < old(new_shard_sync_download).downloads@.len() ==> forall|c: PeerId|
                        possible_targets@.contains(c) ==> final(self).spec_pending_count(
                            c,
                            shard_id,
                        ) == MAX_STATE_PART_REQUEST)
                },
            !(old(self).is_peers_mode()) ==> spec_external_dispatch_result(
                r,
                *chain,
                *epoch_manager,
                shard_id,
                sync_hash,
            ),
            !(old(self).is_peers_mode()) && r is Err ==> *final(new_shard_sync_download) == *old(new_shard_sync_download) && final(actions)@ == old(actions)@ && forall|p: PeerId, s: ShardId|
                final(self).spec_pending_get(p, s) == old(self).spec_pending_get(p, s),
            !(old(self).is_peers_mode()) && r is Ok ==> {
                &&& exists|b: int|
                    #![trigger spec_parts_dispatch_to(b, old(new_shard_sync_download).downloads@, final(new_shard_sync_download).downloads@, final(actions)@.skip(old(actions)@.len() as int), shard_id, sync_hash)]
                    {
                        &&& spec_parts_dispatch_to(
                            b,
                            old(new_shard_sync_download).downloads@,
                            final(new_shard_sync_download).downloads@,
                            final(actions)@.skip(old(actions)@.len() as int),
                            shard_id,
                            sync_hash,
                        )
                        &&& (b < old(new_shard_sync_download).downloads@.len() ==> b > 0 && old(new_shard_sync_download).downloads@[b - 1].run_me && !final(new_shard_sync_download).downloads@[b - 1].run_me)
                    }
                &&& forall|t: int|
                    old(actions)@.len() <= t < final(actions)@.len() ==> (#[trigger] final(actions)@[t]
                        matches Action::FetchExternalPart {
                        epoch_id: e,
                        epoch_height: eh,
                        num_parts: np,
                        state_root: sr,
                        ..
                    } && e == chain.spec_header(sync_hash).unwrap().epoch_id && eh
                        == epoch_manager.spec_epoch(
                        chain.spec_header(sync_hash).unwrap().epoch_id,
                    ).unwrap().epoch_height && np == chain.spec_state_header(
                        shard_id,
                        sync_hash,
                    ).unwrap().num_parts && sr == chain.spec_state_header(
                        shard_id,
                        sync_hash,
                    ).unwrap().state_root)
            },
    {
        proof {
            assert forall|j: int|
                0 <= j < new_shard_sync_download.downloads@.len() implies (
            #[trigger] new_shard_sync_download.downloads@[j]).wf() by {
                assert(new_shard_sync_download@.downloads[j].wf());
            }
        }
        let timeout = self.timeout;
        match &mut self.inner {
            StateSyncInner::Peers { last_part_id_requested, requested_target } => {
                request_parts_from_peers(
                    last_part_id_requested,
                    requested_target,
                    timeout,
                    shard_id,
                    sync_hash,
                    possible_targets,
                    &mut new_shard_sync_download.downloads,
                    now,
                    actions,
                );
                proof {
                    assert forall|j: int|
                        0 <= j < new_shard_sync_download.downloads@.len() implies (
                    #[trigger] new_shard_sync_download.downloads@[j]).wf() by {
                        assert(spec_dispatch_step(
                            old(new_shard_sync_download).downloads@[j],
                            new_shard_sync_download.downloads@[j],
                        ));
                        assert(old(new_shard_sync_download)@.downloads[j].wf());
                    }
                }
                Ok(())
            },
            StateSyncInner::PartsFromExternal { semaphore, .. } => {
                let header = match chain.get_block_header(sync_hash) {
                    None => {
                        return Err(SyncError::MissingBlockHeader(sync_hash));
                    },
                    Some(h) => h,
                };
                let epoch_info = match epoch_manager.get_epoch_info(header.epoch_id) {
                    None => {
                        return Err(SyncError::MissingEpochHeight(header.epoch_id));
                    },
                    Some(e) => e,
                };
                let state_header = match chain.get_state_header(shard_id, sync_hash) {
                    None => {
                        return Err(SyncError::MissingStateHeader(shard_id));
                    },
                    Some(h) => h,
                };
                request_parts_from_external(
                    semaphore,
                    shard_id,
                    sync_hash,
                    header.epoch_id,
                    epoch_info.epoch_height,
                    state_header.num_parts,
                    state_header.state_root,
                    &mut new_shard_sync_download.downloads,
                    actions,
                );
                proof {
                    assert forall|j: int|
                        0 <= j < new_shard_sync_download.downloads@.len() implies (
                    #[trigger] new_shard_sync_download.downloads@[j]).wf() by {
                        assert(spec_dispatch_step(
                            old(new_shard_sync_download).downloads@[j],
                            new_shard_sync_download.downloads@[j],
                        ));
                        assert(old(new_shard_sync_download)@.downloads[j].wf());
                    }
                }
                Ok(())
            },
        }
    }
}

/// The outcome of an external-mode parts dispatch: it fails exactly
/// where a lookup the fetch location or validation needs is missing,
/// naming the missing piece, checked in this order.
pub open spec fn spec_external_dispatch_result(
    r: Result<(), SyncError>,
    chain: ChainStore,
    epoch_manager: EpochManagerView,
    shard_id: ShardId,
    sync_hash: CryptoHash,
) -> bool {
    match chain.spec_header(sync_hash) {
        None => r == Err::<(), SyncError>(SyncError::MissingBlockHeader(sync_hash)),
        Some(h) => match epoch_manager.spec_epoch(h.epoch_id) {
            None => r == Err::<(), SyncError>(SyncError::MissingEpochHeight(h.epoch_id)),
            Some(_) => match chain.spec_state_header(shard_id, sync_hash) {
                None => r == Err::<(), SyncError>(SyncError::MissingStateHeader(shard_id)),
                Some(_) => r is Ok,
            },
        },
    }
}


/// A header or part record after the retry decision of one tick: where
/// the attempt timed out or failed it is re-armed, with the failure flag
/// cleared and the update time refreshed.
pub open spec fn spec_header_retry(d: DownloadStatus, now: Timestamp, timeout: TimeDelta) -> DownloadStatus {
    if now > d.prev_update_time + timeout || d.error {
        DownloadStatus { run_me: true, error: false, prev_update_time: now, ..d }
    } else {
        d
    }
}

/// A part record after the retry decision of one tick. A failed part is
/// re-armed only when it has a recorded source or has also timed out: a
/// failed external fetch most often means the part does not exist yet,
/// which waiting fixes and an immediate retry does not.
pub open spec fn spec_part_retry(d: DownloadStatus, now: Timestamp, timeout: TimeDelta) -> DownloadStatus {
    let timed_out = now > d.prev_update_time + timeout;
    if !d.done && (timed_out || d.error) && (timed_out || d.last_target is Some) {
        DownloadStatus { run_me: true, error: false, prev_update_time: now, ..d }
    } else {
        d
    }
}

impl StateSync {
    /// The chain identity the external store is keyed by; `None` in
    /// peers mode.
    pub fn chain_id(&self) -> (r: Option<&String>)
        ensures
            r is Some <==> !self.is_peers_mode(),
            match r {
                Some(s) => self.spec_chain_id() == Some(s@),
                None => self.spec_chain_id() is None,
            },
    {
        match &self.inner {
            StateSyncInner::Peers { .. } => None,
            StateSyncInner::PartsFromExternal { chain_id, .. } => Some(chain_id),
        }
    }

    /// The outstanding-parts entry recorded for `(peer, shard)`, if
    /// any; always `None` in external mode.
    pub fn pending_request(&self, peer: PeerId, shard_id: ShardId) -> (r: Option<
        crate::pending::PendingRequestStatus,
    >)
        ensures
            r == self.spec_pending_get(peer, shard_id),
    {
        match &self.inner {
            StateSyncInner::Peers { last_part_id_requested, .. } => last_part_id_requested.get(
                peer,
                shard_id,
            ),
            StateSyncInner::PartsFromExternal { .. } => None,
        }
    }

    /// Credit the peer that a requested part arrived from: the recorded
    /// target's outstanding count drops by one, and its ledger entry
    /// leaves when it reaches zero. Without a recorded target nothing
    /// changes; in external mode there is nothing to credit.
    pub fn received_requested_part(&mut self, part_id: u64, shard_id: ShardId, sync_hash: CryptoHash)
        requires
            old(self).wf(),
        ensures
            final(self).wf(),
            final(self).is_peers_mode() == old(self).is_peers_mode(),
            final(self).spec_timeout() == old(self).spec_timeout(),
            final(self).spec_last_block_request() == old(self).spec_last_block_request(),
            final(self).spec_targets() == old(self).spec_targets(),
            final(self).spec_apply_results() == old(self).spec_apply_results(),
            final(self).spec_split_results() == old(self).spec_split_results(),
            ({
                let key = (part_id, sync_hash);
                if old(self).is_peers_mode() && old(self).spec_targets().contains_key(key) {
                    let t = old(self).spec_targets()[key];
                    &&& forall|p: PeerId, s: ShardId|
                        !(p == t && s == shard_id) ==> final(self).spec_pending_get(p, s) == old(self).spec_pending_get(p, s)
                    &&& final(self).spec_pending_count(t, shard_id) == if old(self).spec_pending_count(t, shard_id) > 0 {
                        old(self).spec_pending_count(t, shard_id) - 1
                    } else {
                        0
                    }
                    &&& old(self).spec_pending_count(t, shard_id) <= 1 ==> final(self).spec_pending_get(t, shard_id) is None
                } else {
                    forall|p: PeerId, s: ShardId|
                        final(self).spec_pending_get(p, s) == old(self).spec_pending_get(p, s)
                }
            }),
    {
        match &mut self.inner {
            StateSyncInner::Peers { last_part_id_requested, requested_target } => {
                match requested_target.get(part_id, sync_hash) {
                    Some(target) => {
                        last_part_id_requested.on_part_received(target, shard_id);
                    },
                    None => {},
                }
            },
            StateSyncInner::PartsFromExternal { .. } => {},
        }
    }

    /// Decide how the header phase of one shard advances: with the
    /// header persisted the shard moves to the parts phase with one
    /// fresh record per part; otherwise the header request is re-armed
    /// where it timed out or failed. Returns whether the request timed
    /// out and whether a request must be issued.
    pub fn sync_shards_download_header_status(
        &self,
        shard_id: ShardId,
        shard_sync_download: &mut ShardSyncDownload,
        sync_hash: CryptoHash,
        chain: &ChainStore,
        now: Timestamp,
    ) -> (r: Result<(bool, bool), SyncError>)
        requires
            old(shard_sync_download)@.wf(),
            old(shard_sync_download).status is StateDownloadHeader,
            chain.state_headers_wf(),
        ensures
            final(shard_sync_download)@.wf(),
            ({
                let d0 = old(shard_sync_download).downloads@[0];
                if d0.done {
                    match chain.spec_state_header(shard_id, sync_hash) {
                        Some(h) => {
                            &&& r == Ok::<(bool, bool), SyncError>((false, true))
                            &&& final(shard_sync_download).status is StateDownloadParts
                            &&& final(shard_sync_download).downloads@.len() == h.num_parts
                            &&& forall|i: int|
                                0 <= i < h.num_parts ==> final(shard_sync_download).downloads@[i]
                                    == DownloadStatus::new_spec(now)
                        },
                        None => {
                            &&& r == Err::<(bool, bool), SyncError>(SyncError::MissingStateHeader(
                                shard_id,
                            ))
                            &&& *final(shard_sync_download) == *old(shard_sync_download)
                        },
                    }
                } else {
                    let timed_out = now > d0.prev_update_time + self.spec_timeout();
                    let d1 = spec_header_retry(d0, now, self.spec_timeout());
                    &&& final(shard_sync_download).status is StateDownloadHeader
                    &&& final(shard_sync_download).downloads@ =~= seq![d1]
                    &&& r == Ok::<(bool, bool), SyncError>((timed_out, d1.run_me))
                }
            }),
    {
        let d0 = shard_sync_download.downloads[0];
        if d0.done {
            match chain.get_state_header(shard_id, sync_hash) {
                None => Err(SyncError::MissingStateHeader(shard_id)),
                Some(h) => {
                    *shard_sync_download = ShardSyncDownload::new_download_state_parts(
                        now,
                        h.num_parts,
                    );
                    Ok((false, true))
                },
            }
        } else {
            let timed_out = now > d0.prev_update_time
                && now - d0.prev_update_time > self.timeout;
            let mut d1 = d0;
            if timed_out || d0.error {
                d1.run_me = true;
                d1.error = false;
                d1.prev_update_time = now;
            }
            shard_sync_download.downloads[0] = d1;
            proof {
                assert(shard_sync_download.downloads@ =~= seq![
                    spec_header_retry(d0, now, self.spec_timeout()),
                ]);
            }
            Ok((timed_out, d1.run_me))
        }
    }

    /// Decide how the parts phase of one shard advances: when every part
    /// is done the shard moves to scheduling (immediately so with zero
    /// parts); otherwise each undone part is re-armed where its request
    /// timed out, or where it failed with a recorded source. Returns
    /// whether any part timed out and whether requests must be issued.
    pub fn sync_shards_download_parts_status(
        &self,
        shard_id: ShardId,
        shard_sync_download: &mut ShardSyncDownload,
        now: Timestamp,
    ) -> (r: (bool, bool))
        requires
            old(shard_sync_download)@.wf(),
            old(shard_sync_download).status is StateDownloadParts,
        ensures
            final(shard_sync_download)@.wf(),
            ({
                let ds = old(shard_sync_download).downloads@;
                if forall|j: int| 0 <= j < ds.len() ==> (#[trigger] ds[j]).done {
                    &&& final(shard_sync_download).status is StateDownloadScheduling
                    &&& final(shard_sync_download).downloads@.len() == 0
                    &&& r == (false, false)
                } else {
                    &&& final(shard_sync_download).status is StateDownloadParts
                    &&& final(shard_sync_download).downloads@.len() == ds.len()
                    &&& forall|j: int|
                        0 <= j < ds.len() ==> final(shard_sync_download).downloads@[j]
                            == spec_part_retry(#[trigger] ds[j], now, self.spec_timeout())
                    &&& r.0 == exists|j: int|
                        0 <= j < ds.len() && !(#[trigger] ds[j]).done && now > ds[j].prev_update_time
                            + self.spec_timeout()
                    &&& r.1 == exists|j: int|
                        0 <= j < ds.len() && (#[trigger] spec_part_retry(
                            ds[j],
                            now,
                            self.spec_timeout(),
                        )).run_me
                }
            }),
    {
        let ghost ds = shard_sync_download.downloads@;
        proof {
            assert forall|j: int| 0 <= j < ds.len() implies (#[trigger] ds[j]).wf() by {
                assert(old(shard_sync_download)@.downloads[j].wf());
            }
        }
        let mut download_timeout = false;
        let mut run_shard_state_download = false;
        let mut parts_done = true;
        let n = shard_sync_download.downloads.len();
        let mut i: usize = 0;
        while i < n
            invariant
                i <= n,
                n == shard_sync_download.downloads@.len(),
                ds.len() == n,
                shard_sync_download.status == old(shard_sync_download).status,
                old(shard_sync_download).status is StateDownloadParts,
                forall|j: int| 0 <= j < n ==> (#[trigger] ds[j]).wf(),
                forall|j: int| i <= j < n ==> shard_sync_download.downloads@[j] == ds[j],
                forall|j: int|
                    0 <= j < i ==> shard_sync_download.downloads@[j] == spec_part_retry(
                        #[trigger] ds[j],
                        now,
                        self.spec_timeout(),
                    ),
                parts_done == forall|j: int| 0 <= j < i ==> (#[trigger] ds[j]).done,
                download_timeout == exists|j: int|
                    0 <= j < i && !(#[trigger] ds[j]).done && now > ds[j].prev_update_time
                        + self.spec_timeout(),
                run_shard_state_download == exists|j: int|
                    0 <= j < i && (#[trigger] spec_part_retry(ds[j], now, self.spec_timeout())).run_me,
            decreases n - i,
        {
            let d0 = shard_sync_download.downloads[i];
            let ghost pre_done = parts_done;
            let ghost pre_to = download_timeout;
            let ghost pre_run = run_shard_state_download;
            let mut d1 = d0;
            if !d0.done {
                parts_done = false;
                let part_timeout = now > d0.prev_update_time && now - d0.prev_update_time
                    > self.timeout;
                if part_timeout || d0.error {
                    download_timeout = download_timeout || part_timeout;
                    if part_timeout || d0.last_target.is_some() {
                        d1.run_me = true;
                        d1.error = false;
                        d1.prev_update_time = now;
                    }
                }
            }
            shard_sync_download.downloads[i] = d1;
            if d1.run_me {
                run_shard_state_download = true;
            }
            proof {
                assert(d0 == ds[i as int]);
                assert(shard_sync_download.downloads@[i as int] == spec_part_retry(
                    ds[i as int],
                    now,
                    self.spec_timeout(),
                ));
                assert(parts_done == (pre_done && ds[i as int].done));
                assert(download_timeout == (pre_to || (!ds[i as int].done && now > ds[
                    i as int
                ].prev_update_time + self.spec_timeout())));
                assert(run_shard_state_download == (pre_run || spec_part_retry(
                    ds[i as int],
                    now,
                    self.spec_timeout(),
                ).run_me));
            }
            i = i + 1;
        }
        if parts_done {
            *shard_sync_download = ShardSyncDownload {
                downloads: Vec::new(),
                status: ShardSyncStatus::StateDownloadScheduling,
            };
            (false, false)
        } else {
            proof {
                assert forall|j: int|
                    0 <= j < shard_sync_download@.downloads.len() implies (
                #[trigger] shard_sync_download@.downloads[j]).wf() by {
                    assert(shard_sync_download@.downloads[j] == spec_part_retry(
                        ds[j],
                        now,
                        self.spec_timeout(),
                    ));
                    assert(ds[j].wf());
                }
            }
            (download_timeout, run_shard_state_download)
        }
    }

    /// Enqueue the application of all downloaded parts of one shard and
    /// move it to the applying phase.
    pub fn sync_shards_download_scheduling_status(
        &self,
        shard_id: ShardId,
        shard_sync_download: &mut ShardSyncDownload,
        sync_hash: CryptoHash,
        chain: &ChainStore,
        now: Timestamp,
        actions: &mut Vec<Action>,
    ) -> (r: Result<(), SyncError>)
        requires
            old(shard_sync_download)@.wf(),
            old(shard_sync_download).status is StateDownloadScheduling,
        ensures
            final(shard_sync_download)@.wf(),
            match chain.spec_state_header(shard_id, sync_hash) {
                Some(h) => {
                    &&& r == Ok::<(), SyncError>(())
                    &&& final(shard_sync_download).status is StateDownloadApplying
                    &&& final(shard_sync_download).downloads@.len() == 0
                    &&& final(actions)@ == old(actions)@.push(Action::ScheduleApplyStateParts {
                        shard_id,
                        sync_hash,
                        num_parts: h.num_parts,
                    })
                },
                None => {
                    &&& r == Err::<(), SyncError>(SyncError::MissingStateHeader(shard_id))
                    &&& *final(shard_sync_download) == *old(shard_sync_download)
                    &&& final(actions)@ == old(actions)@
                },
            },
    {
        match chain.get_state_header(shard_id, sync_hash) {
            None => Err(SyncError::MissingStateHeader(shard_id)),
            Some(h) => {
                actions.push(
                    Action::ScheduleApplyStateParts { shard_id, sync_hash, num_parts: h.num_parts },
                );
                *shard_sync_download = ShardSyncDownload {
                    downloads: Vec::new(),
                    status: ShardSyncStatus::StateDownloadApplying,
                };
                Ok(())
            },
        }
    }

    /// Pick up the posted apply result of one shard, if any: on success
    /// the shard completes its download; on failure every downloaded
    /// part is wiped and the shard restarts from the header phase, the
    /// only destructive recovery.
    pub fn sync_shards_download_applying_status(
        &mut self,
        shard_id: ShardId,
        shard_sync_download: &mut ShardSyncDownload,
        sync_hash: CryptoHash,
        chain: &mut ChainStore,
        now: Timestamp,
    ) -> (r: Result<(), SyncError>)
        requires
            old(shard_sync_download)@.wf(),
            old(shard_sync_download).status is StateDownloadApplying,
        ensures
            final(shard_sync_download)@.wf(),
            final(self).wf() == old(self).wf(),
            final(self).is_peers_mode() == old(self).is_peers_mode(),
            final(self).spec_timeout() == old(self).spec_timeout(),
            final(self).spec_last_block_request() == old(self).spec_last_block_request(),
            final(self).spec_targets() == old(self).spec_targets(),
            final(self).spec_split_results() == old(self).spec_split_results(),
            forall|p: PeerId, s: ShardId|
                final(self).spec_pending_get(p, s) == old(self).spec_pending_get(p, s),
            forall|h: CryptoHash| final(chain).spec_header(h) == old(chain).spec_header(h),
            forall|h: CryptoHash|
                final(chain).spec_block_exists(h) == old(chain).spec_block_exists(h),
            forall|s: ShardId, h: CryptoHash|
                final(chain).spec_state_header(s, h) == old(chain).spec_state_header(s, h),
            match old(self).spec_apply_results().get(shard_id) {
                None => {
                    &&& r == Ok::<(), SyncError>(())
                    &&& *final(shard_sync_download) == *old(shard_sync_download)
                    &&& *final(chain) == *old(chain)
                    &&& final(self).spec_apply_results() == old(self).spec_apply_results()
                },
                Some(result) => {
                    &&& final(self).spec_apply_results() == old(self).spec_apply_results().remove(
                        shard_id,
                    )
                    &&& match result {
                        Ok(()) => {
                            &&& r == Ok::<(), SyncError>(())
                            &&& final(shard_sync_download).status is StateDownloadComplete
                            &&& final(shard_sync_download).downloads@.len() == 0
                            &&& *final(chain) == *old(chain)
                        },
                        Err(_) => match old(chain).spec_state_header(shard_id, sync_hash) {
                            None => {
                                &&& r == Err::<(), SyncError>(SyncError::MissingStateHeader(
                                    shard_id,
                                ))
                                &&& *final(chain) == *old(chain)
                            },
                            Some(h) => {
                                &&& r == Ok::<(), SyncError>(())
                                &&& final(shard_sync_download).status is StateDownloadHeader
                                &&& final(shard_sync_download).downloads@.len() == 1
                                &&& final(shard_sync_download).downloads@[0]
                                    == DownloadStatus::new_spec(now)
                                &&& forall|i: u64|
                                    i < h.num_parts ==> final(chain).spec_part(
                                        sync_hash,
                                        shard_id,
                                        i,
                                    ) is None
                                &&& forall|h2: CryptoHash, s2: ShardId, i2: u64|
                                    !(h2 == sync_hash && s2 == shard_id && i2 < h.num_parts)
                                        ==> final(chain).spec_part(h2, s2, i2) == old(chain).spec_part(h2, s2, i2)
                            },
                        },
                    }
                },
            },
    {
        match self.state_parts_apply_results.remove(&shard_id) {
            None => Ok(()),
            Some(result) => {
                match result {
                    Ok(()) => {
                        *shard_sync_download = ShardSyncDownload {
                            downloads: Vec::new(),
                            status: ShardSyncStatus::StateDownloadComplete,
                        };
                        Ok(())
                    },
                    Err(_) => {
                        match chain.get_state_header(shard_id, sync_hash) {
                            None => Err(SyncError::MissingStateHeader(shard_id)),
                            Some(h) => {
                                *shard_sync_download = ShardSyncDownload::new_download_state_header(
                                    now,
                                );
                                chain.clear_downloaded_parts(sync_hash, shard_id, h.num_parts);
                                Ok(())
                            },
                        }
                    },
                }
            },
        }
    }

    /// Decide how a completed download ends: with a layout change
    /// pending the shard moves on to split scheduling, otherwise it is
    /// done. Returns whether the shard finished its sync.
    pub fn sync_shards_download_complete_status(
        &self,
        split_states: bool,
        shard_sync_download: &mut ShardSyncDownload,
    ) -> (r: bool)
        requires
            old(shard_sync_download)@.wf(),
            old(shard_sync_download).status is StateDownloadComplete,
        ensures
            final(shard_sync_download)@.wf(),
            final(shard_sync_download).downloads@.len() == 0,
            split_states ==> final(shard_sync_download).status is StateSplitScheduling && r
                == false,
            !split_states ==> final(shard_sync_download).status is StateSyncDone && r == true,
    {
        if split_states {
            *shard_sync_download = ShardSyncDownload {
                downloads: Vec::new(),
                status: ShardSyncStatus::StateSplitScheduling,
            };
            false
        } else {
            *shard_sync_download = ShardSyncDownload {
                downloads: Vec::new(),
                status: ShardSyncStatus::StateSyncDone,
            };
            true
        }
    }

    /// Enqueue the splitting of one shard's downloaded state into the
    /// new layout and move the shard to the split-applying phase.
    pub fn sync_shards_state_split_scheduling_status(
        &self,
        shard_id: ShardId,
        shard_sync_download: &mut ShardSyncDownload,
        sync_hash: CryptoHash,
        actions: &mut Vec<Action>,
    )
        requires
            old(shard_sync_download)@.wf(),
            old(shard_sync_download).status is StateSplitScheduling,
        ensures
            final(shard_sync_download)@.wf(),
            final(shard_sync_download).status is StateSplitApplying,
            final(shard_sync_download).downloads@.len() == 0,
            final(actions)@ == old(actions)@.push(Action::ScheduleStateSplit {
                shard_id,
                sync_hash,
            }),
    {
        actions.push(Action::ScheduleStateSplit { shard_id, sync_hash });
        *shard_sync_download = ShardSyncDownload {
            downloads: Vec::new(),
            status: ShardSyncStatus::StateSplitApplying,
        };
    }

    /// Pick up the posted split result of one shard, if any: on success
    /// the shard is done; a failed split is reported as the tick's
    /// error. Returns whether the shard finished its sync.
    pub fn sync_shards_state_split_applying_status(
        &mut self,
        shard_id: ShardId,
        shard_sync_download: &mut ShardSyncDownload,
        sync_hash: CryptoHash,
    ) -> (r: Result<bool, SyncError>)
        requires
            old(shard_sync_download)@.wf(),
            old(shard_sync_download).status is StateSplitApplying,
        ensures
            final(shard_sync_download)@.wf(),
            final(self).wf() == old(self).wf(),
            final(self).is_peers_mode() == old(self).is_peers_mode(),
            final(self).spec_timeout() == old(self).spec_timeout(),
            final(self).spec_last_block_request() == old(self).spec_last_block_request(),
            final(self).spec_targets() == old(self).spec_targets(),
            final(self).spec_apply_results() == old(self).spec_apply_results(),
            forall|p: PeerId, s: ShardId|
                final(self).spec_pending_get(p, s) == old(self).spec_pending_get(p, s),
            match old(self).spec_split_results().get(shard_id) {
                None => {
                    &&& r == Ok::<bool, SyncError>(false)
                    &&& *final(shard_sync_download) == *old(shard_sync_download)
                    &&& final(self).spec_split_results() == old(self).spec_split_results()
                },
                Some(result) => {
                    &&& final(self).spec_split_results() == old(self).spec_split_results().remove(
                        shard_id,
                    )
                    &&& match result {
                        Ok(_) => {
                            &&& r == Ok::<bool, SyncError>(true)
                            &&& final(shard_sync_download).status is StateSyncDone
                            &&& final(shard_sync_download).downloads@.len() == 0
                        },
                        Err(e) => {
                            &&& r == Err::<bool, SyncError>(SyncError::SplitFailed(shard_id, e))
                            &&& *final(shard_sync_download) == *old(shard_sync_download)
                        },
                    }
                },
            },
    {
        match self.split_state_roots.remove(&shard_id) {
            None => Ok(false),
            Some(result) => {
                match result {
                    Ok(_roots) => {
                        *shard_sync_download = ShardSyncDownload {
                            downloads: Vec::new(),
                            status: ShardSyncStatus::StateSyncDone,
                        };
                        Ok(true)
                    },
                    Err(e) => Err(SyncError::SplitFailed(shard_id, e)),
                }
            },
        }
    }
}


impl StateSync {
    /// Ingest one peer's answer to a state request. A carried part first
    /// credits the recorded target in the ledger. In the header phase a
    /// valid header is persisted and the artifact marked done, an
    /// invalid or missing one marks it failed. In the parts phase an
    /// out-of-range part index is rejected without any change to the
    /// records or the store; otherwise a valid part is persisted under
    /// its key and marked done, an invalid one marks the record failed
    /// and persists nothing.
    pub fn update_download_on_state_response_message<V: SyncValidator>(
        &mut self,
        shard_sync_download: &mut ShardSyncDownload,
        hash: CryptoHash,
        shard_id: u64,
        state_response: ShardStateSyncResponse,
        chain: &mut ChainStore,
        validator: &V,
    )
        requires
            old(self).wf(),
            old(shard_sync_download)@.wf(),
            old(chain).state_headers_wf(),
        ensures
            final(self).wf(),
            final(shard_sync_download)@.wf(),
            final(chain).state_headers_wf(),
            final(self).is_peers_mode() == old(self).is_peers_mode(),
            final(self).spec_timeout() == old(self).spec_timeout(),
            final(self).spec_last_block_request() == old(self).spec_last_block_request(),
            final(self).spec_targets() == old(self).spec_targets(),
            final(self).spec_apply_results() == old(self).spec_apply_results(),
            final(self).spec_split_results() == old(self).spec_split_results(),
            ({
                match state_response.part {
                    None => forall|p: PeerId, s: ShardId|
                        final(self).spec_pending_get(p, s) == old(self).spec_pending_get(p, s),
                    Some((pid, _)) => {
                        let key = (pid, hash);
                        if old(self).is_peers_mode() && old(self).spec_targets().contains_key(
                            key,
                        ) {
                            let t = old(self).spec_targets()[key];
                            &&& forall|p: PeerId, s: ShardId|
                                !(p == t && s == shard_id) ==> final(self).spec_pending_get(p, s)
                                    == old(self).spec_pending_get(p, s)
                            &&& final(self).spec_pending_count(t, shard_id) == if old(self).spec_pending_count(t, shard_id) > 0 {
                                old(self).spec_pending_count(t, shard_id) - 1
                            } else {
                                0
                            }
                        } else {
                            forall|p: PeerId, s: ShardId|
                                final(self).spec_pending_get(p, s) == old(self).spec_pending_get(
                                    p,
                                    s,
                                )
                        }
                    },
                }
            }),
            forall|h: CryptoHash| final(chain).spec_header(h) == old(chain).spec_header(h),
            forall|h: CryptoHash|
                final(chain).spec_block_exists(h) == old(chain).spec_block_exists(h),
            final(shard_sync_download).status == old(shard_sync_download).status,
            final(shard_sync_download).downloads@.len() == old(shard_sync_download).downloads@.len(),
            !(old(shard_sync_download).status is StateDownloadHeader) ==> forall|
                s: ShardId,
                h: CryptoHash,
            | final(chain).spec_state_header(s, h) == old(chain).spec_state_header(s, h),
            !(old(shard_sync_download).status is StateDownloadParts) ==> forall|
                h: CryptoHash,
                s: ShardId,
                i: u64,
            | final(chain).spec_part(h, s, i) == old(chain).spec_part(h, s, i),
            !(old(shard_sync_download).status is StateDownloadHeader) && !(old(shard_sync_download).status is StateDownloadParts) ==> final(shard_sync_download).downloads@ == old(shard_sync_download).downloads@,
            old(shard_sync_download).status is StateDownloadHeader ==> {
                let d0 = old(shard_sync_download).downloads@[0];
                let d1 = final(shard_sync_download).downloads@[0];
                &&& forall|h: CryptoHash, s: ShardId, i: u64|
                    final(chain).spec_part(h, s, i) == old(chain).spec_part(h, s, i)
                &&& (d0.done ==> d1 == d0 && forall|s: ShardId, h: CryptoHash|
                    final(chain).spec_state_header(s, h) == old(chain).spec_state_header(s, h))
                &&& (!d0.done ==> {
                    &&& (d1.done ==> state_response.header is Some && final(chain).spec_state_header(shard_id, hash) == Some(state_response.header.unwrap())
                        && d1 == (DownloadStatus { run_me: false, done: true, error: false, ..d0 }))
                    &&& (!d1.done ==> d1 == (DownloadStatus { error: true, ..d0 }) && forall|s: ShardId, h: CryptoHash|
                        final(chain).spec_state_header(s, h) == old(chain).spec_state_header(s, h))
                    &&& forall|s: ShardId, h: CryptoHash|
                        !(s == shard_id && h == hash) ==> final(chain).spec_state_header(s, h)
                            == old(chain).spec_state_header(s, h)
                })
            },
            old(shard_sync_download).status is StateDownloadParts ==> {
                &&& forall|s: ShardId, h: CryptoHash|
                    final(chain).spec_state_header(s, h) == old(chain).spec_state_header(s, h)
                &&& match state_response.part {
                    None => final(shard_sync_download).downloads@ == old(shard_sync_download).downloads@ && forall|h: CryptoHash, s: ShardId, i: u64|
                        final(chain).spec_part(h, s, i) == old(chain).spec_part(h, s, i),
                    Some((part_id, data)) => {
                        let n = old(shard_sync_download).downloads@.len();
                        if part_id >= n {
                            &&& final(shard_sync_download).downloads@ == old(shard_sync_download).downloads@
                            &&& forall|h: CryptoHash, s: ShardId, i: u64|
                                final(chain).spec_part(h, s, i) == old(chain).spec_part(h, s, i)
                        } else {
                            let d0 = old(shard_sync_download).downloads@[part_id as int];
                            let d1 = final(shard_sync_download).downloads@[part_id as int];
                            &&& forall|j: int|
                                0 <= j < n && j != part_id ==> final(shard_sync_download).downloads@[j] == old(shard_sync_download).downloads@[j]
                            &&& forall|h: CryptoHash, s: ShardId, i: u64|
                                !(h == hash && s == shard_id && i == part_id) ==> final(chain).spec_part(h, s, i) == old(chain).spec_part(h, s, i)
                            &&& (d0.done ==> d1 == d0 && forall|h: CryptoHash, s: ShardId, i: u64|
                                final(chain).spec_part(h, s, i) == old(chain).spec_part(h, s, i))
                            &&& (!d0.done ==> {
                                &&& (d1.done ==> final(chain).spec_part(hash, shard_id, part_id)
                                    == Some(data@))
                                &&& (!d1.done ==> d1.error && forall|
                                    h: CryptoHash,
                                    s: ShardId,
                                    i: u64,
                                | final(chain).spec_part(h, s, i) == old(chain).spec_part(h, s, i))
                            })
                        }
                    },
                }
            },
    {
        match state_response.part_id() {
            Some(part_id) => {
                self.received_requested_part(part_id, shard_id, hash);
            },
            None => {},
        }
        match shard_sync_download.status {
            ShardSyncStatus::StateDownloadHeader => {
                match state_response.header {
                    Some(header) => {
                        if !shard_sync_download.downloads[0].done {
                            let fits = header.num_parts <= (usize::MAX as u64);
                            let ok = if fits {
                                validator.validate_state_header(shard_id, hash, &header)
                            } else {
                                false
                            };
                            let mut d = shard_sync_download.downloads[0];
                            persist_validated_header(ok, header, hash, shard_id, &mut d, chain);
                            shard_sync_download.downloads[0] = d;
                        }
                    },
                    None => {
                        if !shard_sync_download.downloads[0].done {
                            let mut d = shard_sync_download.downloads[0];
                            d.error = true;
                            shard_sync_download.downloads[0] = d;
                        }
                    },
                }
            },
            ShardSyncStatus::StateDownloadParts => {
                match state_response.part {
                    Some((part_id, data)) => {
                        let num_parts = shard_sync_download.downloads.len() as u64;
                        if part_id < num_parts {
                            let idx = part_id as usize;
                            if !shard_sync_download.downloads[idx].done {
                                let mut d = shard_sync_download.downloads[idx];
                                if data.len() > (u64::MAX as usize) {
                                    d.error = true;
                                } else {
                                    match chain.get_state_header(shard_id, hash) {
                                        None => {
                                            d.error = true;
                                        },
                                        Some(h) => {
                                            let valid = validator.validate_state_part(
                                                h.state_root,
                                                PartId { idx: part_id, total: num_parts },
                                                &data,
                                            );
                                            match persist_validated_part(
                                                valid,
                                                &data,
                                                hash,
                                                shard_id,
                                                part_id,
                                                chain,
                                            ) {
                                                Ok(_) => {
                                                    d.done = true;
                                                    d.error = false;
                                                    d.run_me = false;
                                                },
                                                Err(_) => {
                                                    d.error = true;
                                                },
                                            }
                                        },
                                    }
                                }
                                shard_sync_download.downloads[idx] = d;
                            }
                        }
                    },
                    None => {},
                }
            },
            _ => {},
        }
        proof {
            assert forall|j: int|
                0 <= j < shard_sync_download@.downloads.len() implies (
            #[trigger] shard_sync_download@.downloads[j]).wf() by {
                assert(old(shard_sync_download)@.downloads[j].wf());
            }
        }
    }
}


/// All entries of the per-shard map are well formed.
pub open spec fn shard_map_wf(m: Map<u64, ShardSyncDownloadView>) -> bool {
    forall|k: u64| m.contains_key(k) ==> (#[trigger] m[k]).wf()
}

/// Ingesting fetched-part outcomes keeps every per-shard record well
/// formed.
pub proof fn lemma_ingestion_keeps_wf(
    m: Map<u64, ShardSyncDownloadView>,
    msgs: Seq<StateSyncGetPartResult>,
    sync_hash: CryptoHash,
)
    requires
        shard_map_wf(m),
    ensures
        shard_map_wf(spec_process_part_results(m, msgs, sync_hash)),
    decreases msgs.len(),
{
    if msgs.len() == 0 {
    } else {
        lemma_ingestion_keeps_wf(m, msgs.drop_last(), sync_hash);
        let m1 = spec_process_part_results(m, msgs.drop_last(), sync_hash);
        let msg = msgs.last();
        let m2 = spec_process_one(m1, msg, sync_hash);
        assert forall|k: u64| m2.contains_key(k) implies (#[trigger] m2[k]).wf() by {
            if msg.sync_hash == sync_hash && m1.contains_key(msg.shard_id) && m1[msg.shard_id].status
                is StateDownloadParts && msg.part_id.idx < m1[msg.shard_id].downloads.len() && k
                == msg.shard_id {
                let ssd = m1[msg.shard_id];
                assert(ssd.wf());
                let idx = msg.part_id.idx as int;
                assert forall|j: int| 0 <= j < m2[k].downloads.len() implies (#[trigger] m2[
                    k
                ].downloads[j]).wf() by {
                    if j == idx {
                        assert(ssd.downloads[j].wf());
                    } else {
                        assert(m2[k].downloads[j] == ssd.downloads[j]);
                    }
                }
            } else {
                assert(m1.contains_key(k) && m2[k] == m1[k]);
            }
        }
    }
}

/// Whether the shard layouts of the epoch before the sync target and of
/// the sync target's own epoch agree, as far as both are known. Syncing
/// across a layout change is not supported: the orchestrator must not
/// run until they agree.
pub open spec fn spec_layouts_compatible(
    chain: ChainStore,
    epoch_manager: EpochManagerView,
    sync_hash: CryptoHash,
) -> bool {
    match chain.spec_header(sync_hash) {
        None => true,
        Some(h) => match chain.spec_header(h.prev_hash) {
            None => true,
            Some(ph) => match (
                epoch_manager.spec_epoch(ph.epoch_id),
                epoch_manager.spec_epoch(h.epoch_id),
            ) {
                (Some(a), Some(b)) => a.layout_version == b.layout_version,
                _ => true,
            },
        },
    }
}

/// Check that the shard layouts around the sync target agree, so that a
/// caller can refuse to drive a sync across a sharding upgrade.
pub fn layouts_match(
    chain: &ChainStore,
    epoch_manager: &EpochManagerView,
    sync_hash: CryptoHash,
) -> (r: bool)
    ensures
        r == spec_layouts_compatible(*chain, *epoch_manager, sync_hash),
{
    match chain.get_block_header(sync_hash) {
        None => true,
        Some(h) => match chain.get_block_header(h.prev_hash) {
            None => true,
            Some(ph) => {
                let a = epoch_manager.get_epoch_info(ph.epoch_id);
                let b = epoch_manager.get_epoch_info(h.epoch_id);
                match (a, b) {
                    (Some(x), Some(y)) => x.layout_version == y.layout_version,
                    _ => true,
                }
            },
        },
    }
}

/// One shard's record is quiesced: nothing is due, nothing failed, and
/// no posted result is waiting, so a tick leaves it as it stands. The
/// transient phases, which always advance, are never quiesced.
pub open spec fn spec_quiesced_entry(
    v: ShardSyncDownloadView,
    s: StateSync,
    shard: u64,
    now: Timestamp,
) -> bool {
    match v.status {
        ShardSyncStatus::StateDownloadHeader => {
            let d = v.downloads[0];
            &&& !d.done && !d.error && !d.run_me
            &&& now <= d.prev_update_time + s.spec_timeout()
        },
        ShardSyncStatus::StateDownloadParts => {
            &&& !(forall|j: int| 0 <= j < v.downloads.len() ==> (#[trigger] v.downloads[j]).done)
            &&& forall|j: int|
                0 <= j < v.downloads.len() ==> {
                    let d = #[trigger] v.downloads[j];
                    &&& !d.run_me && !d.error
                    &&& (d.done || now <= d.prev_update_time + s.spec_timeout())
                }
        },
        ShardSyncStatus::StateDownloadApplying => !s.spec_apply_results().contains_key(shard),
        ShardSyncStatus::StateSplitApplying => !s.spec_split_results().contains_key(shard),
        ShardSyncStatus::StateSyncDone => true,
        _ => false,
    }
}

/// Every tracked shard is present and quiesced.
pub open spec fn spec_all_quiesced(
    m: Map<u64, ShardSyncDownloadView>,
    s: StateSync,
    tracking: Seq<ShardId>,
    now: Timestamp,
) -> bool {
    forall|t: int|
        0 <= t < tracking.len() ==> m.contains_key(#[trigger] tracking[t]) && spec_quiesced_entry(
            m[tracking[t]],
            s,
            tracking[t],
            now,
        )
}

/// Every tracked shard has finished its sync.
pub open spec fn spec_all_done(m: Map<u64, ShardSyncDownloadView>, tracking: Seq<ShardId>) -> bool {
    forall|t: int|
        0 <= t < tracking.len() ==> m.contains_key(#[trigger] tracking[t]) && m[tracking[t]].status
            is StateSyncDone
}

/// The sync-block gate is quiesced: the block is here and no request is
/// recorded, or a recorded request has not yet timed out.
pub open spec fn spec_quiesced_block(
    s: StateSync,
    chain: ChainStore,
    sync_hash: CryptoHash,
    now: Timestamp,
) -> bool {
    match chain.spec_header(sync_hash) {
        None => false,
        Some(h) => {
            if chain.spec_block_exists(h.prev_hash) {
                s.spec_last_block_request() is None
            } else {
                match s.spec_last_block_request() {
                    Some(t) => now < t + s.spec_timeout(),
                    None => false,
                }
            }
        },
    }
}

/// A fresh header-phase record for a shard seen for the first time.
pub open spec fn spec_fresh_header_view(now: Timestamp) -> ShardSyncDownloadView {
    ShardSyncDownloadView {
        downloads: seq![DownloadStatus::new_spec(now)],
        status: ShardSyncStatus::StateDownloadHeader,
    }
}

/// The phase decision of one tick for one shard: how the record
/// advances and which scheduler enqueues it emits, before any request
/// dispatch. The lookups it needs must be present; a posted result
/// decides the applying phases.
pub open spec fn spec_phase_step(
    v0: ShardSyncDownloadView,
    v1: ShardSyncDownloadView,
    acts: Seq<Action>,
    s0: StateSync,
    chain0: ChainStore,
    shard_id: u64,
    sync_hash: CryptoHash,
    now: Timestamp,
    split_states: bool,
) -> bool {
    match v0.status {
        ShardSyncStatus::StateDownloadHeader => acts.len() == 0 && (if v0.downloads[0].done {
            match chain0.spec_state_header(shard_id, sync_hash) {
                Some(h) => v1.status is StateDownloadParts && v1.downloads.len() == h.num_parts
                    && forall|i: int|
                    0 <= i < h.num_parts ==> v1.downloads[i] == DownloadStatus::new_spec(now),
                None => false,
            }
        } else {
            v1.status is StateDownloadHeader && v1.downloads =~= seq![
                spec_header_retry(v0.downloads[0], now, s0.spec_timeout()),
            ]
        }),
        ShardSyncStatus::StateDownloadParts => acts.len() == 0 && (if forall|j: int|
            0 <= j < v0.downloads.len() ==> (#[trigger] v0.downloads[j]).done {
            v1.status is StateDownloadScheduling && v1.downloads.len() == 0
        } else {
            v1.status is StateDownloadParts && v1.downloads.len() == v0.downloads.len() && forall|
                j: int,
            |
                0 <= j < v0.downloads.len() ==> v1.downloads[j] == spec_part_retry(
                    #[trigger] v0.downloads[j],
                    now,
                    s0.spec_timeout(),
                )
        }),
        ShardSyncStatus::StateDownloadScheduling => match chain0.spec_state_header(
            shard_id,
            sync_hash,
        ) {
            Some(h) => v1.status is StateDownloadApplying && v1.downloads.len() == 0 && acts =~= seq![
                Action::ScheduleApplyStateParts { shard_id, sync_hash, num_parts: h.num_parts },
            ],
            None => false,
        },
        ShardSyncStatus::StateDownloadApplying => acts.len() == 0 && match s0.spec_apply_results().get(shard_id) {
            None => v1 == v0,
            Some(result) => match result {
                Ok(_) => v1.status is StateDownloadComplete && v1.downloads.len() == 0,
                Err(_) => match chain0.spec_state_header(shard_id, sync_hash) {
                    Some(_) => v1.status is StateDownloadHeader && v1.downloads =~= seq![
                        DownloadStatus::new_spec(now),
                    ],
                    None => false,
                },
            },
        },
        ShardSyncStatus::StateDownloadComplete => acts.len() == 0 && v1.downloads.len() == 0 && (
        if split_states {
            v1.status is StateSplitScheduling
        } else {
            v1.status is StateSyncDone
        }),
        ShardSyncStatus::StateSplitScheduling => v1.status is StateSplitApplying
            && v1.downloads.len() == 0 && acts =~= seq![
            Action::ScheduleStateSplit { shard_id, sync_hash },
        ],
        ShardSyncStatus::StateSplitApplying => acts.len() == 0 && match s0.spec_split_results().get(
            shard_id,
        ) {
            None => v1 == v0,
            Some(result) => match result {
                Ok(_) => v1.status is StateSyncDone && v1.downloads.len() == 0,
                Err(_) => false,
            },
        },
        ShardSyncStatus::StateSyncDone => acts.len() == 0 && v1 == v0,
    }
}

/// The request dispatch of one tick for one shard. A header request is
/// forced: with the record armed and an eligible peer, exactly one
/// header request goes out to an eligible peer. A parts sweep runs over
/// the pool of exactly the eligible peers, bounded by what the sampler
/// or the permits allow (an empty pool sweeps nothing); outside the
/// download phases, or when the tick decided against a request pass,
/// nothing happens.
pub open spec fn spec_shard_dispatch(
    decided: bool,
    mid: ShardSyncDownloadView,
    v1: ShardSyncDownloadView,
    acts: Seq<Action>,
    s0: StateSync,
    peers: Seq<PeerId>,
    shard_id: u64,
    sync_hash: CryptoHash,
    now: Timestamp,
) -> bool {
    if !decided {
        v1 == mid && acts.len() == 0
    } else if mid.status is StateDownloadHeader && mid.downloads.len() == 1 && mid.downloads[0].run_me && (
    exists|p: PeerId|
        #![auto]
        peers.contains(p) && spec_peer_eligible(s0, p, shard_id, now)) {
        let d1 = v1.downloads[0];
        &&& v1.status is StateDownloadHeader
        &&& v1.downloads.len() == 1
        &&& d1.last_target is Some
        &&& peers.contains(d1.last_target.unwrap())
        &&& spec_peer_eligible(s0, d1.last_target.unwrap(), shard_id, now)
        &&& spec_assigned_download(mid.downloads[0], d1, d1.last_target)
        &&& acts =~= seq![
            Action::StateRequestHeader { shard_id, sync_hash, peer_id: d1.last_target.unwrap() },
        ]
    } else if mid.status is StateDownloadParts {
        v1.status is StateDownloadParts && exists|cands: Seq<PeerId>, b: int|
            #![trigger spec_count_armed(mid.downloads, b), cands.len()]
            {
                &&& forall|a: int, c: int| 0 <= a < c < cands.len() ==> cands[a] != cands[c]
                &&& forall|a: int|
                    0 <= a < cands.len() ==> peers.contains(#[trigger] cands[a])
                        && spec_peer_eligible(s0, cands[a], shard_id, now)
                &&& forall|p: PeerId|
                    peers.contains(p) && spec_peer_eligible(s0, p, shard_id, now) ==> cands.contains(
                        p,
                    )
                &&& spec_parts_dispatch_to(
                    b,
                    mid.downloads,
                    v1.downloads,
                    acts,
                    shard_id,
                    sync_hash,
                )
                &&& s0.is_peers_mode() ==> {
                    &&& forall|j: int|
                        0 <= j < b && mid.downloads[j].run_me ==> !(
                        #[trigger] v1.downloads[j]).run_me
                    &&& (b == mid.downloads.len() || spec_count_armed(mid.downloads, b)
                        == MAX_STATE_PART_REQUEST * cands.len())
                    &&& spec_count_armed(mid.downloads, b) <= MAX_STATE_PART_REQUEST * cands.len()
                }
            }
    } else {
        v1 == mid && acts.len() == 0
    }
}

/// One shard fully processed by one tick: the phase decision followed by
/// the request dispatch, with the emitted actions split between them. A
/// shard with no record starts from a fresh header-phase record.
pub open spec fn spec_shard_processed(
    m0: Map<u64, ShardSyncDownloadView>,
    v1: ShardSyncDownloadView,
    acts: Seq<Action>,
    s0: StateSync,
    chain0: ChainStore,
    peers: Seq<PeerId>,
    shard_id: u64,
    sync_hash: CryptoHash,
    now: Timestamp,
    split_states: bool,
) -> bool {
    exists|mid: ShardSyncDownloadView, n1: int|
        #![trigger spec_phase_step(spec_entry_or_fresh(m0, shard_id, now), mid, acts.take(n1), s0, chain0, shard_id, sync_hash, now, split_states)]
        {
            &&& 0 <= n1 <= acts.len()
            &&& spec_phase_step(
                spec_entry_or_fresh(m0, shard_id, now),
                mid,
                acts.take(n1),
                s0,
                chain0,
                shard_id,
                sync_hash,
                now,
                split_states,
            )
            &&& spec_shard_dispatch(
                spec_dispatch_decided(spec_entry_or_fresh(m0, shard_id, now), mid),
                mid,
                v1,
                acts.skip(n1),
                s0,
                peers,
                shard_id,
                sync_hash,
                now,
            )
        }
}

/// The record of one shard before the tick, or the fresh header-phase
/// record the tick creates for a shard seen for the first time.
pub open spec fn spec_entry_or_fresh(
    m0: Map<u64, ShardSyncDownloadView>,
    shard_id: u64,
    now: Timestamp,
) -> ShardSyncDownloadView {
    if m0.contains_key(shard_id) {
        m0[shard_id]
    } else {
        spec_fresh_header_view(now)
    }
}

/// Whether the tick's phase decision asked for a request pass: a header
/// still to be issued, or any part still to be issued. A shard that was
/// just reset waits for the next tick, as a freshly created record does
/// not: it is created armed and dispatched at once.
pub open spec fn spec_dispatch_decided(v0: ShardSyncDownloadView, mid: ShardSyncDownloadView) -> bool {
    match v0.status {
        ShardSyncStatus::StateDownloadHeader => if v0.downloads[0].done {
            true
        } else {
            mid.downloads[0].run_me
        },
        ShardSyncStatus::StateDownloadParts => mid.status is StateDownloadParts && exists|j: int|
            0 <= j < mid.downloads.len() && (#[trigger] mid.downloads[j]).run_me,
        _ => false,
    }
}

/// Whether this tick will consult the shard's state header: only the
/// header-done transition, the scheduling enqueue, the destructive
/// reset after a failed apply, and an external parts dispatch with a
/// part due read it. A fresh sync reads none.
pub open spec fn spec_phase_needs_state_header(
    v0: ShardSyncDownloadView,
    s: StateSync,
    shard_id: u64,
    now: Timestamp,
) -> bool {
    match v0.status {
        ShardSyncStatus::StateDownloadHeader => v0.downloads[0].done,
        ShardSyncStatus::StateDownloadScheduling => true,
        ShardSyncStatus::StateDownloadApplying => match s.spec_apply_results().get(shard_id) {
            Some(result) => result is Err,
            None => false,
        },
        ShardSyncStatus::StateDownloadParts => !s.is_peers_mode() && exists|j: int|
            0 <= j < v0.downloads.len() && (#[trigger] spec_part_retry(
                v0.downloads[j],
                now,
                s.spec_timeout(),
            )).run_me,
        _ => false,
    }
}

/// Whether every lookup this tick can need is present and no tracked
/// shard has a failed split result waiting: under these, a tick cannot
/// fail. A state header is needed only where the shard's phase reads
/// one.
pub open spec fn spec_sync_inputs_ok(
    chain: ChainStore,
    epoch_manager: EpochManagerView,
    s: StateSync,
    m0: Map<u64, ShardSyncDownloadView>,
    tracking: Seq<ShardId>,
    sync_hash: CryptoHash,
    now: Timestamp,
) -> bool {
    match chain.spec_header(sync_hash) {
        None => false,
        Some(h) => {
            &&& epoch_manager.spec_epoch(h.epoch_id) is Some
            &&& match chain.spec_header(h.prev_hash) {
                Some(ph) => epoch_manager.spec_epoch(ph.epoch_id) is Some,
                None => false,
            }
            &&& forall|t: int|
                0 <= t < tracking.len() ==> (spec_phase_needs_state_header(
                    spec_entry_or_fresh(m0, #[trigger] tracking[t], now),
                    s,
                    tracking[t],
                    now,
                ) ==> chain.spec_state_header(tracking[t], sync_hash) is Some)
            &&& forall|t: int|
                0 <= t < tracking.len() ==> match s.spec_split_results().get(
                    #[trigger] tracking[t],
                ) {
                    Some(r) => r is Ok,
                    None => true,
                }
        },
    }
}

impl StateSync {
    /// Drive every tracked shard one step: create missing records in the
    /// header phase, advance each shard's phase, and issue the requests
    /// it needs. Returns whether every tracked shard has finished its
    /// sync.
    #[verifier::spinoff_prover]
    #[verifier::rlimit(100)]
    pub fn sync_shards_status(
        &mut self,
        sync_hash: CryptoHash,
        sync_status: &mut HashMap<u64, ShardSyncDownload>,
        chain: &mut ChainStore,
        epoch_manager: &EpochManagerView,
        highest_height_peers: &Vec<PeerId>,
        tracking_shards: Vec<ShardId>,
        now: Timestamp,
        actions: &mut Vec<Action>,
    ) -> (r: Result<bool, SyncError>)
        requires
            old(self).wf(),
            forall|i: int, j: int|
                0 <= i < j < highest_height_peers@.len() ==> highest_height_peers@[i]
                    != highest_height_peers@[j],
            old(chain).state_headers_wf(),
            spec_layouts_compatible(*old(chain), *epoch_manager, sync_hash),
            shard_map_wf(shard_map_view(old(sync_status)@)),
            forall|i: int, j: int|
                0 <= i < j < tracking_shards@.len() ==> tracking_shards@[i]
                    != tracking_shards@[j],
        ensures
            final(self).wf(),
            final(self).spec_timeout() == old(self).spec_timeout(),
            final(self).is_peers_mode() == old(self).is_peers_mode(),
            final(self).spec_last_block_request() == old(self).spec_last_block_request(),
            final(chain).state_headers_wf(),
            forall|h: CryptoHash| final(chain).spec_header(h) == old(chain).spec_header(h),
            forall|h: CryptoHash|
                final(chain).spec_block_exists(h) == old(chain).spec_block_exists(h),
            forall|s: ShardId, h: CryptoHash|
                final(chain).spec_state_header(s, h) == old(chain).spec_state_header(s, h),
            shard_map_wf(shard_map_view(final(sync_status)@)),
            r == Ok::<bool, SyncError>(true) ==> forall|t: int|
                0 <= t < tracking_shards@.len() ==> {
                    let v = shard_map_view(final(sync_status)@);
                    &&& v.contains_key(#[trigger] tracking_shards@[t])
                    &&& v[tracking_shards@[t]].status is StateSyncDone
                },
            r is Ok ==> (spec_parts_done_persisted(
                shard_map_view(old(sync_status)@),
                *old(chain),
                sync_hash,
            ) ==> spec_parts_done_persisted(
                shard_map_view(final(sync_status)@),
                *final(chain),
                sync_hash,
            )),
            final(actions)@.len() >= old(actions)@.len(),
            forall|t: int| 0 <= t < old(actions)@.len() ==> final(actions)@[t] == old(actions)@[t],
            spec_all_quiesced(shard_map_view(old(sync_status)@), *old(self), tracking_shards@, now)
                ==> (r is Err || {
                &&& shard_map_view(final(sync_status)@) == shard_map_view(old(sync_status)@)
                &&& *final(chain) == *old(chain)
                &&& final(actions)@ == old(actions)@
                &&& final(self).spec_apply_results() == old(self).spec_apply_results()
                &&& final(self).spec_split_results() == old(self).spec_split_results()
                &&& final(self).spec_targets() == old(self).spec_targets()
                &&& forall|p: PeerId, s: ShardId|
                    final(self).spec_pending_get(p, s) == old(self).spec_pending_get(p, s)
                &&& r == Ok::<bool, SyncError>(spec_all_done(
                    shard_map_view(old(sync_status)@),
                    tracking_shards@,
                ))
            }),
            forall|k: u64|
                !tracking_shards@.contains(k) ==> (shard_map_view(final(sync_status)@).contains_key(
                    k,
                ) == shard_map_view(old(sync_status)@).contains_key(k) && (shard_map_view(old(sync_status)@).contains_key(k) ==> shard_map_view(final(sync_status)@)[k]
                    == shard_map_view(old(sync_status)@)[k])),
            r is Ok ==> r == Ok::<bool, SyncError>(spec_all_done(
                shard_map_view(final(sync_status)@),
                tracking_shards@,
            )),
            r is Err ==> match r.unwrap_err() {
                SyncError::MissingBlockHeader(h) => old(chain).spec_header(h) is None,
                SyncError::MissingShardLayout(e) => epoch_manager.spec_epoch(e) is None,
                SyncError::MissingEpochHeight(e) => epoch_manager.spec_epoch(e) is None,
                SyncError::MissingStateHeader(s) => tracking_shards@.contains(s) && old(chain).spec_state_header(s, sync_hash) is None,
                SyncError::SplitFailed(s, m) => tracking_shards@.contains(s) && old(self).spec_split_results().get(s) == Some(Err::<Vec<(ShardId, StateRoot)>, String>(m)),
            },
            spec_sync_inputs_ok(
                *old(chain),
                *epoch_manager,
                *old(self),
                shard_map_view(old(sync_status)@),
                tracking_shards@,
                sync_hash,
                now,
            ) ==> r is Ok,
            r is Ok ==> exists|cuts: Seq<int>|
                #![trigger cuts.len()]
                {
                    &&& cuts.len() == tracking_shards@.len() + 1
                    &&& cuts[0] == old(actions)@.len()
                    &&& cuts[tracking_shards@.len() as int] == final(actions)@.len()
                    &&& forall|t: int|
                        0 <= t <= tracking_shards@.len() ==> old(actions)@.len() <= #[trigger] cuts[t]
                            <= final(actions)@.len()
                    &&& forall|t: int|
                        0 <= t < tracking_shards@.len() ==> #[trigger] cuts[t] <= cuts[t + 1]
                    &&& forall|t: int|
                        0 <= t < tracking_shards@.len() ==> {
                            let k = #[trigger] tracking_shards@[t];
                            &&& shard_map_view(final(sync_status)@).contains_key(k)
                            &&& spec_shard_processed(
                                shard_map_view(old(sync_status)@),
                                shard_map_view(final(sync_status)@)[k],
                                final(actions)@.subrange(cuts[t], cuts[t + 1]),
                                *old(self),
                                *old(chain),
                                highest_height_peers@,
                                k,
                                sync_hash,
                                now,
                                epoch_manager.spec_layout_change_pending(),
                            )
                        }
                },
    {
        let prev_hash = match chain.get_block_header(sync_hash) {
            None => {
                return Err(SyncError::MissingBlockHeader(sync_hash));
            },
            Some(h) => h.prev_hash,
        };
        let prev_epoch_id = match chain.get_block_header(prev_hash) {
            None => {
                return Err(SyncError::MissingBlockHeader(prev_hash));
            },
            Some(h) => h.epoch_id,
        };
        let epoch_id = match chain.get_block_header(sync_hash) {
            None => {
                return Err(SyncError::MissingBlockHeader(sync_hash));
            },
            Some(h) => h.epoch_id,
        };
        let prev_shard_layout = match epoch_manager.get_shard_layout(prev_epoch_id) {
            None => {
                return Err(SyncError::MissingShardLayout(prev_epoch_id));
            },
            Some(l) => l,
        };
        let shard_layout = match epoch_manager.get_shard_layout(epoch_id) {
            None => {
                return Err(SyncError::MissingShardLayout(epoch_id));
            },
            Some(l) => l,
        };
        if prev_shard_layout != shard_layout {
            proof {
                assert(false);
            }
            return Err(SyncError::MissingShardLayout(epoch_id));
        }
        let split_states = epoch_manager.will_shard_layout_change();

        let ghost old_ok = spec_parts_done_persisted(
            shard_map_view(old(sync_status)@),
            *old(chain),
            sync_hash,
        );
        let ghost all_q = spec_all_quiesced(
            shard_map_view(old(sync_status)@),
            *old(self),
            tracking_shards@,
            now,
        );
        let ghost mut cuts: Seq<int> = seq![old(actions)@.len() as int];
        let mut all_done = true;
        let n_shards = tracking_shards.len();
        let mut i: usize = 0;
        while i < n_shards
            invariant
                i <= n_shards,
                n_shards == tracking_shards@.len(),
                self.wf(),
                self.spec_timeout() == old(self).spec_timeout(),
                self.is_peers_mode() == old(self).is_peers_mode(),
                self.spec_last_block_request() == old(self).spec_last_block_request(),
                chain.state_headers_wf(),
                forall|h: CryptoHash| chain.spec_header(h) == old(chain).spec_header(h),
                forall|h: CryptoHash|
                    chain.spec_block_exists(h) == old(chain).spec_block_exists(h),
                forall|s: ShardId, h: CryptoHash|
                    chain.spec_state_header(s, h) == old(chain).spec_state_header(s, h),
                forall|a: int, b: int|
                    0 <= a < b < highest_height_peers@.len() ==> highest_height_peers@[a]
                        != highest_height_peers@[b],
                shard_map_wf(shard_map_view(sync_status@)),
                old_ok == spec_parts_done_persisted(
                    shard_map_view(old(sync_status)@),
                    *old(chain),
                    sync_hash,
                ),
                old_ok ==> spec_parts_done_persisted(
                    shard_map_view(sync_status@),
                    *chain,
                    sync_hash,
                ),
                all_done ==> forall|t: int|
                    0 <= t < i ==> {
                        let v = shard_map_view(sync_status@);
                        &&& v.contains_key(#[trigger] tracking_shards@[t])
                        &&& v[tracking_shards@[t]].status is StateSyncDone
                    },
                actions@.len() >= old(actions)@.len(),
                forall|t: int| 0 <= t < old(actions)@.len() ==> actions@[t] == old(actions)@[t],
                all_q == spec_all_quiesced(
                    shard_map_view(old(sync_status)@),
                    *old(self),
                    tracking_shards@,
                    now,
                ),
                all_q ==> {
                    &&& shard_map_view(sync_status@) == shard_map_view(old(sync_status)@)
                    &&& *chain == *old(chain)
                    &&& actions@ == old(actions)@
                    &&& self.spec_apply_results() == old(self).spec_apply_results()
                    &&& self.spec_split_results() == old(self).spec_split_results()
                    &&& self.spec_targets() == old(self).spec_targets()
                    &&& forall|p: PeerId, s: ShardId|
                        self.spec_pending_get(p, s) == old(self).spec_pending_get(p, s)
                    &&& all_done == forall|t: int|
                        0 <= t < i ==> shard_map_view(old(sync_status)@).contains_key(
                            #[trigger] tracking_shards@[t],
                        ) && shard_map_view(old(sync_status)@)[tracking_shards@[t]].status
                            is StateSyncDone
                },
                forall|a: int, b: int|
                    0 <= a < b < n_shards ==> tracking_shards@[a] != tracking_shards@[b],
                split_states == epoch_manager.spec_layout_change_pending(),
                forall|t: int|
                    i <= t < n_shards ==> (shard_map_view(sync_status@).contains_key(
                        #[trigger] tracking_shards@[t],
                    ) == shard_map_view(old(sync_status)@).contains_key(tracking_shards@[t]) && (
                    shard_map_view(old(sync_status)@).contains_key(tracking_shards@[t])
                        ==> shard_map_view(sync_status@)[tracking_shards@[t]] == shard_map_view(
                        old(sync_status)@,
                    )[tracking_shards@[t]])),
                forall|k: u64|
                    !tracking_shards@.contains(k) ==> (shard_map_view(sync_status@).contains_key(k)
                        == shard_map_view(old(sync_status)@).contains_key(k) && (shard_map_view(
                        old(sync_status)@,
                    ).contains_key(k) ==> shard_map_view(sync_status@)[k] == shard_map_view(
                        old(sync_status)@,
                    )[k])),
                forall|t: int|
                    i <= t < n_shards ==> self.spec_apply_results().get(
                        #[trigger] tracking_shards@[t],
                    ) == old(self).spec_apply_results().get(tracking_shards@[t]),
                forall|t: int|
                    i <= t < n_shards ==> self.spec_split_results().get(
                        #[trigger] tracking_shards@[t],
                    ) == old(self).spec_split_results().get(tracking_shards@[t]),
                forall|k: u64|
                    self.spec_split_results().contains_key(k) ==> old(self).spec_split_results().get(k) == Some(self.spec_split_results()[k]),
                forall|p: PeerId, t: int|
                    #![trigger spec_peer_eligible(*self, p, tracking_shards@[t], now)]
                    i <= t < n_shards ==> spec_peer_eligible(*self, p, tracking_shards@[t], now)
                        == spec_peer_eligible(*old(self), p, tracking_shards@[t], now),
                all_done == (forall|t: int|
                    0 <= t < i ==> shard_map_view(sync_status@).contains_key(
                        #[trigger] tracking_shards@[t],
                    ) && shard_map_view(sync_status@)[tracking_shards@[t]].status is StateSyncDone),
                cuts.len() == i + 1,
                cuts[0] == old(actions)@.len(),
                cuts[i as int] == actions@.len(),
                forall|t: int|
                    0 <= t <= i ==> old(actions)@.len() <= #[trigger] cuts[t] <= actions@.len(),
                forall|t: int| 0 <= t < i ==> #[trigger] cuts[t] <= cuts[t + 1],
                forall|t: int|
                    0 <= t < i ==> {
                        let k = #[trigger] tracking_shards@[t];
                        &&& shard_map_view(sync_status@).contains_key(k)
                        &&& spec_shard_processed(
                            shard_map_view(old(sync_status)@),
                            shard_map_view(sync_status@)[k],
                            actions@.subrange(cuts[t], cuts[t + 1]),
                            *old(self),
                            *old(chain),
                            highest_height_peers@,
                            k,
                            sync_hash,
                            now,
                            split_states,
                        )
                    },
            decreases n_shards - i,
        {
            let shard_id = tracking_shards[i];
            let ghost pre_map = sync_status@;
            let ghost pre_chain = *chain;
            let ghost head_actions = actions@;
            let ghost head_self = *self;
            let ghost head_all_done = all_done;
            let mut download_timeout = false;
            let mut run_shard_state_download = false;
            let mut shard_sync_done = false;
            let mut shard_sync_download = match sync_status.remove(&shard_id) {
                Some(s) => s,
                None => {
                    run_shard_state_download = true;
                    ShardSyncDownload::new_download_state_header(now)
                },
            };
            let ghost taken = shard_sync_download@;
            proof {
                if pre_map.contains_key(shard_id) {
                    assert(shard_map_view(pre_map)[shard_id].wf());
                    assert(shard_sync_download@ == shard_map_view(pre_map)[shard_id]);
                }
            }
            match shard_sync_download.status {
                ShardSyncStatus::StateDownloadHeader => {
                    match self.sync_shards_download_header_status(
                        shard_id,
                        &mut shard_sync_download,
                        sync_hash,
                        chain,
                        now,
                    ) {
                        Ok((t, r2)) => {
                            download_timeout = t;
                            run_shard_state_download = r2;
                        },
                        Err(e) => {
                            sync_status.insert(shard_id, shard_sync_download);
                            proof {
                                assert(shard_map_view(sync_status@) =~= shard_map_view(
                                    pre_map,
                                ).insert(shard_id, shard_sync_download@));
                                assert forall|k: u64|
                                    shard_map_view(sync_status@).contains_key(k) implies (
                                #[trigger] shard_map_view(sync_status@)[k]).wf() by {
                                    if k != shard_id {
                                        assert(shard_map_view(pre_map)[k].wf());
                                    }
                                }
                                assert(tracking_shards@[i as int] == shard_id);
                                assert(tracking_shards@.contains(shard_id));
                                assert forall|k: u64|
                                    !tracking_shards@.contains(k) implies (shard_map_view(
                                    sync_status@,
                                ).contains_key(k) == shard_map_view(
                                    old(sync_status)@,
                                ).contains_key(k) && (shard_map_view(
                                    old(sync_status)@,
                                ).contains_key(k) ==> shard_map_view(sync_status@)[k]
                                    == shard_map_view(old(sync_status)@)[k])) by {
                                    assert(k != shard_id);
                                    assert(shard_map_view(sync_status@)[k] == shard_map_view(
                                        pre_map,
                                    )[k]);
                                }
                                let v0x = spec_entry_or_fresh(
                                    shard_map_view(old(sync_status)@),
                                    shard_id,
                                    now,
                                );
                                if !pre_map.contains_key(shard_id) {
                                    assert(taken.downloads =~= spec_fresh_header_view(
                                        now,
                                    ).downloads);
                                    assert(taken =~= spec_fresh_header_view(now));
                                }
                                assert(taken == v0x);
                                assert(head_self.spec_apply_results().get(shard_id) == old(self).spec_apply_results().get(shard_id));
                                if spec_sync_inputs_ok(
                                    *old(chain),
                                    *epoch_manager,
                                    *old(self),
                                    shard_map_view(old(sync_status)@),
                                    tracking_shards@,
                                    sync_hash,
                                    now,
                                ) {
                                    if spec_phase_needs_state_header(
                                        v0x,
                                        *old(self),
                                        tracking_shards@[i as int],
                                        now,
                                    ) {
                                        assert(old(chain).spec_state_header(
                                            tracking_shards@[i as int],
                                            sync_hash,
                                        ) is Some);
                                    }
                                    assert(match old(self).spec_split_results().get(
                                        tracking_shards@[i as int],
                                    ) {
                                        Some(r2) => r2 is Ok,
                                        None => true,
                                    });
                                }
                            }
                            return Err(e);
                        },
                    }
                },
                ShardSyncStatus::StateDownloadParts => {
                    let res = self.sync_shards_download_parts_status(
                        shard_id,
                        &mut shard_sync_download,
                        now,
                    );
                    download_timeout = res.0;
                    run_shard_state_download = res.1;
                },
                ShardSyncStatus::StateDownloadScheduling => {
                    match self.sync_shards_download_scheduling_status(
                        shard_id,
                        &mut shard_sync_download,
                        sync_hash,
                        chain,
                        now,
                        actions,
                    ) {
                        Ok(()) => {},
                        Err(e) => {
                            sync_status.insert(shard_id, shard_sync_download);
                            proof {
                                assert(shard_map_view(sync_status@) =~= shard_map_view(
                                    pre_map,
                                ).insert(shard_id, shard_sync_download@));
                                assert forall|k: u64|
                                    shard_map_view(sync_status@).contains_key(k) implies (
                                #[trigger] shard_map_view(sync_status@)[k]).wf() by {
                                    if k != shard_id {
                                        assert(shard_map_view(pre_map)[k].wf());
                                    }
                                }
                                assert(tracking_shards@[i as int] == shard_id);
                                assert(tracking_shards@.contains(shard_id));
                                assert forall|k: u64|
                                    !tracking_shards@.contains(k) implies (shard_map_view(
                                    sync_status@,
                                ).contains_key(k) == shard_map_view(
                                    old(sync_status)@,
                                ).contains_key(k) && (shard_map_view(
                                    old(sync_status)@,
                                ).contains_key(k) ==> shard_map_view(sync_status@)[k]
                                    == shard_map_view(old(sync_status)@)[k])) by {
                                    assert(k != shard_id);
                                    assert(shard_map_view(sync_status@)[k] == shard_map_view(
                                        pre_map,
                                    )[k]);
                                }
                                let v0x = spec_entry_or_fresh(
                                    shard_map_view(old(sync_status)@),
                                    shard_id,
                                    now,
                                );
                                if !pre_map.contains_key(shard_id) {
                                    assert(taken.downloads =~= spec_fresh_header_view(
                                        now,
                                    ).downloads);
                                    assert(taken =~= spec_fresh_header_view(now));
                                }
                                assert(taken == v0x);
                                assert(head_self.spec_apply_results().get(shard_id) == old(self).spec_apply_results().get(shard_id));
                                if spec_sync_inputs_ok(
                                    *old(chain),
                                    *epoch_manager,
                                    *old(self),
                                    shard_map_view(old(sync_status)@),
                                    tracking_shards@,
                                    sync_hash,
                                    now,
                                ) {
                                    if spec_phase_needs_state_header(
                                        v0x,
                                        *old(self),
                                        tracking_shards@[i as int],
                                        now,
                                    ) {
                                        assert(old(chain).spec_state_header(
                                            tracking_shards@[i as int],
                                            sync_hash,
                                        ) is Some);
                                    }
                                    assert(match old(self).spec_split_results().get(
                                        tracking_shards@[i as int],
                                    ) {
                                        Some(r2) => r2 is Ok,
                                        None => true,
                                    });
                                }
                            }
                            return Err(e);
                        },
                    }
                },
                ShardSyncStatus::StateDownloadApplying => {
                    match self.sync_shards_download_applying_status(
                        shard_id,
                        &mut shard_sync_download,
                        sync_hash,
                        chain,
                        now,
                    ) {
                        Ok(()) => {},
                        Err(e) => {
                            sync_status.insert(shard_id, shard_sync_download);
                            proof {
                                assert(shard_map_view(sync_status@) =~= shard_map_view(
                                    pre_map,
                                ).insert(shard_id, shard_sync_download@));
                                assert forall|k: u64|
                                    shard_map_view(sync_status@).contains_key(k) implies (
                                #[trigger] shard_map_view(sync_status@)[k]).wf() by {
                                    if k != shard_id {
                                        assert(shard_map_view(pre_map)[k].wf());
                                    }
                                }
                                assert(tracking_shards@[i as int] == shard_id);
                                assert(tracking_shards@.contains(shard_id));
                                assert forall|k: u64|
                                    !tracking_shards@.contains(k) implies (shard_map_view(
                                    sync_status@,
                                ).contains_key(k) == shard_map_view(
                                    old(sync_status)@,
                                ).contains_key(k) && (shard_map_view(
                                    old(sync_status)@,
                                ).contains_key(k) ==> shard_map_view(sync_status@)[k]
                                    == shard_map_view(old(sync_status)@)[k])) by {
                                    assert(k != shard_id);
                                    assert(shard_map_view(sync_status@)[k] == shard_map_view(
                                        pre_map,
                                    )[k]);
                                }
                                let v0x = spec_entry_or_fresh(
                                    shard_map_view(old(sync_status)@),
                                    shard_id,
                                    now,
                                );
                                if !pre_map.contains_key(shard_id) {
                                    assert(taken.downloads =~= spec_fresh_header_view(
                                        now,
                                    ).downloads);
                                    assert(taken =~= spec_fresh_header_view(now));
                                }
                                assert(taken == v0x);
                                assert(head_self.spec_apply_results().get(shard_id) == old(self).spec_apply_results().get(shard_id));
                                if spec_sync_inputs_ok(
                                    *old(chain),
                                    *epoch_manager,
                                    *old(self),
                                    shard_map_view(old(sync_status)@),
                                    tracking_shards@,
                                    sync_hash,
                                    now,
                                ) {
                                    if spec_phase_needs_state_header(
                                        v0x,
                                        *old(self),
                                        tracking_shards@[i as int],
                                        now,
                                    ) {
                                        assert(old(chain).spec_state_header(
                                            tracking_shards@[i as int],
                                            sync_hash,
                                        ) is Some);
                                    }
                                    assert(match old(self).spec_split_results().get(
                                        tracking_shards@[i as int],
                                    ) {
                                        Some(r2) => r2 is Ok,
                                        None => true,
                                    });
                                }
                            }
                            return Err(e);
                        },
                    }
                },
                ShardSyncStatus::StateDownloadComplete => {
                    shard_sync_done = self.sync_shards_download_complete_status(
                        split_states,
                        &mut shard_sync_download,
                    );
                },
                ShardSyncStatus::StateSplitScheduling => {
                    self.sync_shards_state_split_scheduling_status(
                        shard_id,
                        &mut shard_sync_download,
                        sync_hash,
                        actions,
                    );
                },
                ShardSyncStatus::StateSplitApplying => {
                    match self.sync_shards_state_split_applying_status(
                        shard_id,
                        &mut shard_sync_download,
                        sync_hash,
                    ) {
                        Ok(done) => {
                            shard_sync_done = done;
                        },
                        Err(e) => {
                            sync_status.insert(shard_id, shard_sync_download);
                            proof {
                                assert(shard_map_view(sync_status@) =~= shard_map_view(
                                    pre_map,
                                ).insert(shard_id, shard_sync_download@));
                                assert forall|k: u64|
                                    shard_map_view(sync_status@).contains_key(k) implies (
                                #[trigger] shard_map_view(sync_status@)[k]).wf() by {
                                    if k != shard_id {
                                        assert(shard_map_view(pre_map)[k].wf());
                                    }
                                }
                                assert(tracking_shards@[i as int] == shard_id);
                                assert(tracking_shards@.contains(shard_id));
                                assert forall|k: u64|
                                    !tracking_shards@.contains(k) implies (shard_map_view(
                                    sync_status@,
                                ).contains_key(k) == shard_map_view(
                                    old(sync_status)@,
                                ).contains_key(k) && (shard_map_view(
                                    old(sync_status)@,
                                ).contains_key(k) ==> shard_map_view(sync_status@)[k]
                                    == shard_map_view(old(sync_status)@)[k])) by {
                                    assert(k != shard_id);
                                    assert(shard_map_view(sync_status@)[k] == shard_map_view(
                                        pre_map,
                                    )[k]);
                                }
                                let v0x = spec_entry_or_fresh(
                                    shard_map_view(old(sync_status)@),
                                    shard_id,
                                    now,
                                );
                                if !pre_map.contains_key(shard_id) {
                                    assert(taken.downloads =~= spec_fresh_header_view(
                                        now,
                                    ).downloads);
                                    assert(taken =~= spec_fresh_header_view(now));
                                }
                                assert(taken == v0x);
                                assert(head_self.spec_apply_results().get(shard_id) == old(self).spec_apply_results().get(shard_id));
                                if spec_sync_inputs_ok(
                                    *old(chain),
                                    *epoch_manager,
                                    *old(self),
                                    shard_map_view(old(sync_status)@),
                                    tracking_shards@,
                                    sync_hash,
                                    now,
                                ) {
                                    if spec_phase_needs_state_header(
                                        v0x,
                                        *old(self),
                                        tracking_shards@[i as int],
                                        now,
                                    ) {
                                        assert(old(chain).spec_state_header(
                                            tracking_shards@[i as int],
                                            sync_hash,
                                        ) is Some);
                                    }
                                    assert(match old(self).spec_split_results().get(
                                        tracking_shards@[i as int],
                                    ) {
                                        Some(r2) => r2 is Ok,
                                        None => true,
                                    });
                                }
                            }
                            return Err(e);
                        },
                    }
                },
                ShardSyncStatus::StateSyncDone => {
                    shard_sync_done = true;
                },
            }
            all_done = all_done && shard_sync_done;

            let ghost mid = shard_sync_download@;
            let ghost cut_mid = actions@.len() as int;
            let ghost mid_self = *self;
            if run_shard_state_download {
                match self.request_shard(
                    shard_id,
                    chain,
                    epoch_manager,
                    sync_hash,
                    &mut shard_sync_download,
                    highest_height_peers,
                    now,
                    actions,
                ) {
                    Ok(()) => {},
                    Err(e) => {
                        sync_status.insert(shard_id, shard_sync_download);
                            proof {
                                if taken.status is StateDownloadParts {
                                    assert(exists|j: int|
                                        0 <= j < taken.downloads.len() && (
                                        #[trigger] spec_part_retry(
                                            taken.downloads[j],
                                            now,
                                            old(self).spec_timeout(),
                                        )).run_me) by {
                                        let jm = choose|j: int|
                                            0 <= j < mid.downloads.len() && (
                                            #[trigger] mid.downloads[j]).run_me;
                                        assert(mid.downloads[jm] == spec_part_retry(
                                            taken.downloads[jm],
                                            now,
                                            old(self).spec_timeout(),
                                        ));
                                    }
                                }
                                assert(shard_map_view(sync_status@) =~= shard_map_view(
                                    pre_map,
                                ).insert(shard_id, shard_sync_download@));
                                assert forall|k: u64|
                                    shard_map_view(sync_status@).contains_key(k) implies (
                                #[trigger] shard_map_view(sync_status@)[k]).wf() by {
                                    if k != shard_id {
                                        assert(shard_map_view(pre_map)[k].wf());
                                    }
                                }
                            }
                                proof {
                                assert(tracking_shards@[i as int] == shard_id);
                                assert(tracking_shards@.contains(shard_id));
                                assert forall|k: u64|
                                    !tracking_shards@.contains(k) implies (shard_map_view(
                                    sync_status@,
                                ).contains_key(k) == shard_map_view(
                                    old(sync_status)@,
                                ).contains_key(k) && (shard_map_view(
                                    old(sync_status)@,
                                ).contains_key(k) ==> shard_map_view(sync_status@)[k]
                                    == shard_map_view(old(sync_status)@)[k])) by {
                                    assert(k != shard_id);
                                    assert(shard_map_view(sync_status@)[k] == shard_map_view(
                                        pre_map,
                                    )[k]);
                                }
                                let v0x = spec_entry_or_fresh(
                                    shard_map_view(old(sync_status)@),
                                    shard_id,
                                    now,
                                );
                                if !pre_map.contains_key(shard_id) {
                                    assert(taken.downloads =~= spec_fresh_header_view(
                                        now,
                                    ).downloads);
                                    assert(taken =~= spec_fresh_header_view(now));
                                }
                                assert(taken == v0x);
                                assert(head_self.spec_apply_results().get(shard_id) == old(self).spec_apply_results().get(shard_id));
                                if spec_sync_inputs_ok(
                                    *old(chain),
                                    *epoch_manager,
                                    *old(self),
                                    shard_map_view(old(sync_status)@),
                                    tracking_shards@,
                                    sync_hash,
                                    now,
                                ) {
                                    if spec_phase_needs_state_header(
                                        v0x,
                                        *old(self),
                                        tracking_shards@[i as int],
                                        now,
                                    ) {
                                        assert(old(chain).spec_state_header(
                                            tracking_shards@[i as int],
                                            sync_hash,
                                        ) is Some);
                                    }
                                    assert(match old(self).spec_split_results().get(
                                        tracking_shards@[i as int],
                                    ) {
                                        Some(r2) => r2 is Ok,
                                        None => true,
                                    });
                                }
                                }
                        return Err(e);
                    },
                }
            }
            sync_status.insert(shard_id, shard_sync_download);
            proof {
                assert(shard_map_view(sync_status@) =~= shard_map_view(pre_map).insert(
                    shard_id,
                    shard_sync_download@,
                ));
                assert forall|k: u64|
                    shard_map_view(sync_status@).contains_key(k) implies (#[trigger] shard_map_view(
                    sync_status@,
                )[k]).wf() by {
                    if k != shard_id {
                        assert(shard_map_view(pre_map)[k].wf());
                    }
                }
                if old_ok {
                    assert forall|s: u64, j: int|
                        #![trigger shard_map_view(sync_status@)[s].downloads[j]]
                        shard_map_view(sync_status@).contains_key(s) && shard_map_view(
                            sync_status@,
                        )[s].status is StateDownloadParts && 0 <= j < shard_map_view(
                            sync_status@,
                        )[s].downloads.len() && shard_map_view(
                            sync_status@,
                        )[s].downloads[j].done implies chain.spec_part(
                        sync_hash,
                        s,
                        j as u64,
                    ) is Some by {
                        if s == shard_id {
                            let t0 = taken.downloads[j];
                            let t1 = mid.downloads[j];
                            let t2 = shard_map_view(sync_status@)[s].downloads[j];
                            if pre_map.contains_key(shard_id) {
                                let tp = shard_map_view(pre_map)[s].downloads[j];
                                assert(taken == shard_map_view(pre_map)[s]);
                            }
                        } else {
                            assert(shard_map_view(pre_map)[s].downloads[j] == shard_map_view(
                                sync_status@,
                            )[s].downloads[j]);
                            assert(chain.spec_part(sync_hash, s, j as u64) == pre_chain.spec_part(
                                sync_hash,
                                s,
                                j as u64,
                            ));
                        }
                    }
                }
                assert(shard_sync_done == (shard_sync_download@.status is StateSyncDone));
                let vcur = shard_map_view(sync_status@);
                if head_all_done && shard_sync_done {
                    assert forall|t: int| 0 <= t < i + 1 implies vcur.contains_key(
                        #[trigger] tracking_shards@[t],
                    ) && vcur[tracking_shards@[t]].status is StateSyncDone by {
                        if t < i {
                            assert(tracking_shards@[t] != shard_id);
                            assert(shard_map_view(pre_map).contains_key(tracking_shards@[t]));
                            assert(vcur[tracking_shards@[t]] == shard_map_view(
                                pre_map,
                            )[tracking_shards@[t]]);
                        }
                    }
                    assert(all_done == (forall|t: int|
                        0 <= t < i + 1 ==> vcur.contains_key(#[trigger] tracking_shards@[t])
                            && vcur[tracking_shards@[t]].status is StateSyncDone));
                } else {
                    assert(!all_done);
                    if !head_all_done {
                        let w = choose|t: int|
                            !(0 <= t < i ==> shard_map_view(pre_map).contains_key(
                                #[trigger] tracking_shards@[t],
                            ) && shard_map_view(pre_map)[tracking_shards@[t]].status
                                is StateSyncDone);
                        assert(tracking_shards@[w] != shard_id);
                        assert(!(0 <= w < i + 1 ==> vcur.contains_key(tracking_shards@[w])
                            && vcur[tracking_shards@[w]].status is StateSyncDone));
                    } else {
                        assert(!(vcur[tracking_shards@[i as int]].status is StateSyncDone));
                    }
                    assert(all_done == (forall|t: int|
                        0 <= t < i + 1 ==> vcur.contains_key(#[trigger] tracking_shards@[t])
                            && vcur[tracking_shards@[t]].status is StateSyncDone));
                }
                if all_q {
                    let m0 = shard_map_view(old(sync_status)@);
                    assert(tracking_shards@[i as int] == shard_id);
                    assert(m0.contains_key(shard_id) && spec_quiesced_entry(
                        m0[shard_id],
                        *old(self),
                        shard_id,
                        now,
                    ));
                    assert(shard_map_view(pre_map) == m0);
                    assert(pre_map.contains_key(shard_id));
                    assert(taken == m0[shard_id]);
                    match taken.status {
                        ShardSyncStatus::StateDownloadHeader => {
                            let d0 = taken.downloads[0];
                            assert(spec_header_retry(d0, now, old(self).spec_timeout()) == d0);
                            assert(shard_sync_download@.downloads =~= taken.downloads);
                        },
                        ShardSyncStatus::StateDownloadParts => {
                            assert(!(forall|j: int|
                                0 <= j < taken.downloads.len() ==> (
                                #[trigger] taken.downloads[j]).done));
                            assert forall|j: int|
                                0 <= j < taken.downloads.len() implies shard_sync_download@.downloads[j]
                                == taken.downloads[j] by {
                                assert(spec_part_retry(
                                    taken.downloads[j],
                                    now,
                                    old(self).spec_timeout(),
                                ) == taken.downloads[j]);
                            }
                            assert(shard_sync_download@.downloads =~= taken.downloads);
                        },
                        _ => {},
                    }
                    assert(shard_sync_download@ =~= taken);
                    assert(shard_map_view(sync_status@) =~= m0);
                    assert(shard_sync_done == (taken.status is StateSyncDone));
                    if head_all_done && shard_sync_done {
                        assert forall|t: int| 0 <= t < i + 1 implies m0.contains_key(
                            #[trigger] tracking_shards@[t],
                        ) && m0[tracking_shards@[t]].status is StateSyncDone by {
                            if t < i {
                            } else {
                            }
                        }
                        assert(all_done == (forall|t: int|
                            0 <= t < i + 1 ==> m0.contains_key(#[trigger] tracking_shards@[t])
                                && m0[tracking_shards@[t]].status is StateSyncDone));
                    } else {
                        assert(!all_done);
                        if !head_all_done {
                            assert(!(forall|t: int|
                                0 <= t < i ==> m0.contains_key(#[trigger] tracking_shards@[t])
                                    && m0[tracking_shards@[t]].status is StateSyncDone));
                            let w = choose|t: int|
                                !(0 <= t < i ==> m0.contains_key(#[trigger] tracking_shards@[t])
                                    && m0[tracking_shards@[t]].status is StateSyncDone);
                            assert(!(0 <= w < i + 1 ==> m0.contains_key(tracking_shards@[w])
                                && m0[tracking_shards@[w]].status is StateSyncDone));
                        } else {
                            assert(!(m0[tracking_shards@[i as int]].status is StateSyncDone));
                        }
                        assert(all_done == (forall|t: int|
                            0 <= t < i + 1 ==> m0.contains_key(#[trigger] tracking_shards@[t])
                                && m0[tracking_shards@[t]].status is StateSyncDone));
                    }
                }
                // The record of this shard is the documented step of its
                // old one, with its slice of the emitted actions.
                let m0full = shard_map_view(old(sync_status)@);
                let v0 = if m0full.contains_key(shard_id) {
                    m0full[shard_id]
                } else {
                    spec_fresh_header_view(now)
                };
                if !pre_map.contains_key(shard_id) {
                    assert(taken.downloads =~= spec_fresh_header_view(now).downloads);
                    assert(taken =~= spec_fresh_header_view(now));
                } else {
                    assert(tracking_shards@[i as int] == shard_id);
                    assert(taken == m0full[shard_id]);
                }
                assert(taken == v0);
                let cstart = cuts[i as int];
                let cend = actions@.len() as int;
                let whole = actions@.subrange(cstart, cend);
                let n1 = cut_mid - cstart;
                assert(whole.take(n1) =~= actions@.subrange(cstart, cut_mid));
                assert(whole.skip(n1) =~= actions@.subrange(cut_mid, cend));
                assert(v0 == spec_entry_or_fresh(m0full, shard_id, now));
                assert(spec_phase_step(
                    spec_entry_or_fresh(m0full, shard_id, now),
                    mid,
                    whole.take(n1),
                    *old(self),
                    *old(chain),
                    shard_id,
                    sync_hash,
                    now,
                    split_states,
                )) by {
                    assert(head_self.spec_apply_results().get(shard_id) == old(self).spec_apply_results().get(shard_id));
                    assert(head_self.spec_split_results().get(shard_id) == old(self).spec_split_results().get(shard_id));
                    if taken.status is StateDownloadScheduling {
                        assert(whole.take(n1) =~= seq![
                            Action::ScheduleApplyStateParts {
                                shard_id,
                                sync_hash,
                                num_parts: old(chain).spec_state_header(
                                    shard_id,
                                    sync_hash,
                                ).unwrap().num_parts,
                            },
                        ]);
                    } else if taken.status is StateSplitScheduling {
                        assert(whole.take(n1) =~= seq![
                            Action::ScheduleStateSplit { shard_id, sync_hash },
                        ]);
                    } else {
                        assert(whole.take(n1) =~= Seq::<Action>::empty());
                    }
                }
                if taken.status is StateDownloadParts && mid.status is StateDownloadParts {
                    assert(run_shard_state_download == (exists|j: int|
                        0 <= j < mid.downloads.len() && (#[trigger] mid.downloads[j]).run_me)) by {
                        if run_shard_state_download {
                            let jw = choose|j: int|
                                0 <= j < taken.downloads.len() && (#[trigger] spec_part_retry(
                                    taken.downloads[j],
                                    now,
                                    old(self).spec_timeout(),
                                )).run_me;
                            assert(mid.downloads[jw] == spec_part_retry(
                                taken.downloads[jw],
                                now,
                                old(self).spec_timeout(),
                            ));
                            assert(mid.downloads[jw].run_me);
                        }
                        if exists|j: int|
                            0 <= j < mid.downloads.len() && (#[trigger] mid.downloads[j]).run_me {
                            let jm = choose|j: int|
                                0 <= j < mid.downloads.len() && (#[trigger] mid.downloads[j]).run_me;
                            assert(mid.downloads[jm] == spec_part_retry(
                                taken.downloads[jm],
                                now,
                                old(self).spec_timeout(),
                            ));
                            assert(spec_part_retry(
                                taken.downloads[jm],
                                now,
                                old(self).spec_timeout(),
                            ).run_me);
                        }
                    }
                }
                assert(run_shard_state_download == spec_dispatch_decided(v0, mid));
                assert(spec_shard_dispatch(
                    run_shard_state_download,
                    mid,
                    shard_sync_download@,
                    whole.skip(n1),
                    *old(self),
                    highest_height_peers@,
                    shard_id,
                    sync_hash,
                    now,
                )) by {
                    assert forall|p: PeerId|
                        spec_peer_eligible(mid_self, p, shard_id, now) == spec_peer_eligible(
                            *old(self),
                            p,
                            shard_id,
                            now,
                        ) by {
                        assert(spec_peer_eligible(head_self, p, tracking_shards@[i as int], now)
                            == spec_peer_eligible(*old(self), p, tracking_shards@[i as int], now));
                        assert(head_self.spec_pending_get(p, shard_id) == mid_self.spec_pending_get(
                            p,
                            shard_id,
                        ));
                    }
                    if !run_shard_state_download {
                        assert(whole.skip(n1) =~= Seq::<Action>::empty());
                        assert(shard_sync_download@ == mid);
                    } else if mid.status is StateDownloadHeader {
                        if exists|p: PeerId|
                            #![auto]
                            highest_height_peers@.contains(p) && spec_peer_eligible(
                                *old(self),
                                p,
                                shard_id,
                                now,
                            ) {
                            let pw = choose|p: PeerId|
                                #![auto]
                                highest_height_peers@.contains(p) && spec_peer_eligible(
                                    *old(self),
                                    p,
                                    shard_id,
                                    now,
                                );
                            assert(spec_peer_eligible(mid_self, pw, shard_id, now));
                            let d1h = shard_sync_download.downloads@[0];
                            assert(spec_peer_eligible(*old(self), d1h.last_target.unwrap(), shard_id, now));
                            assert(whole.skip(n1) =~= seq![
                                Action::StateRequestHeader {
                                    shard_id,
                                    sync_hash,
                                    peer_id: d1h.last_target.unwrap(),
                                },
                            ]);
                        } else {
                            assert forall|p: PeerId|
                                highest_height_peers@.contains(p) implies !spec_peer_eligible(
                                mid_self,
                                p,
                                shard_id,
                                now,
                            ) by {}
                            assert(whole.skip(n1) =~= Seq::<Action>::empty());
                            assert(shard_sync_download@ == mid);
                        }
                    } else if mid.status is StateDownloadParts {
                        if exists|p: PeerId|
                            #![auto]
                            highest_height_peers@.contains(p) && spec_peer_eligible(
                                *old(self),
                                p,
                                shard_id,
                                now,
                            ) {
                            let pw = choose|p: PeerId|
                                #![auto]
                                highest_height_peers@.contains(p) && spec_peer_eligible(
                                    *old(self),
                                    p,
                                    shard_id,
                                    now,
                                );
                            assert(spec_peer_eligible(mid_self, pw, shard_id, now));
                            let (cands0, b0) = choose|cands: Seq<PeerId>, b: int|
                                #[trigger] spec_parts_pool_dispatch(
                                    cands,
                                    b,
                                    highest_height_peers@,
                                    mid_self,
                                    *self,
                                    mid.downloads,
                                    shard_sync_download.downloads@,
                                    whole.skip(n1),
                                    shard_id,
                                    sync_hash,
                                    now,
                                );
                            assert(spec_parts_pool_dispatch(
                                cands0,
                                b0,
                                highest_height_peers@,
                                mid_self,
                                *self,
                                mid.downloads,
                                shard_sync_download.downloads@,
                                whole.skip(n1),
                                shard_id,
                                sync_hash,
                                now,
                            ));
                            assert forall|a: int|
                                0 <= a < cands0.len() implies highest_height_peers@.contains(
                                #[trigger] cands0[a],
                            ) && spec_peer_eligible(*old(self), cands0[a], shard_id, now) by {}
                            assert forall|p: PeerId|
                                highest_height_peers@.contains(p) && spec_peer_eligible(
                                    *old(self),
                                    p,
                                    shard_id,
                                    now,
                                ) implies cands0.contains(p) by {
                                assert(spec_peer_eligible(mid_self, p, shard_id, now));
                            }
                            assert(mid_self.is_peers_mode() == old(self).is_peers_mode());
                            // Mention the witness terms the quantifier
                            // matches on.
                            let w0 = spec_count_armed(mid.downloads, b0);
                            let w1 = cands0.len();
                            assert(shard_sync_download@.status is StateDownloadParts);
                        } else {
                            assert forall|p: PeerId|
                                highest_height_peers@.contains(p) implies !spec_peer_eligible(
                                mid_self,
                                p,
                                shard_id,
                                now,
                            ) by {}
                            assert(whole.skip(n1) =~= Seq::<Action>::empty());
                            assert(shard_sync_download@ == mid);
                            let ec = Seq::<PeerId>::empty();
                            let w0 = spec_count_armed(mid.downloads, 0);
                            let w1 = ec.len();
                            assert(spec_parts_dispatch_to(
                                0,
                                mid.downloads,
                                shard_sync_download.downloads@,
                                whole.skip(n1),
                                shard_id,
                                sync_hash,
                            ));
                            assert(spec_count_armed(mid.downloads, 0) == MAX_STATE_PART_REQUEST
                                * ec.len());
                        }
                    } else {
                        assert(whole.skip(n1) =~= Seq::<Action>::empty());
                        assert(shard_sync_download@ == mid);
                    }
                }
                assert(0 <= n1 <= whole.len());
                assert(spec_shard_dispatch(
                    spec_dispatch_decided(spec_entry_or_fresh(m0full, shard_id, now), mid),
                    mid,
                    shard_sync_download@,
                    whole.skip(n1),
                    *old(self),
                    highest_height_peers@,
                    shard_id,
                    sync_hash,
                    now,
                ));
                assert(spec_shard_processed(
                    m0full,
                    shard_sync_download@,
                    whole,
                    *old(self),
                    *old(chain),
                    highest_height_peers@,
                    shard_id,
                    sync_hash,
                    now,
                    split_states,
                ));
                assert forall|p: PeerId, t: int|
                    #![trigger spec_peer_eligible(*self, p, tracking_shards@[t], now)]
                    i + 1 <= t < n_shards implies spec_peer_eligible(
                    *self,
                    p,
                    tracking_shards@[t],
                    now,
                ) == spec_peer_eligible(*old(self), p, tracking_shards@[t], now) by {
                    let k2 = tracking_shards@[t];
                    assert(k2 != shard_id);
                    assert(spec_peer_eligible(head_self, p, k2, now) == spec_peer_eligible(
                        *old(self),
                        p,
                        k2,
                        now,
                    ));
                    assert(head_self.spec_pending_get(p, k2) == mid_self.spec_pending_get(p, k2));
                    if self.is_peers_mode() {
                        if run_shard_state_download {
                            assert(self.spec_pending_get(p, k2) == spec_swept_entry(
                                mid_self.spec_pending_get(p, k2),
                                now,
                            ));
                        } else {
                            assert(self.spec_pending_get(p, k2) == mid_self.spec_pending_get(
                                p,
                                k2,
                            ));
                        }
                    }
                }
                cuts = cuts.push(cend);
                assert forall|t: int|
                    0 <= t < i + 1 implies {
                    let k = #[trigger] tracking_shards@[t];
                    &&& shard_map_view(sync_status@).contains_key(k)
                    &&& spec_shard_processed(
                        shard_map_view(old(sync_status)@),
                        shard_map_view(sync_status@)[k],
                        actions@.subrange(cuts[t], cuts[t + 1]),
                        *old(self),
                        *old(chain),
                        highest_height_peers@,
                        k,
                        sync_hash,
                        now,
                        split_states,
                    )
                } by {
                    if t < i {
                        assert(tracking_shards@[t] != shard_id);
                        assert(shard_map_view(sync_status@)[tracking_shards@[t]] == shard_map_view(
                            pre_map,
                        )[tracking_shards@[t]]);
                        assert(actions@.subrange(cuts[t], cuts[t + 1])
                            =~= head_actions.subrange(cuts[t], cuts[t + 1]));
                    } else {
                        assert(actions@.subrange(cuts[t], cuts[t + 1]) == whole);
                    }
                }
            }
            i = i + 1;
        }
        Ok(all_done)
    }
}


/// Whether the sync block must be requested now: immediately when it was
/// never requested, and again once the timeout has elapsed.
pub open spec fn spec_should_request_block(s: StateSync, now: Timestamp) -> bool {
    match s.spec_last_block_request() {
        None => true,
        Some(t) => now >= t + s.spec_timeout(),
    }
}

impl StateSync {
    /// The main step, called periodically: checks the sync block,
    /// ingests this tick's fetched-part outcomes, advances every tracked
    /// shard, issues the requests that are due, and reports whether the
    /// sync is complete, needs the sync block, or is still in progress.
    ///
    /// With no tracked shards the outcome depends on the sync block
    /// alone. The sync is `Completed` only when the sync block is here
    /// and every tracked shard has finished. A tick that returns
    /// successfully keeps every part marked done persisted in the parts
    /// column, as long as each incoming success reports a persisted
    /// part.
    pub fn run(
        &mut self,
        sync_hash: CryptoHash,
        sync_status: &mut HashMap<u64, ShardSyncDownload>,
        chain: &mut ChainStore,
        epoch_manager: &EpochManagerView,
        highest_height_peers: &Vec<PeerId>,
        tracking_shards: Vec<ShardId>,
        now: Timestamp,
        incoming: Vec<StateSyncGetPartResult>,
        actions: &mut Vec<Action>,
    ) -> (r: Result<StateSyncResult, SyncError>)
        requires
            old(self).wf(),
            forall|i: int, j: int|
                0 <= i < j < highest_height_peers@.len() ==> highest_height_peers@[i]
                    != highest_height_peers@[j],
            old(chain).state_headers_wf(),
            spec_layouts_compatible(*old(chain), *epoch_manager, sync_hash),
            shard_map_wf(shard_map_view(old(sync_status)@)),
            spec_ok_results_persisted(incoming@, *old(chain)),
            forall|i: int, j: int|
                0 <= i < j < tracking_shards@.len() ==> tracking_shards@[i]
                    != tracking_shards@[j],
        ensures
            final(self).wf(),
            final(self).spec_timeout() == old(self).spec_timeout(),
            final(self).is_peers_mode() == old(self).is_peers_mode(),
            final(chain).state_headers_wf(),
            forall|h: CryptoHash| final(chain).spec_header(h) == old(chain).spec_header(h),
            forall|h: CryptoHash|
                final(chain).spec_block_exists(h) == old(chain).spec_block_exists(h),
            forall|s: ShardId, h: CryptoHash|
                final(chain).spec_state_header(s, h) == old(chain).spec_state_header(s, h),
            shard_map_wf(shard_map_view(final(sync_status)@)),
            match old(chain).spec_header(sync_hash) {
                None => {
                    &&& r == Err::<StateSyncResult, SyncError>(SyncError::MissingBlockHeader(
                        sync_hash,
                    ))
                    &&& final(sync_status)@ == old(sync_status)@
                    &&& *final(chain) == *old(chain)
                    &&& *final(self) == *old(self)
                },
                Some(h) => {
                    let have = old(chain).spec_block_exists(h.prev_hash);
                    &&& (tracking_shards@.len() == 0 ==> {
                        &&& final(sync_status)@ == old(sync_status)@
                        &&& *final(chain) == *old(chain)
                        &&& (have ==> r == Ok::<StateSyncResult, SyncError>(
                            StateSyncResult::Completed,
                        ))
                        &&& (!have ==> r == Ok::<StateSyncResult, SyncError>(
                            if spec_should_request_block(*old(self), now) {
                                StateSyncResult::RequestBlock
                            } else {
                                StateSyncResult::InProgress
                            },
                        ))
                    })
                    &&& (r == Ok::<StateSyncResult, SyncError>(StateSyncResult::Completed) ==> have
                        && forall|t: int|
                        0 <= t < tracking_shards@.len() ==> {
                            let v = shard_map_view(final(sync_status)@);
                            &&& v.contains_key(#[trigger] tracking_shards@[t])
                            &&& v[tracking_shards@[t]].status is StateSyncDone
                        })
                    &&& (r == Ok::<StateSyncResult, SyncError>(StateSyncResult::RequestBlock)
                        ==> !have && spec_should_request_block(*old(self), now))
                    &&& (r is Ok && !have && spec_should_request_block(*old(self), now) ==> r
                        == Ok::<StateSyncResult, SyncError>(StateSyncResult::RequestBlock))
                },
            },
            r is Ok ==> (spec_parts_done_persisted(
                shard_map_view(old(sync_status)@),
                *old(chain),
                sync_hash,
            ) ==> spec_parts_done_persisted(
                shard_map_view(final(sync_status)@),
                *final(chain),
                sync_hash,
            )),
            r is Err ==> match r.unwrap_err() {
                SyncError::MissingBlockHeader(h) => old(chain).spec_header(h) is None,
                SyncError::MissingShardLayout(e) => epoch_manager.spec_epoch(e) is None,
                SyncError::MissingEpochHeight(e) => epoch_manager.spec_epoch(e) is None,
                SyncError::MissingStateHeader(s) => tracking_shards@.contains(s) && old(chain).spec_state_header(s, sync_hash) is None,
                SyncError::SplitFailed(s, m) => tracking_shards@.contains(s) && old(self).spec_split_results().get(s) == Some(Err::<Vec<(ShardId, StateRoot)>, String>(m)),
            },
            spec_sync_inputs_ok(
                *old(chain),
                *epoch_manager,
                *old(self),
                spec_process_part_results(shard_map_view(old(sync_status)@), incoming@, sync_hash),
                tracking_shards@,
                sync_hash,
                now,
            ) ==> r is Ok,
            (r is Ok && tracking_shards@.len() > 0) ==> {
                let h = old(chain).spec_header(sync_hash).unwrap();
                let have = old(chain).spec_block_exists(h.prev_hash);
                r == Ok::<StateSyncResult, SyncError>(
                    if have && spec_all_done(shard_map_view(final(sync_status)@), tracking_shards@) {
                        StateSyncResult::Completed
                    } else if !have && spec_should_request_block(*old(self), now) {
                        StateSyncResult::RequestBlock
                    } else {
                        StateSyncResult::InProgress
                    },
                )
            },
            (r is Ok && tracking_shards@.len() > 0) ==> exists|cuts: Seq<int>|
                #![trigger cuts.len()]
                {
                    let m1 = spec_process_part_results(
                        shard_map_view(old(sync_status)@),
                        incoming@,
                        sync_hash,
                    );
                    &&& cuts.len() == tracking_shards@.len() + 1
                    &&& cuts[0] == old(actions)@.len()
                    &&& cuts[tracking_shards@.len() as int] == final(actions)@.len()
                    &&& forall|t: int|
                        0 <= t <= tracking_shards@.len() ==> old(actions)@.len() <= #[trigger] cuts[t]
                            <= final(actions)@.len()
                    &&& forall|t: int|
                        0 <= t < tracking_shards@.len() ==> #[trigger] cuts[t] <= cuts[t + 1]
                    &&& forall|t: int|
                        0 <= t < tracking_shards@.len() ==> {
                            let k = #[trigger] tracking_shards@[t];
                            &&& shard_map_view(final(sync_status)@).contains_key(k)
                            &&& spec_shard_processed(
                                m1,
                                shard_map_view(final(sync_status)@)[k],
                                final(actions)@.subrange(cuts[t], cuts[t + 1]),
                                *old(self),
                                *old(chain),
                                highest_height_peers@,
                                k,
                                sync_hash,
                                now,
                                epoch_manager.spec_layout_change_pending(),
                            )
                        }
                },
            (incoming@.len() == 0 && spec_quiesced_block(*old(self), *old(chain), sync_hash, now)
                && spec_all_quiesced(
                shard_map_view(old(sync_status)@),
                *old(self),
                tracking_shards@,
                now,
            )) ==> (r is Err || {
                &&& shard_map_view(final(sync_status)@) == shard_map_view(old(sync_status)@)
                &&& *final(chain) == *old(chain)
                &&& final(actions)@ == old(actions)@
                &&& final(self).spec_last_block_request() == old(self).spec_last_block_request()
                &&& final(self).spec_apply_results() == old(self).spec_apply_results()
                &&& final(self).spec_split_results() == old(self).spec_split_results()
                &&& final(self).spec_targets() == old(self).spec_targets()
                &&& forall|p: PeerId, s: ShardId|
                    final(self).spec_pending_get(p, s) == old(self).spec_pending_get(p, s)
                &&& r == Ok::<StateSyncResult, SyncError>(
                    if old(chain).spec_block_exists(old(chain).spec_header(sync_hash).unwrap().prev_hash)
                        && spec_all_done(shard_map_view(old(sync_status)@), tracking_shards@) {
                        StateSyncResult::Completed
                    } else {
                        StateSyncResult::InProgress
                    },
                )
            }),
            final(actions)@.len() >= old(actions)@.len(),
            forall|t: int| 0 <= t < old(actions)@.len() ==> final(actions)@[t] == old(actions)@[t],
    {
        let prev_hash = match chain.get_block_header(sync_hash) {
            None => {
                return Err(SyncError::MissingBlockHeader(sync_hash));
            },
            Some(h) => h.prev_hash,
        };
        if tracking_shards.is_empty() {
            let (request_block, have_block) = self.sync_block_status(&prev_hash, chain, now);
            return if !have_block {
                if request_block {
                    Ok(StateSyncResult::RequestBlock)
                } else {
                    Ok(StateSyncResult::InProgress)
                }
            } else {
                Ok(StateSyncResult::Completed)
            };
        }
        let ghost incoming_view = incoming@;
        let ghost map0 = shard_map_view(sync_status@);
        self.process_downloaded_parts(sync_hash, sync_status, incoming);
        proof {
            lemma_ingestion_keeps_wf(map0, incoming_view, sync_hash);
            if spec_parts_done_persisted(map0, *chain, sync_hash) {
                lemma_ingestion_keeps_parts_persisted(map0, incoming_view, *chain, sync_hash);
            }
        }
        let all_done = match self.sync_shards_status(
            sync_hash,
            sync_status,
            chain,
            epoch_manager,
            highest_height_peers,
            tracking_shards,
            now,
            actions,
        ) {
            Ok(b) => b,
            Err(e) => {
                return Err(e);
            },
        };
        let (request_block, have_block) = self.sync_block_status(&prev_hash, chain, now);

        if have_block && all_done {
            return Ok(StateSyncResult::Completed);
        }
        if request_block {
            Ok(StateSyncResult::RequestBlock)
        } else {
            Ok(StateSyncResult::InProgress)
        }
    }
}

/// In peers mode the number of outstanding part requests to any peer
/// for any shard never exceeds `MAX_STATE_PART_REQUEST`.
pub proof fn lemma_pending_requests_capped(s: StateSync, peer: PeerId, shard: ShardId)
    requires
        s.wf(),
    ensures
        s.spec_pending_count(peer, shard) <= MAX_STATE_PART_REQUEST,
{
}

/// The part count that the state header assigns to one shard, which
/// defines the set of part indices a download must fetch.
pub open spec fn spec_required_num_parts(
    chain: ChainStore,
    shard_id: ShardId,
    sync_hash: CryptoHash,
) -> Option<u64> {
    match chain.spec_state_header(shard_id, sync_hash) {
        Some(h) => Some(h.num_parts),
        None => None,
    }
}

/// A restarted download fetches the same part set as the original and
/// validates against the same state root: the destructive reset after a
/// phase-finalization failure clears the persisted parts but never the
/// state header, and the header alone defines the part set and the
/// root.
pub proof fn lemma_restart_same_part_set(
    c0: ChainStore,
    c1: ChainStore,
    shard_id: ShardId,
    sync_hash: CryptoHash,
)
    requires
        forall|s: ShardId, h: CryptoHash| c1.spec_state_header(s, h) == c0.spec_state_header(s, h),
    ensures
        spec_required_num_parts(c1, shard_id, sync_hash) == spec_required_num_parts(
            c0,
            shard_id,
            sync_hash,
        ),
        c1.spec_state_header(shard_id, sync_hash) == c0.spec_state_header(shard_id, sync_hash),
{
}

} // verus!
