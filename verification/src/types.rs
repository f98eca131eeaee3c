//! Basic identifiers, configuration, and per-download records.

use vstd::prelude::*;

verus! {

/// Identifier of a shard.
pub type ShardId = u64;

/// Identifier of a peer node.
pub type PeerId = u64;

/// Identifier of an epoch.
pub type EpochId = u64;

/// Height of an epoch.
pub type EpochHeight = u64;

/// Content-addressed identifier of a block. The value 0 stands for the
/// hash of the block before genesis.
pub type CryptoHash = u64;

/// Commitment to a shard's full state at a block; parts are validated
/// against it.
pub type StateRoot = u64;

/// A point in time, in nanoseconds. All times handed to the library come
/// from a single injected clock.
pub type Timestamp = u64;

/// A span of time, in the same unit as `Timestamp`.
pub type TimeDelta = u64;

/// Maximum number of state parts to request per peer on each round when a
/// node is trying to download the state.
pub const MAX_STATE_PART_REQUEST: u64 = 16;

/// Number of state parts already requested that may be remembered as
/// pending. This should not exceed `MAX_STATE_PART_REQUEST` times the
/// number of peers in the network.
pub const MAX_PENDING_PART: u64 = MAX_STATE_PART_REQUEST * 10000;

/// Time limit per state dump iteration, for the external dump loop that
/// feeds the object store; it does not gate the download core.
pub const STATE_DUMP_ITERATION_TIME_LIMIT_SECS: u64 = 300;

/// `c + 1`, stopping at the largest counter value.
pub open spec fn spec_sat_inc(c: u64) -> u64 {
    if c == u64::MAX {
        c
    } else {
        (c + 1) as u64
    }
}

/// Aggregate outcome of one `run` tick.
#[derive(Clone, Copy, PartialEq, Eq, Structural, Debug)]
pub enum StateSyncResult {
    /// State sync still in progress. No action needed by the caller.
    InProgress,
    /// The client needs to start fetching the sync block.
    RequestBlock,
    /// The state for all shards was downloaded.
    Completed,
}

/// Identifies one state part among the parts of one shard.
#[derive(Clone, Copy, PartialEq, Eq, Structural, Debug)]
pub struct PartId {
    /// Index of the part, smaller than `total`.
    pub idx: u64,
    /// Number of parts the shard's state consists of.
    pub total: u64,
}

/// Phase of the per-shard state machine.
#[derive(Clone, Copy, PartialEq, Eq, Structural, Debug)]
pub enum ShardSyncStatus {
    StateDownloadHeader,
    StateDownloadParts,
    StateDownloadScheduling,
    StateDownloadApplying,
    StateDownloadComplete,
    StateSplitScheduling,
    StateSplitApplying,
    StateSyncDone,
}

/// Progress of one artifact (the header, or one part) of one shard.
#[derive(Clone, Copy, PartialEq, Eq, Structural, Debug)]
pub struct DownloadStatus {
    /// True when the dispatcher should (re)issue the request.
    pub run_me: bool,
    /// Artifact successfully fetched and persisted.
    pub done: bool,
    /// Last attempt failed; the next tick decides whether to retry.
    pub error: bool,
    /// Number of requests made for this artifact so far.
    pub state_requests_count: u64,
    /// The most recent source, or `None` for the external store.
    pub last_target: Option<PeerId>,
    /// When the download of this artifact began.
    pub start_time: Timestamp,
    /// When this record last changed; timeouts are measured from here.
    pub prev_update_time: Timestamp,
}

impl DownloadStatus {
    /// `done` and `error` never hold together, and an artifact that is
    /// done is never re-requested.
    pub open spec fn wf(self) -> bool {
        &&& !(self.done && self.error)
        &&& self.run_me ==> !self.done
    }

    /// A fresh record: not done, not failed, to be requested.
    pub fn new(now: Timestamp) -> (r: DownloadStatus)
        ensures
            r.wf(),
            r == (DownloadStatus {
                run_me: true,
                done: false,
                error: false,
                state_requests_count: 0,
                last_target: None,
                start_time: now,
                prev_update_time: now,
            }),
    {
        DownloadStatus {
            run_me: true,
            done: false,
            error: false,
            state_requests_count: 0,
            last_target: None,
            start_time: now,
            prev_update_time: now,
        }
    }
}

/// Per-shard record: the phase, and one `DownloadStatus` per artifact of
/// the current phase.
pub struct ShardSyncDownload {
    pub downloads: Vec<DownloadStatus>,
    pub status: ShardSyncStatus,
}

/// The mathematical value of a `ShardSyncDownload`.
#[verifier::ext_equal]
pub struct ShardSyncDownloadView {
    pub downloads: Seq<DownloadStatus>,
    pub status: ShardSyncStatus,
}

impl View for ShardSyncDownload {
    type V = ShardSyncDownloadView;

    open spec fn view(&self) -> ShardSyncDownloadView {
        ShardSyncDownloadView { downloads: self.downloads@, status: self.status }
    }
}

impl ShardSyncDownloadView {
    /// The artifact list matches the phase, and every entry is well
    /// formed.
    pub open spec fn wf(self) -> bool {
        &&& match self.status {
            ShardSyncStatus::StateDownloadHeader => self.downloads.len() == 1,
            ShardSyncStatus::StateDownloadParts => true,
            _ => self.downloads.len() == 0,
        }
        &&& forall|i: int| 0 <= i < self.downloads.len() ==> (#[trigger] self.downloads[i]).wf()
    }
}

impl ShardSyncDownload {
    /// The artifact list matches the phase: one entry while the header
    /// downloads, any number while parts download, none afterwards; and
    /// every entry is well formed.
    pub open spec fn wf(self) -> bool {
        &&& match self.status {
            ShardSyncStatus::StateDownloadHeader => self.downloads.len() == 1,
            ShardSyncStatus::StateDownloadParts => true,
            _ => self.downloads.len() == 0,
        }
        &&& forall|i: int| 0 <= i < self.downloads.len() ==> (#[trigger] self.downloads[i]).wf()
    }

    /// A fresh shard record, about to download the state header.
    pub fn new_download_state_header(now: Timestamp) -> (r: ShardSyncDownload)
        ensures
            r.wf(),
            r.status == ShardSyncStatus::StateDownloadHeader,
            r.downloads.len() == 1,
            r.downloads[0] == DownloadStatus::new_spec(now),
    {
        let mut downloads: Vec<DownloadStatus> = Vec::new();
        downloads.push(DownloadStatus::new(now));
        ShardSyncDownload { downloads, status: ShardSyncStatus::StateDownloadHeader }
    }

    /// A shard record with one fresh entry per part, about to download
    /// the parts.
    pub fn new_download_state_parts(now: Timestamp, num_parts: u64) -> (r: ShardSyncDownload)
        requires
            num_parts <= usize::MAX,
        ensures
            r.wf(),
            r.status == ShardSyncStatus::StateDownloadParts,
            r.downloads.len() == num_parts,
            forall|i: int| 0 <= i < num_parts ==> r.downloads[i] == DownloadStatus::new_spec(now),
    {
        let mut downloads: Vec<DownloadStatus> = Vec::new();
        let mut i: u64 = 0;
        while i < num_parts
            invariant
                i <= num_parts,
                num_parts <= usize::MAX,
                downloads.len() == i,
                forall|j: int| 0 <= j < i ==> downloads[j] == DownloadStatus::new_spec(now),
            decreases num_parts - i,
        {
            downloads.push(DownloadStatus::new(now));
            i = i + 1;
        }
        ShardSyncDownload { downloads, status: ShardSyncStatus::StateDownloadParts }
    }
}

impl DownloadStatus {
    /// The value that `DownloadStatus::new` returns.
    pub open spec fn new_spec(now: Timestamp) -> DownloadStatus {
        DownloadStatus {
            run_me: true,
            done: false,
            error: false,
            state_requests_count: 0,
            last_target: None,
            start_time: now,
            prev_update_time: now,
        }
    }
}

/// Outcome of one background fetch of a state part: either the byte
/// length of the validated, persisted part, or an error describing where
/// the process failed.
pub struct StateSyncGetPartResult {
    pub sync_hash: CryptoHash,
    pub shard_id: ShardId,
    pub part_id: PartId,
    pub part_result: Result<u64, String>,
}

/// Basic information about a shard's state carried by the state header:
/// how many parts the state consists of and the root they are validated
/// against.
#[derive(Clone, Copy, PartialEq, Eq, Structural, Debug)]
pub struct StateHeaderInfo {
    pub num_parts: u64,
    pub state_root: StateRoot,
}

/// A peer's answer to a state request: a header, a part, or neither when
/// the peer could not build a response.
pub struct ShardStateSyncResponse {
    pub header: Option<StateHeaderInfo>,
    pub part: Option<(u64, Vec<u8>)>,
}

impl ShardStateSyncResponse {
    /// The index of the carried part, if any.
    pub fn part_id(&self) -> (r: Option<u64>)
        ensures
            match self.part {
                Some(p) => r == Some(p.0),
                None => r is None,
            },
    {
        match &self.part {
            Some(p) => Some(p.0),
            None => None,
        }
    }
}

/// Where the external object store lives.
pub enum ExternalStorageLocation {
    S3 { bucket: String, region: String },
    Filesystem { root_dir: String },
    GCS { bucket: String },
}

/// Limits for the external-storage fetcher.
pub struct ExternalStorageConfig {
    /// Where the parts are kept.
    pub location: ExternalStorageLocation,
    /// Maximum number of simultaneous downloads during a fresh sync.
    pub num_concurrent_requests: u32,
    /// Maximum number of simultaneous downloads during catchup.
    pub num_concurrent_requests_during_catchup: u32,
}

/// How to retrieve the state data: both header and parts from peers, or
/// the header from peers and the parts from an external object store.
pub enum SyncConfig {
    Peers,
    ExternalStorage(ExternalStorageConfig),
}

/// Why a tick could not proceed. Transient per-part failures are not
/// errors: they re-arm the part and the tick goes on.
#[derive(PartialEq, Eq, Debug)]
pub enum SyncError {
    /// A block header the tick needs is not in the chain.
    MissingBlockHeader(CryptoHash),
    /// No shard layout is known for this epoch.
    MissingShardLayout(EpochId),
    /// No epoch height is known for this epoch.
    MissingEpochHeight(EpochId),
    /// A shard's state header should be present but is not.
    MissingStateHeader(ShardId),
    /// Splitting a shard's state for the new layout failed downstream.
    SplitFailed(ShardId, String),
}

} // verus!
