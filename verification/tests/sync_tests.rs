use std::collections::HashMap;
use state_sync::epoch::{EpochInfo, EpochManagerView};
use state_sync::state_sync::{Action, StateSync};
use state_sync::store::{BlockHeader, ChainStore};
use state_sync::types::{
    PartId, ShardStateSyncResponse, ShardSyncDownload, ShardSyncStatus, StateHeaderInfo,
    StateSyncGetPartResult, StateSyncResult, SyncConfig,
};
use state_sync::validator::SyncValidator;

const SEC: u64 = 1_000_000_000;
const SYNC_HASH: u64 = 12;
const PREV_HASH: u64 = 11;

struct AcceptAll;

impl SyncValidator for AcceptAll {
    fn validate_state_header(&self, _: u64, _: u64, _: &StateHeaderInfo) -> bool {
        true
    }
    fn validate_state_part(&self, _: u64, _: PartId, _: &Vec<u8>) -> bool {
        true
    }
}

fn simple_chain() -> ChainStore {
    let mut chain = ChainStore::new();
    chain.insert_block_header(BlockHeader { hash: PREV_HASH, prev_hash: 0, epoch_id: 0, height: 10 });
    chain.insert_block_header(BlockHeader {
        hash: SYNC_HASH,
        prev_hash: PREV_HASH,
        epoch_id: 1,
        height: 11,
    });
    chain
}

fn epochs() -> EpochManagerView {
    let mut em = EpochManagerView::new(false);
    em.insert_epoch(0, EpochInfo { layout_version: 0, epoch_height: 1 });
    em.insert_epoch(1, EpochInfo { layout_version: 0, epoch_height: 2 });
    em
}

fn peers_sync(timeout: u64) -> StateSync {
    StateSync::new(timeout, "chain_id", &SyncConfig::Peers, false)
}

#[test]
// Start a new state sync - and check that it asks for a header.
fn test_ask_for_header() {
    let mut state_sync = peers_sync(1 * SEC);
    let mut new_shard_sync: HashMap<u64, ShardSyncDownload> = HashMap::new();
    let mut chain = simple_chain();
    let em = epochs();
    let peer_id: u64 = 77;
    let mut actions: Vec<Action> = Vec::new();

    state_sync
        .run(
            SYNC_HASH,
            &mut new_shard_sync,
            &mut chain,
            &em,
            &vec![peer_id],
            vec![0],
            0,
            Vec::new(),
            &mut actions,
        )
        .unwrap();

    let header_requests: Vec<&Action> = actions
        .iter()
        .filter(|a| matches!(a, Action::StateRequestHeader { .. }))
        .collect();
    assert_eq!(header_requests.len(), 1);
    match header_requests[0] {
        Action::StateRequestHeader { shard_id, sync_hash, peer_id: p } => {
            assert_eq!(*shard_id, 0);
            assert_eq!(*sync_hash, SYNC_HASH);
            assert_eq!(*p, peer_id);
        }
        _ => unreachable!(),
    }

    assert_eq!(1, new_shard_sync.len());
    let download = new_shard_sync.get(&0).unwrap();

    assert_eq!(download.status, ShardSyncStatus::StateDownloadHeader);

    assert_eq!(download.downloads.len(), 1);
    let download_status = &download.downloads[0];

    // 'run me' is false - as we've just emitted this request.
    assert_eq!(download_status.run_me, false);
    assert_eq!(download_status.error, false);
    assert_eq!(download_status.done, false);
    assert_eq!(download_status.state_requests_count, 1);
    assert_eq!(download_status.last_target, Some(peer_id));

    // Now let's simulate the header return message.
    let state_response = ShardStateSyncResponse {
        header: Some(StateHeaderInfo { num_parts: 3, state_root: 500 }),
        part: None,
    };

    let mut entry = new_shard_sync.remove(&0).unwrap();
    state_sync.update_download_on_state_response_message(
        &mut entry,
        SYNC_HASH,
        0,
        state_response,
        &mut chain,
        &AcceptAll,
    );
    assert_eq!(entry.status, ShardSyncStatus::StateDownloadHeader);
    // Download should be marked as done.
    assert_eq!(entry.downloads[0].done, true);
    new_shard_sync.insert(0, entry);
}

#[test]
// A valid header arrival moves the shard to the parts phase with one
// fresh record per part.
fn test_header_arrival() {
    let state_sync = peers_sync(1 * SEC);
    let mut chain = simple_chain();
    chain.set_state_header(0, SYNC_HASH, StateHeaderInfo { num_parts: 3, state_root: 500 });
    let mut entry = ShardSyncDownload::new_download_state_header(0);
    entry.downloads[0].done = true;
    entry.downloads[0].run_me = false;

    let (timed_out, run_me) = state_sync
        .sync_shards_download_header_status(0, &mut entry, SYNC_HASH, &chain, 5)
        .unwrap();
    assert!(!timed_out);
    assert!(run_me);
    assert_eq!(entry.status, ShardSyncStatus::StateDownloadParts);
    assert_eq!(entry.downloads.len(), 3);
    for d in &entry.downloads {
        assert!(d.run_me);
        assert!(!d.done);
    }
}

#[test]
// Two peers, 100 parts, a cap of 16 per peer: exactly 32 requests go
// out on one tick; the other 68 parts stay to be issued.
fn test_bounded_parallelism() {
    let mut state_sync = peers_sync(1 * SEC);
    let mut chain = simple_chain();
    let em = epochs();
    let mut map: HashMap<u64, ShardSyncDownload> = HashMap::new();
    map.insert(0, ShardSyncDownload::new_download_state_parts(0, 100));
    let mut actions: Vec<Action> = Vec::new();

    state_sync
        .run(
            SYNC_HASH,
            &mut map,
            &mut chain,
            &em,
            &vec![1, 2],
            vec![0],
            0,
            Vec::new(),
            &mut actions,
        )
        .unwrap();

    let part_requests = actions
        .iter()
        .filter(|a| matches!(a, Action::StateRequestPart { .. }))
        .count();
    assert_eq!(part_requests, 32);
    let entry = map.get(&0).unwrap();
    let armed = entry.downloads.iter().filter(|d| d.run_me).count();
    assert_eq!(armed, 68);
    assert_eq!(state_sync.pending_request(1, 0).unwrap().missing_parts, 16);
    assert_eq!(state_sync.pending_request(2, 0).unwrap().missing_parts, 16);
}

#[test]
// A part request with no response within the timeout is swept from the
// ledger; the part is re-armed and re-assigned.
fn test_pending_expiry() {
    let mut state_sync = peers_sync(1 * SEC);
    let mut chain = simple_chain();
    let em = epochs();
    let mut map: HashMap<u64, ShardSyncDownload> = HashMap::new();
    map.insert(0, ShardSyncDownload::new_download_state_parts(0, 2));
    let mut actions: Vec<Action> = Vec::new();
    state_sync
        .run(SYNC_HASH, &mut map, &mut chain, &em, &vec![9], vec![0], 0, Vec::new(), &mut actions)
        .unwrap();
    assert_eq!(state_sync.pending_request(9, 0).unwrap().missing_parts, 2);
    assert_eq!(
        actions.iter().filter(|a| matches!(a, Action::StateRequestPart { .. })).count(),
        2
    );

    // No response arrives; past the deadline the ledger entry is swept,
    // both parts are re-armed and assigned again.
    let mut actions2: Vec<Action> = Vec::new();
    state_sync
        .run(
            SYNC_HASH,
            &mut map,
            &mut chain,
            &em,
            &vec![9],
            vec![0],
            2 * SEC,
            Vec::new(),
            &mut actions2,
        )
        .unwrap();
    assert_eq!(
        actions2.iter().filter(|a| matches!(a, Action::StateRequestPart { .. })).count(),
        2
    );
    let entry = map.get(&0).unwrap();
    assert_eq!(entry.downloads[0].state_requests_count, 2);
    assert_eq!(entry.downloads[1].state_requests_count, 2);
    assert_eq!(state_sync.pending_request(9, 0).unwrap().missing_parts, 2);
}

#[test]
// A response with a mismatched sync hash is silently dropped.
fn test_stale_sync_hash_dropped() {
    let mut state_sync = peers_sync(1 * SEC);
    let mut chain = simple_chain();
    let em = epochs();
    let mut map: HashMap<u64, ShardSyncDownload> = HashMap::new();
    map.insert(0, ShardSyncDownload::new_download_state_parts(0, 1));
    let stale = StateSyncGetPartResult {
        sync_hash: 999,
        shard_id: 0,
        part_id: PartId { idx: 0, total: 1 },
        part_result: Ok(5),
    };
    let mut actions: Vec<Action> = Vec::new();
    state_sync
        .run(SYNC_HASH, &mut map, &mut chain, &em, &vec![9], vec![0], 0, vec![stale], &mut actions)
        .unwrap();
    assert!(!map.get(&0).unwrap().downloads[0].done);
}

#[test]
// A part response with an index at or above the part count is rejected
// without state change.
fn test_out_of_range_part_rejected() {
    let mut state_sync = peers_sync(1 * SEC);
    let mut chain = simple_chain();
    chain.set_state_header(0, SYNC_HASH, StateHeaderInfo { num_parts: 2, state_root: 500 });
    let mut entry = ShardSyncDownload::new_download_state_parts(0, 2);
    let response = ShardStateSyncResponse { header: None, part: Some((5, vec![1, 2, 3])) };
    state_sync.update_download_on_state_response_message(
        &mut entry,
        SYNC_HASH,
        0,
        response,
        &mut chain,
        &AcceptAll,
    );
    assert_eq!(entry.status, ShardSyncStatus::StateDownloadParts);
    assert!(!entry.downloads[0].done && !entry.downloads[0].error);
    assert!(!entry.downloads[1].done && !entry.downloads[1].error);
    assert_eq!(chain.get_state_part(SYNC_HASH, 0, 5), None);
}

#[test]
// A valid part response is persisted under its key and marked done.
fn test_part_response_persisted() {
    let mut state_sync = peers_sync(1 * SEC);
    let mut chain = simple_chain();
    chain.set_state_header(0, SYNC_HASH, StateHeaderInfo { num_parts: 2, state_root: 500 });
    let mut entry = ShardSyncDownload::new_download_state_parts(0, 2);
    let data: Vec<u8> = vec![4, 5, 6];
    let response = ShardStateSyncResponse { header: None, part: Some((1, data.clone())) };
    state_sync.update_download_on_state_response_message(
        &mut entry,
        SYNC_HASH,
        0,
        response,
        &mut chain,
        &AcceptAll,
    );
    assert!(entry.downloads[1].done);
    assert!(!entry.downloads[0].done);
    assert_eq!(chain.get_state_part(SYNC_HASH, 0, 1), Some(&data));
}

#[test]
// With no tracked shards the outcome is the sync block's alone.
fn test_empty_tracking_shards() {
    let mut state_sync = peers_sync(1 * SEC);
    let mut chain = simple_chain();
    let em = epochs();
    let mut map: HashMap<u64, ShardSyncDownload> = HashMap::new();
    let mut actions: Vec<Action> = Vec::new();
    let r1 = state_sync
        .run(SYNC_HASH, &mut map, &mut chain, &em, &vec![9], vec![], 0, Vec::new(), &mut actions)
        .unwrap();
    assert_eq!(r1, StateSyncResult::RequestBlock);
    let r2 = state_sync
        .run(SYNC_HASH, &mut map, &mut chain, &em, &vec![9], vec![], 1, Vec::new(), &mut actions)
        .unwrap();
    assert_eq!(r2, StateSyncResult::InProgress);
    chain.insert_block(PREV_HASH);
    let r3 = state_sync
        .run(SYNC_HASH, &mut map, &mut chain, &em, &vec![9], vec![], 2, Vec::new(), &mut actions)
        .unwrap();
    assert_eq!(r3, StateSyncResult::Completed);
}

#[test]
// A shard with zero parts moves straight through the parts phase.
fn test_num_parts_zero() {
    let mut state_sync = peers_sync(1 * SEC);
    let mut chain = simple_chain();
    chain.insert_block(PREV_HASH);
    chain.set_state_header(0, SYNC_HASH, StateHeaderInfo { num_parts: 0, state_root: 500 });
    let em = epochs();
    let mut map: HashMap<u64, ShardSyncDownload> = HashMap::new();
    let mut entry = ShardSyncDownload::new_download_state_header(0);
    entry.downloads[0].done = true;
    entry.downloads[0].run_me = false;
    map.insert(0, entry);
    let mut actions: Vec<Action> = Vec::new();

    state_sync
        .run(SYNC_HASH, &mut map, &mut chain, &em, &vec![9], vec![0], 0, Vec::new(), &mut actions)
        .unwrap();
    assert_eq!(map.get(&0).unwrap().status, ShardSyncStatus::StateDownloadParts);
    assert_eq!(map.get(&0).unwrap().downloads.len(), 0);

    state_sync
        .run(SYNC_HASH, &mut map, &mut chain, &em, &vec![9], vec![0], 1, Vec::new(), &mut actions)
        .unwrap();
    assert_eq!(map.get(&0).unwrap().status, ShardSyncStatus::StateDownloadScheduling);
}

#[test]
// A failed apply wipes the downloaded parts and restarts the shard from
// the header phase; the state header survives, so the restarted
// download needs the same part set.
fn test_apply_failure_restarts_download() {
    let mut state_sync = peers_sync(1 * SEC);
    let mut chain = simple_chain();
    chain.insert_block(PREV_HASH);
    chain.set_state_header(0, SYNC_HASH, StateHeaderInfo { num_parts: 2, state_root: 500 });
    let data: Vec<u8> = vec![1, 2];
    chain.set_state_part(SYNC_HASH, 0, 0, &data);
    chain.set_state_part(SYNC_HASH, 0, 1, &data);
    let em = epochs();
    let mut map: HashMap<u64, ShardSyncDownload> = HashMap::new();
    map.insert(
        0,
        ShardSyncDownload { downloads: Vec::new(), status: ShardSyncStatus::StateDownloadApplying },
    );
    state_sync.set_apply_result(0, Err("validation failed downstream".to_string()));
    let mut actions: Vec<Action> = Vec::new();
    state_sync
        .run(SYNC_HASH, &mut map, &mut chain, &em, &vec![9], vec![0], 0, Vec::new(), &mut actions)
        .unwrap();
    let entry = map.get(&0).unwrap();
    assert_eq!(entry.status, ShardSyncStatus::StateDownloadHeader);
    assert_eq!(chain.get_state_part(SYNC_HASH, 0, 0), None);
    assert_eq!(chain.get_state_part(SYNC_HASH, 0, 1), None);
    // The header with the part set and root is untouched.
    assert_eq!(
        chain.get_state_header(0, SYNC_HASH),
        Some(StateHeaderInfo { num_parts: 2, state_root: 500 })
    );
}

#[test]
// With a layout change pending, a completed download goes through the
// split phases and finishes once the split result is posted.
fn test_layout_change_resharding() {
    let mut state_sync = peers_sync(1 * SEC);
    let mut chain = simple_chain();
    chain.insert_block(PREV_HASH);
    let mut em = EpochManagerView::new(true);
    em.insert_epoch(0, EpochInfo { layout_version: 0, epoch_height: 1 });
    em.insert_epoch(1, EpochInfo { layout_version: 0, epoch_height: 2 });
    let mut map: HashMap<u64, ShardSyncDownload> = HashMap::new();
    map.insert(
        0,
        ShardSyncDownload { downloads: Vec::new(), status: ShardSyncStatus::StateDownloadComplete },
    );
    let mut actions: Vec<Action> = Vec::new();

    state_sync
        .run(SYNC_HASH, &mut map, &mut chain, &em, &vec![9], vec![0], 0, Vec::new(), &mut actions)
        .unwrap();
    assert_eq!(map.get(&0).unwrap().status, ShardSyncStatus::StateSplitScheduling);

    state_sync
        .run(SYNC_HASH, &mut map, &mut chain, &em, &vec![9], vec![0], 1, Vec::new(), &mut actions)
        .unwrap();
    assert_eq!(map.get(&0).unwrap().status, ShardSyncStatus::StateSplitApplying);
    assert!(actions.iter().any(|a| matches!(a, Action::ScheduleStateSplit { .. })));

    state_sync.set_split_result(0, Ok(vec![(0, 777)]));
    let r = state_sync
        .run(SYNC_HASH, &mut map, &mut chain, &em, &vec![9], vec![0], 2, Vec::new(), &mut actions)
        .unwrap();
    assert_eq!(map.get(&0).unwrap().status, ShardSyncStatus::StateSyncDone);
    assert_eq!(r, StateSyncResult::Completed);
}

#[test]
// Walking back from the sync block finds the first block of its epoch.
fn test_get_epoch_start_sync_hash() {
    let mut chain = ChainStore::new();
    chain.insert_block_header(BlockHeader { hash: 1, prev_hash: 0, epoch_id: 0, height: 1 });
    chain.insert_block_header(BlockHeader { hash: 2, prev_hash: 1, epoch_id: 0, height: 2 });
    chain.insert_block_header(BlockHeader { hash: 3, prev_hash: 2, epoch_id: 1, height: 3 });
    chain.insert_block_header(BlockHeader { hash: 4, prev_hash: 3, epoch_id: 1, height: 4 });
    chain.insert_block_header(BlockHeader { hash: 5, prev_hash: 4, epoch_id: 1, height: 5 });
    assert_eq!(StateSync::get_epoch_start_sync_hash(&chain, &5), Ok(3));
    assert_eq!(StateSync::get_epoch_start_sync_hash(&chain, &2), Ok(1));
    assert!(StateSync::get_epoch_start_sync_hash(&chain, &9).is_err());
}

#[test]
// When a requested part arrives, the recorded target is credited: its
// outstanding count drops, and at zero the peer becomes eligible again.
fn test_received_requested_part_credits_peer() {
    let mut state_sync = peers_sync(1 * SEC);
    let mut chain = simple_chain();
    let em = epochs();
    let mut map: HashMap<u64, ShardSyncDownload> = HashMap::new();
    map.insert(0, ShardSyncDownload::new_download_state_parts(0, 3));
    let mut actions: Vec<Action> = Vec::new();
    state_sync
        .run(SYNC_HASH, &mut map, &mut chain, &em, &vec![9], vec![0], 0, Vec::new(), &mut actions)
        .unwrap();
    assert_eq!(state_sync.pending_request(9, 0).unwrap().missing_parts, 3);

    // Two parts arrive: the outstanding count drops to one.
    state_sync.received_requested_part(0, 0, SYNC_HASH);
    state_sync.received_requested_part(1, 0, SYNC_HASH);
    assert_eq!(state_sync.pending_request(9, 0).unwrap().missing_parts, 1);
    // A part that was never requested changes nothing.
    state_sync.received_requested_part(2, 5, 999);
    assert_eq!(state_sync.pending_request(9, 0).unwrap().missing_parts, 1);
    // The last part removes the entry.
    state_sync.received_requested_part(2, 0, SYNC_HASH);
    assert!(state_sync.pending_request(9, 0).is_none());
}

#[test]
// On a quiesced state - requests in flight, nothing arrived, nothing
// timed out - a tick changes nothing and emits nothing.
fn test_step_idempotent_on_quiesced_state() {
    let mut state_sync = peers_sync(1 * SEC);
    let mut chain = simple_chain();
    chain.insert_block(PREV_HASH);
    let em = epochs();
    let mut map: HashMap<u64, ShardSyncDownload> = HashMap::new();
    map.insert(0, ShardSyncDownload::new_download_state_parts(0, 3));
    let mut actions: Vec<Action> = Vec::new();
    let r1 = state_sync
        .run(SYNC_HASH, &mut map, &mut chain, &em, &vec![9], vec![0], 0, Vec::new(), &mut actions)
        .unwrap();
    let snapshot: Vec<_> = map.get(&0).unwrap().downloads.clone();

    // Same clock, no responses: nothing moves.
    let mut actions2: Vec<Action> = Vec::new();
    let r2 = state_sync
        .run(SYNC_HASH, &mut map, &mut chain, &em, &vec![9], vec![0], 0, Vec::new(), &mut actions2)
        .unwrap();
    assert_eq!(r1, r2);
    assert!(actions2.is_empty());
    assert_eq!(map.get(&0).unwrap().downloads, snapshot);
    assert_eq!(map.get(&0).unwrap().status, ShardSyncStatus::StateDownloadParts);
}
