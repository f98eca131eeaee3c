use std::collections::HashMap;
use state_sync::epoch::{EpochInfo, EpochManagerView};
use state_sync::state_sync::{process_external_part_response, Action, StateSync};
use state_sync::store::{BlockHeader, ChainStore};
use state_sync::types::{
    ExternalStorageConfig, ExternalStorageLocation, PartId, ShardSyncDownload, ShardSyncStatus,
    StateHeaderInfo, SyncConfig,
};
use state_sync::validator::SyncValidator;

const SEC: u64 = 1_000_000_000;
const SYNC_HASH: u64 = 12;
const PREV_HASH: u64 = 11;

struct AcceptAll;

impl SyncValidator for AcceptAll {
    fn validate_state_header(&self, _: u64, _: u64, _: &StateHeaderInfo) -> bool {
        true
    }
    fn validate_state_part(&self, _: u64, _: PartId, _: &Vec<u8>) -> bool {
        true
    }
}

struct RejectParts;

impl SyncValidator for RejectParts {
    fn validate_state_header(&self, _: u64, _: u64, _: &StateHeaderInfo) -> bool {
        true
    }
    fn validate_state_part(&self, _: u64, _: PartId, _: &Vec<u8>) -> bool {
        false
    }
}

fn external_sync(permits: u32, timeout: u64) -> StateSync {
    let config = SyncConfig::ExternalStorage(ExternalStorageConfig {
        location: ExternalStorageLocation::Filesystem { root_dir: "parts".to_string() },
        num_concurrent_requests: permits,
        num_concurrent_requests_during_catchup: 1,
    });
    StateSync::new(timeout, "chain_id", &config, false)
}

fn chain_with_state_header(num_parts: u64) -> ChainStore {
    let mut chain = ChainStore::new();
    chain.insert_block_header(BlockHeader { hash: PREV_HASH, prev_hash: 0, epoch_id: 0, height: 10 });
    chain.insert_block_header(BlockHeader {
        hash: SYNC_HASH,
        prev_hash: PREV_HASH,
        epoch_id: 1,
        height: 11,
    });
    chain.set_state_header(0, SYNC_HASH, StateHeaderInfo { num_parts, state_root: 500 });
    chain
}

fn epochs() -> EpochManagerView {
    let mut em = EpochManagerView::new(false);
    em.insert_epoch(0, EpochInfo { layout_version: 0, epoch_height: 1 });
    em.insert_epoch(1, EpochInfo { layout_version: 0, epoch_height: 2 });
    em
}

#[test]
// A semaphore of size 4 with 10 parts needed: one tick spawns exactly 4
// fetches; the 6 unreached parts stay to be issued. Once the permits
// return, the next tick spawns the next 4.
fn test_external_storage_backpressure() {
    let mut state_sync = external_sync(4, 1 * SEC);
    let mut chain = chain_with_state_header(10);
    let em = epochs();
    let mut map: HashMap<u64, ShardSyncDownload> = HashMap::new();
    map.insert(0, ShardSyncDownload::new_download_state_parts(0, 10));
    let mut actions: Vec<Action> = Vec::new();

    state_sync
        .run(SYNC_HASH, &mut map, &mut chain, &em, &vec![9], vec![0], 0, Vec::new(), &mut actions)
        .unwrap();
    let fetches = actions.iter().filter(|a| matches!(a, Action::FetchExternalPart { .. })).count();
    assert_eq!(fetches, 4);
    // Every fetch carries the location and validation inputs the
    // lookups fixed: the sync epoch, its height, and the header's part
    // count and root.
    for a in actions.iter() {
        if let Action::FetchExternalPart { epoch_id, epoch_height, num_parts, state_root, .. } = a {
            assert_eq!(*epoch_id, 1);
            assert_eq!(*epoch_height, 2);
            assert_eq!(*num_parts, 10);
            assert_eq!(*state_root, 500);
        }
    }
    let armed = map.get(&0).unwrap().downloads.iter().filter(|d| d.run_me).count();
    assert_eq!(armed, 6);

    // Dropping the actions releases the permits; the next tick reaches
    // the next 4 parts.
    drop(actions);
    let mut actions2: Vec<Action> = Vec::new();
    state_sync
        .run(SYNC_HASH, &mut map, &mut chain, &em, &vec![9], vec![0], 1, Vec::new(), &mut actions2)
        .unwrap();
    let fetches2 =
        actions2.iter().filter(|a| matches!(a, Action::FetchExternalPart { .. })).count();
    assert_eq!(fetches2, 4);
}

#[test]
// A fetched part that passes validation is persisted under its key and
// reported with its byte length.
fn test_external_fetch_success_persists() {
    let mut chain = chain_with_state_header(4);
    let data: Vec<u8> = vec![1, 2, 3, 4, 5];
    let msg = process_external_part_response(
        SYNC_HASH,
        0,
        PartId { idx: 2, total: 4 },
        500,
        Ok(data.clone()),
        &mut chain,
        &AcceptAll,
    );
    assert_eq!(msg.sync_hash, SYNC_HASH);
    assert_eq!(msg.shard_id, 0);
    assert_eq!(msg.part_id, PartId { idx: 2, total: 4 });
    assert_eq!(msg.part_result, Ok(5));
    assert_eq!(chain.get_state_part(SYNC_HASH, 0, 2), Some(&data));

    // Ingesting the message marks the part done.
    let mut state_sync = external_sync(4, 1 * SEC);
    let em = epochs();
    let mut map: HashMap<u64, ShardSyncDownload> = HashMap::new();
    let mut entry = ShardSyncDownload::new_download_state_parts(0, 4);
    for d in entry.downloads.iter_mut() {
        d.run_me = false;
    }
    map.insert(0, entry);
    let mut actions: Vec<Action> = Vec::new();
    state_sync
        .run(SYNC_HASH, &mut map, &mut chain, &em, &vec![9], vec![0], 0, vec![msg], &mut actions)
        .unwrap();
    assert!(map.get(&0).unwrap().downloads[2].done);
}

#[test]
// A fetched part that fails validation is not persisted; the response
// posts an error, the record turns failed, and after the timeout the
// part is re-armed and fetched again.
fn test_validation_failure() {
    let mut chain = chain_with_state_header(1);
    let data: Vec<u8> = vec![1, 2, 3];
    let msg = process_external_part_response(
        SYNC_HASH,
        0,
        PartId { idx: 0, total: 1 },
        500,
        Ok(data),
        &mut chain,
        &RejectParts,
    );
    assert!(msg.part_result.is_err());
    assert_eq!(chain.get_state_part(SYNC_HASH, 0, 0), None);

    let mut state_sync = external_sync(4, 1 * SEC);
    let em = epochs();
    let mut map: HashMap<u64, ShardSyncDownload> = HashMap::new();
    let mut entry = ShardSyncDownload::new_download_state_parts(0, 1);
    entry.downloads[0].run_me = false;
    map.insert(0, entry);
    let mut actions: Vec<Action> = Vec::new();
    state_sync
        .run(SYNC_HASH, &mut map, &mut chain, &em, &vec![9], vec![0], 0, vec![msg], &mut actions)
        .unwrap();
    {
        let d = &map.get(&0).unwrap().downloads[0];
        assert!(d.error);
        assert!(!d.done);
    }

    // Past the timeout the part is re-armed and a new fetch goes out.
    let mut actions2: Vec<Action> = Vec::new();
    state_sync
        .run(
            SYNC_HASH,
            &mut map,
            &mut chain,
            &em,
            &vec![9],
            vec![0],
            2 * SEC,
            Vec::new(),
            &mut actions2,
        )
        .unwrap();
    let fetches2 =
        actions2.iter().filter(|a| matches!(a, Action::FetchExternalPart { .. })).count();
    assert_eq!(fetches2, 1);
    let d = &map.get(&0).unwrap().downloads[0];
    assert!(!d.error);
    assert!(!d.done);
}

#[test]
// A failed fetch is reported and nothing is persisted.
fn test_external_fetch_error_reported() {
    let mut chain = chain_with_state_header(1);
    let msg = process_external_part_response(
        SYNC_HASH,
        0,
        PartId { idx: 0, total: 1 },
        500,
        Err("object not found".to_string()),
        &mut chain,
        &AcceptAll,
    );
    assert!(msg.part_result.is_err());
    assert_eq!(chain.get_state_part(SYNC_HASH, 0, 0), None);
}

#[test]
// The external fetcher completes a whole shard: all parts fetched,
// validated, persisted, applied, and the shard reaches its end state.
fn test_external_full_cycle() {
    let mut state_sync = external_sync(8, 1 * SEC);
    let mut chain = chain_with_state_header(2);
    chain.insert_block(PREV_HASH);
    let em = epochs();
    let mut map: HashMap<u64, ShardSyncDownload> = HashMap::new();
    let mut entry = ShardSyncDownload::new_download_state_header(0);
    entry.downloads[0].done = true;
    entry.downloads[0].run_me = false;
    map.insert(0, entry);

    // Tick: header done, shard moves to the parts phase and spawns
    // both fetches.
    let mut actions: Vec<Action> = Vec::new();
    state_sync
        .run(SYNC_HASH, &mut map, &mut chain, &em, &vec![9], vec![0], 0, Vec::new(), &mut actions)
        .unwrap();
    assert_eq!(map.get(&0).unwrap().status, ShardSyncStatus::StateDownloadParts);
    let mut incoming = Vec::new();
    for a in actions.iter() {
        if let Action::FetchExternalPart { part_id, num_parts, state_root, .. } = a {
            incoming.push(process_external_part_response(
                SYNC_HASH,
                0,
                PartId { idx: *part_id, total: *num_parts },
                *state_root,
                Ok(vec![*part_id as u8; 3]),
                &mut chain,
                &AcceptAll,
            ));
        }
    }
    assert_eq!(incoming.len(), 2);
    drop(actions);

    // Tick: both outcomes ingested, all parts done, shard schedules.
    let mut actions2: Vec<Action> = Vec::new();
    state_sync
        .run(SYNC_HASH, &mut map, &mut chain, &em, &vec![9], vec![0], 1, incoming, &mut actions2)
        .unwrap();
    assert_eq!(map.get(&0).unwrap().status, ShardSyncStatus::StateDownloadScheduling);

    // Tick: apply enqueued.
    let mut actions3: Vec<Action> = Vec::new();
    state_sync
        .run(SYNC_HASH, &mut map, &mut chain, &em, &vec![9], vec![0], 2, Vec::new(), &mut actions3)
        .unwrap();
    assert_eq!(map.get(&0).unwrap().status, ShardSyncStatus::StateDownloadApplying);
    assert!(actions3.iter().any(|a| matches!(a, Action::ScheduleApplyStateParts { .. })));

    // The caller posts a successful apply; the shard completes and the
    // sync finishes.
    state_sync.set_apply_result(0, Ok(()));
    let mut actions4: Vec<Action> = Vec::new();
    state_sync
        .run(SYNC_HASH, &mut map, &mut chain, &em, &vec![9], vec![0], 3, Vec::new(), &mut actions4)
        .unwrap();
    assert_eq!(map.get(&0).unwrap().status, ShardSyncStatus::StateDownloadComplete);
    let mut actions5: Vec<Action> = Vec::new();
    let r = state_sync
        .run(SYNC_HASH, &mut map, &mut chain, &em, &vec![9], vec![0], 4, Vec::new(), &mut actions5)
        .unwrap();
    assert_eq!(map.get(&0).unwrap().status, ShardSyncStatus::StateSyncDone);
    assert_eq!(r, state_sync::types::StateSyncResult::Completed);
}

#[test]
// During catchup the tighter concurrency cap applies.
fn test_catchup_uses_tighter_cap() {
    let config = SyncConfig::ExternalStorage(ExternalStorageConfig {
        location: ExternalStorageLocation::Filesystem { root_dir: "parts".to_string() },
        num_concurrent_requests: 4,
        num_concurrent_requests_during_catchup: 1,
    });
    let mut state_sync = StateSync::new(1 * SEC, "chain_id", &config, true);
    let mut chain = chain_with_state_header(3);
    let em = epochs();
    let mut map: HashMap<u64, ShardSyncDownload> = HashMap::new();
    map.insert(0, ShardSyncDownload::new_download_state_parts(0, 3));
    let mut actions: Vec<Action> = Vec::new();
    state_sync
        .run(SYNC_HASH, &mut map, &mut chain, &em, &vec![9], vec![0], 0, Vec::new(), &mut actions)
        .unwrap();
    let fetches = actions.iter().filter(|a| matches!(a, Action::FetchExternalPart { .. })).count();
    assert_eq!(fetches, 1);
}

#[test]
// The constructor keeps the chain identity in external mode and none in
// peers mode.
fn test_new_keeps_chain_id() {
    let external = external_sync(4, 1 * SEC);
    assert_eq!(external.chain_id().map(|s| s.as_str()), Some("chain_id"));
    let peers = StateSync::new(1 * SEC, "chain_id", &SyncConfig::Peers, false);
    assert!(peers.chain_id().is_none());
}
