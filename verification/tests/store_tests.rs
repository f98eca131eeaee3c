use state_sync::keycodec::state_part_key;
use state_sync::pending::PendingLedger;
use state_sync::store::{BlockHeader, ChainStore};
use state_sync::types::StateHeaderInfo;

#[test]
fn part_key_is_the_serialized_triple() {
    // Each of the three identifiers serializes as eight little-endian
    // bytes, in order.
    let key = state_part_key(0x0102030405060708, 1, 2);
    assert_eq!(
        key,
        vec![
            0x08, 0x07, 0x06, 0x05, 0x04, 0x03, 0x02, 0x01, // sync hash
            1, 0, 0, 0, 0, 0, 0, 0, // shard id
            2, 0, 0, 0, 0, 0, 0, 0, // part index
        ]
    );
}

#[test]
fn part_keys_of_distinct_parts_differ() {
    let a = state_part_key(5, 1, 0);
    let b = state_part_key(5, 1, 1);
    let c = state_part_key(5, 2, 0);
    let d = state_part_key(6, 1, 0);
    assert_ne!(a, b);
    assert_ne!(a, c);
    assert_ne!(a, d);
    assert_ne!(b, c);
}

#[test]
fn persisted_part_round_trips_byte_identically() {
    let mut chain = ChainStore::new();
    let data: Vec<u8> = vec![9, 8, 7, 6, 5];
    chain.set_state_part(11, 0, 3, &data);
    assert_eq!(chain.get_state_part(11, 0, 3), Some(&data));
    // A neighbouring key reads back its own bytes, not these.
    let other: Vec<u8> = vec![1, 2, 3];
    chain.set_state_part(11, 0, 4, &other);
    assert_eq!(chain.get_state_part(11, 0, 3), Some(&data));
    assert_eq!(chain.get_state_part(11, 0, 4), Some(&other));
    // Overwriting the same key replaces the bytes.
    let newer: Vec<u8> = vec![0];
    chain.set_state_part(11, 0, 3, &newer);
    assert_eq!(chain.get_state_part(11, 0, 3), Some(&newer));
}

#[test]
fn clear_downloaded_parts_clears_only_that_shard() {
    let mut chain = ChainStore::new();
    let data: Vec<u8> = vec![1];
    chain.set_state_part(11, 0, 0, &data);
    chain.set_state_part(11, 0, 1, &data);
    chain.set_state_part(11, 1, 0, &data);
    chain.set_state_part(12, 0, 0, &data);
    chain.clear_downloaded_parts(11, 0, 2);
    assert_eq!(chain.get_state_part(11, 0, 0), None);
    assert_eq!(chain.get_state_part(11, 0, 1), None);
    assert_eq!(chain.get_state_part(11, 1, 0), Some(&data));
    assert_eq!(chain.get_state_part(12, 0, 0), Some(&data));
}

#[test]
fn block_headers_and_state_headers_are_stored() {
    let mut chain = ChainStore::new();
    let h = BlockHeader { hash: 5, prev_hash: 4, epoch_id: 1, height: 10 };
    chain.insert_block_header(h);
    assert_eq!(chain.get_block_header(5), Some(h));
    assert_eq!(chain.get_block_header(4), None);
    assert!(!chain.block_exists(4));
    chain.insert_block(4);
    assert!(chain.block_exists(4));
    let info = StateHeaderInfo { num_parts: 3, state_root: 99 };
    chain.set_state_header(0, 5, info);
    assert_eq!(chain.get_state_header(0, 5), Some(info));
    assert_eq!(chain.get_state_header(1, 5), None);
}

#[test]
fn pending_ledger_counts_and_expiry() {
    let mut ledger = PendingLedger::new();
    assert!(!ledger.contains(7, 0));
    ledger.note_request(7, 0, 100, 50);
    let e = ledger.get(7, 0).unwrap();
    assert_eq!(e.missing_parts, 1);
    assert_eq!(e.wait_until, 150);
    ledger.note_request(7, 0, 110, 50);
    assert_eq!(ledger.get(7, 0).unwrap().missing_parts, 2);
    // One part arrives: count drops; the second arrival removes the entry.
    ledger.on_part_received(7, 0);
    assert_eq!(ledger.get(7, 0).unwrap().missing_parts, 1);
    ledger.on_part_received(7, 0);
    assert!(ledger.get(7, 0).is_none());
    // An expired entry is swept; an unexpired one stays.
    ledger.note_request(7, 0, 100, 50);
    ledger.note_request(8, 0, 100, 500);
    ledger.sweep_expired(200);
    assert!(!ledger.contains(7, 0));
    assert!(ledger.contains(8, 0));
}
