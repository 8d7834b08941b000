//! Tests of the store model: the indexing queue's insert-if-absent, the
//! atomic batch claim, and the idempotent log insert.

use eth_log_indexer::store::{BlockStatus, Store};
use eth_log_indexer::Log;

fn h32(b: u8) -> Vec<u8> {
    vec![b; 32]
}

fn a20(b: u8) -> Vec<u8> {
    vec![b; 20]
}

fn log_row(tx: i32, li: i32, hash: u8) -> Log {
    Log {
        block_number: 1,
        address: a20(1),
        topic_1: h32(0),
        topic_2: h32(0),
        topic_3: h32(0),
        topic_4: h32(0),
        log_index: li,
        transaction_index: tx,
        substrate_block_hash: h32(hash),
    }
}

#[test]
fn insert_sync_status_overlap_is_noop() {
    let mut store = Store::new();
    store.insert_sync_status(&vec![h32(1), h32(2)]);
    assert_eq!(store.sync_status.len(), 2);
    store.insert_sync_status(&vec![h32(2), h32(3)]);
    assert_eq!(store.sync_status.len(), 3);
    assert_eq!(store.sync_status[0].substrate_block_hash, h32(1));
    assert_eq!(store.sync_status[1].substrate_block_hash, h32(2));
    assert_eq!(store.sync_status[2].substrate_block_hash, h32(3));
    for row in &store.sync_status {
        assert_eq!(row.status, BlockStatus::Pending);
    }
}

#[test]
fn insert_sync_status_dedups_within_one_call() {
    let mut store = Store::new();
    store.insert_sync_status(&vec![h32(5), h32(5), h32(5)]);
    assert_eq!(store.sync_status.len(), 1);
}

#[test]
fn claim_takes_pending_in_storage_order() {
    let mut store = Store::new();
    store.insert_sync_status(&vec![h32(1), h32(2), h32(3)]);
    let claimed = store.claim_batch(2);
    assert_eq!(claimed, vec![h32(1), h32(2)]);
    assert_eq!(store.sync_status[0].status, BlockStatus::Indexed);
    assert_eq!(store.sync_status[1].status, BlockStatus::Indexed);
    assert_eq!(store.sync_status[2].status, BlockStatus::Pending);

    let claimed = store.claim_batch(2);
    assert_eq!(claimed, vec![h32(3)]);
    assert_eq!(store.sync_status[2].status, BlockStatus::Indexed);

    let claimed = store.claim_batch(2);
    assert!(claimed.is_empty());
}

#[test]
fn claim_zero_claims_nothing() {
    let mut store = Store::new();
    store.insert_sync_status(&vec![h32(1)]);
    let claimed = store.claim_batch(0);
    assert!(claimed.is_empty());
    assert_eq!(store.sync_status[0].status, BlockStatus::Pending);
}

#[test]
fn indexed_status_never_reverts() {
    let mut store = Store::new();
    store.insert_sync_status(&vec![h32(1)]);
    let claimed = store.claim_batch(10);
    assert_eq!(claimed.len(), 1);
    assert_eq!(store.sync_status[0].status, BlockStatus::Indexed);
    // A late notification of the same block re-enters the queue: no
    // duplicate row, and the status stays Indexed.
    store.insert_sync_status(&vec![h32(1)]);
    assert_eq!(store.sync_status.len(), 1);
    assert_eq!(store.sync_status[0].status, BlockStatus::Indexed);
}

#[test]
fn insert_logs_twice_leaves_table_unchanged() {
    let mut store = Store::new();
    let batch = vec![log_row(0, 0, 9), log_row(0, 1, 9), log_row(1, 0, 9)];
    store.insert_logs(&batch);
    assert_eq!(store.logs.len(), 3);
    let snapshot: Vec<Log> = batch.clone();
    store.insert_logs(&batch);
    assert_eq!(store.logs.len(), 3);
    assert_eq!(store.logs, snapshot);
}

#[test]
fn insert_logs_dedups_within_one_call() {
    let mut store = Store::new();
    let twice = vec![log_row(2, 4, 9), log_row(2, 4, 9)];
    store.insert_logs(&twice);
    assert_eq!(store.logs.len(), 1);
}

#[test]
fn natural_key_distinguishes_blocks() {
    let mut store = Store::new();
    // Same positions, different source blocks: distinct natural keys.
    store.insert_logs(&vec![log_row(0, 0, 1), log_row(0, 0, 2)]);
    assert_eq!(store.logs.len(), 2);
}

#[test]
fn overlapping_cycles_keep_keys_unique() {
    // Two cycles extracted the same block (the documented overlap trade):
    // both insert the same records; the table holds one copy, and the
    // block's status stays Indexed.
    let mut store = Store::new();
    store.insert_sync_status(&vec![h32(7)]);
    let records = vec![log_row(0, 0, 7), log_row(0, 1, 7)];

    let claimed_by_a = store.claim_batch(10);
    assert_eq!(claimed_by_a, vec![h32(7)]);
    store.insert_logs(&records);
    // Cycle B selected the same hash before A committed; its re-mark and
    // insert land after.
    store.insert_logs(&records);
    assert_eq!(store.logs.len(), 2);
    assert_eq!(store.sync_status[0].status, BlockStatus::Indexed);
}

#[test]
fn two_inserts_equal_one_insert_of_the_union() {
    let first = vec![log_row(0, 0, 1), log_row(0, 1, 1)];
    let second = vec![log_row(0, 1, 1), log_row(1, 0, 1)];

    let mut two_steps = Store::new();
    two_steps.insert_logs(&first);
    two_steps.insert_logs(&second);

    let mut one_step = Store::new();
    let mut union = first.clone();
    union.extend(second.clone());
    one_step.insert_logs(&union);

    assert_eq!(two_steps.logs, one_step.logs);
    assert_eq!(two_steps.logs.len(), 3);
}
