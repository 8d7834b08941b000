//! Tests of the indexing pipeline: one-cycle commit, abort/rollback, and
//! draining the queue over repeated cycles.

use eth_log_indexer::extract::{extract_batch, BlockData, EthLog, Receipt, ReceiptData};
use eth_log_indexer::pipeline::{run_cycle, CycleOutcome, Ledger};
use eth_log_indexer::store::{BlockStatus, Store};

fn h32(b: u8) -> Vec<u8> {
    vec![b; 32]
}

fn a20(b: u8) -> Vec<u8> {
    vec![b; 20]
}

fn h_idx(i: usize) -> Vec<u8> {
    let mut h = vec![0u8; 32];
    h[0] = i as u8;
    h[1] = (i >> 8) as u8;
    h
}

fn block_with_one_log(hash: Vec<u8>, number: u64, addr: u8, topic: u8) -> BlockData {
    BlockData {
        substrate_block_hash: hash,
        number: Some(number),
        schema_slot: Some(vec![3]),
        receipts: Some(vec![
            Receipt::Legacy(ReceiptData { logs: vec![] }),
            Receipt::EIP1559(ReceiptData {
                logs: vec![EthLog { address: a20(addr), topics: vec![h32(topic)] }],
            }),
        ]),
    }
}

#[test]
fn one_cycle_commits_block_records() {
    let mut store = Store::new();
    store.insert_sync_status(&vec![h32(0xBB)]);
    let ledger = Ledger { blocks: vec![block_with_one_log(h32(0xBB), 7, 0xAA, 0x11)] };

    let outcome = run_cycle(&mut store, &ledger, 10, true);
    assert_eq!(outcome, CycleOutcome::Committed { claimed: 1 });
    assert_eq!(store.sync_status[0].status, BlockStatus::Indexed);
    assert_eq!(store.logs.len(), 1);
    let row = &store.logs[0];
    assert_eq!(row.block_number, 7);
    assert_eq!(row.address, a20(0xAA));
    assert_eq!(row.transaction_index, 1);
    assert_eq!(row.log_index, 0);
    assert_eq!(row.topic_1, h32(0x11));
    assert_eq!(row.topic_2, h32(0x00));
    assert_eq!(row.topic_3, h32(0x00));
    assert_eq!(row.topic_4, h32(0x00));
    assert_eq!(row.substrate_block_hash, h32(0xBB));
}

#[test]
fn failed_handoff_rolls_the_cycle_back() {
    let mut store = Store::new();
    store.insert_sync_status(&vec![h32(1), h32(2)]);
    let ledger = Ledger { blocks: vec![block_with_one_log(h32(1), 3, 0x0A, 0x0B)] };

    let outcome = run_cycle(&mut store, &ledger, 10, false);
    assert_eq!(outcome, CycleOutcome::Aborted);
    // The affected rows are observably still Pending; no log row of the
    // batch is visible.
    assert_eq!(store.sync_status.len(), 2);
    assert_eq!(store.sync_status[0].status, BlockStatus::Pending);
    assert_eq!(store.sync_status[1].status, BlockStatus::Pending);
    assert!(store.logs.is_empty());

    // The next cycle is unaffected and picks the rows up.
    let outcome = run_cycle(&mut store, &ledger, 10, true);
    assert_eq!(outcome, CycleOutcome::Committed { claimed: 2 });
    assert_eq!(store.sync_status[0].status, BlockStatus::Indexed);
    assert_eq!(store.logs.len(), 1);
}

#[test]
fn unknown_block_degrades_and_continues() {
    let mut store = Store::new();
    store.insert_sync_status(&vec![h32(1), h32(2)]);
    // The ledger knows only the second block.
    let ledger = Ledger { blocks: vec![block_with_one_log(h32(2), 5, 0x0C, 0x0D)] };

    let outcome = run_cycle(&mut store, &ledger, 10, true);
    assert_eq!(outcome, CycleOutcome::Committed { claimed: 2 });
    assert_eq!(store.sync_status[0].status, BlockStatus::Indexed);
    assert_eq!(store.sync_status[1].status, BlockStatus::Indexed);
    assert_eq!(store.logs.len(), 1);
    assert_eq!(store.logs[0].substrate_block_hash, h32(2));
}

#[test]
fn empty_queue_cycle_is_a_noop_commit() {
    let mut store = Store::new();
    let ledger = Ledger { blocks: vec![] };
    let outcome = run_cycle(&mut store, &ledger, 1000, true);
    assert_eq!(outcome, CycleOutcome::Committed { claimed: 0 });
    assert!(store.sync_status.is_empty());
    assert!(store.logs.is_empty());
}

#[test]
fn repeated_cycles_drain_ten_thousand_rows() {
    let mut store = Store::new();
    let hashes: Vec<Vec<u8>> = (0..10_000).map(h_idx).collect();
    store.insert_sync_status(&hashes);
    assert_eq!(store.sync_status.len(), 10_000);

    // The ledger knows a handful of the blocks; the rest degrade to empty
    // extractions.
    let known: Vec<BlockData> = (0..5)
        .map(|i| block_with_one_log(h_idx(i), i as u64 + 1, i as u8 + 1, 0x11))
        .collect();
    let ledger = Ledger { blocks: known };

    let mut cycles = 0;
    loop {
        let outcome = run_cycle(&mut store, &ledger, 1000, true);
        cycles += 1;
        match outcome {
            CycleOutcome::Committed { claimed: 0 } => break,
            CycleOutcome::Committed { claimed } => assert_eq!(claimed, 1000),
            CycleOutcome::Aborted => panic!("no cycle was given a failing handoff"),
        }
        assert!(cycles <= 10, "the queue must drain in at most ten cycles");
    }
    assert_eq!(cycles, 11); // ten claiming cycles, one empty commit
    for row in &store.sync_status {
        assert_eq!(row.status, BlockStatus::Indexed);
    }

    // The union of everything the cycles inserted equals one extraction
    // over all known blocks, with no duplicates.
    let expected = extract_batch(&ledger.blocks);
    assert_eq!(store.logs, expected);
}
