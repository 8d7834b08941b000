//! Tests of the receipt decoder: record shapes, ordering, topic padding,
//! height degradation, and determinism.

use eth_log_indexer::extract::{extract_batch, extract_logs, BlockData, EthLog, Receipt, ReceiptData};

fn h32(b: u8) -> Vec<u8> {
    vec![b; 32]
}

fn a20(b: u8) -> Vec<u8> {
    vec![b; 20]
}

fn one_log_block() -> BlockData {
    BlockData {
        substrate_block_hash: h32(0xBB),
        number: Some(7),
        schema_slot: Some(vec![3]),
        receipts: Some(vec![
            Receipt::Legacy(ReceiptData { logs: vec![] }),
            Receipt::EIP1559(ReceiptData {
                logs: vec![EthLog { address: a20(0xAA), topics: vec![h32(0x11)] }],
            }),
        ]),
    }
}

#[test]
fn two_receipts_first_empty() {
    let rows = extract_logs(&one_log_block());
    assert_eq!(rows.len(), 1);
    let row = &rows[0];
    assert_eq!(row.block_number, 7);
    assert_eq!(row.address, a20(0xAA));
    assert_eq!(row.transaction_index, 1);
    assert_eq!(row.log_index, 0);
    assert_eq!(row.topic_1, h32(0x11));
    assert_eq!(row.topic_2, h32(0x00));
    assert_eq!(row.topic_3, h32(0x00));
    assert_eq!(row.topic_4, h32(0x00));
    assert_eq!(row.substrate_block_hash, h32(0xBB));
}

#[test]
fn extraction_is_deterministic() {
    let block = one_log_block();
    let first = extract_logs(&block);
    let second = extract_logs(&block);
    assert_eq!(first, second);
}

#[test]
fn order_follows_receipts_then_logs() {
    let block = BlockData {
        substrate_block_hash: h32(1),
        number: Some(1),
        schema_slot: None,
        receipts: Some(vec![
            Receipt::EIP2930(ReceiptData {
                logs: vec![
                    EthLog { address: a20(1), topics: vec![] },
                    EthLog { address: a20(2), topics: vec![] },
                ],
            }),
            Receipt::Legacy(ReceiptData {
                logs: vec![EthLog { address: a20(3), topics: vec![] }],
            }),
        ]),
    };
    let rows = extract_logs(&block);
    assert_eq!(rows.len(), 3);
    assert_eq!(
        (rows[0].transaction_index, rows[0].log_index, rows[0].address.clone()),
        (0, 0, a20(1))
    );
    assert_eq!(
        (rows[1].transaction_index, rows[1].log_index, rows[1].address.clone()),
        (0, 1, a20(2))
    );
    assert_eq!(
        (rows[2].transaction_index, rows[2].log_index, rows[2].address.clone()),
        (1, 0, a20(3))
    );
}

#[test]
fn four_topics_and_excess_are_kept_in_order() {
    let block = BlockData {
        substrate_block_hash: h32(1),
        number: Some(1),
        schema_slot: None,
        receipts: Some(vec![Receipt::Legacy(ReceiptData {
            logs: vec![EthLog {
                address: a20(1),
                topics: vec![h32(0x10), h32(0x20), h32(0x30), h32(0x40)],
            }],
        })]),
    };
    let rows = extract_logs(&block);
    assert_eq!(rows.len(), 1);
    assert_eq!(rows[0].topic_1, h32(0x10));
    assert_eq!(rows[0].topic_2, h32(0x20));
    assert_eq!(rows[0].topic_3, h32(0x30));
    assert_eq!(rows[0].topic_4, h32(0x40));
}

#[test]
fn missing_height_degrades_to_zero() {
    let block = BlockData {
        substrate_block_hash: h32(2),
        number: None,
        schema_slot: None,
        receipts: Some(vec![Receipt::Legacy(ReceiptData {
            logs: vec![EthLog { address: a20(5), topics: vec![] }],
        })]),
    };
    let rows = extract_logs(&block);
    assert_eq!(rows.len(), 1);
    assert_eq!(rows[0].block_number, 0);
}

#[test]
fn height_saturates_into_row_type() {
    let block = BlockData {
        substrate_block_hash: h32(2),
        number: Some(u64::MAX),
        schema_slot: None,
        receipts: Some(vec![Receipt::Legacy(ReceiptData {
            logs: vec![EthLog { address: a20(5), topics: vec![] }],
        })]),
    };
    let rows = extract_logs(&block);
    assert_eq!(rows[0].block_number, i32::MAX);
}

#[test]
fn no_receipts_no_records() {
    let none = BlockData {
        substrate_block_hash: h32(3),
        number: Some(4),
        schema_slot: None,
        receipts: None,
    };
    assert_eq!(extract_logs(&none).len(), 0);
    let empty = BlockData {
        substrate_block_hash: h32(3),
        number: Some(4),
        schema_slot: None,
        receipts: Some(vec![]),
    };
    assert_eq!(extract_logs(&empty).len(), 0);
}

#[test]
fn undecodable_schema_slot_still_extracts() {
    let block = BlockData {
        substrate_block_hash: h32(9),
        number: Some(12),
        schema_slot: Some(vec![250, 250, 250]),
        receipts: Some(vec![Receipt::Legacy(ReceiptData {
            logs: vec![EthLog { address: a20(7), topics: vec![h32(0x77)] }],
        })]),
    };
    let rows = extract_logs(&block);
    assert_eq!(rows.len(), 1);
    assert_eq!(rows[0].topic_1, h32(0x77));
}

#[test]
fn batch_keeps_block_order() {
    let block_a = one_log_block();
    let block_b = BlockData {
        substrate_block_hash: h32(0xCC),
        number: Some(8),
        schema_slot: None,
        receipts: Some(vec![Receipt::Legacy(ReceiptData {
            logs: vec![EthLog { address: a20(0xDD), topics: vec![] }],
        })]),
    };
    let rows = extract_batch(&vec![block_a, block_b]);
    assert_eq!(rows.len(), 2);
    assert_eq!(rows[0].substrate_block_hash, h32(0xBB));
    assert_eq!(rows[1].substrate_block_hash, h32(0xCC));
}
