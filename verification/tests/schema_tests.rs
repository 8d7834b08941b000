//! Tests of the schema-version resolver: decoding the version slot and
//! selecting a decoder strategy with fallback.

use eth_log_indexer::schema::{
    decode_schema, onchain_storage_schema, EthereumStorageSchema, SchemaEntry, SchemaRegistry,
};

fn registry() -> SchemaRegistry {
    SchemaRegistry {
        entries: vec![
            SchemaEntry { version: EthereumStorageSchema::V1, handler: 1 },
            SchemaEntry { version: EthereumStorageSchema::V2, handler: 2 },
            SchemaEntry { version: EthereumStorageSchema::V3, handler: 3 },
        ],
        fallback: 0,
    }
}

#[test]
fn decode_known_versions() {
    assert_eq!(decode_schema(&vec![1]), EthereumStorageSchema::V1);
    assert_eq!(decode_schema(&vec![2]), EthereumStorageSchema::V2);
    assert_eq!(decode_schema(&vec![3]), EthereumStorageSchema::V3);
    assert_eq!(decode_schema(&vec![0]), EthereumStorageSchema::Undefined);
}

#[test]
fn decode_ignores_trailing_bytes() {
    assert_eq!(decode_schema(&vec![1, 77, 5]), EthereumStorageSchema::V1);
    assert_eq!(decode_schema(&vec![3, 0]), EthereumStorageSchema::V3);
}

#[test]
fn decode_degrades_on_garbage() {
    assert_eq!(decode_schema(&vec![]), EthereumStorageSchema::Undefined);
    assert_eq!(decode_schema(&vec![9]), EthereumStorageSchema::Undefined);
    assert_eq!(decode_schema(&vec![255, 1]), EthereumStorageSchema::Undefined);
}

#[test]
fn resolve_absent_slot() {
    assert_eq!(onchain_storage_schema(&None), EthereumStorageSchema::Undefined);
    assert_eq!(
        onchain_storage_schema(&Some(vec![2])),
        EthereumStorageSchema::V2
    );
}

#[test]
fn select_registered_version() {
    let r = registry();
    assert_eq!(r.select(EthereumStorageSchema::V1), 1);
    assert_eq!(r.select(EthereumStorageSchema::V2), 2);
    assert_eq!(r.select(EthereumStorageSchema::V3), 3);
}

#[test]
fn select_unregistered_version_falls_back() {
    let r = registry();
    assert_eq!(r.select(EthereumStorageSchema::Undefined), 0);
    let empty = SchemaRegistry { entries: vec![], fallback: 7 };
    assert_eq!(empty.select(EthereumStorageSchema::V2), 7);
}

#[test]
fn undecodable_slot_selects_fallback() {
    let r = registry();
    let resolved = onchain_storage_schema(&Some(vec![200, 200]));
    assert_eq!(resolved, EthereumStorageSchema::Undefined);
    assert_eq!(r.select(resolved), 0);
}
