//! The schema-version resolver.
//!
//! The encoding of receipts in ledger state has changed across protocol
//! upgrades. A well-known storage slot holds the version tag active at a
//! block; the indexer decodes it and selects the decoder strategy registered
//! for that exact version, degrading to a fallback strategy when the slot is
//! absent, unreadable, or unknown. Resolution never fails the caller.

use vstd::prelude::*;

verus! {

/// The on-chain storage schema version active at a block.
#[derive(Debug, PartialEq, Eq, Structural, Clone, Copy)]
pub enum EthereumStorageSchema {
    Undefined,
    V1,
    V2,
    V3,
}

/// What the version slot's bytes decode to.
///
/// The slot holds the version as a one-byte variant index; trailing bytes
/// are ignored. An empty slot or an index out of range fails to decode, and
/// every decoding failure degrades to `Undefined` — the same tag that index
/// zero decodes to, so the two cases collapse here.
pub open spec fn spec_decode_schema(b: Seq<u8>) -> EthereumStorageSchema {
    if b.len() >= 1 && b[0] == 1 {
        EthereumStorageSchema::V1
    } else if b.len() >= 1 && b[0] == 2 {
        EthereumStorageSchema::V2
    } else if b.len() >= 1 && b[0] == 3 {
        EthereumStorageSchema::V3
    } else {
        EthereumStorageSchema::Undefined
    }
}

/// The version a block resolves to, given what the ledger returned for its
/// version slot: absent slots resolve to `Undefined`.
pub open spec fn spec_resolve_schema(slot: Option<Seq<u8>>) -> EthereumStorageSchema {
    match slot {
        Option::Some(b) => spec_decode_schema(b),
        Option::None => EthereumStorageSchema::Undefined,
    }
}

/// Decodes the version slot's bytes; never fails, degrading to `Undefined`.
pub fn decode_schema(b: &Vec<u8>) -> (r: EthereumStorageSchema)
    ensures
        r == spec_decode_schema(b@),
{
    if b.len() >= 1 && b[0] == 1 {
        EthereumStorageSchema::V1
    } else if b.len() >= 1 && b[0] == 2 {
        EthereumStorageSchema::V2
    } else if b.len() >= 1 && b[0] == 3 {
        EthereumStorageSchema::V3
    } else {
        EthereumStorageSchema::Undefined
    }
}

/// Resolves the schema version active at a block from the raw contents of
/// its version slot; `None` stands for an absent or unreadable slot.
pub fn onchain_storage_schema(slot: &Option<Vec<u8>>) -> (r: EthereumStorageSchema)
    ensures
        r == spec_resolve_schema(match *slot {
            Option::Some(b) => Option::Some(b@),
            Option::None => Option::None,
        }),
{
    match slot {
        Option::Some(b) => decode_schema(b),
        Option::None => EthereumStorageSchema::Undefined,
    }
}

/// One registered decoder strategy: the schema version it serves, and the
/// caller's identifier for the strategy itself.
#[derive(Debug, Clone, Copy)]
pub struct SchemaEntry {
    pub version: EthereumStorageSchema,
    pub handler: u32,
}

/// The registry of decoder strategies, one per known schema version, plus
/// the designated fallback. Read-only after initialization.
pub struct SchemaRegistry {
    pub entries: Vec<SchemaEntry>,
    pub fallback: u32,
}

/// The strategy selected for version `v`, scanning from position `i`:
/// the first entry registered for exactly `v`, else the fallback.
pub open spec fn spec_select_from(
    entries: Seq<SchemaEntry>,
    fallback: u32,
    v: EthereumStorageSchema,
    i: int,
) -> u32
    decreases entries.len() - i,
{
    if i < 0 || i >= entries.len() {
        fallback
    } else if entries[i].version == v {
        entries[i].handler
    } else {
        spec_select_from(entries, fallback, v, i + 1)
    }
}

/// The strategy the registry selects for version `v`.
pub open spec fn spec_select(entries: Seq<SchemaEntry>, fallback: u32, v: EthereumStorageSchema) -> u32 {
    spec_select_from(entries, fallback, v, 0)
}

impl SchemaRegistry {
    /// A well-formed registry registers each version at most once.
    pub open spec fn wf(self) -> bool {
        forall|i: int, j: int|
            0 <= i < j < self.entries@.len() ==> self.entries@[i].version != self.entries@[j].version
    }

    /// Looks up the strategy registered for exactly `v`; when none is, the
    /// designated fallback. Never errors, never panics.
    pub fn select(&self, v: EthereumStorageSchema) -> (r: u32)
        ensures
            r == spec_select(self.entries@, self.fallback, v),
    {
        let mut i: usize = 0;
        while i < self.entries.len()
            invariant
                i <= self.entries@.len(),
                spec_select(self.entries@, self.fallback, v)
                    == spec_select_from(self.entries@, self.fallback, v, i as int),
            decreases self.entries@.len() - i,
        {
            if self.entries[i].version == v {
                return self.entries[i].handler;
            }
            i = i + 1;
        }
        self.fallback
    }
}

/// An unknown version — one no entry is registered for — always selects the
/// fallback strategy.
pub proof fn lemma_select_unregistered(
    entries: Seq<SchemaEntry>,
    fallback: u32,
    v: EthereumStorageSchema,
)
    requires
        forall|i: int| 0 <= i < entries.len() ==> entries[i].version != v,
    ensures
        spec_select(entries, fallback, v) == fallback,
{
    lemma_select_from_unregistered(entries, fallback, v, 0);
}

proof fn lemma_select_from_unregistered(
    entries: Seq<SchemaEntry>,
    fallback: u32,
    v: EthereumStorageSchema,
    i: int,
)
    requires
        forall|k: int| 0 <= k < entries.len() ==> entries[k].version != v,
        0 <= i,
    ensures
        spec_select_from(entries, fallback, v, i) == fallback,
    decreases entries.len() - i,
{
    if i < entries.len() {
        lemma_select_from_unregistered(entries, fallback, v, i + 1);
    }
}

/// A version slot that is absent, empty, or whose leading byte is no known
/// version tag resolves to `Undefined`: resolution degrades, never fails.
pub proof fn lemma_schema_fallback(slot: Option<Seq<u8>>)
    requires
        slot matches Option::Some(b) ==> b.len() == 0 || (b[0] != 1 && b[0] != 2 && b[0] != 3),
    ensures
        spec_resolve_schema(slot) == EthereumStorageSchema::Undefined,
{
}

} // verus!
