//! The record types held by the relational store.

use vstd::prelude::*;

verus! {

/// Number of bytes in a contract address.
pub const ADDRESS_LEN: usize = 20;

/// Number of bytes in a topic or a block hash.
pub const HASH_LEN: usize = 32;

/// One emitted event log, as a row of the `logs` table.
///
/// The triple `(log_index, transaction_index, substrate_block_hash)` is the
/// natural key: re-extraction of the same block must never create duplicates.
#[derive(Debug, Eq, PartialEq, Clone)]
pub struct Log {
    pub block_number: i32,
    pub address: Vec<u8>,
    pub topic_1: Vec<u8>,
    pub topic_2: Vec<u8>,
    pub topic_3: Vec<u8>,
    pub topic_4: Vec<u8>,
    pub log_index: i32,
    pub transaction_index: i32,
    pub substrate_block_hash: Vec<u8>,
}

impl Log {
    /// The natural key of the row: position of the log in its receipt,
    /// position of the receipt in its block, and the source block hash.
    pub open spec fn key(self) -> (int, int, Seq<u8>) {
        (self.log_index as int, self.transaction_index as int, self.substrate_block_hash@)
    }

    /// A well-formed row: byte strings of their fixed widths, indices
    /// non-negative.
    pub open spec fn wf(self) -> bool {
        &&& self.address@.len() == ADDRESS_LEN
        &&& self.topic_1@.len() == HASH_LEN
        &&& self.topic_2@.len() == HASH_LEN
        &&& self.topic_3@.len() == HASH_LEN
        &&& self.topic_4@.len() == HASH_LEN
        &&& self.substrate_block_hash@.len() == HASH_LEN
        &&& self.block_number >= 0
        &&& self.log_index >= 0
        &&& self.transaction_index >= 0
    }
}

/// Byte-string equality, used wherever the store compares hashes or keys.
pub fn bytes_eq(a: &Vec<u8>, b: &Vec<u8>) -> (r: bool)
    ensures
        r == (a@ == b@),
{
    if a.len() != b.len() {
        return false;
    }
    let mut i: usize = 0;
    while i < a.len()
        invariant
            i <= a.len(),
            a@.len() == b@.len(),
            forall|j: int| 0 <= j < i ==> a@[j] == b@[j],
        decreases a.len() - i,
    {
        if a[i] != b[i] {
            return false;
        }
        i = i + 1;
    }
    proof {
        assert(a@ =~= b@);
    }
    true
}

} // verus!
