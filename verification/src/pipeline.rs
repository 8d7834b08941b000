//! The indexing pipeline: one cycle, run as one transaction.
//!
//! A cycle claims a bounded batch of Pending block hashes, extracts the
//! records their receipts emit, inserts them with the insert-if-absent
//! policy, and commits — or aborts, leaving the committed state exactly as
//! it was. The potentially slow ledger reads and the extraction run off the
//! transaction (in the real system on a separate worker); the handoff may
//! fail, and any such failure rolls the whole cycle back.

use vstd::prelude::*;

use crate::extract::{extract_logs, spec_extract_logs, views_of_logs, BlockData, LogView};
use crate::records::bytes_eq;
use crate::store::{
    spec_claim_hashes, spec_claim_rows, spec_insert_logs, views_of_bytes, Store, StoreView,
};

verus! {

/// The ledger state the client serves: what it returns for each block, by
/// block hash. Reads are pure: the state at a block never changes.
pub struct Ledger {
    pub blocks: Vec<BlockData>,
}

/// The block the client returns for hash `h`, scanning from position `i`.
pub open spec fn spec_lookup_from(blocks: Seq<BlockData>, h: Seq<u8>, i: int) -> Option<BlockData>
    decreases blocks.len() - i,
{
    if i < 0 || i >= blocks.len() {
        Option::None
    } else if blocks[i].substrate_block_hash@ == h {
        Option::Some(blocks[i])
    } else {
        spec_lookup_from(blocks, h, i + 1)
    }
}

/// The block the client returns for hash `h`, if it knows one.
pub open spec fn spec_lookup(blocks: Seq<BlockData>, h: Seq<u8>) -> Option<BlockData> {
    spec_lookup_from(blocks, h, 0)
}

/// Everything one cycle extracts for the claimed hashes from position `i`
/// on, in claim order. A hash the ledger does not know contributes nothing:
/// its height degrades to zero and it has no receipts to walk.
pub open spec fn spec_cycle_records(blocks: Seq<BlockData>, hashes: Seq<Seq<u8>>, i: int) -> Seq<
    LogView,
>
    decreases hashes.len() - i,
{
    if i < 0 || i >= hashes.len() {
        Seq::empty()
    } else {
        (match spec_lookup(blocks, hashes[i]) {
            Option::Some(b) => spec_extract_logs(b),
            Option::None => Seq::empty(),
        }) + spec_cycle_records(blocks, hashes, i + 1)
    }
}

/// The committed state one successful cycle of batch size `n` leaves: the
/// claimed rows Indexed, and every record their blocks emit inserted under
/// the insert-if-absent policy.
pub open spec fn spec_run_cycle(sv: StoreView, blocks: Seq<BlockData>, n: nat) -> StoreView {
    StoreView {
        sync_status: spec_claim_rows(sv.sync_status, n),
        logs: spec_insert_logs(
            sv.logs,
            spec_cycle_records(blocks, spec_claim_hashes(sv.sync_status, n), 0),
        ),
    }
}

/// How one cycle ended.
#[derive(Debug, PartialEq, Eq, Structural, Clone, Copy)]
pub enum CycleOutcome {
    /// The transaction committed; `claimed` hashes were marked Indexed.
    Committed { claimed: usize },
    /// The extraction handoff failed; the transaction rolled back.
    Aborted,
}

impl Ledger {
    /// Well-formed ledger data for every block.
    pub open spec fn wf(self) -> bool {
        forall|i: int| 0 <= i < self.blocks@.len() ==> (#[trigger] self.blocks@[i]).wf()
    }

    /// The client's read of one block's data by hash.
    pub fn lookup(&self, h: &Vec<u8>) -> (r: Option<&BlockData>)
        ensures
            match r {
                Option::Some(b) => spec_lookup(self.blocks@, h@) == Option::Some(*b),
                Option::None => spec_lookup(self.blocks@, h@) is None,
            },
    {
        let mut i: usize = 0;
        while i < self.blocks.len()
            invariant
                i <= self.blocks@.len(),
                spec_lookup(self.blocks@, h@) == spec_lookup_from(self.blocks@, h@, i as int),
            decreases self.blocks@.len() - i,
        {
            if bytes_eq(&self.blocks[i].substrate_block_hash, h) {
                return Option::Some(&self.blocks[i]);
            }
            i = i + 1;
        }
        Option::None
    }
}

/// Runs one indexing cycle against the store: claim up to `batch_size`
/// Pending hashes, extract their blocks' records from the ledger, insert
/// them idempotently, commit. `handoff_ok` is whether the extraction
/// handoff returned; when it did not, the cycle aborts and the committed
/// state is untouched — no row is marked Indexed without its records, and
/// no record of the batch is visible.
pub fn run_cycle(store: &mut Store, ledger: &Ledger, batch_size: usize, handoff_ok: bool) -> (r:
    CycleOutcome)
    requires
        old(store).wf(),
        ledger.wf(),
    ensures
        final(store).wf(),
        !handoff_ok ==> final(store)@ == old(store)@ && r is Aborted,
        handoff_ok ==> final(store)@ == spec_run_cycle(
            old(store)@,
            ledger.blocks@,
            batch_size as nat,
        ) && (r matches CycleOutcome::Committed { claimed } && claimed
            == spec_claim_hashes(old(store)@.sync_status, batch_size as nat).len()),
{
    if !handoff_ok {
        return CycleOutcome::Aborted;
    }
    let claimed = store.claim_batch(batch_size);
    let ghost hs: Seq<Seq<u8>> = views_of_bytes(claimed@);
    let mut extracted: Vec<crate::records::Log> = Vec::new();
    let mut i: usize = 0;
    proof {
        assert(views_of_logs(extracted@) =~= Seq::<LogView>::empty());
    }
    while i < claimed.len()
        invariant
            i <= hs.len(),
            hs == views_of_bytes(claimed@),
            ledger.wf(),
            spec_cycle_records(ledger.blocks@, hs, 0) == views_of_logs(extracted@)
                + spec_cycle_records(ledger.blocks@, hs, i as int),
            forall|k: int| 0 <= k < extracted@.len() ==> (#[trigger] extracted@[k]).wf(),
        decreases hs.len() - i,
    {
        let ghost before: Seq<crate::records::Log> = extracted@;
        match ledger.lookup(&claimed[i]) {
            Option::Some(block) => {
                proof {
                    assert(hs[i as int] == claimed@[i as int]@);
                    lemma_lookup_found(ledger.blocks@, hs[i as int], 0, *block);
                }
                let mut block_logs = extract_logs(block);
                let ghost added: Seq<crate::records::Log> = block_logs@;
                extracted.append(&mut block_logs);
                proof {
                    crate::extract::lemma_views_concat(before, added);
                    assert(views_of_logs(extracted@) == views_of_logs(before) + spec_extract_logs(
                        *block,
                    ));
                    assert forall|k: int|
                        0 <= k < extracted@.len() implies (#[trigger] extracted@[k]).wf() by {
                        if k < before.len() {
                            assert(extracted@[k] == before[k]);
                        } else {
                            assert(extracted@[k] == added[k - before.len()]);
                        }
                    }
                }
            },
            Option::None => {
                proof {
                    assert(views_of_logs(extracted@) + Seq::<LogView>::empty() =~= views_of_logs(
                        extracted@,
                    ));
                }
            },
        }
        proof {
            assert(spec_cycle_records(ledger.blocks@, hs, 0) =~= views_of_logs(extracted@)
                + spec_cycle_records(ledger.blocks@, hs, i as int + 1));
        }
        i = i + 1;
    }
    proof {
        assert(spec_cycle_records(ledger.blocks@, hs, hs.len() as int) =~= Seq::<LogView>::empty());
        assert(views_of_logs(extracted@) + Seq::<LogView>::empty() =~= views_of_logs(extracted@));
        assert(views_of_logs(extracted@) == spec_cycle_records(ledger.blocks@, hs, 0));
    }
    let n = claimed.len();
    store.insert_logs(&extracted);
    proof {
        assert(store@ =~= spec_run_cycle(old(store)@, ledger.blocks@, batch_size as nat));
    }
    CycleOutcome::Committed { claimed: n }
}

proof fn lemma_lookup_found(blocks: Seq<BlockData>, h: Seq<u8>, i: int, b: BlockData)
    requires
        spec_lookup_from(blocks, h, i) == Option::Some(b),
        0 <= i,
        forall|k: int| 0 <= k < blocks.len() ==> (#[trigger] blocks[k]).wf(),
    ensures
        b.wf(),
    decreases blocks.len() - i,
{
    if i < blocks.len() {
        if blocks[i].substrate_block_hash@ == h {
        } else {
            lemma_lookup_found(blocks, h, i + 1, b);
        }
    }
}

} // verus!
