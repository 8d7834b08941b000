//! An exact model of the relational store's two tables and of the writes
//! the engine issues against them: bulk insert-if-absent of Pending rows,
//! the atomic batch claim, and the idempotent insert of log records.
//!
//! A `Store` value stands for the committed state of the database. The
//! relational engine keeps `substrate_block_hash` unique in `sync_status`
//! and the natural key unique in `logs`; here both are the `wf` invariant,
//! established and preserved by every operation.

use vstd::prelude::*;
use vstd::pervasive::VecAdditionalExecFns;

use crate::extract::{clone_bytes, log_copy, views_of_logs, LogView};
use crate::records::{bytes_eq, Log, HASH_LEN};

verus! {

/// The indexing state of one known block.
#[derive(Debug, PartialEq, Eq, Structural, Clone, Copy)]
pub enum BlockStatus {
    Pending,
    Indexed,
}

/// One row of the `sync_status` table.
#[derive(Debug)]
pub struct SyncRow {
    pub substrate_block_hash: Vec<u8>,
    pub status: BlockStatus,
}

/// The mathematical value of one `sync_status` row.
#[verifier::ext_equal]
pub struct SyncRowView {
    pub substrate_block_hash: Seq<u8>,
    pub status: BlockStatus,
}

impl View for SyncRow {
    type V = SyncRowView;

    open spec fn view(&self) -> SyncRowView {
        SyncRowView {
            substrate_block_hash: self.substrate_block_hash@,
            status: self.status,
        }
    }
}

/// The values of a sequence of `sync_status` rows.
pub open spec fn views_of_sync(s: Seq<SyncRow>) -> Seq<SyncRowView> {
    s.map_values(|r: SyncRow| r@)
}

/// The values of a sequence of byte strings.
pub open spec fn views_of_bytes(s: Seq<Vec<u8>>) -> Seq<Seq<u8>> {
    s.map_values(|v: Vec<u8>| v@)
}

/// Whether some row carries hash `h`.
pub open spec fn sync_contains(rows: Seq<SyncRowView>, h: Seq<u8>) -> bool {
    exists|i: int| 0 <= i < rows.len() && rows[i].substrate_block_hash == h
}

/// The unique constraint on `sync_status`: one row per hash.
pub open spec fn sync_unique(rows: Seq<SyncRowView>) -> bool {
    forall|i: int, j: int|
        0 <= i < j < rows.len() ==> rows[i].substrate_block_hash != rows[j].substrate_block_hash
}

/// Whether some row of the `logs` table carries natural key `k`.
pub open spec fn logs_contain_key(table: Seq<LogView>, k: (int, int, Seq<u8>)) -> bool {
    exists|i: int| 0 <= i < table.len() && table[i].key() == k
}

/// The unique constraint on `logs`: one row per natural key.
pub open spec fn log_keys_unique(table: Seq<LogView>) -> bool {
    forall|i: int, j: int| 0 <= i < j < table.len() ==> table[i].key() != table[j].key()
}

/// The committed state of the database.
pub struct Store {
    pub sync_status: Vec<SyncRow>,
    pub logs: Vec<Log>,
}

/// The mathematical value of the database state.
#[verifier::ext_equal]
pub struct StoreView {
    pub sync_status: Seq<SyncRowView>,
    pub logs: Seq<LogView>,
}

impl View for Store {
    type V = StoreView;

    open spec fn view(&self) -> StoreView {
        StoreView { sync_status: views_of_sync(self.sync_status@), logs: views_of_logs(self.logs@) }
    }
}

/// Inserting one hash: a no-op when a row already carries it, else a new
/// Pending row at the end (insertion order is the storage order).
pub open spec fn spec_insert_one(rows: Seq<SyncRowView>, h: Seq<u8>) -> Seq<SyncRowView> {
    if sync_contains(rows, h) {
        rows
    } else {
        rows.push(SyncRowView { substrate_block_hash: h, status: BlockStatus::Pending })
    }
}

/// Bulk insert-if-absent of Pending rows, processing `hashes` in order from
/// position `i`.
pub open spec fn spec_insert_sync_from(
    rows: Seq<SyncRowView>,
    hashes: Seq<Seq<u8>>,
    i: int,
) -> Seq<SyncRowView>
    decreases hashes.len() - i,
{
    if i < 0 || i >= hashes.len() {
        rows
    } else {
        spec_insert_sync_from(spec_insert_one(rows, hashes[i]), hashes, i + 1)
    }
}

/// Bulk insert-if-absent of Pending rows: the entry point by which new
/// blocks enter the indexing queue.
pub open spec fn spec_insert_sync(rows: Seq<SyncRowView>, hashes: Seq<Seq<u8>>) -> Seq<SyncRowView> {
    spec_insert_sync_from(rows, hashes, 0)
}

/// The `sync_status` table after an atomic claim of up to `limit` Pending
/// rows, in storage order: each claimed row is re-written Indexed, every
/// other row is untouched.
pub open spec fn spec_claim_rows(rows: Seq<SyncRowView>, limit: nat) -> Seq<SyncRowView>
    decreases rows.len(),
{
    if rows.len() == 0 {
        rows
    } else if rows[0].status is Pending && limit > 0 {
        seq![
            SyncRowView {
                substrate_block_hash: rows[0].substrate_block_hash,
                status: BlockStatus::Indexed,
            },
        ] + spec_claim_rows(rows.drop_first(), (limit - 1) as nat)
    } else {
        seq![rows[0]] + spec_claim_rows(rows.drop_first(), limit)
    }
}

/// The hashes such a claim returns: those of the claimed rows, in storage
/// order.
pub open spec fn spec_claim_hashes(rows: Seq<SyncRowView>, limit: nat) -> Seq<Seq<u8>>
    decreases rows.len(),
{
    if rows.len() == 0 {
        Seq::empty()
    } else if rows[0].status is Pending && limit > 0 {
        seq![rows[0].substrate_block_hash] + spec_claim_hashes(rows.drop_first(), (limit - 1) as nat)
    } else {
        spec_claim_hashes(rows.drop_first(), limit)
    }
}

/// Inserting one log record: a no-op when a row already carries its
/// natural key, else a new row at the end.
pub open spec fn spec_insert_log_one(table: Seq<LogView>, l: LogView) -> Seq<LogView> {
    if logs_contain_key(table, l.key()) {
        table
    } else {
        table.push(l)
    }
}

/// Insert-if-absent of log records, processing `new` in order from
/// position `i`: duplicates of the natural key are silently discarded.
pub open spec fn spec_insert_logs_from(table: Seq<LogView>, new: Seq<LogView>, i: int) -> Seq<LogView>
    decreases new.len() - i,
{
    if i < 0 || i >= new.len() {
        table
    } else {
        spec_insert_logs_from(spec_insert_log_one(table, new[i]), new, i + 1)
    }
}

/// Insert-if-absent of log records keyed on the natural key.
pub open spec fn spec_insert_logs(table: Seq<LogView>, new: Seq<LogView>) -> Seq<LogView> {
    spec_insert_logs_from(table, new, 0)
}

fn sync_find(rows: &Vec<SyncRow>, h: &Vec<u8>) -> (r: bool)
    ensures
        r == sync_contains(views_of_sync(rows@), h@),
{
    let mut i: usize = 0;
    while i < rows.len()
        invariant
            i <= rows@.len(),
            forall|j: int| 0 <= j < i ==> views_of_sync(rows@)[j].substrate_block_hash != h@,
        decreases rows@.len() - i,
    {
        if bytes_eq(&rows[i].substrate_block_hash, h) {
            proof {
                assert(views_of_sync(rows@)[i as int].substrate_block_hash == h@);
            }
            return true;
        }
        i = i + 1;
    }
    false
}

impl Store {
    /// The store's invariant: both unique constraints, full-width hashes,
    /// and well-formed rows.
    pub open spec fn wf(self) -> bool {
        &&& sync_unique(self@.sync_status)
        &&& forall|i: int|
            0 <= i < self@.sync_status.len()
                ==> (#[trigger] self@.sync_status[i]).substrate_block_hash.len() == HASH_LEN
        &&& log_keys_unique(self@.logs)
        &&& forall|i: int| 0 <= i < self.logs@.len() ==> (#[trigger] self.logs@[i]).wf()
    }

    /// An empty store, as the schema bootstrap leaves a fresh database.
    pub fn new() -> (r: Store)
        ensures
            r@.sync_status == Seq::<SyncRowView>::empty(),
            r@.logs == Seq::<LogView>::empty(),
            r.wf(),
    {
        let r = Store { sync_status: Vec::new(), logs: Vec::new() };
        proof {
            assert(r@.sync_status =~= Seq::<SyncRowView>::empty());
            assert(r@.logs =~= Seq::<LogView>::empty());
        }
        r
    }

    /// Bulk insert of Pending rows, ignoring every hash that already has a
    /// row: calling it again with an overlapping set is a no-op for the
    /// overlap. The `logs` table is untouched.
    pub fn insert_sync_status(&mut self, hashes: &Vec<Vec<u8>>)
        requires
            old(self).wf(),
            forall|i: int| 0 <= i < hashes@.len() ==> (#[trigger] hashes@[i])@.len() == HASH_LEN,
        ensures
            final(self)@.sync_status == spec_insert_sync(
                old(self)@.sync_status,
                views_of_bytes(hashes@),
            ),
            final(self)@.logs == old(self)@.logs,
            final(self).wf(),
    {
        let ghost orig: Seq<SyncRowView> = self@.sync_status;
        let ghost hs: Seq<Seq<u8>> = views_of_bytes(hashes@);
        let mut i: usize = 0;
        while i < hashes.len()
            invariant
                i <= hs.len(),
                hs == views_of_bytes(hashes@),
                forall|k: int| 0 <= k < hs.len() ==> (#[trigger] hs[k]).len() == HASH_LEN,
                spec_insert_sync(orig, hs) == spec_insert_sync_from(self@.sync_status, hs, i as int),
                self@.logs == old(self)@.logs,
                self.wf(),
            decreases hs.len() - i,
        {
            let ghost cur: Seq<SyncRowView> = self@.sync_status;
            if !sync_find(&self.sync_status, &hashes[i]) {
                let row = SyncRow {
                    substrate_block_hash: clone_bytes(&hashes[i]),
                    status: BlockStatus::Pending,
                };
                proof {
                    assert(row@ == SyncRowView {
                        substrate_block_hash: hs[i as int],
                        status: BlockStatus::Pending,
                    });
                }
                self.sync_status.push(row);
                proof {
                    assert(views_of_sync(self.sync_status@) =~= cur.push(row@));
                    assert(self@.sync_status =~= spec_insert_one(cur, hs[i as int]));
                    assert forall|a: int, b: int|
                        0 <= a < b < self@.sync_status.len() implies self@.sync_status[a].substrate_block_hash
                        != self@.sync_status[b].substrate_block_hash by {
                        if b == self@.sync_status.len() - 1 {
                            assert(!sync_contains(cur, hs[i as int]));
                            assert(self@.sync_status[a] == cur[a]);
                        }
                    }
                }
            } else {
                proof {
                    assert(self@.sync_status =~= spec_insert_one(cur, hs[i as int]));
                }
            }
            i = i + 1;
        }
        proof {
            assert(spec_insert_sync_from(self@.sync_status, hs, hs.len() as int) == self@.sync_status);
        }
    }

    /// The atomic batch claim: re-writes up to `limit` Pending rows, in
    /// storage order, to Indexed, and returns the hashes of exactly the
    /// rows it claimed, in that order. Every other row, and the `logs`
    /// table, are untouched. Re-claiming an already-Indexed row never
    /// happens here, and a claimed row never reverts to Pending.
    pub fn claim_batch(&mut self, limit: usize) -> (claimed: Vec<Vec<u8>>)
        requires
            old(self).wf(),
        ensures
            final(self)@.sync_status == spec_claim_rows(old(self)@.sync_status, limit as nat),
            views_of_bytes(claimed@) == spec_claim_hashes(old(self)@.sync_status, limit as nat),
            final(self)@.logs == old(self)@.logs,
            final(self).wf(),
            claimed@.len() <= limit,
            forall|k: int| 0 <= k < claimed@.len() ==> (#[trigger] claimed@[k])@.len() == HASH_LEN,
    {
        let ghost orig: Seq<SyncRowView> = self@.sync_status;
        let mut claimed: Vec<Vec<u8>> = Vec::new();
        let mut rem: usize = limit;
        let mut i: usize = 0;
        proof {
            assert(orig.skip(0) =~= orig);
            assert(self@.sync_status.take(0) =~= Seq::<SyncRowView>::empty());
            assert(views_of_bytes(claimed@) =~= Seq::<Seq<u8>>::empty());
            assert(Seq::<SyncRowView>::empty() + spec_claim_rows(orig, limit as nat)
                =~= spec_claim_rows(orig, limit as nat));
            assert(Seq::<Seq<u8>>::empty() + spec_claim_hashes(orig, limit as nat)
                =~= spec_claim_hashes(orig, limit as nat));
        }
        while i < self.sync_status.len()
            invariant
                i <= self.sync_status@.len(),
                self@.sync_status.len() == orig.len(),
                rem <= limit,
                claimed@.len() + rem == limit,
                forall|k: int|
                    0 <= k < claimed@.len() ==> (#[trigger] claimed@[k])@.len() == HASH_LEN,
                forall|k: int|
                    i <= k < orig.len() ==> self@.sync_status[k] == orig[k],
                forall|k: int|
                    0 <= k < orig.len()
                        ==> (#[trigger] self@.sync_status[k]).substrate_block_hash
                        == orig[k].substrate_block_hash,
                spec_claim_rows(orig, limit as nat) == self@.sync_status.take(i as int)
                    + spec_claim_rows(orig.skip(i as int), rem as nat),
                spec_claim_hashes(orig, limit as nat) == views_of_bytes(claimed@)
                    + spec_claim_hashes(orig.skip(i as int), rem as nat),
                self@.logs == old(self)@.logs,
                sync_unique(orig),
                forall|k: int|
                    0 <= k < orig.len()
                        ==> (#[trigger] orig[k]).substrate_block_hash.len() == HASH_LEN,
                log_keys_unique(self@.logs),
                forall|k: int| 0 <= k < self.logs@.len() ==> (#[trigger] self.logs@[k]).wf(),
            decreases self.sync_status@.len() - i,
        {
            let ghost cur: Seq<SyncRowView> = self@.sync_status;
            proof {
                assert(orig.skip(i as int)[0] == orig[i as int]);
                assert(cur[i as int] == orig[i as int]);
                assert(orig.skip(i as int).drop_first() =~= orig.skip(i as int + 1));
            }
            let row_status = self.sync_status[i].status;
            if row_status == BlockStatus::Pending && rem > 0 {
                let h = clone_bytes(&self.sync_status[i].substrate_block_hash);
                let ghost claimed_before: Seq<Vec<u8>> = claimed@;
                claimed.push(h);
                let h2 = clone_bytes(&self.sync_status[i].substrate_block_hash);
                let new_row = SyncRow { substrate_block_hash: h2, status: BlockStatus::Indexed };
                self.sync_status.set(i, new_row);
                rem = rem - 1;
                proof {
                    assert(views_of_sync(self.sync_status@) =~= cur.update(
                        i as int,
                        SyncRowView {
                            substrate_block_hash: orig[i as int].substrate_block_hash,
                            status: BlockStatus::Indexed,
                        },
                    ));
                    assert(self@.sync_status.take(i as int + 1) =~= cur.take(i as int) + seq![
                        SyncRowView {
                            substrate_block_hash: orig[i as int].substrate_block_hash,
                            status: BlockStatus::Indexed,
                        },
                    ]);
                    assert(views_of_bytes(claimed@) =~= views_of_bytes(claimed_before) + seq![
                        orig[i as int].substrate_block_hash,
                    ]);
                    assert(spec_claim_rows(orig, limit as nat) =~= self@.sync_status.take(
                        i as int + 1,
                    ) + spec_claim_rows(orig.skip(i as int + 1), rem as nat));
                    assert(spec_claim_hashes(orig, limit as nat) =~= views_of_bytes(claimed@)
                        + spec_claim_hashes(orig.skip(i as int + 1), rem as nat));
                }
            } else {
                proof {
                    assert(spec_claim_rows(orig.skip(i as int), rem as nat) =~= seq![
                        orig[i as int],
                    ] + spec_claim_rows(orig.skip(i as int + 1), rem as nat));
                    assert(self@.sync_status.take(i as int + 1) =~= cur.take(i as int) + seq![
                        orig[i as int],
                    ]);
                    assert(spec_claim_rows(orig, limit as nat) =~= self@.sync_status.take(
                        i as int + 1,
                    ) + spec_claim_rows(orig.skip(i as int + 1), rem as nat));
                }
            }
            i = i + 1;
        }
        proof {
            assert(orig.skip(orig.len() as int) =~= Seq::<SyncRowView>::empty());
            assert(self@.sync_status.take(orig.len() as int) =~= self@.sync_status);
            assert(spec_claim_rows(orig, limit as nat) =~= self@.sync_status);
            assert(views_of_bytes(claimed@) + spec_claim_hashes(
                Seq::<SyncRowView>::empty(),
                rem as nat,
            ) =~= views_of_bytes(claimed@));
            assert forall|a: int, b: int|
                0 <= a < b < self@.sync_status.len() implies self@.sync_status[a].substrate_block_hash
                != self@.sync_status[b].substrate_block_hash by {
                assert(orig[a].substrate_block_hash != orig[b].substrate_block_hash);
            }
        }
        claimed
    }

    /// Bulk insert of log records with the insert-if-absent policy keyed on
    /// the natural key: a record whose key is already present is silently
    /// discarded, never an error. The `sync_status` table is untouched.
    pub fn insert_logs(&mut self, new_logs: &Vec<Log>)
        requires
            old(self).wf(),
            forall|i: int| 0 <= i < new_logs@.len() ==> (#[trigger] new_logs@[i]).wf(),
        ensures
            final(self)@.logs == spec_insert_logs(old(self)@.logs, views_of_logs(new_logs@)),
            final(self)@.sync_status == old(self)@.sync_status,
            final(self).wf(),
    {
        let ghost orig: Seq<LogView> = self@.logs;
        let ghost nl: Seq<LogView> = views_of_logs(new_logs@);
        let mut j: usize = 0;
        while j < new_logs.len()
            invariant
                j <= nl.len(),
                nl == views_of_logs(new_logs@),
                forall|k: int| 0 <= k < new_logs@.len() ==> (#[trigger] new_logs@[k]).wf(),
                spec_insert_logs(orig, nl) == spec_insert_logs_from(self@.logs, nl, j as int),
                self@.sync_status == old(self)@.sync_status,
                self.wf(),
            decreases nl.len() - j,
        {
            let ghost cur: Seq<LogView> = self@.logs;
            let entry = &new_logs[j];
            if !log_key_find(
                &self.logs,
                entry.log_index,
                entry.transaction_index,
                &entry.substrate_block_hash,
            ) {
                let copied = log_copy(entry);
                self.logs.push(copied);
                proof {
                    assert(views_of_logs(self.logs@) =~= cur.push(nl[j as int]));
                    assert(self@.logs =~= spec_insert_log_one(cur, nl[j as int]));
                    assert forall|a: int, b: int|
                        0 <= a < b < self@.logs.len() implies self@.logs[a].key()
                        != self@.logs[b].key() by {
                        if b == self@.logs.len() - 1 {
                            assert(!logs_contain_key(cur, nl[j as int].key()));
                            assert(self@.logs[a] == cur[a]);
                        }
                    }
                    assert forall|k: int|
                        0 <= k < self.logs@.len() implies (#[trigger] self.logs@[k]).wf() by {
                        if k == self.logs@.len() - 1 {
                            assert(new_logs@[j as int].wf());
                        }
                    }
                }
            } else {
                proof {
                    assert(self@.logs =~= spec_insert_log_one(cur, nl[j as int]));
                }
            }
            j = j + 1;
        }
        proof {
            assert(spec_insert_logs_from(self@.logs, nl, nl.len() as int) == self@.logs);
        }
    }
}

fn log_key_find(table: &Vec<Log>, log_index: i32, transaction_index: i32, h: &Vec<u8>) -> (r: bool)
    ensures
        r == logs_contain_key(
            views_of_logs(table@),
            (log_index as int, transaction_index as int, h@),
        ),
{
    let mut i: usize = 0;
    while i < table.len()
        invariant
            i <= table@.len(),
            forall|j: int|
                0 <= j < i ==> views_of_logs(table@)[j].key() != (
                    log_index as int,
                    transaction_index as int,
                    h@,
                ),
        decreases table@.len() - i,
    {
        let row = &table[i];
        if row.log_index == log_index && row.transaction_index == transaction_index && bytes_eq(
            &row.substrate_block_hash,
            h,
        ) {
            proof {
                assert(views_of_logs(table@)[i as int].key() == (
                    log_index as int,
                    transaction_index as int,
                    h@,
                ));
            }
            return true;
        }
        i = i + 1;
    }
    false
}

} // verus!
