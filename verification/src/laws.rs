//! The engine's guarantees, stated and proved over the store and
//! extraction models.

use vstd::prelude::*;

use crate::extract::{spec_extract_logs, views_of_logs, BlockData, LogView};
use crate::records::Log;
use crate::store::{
    logs_contain_key, spec_claim_hashes, spec_claim_rows, spec_insert_log_one, spec_insert_logs,
    spec_insert_logs_from, spec_insert_one, spec_insert_sync, spec_insert_sync_from, sync_contains,
    BlockStatus, SyncRowView,
};

verus! {

/// Idempotent extraction: extraction is a pure function of the block's
/// ledger data, so two runs over the same data yield byte-identical record
/// sequences.
pub proof fn lemma_extract_deterministic(a: Seq<Log>, b: Seq<Log>, block: BlockData)
    requires
        views_of_logs(a) == spec_extract_logs(block),
        views_of_logs(b) == spec_extract_logs(block),
    ensures
        views_of_logs(a) == views_of_logs(b),
{
}

proof fn lemma_insert_sync_mono(rows: Seq<SyncRowView>, hs: Seq<Seq<u8>>, i: int, h: Seq<u8>)
    requires
        sync_contains(rows, h),
        0 <= i,
    ensures
        sync_contains(spec_insert_sync_from(rows, hs, i), h),
    decreases hs.len() - i,
{
    if i < hs.len() {
        let w = choose|w: int| 0 <= w < rows.len() && rows[w].substrate_block_hash == h;
        assert(spec_insert_one(rows, hs[i])[w].substrate_block_hash == h);
        lemma_insert_sync_mono(spec_insert_one(rows, hs[i]), hs, i + 1, h);
    }
}

proof fn lemma_insert_sync_contains_from(rows: Seq<SyncRowView>, hs: Seq<Seq<u8>>, i: int, k: int)
    requires
        0 <= i <= k < hs.len(),
    ensures
        sync_contains(spec_insert_sync_from(rows, hs, i), hs[k]),
    decreases k - i,
{
    let rows1 = spec_insert_one(rows, hs[i]);
    if i == k {
        if sync_contains(rows, hs[i]) {
            lemma_insert_sync_mono(rows1, hs, i + 1, hs[k]);
        } else {
            assert(rows1[rows.len() as int].substrate_block_hash == hs[i]);
            lemma_insert_sync_mono(rows1, hs, i + 1, hs[k]);
        }
    } else {
        lemma_insert_sync_contains_from(rows1, hs, i + 1, k);
    }
}

/// After a bulk insert, every inserted hash has a row.
pub proof fn lemma_insert_sync_contains(rows: Seq<SyncRowView>, hs: Seq<Seq<u8>>, k: int)
    requires
        0 <= k < hs.len(),
    ensures
        sync_contains(spec_insert_sync(rows, hs), hs[k]),
{
    lemma_insert_sync_contains_from(rows, hs, 0, k);
}

proof fn lemma_insert_sync_noop(rows: Seq<SyncRowView>, hs: Seq<Seq<u8>>, i: int)
    requires
        0 <= i,
        forall|k: int| i <= k < hs.len() ==> sync_contains(rows, #[trigger] hs[k]),
    ensures
        spec_insert_sync_from(rows, hs, i) == rows,
    decreases hs.len() - i,
{
    if i < hs.len() {
        assert(spec_insert_one(rows, hs[i]) == rows);
        lemma_insert_sync_noop(rows, hs, i + 1);
    }
}

/// Insert idempotence for the indexing queue: inserting the same hash set
/// twice leaves `sync_status` exactly as the first insert left it — the
/// second insert of an existing hash is a no-op, never an error, and the
/// unique constraint holds throughout.
pub proof fn lemma_insert_sync_idempotent(rows: Seq<SyncRowView>, hs: Seq<Seq<u8>>)
    ensures
        spec_insert_sync(spec_insert_sync(rows, hs), hs) == spec_insert_sync(rows, hs),
{
    let r1 = spec_insert_sync(rows, hs);
    assert forall|k: int| 0 <= k < hs.len() implies sync_contains(r1, #[trigger] hs[k]) by {
        lemma_insert_sync_contains(rows, hs, k);
    }
    lemma_insert_sync_noop(r1, hs, 0);
}

proof fn lemma_insert_logs_mono(table: Seq<LogView>, nl: Seq<LogView>, i: int, k: (int, int, Seq<u8>))
    requires
        logs_contain_key(table, k),
        0 <= i,
    ensures
        logs_contain_key(spec_insert_logs_from(table, nl, i), k),
    decreases nl.len() - i,
{
    if i < nl.len() {
        let w = choose|w: int| 0 <= w < table.len() && table[w].key() == k;
        assert(spec_insert_log_one(table, nl[i])[w].key() == k);
        lemma_insert_logs_mono(spec_insert_log_one(table, nl[i]), nl, i + 1, k);
    }
}

proof fn lemma_insert_logs_contains_from(table: Seq<LogView>, nl: Seq<LogView>, i: int, k: int)
    requires
        0 <= i <= k < nl.len(),
    ensures
        logs_contain_key(spec_insert_logs_from(table, nl, i), nl[k].key()),
    decreases k - i,
{
    let t1 = spec_insert_log_one(table, nl[i]);
    if i == k {
        if logs_contain_key(table, nl[i].key()) {
            lemma_insert_logs_mono(t1, nl, i + 1, nl[k].key());
        } else {
            assert(t1[table.len() as int].key() == nl[i].key());
            lemma_insert_logs_mono(t1, nl, i + 1, nl[k].key());
        }
    } else {
        lemma_insert_logs_contains_from(t1, nl, i + 1, k);
    }
}

/// After a bulk insert, every inserted record's natural key has a row.
pub proof fn lemma_insert_logs_contains(table: Seq<LogView>, nl: Seq<LogView>, k: int)
    requires
        0 <= k < nl.len(),
    ensures
        logs_contain_key(spec_insert_logs(table, nl), nl[k].key()),
{
    lemma_insert_logs_contains_from(table, nl, 0, k);
}

proof fn lemma_insert_logs_noop(table: Seq<LogView>, nl: Seq<LogView>, i: int)
    requires
        0 <= i,
        forall|k: int| i <= k < nl.len() ==> logs_contain_key(table, (#[trigger] nl[k]).key()),
    ensures
        spec_insert_logs_from(table, nl, i) == table,
    decreases nl.len() - i,
{
    if i < nl.len() {
        assert(spec_insert_log_one(table, nl[i]) == table);
        lemma_insert_logs_noop(table, nl, i + 1);
    }
}

/// Insert idempotence for the log table: inserting the same record set
/// twice leaves the table exactly as the first insert left it — duplicates
/// of the natural key are silently discarded, never an error.
pub proof fn lemma_insert_logs_idempotent(table: Seq<LogView>, nl: Seq<LogView>)
    ensures
        spec_insert_logs(spec_insert_logs(table, nl), nl) == spec_insert_logs(table, nl),
{
    let t1 = spec_insert_logs(table, nl);
    assert forall|k: int| 0 <= k < nl.len() implies logs_contain_key(
        t1,
        (#[trigger] nl[k]).key(),
    ) by {
        lemma_insert_logs_contains(table, nl, k);
    }
    lemma_insert_logs_noop(t1, nl, 0);
}

proof fn lemma_insert_logs_shift(table: Seq<LogView>, a: Seq<LogView>, b: Seq<LogView>, j: int)
    requires
        0 <= j <= b.len(),
    ensures
        spec_insert_logs_from(table, a + b, a.len() + j) == spec_insert_logs_from(table, b, j),
    decreases b.len() - j,
{
    if j < b.len() {
        assert((a + b)[a.len() + j] == b[j]);
        lemma_insert_logs_shift(spec_insert_log_one(table, b[j]), a, b, j + 1);
    }
}

proof fn lemma_insert_logs_concat_from(table: Seq<LogView>, a: Seq<LogView>, b: Seq<LogView>, i: int)
    requires
        0 <= i <= a.len(),
    ensures
        spec_insert_logs_from(table, a + b, i) == spec_insert_logs(
            spec_insert_logs_from(table, a, i),
            b,
        ),
    decreases a.len() - i,
{
    if i == a.len() {
        lemma_insert_logs_shift(table, a, b, 0);
    } else {
        assert((a + b)[i] == a[i]);
        lemma_insert_logs_concat_from(spec_insert_log_one(table, a[i]), a, b, i + 1);
    }
}

/// Inserting batch `a`, then batch `b`, leaves the table one insert of
/// their concatenation would leave: over any number of committed cycles,
/// the table holds exactly the union of everything they extracted.
pub proof fn lemma_insert_logs_concat(table: Seq<LogView>, a: Seq<LogView>, b: Seq<LogView>)
    ensures
        spec_insert_logs(spec_insert_logs(table, a), b) == spec_insert_logs(table, a + b),
{
    lemma_insert_logs_concat_from(table, a, b, 0);
}

proof fn lemma_insert_logs_keys_unique_from(table: Seq<LogView>, nl: Seq<LogView>, i: int)
    requires
        crate::store::log_keys_unique(table),
        0 <= i,
    ensures
        crate::store::log_keys_unique(spec_insert_logs_from(table, nl, i)),
    decreases nl.len() - i,
{
    if i < nl.len() {
        let t1 = spec_insert_log_one(table, nl[i]);
        assert(crate::store::log_keys_unique(t1)) by {
            if !logs_contain_key(table, nl[i].key()) {
                assert forall|a: int, b: int|
                    0 <= a < b < t1.len() implies t1[a].key() != t1[b].key() by {
                    if b == t1.len() - 1 {
                        assert(t1[a] == table[a]);
                    }
                }
            }
        }
        lemma_insert_logs_keys_unique_from(t1, nl, i + 1);
    }
}

/// An insert never breaks the natural-key unique constraint, whatever the
/// batch holds — duplicate work by overlapping cycles included.
pub proof fn lemma_insert_logs_keys_unique(table: Seq<LogView>, nl: Seq<LogView>)
    requires
        crate::store::log_keys_unique(table),
    ensures
        crate::store::log_keys_unique(spec_insert_logs(table, nl)),
{
    lemma_insert_logs_keys_unique_from(table, nl, 0);
}

/// The `sync_status` table after the commit of a claim whose selection was
/// computed on an older snapshot: every row whose hash was selected is
/// re-written Indexed, every other row is untouched. This is the effect of
/// the claim's single update statement when it lands on a state other
/// cycles have moved on.
pub open spec fn spec_mark_indexed(rows: Seq<SyncRowView>, hashes: Seq<Seq<u8>>) -> Seq<SyncRowView> {
    Seq::new(
        rows.len(),
        |i: int|
            if hashes.contains(rows[i].substrate_block_hash) {
                SyncRowView {
                    substrate_block_hash: rows[i].substrate_block_hash,
                    status: BlockStatus::Indexed,
                }
            } else {
                rows[i]
            },
    )
}

/// On a table that keeps its unique constraint, the claim's single update
/// statement is exactly a re-mark of the hashes it returns: this is why a
/// second cycle's commit, selected on a stale snapshot, lands as
/// `spec_mark_indexed` of its hashes.
pub proof fn lemma_claim_is_mark(rows: Seq<SyncRowView>, n: nat)
    requires
        crate::store::sync_unique(rows),
    ensures
        spec_claim_rows(rows, n) =~= spec_mark_indexed(rows, spec_claim_hashes(rows, n)),
    decreases rows.len(),
{
    lemma_claim_preserves_rows(rows, n);
    if rows.len() > 0 {
        let rest = rows.drop_first();
        let h0 = rows[0].substrate_block_hash;
        assert(crate::store::sync_unique(rest)) by {
            assert forall|i: int, j: int|
                0 <= i < j < rest.len() implies rest[i].substrate_block_hash
                != rest[j].substrate_block_hash by {
                assert(rest[i] == rows[i + 1]);
                assert(rest[j] == rows[j + 1]);
            }
        }
        let taken = if rows[0].status is Pending && n > 0 {
            (n - 1) as nat
        } else {
            n
        };
        lemma_claim_is_mark(rest, taken);
        let hs = spec_claim_hashes(rows, n);
        let tail_hs = spec_claim_hashes(rest, taken);
        // No hash of `rest` is `h0`, and every claimed hash of `rest` is a
        // hash of `rest`; so membership in `hs` and in `tail_hs` agree on
        // the tail, and `h0` is in `hs` exactly when row 0 was claimed.
        assert(!tail_hs.contains(h0)) by {
            if tail_hs.contains(h0) {
                lemma_claim_hash_marked(rest, taken, h0);
                let w = choose|w: int|
                    0 <= w < rest.len() && rest[w].substrate_block_hash == h0
                        && rest[w].status is Pending && spec_claim_rows(
                        rest,
                        taken,
                    )[w].status is Indexed;
                assert(rows[w + 1].substrate_block_hash == rows[0].substrate_block_hash);
            }
        }
        assert forall|i: int| 0 <= i < rows.len() implies spec_claim_rows(rows, n)[i]
            == spec_mark_indexed(rows, hs)[i] by {
            if rows[0].status is Pending && n > 0 {
                assert(hs == seq![h0] + tail_hs);
                if i == 0 {
                    assert(hs[0] == h0);
                    assert(hs.contains(h0));
                } else {
                    assert(spec_claim_rows(rows, n)[i] == spec_claim_rows(rest, taken)[i - 1]);
                    assert(spec_claim_rows(rest, taken)[i - 1] == spec_mark_indexed(
                        rest,
                        tail_hs,
                    )[i - 1]);
                    assert(rest[i - 1] == rows[i]);
                    assert(rows[i].substrate_block_hash != h0);
                    assert(hs.contains(rows[i].substrate_block_hash) <==> tail_hs.contains(
                        rows[i].substrate_block_hash,
                    )) by {
                        if hs.contains(rows[i].substrate_block_hash) {
                            let w = choose|w: int|
                                0 <= w < hs.len() && hs[w] == rows[i].substrate_block_hash;
                            if w == 0 {
                                assert(rows[i].substrate_block_hash == h0);
                            } else {
                                assert(tail_hs[w - 1] == rows[i].substrate_block_hash);
                            }
                        }
                        if tail_hs.contains(rows[i].substrate_block_hash) {
                            let w = choose|w: int|
                                0 <= w < tail_hs.len() && tail_hs[w]
                                    == rows[i].substrate_block_hash;
                            assert(hs[w + 1] == rows[i].substrate_block_hash);
                        }
                    }
                }
            } else {
                assert(hs == tail_hs);
                if i == 0 {
                    assert(!hs.contains(h0));
                    assert(spec_claim_rows(rows, n)[0] == rows[0]);
                } else {
                    assert(spec_claim_rows(rows, n)[i] == spec_claim_rows(rest, taken)[i - 1]);
                    assert(spec_claim_rows(rest, taken)[i - 1] == spec_mark_indexed(
                        rest,
                        tail_hs,
                    )[i - 1]);
                    assert(rest[i - 1] == rows[i]);
                }
            }
        }
    }
}

/// A claim changes no hash and no row count, and moves a status only from
/// Pending to Indexed, never backward.
pub proof fn lemma_claim_preserves_rows(rows: Seq<SyncRowView>, n: nat)
    ensures
        spec_claim_rows(rows, n).len() == rows.len(),
        forall|i: int|
            0 <= i < rows.len() ==> (#[trigger] spec_claim_rows(rows, n)[i]).substrate_block_hash
                == rows[i].substrate_block_hash,
        forall|i: int|
            0 <= i < rows.len() ==> (spec_claim_rows(rows, n)[i] == rows[i] || (
            rows[i].status is Pending && (#[trigger] spec_claim_rows(rows, n)[i]).status is Indexed)),
    decreases rows.len(),
{
    if rows.len() > 0 {
        if rows[0].status is Pending && n > 0 {
            lemma_claim_preserves_rows(rows.drop_first(), (n - 1) as nat);
        } else {
            lemma_claim_preserves_rows(rows.drop_first(), n);
        }
        assert forall|i: int|
            0 <= i < rows.len() implies (#[trigger] spec_claim_rows(
            rows,
            n,
        )[i]).substrate_block_hash == rows[i].substrate_block_hash by {
            if i > 0 {
                assert(rows.drop_first()[i - 1] == rows[i]);
            }
        }
    }
}

/// Every hash a claim returns belongs to a row that was Pending and that
/// the claim re-wrote Indexed.
pub proof fn lemma_claim_hash_marked(rows: Seq<SyncRowView>, n: nat, h: Seq<u8>)
    requires
        spec_claim_hashes(rows, n).contains(h),
    ensures
        exists|i: int|
            0 <= i < rows.len() && rows[i].substrate_block_hash == h && rows[i].status is Pending
                && spec_claim_rows(rows, n)[i].status is Indexed,
    decreases rows.len(),
{
    lemma_claim_preserves_rows(rows, n);
    if rows.len() > 0 {
        if rows[0].status is Pending && n > 0 {
            if rows[0].substrate_block_hash == h {
                assert(spec_claim_rows(rows, n)[0].status is Indexed);
            } else {
                let tail = spec_claim_hashes(rows.drop_first(), (n - 1) as nat);
                assert(seq![rows[0].substrate_block_hash][0] != h);
                assert(tail.contains(h)) by {
                    let w = choose|w: int|
                        0 <= w < spec_claim_hashes(rows, n).len() && spec_claim_hashes(rows, n)[w]
                            == h;
                    assert(tail[w - 1] == h);
                }
                lemma_claim_hash_marked(rows.drop_first(), (n - 1) as nat, h);
                let i = choose|i: int|
                    0 <= i < rows.drop_first().len() && rows.drop_first()[i].substrate_block_hash
                        == h && rows.drop_first()[i].status is Pending && spec_claim_rows(
                        rows.drop_first(),
                        (n - 1) as nat,
                    )[i].status is Indexed;
                assert(rows[i + 1].substrate_block_hash == h);
                assert(spec_claim_rows(rows, n)[i + 1].status is Indexed);
            }
        } else {
            lemma_claim_hash_marked(rows.drop_first(), n, h);
            let i = choose|i: int|
                0 <= i < rows.drop_first().len() && rows.drop_first()[i].substrate_block_hash == h
                    && rows.drop_first()[i].status is Pending && spec_claim_rows(
                    rows.drop_first(),
                    n,
                )[i].status is Indexed;
            assert(rows[i + 1].substrate_block_hash == h);
            assert(spec_claim_rows(rows, n)[i + 1].status is Indexed);
        }
    }
}

/// Claim exclusivity under overlap. Two concurrent cycles claim from the
/// same committed state `rows`; cycle A's claim commits first, then cycle
/// B's — selected on the stale state — lands as a re-mark of B's hashes.
/// Afterward: the table holds the same hashes in the same order, every row
/// either cycle claimed is Indexed, and no row ever reverts from Indexed to
/// Pending — however many cycles extracted the same block.
pub proof fn lemma_claim_exclusivity(rows: Seq<SyncRowView>, la: nat, lb: nat)
    ensures
        spec_mark_indexed(spec_claim_rows(rows, la), spec_claim_hashes(rows, lb)).len()
            == rows.len(),
        forall|i: int|
            0 <= i < rows.len() ==> (#[trigger] spec_mark_indexed(
                spec_claim_rows(rows, la),
                spec_claim_hashes(rows, lb),
            )[i]).substrate_block_hash == rows[i].substrate_block_hash,
        forall|i: int|
            0 <= i < rows.len() && spec_claim_rows(rows, la)[i].status is Indexed
                ==> (#[trigger] spec_mark_indexed(
                spec_claim_rows(rows, la),
                spec_claim_hashes(rows, lb),
            )[i]).status is Indexed,
        forall|h: Seq<u8>|
            #[trigger] spec_claim_hashes(rows, la).contains(h) ==> exists|i: int|
                0 <= i < rows.len() && rows[i].substrate_block_hash == h && spec_mark_indexed(
                    spec_claim_rows(rows, la),
                    spec_claim_hashes(rows, lb),
                )[i].status is Indexed,
        forall|h: Seq<u8>|
            #[trigger] spec_claim_hashes(rows, lb).contains(h) ==> exists|i: int|
                0 <= i < rows.len() && rows[i].substrate_block_hash == h && spec_mark_indexed(
                    spec_claim_rows(rows, la),
                    spec_claim_hashes(rows, lb),
                )[i].status is Indexed,
{
    lemma_claim_preserves_rows(rows, la);
    let rows1 = spec_claim_rows(rows, la);
    let b = spec_claim_hashes(rows, lb);
    let final_rows = spec_mark_indexed(rows1, b);
    assert forall|h: Seq<u8>| #[trigger] spec_claim_hashes(rows, la).contains(h) implies exists|
        i: int,
    |
        0 <= i < rows.len() && rows[i].substrate_block_hash == h
            && final_rows[i].status is Indexed by {
        lemma_claim_hash_marked(rows, la, h);
        let i = choose|i: int|
            0 <= i < rows.len() && rows[i].substrate_block_hash == h && rows[i].status is Pending
                && spec_claim_rows(rows, la)[i].status is Indexed;
        assert(final_rows[i].status is Indexed);
    }
    assert forall|h: Seq<u8>| #[trigger] spec_claim_hashes(rows, lb).contains(h) implies exists|
        i: int,
    |
        0 <= i < rows.len() && rows[i].substrate_block_hash == h
            && final_rows[i].status is Indexed by {
        lemma_claim_hash_marked(rows, lb, h);
        let i = choose|i: int|
            0 <= i < rows.len() && rows[i].substrate_block_hash == h && rows[i].status is Pending
                && spec_claim_rows(rows, lb)[i].status is Indexed;
        assert(rows1[i].substrate_block_hash == h);
        assert(b.contains(rows1[i].substrate_block_hash));
        assert(final_rows[i].status is Indexed);
    }
}

/// The number of Pending rows.
pub open spec fn pending_count(rows: Seq<SyncRowView>) -> nat
    decreases rows.len(),
{
    if rows.len() == 0 {
        0
    } else {
        (if rows[0].status is Pending {
            1nat
        } else {
            0nat
        }) + pending_count(rows.drop_first())
    }
}

/// One claim of batch size `n` takes exactly `min(n, pending)` hashes and
/// leaves exactly `pending - min(n, pending)` rows Pending: repeated
/// committed cycles drain the queue.
pub proof fn lemma_claim_drains(rows: Seq<SyncRowView>, n: nat)
    ensures
        spec_claim_hashes(rows, n).len() == if n <= pending_count(rows) {
            n
        } else {
            pending_count(rows)
        },
        pending_count(spec_claim_rows(rows, n)) == pending_count(rows) - if n <= pending_count(
            rows,
        ) {
            n
        } else {
            pending_count(rows)
        },
    decreases rows.len(),
{
    if rows.len() > 0 {
        if rows[0].status is Pending && n > 0 {
            lemma_claim_drains(rows.drop_first(), (n - 1) as nat);
            assert(spec_claim_rows(rows, n).drop_first() =~= spec_claim_rows(
                rows.drop_first(),
                (n - 1) as nat,
            ));
        } else {
            lemma_claim_drains(rows.drop_first(), n);
            assert(spec_claim_rows(rows, n).drop_first() =~= spec_claim_rows(
                rows.drop_first(),
                n,
            ));
        }
    }
}

/// A queue with no Pending row is drained: a claim returns nothing.
pub proof fn lemma_pending_zero(rows: Seq<SyncRowView>, n: nat)
    requires
        pending_count(rows) == 0,
    ensures
        spec_claim_hashes(rows, n).len() == 0,
        spec_claim_rows(rows, n) == rows,
    decreases rows.len(),
{
    if rows.len() > 0 {
        lemma_pending_zero(rows.drop_first(), n);
        assert(spec_claim_rows(rows, n) =~= rows);
    }
}

} // verus!
