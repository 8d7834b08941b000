//! The receipt decoder.
//!
//! Given what the ledger client returned for one block — its height, its
//! schema-version slot, and its transaction receipts — extraction emits one
//! `Log` per emitted event: receipts in transaction order, logs within a
//! receipt in emission order, missing topics padded with the all-zero hash.
//! Extraction is a pure function of its inputs and never fails: a missing
//! height degrades to zero, missing receipts to an empty batch.

use vstd::prelude::*;

use crate::records::{Log, ADDRESS_LEN, HASH_LEN};

verus! {

/// One emitted event as the ledger client hands it out: the emitting
/// address and up to four indexed topics.
pub struct EthLog {
    pub address: Vec<u8>,
    pub topics: Vec<Vec<u8>>,
}

/// The payload common to every receipt variant: its emitted logs.
pub struct ReceiptData {
    pub logs: Vec<EthLog>,
}

/// A transaction receipt. The historical encodings differ, but each
/// variant carries its logs the same way.
pub enum Receipt {
    Legacy(ReceiptData),
    EIP2930(ReceiptData),
    EIP1559(ReceiptData),
}

/// What the ledger client returned for one block: the block's hash, its
/// height if resolvable, the raw contents of its schema-version slot if
/// present, and its receipts if the selected decoder strategy found any.
pub struct BlockData {
    pub substrate_block_hash: Vec<u8>,
    pub number: Option<u64>,
    pub schema_slot: Option<Vec<u8>>,
    pub receipts: Option<Vec<Receipt>>,
}

/// The mathematical value of one `Log` row.
#[verifier::ext_equal]
pub struct LogView {
    pub block_number: int,
    pub address: Seq<u8>,
    pub topic_1: Seq<u8>,
    pub topic_2: Seq<u8>,
    pub topic_3: Seq<u8>,
    pub topic_4: Seq<u8>,
    pub log_index: int,
    pub transaction_index: int,
    pub substrate_block_hash: Seq<u8>,
}

impl View for Log {
    type V = LogView;

    open spec fn view(&self) -> LogView {
        LogView {
            block_number: self.block_number as int,
            address: self.address@,
            topic_1: self.topic_1@,
            topic_2: self.topic_2@,
            topic_3: self.topic_3@,
            topic_4: self.topic_4@,
            log_index: self.log_index as int,
            transaction_index: self.transaction_index as int,
            substrate_block_hash: self.substrate_block_hash@,
        }
    }
}

impl LogView {
    /// The natural key of the row.
    pub open spec fn key(self) -> (int, int, Seq<u8>) {
        (self.log_index, self.transaction_index, self.substrate_block_hash)
    }
}

/// The values of a sequence of rows.
pub open spec fn views_of_logs(s: Seq<Log>) -> Seq<LogView> {
    s.map_values(|l: Log| l@)
}

proof fn lemma_views_push(s: Seq<Log>, l: Log)
    ensures
        views_of_logs(s.push(l)) =~= views_of_logs(s).push(l@),
{
}

pub proof fn lemma_views_concat(a: Seq<Log>, b: Seq<Log>)
    ensures
        views_of_logs(a + b) =~= views_of_logs(a) + views_of_logs(b),
{
}

/// The all-zero 32-byte value that stands for an absent topic.
pub open spec fn spec_zero_hash() -> Seq<u8> {
    Seq::new(HASH_LEN as nat, |i: int| 0u8)
}

/// Topic `i` of a log: the emitted topic when there is one, the all-zero
/// value otherwise.
pub open spec fn spec_topic(topics: Seq<Vec<u8>>, i: int) -> Seq<u8> {
    if 0 <= i < topics.len() {
        topics[i]@
    } else {
        spec_zero_hash()
    }
}

/// The logs a receipt carries, whatever its variant.
pub open spec fn spec_receipt_logs(r: Receipt) -> Seq<EthLog> {
    match r {
        Receipt::Legacy(d) => d.logs@,
        Receipt::EIP2930(d) => d.logs@,
        Receipt::EIP1559(d) => d.logs@,
    }
}

/// The block number recorded for a block: its height saturated into the
/// row's integer type, or zero when the height is unresolvable.
pub open spec fn spec_block_number(n: Option<u64>) -> i32 {
    match n {
        Option::Some(h) => if h > i32::MAX as u64 {
            i32::MAX
        } else {
            h as i32
        },
        Option::None => 0,
    }
}

/// The row extracted for log `log_index` of receipt `tx_index`.
pub open spec fn spec_log_record(
    bn: i32,
    hash: Seq<u8>,
    tx_index: int,
    log_index: int,
    l: EthLog,
) -> LogView {
    LogView {
        block_number: bn as int,
        address: l.address@,
        topic_1: spec_topic(l.topics@, 0),
        topic_2: spec_topic(l.topics@, 1),
        topic_3: spec_topic(l.topics@, 2),
        topic_4: spec_topic(l.topics@, 3),
        log_index: log_index,
        transaction_index: tx_index,
        substrate_block_hash: hash,
    }
}

/// The rows extracted from one receipt, in emission order.
pub open spec fn spec_receipt_records(
    bn: i32,
    hash: Seq<u8>,
    tx_index: int,
    logs: Seq<EthLog>,
) -> Seq<LogView> {
    Seq::new(logs.len(), |i: int| spec_log_record(bn, hash, tx_index, i, logs[i]))
}

/// The rows extracted from a block's receipts, in transaction order.
pub open spec fn spec_block_records(bn: i32, hash: Seq<u8>, receipts: Seq<Receipt>) -> Seq<LogView>
    decreases receipts.len(),
{
    if receipts.len() == 0 {
        Seq::empty()
    } else {
        spec_block_records(bn, hash, receipts.drop_last()) + spec_receipt_records(
            bn,
            hash,
            receipts.len() - 1,
            spec_receipt_logs(receipts.last()),
        )
    }
}

/// The receipts extraction walks: what the strategy returned, or none.
pub open spec fn spec_block_receipts(b: BlockData) -> Seq<Receipt> {
    match b.receipts {
        Option::Some(r) => r@,
        Option::None => Seq::empty(),
    }
}

/// Everything extraction emits for one block.
pub open spec fn spec_extract_logs(b: BlockData) -> Seq<LogView> {
    spec_block_records(spec_block_number(b.number), b.substrate_block_hash@, spec_block_receipts(b))
}

/// Everything extraction emits for a batch of blocks, in batch order.
pub open spec fn spec_extract_batch(blocks: Seq<BlockData>) -> Seq<LogView>
    decreases blocks.len(),
{
    if blocks.len() == 0 {
        Seq::empty()
    } else {
        spec_extract_batch(blocks.drop_last()) + spec_extract_logs(blocks.last())
    }
}

impl EthLog {
    /// The fixed widths the ledger's types give every emitted log.
    pub open spec fn wf(self) -> bool {
        &&& self.address@.len() == ADDRESS_LEN
        &&& forall|i: int| 0 <= i < self.topics@.len() ==> self.topics@[i]@.len() == HASH_LEN
    }
}

impl Receipt {
    /// Well-formed logs, few enough that their positions fit the row's
    /// integer type.
    pub open spec fn wf(self) -> bool {
        &&& forall|i: int|
            0 <= i < spec_receipt_logs(self).len() ==> spec_receipt_logs(self)[i].wf()
        &&& spec_receipt_logs(self).len() <= i32::MAX
    }
}

impl BlockData {
    /// Well-formed ledger data: a full-width block hash, well-formed
    /// receipts, few enough that their positions fit the row's integer type.
    pub open spec fn wf(self) -> bool {
        &&& self.substrate_block_hash@.len() == HASH_LEN
        &&& spec_block_receipts(self).len() <= i32::MAX
        &&& forall|i: int|
            0 <= i < spec_block_receipts(self).len() ==> spec_block_receipts(self)[i].wf()
    }
}

/// Copies a byte string.
pub fn clone_bytes(v: &Vec<u8>) -> (r: Vec<u8>)
    ensures
        r@ == v@,
{
    let mut out: Vec<u8> = Vec::new();
    let mut i: usize = 0;
    while i < v.len()
        invariant
            i <= v@.len(),
            out@ == v@.take(i as int),
        decreases v@.len() - i,
    {
        out.push(v[i]);
        proof {
            assert(out@ =~= v@.take(i as int + 1));
        }
        i = i + 1;
    }
    proof {
        assert(v@.take(v@.len() as int) =~= v@);
    }
    out
}

/// The all-zero 32-byte value.
pub fn zero_hash() -> (r: Vec<u8>)
    ensures
        r@ == spec_zero_hash(),
{
    let mut out: Vec<u8> = Vec::new();
    let mut i: usize = 0;
    while i < HASH_LEN
        invariant
            i <= HASH_LEN,
            out@.len() == i,
            forall|j: int| 0 <= j < i ==> out@[j] == 0u8,
        decreases HASH_LEN - i,
    {
        out.push(0u8);
        i = i + 1;
    }
    proof {
        assert(out@ =~= spec_zero_hash());
    }
    out
}

/// Topic `i` of a log, padded with the all-zero value when absent.
pub fn topic_at(topics: &Vec<Vec<u8>>, i: usize) -> (r: Vec<u8>)
    ensures
        r@ == spec_topic(topics@, i as int),
{
    if i < topics.len() {
        clone_bytes(&topics[i])
    } else {
        zero_hash()
    }
}

/// The logs a receipt carries, whatever its variant.
pub fn receipt_logs(r: &Receipt) -> (logs: &Vec<EthLog>)
    ensures
        logs@ == spec_receipt_logs(*r),
{
    match r {
        Receipt::Legacy(d) => &d.logs,
        Receipt::EIP2930(d) => &d.logs,
        Receipt::EIP1559(d) => &d.logs,
    }
}

/// The block number recorded for a block whose resolved height is `n`.
pub fn block_number_of(n: &Option<u64>) -> (r: i32)
    ensures
        r == spec_block_number(*n),
{
    match n {
        Option::Some(h) => {
            if *h > i32::MAX as u64 {
                i32::MAX
            } else {
                *h as i32
            }
        },
        Option::None => 0,
    }
}

fn make_log(bn: i32, hash: &Vec<u8>, tx_index: usize, log_index: usize, l: &EthLog) -> (r: Log)
    requires
        tx_index <= i32::MAX,
        log_index <= i32::MAX,
    ensures
        r@ == spec_log_record(bn, hash@, tx_index as int, log_index as int, *l),
{
    let r = Log {
        block_number: bn,
        address: clone_bytes(&l.address),
        topic_1: topic_at(&l.topics, 0),
        topic_2: topic_at(&l.topics, 1),
        topic_3: topic_at(&l.topics, 2),
        topic_4: topic_at(&l.topics, 3),
        log_index: log_index as i32,
        transaction_index: tx_index as i32,
        substrate_block_hash: clone_bytes(hash),
    };
    proof {
        assert(r@ =~= spec_log_record(bn, hash@, tx_index as int, log_index as int, *l));
    }
    r
}

/// Extracts every log record a block's receipts emit: receipts in
/// transaction order, logs within a receipt in emission order, absent
/// topics padded with the all-zero value. A pure function of its input;
/// never fails.
pub fn extract_logs(block: &BlockData) -> (r: Vec<Log>)
    requires
        block.wf(),
    ensures
        views_of_logs(r@) == spec_extract_logs(*block),
        forall|i: int| 0 <= i < r@.len() ==> (#[trigger] r@[i]).wf(),
{
    let bn = block_number_of(&block.number);
    let mut out: Vec<Log> = Vec::new();
    let ghost all: Seq<Receipt> = spec_block_receipts(*block);
    match &block.receipts {
        Option::None => {
            proof {
                assert(views_of_logs(out@) =~= spec_extract_logs(*block));
            }
            out
        },
        Option::Some(receipts) => {
            let mut tx: usize = 0;
            while tx < receipts.len()
                invariant
                    block.wf(),
                    bn == spec_block_number(block.number),
                    bn >= 0,
                    receipts@ == all,
                    all == spec_block_receipts(*block),
                    tx <= all.len(),
                    views_of_logs(out@) == spec_block_records(
                        bn,
                        block.substrate_block_hash@,
                        all.take(tx as int),
                    ),
                    forall|i: int| 0 <= i < out@.len() ==> (#[trigger] out@[i]).wf(),
                decreases all.len() - tx,
            {
                let rlogs = receipt_logs(&receipts[tx]);
                let ghost logs: Seq<EthLog> = rlogs@;
                proof {
                    assert(all[tx as int].wf());
                }
                let mut li: usize = 0;
                while li < rlogs.len()
                    invariant
                        block.wf(),
                        bn == spec_block_number(block.number),
                        bn >= 0,
                        receipts@ == all,
                        all == spec_block_receipts(*block),
                        tx < all.len(),
                        rlogs@ == logs,
                        logs == spec_receipt_logs(all[tx as int]),
                        logs.len() <= i32::MAX,
                        forall|i: int| 0 <= i < logs.len() ==> logs[i].wf(),
                        li <= logs.len(),
                        views_of_logs(out@) == spec_block_records(
                            bn,
                            block.substrate_block_hash@,
                            all.take(tx as int),
                        ) + spec_receipt_records(
                            bn,
                            block.substrate_block_hash@,
                            tx as int,
                            logs,
                        ).take(li as int),
                        forall|i: int| 0 <= i < out@.len() ==> (#[trigger] out@[i]).wf(),
                    decreases logs.len() - li,
                {
                    let entry = make_log(bn, &block.substrate_block_hash, tx, li, &rlogs[li]);
                    proof {
                        assert(logs[li as int].wf());
                        assert(entry.wf());
                    }
                    let ghost prev: Seq<Log> = out@;
                    out.push(entry);
                    proof {
                        let full = spec_receipt_records(
                            bn,
                            block.substrate_block_hash@,
                            tx as int,
                            logs,
                        );
                        lemma_views_push(prev, entry);
                        assert(entry@ == full[li as int]);
                        assert(views_of_logs(out@) =~= spec_block_records(
                            bn,
                            block.substrate_block_hash@,
                            all.take(tx as int),
                        ) + full.take(li as int + 1));
                    }
                    li = li + 1;
                }
                proof {
                    let full = spec_receipt_records(
                        bn,
                        block.substrate_block_hash@,
                        tx as int,
                        logs,
                    );
                    assert(full.take(logs.len() as int) =~= full);
                    assert(all.take(tx as int + 1).drop_last() =~= all.take(tx as int));
                    assert(all.take(tx as int + 1).last() == all[tx as int]);
                    assert(spec_block_records(
                        bn,
                        block.substrate_block_hash@,
                        all.take(tx as int + 1),
                    ) == spec_block_records(bn, block.substrate_block_hash@, all.take(tx as int))
                        + full);
                }
                tx = tx + 1;
            }
            proof {
                assert(all.take(all.len() as int) =~= all);
            }
            out
        },
    }
}

/// Extracts the records of every block of a batch, blocks in batch order.
pub fn extract_batch(blocks: &Vec<BlockData>) -> (r: Vec<Log>)
    requires
        forall|i: int| 0 <= i < blocks@.len() ==> (#[trigger] blocks@[i]).wf(),
    ensures
        views_of_logs(r@) == spec_extract_batch(blocks@),
        forall|i: int| 0 <= i < r@.len() ==> (#[trigger] r@[i]).wf(),
{
    let mut out: Vec<Log> = Vec::new();
    let mut b: usize = 0;
    while b < blocks.len()
        invariant
            forall|i: int| 0 <= i < blocks@.len() ==> (#[trigger] blocks@[i]).wf(),
            b <= blocks@.len(),
            views_of_logs(out@) == spec_extract_batch(blocks@.take(b as int)),
            forall|i: int| 0 <= i < out@.len() ==> (#[trigger] out@[i]).wf(),
        decreases blocks@.len() - b,
    {
        let mut block_logs = extract_logs(&blocks[b]);
        let ghost before: Seq<Log> = out@;
        let ghost added: Seq<Log> = block_logs@;
        out.append(&mut block_logs);
        proof {
            lemma_views_concat(before, added);
            assert(blocks@.take(b as int + 1).drop_last() =~= blocks@.take(b as int));
            assert(blocks@.take(b as int + 1).last() == blocks@[b as int]);
            assert(views_of_logs(out@) =~= spec_extract_batch(blocks@.take(b as int + 1)));
            assert forall|i: int| 0 <= i < out@.len() implies (#[trigger] out@[i]).wf() by {
                if i < before.len() {
                    assert(out@[i] == before[i]);
                } else {
                    assert(out@[i] == added[i - before.len()]);
                }
            }
        }
        b = b + 1;
    }
    proof {
        assert(blocks@.take(blocks@.len() as int) =~= blocks@);
    }
    out
}

/// Copies one row.
pub fn log_copy(l: &Log) -> (r: Log)
    ensures
        r@ == l@,
        r.wf() == l.wf(),
{
    let r = Log {
        block_number: l.block_number,
        address: clone_bytes(&l.address),
        topic_1: clone_bytes(&l.topic_1),
        topic_2: clone_bytes(&l.topic_2),
        topic_3: clone_bytes(&l.topic_3),
        topic_4: clone_bytes(&l.topic_4),
        log_index: l.log_index,
        transaction_index: l.transaction_index,
        substrate_block_hash: clone_bytes(&l.substrate_block_hash),
    };
    proof {
        assert(r@ =~= l@);
    }
    r
}

} // verus!
