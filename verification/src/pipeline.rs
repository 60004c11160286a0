//! The ingestion run's decisions, verified against the store.
//!
//! A run resolves the epoch, enumerates its slots, and then, per slot,
//! fetches a block and writes its transactions and the block into the store,
//! skipping any slot whose fetch fails.  The network calls themselves are the
//! adapter's business; the caller performs them and hands each slot's outcome
//! to [`apply_slot_outcome`], or a whole run's outcomes to [`run_ingestion`].
//! Either way, a failed slot changes nothing and the run never aborts.
//!
//! Per-transaction payloads: the store is keyed by the inline transaction's
//! first signature, while the stored record is whatever the caller supplies
//! for that position — the transaction as it came inline with the block, or
//! a re-fetched authoritative copy.  A position whose re-fetch failed may be
//! handed over as absent; only that transaction is then skipped.

use crate::store::{IndexStore, StoreModel, TxRecord};
use crate::types::{Block, FetchError, Transaction};
use vstd::prelude::*;

verus! {

/// What one slot's fetch produced: a decoded block together with one record
/// choice per inline transaction, or the failure that made the run skip the
/// slot.
#[derive(Debug)]
pub enum SlotOutcome {
    Fetched(Block, Vec<Option<Transaction>>),
    Failed(FetchError),
}

/// A fetched outcome carries a well-formed block and one record choice per
/// inline transaction, each present record well-formed.  A failed outcome
/// carries only its error.
pub open spec fn outcome_valid(outcome: SlotOutcome) -> bool {
    match outcome {
        SlotOutcome::Fetched(block, records) => {
            &&& block.wf()
            &&& records@.len() == block.transactions@.len()
            &&& (forall|i: int|
                0 <= i < records@.len() ==> match #[trigger] records@[i] {
                    Some(t) => t.wf(),
                    None => true,
                })
        },
        SlotOutcome::Failed(_) => true,
    }
}

/// The store state after inserting, for each position with a present record,
/// that record under the inline transaction's first signature, paired with
/// `height`; positions are applied in the block's native order.
pub open spec fn with_records(
    s: StoreModel,
    txs: Seq<Transaction>,
    records: Seq<Option<Transaction>>,
    height: u64,
) -> StoreModel
    decreases records.len(),
{
    if records.len() == 0 || txs.len() != records.len() {
        s
    } else {
        let rest = with_records(s, txs.drop_last(), records.drop_last(), height);
        match records.last() {
            Some(r) => rest.with_transaction(
                txs.last().key(),
                (TxRecord { transaction: r, height }),
            ),
            None => rest,
        }
    }
}

/// The store state after ingesting one fetched block: its transaction
/// records first, then the block itself under its height.
pub open spec fn after_block_ingest(
    s: StoreModel,
    block: Block,
    records: Seq<Option<Transaction>>,
) -> StoreModel {
    with_records(s, block.transactions@, records, block.height).with_block(block.height, block)
}

/// The store state one slot later: unchanged for a failed slot.
pub open spec fn slot_step(s: StoreModel, outcome: SlotOutcome) -> StoreModel {
    match outcome {
        SlotOutcome::Fetched(block, records) => after_block_ingest(s, block, records@),
        SlotOutcome::Failed(_) => s,
    }
}

/// The store state after a whole run's outcomes, in slot order.
pub open spec fn ingest_all(s: StoreModel, outcomes: Seq<SlotOutcome>) -> StoreModel
    decreases outcomes.len(),
{
    if outcomes.len() == 0 {
        s
    } else {
        slot_step(ingest_all(s, outcomes.drop_last()), outcomes.last())
    }
}

/// How many of a run's outcomes were fetched blocks.
pub open spec fn count_fetched(outcomes: Seq<SlotOutcome>) -> int
    decreases outcomes.len(),
{
    if outcomes.len() == 0 {
        0
    } else {
        count_fetched(outcomes.drop_last()) + (match outcomes.last() {
            SlotOutcome::Fetched(_, _) => 1int,
            SlotOutcome::Failed(_) => 0int,
        })
    }
}

/// Progress of one ingestion run: slots processed out of the total, split
/// into inserted and skipped.  Reported after every slot, success or not.
#[derive(Debug, Clone, Copy, PartialEq, Eq, Structural)]
pub struct IngestProgress {
    pub processed: u64,
    pub total: u64,
    pub inserted: u64,
    pub skipped: u64,
}

impl IngestProgress {
    /// Every slot processed so far was either inserted or skipped, and no
    /// more slots were processed than the run has.
    pub open spec fn wf(self) -> bool {
        self.inserted + self.skipped == self.processed && self.processed <= self.total
    }

    /// Progress at the start of a run over `total` slots.
    pub fn new(total: u64) -> (r: IngestProgress)
        ensures
            r.wf(),
            r == (IngestProgress { processed: 0, total, inserted: 0, skipped: 0 }),
    {
        IngestProgress { processed: 0, total, inserted: 0, skipped: 0 }
    }
}

/// Ingests one fetched block: for each position with a present record,
/// inserts it under the inline transaction's first signature paired with the
/// block's height, then inserts the block itself.
pub fn ingest_block(store: &mut IndexStore, block: Block, records: Vec<Option<Transaction>>)
    requires
        old(store).wf(),
        block.wf(),
        records@.len() == block.transactions@.len(),
        forall|i: int|
            0 <= i < records@.len() ==> match #[trigger] records@[i] {
                Some(t) => t.wf(),
                None => true,
            },
    ensures
        final(store).wf(),
        final(store)@ == after_block_ingest(old(store)@, block, records@),
{
    let ghost orig_records = records@;
    let mut rem = records;
    let len = block.transaction_count();
    let mut i: usize = 0;
    while i < len
        invariant
            store.wf(),
            block.wf(),
            len == block.transactions@.len(),
            orig_records.len() == len,
            forall|j: int|
                0 <= j < orig_records.len() ==> match #[trigger] orig_records[j] {
                    Some(t) => t.wf(),
                    None => true,
                },
            i <= len,
            rem@ == orig_records.skip(i as int),
            store@ == with_records(
                old(store)@,
                block.transactions@.take(i as int),
                orig_records.take(i as int),
                block.height,
            ),
        decreases len - i,
    {
        let record = rem.remove(0);
        proof {
            assert(orig_records.skip(i as int)[0] == orig_records[i as int]);
            assert(orig_records.skip(i as int).remove(0) =~= orig_records.skip(i as int + 1));
        }
        match record {
            Some(r) => {
                let signature = block.transactions[i].first_signature().clone();
                store.insert_transaction(signature, r, block.height);
            },
            None => {},
        }
        proof {
            let pre = block.transactions@.take(i as int + 1);
            let rec = orig_records.take(i as int + 1);
            assert(pre.drop_last() =~= block.transactions@.take(i as int));
            assert(rec.drop_last() =~= orig_records.take(i as int));
            assert(pre.last() == block.transactions@[i as int]);
            assert(rec.last() == orig_records[i as int]);
        }
        i = i + 1;
    }
    proof {
        assert(block.transactions@.take(len as int) =~= block.transactions@);
        assert(orig_records.take(len as int) =~= orig_records);
    }
    store.insert_block(block.height, block);
}

/// Applies one slot's outcome: ingests a fetched block, skips a failed slot,
/// and counts the slot as processed either way.  Returns whether the slot's
/// block was inserted.  This is the whole of a run's fault tolerance: a
/// failure is recorded and the run moves on.
pub fn apply_slot_outcome(
    store: &mut IndexStore,
    progress: &mut IngestProgress,
    outcome: SlotOutcome,
) -> (inserted: bool)
    requires
        old(store).wf(),
        old(progress).wf(),
        old(progress).processed < old(progress).total,
        outcome_valid(outcome),
    ensures
        final(store).wf(),
        final(progress).wf(),
        final(store)@ == slot_step(old(store)@, outcome),
        final(progress).total == old(progress).total,
        final(progress).processed == old(progress).processed + 1,
        inserted == (outcome matches SlotOutcome::Fetched(_, _)),
        inserted ==> final(progress).inserted == old(progress).inserted + 1
            && final(progress).skipped == old(progress).skipped,
        !inserted ==> final(progress).skipped == old(progress).skipped + 1
            && final(progress).inserted == old(progress).inserted,
{
    let inserted: bool;
    match outcome {
        SlotOutcome::Fetched(block, records) => {
            ingest_block(store, block, records);
            progress.inserted = progress.inserted + 1;
            inserted = true;
        },
        SlotOutcome::Failed(_) => {
            progress.skipped = progress.skipped + 1;
            inserted = false;
        },
    }
    progress.processed = progress.processed + 1;
    inserted
}

/// Runs a whole ingestion pass over the given slot outcomes, in slot order,
/// and returns the run's final progress.  The run processes every slot: a
/// failed slot is skipped and never aborts the pass.
pub fn run_ingestion(store: &mut IndexStore, outcomes: Vec<SlotOutcome>) -> (progress:
    IngestProgress)
    requires
        old(store).wf(),
        forall|i: int| 0 <= i < outcomes@.len() ==> outcome_valid(#[trigger] outcomes@[i]),
    ensures
        final(store).wf(),
        final(store)@ == ingest_all(old(store)@, outcomes@),
        progress.wf(),
        progress.total == outcomes@.len(),
        progress.processed == progress.total,
        progress.inserted == count_fetched(outcomes@),
        progress.skipped == outcomes@.len() - count_fetched(outcomes@),
{
    let ghost orig = outcomes@;
    let n = outcomes.len();
    let mut rem = outcomes;
    let mut progress = IngestProgress::new(n as u64);
    let mut i: usize = 0;
    while i < n
        invariant
            store.wf(),
            progress.wf(),
            n == orig.len(),
            i <= n,
            rem@ == orig.skip(i as int),
            forall|j: int| 0 <= j < orig.len() ==> outcome_valid(#[trigger] orig[j]),
            store@ == ingest_all(old(store)@, orig.take(i as int)),
            progress.total == n as u64,
            progress.processed == i,
            progress.inserted == count_fetched(orig.take(i as int)),
            progress.skipped == i - count_fetched(orig.take(i as int)),
        decreases n - i,
    {
        let outcome = rem.remove(0);
        proof {
            assert(orig.skip(i as int)[0] == orig[i as int]);
            assert(orig.skip(i as int).remove(0) =~= orig.skip(i as int + 1));
        }
        apply_slot_outcome(store, &mut progress, outcome);
        proof {
            let pre = orig.take(i as int + 1);
            assert(pre.drop_last() =~= orig.take(i as int));
            assert(pre.last() == orig[i as int]);
        }
        i = i + 1;
    }
    proof {
        assert(orig.take(n as int) =~= orig);
    }
    progress
}

/// Ingesting records touches neither the block index nor the height counter.
pub proof fn lemma_with_records_blocks(
    s: StoreModel,
    txs: Seq<Transaction>,
    records: Seq<Option<Transaction>>,
    height: u64,
)
    ensures
        with_records(s, txs, records, height).blocks == s.blocks,
        with_records(s, txs, records, height).highest == s.highest,
    decreases records.len(),
{
    if records.len() == 0 || txs.len() != records.len() {
    } else {
        lemma_with_records_blocks(s, txs.drop_last(), records.drop_last(), height);
    }
}

/// Every transaction entry after ingesting records is either an entry the
/// store already had, unchanged, or a new record paired with `height`.
pub proof fn lemma_with_records_transactions(
    s: StoreModel,
    txs: Seq<Transaction>,
    records: Seq<Option<Transaction>>,
    height: u64,
)
    ensures
        forall|k: Seq<char>| #[trigger]
            with_records(s, txs, records, height).transactions.dom().contains(k) ==> ((
            s.transactions.dom().contains(k) && with_records(s, txs, records, height).transactions[k]
                == s.transactions[k]) || with_records(s, txs, records, height).transactions[k].height
                == height),
    decreases records.len(),
{
    if records.len() == 0 || txs.len() != records.len() {
    } else {
        lemma_with_records_transactions(s, txs.drop_last(), records.drop_last(), height);
        let rest = with_records(s, txs.drop_last(), records.drop_last(), height);
        let post = with_records(s, txs, records, height);
        assert forall|k: Seq<char>| #[trigger] post.transactions.dom().contains(k) implies ((
        s.transactions.dom().contains(k) && post.transactions[k] == s.transactions[k])
            || post.transactions[k].height == height) by {
            match records.last() {
                Some(r) => {
                    if k != txs.last().key() {
                        assert(post.transactions[k] == rest.transactions[k]);
                        assert(rest.transactions.dom().contains(k));
                    }
                },
                None => {
                    assert(rest.transactions.dom().contains(k));
                },
            }
        }
    }
}

/// Whether this outcome is a fetched block at the given height.
pub open spec fn is_fetched_height(outcome: SlotOutcome, height: u64) -> bool {
    match outcome {
        SlotOutcome::Fetched(block, _) => block.height == height,
        SlotOutcome::Failed(_) => false,
    }
}

/// The heights of the blocks a run's outcomes fetched.
pub open spec fn fetched_heights(outcomes: Seq<SlotOutcome>) -> Set<u64> {
    Set::new(
        |h: u64|
            exists|i: int| 0 <= i < outcomes.len() && is_fetched_height(#[trigger] outcomes[i], h),
    )
}

/// Skip-and-continue, stated over a whole run: after ingesting a run's
/// outcomes, the block index holds exactly what it held before plus the
/// height of every fetched block — every fetched slot appears, and a failed
/// slot contributes nothing.
pub proof fn lemma_ingest_all_blocks_dom(s: StoreModel, outcomes: Seq<SlotOutcome>)
    ensures
        ingest_all(s, outcomes).blocks.dom() =~= s.blocks.dom() + fetched_heights(outcomes),
    decreases outcomes.len(),
{
    if outcomes.len() == 0 {
        assert(fetched_heights(outcomes) =~= Set::<u64>::empty());
    } else {
        let prefix = outcomes.drop_last();
        lemma_ingest_all_blocks_dom(s, prefix);
        assert forall|h: u64| fetched_heights(prefix).contains(h) implies fetched_heights(
            outcomes,
        ).contains(h) by {
            let i = choose|i: int|
                0 <= i < prefix.len() && is_fetched_height(#[trigger] prefix[i], h);
            assert(is_fetched_height(outcomes[i], h));
        }
        match outcomes.last() {
            SlotOutcome::Failed(_) => {
                assert forall|h: u64| fetched_heights(outcomes).contains(h) implies fetched_heights(
                    prefix,
                ).contains(h) by {
                    let i = choose|i: int|
                        0 <= i < outcomes.len() && is_fetched_height(#[trigger] outcomes[i], h);
                    assert(i < prefix.len());
                    assert(is_fetched_height(prefix[i], h));
                }
                assert(fetched_heights(outcomes) =~= fetched_heights(prefix));
            },
            SlotOutcome::Fetched(block, records) => {
                lemma_with_records_blocks(
                    ingest_all(s, prefix),
                    block.transactions@,
                    records@,
                    block.height,
                );
                assert(is_fetched_height(outcomes[outcomes.len() - 1], block.height));
                assert forall|h: u64| fetched_heights(outcomes).contains(h) implies fetched_heights(
                    prefix,
                ).insert(block.height).contains(h) by {
                    let i = choose|i: int|
                        0 <= i < outcomes.len() && is_fetched_height(#[trigger] outcomes[i], h);
                    if i < prefix.len() {
                        assert(is_fetched_height(prefix[i], h));
                    }
                }
                assert(fetched_heights(outcomes) =~= fetched_heights(prefix).insert(block.height));
            },
        }
    }
}

/// A fetched block whose height no later outcome fetches again ends the run
/// indexed under its height, unchanged.
pub proof fn lemma_fetched_block_retained(
    s: StoreModel,
    outcomes: Seq<SlotOutcome>,
    i: int,
    block: Block,
    records: Vec<Option<Transaction>>,
)
    requires
        0 <= i < outcomes.len(),
        outcomes[i] == SlotOutcome::Fetched(block, records),
        forall|j: int|
            i < j < outcomes.len() ==> !is_fetched_height(#[trigger] outcomes[j], block.height),
    ensures
        ingest_all(s, outcomes).blocks.dom().contains(block.height),
        ingest_all(s, outcomes).blocks[block.height] == block,
    decreases outcomes.len(),
{
    let prefix = outcomes.drop_last();
    if i == outcomes.len() - 1 {
        lemma_with_records_blocks(ingest_all(s, prefix), block.transactions@, records@, block.height);
    } else {
        assert forall|j: int|
            i < j < prefix.len() implies !is_fetched_height(#[trigger] prefix[j], block.height) by {
            assert(prefix[j] == outcomes[j]);
        }
        lemma_fetched_block_retained(s, prefix, i, block, records);
        match outcomes.last() {
            SlotOutcome::Failed(_) => {},
            SlotOutcome::Fetched(other, other_records) => {
                assert(is_fetched_height(outcomes[outcomes.len() - 1], other.height));
                assert(other.height != block.height);
                lemma_with_records_blocks(
                    ingest_all(s, prefix),
                    other.transactions@,
                    other_records@,
                    other.height,
                );
            },
        }
    }
}

/// The empty store has nothing dangling.
pub proof fn lemma_empty_integrity()
    ensures
        StoreModel::empty().ref_integrity(),
{
}

/// One slot keeps the store's referential integrity: a fetched block's
/// records are inserted with the block's own height, and the block itself in
/// the same step; a failed slot changes nothing.
pub proof fn lemma_slot_step_integrity(s: StoreModel, outcome: SlotOutcome)
    requires
        s.ref_integrity(),
    ensures
        slot_step(s, outcome).ref_integrity(),
{
    match outcome {
        SlotOutcome::Failed(_) => {},
        SlotOutcome::Fetched(block, records) => {
            lemma_with_records_blocks(s, block.transactions@, records@, block.height);
            lemma_with_records_transactions(s, block.transactions@, records@, block.height);
            let post = slot_step(s, outcome);
            assert forall|k: Seq<char>| #[trigger]
                post.transactions.dom().contains(k) implies post.blocks.dom().contains(
                post.transactions[k].height,
            ) by {
                let mid = with_records(s, block.transactions@, records@, block.height);
                assert(mid.transactions.dom().contains(k));
            }
        },
    }
}

/// A whole run keeps the store's referential integrity: every stored
/// transaction's paired height names an indexed block once its slot's
/// ingestion has completed.
pub proof fn lemma_ingest_all_integrity(s: StoreModel, outcomes: Seq<SlotOutcome>)
    requires
        s.ref_integrity(),
    ensures
        ingest_all(s, outcomes).ref_integrity(),
    decreases outcomes.len(),
{
    if outcomes.len() > 0 {
        lemma_ingest_all_integrity(s, outcomes.drop_last());
        lemma_slot_step_integrity(ingest_all(s, outcomes.drop_last()), outcomes.last());
    }
}

} // verus!
