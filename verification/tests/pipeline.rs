use gator::pipeline::{apply_slot_outcome, ingest_block, run_ingestion, IngestProgress, SlotOutcome};
use gator::store::IndexStore;
use gator::types::{Block, FetchError, Transaction};

fn tx(sig: &str, payload: &str) -> Transaction {
    Transaction { signatures: vec![String::from(sig)], payload: String::from(payload) }
}

fn block(height: u64, txs: Vec<Transaction>) -> Block {
    Block { height, transactions: txs }
}

fn fetched_inline(b: Block) -> SlotOutcome {
    let records = b.transactions.iter().map(|t| Some(t.clone())).collect();
    SlotOutcome::Fetched(b, records)
}

#[test]
fn skip_and_continue() {
    let mut store = IndexStore::new();
    let mut outcomes = Vec::new();
    for h in 1..=8u64 {
        if h == 5 {
            outcomes.push(SlotOutcome::Failed(FetchError::TransportError));
        } else {
            outcomes.push(fetched_inline(block(h, vec![])));
        }
    }
    let progress = run_ingestion(&mut store, outcomes);
    assert_eq!(progress.processed, 8);
    assert_eq!(progress.total, 8);
    assert_eq!(progress.inserted, 7);
    assert_eq!(progress.skipped, 1);
    for h in 1..=8u64 {
        if h == 5 {
            assert!(store.get_block(h).is_none());
        } else {
            assert!(store.get_block(h).is_some());
        }
    }
}

#[test]
fn end_to_end_scenario() {
    let mut store = IndexStore::new();
    let tx_a = tx("sigA", "payload-a");
    let tx_c = tx("sigC", "payload-c");
    let block_100 = block(100, vec![tx_a.clone()]);
    let block_102 = block(102, vec![tx_c.clone()]);
    let outcomes = vec![
        fetched_inline(block_100.clone()),
        SlotOutcome::Failed(FetchError::BlockNotFound),
        fetched_inline(block_102.clone()),
    ];
    let progress = run_ingestion(&mut store, outcomes);
    assert_eq!(progress.processed, 3);
    assert_eq!(progress.inserted, 2);
    assert_eq!(progress.skipped, 1);
    assert_eq!(store.num_blocks(), 2);
    assert_eq!(*store.get_block(100).expect("slot 100 fetched"), block_100);
    assert_eq!(*store.get_block(102).expect("slot 102 fetched"), block_102);
    assert!(store.get_block(101).is_none());
    assert_eq!(store.num_transactions(), 2);
    let rec_a = store.get_transaction(&String::from("sigA")).expect("sigA indexed");
    assert_eq!(rec_a.transaction, tx_a);
    assert_eq!(rec_a.height, 100);
    let rec_c = store.get_transaction(&String::from("sigC")).expect("sigC indexed");
    assert_eq!(rec_c.transaction, tx_c);
    assert_eq!(rec_c.height, 102);
}

#[test]
fn mid_run_read_sees_well_formed_prefix() {
    let mut store = IndexStore::new();
    let mut progress = IngestProgress::new(3);
    let first = fetched_inline(block(100, vec![tx("sigA", "a")]));
    apply_slot_outcome(&mut store, &mut progress, first);

    // A concurrent reader takes the guard between two slots: everything it
    // sees is complete and well-formed, though smaller than the final index.
    for (height, b) in store.snapshot_blocks() {
        assert_eq!(b.height, *height);
        for t in &b.transactions {
            assert!(!t.signatures.is_empty());
        }
    }
    for (_, rec) in store.snapshot_transactions() {
        assert!(!rec.transaction.signatures.is_empty());
    }
    let mid_blocks = store.num_blocks();
    assert_eq!(mid_blocks, 1);

    apply_slot_outcome(&mut store, &mut progress, fetched_inline(block(101, vec![])));
    apply_slot_outcome(&mut store, &mut progress, fetched_inline(block(102, vec![])));
    assert!(store.num_blocks() > mid_blocks);
    assert_eq!(progress.processed, 3);
}

#[test]
fn every_failure_kind_skips_the_slot() {
    for err in [FetchError::BlockNotFound, FetchError::DecodeError, FetchError::TransportError] {
        let mut store = IndexStore::new();
        let mut progress = IngestProgress::new(1);
        let inserted = apply_slot_outcome(&mut store, &mut progress, SlotOutcome::Failed(err));
        assert!(!inserted);
        assert_eq!(store.num_blocks(), 0);
        assert_eq!(store.num_transactions(), 0);
        assert_eq!(progress.processed, 1);
        assert_eq!(progress.skipped, 1);
        assert_eq!(progress.inserted, 0);
    }
}

#[test]
fn refetched_record_stored_under_inline_signature() {
    let mut store = IndexStore::new();
    let inline = tx("sigA", "inline-payload");
    let refetched = tx("sigA", "authoritative-payload");
    let b = block(20, vec![inline]);
    ingest_block(&mut store, b, vec![Some(refetched.clone())]);
    let rec = store.get_transaction(&String::from("sigA")).expect("sigA indexed");
    assert_eq!(rec.transaction, refetched);
    assert_eq!(rec.height, 20);
}

#[test]
fn absent_record_skips_only_that_transaction() {
    let mut store = IndexStore::new();
    let b = block(30, vec![tx("sigA", "a"), tx("sigB", "b")]);
    ingest_block(&mut store, b, vec![None, Some(tx("sigB", "b"))]);
    assert!(store.get_block(30).is_some());
    assert!(store.get_transaction(&String::from("sigA")).is_none());
    assert!(store.get_transaction(&String::from("sigB")).is_some());
    assert_eq!(store.num_transactions(), 1);
}

#[test]
fn later_fetch_of_same_height_wins() {
    let mut store = IndexStore::new();
    let early = block(50, vec![]);
    let late = block(50, vec![tx("sigZ", "z")]);
    let outcomes = vec![fetched_inline(early), fetched_inline(late.clone())];
    run_ingestion(&mut store, outcomes);
    assert_eq!(store.num_blocks(), 1);
    assert_eq!(*store.get_block(50).expect("height 50 present"), late);
}

#[test]
fn transactions_reference_present_blocks_after_run() {
    let mut store = IndexStore::new();
    let outcomes = vec![
        fetched_inline(block(1, vec![tx("sigA", "a")])),
        SlotOutcome::Failed(FetchError::DecodeError),
        fetched_inline(block(3, vec![tx("sigB", "b"), tx("sigC", "c")])),
    ];
    run_ingestion(&mut store, outcomes);
    for (_, rec) in store.snapshot_transactions() {
        assert!(store.get_block(rec.height).is_some());
    }
}
