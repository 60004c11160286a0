use gator::store::IndexStore;
use gator::types::{Block, Transaction};

fn tx(sig: &str, payload: &str) -> Transaction {
    Transaction { signatures: vec![String::from(sig)], payload: String::from(payload) }
}

fn block(height: u64, txs: Vec<Transaction>) -> Block {
    Block { height, transactions: txs }
}

#[test]
fn store_starts_empty() {
    let store = IndexStore::new();
    assert_eq!(store.num_blocks(), 0);
    assert_eq!(store.num_transactions(), 0);
    assert_eq!(store.highest_height(), 0);
    assert!(store.get_block(5).is_none());
    assert!(store.get_transaction(&String::from("sigA")).is_none());
}

#[test]
fn inserted_block_sits_under_its_height() {
    let mut store = IndexStore::new();
    store.insert_block(3, block(3, vec![]));
    store.insert_block(7, block(7, vec![tx("sigB", "b")]));
    for (height, b) in store.snapshot_blocks() {
        assert_eq!(b.height, *height);
    }
    let got = store.get_block(7).expect("height 7 was inserted");
    assert_eq!(got.height, 7);
    assert_eq!(store.num_blocks(), 2);
    assert_eq!(store.highest_height(), 7);
}

#[test]
fn insert_block_overwrites_same_height() {
    let mut store = IndexStore::new();
    store.insert_block(4, block(4, vec![]));
    store.insert_block(4, block(4, vec![tx("sigX", "x")]));
    assert_eq!(store.num_blocks(), 1);
    let got = store.get_block(4).expect("height 4 present");
    assert_eq!(got.transactions.len(), 1);
}

#[test]
fn insert_same_block_twice_leaves_snapshot_unchanged() {
    let mut store = IndexStore::new();
    let b = block(5, vec![tx("sigA", "a")]);
    store.insert_block(5, b.clone());
    let before_blocks = store.snapshot_blocks().clone();
    let before_highest = store.highest_height();
    store.insert_block(5, b);
    assert_eq!(*store.snapshot_blocks(), before_blocks);
    assert_eq!(store.highest_height(), before_highest);
    assert_eq!(store.num_blocks(), 1);
}

#[test]
fn insert_transaction_and_look_it_up() {
    let mut store = IndexStore::new();
    let t = tx("sigA", "payload-a");
    store.insert_transaction(String::from("sigA"), t.clone(), 10);
    let rec = store.get_transaction(&String::from("sigA")).expect("sigA present");
    assert_eq!(rec.height, 10);
    assert_eq!(rec.transaction, t);
    assert!(store.get_transaction(&String::from("sigB")).is_none());
}

#[test]
fn insert_transaction_overwrites_same_signature() {
    let mut store = IndexStore::new();
    store.insert_transaction(String::from("sigA"), tx("sigA", "old"), 10);
    store.insert_transaction(String::from("sigA"), tx("sigA", "new"), 11);
    assert_eq!(store.num_transactions(), 1);
    let rec = store.get_transaction(&String::from("sigA")).expect("sigA present");
    assert_eq!(rec.height, 11);
    assert_eq!(rec.transaction.payload, "new");
}

#[test]
fn highest_height_never_goes_down() {
    let mut store = IndexStore::new();
    store.insert_block(9, block(9, vec![]));
    store.insert_block(2, block(2, vec![]));
    assert_eq!(store.highest_height(), 9);
    store.insert_block(11, block(11, vec![]));
    assert_eq!(store.highest_height(), 11);
}

#[test]
fn snapshot_transactions_lists_every_record() {
    let mut store = IndexStore::new();
    store.insert_transaction(String::from("sigA"), tx("sigA", "a"), 1);
    store.insert_transaction(String::from("sigB"), tx("sigB", "b"), 2);
    let snap = store.snapshot_transactions();
    assert_eq!(snap.len(), 2);
    let mut sigs: Vec<&str> = snap.iter().map(|e| e.0.as_str()).collect();
    sigs.sort();
    assert_eq!(sigs, vec!["sigA", "sigB"]);
}
