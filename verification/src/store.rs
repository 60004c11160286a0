//! The in-memory index the ingestion run populates and the read surface
//! serves: blocks keyed by height, transactions keyed by signature, and the
//! highest height observed so far.
//!
//! The store is owned by one process and shared behind a caller-side
//! exclusion guard; every operation here works on the whole store value, so
//! a reader that holds the guard only ever observes states reachable through
//! these operations, all of which preserve `wf`.

use crate::kvmap::{
    kv_map, lemma_kv_map_contains, lemma_kv_map_index, lemma_kv_map_len, lemma_kv_map_push,
    lemma_kv_map_update, unique_keys,
};
use crate::types::{Block, Transaction};
use vstd::prelude::*;

verus! {

/// A stored transaction together with the height of the block it came with.
#[derive(Debug, Clone, PartialEq, Eq)]
pub struct TxRecord {
    pub transaction: Transaction,
    pub height: u64,
}

/// The store's mathematical state: its two indexes as maps, and the highest
/// block height observed.
#[verifier::ext_equal]
pub struct StoreModel {
    pub blocks: Map<u64, Block>,
    pub transactions: Map<Seq<char>, TxRecord>,
    pub highest: u64,
}

impl StoreModel {
    pub open spec fn empty() -> StoreModel {
        StoreModel { blocks: Map::empty(), transactions: Map::empty(), highest: 0 }
    }

    /// The state after a block insert: the block keyed by `height`, and the
    /// highest-height counter advanced if `height` exceeds it.
    pub open spec fn with_block(self, height: u64, block: Block) -> StoreModel {
        StoreModel {
            blocks: self.blocks.insert(height, block),
            transactions: self.transactions,
            highest: if height > self.highest {
                height
            } else {
                self.highest
            },
        }
    }

    /// The state after a transaction insert under `signature`.
    pub open spec fn with_transaction(self, signature: Seq<char>, record: TxRecord) -> StoreModel {
        StoreModel {
            blocks: self.blocks,
            transactions: self.transactions.insert(signature, record),
            highest: self.highest,
        }
    }

    /// Every stored transaction's paired height names a block present in the
    /// block index.
    pub open spec fn ref_integrity(self) -> bool {
        forall|k: Seq<char>| #[trigger]
            self.transactions.dom().contains(k) ==> self.blocks.dom().contains(
                self.transactions[k].height,
            )
    }
}

/// The view of a signature-keyed entry list: each key read as its character
/// sequence.
pub open spec fn tx_entries(entries: Seq<(String, TxRecord)>) -> Seq<(Seq<char>, TxRecord)> {
    entries.map_values(|e: (String, TxRecord)| (e.0@, e.1))
}

/// The in-memory index.  Both indexes are entry lists with pairwise distinct
/// keys; `view` reads them as maps.
pub struct IndexStore {
    blocks: Vec<(u64, Block)>,
    transactions: Vec<(String, TxRecord)>,
    block_idx: u64,
}

impl View for IndexStore {
    type V = StoreModel;

    closed spec fn view(&self) -> StoreModel {
        StoreModel {
            blocks: kv_map(self.blocks@),
            transactions: kv_map(tx_entries(self.transactions@)),
            highest: self.block_idx,
        }
    }
}

impl IndexStore {
    /// The store's internal invariant: distinct keys in both indexes, every
    /// block entry keyed by its own height and no higher than the counter,
    /// and every entry well-formed.
    pub closed spec fn wf(self) -> bool {
        &&& unique_keys(self.blocks@)
        &&& unique_keys(tx_entries(self.transactions@))
        &&& (forall|i: int|
            0 <= i < self.blocks@.len() ==> (#[trigger] self.blocks@[i]).1.wf() && self.blocks@[
                i
            ].1.height == self.blocks@[i].0 && self.blocks@[i].0 <= self.block_idx)
        &&& (forall|i: int|
            0 <= i < self.transactions@.len() ==> (#[trigger] self.transactions@[
                i
            ]).1.transaction.wf())
    }

    /// Creates the empty store.
    pub fn new() -> (r: IndexStore)
        ensures
            r.wf(),
            r@ == StoreModel::empty(),
    {
        let r = IndexStore { blocks: Vec::new(), transactions: Vec::new(), block_idx: 0 };
        proof {
            assert(r@ =~= StoreModel::empty());
        }
        r
    }

    fn find_block_index(&self, height: u64) -> (r: Option<usize>)
        ensures
            match r {
                Some(i) => i < self.blocks@.len() && (self.blocks@[i as int]).0 == height,
                None => forall|j: int|
                    0 <= j < self.blocks@.len() ==> (#[trigger] self.blocks@[j]).0 != height,
            },
    {
        let mut i: usize = 0;
        while i < self.blocks.len()
            invariant
                i <= self.blocks@.len(),
                forall|j: int| 0 <= j < i ==> (#[trigger] self.blocks@[j]).0 != height,
            decreases self.blocks@.len() - i,
        {
            if self.blocks[i].0 == height {
                return Some(i);
            }
            i = i + 1;
        }
        None
    }

    fn find_transaction_index(&self, signature: &String) -> (r: Option<usize>)
        ensures
            match r {
                Some(i) => i < self.transactions@.len() && (self.transactions@[i as int]).0@
                    == signature@,
                None => forall|j: int|
                    0 <= j < self.transactions@.len() ==> (#[trigger] self.transactions@[j]).0@
                        != signature@,
            },
    {
        let mut i: usize = 0;
        while i < self.transactions.len()
            invariant
                i <= self.transactions@.len(),
                forall|j: int| 0 <= j < i ==> (#[trigger] self.transactions@[j]).0@ != signature@,
            decreases self.transactions@.len() - i,
        {
            if self.transactions[i].0 == *signature {
                return Some(i);
            }
            i = i + 1;
        }
        None
    }

    /// Inserts or overwrites the block at `height` and advances the
    /// highest-height counter if `height` exceeds it.  The height is the
    /// block's own: the store keys each block by the height it carries.
    pub fn insert_block(&mut self, height: u64, block: Block)
        requires
            old(self).wf(),
            block.wf(),
            block.height == height,
        ensures
            final(self).wf(),
            final(self)@ == old(self)@.with_block(height, block),
    {
        if height > self.block_idx {
            self.block_idx = height;
        }
        let found = self.find_block_index(height);
        match found {
            Some(i) => {
                proof {
                    lemma_kv_map_update(self.blocks@, i as int, block);
                }
                self.blocks[i] = (height, block);
            },
            None => {
                proof {
                    lemma_kv_map_push(self.blocks@, height, block);
                }
                self.blocks.push((height, block));
            },
        }
        proof {
            assert(tx_entries(self.transactions@) =~= tx_entries(old(self).transactions@));
            assert(self@ =~= old(self)@.with_block(height, block));
        }
    }

    /// Inserts or overwrites the transaction keyed by `signature`, recording
    /// the height of the block it belongs to.  The store itself does not
    /// check that the block is present: the ingestion step inserts a block's
    /// transactions and then the block, so integrity holds once the step
    /// completes.
    pub fn insert_transaction(&mut self, signature: String, transaction: Transaction, height: u64)
        requires
            old(self).wf(),
            transaction.wf(),
        ensures
            final(self).wf(),
            final(self)@ == old(self)@.with_transaction(
                signature@,
                (TxRecord { transaction, height }),
            ),
    {
        let record = TxRecord { transaction, height };
        let found = self.find_transaction_index(&signature);
        match found {
            Some(i) => {
                proof {
                    lemma_kv_map_update(tx_entries(self.transactions@), i as int, record);
                    assert(tx_entries(self.transactions@.update(i as int, (signature, record)))
                        =~= tx_entries(self.transactions@).update(i as int, (signature@, record)));
                }
                self.transactions[i] = (signature, record);
            },
            None => {
                proof {
                    lemma_kv_map_push(tx_entries(self.transactions@), signature@, record);
                    assert(tx_entries(self.transactions@.push((signature, record))) =~= tx_entries(
                        self.transactions@,
                    ).push((signature@, record)));
                }
                self.transactions.push((signature, record));
            },
        }
        proof {
            assert(self@ =~= old(self)@.with_transaction(signature@, record));
        }
    }

    /// Looks the block at `height` up.
    pub fn get_block(&self, height: u64) -> (r: Option<&Block>)
        requires
            self.wf(),
        ensures
            match r {
                Some(b) => self@.blocks.dom().contains(height) && *b == self@.blocks[height],
                None => !self@.blocks.dom().contains(height),
            },
    {
        let found = self.find_block_index(height);
        proof {
            lemma_kv_map_contains(self.blocks@, height);
        }
        match found {
            Some(i) => {
                proof {
                    lemma_kv_map_index(self.blocks@, i as int);
                }
                Some(&self.blocks[i].1)
            },
            None => None,
        }
    }

    /// Looks the transaction recorded under `signature` up.
    pub fn get_transaction(&self, signature: &String) -> (r: Option<&TxRecord>)
        requires
            self.wf(),
        ensures
            match r {
                Some(t) => self@.transactions.dom().contains(signature@) && *t
                    == self@.transactions[signature@],
                None => !self@.transactions.dom().contains(signature@),
            },
    {
        let found = self.find_transaction_index(signature);
        proof {
            lemma_kv_map_contains(tx_entries(self.transactions@), signature@);
        }
        match found {
            Some(i) => {
                proof {
                    lemma_kv_map_index(tx_entries(self.transactions@), i as int);
                }
                Some(&self.transactions[i].1)
            },
            None => None,
        }
    }

    /// The block index as an entry list: one entry per block, reading exactly
    /// as the store's block map.
    pub fn snapshot_blocks(&self) -> (r: &Vec<(u64, Block)>)
        requires
            self.wf(),
        ensures
            kv_map(r@) == self@.blocks,
            unique_keys(r@),
    {
        &self.blocks
    }

    /// The transaction index as an entry list: one entry per recorded
    /// transaction, reading exactly as the store's transaction map.
    pub fn snapshot_transactions(&self) -> (r: &Vec<(String, TxRecord)>)
        requires
            self.wf(),
        ensures
            kv_map(tx_entries(r@)) == self@.transactions,
            unique_keys(tx_entries(r@)),
    {
        &self.transactions
    }

    /// How many blocks are indexed.
    pub fn num_blocks(&self) -> (r: usize)
        requires
            self.wf(),
        ensures
            r == self@.blocks.dom().len(),
    {
        proof {
            lemma_kv_map_len(self.blocks@);
        }
        self.blocks.len()
    }

    /// How many transactions are indexed.
    pub fn num_transactions(&self) -> (r: usize)
        requires
            self.wf(),
        ensures
            r == self@.transactions.dom().len(),
    {
        proof {
            lemma_kv_map_len(tx_entries(self.transactions@));
        }
        self.transactions.len()
    }

    /// The highest block height observed so far; zero before any insert.
    pub fn highest_height(&self) -> (r: u64)
        ensures
            r == self@.highest,
    {
        self.block_idx
    }

    /// Key-value consistency and well-formedness of everything a snapshot
    /// can return: each indexed block sits under its own height, no height
    /// exceeds the counter, and every stored entry is well-formed.  Since
    /// every operation preserves `wf`, a reader holding the store's guard
    /// mid-run sees only such states.
    pub proof fn lemma_entries_well_formed(self)
        requires
            self.wf(),
        ensures
            forall|h: u64| #[trigger]
                self@.blocks.dom().contains(h) ==> self@.blocks[h].wf() && self@.blocks[h].height
                    == h && h <= self@.highest,
            forall|k: Seq<char>| #[trigger]
                self@.transactions.dom().contains(k)
                    ==> self@.transactions[k].transaction.wf(),
    {
        assert forall|h: u64| #[trigger] self@.blocks.dom().contains(h) implies self@.blocks[
            h
        ].wf() && self@.blocks[h].height == h && h <= self@.highest by {
            lemma_kv_map_contains(self.blocks@, h);
            let i = choose|i: int| 0 <= i < self.blocks@.len() && (#[trigger] self.blocks@[i]).0
                == h;
            lemma_kv_map_index(self.blocks@, i);
        }
        assert forall|k: Seq<char>| #[trigger] self@.transactions.dom().contains(
            k,
        ) implies self@.transactions[k].transaction.wf() by {
            lemma_kv_map_contains(tx_entries(self.transactions@), k);
            let i = choose|i: int|
                0 <= i < tx_entries(self.transactions@).len() && (#[trigger] tx_entries(
                    self.transactions@,
                )[i]).0 == k;
            lemma_kv_map_index(tx_entries(self.transactions@), i);
        }
    }
}

/// Inserting the same height-block pair twice leaves the store's state as a
/// single insert leaves it: the second overwrite changes nothing.
pub proof fn lemma_insert_block_idempotent(s: StoreModel, height: u64, block: Block)
    ensures
        s.with_block(height, block).with_block(height, block) == s.with_block(height, block),
{
    assert(s.with_block(height, block).with_block(height, block) =~= s.with_block(height, block));
}

/// Inserting the same signature-record pair twice likewise changes nothing
/// beyond the first insert.
pub proof fn lemma_insert_transaction_idempotent(s: StoreModel, signature: Seq<char>, record: TxRecord)
    ensures
        s.with_transaction(signature, record).with_transaction(signature, record)
            == s.with_transaction(signature, record),
{
    assert(s.with_transaction(signature, record).with_transaction(signature, record)
        =~= s.with_transaction(signature, record));
}

} // verus!
