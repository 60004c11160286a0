//! Plain data carried through the pipeline: transactions, blocks, the epoch
//! descriptor, and the error taxonomy.

use vstd::prelude::*;

verus! {

/// A transaction as decoded from a block: its signatures (the first one is
/// its identity key) and an opaque serialized payload.
#[derive(Debug, Clone, PartialEq, Eq)]
pub struct Transaction {
    pub signatures: Vec<String>,
    pub payload: String,
}

impl Transaction {
    /// A decoded transaction carries at least one signature.
    pub open spec fn wf(self) -> bool {
        self.signatures@.len() >= 1
    }

    /// The identity key under which the transaction is indexed.
    pub open spec fn key(self) -> Seq<char> {
        self.signatures@[0]@
    }

    pub fn first_signature(&self) -> (r: &String)
        requires
            self.wf(),
        ensures
            r@ == self.key(),
    {
        &self.signatures[0]
    }
}

/// A block as decoded from the adapter's response for one slot.
#[derive(Debug, Clone, PartialEq, Eq)]
pub struct Block {
    /// The store's primary key for this block.
    pub height: u64,
    /// The block's transactions, in their native order.
    pub transactions: Vec<Transaction>,
}

impl Block {
    /// A decoded block holds only well-formed transactions.
    pub open spec fn wf(self) -> bool {
        forall|i: int|
            0 <= i < self.transactions@.len() ==> (#[trigger] self.transactions@[i]).wf()
    }

    pub fn transaction_count(&self) -> (r: usize)
        ensures
            r == self.transactions@.len(),
    {
        self.transactions.len()
    }
}

/// The epoch descriptor returned by the node: an identifier, the position of
/// the current slot within the epoch, the epoch's width, and the current
/// absolute slot.  The epoch's slot range follows from the last three.
#[derive(Debug, Clone, Copy, PartialEq, Eq, Structural)]
pub struct Epoch {
    pub epoch: u64,
    pub slot_index: u64,
    pub slots_in_epoch: u64,
    pub absolute_slot: u64,
}

impl Epoch {
    /// A descriptor the node could have produced: the current slot lies
    /// inside the epoch, and the epoch's final slot fits in a slot number.
    pub open spec fn valid(self) -> bool {
        &&& self.slot_index <= self.absolute_slot
        &&& self.slot_index < self.slots_in_epoch
        &&& self.absolute_slot - self.slot_index + self.slots_in_epoch - 1 <= u64::MAX
    }

    /// The first slot belonging to the epoch.
    pub open spec fn spec_first_slot(self) -> u64
        recommends
            self.valid(),
    {
        (self.absolute_slot - self.slot_index) as u64
    }

    /// The last slot belonging to the epoch.
    pub open spec fn spec_last_slot(self) -> u64
        recommends
            self.valid(),
    {
        (self.absolute_slot - self.slot_index + self.slots_in_epoch - 1) as u64
    }

    pub fn first_slot(&self) -> (r: u64)
        requires
            self.valid(),
        ensures
            r == self.spec_first_slot(),
    {
        self.absolute_slot - self.slot_index
    }

    pub fn last_slot(&self) -> (r: u64)
        requires
            self.valid(),
        ensures
            r == self.spec_last_slot(),
    {
        self.absolute_slot - self.slot_index + (self.slots_in_epoch - 1)
    }

    /// The epoch's candidate slots, first to last in ascending order.  Not
    /// every candidate yields a block; the adapter's own enumeration returns
    /// a subset of these.
    pub fn candidate_slots(&self) -> (r: Vec<u64>)
        requires
            self.valid(),
            self.slots_in_epoch <= usize::MAX,
        ensures
            r@.len() == self.slots_in_epoch,
            forall|i: int| 0 <= i < r@.len() ==> r@[i] == self.spec_first_slot() + i,
    {
        let first: u64 = self.first_slot();
        let count: usize = self.slots_in_epoch as usize;
        let mut slots: Vec<u64> = Vec::new();
        let mut i: usize = 0;
        while i < count
            invariant
                count == self.slots_in_epoch,
                first == self.spec_first_slot(),
                self.valid(),
                i <= count,
                slots@.len() == i,
                forall|j: int| 0 <= j < i ==> slots@[j] == self.spec_first_slot() + j,
            decreases count - i,
        {
            slots.push(first + i as u64);
            i = i + 1;
        }
        slots
    }
}

/// Why fetching a single slot or transaction produced nothing.  Each of these
/// is expected and non-fatal: the slot is skipped and the run continues.
#[derive(Debug, Clone, Copy, PartialEq, Eq, Structural)]
pub enum FetchError {
    /// The slot was skipped or empty on chain.
    BlockNotFound,
    /// The response could not be decoded into a block.
    DecodeError,
    /// A network-level failure for this one call.
    TransportError,
}

/// Why resolving the epoch or enumerating its slots failed.  Either aborts
/// the whole ingestion run: there is nothing to do without an epoch.
#[derive(Debug, Clone, Copy, PartialEq, Eq, Structural)]
pub enum SetupError {
    /// The node was unreachable.
    TransportError,
    /// The node's response could not be interpreted.
    ProtocolError,
}

} // verus!
