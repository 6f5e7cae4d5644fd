use vstd::prelude::*;
use crate::transaction::Transaction;

verus! {

/// One unit of chain storage.
#[derive(Debug, Clone)]
pub struct Block {
    /// Position in the chain, 0 for the genesis block.
    pub index: u32,
    /// Unix time at which the block was mined.
    pub timestamp: u64,
    pub transactions: Vec<Transaction>,
    /// The hash of the block before this one.
    pub prev_hash: String,
    /// The digest of (nonce, transactions, prev_hash) in lowercase hex.
    pub hash: String,
    /// The value varied during mining.
    pub nonce: u32,
}

impl Block {
    pub fn new(
        index: u32,
        timestamp: u64,
        transactions: Vec<Transaction>,
        prev_hash: String,
        hash: String,
        nonce: u32,
    ) -> (r: Self)
        ensures
            r.index == index,
            r.timestamp == timestamp,
            r.transactions == transactions,
            r.prev_hash == prev_hash,
            r.hash == hash,
            r.nonce == nonce,
    {
        Block { index, timestamp, transactions, prev_hash, hash, nonce }
    }
}

/// `block` follows `prev` directly: it names `prev`'s hash and the next index.
pub open spec fn linked(prev: Block, block: Block) -> bool {
    &&& block.prev_hash@ == prev.hash@
    &&& block.index == prev.index + 1
}

} // verus!
