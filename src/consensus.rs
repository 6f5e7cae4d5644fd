//! The consensus interface and its proof-of-work engine.
use vstd::prelude::*;
use crate::block::{Block, linked};
use crate::blockchain::{Blockchain, balance_of, lemma_wf_count_bounded, BOOTSTRAP_SENDER};
use crate::error::ChainError;
use crate::hashing::{block_hash, hash_if_meets, meets_difficulty};
use crate::laws::lemma_mined_block_valid;
use crate::transaction::Transaction;

verus! {

/// A rule for producing and accepting blocks, chosen when a chain is built.
pub trait Consensus: Sized {
    /// Whether this engine admits `tx` into a block on top of `chain`.
    spec fn accepts_transaction(&self, tx: Transaction, chain: Seq<Block>) -> bool;

    /// Whether this engine accepts `block` after `prev_block` on `chain`.
    spec fn accepts_block(&self, block: Block, prev_block: Block, chain: Seq<Block>, difficulty: u32) -> bool;

    /// Whether mining `txs` on `prev_hash` above `tail` at `difficulty` yields a block.
    spec fn mining_succeeds(&self, txs: Seq<Transaction>, prev_hash: Seq<char>, tail: Block, difficulty: u32) -> bool;

    /// Produces a candidate block holding `transactions` on top of the chain's
    /// tail. A block mined on the tail's own hash is accepted after the tail
    /// whenever this engine admits each of its transactions.
    fn mine_block(
        &self,
        transactions: &Vec<Transaction>,
        prev_hash: &String,
        blockchain: &Blockchain<Self>,
        timestamp: u64,
    ) -> (r: Result<Block, ChainError>)
        requires
            blockchain.wf(),
        ensures
            r is Ok <==> self.mining_succeeds(transactions@, prev_hash@, blockchain.chain@.last(), blockchain.difficulty),
            r matches Err(e) ==> !(e is InternalConsistencyError),
            r matches Ok(b) ==> {
                &&& b.index == blockchain.chain@.last().index + 1
                &&& b.transactions@ == transactions@
                &&& b.prev_hash@ == prev_hash@
                &&& b.timestamp == timestamp
                &&& (prev_hash@ == blockchain.chain@.last().hash@ && (forall|i: int| 0 <= i < transactions@.len()
                    ==> self.accepts_transaction(#[trigger] transactions@[i], blockchain.chain@)))
                    ==> self.accepts_block(b, blockchain.chain@.last(), blockchain.chain@, blockchain.difficulty)
            },
    ;

    /// Whether `block` may follow `prev_block` on this chain.
    fn validate_block(&self, block: &Block, prev_block: &Block, blockchain: &Blockchain<Self>) -> (r: bool)
        requires
            blockchain.wf(),
        ensures
            r == self.accepts_block(*block, *prev_block, blockchain.chain@, blockchain.difficulty),
            r ==> linked(*prev_block, *block),
    ;

    /// Whether every one of `transactions` is admitted; stops at the first that is not.
    fn validate_transactions(&self, transactions: &[Transaction], blockchain: &Blockchain<Self>) -> (r: bool)
        requires
            blockchain.wf(),
        ensures
            r == (forall|i: int| 0 <= i < transactions@.len()
                ==> self.accepts_transaction(#[trigger] transactions@[i], blockchain.chain@)),
    ;

    /// Whether `transaction` is admitted on top of this chain.
    fn is_transaction_valid(&self, transaction: &Transaction, blockchain: &Blockchain<Self>) -> (r: bool)
        requires
            blockchain.wf(),
        ensures
            r == self.accepts_transaction(*transaction, blockchain.chain@),
    ;
}

/// Proof of work: a block's hash must start with `difficulty` zero digits.
#[derive(Debug, Clone, Copy)]
pub struct ProofOfWork;

/// A bootstrap transaction, exempt from the balance rule.
pub open spec fn is_bootstrap(tx: Transaction) -> bool {
    tx.sender@ == BOOTSTRAP_SENDER@
}

/// The sender can pay amount and fee out of its balance on `chain`, or the
/// transaction is a bootstrap one.
pub open spec fn funded(tx: Transaction, chain: Seq<Block>) -> bool {
    is_bootstrap(tx) || balance_of(chain, tx.sender@) >= tx.amount + tx.fee
}

/// The five conditions of a valid proof-of-work block.
pub open spec fn pow_valid(block: Block, prev_block: Block, chain: Seq<Block>, difficulty: u32) -> bool {
    &&& block.hash@ == block_hash(block.nonce, block.transactions@, block.prev_hash@)
    &&& meets_difficulty(block.hash@, difficulty as nat)
    &&& linked(prev_block, block)
    &&& forall|i: int| 0 <= i < block.transactions@.len() ==> funded(#[trigger] block.transactions@[i], chain)
}

/// `block` is what proof-of-work mining returns for `txs` on `prev_hash`
/// above `tail`: the first nonce whose hash meets `difficulty`.
pub open spec fn pow_mined(
    block: Block,
    txs: Seq<Transaction>,
    prev_hash: Seq<char>,
    tail: Block,
    difficulty: u32,
    timestamp: u64,
) -> bool {
    &&& block.index == tail.index + 1
    &&& block.timestamp == timestamp
    &&& block.transactions@ == txs
    &&& block.prev_hash@ == prev_hash
    &&& block.hash@ == block_hash(block.nonce, txs, prev_hash)
    &&& meets_difficulty(block.hash@, difficulty as nat)
    &&& forall|n: u32| n < block.nonce ==> !meets_difficulty(#[trigger] block_hash(n, txs, prev_hash), difficulty as nat)
}

/// Proof-of-work mining succeeds when the tail's index can grow and some
/// nonce gives a hash that meets the difficulty.
pub open spec fn pow_mining_succeeds(txs: Seq<Transaction>, prev_hash: Seq<char>, tail: Block, difficulty: u32) -> bool {
    &&& tail.index < u32::MAX
    &&& exists|n: u32| meets_difficulty(#[trigger] block_hash(n, txs, prev_hash), difficulty as nat)
}

impl Consensus for ProofOfWork {
    open spec fn mining_succeeds(&self, txs: Seq<Transaction>, prev_hash: Seq<char>, tail: Block, difficulty: u32) -> bool {
        pow_mining_succeeds(txs, prev_hash, tail, difficulty)
    }

    open spec fn accepts_transaction(&self, tx: Transaction, chain: Seq<Block>) -> bool {
        funded(tx, chain)
    }

    open spec fn accepts_block(&self, block: Block, prev_block: Block, chain: Seq<Block>, difficulty: u32) -> bool {
        pow_valid(block, prev_block, chain, difficulty)
    }

    /// Tries nonces from 0 upwards until the hash meets the chain's difficulty.
    fn mine_block(
        &self,
        transactions: &Vec<Transaction>,
        prev_hash: &String,
        blockchain: &Blockchain<Self>,
        timestamp: u64,
    ) -> (r: Result<Block, ChainError>)
        ensures
            r matches Ok(b) ==> pow_mined(b, transactions@, prev_hash@, blockchain.chain@.last(), blockchain.difficulty, timestamp),
            r matches Err(e) ==> e is MiningExhausted || e is IndexExhausted,
            r matches Err(ChainError::IndexExhausted) <==> blockchain.chain@.last().index == u32::MAX,
            r matches Err(ChainError::MiningExhausted) ==> forall|n: u32|
                !meets_difficulty(#[trigger] block_hash(n, transactions@, prev_hash@), blockchain.difficulty as nat),
    {
        let tail = &blockchain.chain[blockchain.chain.len() - 1];
        if tail.index == u32::MAX {
            return Err(ChainError::IndexExhausted);
        }
        let difficulty = blockchain.difficulty;
        let mut nonce: u32 = 0;
        loop
            invariant
                blockchain.wf(),
                tail == blockchain.chain@.last(),
                tail.index < u32::MAX,
                difficulty == blockchain.difficulty,
                forall|n: u32| n < nonce ==> !meets_difficulty(#[trigger] block_hash(n, transactions@, prev_hash@), difficulty as nat),
            decreases u32::MAX - nonce,
        {
            match hash_if_meets(nonce, transactions.as_slice(), prev_hash, difficulty) {
                Some(hash) => {
                    let txs = transactions.clone();
                    assert(txs@ =~= transactions@);
                    let block = Block {
                        index: tail.index + 1,
                        timestamp,
                        transactions: txs,
                        prev_hash: prev_hash.clone(),
                        hash,
                        nonce,
                    };
                    proof {
                        assert(meets_difficulty(block_hash(nonce, transactions@, prev_hash@), difficulty as nat));
                        if prev_hash@ == blockchain.chain@.last().hash@ && (forall|i: int| 0 <= i < transactions@.len()
                            ==> funded(#[trigger] transactions@[i], blockchain.chain@)) {
                            lemma_mined_block_valid(blockchain.chain@, transactions@, difficulty, timestamp, block);
                        }
                    }
                    return Ok(block);
                },
                None => {
                    if nonce == u32::MAX {
                        return Err(ChainError::MiningExhausted);
                    }
                    nonce = nonce + 1;
                },
            }
        }
    }

    fn validate_block(&self, block: &Block, prev_block: &Block, blockchain: &Blockchain<Self>) -> (r: bool) {
        let hash_is_valid = match hash_if_meets(block.nonce, block.transactions.as_slice(), &block.prev_hash, blockchain.difficulty) {
            Some(hash) => hash == block.hash,
            None => false,
        };
        let index_is_valid = prev_block.index < u32::MAX && block.index == prev_block.index + 1;
        let prev_hash_is_valid = block.prev_hash == prev_block.hash;
        if hash_is_valid && index_is_valid && prev_hash_is_valid {
            self.validate_transactions(block.transactions.as_slice(), blockchain)
        } else {
            false
        }
    }

    fn validate_transactions(&self, transactions: &[Transaction], blockchain: &Blockchain<Self>) -> (r: bool) {
        let mut i: usize = 0;
        while i < transactions.len()
            invariant
                blockchain.wf(),
                i <= transactions@.len(),
                forall|k: int| 0 <= k < i ==> funded(#[trigger] transactions@[k], blockchain.chain@),
            decreases transactions@.len() - i,
        {
            if !self.is_transaction_valid(&transactions[i], blockchain) {
                return false;
            }
            i = i + 1;
        }
        true
    }

    fn is_transaction_valid(&self, transaction: &Transaction, blockchain: &Blockchain<Self>) -> (r: bool) {
        let bootstrap = String::from_str(BOOTSTRAP_SENDER);
        if transaction.sender == bootstrap {
            return true;
        }
        proof {
            lemma_wf_count_bounded(blockchain.chain@);
        }
        let balance = blockchain.get_balance(&transaction.sender);
        balance >= transaction.amount as i128 + transaction.fee as i128
    }
}

} // verus!
