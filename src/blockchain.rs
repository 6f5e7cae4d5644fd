//! The append-only chain of blocks and the balances it implies.
use vstd::prelude::*;
use vstd::string::StringExecFns;
use crate::block::{Block, linked};
use crate::consensus::Consensus;
use crate::error::ChainError;
use crate::hashing::calculate_hash;
use crate::transaction::{MemPool, Transaction, extracted, without_head};

verus! {

/// The most transactions a mined block takes from the pool.
pub const MAX_BLOCK_TRANSACTIONS: usize = 3;

/// The reserved sender name of the bootstrap transactions in the genesis block.
pub const BOOTSTRAP_SENDER: &'static str = "genesis";

/// The address that the genesis block credits.
pub const BOOTSTRAP_ADDRESS: &'static str = "bootstrap";

/// What each of the two bootstrap transactions credits.
pub const BOOTSTRAP_AMOUNT: u32 = 1_000_000;

/// The genesis block's timestamp.
pub const GENESIS_TIMESTAMP: u64 = 0;

/// The sum of the amounts that `txs` send to `addr`.
pub open spec fn credited(txs: Seq<Transaction>, addr: Seq<char>) -> int
    decreases txs.len(),
{
    if txs.len() == 0 {
        0
    } else {
        credited(txs.drop_last(), addr) + if txs.last().receiver@ == addr {
            txs.last().amount as int
        } else {
            0
        }
    }
}

/// The sum of amount and fee over the transactions of `txs` that `addr` sends.
pub open spec fn debited(txs: Seq<Transaction>, addr: Seq<char>) -> int
    decreases txs.len(),
{
    if txs.len() == 0 {
        0
    } else {
        debited(txs.drop_last(), addr) + if txs.last().sender@ == addr {
            txs.last().amount + txs.last().fee
        } else {
            0
        }
    }
}

/// The balance of `addr` over every transaction of every block of `chain`.
pub open spec fn balance_of(chain: Seq<Block>, addr: Seq<char>) -> int
    decreases chain.len(),
{
    if chain.len() == 0 {
        0
    } else {
        balance_of(chain.drop_last(), addr) + credited(chain.last().transactions@, addr)
            - debited(chain.last().transactions@, addr)
    }
}

/// A chain as this library builds it: a genesis block at index 0, each later
/// block linked to the one before, and no block larger than a mined one.
pub open spec fn chain_wf(chain: Seq<Block>) -> bool {
    &&& chain.len() > 0
    &&& chain[0].index == 0
    &&& forall|i: int| 0 < i < chain.len() ==> linked(chain[i - 1], #[trigger] chain[i])
    &&& forall|i: int| 0 <= i < chain.len() ==> (#[trigger] chain[i]).transactions@.len() <= MAX_BLOCK_TRANSACTIONS
}

/// `consensus` admits every transaction of `txs` on top of `chain`.
pub open spec fn all_admitted<C: Consensus>(consensus: C, txs: Seq<Transaction>, chain: Seq<Block>) -> bool {
    forall|i: int| 0 <= i < txs.len() ==> consensus.accepts_transaction(#[trigger] txs[i], chain)
}

/// An ordered, append-only sequence of blocks with its consensus engine and
/// fixed difficulty.
pub struct Blockchain<C> {
    pub chain: Vec<Block>,
    pub consensus: C,
    pub difficulty: u32,
}

/// Every block's index is its position.
pub proof fn lemma_index_is_position(chain: Seq<Block>, i: int)
    requires
        chain_wf(chain),
        0 <= i < chain.len(),
    ensures
        chain[i].index == i,
    decreases i,
{
    if i > 0 {
        lemma_index_is_position(chain, i - 1);
        assert(linked(chain[i - 1], chain[i]));
    }
}

/// The number of transactions over all blocks of `chain`.
pub open spec fn transaction_count(chain: Seq<Block>) -> nat
    decreases chain.len(),
{
    if chain.len() == 0 {
        0
    } else {
        transaction_count(chain.drop_last()) + chain.last().transactions@.len()
    }
}

proof fn lemma_count_of_prefix(chain: Seq<Block>, k: int)
    requires
        0 <= k <= chain.len(),
    ensures
        transaction_count(chain.take(k)) <= transaction_count(chain),
    decreases chain.len(),
{
    if k < chain.len() {
        lemma_count_of_prefix(chain.drop_last(), k);
        assert(chain.drop_last().take(k) =~= chain.take(k));
    } else {
        assert(chain.take(k) =~= chain);
    }
}

/// A well-formed chain holds at most three transactions per block, and at
/// most one block per `u32` index.
pub proof fn lemma_wf_count_bounded(chain: Seq<Block>)
    requires
        chain_wf(chain),
    ensures
        transaction_count(chain) <= 3 * 0x1_0000_0000,
{
    lemma_index_is_position(chain, chain.len() - 1);
    lemma_count_at_most_three(chain);
}

proof fn lemma_count_at_most_three(chain: Seq<Block>)
    requires
        forall|i: int| 0 <= i < chain.len() ==> (#[trigger] chain[i]).transactions@.len() <= MAX_BLOCK_TRANSACTIONS,
    ensures
        transaction_count(chain) <= 3 * chain.len(),
    decreases chain.len(),
{
    if chain.len() > 0 {
        let init = chain.drop_last();
        assert forall|i: int| 0 <= i < init.len() implies (#[trigger] init[i]).transactions@.len() <= MAX_BLOCK_TRANSACTIONS by {
            assert(init[i] == chain[i]);
        }
        lemma_count_at_most_three(init);
        assert(chain.last() == chain[chain.len() - 1]);
    }
}

impl<C> Blockchain<C> {
    /// The chain holds together as `chain_wf` says.
    pub open spec fn wf(&self) -> bool {
        chain_wf(self.chain@)
    }

    /// The balance of `address`: what it received minus what it sent and
    /// paid in fees, over the whole chain.
    pub fn get_balance(&self, address: &String) -> (r: i128)
        requires
            transaction_count(self.chain@) <= u64::MAX,
        ensures
            r == balance_of(self.chain@, address@),
    {
        let ghost addr = address@;
        let ghost total = transaction_count(self.chain@);
        let n = self.chain.len();
        let mut balance: i128 = 0;
        let mut i: usize = 0;
        while i < n
            invariant
                addr == address@,
                n == self.chain@.len(),
                total == transaction_count(self.chain@),
                total <= u64::MAX,
                i <= n,
                balance == balance_of(self.chain@.take(i as int), addr),
                -0x2_0000_0000 * transaction_count(self.chain@.take(i as int)) <= balance
                    <= 0x1_0000_0000 * transaction_count(self.chain@.take(i as int)),
            decreases n - i,
        {
            let block = &self.chain[i];
            let txs = &block.transactions;
            let m = txs.len();
            let ghost before = balance as int;
            let ghost done = transaction_count(self.chain@.take(i as int));
            proof {
                assert(self.chain@.take(i + 1).drop_last() =~= self.chain@.take(i as int));
                assert(self.chain@.take(i + 1).last() == self.chain@[i as int]);
                lemma_count_of_prefix(self.chain@, i + 1);
            }
            let mut j: usize = 0;
            while j < m
                invariant
                    addr == address@,
                    m == txs@.len(),
                    done + m <= u64::MAX,
                    j <= m,
                    -0x2_0000_0000 * done <= before <= 0x1_0000_0000 * done,
                    balance == before + credited(txs@.take(j as int), addr) - debited(txs@.take(j as int), addr),
                    0 <= credited(txs@.take(j as int), addr) <= j * 0x1_0000_0000,
                    0 <= debited(txs@.take(j as int), addr) <= j * 0x2_0000_0000,
                decreases m - j,
            {
                let tx = &txs[j];
                assert(txs@.take(j + 1).drop_last() =~= txs@.take(j as int));
                assert(txs@.take(j + 1).last() == txs@[j as int]);
                if tx.receiver == *address {
                    balance = balance + tx.amount as i128;
                }
                if tx.sender == *address {
                    balance = balance - tx.amount as i128 - tx.fee as i128;
                }
                j = j + 1;
            }
            assert(txs@.take(m as int) =~= txs@);
            i = i + 1;
        }
        assert(self.chain@.take(n as int) =~= self.chain@);
        balance
    }
}

impl<C: Consensus> Blockchain<C> {
    /// A chain holding only the genesis block, whose two bootstrap
    /// transactions each credit `BOOTSTRAP_ADDRESS` with `BOOTSTRAP_AMOUNT`.
    pub fn new(consensus: C, difficulty: u32) -> (r: Self)
        ensures
            r.wf(),
            r.chain@.len() == 1,
            r.consensus == consensus,
            r.difficulty == difficulty,
            r.chain@[0].index == 0,
            r.chain@[0].timestamp == GENESIS_TIMESTAMP,
            r.chain@[0].nonce == 0,
            r.chain@[0].prev_hash@ == "0"@,
            r.chain@[0].transactions@.len() == 2,
            forall|k: int| 0 <= k < 2 ==> {
                &&& (#[trigger] r.chain@[0].transactions@[k]).sender@ == BOOTSTRAP_SENDER@
                &&& r.chain@[0].transactions@[k].receiver@ == BOOTSTRAP_ADDRESS@
                &&& r.chain@[0].transactions@[k].amount == BOOTSTRAP_AMOUNT
                &&& r.chain@[0].transactions@[k].fee == 0
            },
            r.chain@[0].hash@ == crate::hashing::block_hash(0, r.chain@[0].transactions@, "0"@),
    {
        let mut transactions: Vec<Transaction> = Vec::new();
        let mut k: usize = 0;
        while k < 2
            invariant
                k <= 2,
                transactions@.len() == k,
                forall|t: int| 0 <= t < k ==> {
                    &&& (#[trigger] transactions@[t]).sender@ == BOOTSTRAP_SENDER@
                    &&& transactions@[t].receiver@ == BOOTSTRAP_ADDRESS@
                    &&& transactions@[t].amount == BOOTSTRAP_AMOUNT
                    &&& transactions@[t].fee == 0
                },
            decreases 2 - k,
        {
            transactions.push(Transaction {
                sender: String::from_str(BOOTSTRAP_SENDER),
                receiver: String::from_str(BOOTSTRAP_ADDRESS),
                amount: BOOTSTRAP_AMOUNT,
                fee: 0,
            });
            k = k + 1;
        }
        let prev_hash = String::from_str("0");
        let nonce: u32 = 0;
        let hash = calculate_hash(&nonce, &transactions, &prev_hash);
        let genesis_block = Block::new(0, GENESIS_TIMESTAMP, transactions, prev_hash, hash, nonce);
        let mut chain: Vec<Block> = Vec::new();
        chain.push(genesis_block);
        Blockchain { chain, consensus, difficulty }
    }

    /// Takes up to `MAX_BLOCK_TRANSACTIONS` pending transactions through the
    /// selection policy, mines a block holding them on the tail, validates
    /// it, appends it and drops as many entries from the head of the pool.
    /// A failure leaves chain and pool unchanged: a mining error where mining
    /// does not succeed on what was taken, `InternalConsistencyError` where
    /// the mined block fails validation, which happens only when the engine
    /// does not admit one of its transactions.
    pub fn add_block<F: Fn(&[Transaction]) -> Vec<Transaction>>(
        &mut self,
        mempool: &mut MemPool,
        optimization_fn: F,
        timestamp: u64,
    ) -> (r: Result<(), ChainError>)
        requires
            old(self).wf(),
            forall|s: &[Transaction]| call_requires(optimization_fn, (s,)),
        ensures
            final(self).wf(),
            final(self).consensus == old(self).consensus,
            final(self).difficulty == old(self).difficulty,
            r is Err ==> final(self).chain@ == old(self).chain@,
            r matches Err(e) ==> (e is InternalConsistencyError || exists|txs: Seq<Transaction>| {
                &&& #[trigger] extracted(optimization_fn, old(mempool).proposed_transactions@, MAX_BLOCK_TRANSACTIONS as nat, txs)
                &&& !old(self).consensus.mining_succeeds(txs, old(self).chain@.last().hash@, old(self).chain@.last(), old(self).difficulty)
            }),
            r matches Err(ChainError::InternalConsistencyError) ==> exists|txs: Seq<Transaction>| {
                &&& #[trigger] extracted(optimization_fn, old(mempool).proposed_transactions@, MAX_BLOCK_TRANSACTIONS as nat, txs)
                &&& old(self).consensus.mining_succeeds(txs, old(self).chain@.last().hash@, old(self).chain@.last(), old(self).difficulty)
                &&& !all_admitted(old(self).consensus, txs, old(self).chain@)
            },
            (forall|txs: Seq<Transaction>| #[trigger] extracted(optimization_fn, old(mempool).proposed_transactions@, MAX_BLOCK_TRANSACTIONS as nat, txs) ==> {
                &&& old(self).consensus.mining_succeeds(txs, old(self).chain@.last().hash@, old(self).chain@.last(), old(self).difficulty)
                &&& all_admitted(old(self).consensus, txs, old(self).chain@)
            }) ==> r is Ok,
            r is Err ==> final(mempool).proposed_transactions@ == old(mempool).proposed_transactions@,
            r is Ok ==> {
                let b = final(self).chain@.last();
                let prev = old(self).chain@.last();
                &&& final(self).chain@ == old(self).chain@.push(b)
                &&& linked(prev, b)
                &&& b.timestamp == timestamp
                &&& old(self).consensus.accepts_block(b, prev, old(self).chain@, old(self).difficulty)
                &&& extracted(optimization_fn, old(mempool).proposed_transactions@, MAX_BLOCK_TRANSACTIONS as nat, b.transactions@)
                &&& final(mempool).proposed_transactions@ == without_head(old(mempool).proposed_transactions@, b.transactions@.len())
            },
    {
        let transactions = mempool.extract_transactions(MAX_BLOCK_TRANSACTIONS, optimization_fn);
        let tail = &self.chain[self.chain.len() - 1];
        let new_block = match self.consensus.mine_block(&transactions, &tail.hash, &*self, timestamp) {
            Ok(b) => b,
            Err(e) => return Err(e),
        };
        if self.consensus.validate_block(&new_block, tail, &*self) {
            self.chain.push(new_block);
            mempool.remove_transactions(transactions.as_slice());
            Ok(())
        } else {
            Err(ChainError::InternalConsistencyError)
        }
    }
}

} // verus!
