//! Properties that relate several operations of the ledger.
use vstd::prelude::*;
use crate::block::{Block, linked};
use crate::blockchain::{balance_of, chain_wf, credited, debited};
use crate::consensus::{funded, pow_mined, pow_valid};
use crate::transaction::{
    Transaction, extracted, fee_descending, fee_descending_policy, identity_policy,
    lemma_sorted_by_fee_descending, lemma_sorted_by_fee_permutation, lemma_sorted_by_fee_stable,
    policy_output, sorted_by_fee, stable_fee_order, with_fee,
};

verus! {

/// In every well-formed chain, each block after the genesis block names the
/// hash of the block before it and carries the next index.
pub proof fn lemma_chain_linked(chain: Seq<Block>, i: int)
    requires
        chain_wf(chain),
        0 < i < chain.len(),
    ensures
        chain[i].prev_hash@ == chain[i - 1].hash@,
        chain[i].index == chain[i - 1].index + 1,
{
    assert(linked(chain[i - 1], chain[i]));
}

/// A block that proof-of-work mining returns on the tail of a well-formed
/// chain passes proof-of-work validation against that tail, whenever every
/// transaction in it is funded on the chain.
pub proof fn lemma_mined_block_valid(
    chain: Seq<Block>,
    transactions: Seq<Transaction>,
    difficulty: u32,
    timestamp: u64,
    block: Block,
)
    requires
        chain_wf(chain),
        pow_mined(block, transactions, chain.last().hash@, chain.last(), difficulty, timestamp),
        forall|i: int| 0 <= i < transactions.len() ==> funded(#[trigger] transactions[i], chain),
    ensures
        pow_valid(block, chain.last(), chain, difficulty),
{
    assert forall|i: int| 0 <= i < block.transactions@.len() implies funded(#[trigger] block.transactions@[i], chain) by {
        assert(block.transactions@[i] == transactions[i]);
    }
}

/// Appending a block changes each balance by what the block credits to the
/// address, less what the address sends and pays in fees in it.
pub proof fn lemma_balance_after_append(chain: Seq<Block>, block: Block, address: Seq<char>)
    ensures
        balance_of(chain.push(block), address) == balance_of(chain, address)
            + credited(block.transactions@, address) - debited(block.transactions@, address),
{
    assert(chain.push(block).drop_last() =~= chain);
}

/// Extraction through the identity policy yields the first `n` pending
/// transactions in the order they arrived.
pub proof fn lemma_extract_identity(pool: Seq<Transaction>, n: nat, r: Seq<Transaction>)
    requires
        extracted(identity_policy, pool, n, r),
    ensures
        r == (if n <= pool.len() { pool.take(n as int) } else { pool }),
{
    let out = choose|out: Seq<Transaction>|
        #[trigger] policy_output(identity_policy, pool, out) && r == (if n <= out.len() {
            out.take(n as int)
        } else {
            out
        });
    let (s, v) = choose|s: &[Transaction], v: Vec<Transaction>|
        s@ == pool && v@ == out && #[trigger] call_ensures(identity_policy, (s,), v);
    assert(out == pool);
}

/// Extraction through the fee policy yields the first `n` pending
/// transactions in fee order, highest first, equal fees in arrival order:
/// the pool read through a permutation of its positions that orders them so.
pub proof fn lemma_extract_fee_descending(pool: Seq<Transaction>, n: nat, r: Seq<Transaction>)
    requires
        extracted(fee_descending_policy, pool, n, r),
    ensures
        r == (if n <= pool.len() { sorted_by_fee(pool).take(n as int) } else { sorted_by_fee(pool) }),
        fee_descending(r),
        forall|fee: u32| #[trigger] with_fee(sorted_by_fee(pool), fee) == with_fee(pool, fee),
        exists|pi: Seq<int>| stable_fee_order(pool, pi, sorted_by_fee(pool)),
{
    let out = choose|out: Seq<Transaction>|
        #[trigger] policy_output(fee_descending_policy, pool, out) && r == (if n <= out.len() {
            out.take(n as int)
        } else {
            out
        });
    let (s, v) = choose|s: &[Transaction], v: Vec<Transaction>|
        s@ == pool && v@ == out && #[trigger] call_ensures(fee_descending_policy, (s,), v);
    assert(out == sorted_by_fee(pool));
    lemma_sorted_by_fee_descending(pool);
    let pi = lemma_sorted_by_fee_permutation(pool);
    assert(stable_fee_order(pool, pi, sorted_by_fee(pool)));
    assert forall|fee: u32| #[trigger] with_fee(sorted_by_fee(pool), fee) == with_fee(pool, fee) by {
        lemma_sorted_by_fee_stable(pool, fee);
    }
}

} // verus!
