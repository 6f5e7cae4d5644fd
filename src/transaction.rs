use vstd::prelude::*;
use std::collections::VecDeque;

verus! {

/// A transfer of `amount` from `sender` to `receiver`, paying `fee` on top.
#[derive(Debug, PartialEq, Eq)]
pub struct Transaction {
    pub sender: String,
    pub receiver: String,
    pub amount: u32,
    pub fee: u32,
}

impl Clone for Transaction {
    fn clone(&self) -> (r: Self)
        ensures
            r == *self,
    {
        Transaction {
            sender: self.sender.clone(),
            receiver: self.receiver.clone(),
            amount: self.amount,
            fee: self.fee,
        }
    }
}

/// The pending transactions, oldest first.
#[derive(Debug, Clone)]
pub struct MemPool {
    pub proposed_transactions: VecDeque<Transaction>,
}

/// `out` is a possible result of the selection policy `f` on the pending
/// transactions `pool`.
pub open spec fn policy_output<F: Fn(&[Transaction]) -> Vec<Transaction>>(
    f: F,
    pool: Seq<Transaction>,
    out: Seq<Transaction>,
) -> bool {
    exists|s: &[Transaction], v: Vec<Transaction>|
        s@ == pool && v@ == out && #[trigger] call_ensures(f, (s,), v)
}

/// `r` is what extraction of at most `n` transactions through `f` yields from
/// `pool`: the first `n` entries of what the policy returned.
pub open spec fn extracted<F: Fn(&[Transaction]) -> Vec<Transaction>>(
    f: F,
    pool: Seq<Transaction>,
    n: nat,
    r: Seq<Transaction>,
) -> bool {
    exists|out: Seq<Transaction>|
        #[trigger] policy_output(f, pool, out) && r == (if n <= out.len() {
            out.take(n as int)
        } else {
            out
        })
}

/// `pool` without its first `n` entries, or empty where it holds fewer.
pub open spec fn without_head(pool: Seq<Transaction>, n: nat) -> Seq<Transaction> {
    if n <= pool.len() {
        pool.skip(n as int)
    } else {
        Seq::empty()
    }
}

impl MemPool {
    /// An empty pool.
    pub fn new() -> (r: Self)
        ensures
            r.proposed_transactions@ == Seq::<Transaction>::empty(),
    {
        MemPool { proposed_transactions: VecDeque::new() }
    }

    /// Hands the whole pool to the selection policy and keeps the first
    /// `max_transactions` of its result. The pool is not changed.
    pub fn extract_transactions<F: Fn(&[Transaction]) -> Vec<Transaction>>(
        &self,
        max_transactions: usize,
        optimization_fn: F,
    ) -> (r: Vec<Transaction>)
        requires
            forall|s: &[Transaction]| call_requires(optimization_fn, (s,)),
        ensures
            extracted(optimization_fn, self.proposed_transactions@, max_transactions as nat, r@),
            r@.len() <= max_transactions,
    {
        let mut pending: Vec<Transaction> = Vec::new();
        let mut i: usize = 0;
        while i < self.proposed_transactions.len()
            invariant
                i <= self.proposed_transactions@.len(),
                pending@ == self.proposed_transactions@.take(i as int),
            decreases self.proposed_transactions@.len() - i,
        {
            pending.push(self.proposed_transactions[i].clone());
            assert(pending@ =~= self.proposed_transactions@.take(i + 1));
            i = i + 1;
        }
        assert(pending@ =~= self.proposed_transactions@);
        let pool = pending.as_slice();
        let mut optimized = optimization_fn(pool);
        let ghost out = optimized@;
        assert(policy_output(optimization_fn, self.proposed_transactions@, out));
        optimized.truncate(max_transactions);
        optimized
    }

    /// Appends `transaction` at the tail.
    pub fn add_transaction(&mut self, transaction: Transaction)
        ensures
            final(self).proposed_transactions@ == old(self).proposed_transactions@.push(transaction),
    {
        self.proposed_transactions.push_back(transaction);
    }

    /// Removes as many entries from the head as `transactions` holds, or all
    /// of them where the pool holds fewer.
    pub fn remove_transactions(&mut self, transactions: &[Transaction])
        ensures
            final(self).proposed_transactions@ == without_head(old(self).proposed_transactions@, transactions@.len()),
    {
        let count = transactions.len();
        if count <= self.proposed_transactions.len() {
            let rest = self.proposed_transactions.split_off(count);
            self.proposed_transactions = rest;
        } else {
            self.proposed_transactions = VecDeque::new();
        }
    }
}

/// The selection policy that keeps the pool as it is.
pub fn identity_policy(transactions: &[Transaction]) -> (r: Vec<Transaction>)
    ensures
        r@ == transactions@,
{
    let mut r: Vec<Transaction> = Vec::new();
    let mut i: usize = 0;
    while i < transactions.len()
        invariant
            i <= transactions@.len(),
            r@ == transactions@.take(i as int),
        decreases transactions@.len() - i,
    {
        r.push(transactions[i].clone());
        assert(r@ =~= transactions@.take(i + 1));
        i = i + 1;
    }
    assert(transactions@.take(i as int) =~= transactions@);
    r
}

/// `sorted` with `tx` added at the end and moved forward past every entry
/// of lower fee, and no further.
pub open spec fn insert_by_fee(sorted: Seq<Transaction>, tx: Transaction) -> Seq<Transaction>
    decreases sorted.len(),
{
    if sorted.len() == 0 {
        seq![tx]
    } else if sorted.last().fee >= tx.fee {
        sorted.push(tx)
    } else {
        insert_by_fee(sorted.drop_last(), tx).push(sorted.last())
    }
}

/// `txs` ordered by fee, highest first, keeping arrival order among equal fees.
pub open spec fn sorted_by_fee(txs: Seq<Transaction>) -> Seq<Transaction>
    decreases txs.len(),
{
    if txs.len() == 0 {
        Seq::empty()
    } else {
        insert_by_fee(sorted_by_fee(txs.drop_last()), txs.last())
    }
}

/// No entry of `txs` has a lower fee than one after it.
pub open spec fn fee_descending(txs: Seq<Transaction>) -> bool {
    forall|i: int, j: int| 0 <= i < j < txs.len() ==> txs[i].fee >= txs[j].fee
}

/// The entries of `txs` whose fee is `fee`, in their order.
pub open spec fn with_fee(txs: Seq<Transaction>, fee: u32) -> Seq<Transaction>
    decreases txs.len(),
{
    if txs.len() == 0 {
        Seq::empty()
    } else if txs.last().fee == fee {
        with_fee(txs.drop_last(), fee).push(txs.last())
    } else {
        with_fee(txs.drop_last(), fee)
    }
}

proof fn lemma_insert_by_fee_with_fee(sorted: Seq<Transaction>, tx: Transaction, fee: u32)
    ensures
        with_fee(insert_by_fee(sorted, tx), fee) == (if tx.fee == fee {
            with_fee(sorted, fee).push(tx)
        } else {
            with_fee(sorted, fee)
        }),
    decreases sorted.len(),
{
    let r = insert_by_fee(sorted, tx);
    if sorted.len() == 0 {
        assert(r.drop_last() =~= sorted);
    } else if sorted.last().fee >= tx.fee {
        assert(r.drop_last() =~= sorted);
    } else {
        let init = sorted.drop_last();
        lemma_insert_by_fee_with_fee(init, tx, fee);
        let mid = insert_by_fee(init, tx);
        assert(r.drop_last() =~= mid);
        assert(r.last() == sorted.last());
    }
    assert(r.last() == tx || (sorted.len() > 0 && sorted.last().fee < tx.fee));
}

/// Ordering by fee keeps the entries of each fee in arrival order, and
/// neither adds nor drops any.
pub proof fn lemma_sorted_by_fee_stable(txs: Seq<Transaction>, fee: u32)
    ensures
        with_fee(sorted_by_fee(txs), fee) == with_fee(txs, fee),
    decreases txs.len(),
{
    if txs.len() > 0 {
        lemma_sorted_by_fee_stable(txs.drop_last(), fee);
        lemma_insert_by_fee_with_fee(sorted_by_fee(txs.drop_last()), txs.last(), fee);
    }
}

/// Inserting at the first position from the end whose predecessor's fee is
/// at least `tx.fee` is `insert_by_fee`.
proof fn lemma_insert_by_fee_at(sorted: Seq<Transaction>, tx: Transaction, p: int)
    requires
        0 <= p <= sorted.len(),
        p == 0 || sorted[p - 1].fee >= tx.fee,
        forall|k: int| p <= k < sorted.len() ==> #[trigger] sorted[k].fee < tx.fee,
    ensures
        insert_by_fee(sorted, tx) == sorted.insert(p, tx),
    decreases sorted.len(),
{
    if sorted.len() == 0 {
        assert(sorted.insert(p, tx) =~= seq![tx]);
    } else if p == sorted.len() {
        assert(sorted.insert(p, tx) =~= sorted.push(tx));
    } else {
        let init = sorted.drop_last();
        assert forall|k: int| p <= k < init.len() implies #[trigger] init[k].fee < tx.fee by {
            assert(init[k] == sorted[k]);
        }
        lemma_insert_by_fee_at(init, tx, p);
        assert(init.insert(p, tx).push(sorted.last()) =~= sorted.insert(p, tx));
    }
}

/// `insert_by_fee` keeps a fee-descending sequence so, and adds only `tx`.
proof fn lemma_insert_by_fee_sorted(sorted: Seq<Transaction>, tx: Transaction)
    requires
        fee_descending(sorted),
    ensures
        fee_descending(insert_by_fee(sorted, tx)),
        insert_by_fee(sorted, tx).len() == sorted.len() + 1,
        forall|k: int| 0 <= k < sorted.len() + 1 ==> {
            let x = #[trigger] insert_by_fee(sorted, tx)[k];
            x == tx || sorted.contains(x)
        },
    decreases sorted.len(),
{
    if sorted.len() > 0 && sorted.last().fee < tx.fee {
        let init = sorted.drop_last();
        lemma_insert_by_fee_sorted(init, tx);
        let mid = insert_by_fee(init, tx);
        assert forall|k: int| 0 <= k < mid.len() implies #[trigger] mid[k].fee >= sorted.last().fee by {
            let x = mid[k];
            if x != tx {
                let t = choose|t: int| 0 <= t < init.len() && init[t] == x;
                assert(sorted[t] == x);
                assert(sorted[sorted.len() - 1] == sorted.last());
            }
        }
        assert forall|k: int| 0 <= k < sorted.len() + 1 implies {
            let x = #[trigger] insert_by_fee(sorted, tx)[k];
            x == tx || sorted.contains(x)
        } by {
            if k < mid.len() {
                let x = mid[k];
                if x != tx {
                    let t = choose|t: int| 0 <= t < init.len() && init[t] == x;
                    assert(sorted[t] == x);
                }
            } else {
                assert(sorted[sorted.len() - 1] == sorted.last());
            }
        }
    } else if sorted.len() > 0 {
        assert forall|k: int| 0 <= k < sorted.len() + 1 implies {
            let x = #[trigger] insert_by_fee(sorted, tx)[k];
            x == tx || sorted.contains(x)
        } by {
            if k < sorted.len() {
                assert(sorted.push(tx)[k] == sorted[k]);
            }
        }
        assert(sorted[sorted.len() - 1] == sorted.last());
    }
}

/// The fee order is non-increasing, highest fee first.
pub proof fn lemma_sorted_by_fee_descending(txs: Seq<Transaction>)
    ensures
        fee_descending(sorted_by_fee(txs)),
        sorted_by_fee(txs).len() == txs.len(),
    decreases txs.len(),
{
    if txs.len() > 0 {
        lemma_sorted_by_fee_descending(txs.drop_last());
        lemma_insert_by_fee_sorted(sorted_by_fee(txs.drop_last()), txs.last());
    }
}

/// `out` is `txs` read in the order of the permutation `pi` of its
/// positions, fees descending, equal fees in arrival order.
pub open spec fn stable_fee_order(txs: Seq<Transaction>, pi: Seq<int>, out: Seq<Transaction>) -> bool {
    &&& pi.len() == txs.len()
    &&& out.len() == txs.len()
    &&& forall|k: int| 0 <= k < pi.len() ==> 0 <= #[trigger] pi[k] < txs.len()
    &&& forall|k1: int, k2: int| 0 <= k1 < k2 < pi.len() ==> pi[k1] != pi[k2]
    &&& forall|k: int| 0 <= k < out.len() ==> #[trigger] out[k] == txs[pi[k]]
    &&& forall|i: int, j: int| 0 <= i < j < out.len() ==> {
        ||| txs[pi[i]].fee > txs[pi[j]].fee
        ||| (txs[pi[i]].fee == txs[pi[j]].fee && pi[i] < pi[j])
    }
}

/// The place where `insert_by_fee` puts `tx` into a fee-descending sequence.
proof fn lemma_fee_split(sorted: Seq<Transaction>, tx: Transaction) -> (p: int)
    requires
        fee_descending(sorted),
    ensures
        0 <= p <= sorted.len(),
        forall|k: int| 0 <= k < p ==> #[trigger] sorted[k].fee >= tx.fee,
        forall|k: int| p <= k < sorted.len() ==> #[trigger] sorted[k].fee < tx.fee,
    decreases sorted.len(),
{
    if sorted.len() == 0 {
        0
    } else if sorted[sorted.len() - 1].fee >= tx.fee {
        sorted.len() as int
    } else {
        let init = sorted.drop_last();
        let p = lemma_fee_split(init, tx);
        assert forall|k: int| p <= k < sorted.len() implies #[trigger] sorted[k].fee < tx.fee by {
            if k < init.len() {
                assert(init[k] == sorted[k]);
            }
        }
        assert forall|k: int| 0 <= k < p implies #[trigger] sorted[k].fee >= tx.fee by {
            assert(init[k] == sorted[k]);
        }
        p
    }
}

/// The fee order of `txs` is `txs` read through a permutation of its
/// positions, with fees descending and equal fees in arrival order.
pub proof fn lemma_sorted_by_fee_permutation(txs: Seq<Transaction>) -> (pi: Seq<int>)
    ensures
        stable_fee_order(txs, pi, sorted_by_fee(txs)),
    decreases txs.len(),
{
    if txs.len() == 0 {
        Seq::empty()
    } else {
        let n = txs.len() as int;
        let init = txs.drop_last();
        let tx = txs.last();
        let prev = lemma_sorted_by_fee_permutation(init);
        let s = sorted_by_fee(init);
        lemma_sorted_by_fee_descending(init);
        let p = lemma_fee_split(s, tx);
        lemma_insert_by_fee_at(s, tx, p);
        let out = sorted_by_fee(txs);
        assert(out == s.insert(p, tx));
        let pi = prev.insert(p, n - 1);
        assert(tx == txs[n - 1]);
        assert forall|k: int| 0 <= k < pi.len() implies 0 <= #[trigger] pi[k] < n by {
            if k != p {
                let q = if k < p { k } else { k - 1 };
                assert(pi[k] == prev[q]);
            }
        }
        assert forall|k: int| 0 <= k < out.len() implies #[trigger] out[k] == txs[pi[k]] by {
            if k != p {
                let q = if k < p { k } else { k - 1 };
                assert(pi[k] == prev[q]);
                assert(out[k] == s[q]);
                assert(s[q] == init[prev[q]]);
                assert(init[prev[q]] == txs[prev[q]]);
            }
        }
        assert forall|k1: int, k2: int| 0 <= k1 < k2 < pi.len() implies pi[k1] != pi[k2] by {
            let q1 = if k1 < p { k1 } else { k1 - 1 };
            let q2 = if k2 < p { k2 } else { k2 - 1 };
            if k1 != p {
                assert(pi[k1] == prev[q1]);
                assert(0 <= prev[q1] < n - 1);
            }
            if k2 != p {
                assert(pi[k2] == prev[q2]);
                assert(0 <= prev[q2] < n - 1);
            }
        }
        assert forall|i: int, j: int| 0 <= i < j < out.len() implies {
            ||| txs[pi[i]].fee > txs[pi[j]].fee
            ||| (txs[pi[i]].fee == txs[pi[j]].fee && pi[i] < pi[j])
        } by {
            let qi = if i < p { i } else { i - 1 };
            let qj = if j < p { j } else { j - 1 };
            assert(out[i] == txs[pi[i]]);
            assert(out[j] == txs[pi[j]]);
            if i != p {
                assert(pi[i] == prev[qi]);
                assert(out[i] == s[qi]);
                assert(0 <= prev[qi] < n - 1);
            }
            if j != p {
                assert(pi[j] == prev[qj]);
                assert(out[j] == s[qj]);
                assert(0 <= prev[qj] < n - 1);
            }
            if i != p && j != p {
                assert(init[prev[qi]] == txs[prev[qi]]);
                assert(init[prev[qj]] == txs[prev[qj]]);
            }
        }
        pi
    }
}

/// The selection policy that orders the pool by fee, highest first, keeping
/// arrival order among equal fees.
pub fn fee_descending_policy(transactions: &[Transaction]) -> (r: Vec<Transaction>)
    ensures
        r@ == sorted_by_fee(transactions@),
{
    let mut r: Vec<Transaction> = Vec::new();
    let mut i: usize = 0;
    while i < transactions.len()
        invariant
            i <= transactions@.len(),
            r@ == sorted_by_fee(transactions@.take(i as int)),
        decreases transactions@.len() - i,
    {
        let tx = transactions[i].clone();
        let mut p: usize = r.len();
        while p > 0 && r[p - 1].fee < tx.fee
            invariant
                p <= r@.len(),
                forall|k: int| p <= k < r@.len() ==> #[trigger] r@[k].fee < tx.fee,
            decreases p,
        {
            p = p - 1;
        }
        proof {
            lemma_insert_by_fee_at(r@, tx, p as int);
            assert(transactions@.take(i + 1).drop_last() =~= transactions@.take(i as int));
            assert(transactions@.take(i + 1).last() == tx);
        }
        r.insert(p, tx);
        i = i + 1;
    }
    assert(transactions@.take(i as int) =~= transactions@);
    r
}

} // verus!
