//! The canonical byte encoding that block digests and signatures are taken
//! over: fixed-width little-endian integers and length-prefixed UTF-8 strings.
use vstd::prelude::*;
use vstd::utf8::encode_utf8;
use crate::transaction::Transaction;

verus! {

/// The four little-endian bytes of `x`.
pub open spec fn u32_le(x: u32) -> Seq<u8> {
    seq![
        (x % 0x100) as u8,
        ((x / 0x100) % 0x100) as u8,
        ((x / 0x1_0000) % 0x100) as u8,
        ((x / 0x100_0000) % 0x100) as u8,
    ]
}

/// The eight little-endian bytes of `x`.
pub open spec fn u64_le(x: u64) -> Seq<u8> {
    u32_le((x % 0x1_0000_0000) as u32) + u32_le((x / 0x1_0000_0000) as u32)
}

/// A string as its UTF-8 bytes, preceded by their count as a `u64`.
pub open spec fn str_field(s: Seq<char>) -> Seq<u8> {
    u64_le(encode_utf8(s).len() as u64) + encode_utf8(s)
}

/// The encoding of one transaction: sender, receiver, amount, fee.
pub open spec fn transaction_bytes(tx: Transaction) -> Seq<u8> {
    str_field(tx.sender@) + str_field(tx.receiver@) + u32_le(tx.amount) + u32_le(tx.fee)
}

/// The encodings of `txs`, one after the other.
pub open spec fn transactions_bytes(txs: Seq<Transaction>) -> Seq<u8>
    decreases txs.len(),
{
    if txs.len() == 0 {
        Seq::empty()
    } else {
        transactions_bytes(txs.drop_last()) + transaction_bytes(txs.last())
    }
}

/// What a block digest is taken over: the nonce, the count of transactions
/// and each of them in order, then the previous block's hash as raw bytes.
pub open spec fn block_preimage(nonce: u32, txs: Seq<Transaction>, prev_hash: Seq<char>) -> Seq<u8> {
    u32_le(nonce) + u64_le(txs.len() as u64) + transactions_bytes(txs) + encode_utf8(prev_hash)
}

proof fn lemma_u32_le_injective(x: u32, y: u32)
    requires
        u32_le(x) == u32_le(y),
    ensures
        x == y,
{
    assert(u32_le(x)[0] == u32_le(y)[0]);
    assert(u32_le(x)[1] == u32_le(y)[1]);
    assert(u32_le(x)[2] == u32_le(y)[2]);
    assert(u32_le(x)[3] == u32_le(y)[3]);
    assert(x % 0x100 == y % 0x100);
    assert((x / 0x100) % 0x100 == (y / 0x100) % 0x100);
    assert((x / 0x1_0000) % 0x100 == (y / 0x1_0000) % 0x100);
    assert((x / 0x100_0000) % 0x100 == (y / 0x100_0000) % 0x100);
    assert(x == y) by (bit_vector)
        requires
            x % 0x100 == y % 0x100,
            (x / 0x100) % 0x100 == (y / 0x100) % 0x100,
            (x / 0x1_0000) % 0x100 == (y / 0x1_0000) % 0x100,
            (x / 0x100_0000) % 0x100 == (y / 0x100_0000) % 0x100,
    ;
}

proof fn lemma_u64_le_injective(x: u64, y: u64)
    requires
        u64_le(x) == u64_le(y),
    ensures
        x == y,
{
    let (xl, xh) = ((x % 0x1_0000_0000) as u32, (x / 0x1_0000_0000) as u32);
    let (yl, yh) = ((y % 0x1_0000_0000) as u32, (y / 0x1_0000_0000) as u32);
    assert(u64_le(x).subrange(0, 4) =~= u32_le(xl));
    assert(u64_le(y).subrange(0, 4) =~= u32_le(yl));
    assert(u64_le(x).subrange(4, 8) =~= u32_le(xh));
    assert(u64_le(y).subrange(4, 8) =~= u32_le(yh));
    lemma_u32_le_injective(xl, yl);
    lemma_u32_le_injective(xh, yh);
    assert(x % 0x1_0000_0000 == y % 0x1_0000_0000);
    assert(x / 0x1_0000_0000 == y / 0x1_0000_0000);
    assert(x == y) by (bit_vector)
        requires
            x % 0x1_0000_0000 == y % 0x1_0000_0000,
            x / 0x1_0000_0000 == y / 0x1_0000_0000,
    ;
}

/// Two strings whose fields begin two equal byte sequences, each followed by
/// an equal remainder, are equal, as are the remainders.
proof fn lemma_str_field_prefix(a: Seq<char>, b: Seq<char>, ra: Seq<u8>, rb: Seq<u8>)
    requires
        str_field(a) + ra == str_field(b) + rb,
        encode_utf8(a).len() <= u64::MAX,
        encode_utf8(b).len() <= u64::MAX,
    ensures
        a == b,
        ra == rb,
{
    let (ea, eb) = (encode_utf8(a), encode_utf8(b));
    let (la, lb) = (ea.len() as u64, eb.len() as u64);
    let (xa, xb) = (str_field(a) + ra, str_field(b) + rb);
    assert(xa.subrange(0, 8) =~= u64_le(la));
    assert(xb.subrange(0, 8) =~= u64_le(lb));
    lemma_u64_le_injective(la, lb);
    assert(xa.subrange(8, 8 + la) =~= ea);
    assert(xb.subrange(8, 8 + lb) =~= eb);
    vstd::utf8::encode_utf8_decode_utf8(a);
    vstd::utf8::encode_utf8_decode_utf8(b);
    assert(xa.subrange(8 + la, xa.len() as int) =~= ra);
    assert(xb.subrange(8 + lb, xb.len() as int) =~= rb);
}

/// The string fields of `tx` are short enough for their length prefixes.
pub open spec fn fits(tx: Transaction) -> bool {
    &&& encode_utf8(tx.sender@).len() <= u64::MAX
    &&& encode_utf8(tx.receiver@).len() <= u64::MAX
}

/// `a` and `b` agree in every field.
pub open spec fn same_fields(a: Transaction, b: Transaction) -> bool {
    &&& a.sender@ == b.sender@
    &&& a.receiver@ == b.receiver@
    &&& a.amount == b.amount
    &&& a.fee == b.fee
}

#[verifier::rlimit(60)]
proof fn lemma_transaction_prefix(t1: Transaction, t2: Transaction, r1: Seq<u8>, r2: Seq<u8>)
    requires
        transaction_bytes(t1) + r1 == transaction_bytes(t2) + r2,
        fits(t1),
        fits(t2),
    ensures
        same_fields(t1, t2),
        r1 == r2,
{
    let tail1 = str_field(t1.receiver@) + u32_le(t1.amount) + u32_le(t1.fee) + r1;
    let tail2 = str_field(t2.receiver@) + u32_le(t2.amount) + u32_le(t2.fee) + r2;
    assert(transaction_bytes(t1) + r1 =~= str_field(t1.sender@) + tail1);
    assert(transaction_bytes(t2) + r2 =~= str_field(t2.sender@) + tail2);
    lemma_str_field_prefix(t1.sender@, t2.sender@, tail1, tail2);
    let num1 = u32_le(t1.amount) + u32_le(t1.fee) + r1;
    let num2 = u32_le(t2.amount) + u32_le(t2.fee) + r2;
    assert(tail1 =~= str_field(t1.receiver@) + num1);
    assert(tail2 =~= str_field(t2.receiver@) + num2);
    lemma_str_field_prefix(t1.receiver@, t2.receiver@, num1, num2);
    assert(num1.subrange(0, 4) =~= u32_le(t1.amount));
    assert(num2.subrange(0, 4) =~= u32_le(t2.amount));
    assert(num1.subrange(4, 8) =~= u32_le(t1.fee));
    assert(num2.subrange(4, 8) =~= u32_le(t2.fee));
    lemma_u32_le_injective(t1.amount, t2.amount);
    lemma_u32_le_injective(t1.fee, t2.fee);
    assert(num1.subrange(8, num1.len() as int) =~= r1);
    assert(num2.subrange(8, num2.len() as int) =~= r2);
}

/// The encoding determines the transaction: transactions that differ in any
/// field have different bytes, so a signature over one does not cover the other.
pub proof fn lemma_transaction_bytes_injective(t1: Transaction, t2: Transaction)
    requires
        transaction_bytes(t1) == transaction_bytes(t2),
        fits(t1),
        fits(t2),
    ensures
        same_fields(t1, t2),
{
    assert(transaction_bytes(t1) + Seq::<u8>::empty() =~= transaction_bytes(t1));
    assert(transaction_bytes(t2) + Seq::<u8>::empty() =~= transaction_bytes(t2));
    lemma_transaction_prefix(t1, t2, Seq::empty(), Seq::empty());
}

proof fn lemma_transactions_bytes_front(txs: Seq<Transaction>)
    requires
        txs.len() > 0,
    ensures
        transactions_bytes(txs) == transaction_bytes(txs[0]) + transactions_bytes(txs.skip(1)),
    decreases txs.len(),
{
    if txs.len() == 1 {
        assert(txs.drop_last() =~= Seq::<Transaction>::empty());
        assert(txs.skip(1) =~= Seq::<Transaction>::empty());
        assert(transactions_bytes(txs) =~= transaction_bytes(txs[0]) + transactions_bytes(txs.skip(1)));
    } else {
        let init = txs.drop_last();
        lemma_transactions_bytes_front(init);
        assert(txs.skip(1).drop_last() =~= init.skip(1));
        assert(txs.skip(1).last() == txs.last());
        assert(init[0] == txs[0]);
        assert(transactions_bytes(txs) =~= transaction_bytes(txs[0]) + transactions_bytes(txs.skip(1)));
    }
}

#[verifier::rlimit(60)]
proof fn lemma_transactions_prefix(t1: Seq<Transaction>, t2: Seq<Transaction>, r1: Seq<u8>, r2: Seq<u8>)
    requires
        t1.len() == t2.len(),
        transactions_bytes(t1) + r1 == transactions_bytes(t2) + r2,
        forall|i: int| 0 <= i < t1.len() ==> fits(#[trigger] t1[i]),
        forall|i: int| 0 <= i < t2.len() ==> fits(#[trigger] t2[i]),
    ensures
        forall|i: int| 0 <= i < t1.len() ==> same_fields(#[trigger] t1[i], t2[i]),
        r1 == r2,
    decreases t1.len(),
{
    if t1.len() > 0 {
        lemma_transactions_bytes_front(t1);
        lemma_transactions_bytes_front(t2);
        let rest1 = transactions_bytes(t1.skip(1)) + r1;
        let rest2 = transactions_bytes(t2.skip(1)) + r2;
        vstd::seq_lib::lemma_concat_associative(transaction_bytes(t1[0]), transactions_bytes(t1.skip(1)), r1);
        vstd::seq_lib::lemma_concat_associative(transaction_bytes(t2[0]), transactions_bytes(t2.skip(1)), r2);
        assert(fits(t1[0]) && fits(t2[0]));
        lemma_transaction_prefix(t1[0], t2[0], rest1, rest2);
        assert forall|i: int| 0 <= i < t1.len() - 1 implies fits(#[trigger] t1.skip(1)[i]) by {
            assert(t1.skip(1)[i] == t1[i + 1]);
        }
        assert forall|i: int| 0 <= i < t2.len() - 1 implies fits(#[trigger] t2.skip(1)[i]) by {
            assert(t2.skip(1)[i] == t2[i + 1]);
        }
        lemma_transactions_prefix(t1.skip(1), t2.skip(1), r1, r2);
        assert forall|i: int| 0 <= i < t1.len() implies same_fields(#[trigger] t1[i], t2[i]) by {
            if i > 0 {
                assert(t1.skip(1)[i - 1] == t1[i]);
                assert(t2.skip(1)[i - 1] == t2[i]);
            }
        }
    } else {
        assert(transactions_bytes(t1) + r1 =~= r1);
        assert(transactions_bytes(t2) + r2 =~= r2);
    }
}

/// A block digest is taken over the transaction list itself, order
/// included: equal preimages mean lists of one length that agree, position
/// by position, in every field. So reordering distinct transactions changes
/// what is hashed.
#[verifier::rlimit(60)]
pub proof fn lemma_block_preimage_injective(
    nonce: u32,
    t1: Seq<Transaction>,
    t2: Seq<Transaction>,
    prev_hash: Seq<char>,
)
    requires
        block_preimage(nonce, t1, prev_hash) == block_preimage(nonce, t2, prev_hash),
        t1.len() <= u64::MAX,
        t2.len() <= u64::MAX,
        forall|i: int| 0 <= i < t1.len() ==> fits(#[trigger] t1[i]),
        forall|i: int| 0 <= i < t2.len() ==> fits(#[trigger] t2[i]),
    ensures
        t1.len() == t2.len(),
        forall|i: int| 0 <= i < t1.len() ==> same_fields(#[trigger] t1[i], t2[i]),
{
    let tail = encode_utf8(prev_hash);
    let (p1, p2) = (u32_le(nonce) + u64_le(t1.len() as u64), u32_le(nonce) + u64_le(t2.len() as u64));
    let (b1, b2) = (transactions_bytes(t1) + tail, transactions_bytes(t2) + tail);
    vstd::seq_lib::lemma_concat_associative(p1, transactions_bytes(t1), tail);
    vstd::seq_lib::lemma_concat_associative(p2, transactions_bytes(t2), tail);
    let x = p1 + b1;
    assert(x == p2 + b2);
    assert(p1.len() == 12 && p2.len() == 12);
    assert(x.subrange(4, 12) =~= p1.subrange(4, 12));
    assert((p2 + b2).subrange(4, 12) =~= p2.subrange(4, 12));
    assert(p1.subrange(4, 12) =~= u64_le(t1.len() as u64));
    assert(p2.subrange(4, 12) =~= u64_le(t2.len() as u64));
    lemma_u64_le_injective(t1.len() as u64, t2.len() as u64);
    assert(x.subrange(12, x.len() as int) =~= b1);
    assert((p2 + b2).subrange(12, x.len() as int) =~= b2);
    lemma_transactions_prefix(t1, t2, tail, tail);
}

fn push_u32_le(out: &mut Vec<u8>, x: u32)
    ensures
        final(out)@ == old(out)@ + u32_le(x),
{
    out.push((x % 0x100) as u8);
    out.push(((x / 0x100) % 0x100) as u8);
    out.push(((x / 0x1_0000) % 0x100) as u8);
    out.push(((x / 0x100_0000) % 0x100) as u8);
    assert(final(out)@ =~= old(out)@ + u32_le(x));
}

fn push_u64_le(out: &mut Vec<u8>, x: u64)
    ensures
        final(out)@ == old(out)@ + u64_le(x),
{
    push_u32_le(out, (x % 0x1_0000_0000) as u32);
    push_u32_le(out, (x / 0x1_0000_0000) as u32);
    assert(final(out)@ =~= old(out)@ + u64_le(x));
}

fn push_str_bytes(out: &mut Vec<u8>, s: &String)
    ensures
        final(out)@ == old(out)@ + encode_utf8(s@),
{
    let bytes = s.as_str().as_bytes();
    out.extend_from_slice(bytes);
    assert(final(out)@ =~= old(out)@ + encode_utf8(s@));
}

fn push_str_field(out: &mut Vec<u8>, s: &String)
    ensures
        final(out)@ == old(out)@ + str_field(s@),
{
    let bytes = s.as_str().as_bytes();
    push_u64_le(out, bytes.len() as u64);
    out.extend_from_slice(bytes);
    assert(final(out)@ =~= old(out)@ + str_field(s@));
}

fn push_transaction(out: &mut Vec<u8>, tx: &Transaction)
    ensures
        final(out)@ == old(out)@ + transaction_bytes(*tx),
{
    push_str_field(out, &tx.sender);
    push_str_field(out, &tx.receiver);
    push_u32_le(out, tx.amount);
    push_u32_le(out, tx.fee);
    assert(final(out)@ =~= old(out)@ + transaction_bytes(*tx));
}

impl Transaction {
    /// The canonical bytes of this transaction, the message that is signed.
    pub fn as_raw(&self) -> (r: Vec<u8>)
        ensures
            r@ == transaction_bytes(*self),
    {
        let mut out: Vec<u8> = Vec::new();
        push_transaction(&mut out, self);
        assert(out@ =~= transaction_bytes(*self));
        out
    }
}

/// The bytes that the digest of a block with these contents is taken over.
pub fn block_hash_input(nonce: u32, transactions: &[Transaction], prev_hash: &String) -> (r: Vec<u8>)
    ensures
        r@ == block_preimage(nonce, transactions@, prev_hash@),
{
    let mut out: Vec<u8> = Vec::new();
    push_u32_le(&mut out, nonce);
    push_u64_le(&mut out, transactions.len() as u64);
    let ghost head = out@;
    let mut i: usize = 0;
    while i < transactions.len()
        invariant
            i <= transactions@.len(),
            out@ == head + transactions_bytes(transactions@.take(i as int)),
        decreases transactions@.len() - i,
    {
        push_transaction(&mut out, &transactions[i]);
        assert(transactions@.take(i + 1).drop_last() =~= transactions@.take(i as int));
        i = i + 1;
    }
    assert(transactions@.take(i as int) =~= transactions@);
    push_str_bytes(&mut out, prev_hash);
    assert(out@ =~= block_preimage(nonce, transactions@, prev_hash@));
    out
}

} // verus!
