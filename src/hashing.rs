//! Block digests: SHA-256 over the canonical encoding, written as lowercase
//! hex, and the leading-zero condition that proof-of-work asks of them.
use vstd::prelude::*;
use crate::encoding::{block_hash_input, block_preimage};
use crate::transaction::Transaction;

verus! {

/// The SHA-256 digest of `data`.
pub uninterp spec fn sha256_of(data: Seq<u8>) -> Seq<u8>;

/// The lowercase hexadecimal digit of a value below 16.
pub open spec fn hex_digit(n: u8) -> char {
    seq!['0', '1', '2', '3', '4', '5', '6', '7', '8', '9', 'a', 'b', 'c', 'd', 'e', 'f'][n as int]
}

/// Two lowercase hex digits for each byte, high half first.
pub open spec fn hex_of(bytes: Seq<u8>) -> Seq<char>
    decreases bytes.len(),
{
    if bytes.len() == 0 {
        Seq::empty()
    } else {
        hex_of(bytes.drop_last()) + seq![
            hex_digit(bytes.last() / 16),
            hex_digit(bytes.last() % 16),
        ]
    }
}

/// The `i`-th half-byte of `bytes`, counting the high half of each byte first.
pub open spec fn nibble(bytes: Seq<u8>, i: int) -> u8 {
    if i % 2 == 0 {
        (bytes[i / 2] / 16) as u8
    } else {
        (bytes[i / 2] % 16) as u8
    }
}

/// The digest of a block with these contents.
pub open spec fn block_digest(nonce: u32, txs: Seq<Transaction>, prev_hash: Seq<char>) -> Seq<u8> {
    sha256_of(block_preimage(nonce, txs, prev_hash))
}

/// The hash of a block with these contents, as it is stored in the block.
pub open spec fn block_hash(nonce: u32, txs: Seq<Transaction>, prev_hash: Seq<char>) -> Seq<char> {
    hex_of(block_digest(nonce, txs, prev_hash))
}

/// `hash` starts with at least `difficulty` characters `'0'`.
pub open spec fn meets_difficulty(hash: Seq<char>, difficulty: nat) -> bool {
    &&& difficulty <= hash.len()
    &&& forall|i: int| 0 <= i < difficulty ==> hash[i] == '0'
}

/// Relies on sha2's `Sha256::digest`: the SHA-256 digest of `data`, 32 bytes long.
#[verifier::external_body]
fn sha256(data: &[u8]) -> (r: Vec<u8>)
    ensures
        r@ == sha256_of(data@),
        r@.len() == 32,
{
    <sha2::Sha256 as sha2::Digest>::digest(data).to_vec()
}

/// Relies on hex::encode: two lowercase digits per byte, high half first.
#[verifier::external_body]
pub(crate) fn to_hex(bytes: &[u8]) -> (r: String)
    ensures
        r@ == hex_of(bytes@),
{
    hex::encode(bytes)
}

/// Hex encoding doubles the length, and its `i`-th digit is that of the
/// `i`-th half-byte.
pub proof fn lemma_hex_of_index(bytes: Seq<u8>)
    ensures
        hex_of(bytes).len() == 2 * bytes.len(),
        forall|i: int| 0 <= i < 2 * bytes.len() ==> #[trigger] hex_of(bytes)[i] == hex_digit(nibble(bytes, i)),
    decreases bytes.len(),
{
    if bytes.len() > 0 {
        let init = bytes.drop_last();
        lemma_hex_of_index(init);
        assert forall|i: int| 0 <= i < 2 * bytes.len() implies #[trigger] hex_of(bytes)[i] == hex_digit(nibble(bytes, i)) by {
            if i < 2 * init.len() {
                assert(nibble(init, i) == nibble(bytes, i));
            }
        }
    }
}

/// A hex digit is `'0'` exactly when its value is zero.
proof fn lemma_hex_digit_zero(n: u8)
    requires
        n < 16,
    ensures
        (hex_digit(n) == '0') <==> n == 0,
{
}

/// Whether the hex form of `digest` starts with `difficulty` zeros, read off
/// the digest's half-bytes.
pub fn digest_meets_difficulty(digest: &Vec<u8>, difficulty: u32) -> (r: bool)
    requires
        digest@.len() == 32,
    ensures
        r == meets_difficulty(hex_of(digest@), difficulty as nat),
{
    proof {
        lemma_hex_of_index(digest@);
    }
    if difficulty as u64 > 2 * digest.len() as u64 {
        return false;
    }
    let mut i: u32 = 0;
    while i < difficulty
        invariant
            difficulty <= 2 * digest@.len(),
            i <= difficulty,
            hex_of(digest@).len() == 2 * digest@.len(),
            forall|k: int| 0 <= k < 2 * digest@.len() ==> #[trigger] hex_of(digest@)[k] == hex_digit(nibble(digest@, k)),
            forall|k: int| 0 <= k < i ==> hex_of(digest@)[k] == '0',
        decreases difficulty - i,
    {
        let byte = digest[(i / 2) as usize];
        let half: u8 = if i % 2 == 0 { byte / 16 } else { byte % 16 };
        assert(half == nibble(digest@, i as int));
        proof {
            lemma_hex_digit_zero(half);
        }
        if half != 0 {
            assert(hex_of(digest@)[i as int] != '0');
            return false;
        }
        i = i + 1;
    }
    true
}

/// The digest of a block with these contents, as bytes.
fn block_digest_bytes(nonce: u32, transactions: &[Transaction], prev_hash: &String) -> (r: Vec<u8>)
    ensures
        r@ == block_digest(nonce, transactions@, prev_hash@),
        r@.len() == 32,
{
    let input = block_hash_input(nonce, transactions, prev_hash);
    sha256(input.as_slice())
}

/// The hash of a block with these contents: 64 lowercase hex digits.
pub fn calculate_hash(nonce: &u32, transactions: &Vec<Transaction>, prev_hash: &String) -> (r: String)
    ensures
        r@ == block_hash(*nonce, transactions@, prev_hash@),
        r@.len() == 64,
{
    let digest = block_digest_bytes(*nonce, transactions.as_slice(), prev_hash);
    proof {
        lemma_hex_of_index(digest@);
    }
    to_hex(digest.as_slice())
}

/// The hash of a block with these contents if it meets `difficulty`.
pub fn hash_if_meets(nonce: u32, transactions: &[Transaction], prev_hash: &String, difficulty: u32) -> (r: Option<String>)
    ensures
        r is Some <==> meets_difficulty(block_hash(nonce, transactions@, prev_hash@), difficulty as nat),
        r matches Some(h) ==> h@ == block_hash(nonce, transactions@, prev_hash@),
{
    let digest = block_digest_bytes(nonce, transactions, prev_hash);
    if digest_meets_difficulty(&digest, difficulty) {
        Some(to_hex(digest.as_slice()))
    } else {
        None
    }
}

} // verus!
