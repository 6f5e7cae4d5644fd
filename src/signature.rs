//! Ed25519 signatures over the canonical encoding of a transaction.
use vstd::prelude::*;
use ring::signature::Ed25519KeyPair;
use crate::encoding::transaction_bytes;
use crate::transaction::Transaction;

verus! {

#[verifier::external_type_specification]
#[verifier::external_body]
pub struct ExEd25519KeyPair(ring::signature::Ed25519KeyPair);

/// `signature` is a valid Ed25519 signature of `message` under the encoded
/// public key `public_key`.
pub uninterp spec fn ed25519_verifies(public_key: Seq<u8>, message: Seq<u8>, signature: Seq<u8>) -> bool;

/// The encoded public key that `key_pair` holds.
pub uninterp spec fn ed25519_public_key_of(key_pair: Ed25519KeyPair) -> Seq<u8>;

/// The Ed25519 signature of `message` by `key_pair`; Ed25519 signing is
/// deterministic, its nonce derived from the private key and the message.
pub uninterp spec fn ed25519_signature(key_pair: Ed25519KeyPair, message: Seq<u8>) -> Seq<u8>;

/// Relies on ring's `KeyPair::public_key` for Ed25519: the 32-byte public key
/// that the pair holds.
#[verifier::external_body]
pub(crate) fn ed25519_public_key(key_pair: &Ed25519KeyPair) -> (r: Vec<u8>)
    ensures
        r@ == ed25519_public_key_of(*key_pair),
        r@.len() == 32,
{
    ring::signature::KeyPair::public_key(key_pair).as_ref().to_vec()
}

/// Relies on ring's `Ed25519KeyPair::sign`: the 64-byte signature of
/// `message`, which ring's documented sign-then-verify round trip accepts
/// under the pair's public key.
#[verifier::external_body]
fn ed25519_sign(key_pair: &Ed25519KeyPair, message: &[u8]) -> (r: Vec<u8>)
    ensures
        r@ == ed25519_signature(*key_pair, message@),
        r@.len() == 64,
        ed25519_verifies(ed25519_public_key_of(*key_pair), message@, r@),
{
    key_pair.sign(message).as_ref().to_vec()
}

/// Relies on ring's `UnparsedPublicKey::verify` for `ED25519`, which returns
/// an error rather than panicking on malformed keys or signatures, and
/// rejects a key that is not 32 bytes or a signature that is not 64.
#[verifier::external_body]
fn ed25519_verify(public_key: &[u8], message: &[u8], signature: &[u8]) -> (r: bool)
    ensures
        r == ed25519_verifies(public_key@, message@, signature@),
        (public_key@.len() != 32 || signature@.len() != 64) ==> !r,
{
    ring::signature::UnparsedPublicKey::new(&ring::signature::ED25519, public_key).verify(message, signature).is_ok()
}

/// The bytes that a signature of `transaction` covers.
fn transaction_to_bytes(transaction: &Transaction) -> (r: Vec<u8>)
    ensures
        r@ == transaction_bytes(*transaction),
{
    transaction.as_raw()
}

/// Signs the canonical bytes of `transaction` with `key_pair`; the signature
/// verifies under the pair's public key.
pub fn sign(transaction: &Transaction, key_pair: &Ed25519KeyPair) -> (r: Vec<u8>)
    ensures
        r@ == ed25519_signature(*key_pair, transaction_bytes(*transaction)),
        r@.len() == 64,
        ed25519_verifies(ed25519_public_key_of(*key_pair), transaction_bytes(*transaction), r@),
{
    let message = transaction_to_bytes(transaction);
    ed25519_sign(key_pair, message.as_slice())
}

/// A transaction with a signature over its canonical bytes.
#[derive(Debug, Clone)]
pub struct SignedTransaction {
    pub transaction: Transaction,
    pub signature: Vec<u8>,
}

/// `signed` carries a valid signature under `public_key`.
pub open spec fn signature_valid(signed: SignedTransaction, public_key: Seq<u8>) -> bool {
    ed25519_verifies(public_key, transaction_bytes(signed.transaction), signed.signature@)
}

impl SignedTransaction {
    /// Pairs a copy of `transaction` with its signature by `key_pair`, which
    /// verifies under the pair's public key.
    pub fn new(transaction: &Transaction, key_pair: &Ed25519KeyPair) -> (r: Self)
        ensures
            r.transaction == *transaction,
            r.signature@ == ed25519_signature(*key_pair, transaction_bytes(*transaction)),
            r.signature@.len() == 64,
            signature_valid(r, ed25519_public_key_of(*key_pair)),
    {
        let signature = sign(transaction, key_pair);
        SignedTransaction { transaction: transaction.clone(), signature }
    }

    /// Whether the signature is valid for the transaction as it now stands,
    /// under `public_key_bytes`; a key that is not 32 bytes or a signature
    /// that is not 64 never is.
    pub fn is_transaction_valid(&self, public_key_bytes: &[u8]) -> (r: bool)
        ensures
            r == signature_valid(*self, public_key_bytes@),
            (public_key_bytes@.len() != 32 || self.signature@.len() != 64) ==> !r,
    {
        let message = transaction_to_bytes(&self.transaction);
        ed25519_verify(public_key_bytes, message.as_slice(), self.signature.as_slice())
    }
}

} // verus!
