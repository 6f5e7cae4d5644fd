//! A holder of one Ed25519 key pair, which never leaves it.
use vstd::prelude::*;
use ring::signature::Ed25519KeyPair;
use crate::hashing::{hex_of, to_hex};
use crate::signature::{
    SignedTransaction, ed25519_public_key, ed25519_public_key_of, ed25519_signature, signature_valid,
};
use crate::encoding::transaction_bytes;
use crate::transaction::Transaction;

verus! {

/// Relies on ring's `Ed25519KeyPair::generate_pkcs8` over the system's random
/// source: a fresh PKCS#8 document, or nothing where that source fails.
#[verifier::external_body]
fn generate_pkcs8() -> (r: Option<Vec<u8>>)
{
    match Ed25519KeyPair::generate_pkcs8(&ring::rand::SystemRandom::new()) {
        Ok(document) => Some(document.as_ref().to_vec()),
        Err(_) => None,
    }
}

/// Relies on ring's `Ed25519KeyPair::from_pkcs8`: the key pair of a PKCS#8
/// document, or nothing where the document is rejected.
#[verifier::external_body]
fn key_pair_from_pkcs8(pkcs8: &[u8]) -> (r: Option<Ed25519KeyPair>)
{
    Ed25519KeyPair::from_pkcs8(pkcs8).ok()
}

/// A key pair and its public key, read from the pair once when the wallet
/// is built.
#[derive(Debug)]
pub struct Wallet {
    key_pair: Ed25519KeyPair,
    public_key: Vec<u8>,
}

impl Wallet {
    #[verifier::type_invariant]
    spec fn inv(self) -> bool {
        &&& self.public_key@ == ed25519_public_key_of(self.key_pair)
        &&& self.public_key@.len() == 32
    }

    /// The key pair this wallet holds, for stating what it signs.
    pub closed spec fn key_pair(&self) -> Ed25519KeyPair {
        self.key_pair
    }

    /// The wallet's public key: the one its key pair holds.
    pub open spec fn public_key(&self) -> Seq<u8> {
        ed25519_public_key_of(self.key_pair())
    }

    /// A wallet with a freshly generated key pair, or nothing where the
    /// system's random source fails.
    pub fn new() -> (r: Option<Self>)
        ensures
            r matches Some(w) ==> w.public_key().len() == 32,
    {
        match generate_pkcs8() {
            Some(pkcs8) => match key_pair_from_pkcs8(pkcs8.as_slice()) {
                Some(key_pair) => Some(Self::new_from_keypair(key_pair)),
                None => None,
            },
            None => None,
        }
    }

    /// A wallet that holds `key_pair`, reading its public key once.
    pub fn new_from_keypair(key_pair: Ed25519KeyPair) -> (r: Self)
        ensures
            r.key_pair() == key_pair,
            r.public_key() == ed25519_public_key_of(key_pair),
            r.public_key().len() == 32,
    {
        let public_key = ed25519_public_key(&key_pair);
        Wallet { key_pair, public_key }
    }

    /// The public half of the key pair.
    pub fn public_key_bytes(&self) -> (r: Vec<u8>)
        ensures
            r@ == self.public_key(),
            r@.len() == 32,
    {
        proof {
            use_type_invariant(self);
        }
        self.public_key.clone()
    }

    /// The address: the public key in lowercase hex.
    pub fn address(&self) -> (r: String)
        ensures
            r@ == hex_of(self.public_key()),
    {
        proof {
            use_type_invariant(self);
        }
        to_hex(self.public_key.as_slice())
    }

    /// Signs `transaction` with this wallet's private key; the signature
    /// verifies under the wallet's public key.
    pub fn sign_transaction(&self, transaction: &Transaction) -> (r: SignedTransaction)
        ensures
            r.transaction == *transaction,
            r.signature@ == ed25519_signature(self.key_pair(), transaction_bytes(*transaction)),
            r.signature@.len() == 64,
            signature_valid(r, self.public_key()),
    {
        SignedTransaction::new(transaction, &self.key_pair)
    }
}

} // verus!
