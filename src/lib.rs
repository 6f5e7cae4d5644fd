//! A single-node ledger: blocks of transactions chained by digest, appended
//! only after a proof-of-work search, with balances derived from the whole
//! chain and Ed25519-signed transactions.
use vstd::prelude::*;

pub mod block;
pub mod blockchain;
pub mod consensus;
pub mod encoding;
pub mod error;
pub mod hashing;
pub mod laws;
pub mod signature;
pub mod transaction;
pub mod wallet;

verus! {

} // verus!
