use vstd::prelude::*;

verus! {

/// Why a block could not be mined or appended.
#[derive(Debug, Clone, Copy, PartialEq, Eq, Structural)]
pub enum ChainError {
    /// Every nonce was tried and none gave a digest that meets the difficulty.
    MiningExhausted,
    /// The tail block already holds the largest index.
    IndexExhausted,
    /// A block this engine mined failed its own validation.
    InternalConsistencyError,
}

} // verus!
