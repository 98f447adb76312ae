//! The error kinds surfaced by the chain core.

use vstd::prelude::*;

verus! {

/// Why a single block is rejected on its own.
#[derive(Debug, PartialEq, Eq, Structural)]
pub enum BlocksErrors {
    /// The block's hash does not match its contents.
    WrongHash,
}

/// Why a transaction is rejected, by its own checks or by admission.
#[derive(Debug, PartialEq, Eq, Structural)]
pub enum TxError {
    /// The signature does not verify the hash under the author's key.
    BadSignature,
    /// The origin address is not the hash of the author's public key.
    AddressMismatch,
    /// The stored hash does not match the canonical fields.
    HashMismatch,
    /// The origin cannot cover the amount.
    InsufficientFunds,
    /// The nonce is not the origin's next one.
    NonceMismatch,
    /// The transaction was already seen.
    DuplicateSeen,
}

/// Why appending a block to the chain fails.
#[derive(Debug)]
pub enum BlockchainErrors {
    /// The block does not continue the current tail (expected, got).
    InvalidPrevioushHash(String, String),
    /// The block's signature does not verify under its forger key.
    InvalidSignature,
    /// A block stored on disk does not match its own hash.
    InvalidHash,
    /// A persisted block could not be loaded.
    CouldntLoadBlock(String),
    /// The block could not be appended.
    CouldntAddBlock(String),
    /// More than one coinbase, or a coinbase not in front.
    MultipleCoinbase(String),
    /// The leading coinbase does not reward the block's forger.
    InvalidCoinbaseAddress(String),
    /// The block was not forged by the elected forger, or repeats the
    /// previous forger.
    InvalidBlockForger(String),
}

/// Why the forger election fails.
#[derive(Debug, PartialEq, Eq, Structural)]
pub enum ConsensusErrors {
    /// No staker could be elected.
    TransactionBroken,
}

} // verus!
