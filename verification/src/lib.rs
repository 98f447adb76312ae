//! Core of a small proof-of-stake blockchain node: keys and addresses,
//! signed transactions and blocks, the chainstate fold, the append engine,
//! the deterministic forger election, and the mempool.
//!
//! Cryptographic primitives (keccak-256, secp256k1 ECDSA) are provided by
//! outside crates behind a small set of trusted wrappers; everything built
//! on top of them is verified.

pub mod block;
pub mod block_builder;
pub mod block_chain;
pub mod block_hash;
pub mod chainstate;
pub mod consensus;
pub mod digest;
pub mod errors;
pub mod key;
pub mod mempool;
pub mod node;
pub mod public_address;
pub mod sig;
pub mod table;
pub mod text;
pub mod transaction;
pub mod transaction_builder;
pub mod wallet;
