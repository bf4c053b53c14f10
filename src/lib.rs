//! A single-node hash-chained ledger: blocks mined by proof of work, kept in
//! a durable key-value store and walked from the newest block back to the
//! first.
pub mod block;
pub mod chain;
pub mod encoding;

pub use block::{meets_target, Block, BlockError, GENESIS_PAYLOAD, TARGET_HEXT};
pub use chain::{Blockchain, BlockchainIter, ChainError};
