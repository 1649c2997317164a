//! A single-node ledger engine: an append-only, hash-linked chain of blocks,
//! a mempool of pending transactions, proof-of-work mining, a chain-validity
//! checker, longest-valid-chain conflict resolution, and a deterministic
//! checksummed address codec.

pub mod address;
pub mod consensus;
pub mod digest;
pub mod digits;
pub mod hasher;
pub mod hex;
pub mod json;
pub mod ledger;
pub mod parse;
pub mod pow;
pub mod text;
pub mod wallet;
