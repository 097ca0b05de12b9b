//! A small proof-of-work blockchain: accounts with balances, Ed25519-signed
//! transactions, a transaction pool, Merkle roots and proofs, mining, and
//! whole-chain validation.

pub mod blockchain;
pub mod clock;
pub mod crypto;
pub mod text;
