//! Hashing, hex encoding and Ed25519 signatures, each over the crate that
//! provides it.

pub mod hash;
pub mod hex;
pub mod signature;
