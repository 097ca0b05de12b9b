//! Ed25519 keys and signatures, through the `ed25519-dalek` crate. Keys and
//! signatures travel as plain byte arrays: a 32-byte secret key (the crate's
//! `SecretKey`), a 32-byte public key and a 64-byte signature.

use ed25519_dalek::{Signer, Verifier};
use vstd::prelude::*;

verus! {

/// The public key (compressed Edwards point) that `SigningKey::from_bytes(secret)`
/// derives from a secret key.
pub uninterp spec fn ed25519_public_key(secret: Seq<u8>) -> Seq<u8>;

/// The signature that the secret key `secret` gives `message`; Ed25519 signing
/// is deterministic.
pub uninterp spec fn ed25519_signature(secret: Seq<u8>, message: Seq<u8>) -> Seq<u8>;

/// Whether `VerifyingKey::from_bytes` accepts the 32 bytes `public`, that is
/// whether they decompress to a curve point.
pub uninterp spec fn ed25519_key_valid(public: Seq<u8>) -> bool;

/// Whether `VerifyingKey::verify` accepts `signature` on `message` under the
/// public key `public`.
pub uninterp spec fn ed25519_verifies(public: Seq<u8>, message: Seq<u8>, signature: Seq<u8>) -> bool;

/// `SigningKey::verifying_key` of `SigningKey::from_bytes(secret)`, as bytes.
/// The result is the named public key of `secret`, and it is a key that
/// `VerifyingKey::from_bytes` accepts: it is the compression of a curve point,
/// and the crate documents that such bytes decode again.
#[verifier::external_body]
pub(crate) fn public_key_of(secret: &[u8; 32]) -> (res: [u8; 32])
    ensures
        res@ == ed25519_public_key(secret@),
        ed25519_key_valid(res@),
{
    ed25519_dalek::SigningKey::from_bytes(secret).verifying_key().to_bytes()
}

/// `Signer::sign` of `SigningKey::from_bytes(secret)` on `message`, as bytes.
/// The result is the named signature, and it verifies under the public key of
/// the same secret key (the crate documents `verify(message, &sign(message))`
/// as succeeding).
#[verifier::external_body]
pub(crate) fn sign(secret: &[u8; 32], message: &[u8]) -> (res: [u8; 64])
    ensures
        res@ == ed25519_signature(secret@, message@),
        ed25519_verifies(ed25519_public_key(secret@), message@, res@),
{
    ed25519_dalek::SigningKey::from_bytes(secret).sign(message).to_bytes()
}

/// Whether `VerifyingKey::from_bytes(public)` returns `Ok`.
#[verifier::external_body]
pub(crate) fn key_is_valid(public: &[u8; 32]) -> (res: bool)
    ensures
        res == ed25519_key_valid(public@),
{
    ed25519_dalek::VerifyingKey::from_bytes(public).is_ok()
}

/// `Verifier::verify` of the key decoded from `public` on `message` and the
/// signature `Signature::from_bytes(signature)`: whether it returns `Ok`.
#[verifier::external_body]
pub(crate) fn verify(public: &[u8; 32], message: &[u8], signature: &[u8; 64]) -> (res: bool)
    requires
        ed25519_key_valid(public@),
    ensures
        res == ed25519_verifies(public@, message@, signature@),
{
    match ed25519_dalek::VerifyingKey::from_bytes(public) {
        Ok(key) => key.verify(message, &ed25519_dalek::Signature::from_bytes(signature)).is_ok(),
        Err(_) => false,
    }
}

} // verus!
