//! SHA-256, through the `sha2` crate, and its lowercase hex form.

use sha2::Digest;
use vstd::prelude::*;
use vstd::utf8::encode_utf8;

use crate::crypto::hex::{hex_encode, spec_hex_encode};

verus! {

/// The SHA-256 digest of `data`, as `sha2::Sha256::digest` computes it.
pub uninterp spec fn sha256_digest(data: Seq<u8>) -> Seq<u8>;

/// The lowercase hex of the SHA-256 digest of `data`.
pub open spec fn spec_sha256_hex(data: Seq<u8>) -> Seq<char> {
    spec_hex_encode(sha256_digest(data))
}

/// `sha2::Sha256::digest`: the digest of `data`, named `sha256_digest`; the
/// crate's output type is a 32-byte array, so the result has 32 bytes.
#[verifier::external_body]
pub(crate) fn sha256_digest_bytes(data: &[u8]) -> (res: Vec<u8>)
    ensures
        res@ == sha256_digest(data@),
        res@.len() == 32,
{
    sha2::Sha256::digest(data).to_vec()
}

/// The SHA-256 hash of a byte string, as 64 lowercase hex characters.
pub fn sha256_hash(data: &[u8]) -> (res: String)
    ensures
        res@ == spec_sha256_hex(data@),
        res@.len() == 64,
{
    let digest = sha256_digest_bytes(data);
    hex_encode(digest.as_slice())
}

/// The SHA-256 hash of the UTF-8 bytes of a string, as 64 lowercase hex
/// characters.
pub fn sha256_str(input: &str) -> (res: String)
    ensures
        res@ == spec_sha256_hex(encode_utf8(input@)),
        res@.len() == 64,
{
    sha256_hash(input.as_bytes())
}

} // verus!
