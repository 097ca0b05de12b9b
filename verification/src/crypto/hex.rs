//! Lowercase hex encoding and hex decoding, through the `hex` crate.

use vstd::prelude::*;
use vstd::utf8::{encode_utf8, is_ascii_chars, is_ascii_chars_encode_utf8};

verus! {

/// The lowercase hex digit for a nibble `n` (a value below sixteen).
pub open spec fn hex_digit(n: int) -> char {
    if n < 10 {
        (48 + n) as char
    } else {
        (87 + n) as char
    }
}

/// Lowercase hex of `bytes`: two digits per byte, high nibble first.
pub open spec fn spec_hex_encode(bytes: Seq<u8>) -> Seq<char> {
    Seq::new(
        2 * bytes.len(),
        |i: int|
            if i % 2 == 0 {
                hex_digit((bytes[i / 2] / 16) as int)
            } else {
                hex_digit((bytes[i / 2] % 16) as int)
            },
    )
}

/// The value of one hex digit byte, in either case; `None` for any other byte.
pub open spec fn hex_value(c: u8) -> Option<u8> {
    if 48 <= c <= 57 {
        Some((c - 48) as u8)
    } else if 97 <= c <= 102 {
        Some((c - 87) as u8)
    } else if 65 <= c <= 70 {
        Some((c - 55) as u8)
    } else {
        None
    }
}

/// Whether `text` is a hex string: an even number of bytes, each a hex digit.
pub open spec fn spec_hex_decodes(text: Seq<u8>) -> bool {
    &&& text.len() % 2 == 0
    &&& forall|i: int| 0 <= i < text.len() ==> (#[trigger] hex_value(text[i])) is Some
}

/// The bytes that a hex string stands for, one per pair of digits.
pub open spec fn spec_hex_decode(text: Seq<u8>) -> Seq<u8> {
    Seq::new(
        text.len() / 2,
        |k: int| (hex_value(text[2 * k])->0 * 16 + hex_value(text[2 * k + 1])->0) as u8,
    )
}

/// `hex::encode`: the lowercase hex digits of `data`, two per byte, high nibble
/// first (the crate maps each nibble through the table "0123456789abcdef").
#[verifier::external_body]
pub(crate) fn hex_encode(data: &[u8]) -> (res: String)
    ensures
        res@ == spec_hex_encode(data@),
{
    ::hex::encode(data)
}

/// `hex::decode` on the bytes of `text`: `Some` exactly when the length is even
/// and every byte is a hex digit of either case, holding one byte per pair of
/// digits; the crate's error (odd length or a bad character) becomes `None`.
#[verifier::external_body]
pub(crate) fn hex_decode(text: &str) -> (res: Option<Vec<u8>>)
    ensures
        res is Some <==> spec_hex_decodes(encode_utf8(text@)),
        res matches Some(v) ==> v@ == spec_hex_decode(encode_utf8(text@)),
{
    ::hex::decode(text).ok()
}

/// Hex text is ASCII, so its UTF-8 bytes are its characters, one byte each.
pub proof fn lemma_hex_encode_bytes(bytes: Seq<u8>)
    ensures
        is_ascii_chars(spec_hex_encode(bytes)),
        encode_utf8(spec_hex_encode(bytes)).len() == 2 * bytes.len(),
        forall|i: int|
            0 <= i < 2 * bytes.len() ==> #[trigger] encode_utf8(spec_hex_encode(bytes))[i]
                == spec_hex_encode(bytes)[i] as u8,
{
    let h = spec_hex_encode(bytes);
    assert forall|i: int| 0 <= i < h.len() implies '\0' <= #[trigger] h[i] <= '\u{7f}' by {
        let n = if i % 2 == 0 {
            (bytes[i / 2] / 16) as int
        } else {
            (bytes[i / 2] % 16) as int
        };
        assert(0 <= n < 16);
        assert(h[i] == hex_digit(n));
    }
    is_ascii_chars_encode_utf8(h);
}

/// Decoding the lowercase hex of `bytes` gives `bytes` back.
pub proof fn lemma_hex_roundtrip(bytes: Seq<u8>)
    ensures
        spec_hex_decodes(encode_utf8(spec_hex_encode(bytes))),
        spec_hex_decode(encode_utf8(spec_hex_encode(bytes))) == bytes,
{
    lemma_hex_encode_bytes(bytes);
    let h = spec_hex_encode(bytes);
    let t = encode_utf8(h);
    assert forall|i: int| 0 <= i < t.len() implies (#[trigger] hex_value(t[i])) is Some
        && hex_value(t[i])->0 == (if i % 2 == 0 {
        bytes[i / 2] / 16
    } else {
        bytes[i / 2] % 16
    }) by {
        let n = if i % 2 == 0 {
            (bytes[i / 2] / 16) as int
        } else {
            (bytes[i / 2] % 16) as int
        };
        assert(0 <= n < 16);
        assert(h[i] == hex_digit(n));
        assert(t[i] == h[i] as u8);
    }
    let d = spec_hex_decode(t);
    assert forall|k: int| 0 <= k < bytes.len() implies #[trigger] d[k] == bytes[k] by {
        assert(hex_value(t[2 * k])->0 == bytes[k] / 16);
        assert(hex_value(t[2 * k + 1])->0 == bytes[k] % 16);
    }
    assert(d =~= bytes);
}

} // verus!
