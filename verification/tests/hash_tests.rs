use mini_blockchain::crypto::hash::{sha256_hash, sha256_str};
use mini_blockchain::text::{decimal_string, has_leading_zeros, repeat_char, str_equal};

#[test]
fn sha256_of_abc() {
    assert_eq!(
        sha256_str("abc"),
        "ba7816bf8f01cfea414140de5dae2223b00361a396177a9cb410ff61f20015ad"
    );
}

#[test]
fn sha256_of_nothing() {
    assert_eq!(
        sha256_hash(&[]),
        "e3b0c44298fc1c149afbf4c8996fb92427ae41e4649b934ca495991b7852b855"
    );
}

#[test]
fn sha256_str_hashes_utf8_bytes() {
    let text = "区块链";
    assert_eq!(sha256_str(text), sha256_hash(text.as_bytes()));
    assert_eq!(sha256_str(text).len(), 64);
}

#[test]
fn decimal_strings() {
    assert_eq!(decimal_string(0), "0");
    assert_eq!(decimal_string(7), "7");
    assert_eq!(decimal_string(10), "10");
    assert_eq!(decimal_string(1234567890), "1234567890");
    assert_eq!(decimal_string(u64::MAX), u64::MAX.to_string());
}

#[test]
fn repeated_characters() {
    assert_eq!(repeat_char('0', 0), "");
    assert_eq!(repeat_char('0', 4), "0000");
    assert_eq!(repeat_char('0', 64), "0".repeat(64));
}

#[test]
fn leading_zero_counts() {
    assert!(has_leading_zeros("00ab", 0));
    assert!(has_leading_zeros("00ab", 2));
    assert!(!has_leading_zeros("00ab", 3));
    assert!(!has_leading_zeros("00", 3));
    assert!(has_leading_zeros("", 0));
}

#[test]
fn string_equality() {
    assert!(str_equal("coinbase", "coinbase"));
    assert!(!str_equal("coinbase", "coinbasE"));
    assert!(!str_equal("a", ""));
}
