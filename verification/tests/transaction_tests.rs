use ed25519_dalek::{Signer, SigningKey};
use mini_blockchain::blockchain::transaction::Transaction;
use mini_blockchain::crypto::hash::sha256_str;

const ALICE: [u8; 32] = [7u8; 32];
const BOB: [u8; 32] = [9u8; 32];

fn address(secret: &[u8; 32]) -> String {
    hex::encode(SigningKey::from_bytes(secret).verifying_key().as_bytes())
}

#[test]
fn new_transaction_fields() {
    let bob = address(&BOB);
    let tx = Transaction::new_at(&ALICE, &bob, 10000, 1_700_000_000);
    assert_eq!(tx.from, address(&ALICE));
    assert_eq!(tx.to, bob);
    assert_eq!(tx.amount, 10000);
    assert_eq!(tx.timestamp, 1_700_000_000);
    assert_eq!(tx.fee, 100);
    let expected_hash = sha256_str(&format!("{}{}{}{}", tx.from, bob, 10000, 1_700_000_000u64));
    assert_eq!(tx.hash, expected_hash);
    let expected_signature = SigningKey::from_bytes(&ALICE).sign(tx.hash.as_bytes()).to_bytes();
    assert_eq!(tx.signature, expected_signature);
}

#[test]
fn fee_is_one_percent_rounded_down() {
    let bob = address(&BOB);
    assert_eq!(Transaction::new_at(&ALICE, &bob, 99, 1).fee, 0);
    assert_eq!(Transaction::new_at(&ALICE, &bob, 100, 1).fee, 1);
    assert_eq!(Transaction::new_at(&ALICE, &bob, 5000, 1).fee, 50);
}

#[test]
fn calculate_hash_covers_sender_receiver_amount_and_time() {
    let h = Transaction::calculate_hash("ab", "cd", 12, 34);
    assert_eq!(h, sha256_str("abcd1234"));
    assert_ne!(h, Transaction::calculate_hash("ab", "cd", 12, 35));
}

#[test]
fn new_transaction_verifies() {
    let tx = Transaction::new(&ALICE, &address(&BOB), 10).unwrap();
    assert!(tx.has_valid_sender());
    assert!(tx.verify_signature());
    assert_eq!(tx.verify_signature_checked(), Some(true));
}

#[test]
fn tampered_amount_fails_verification() {
    let mut tx = Transaction::new_at(&ALICE, &address(&BOB), 10, 5);
    tx.amount = 1_000_000;
    assert!(!tx.verify_signature());
}

#[test]
fn tampered_signature_fails_verification() {
    let mut tx = Transaction::new_at(&ALICE, &address(&BOB), 10, 5);
    tx.signature[0] ^= 1;
    assert!(!tx.verify_signature());
}

#[test]
fn stored_hash_is_not_what_is_checked() {
    let mut tx = Transaction::new_at(&ALICE, &address(&BOB), 10, 5);
    tx.hash = "0".repeat(64);
    assert!(tx.verify_signature());
}

#[test]
fn undecodable_sender() {
    let mut tx = Transaction::new_at(&ALICE, &address(&BOB), 10, 5);
    tx.from = "coinbase".to_string();
    assert!(!tx.has_valid_sender());
    assert_eq!(tx.verify_signature_checked(), None);
    tx.from = "abcd".to_string();
    assert!(!tx.has_valid_sender());
}

#[test]
fn uppercase_sender_hex_decodes_too() {
    let tx = Transaction::new_at(&ALICE, &address(&BOB), 10, 5);
    let mut upper = tx.clone();
    upper.from = tx.from.to_uppercase();
    assert!(upper.has_valid_sender());
    // The hash covers the sender text, so the signature no longer matches.
    assert!(!upper.verify_signature());
}
