use ed25519_dalek::SigningKey;
use mini_blockchain::blockchain::block::Block;
use mini_blockchain::blockchain::merkel::{merkle_parent, MerkleProofStep};
use mini_blockchain::blockchain::transaction::Transaction;
use mini_blockchain::crypto::hash::sha256_str;

fn address(secret: &[u8; 32]) -> String {
    hex::encode(SigningKey::from_bytes(secret).verifying_key().as_bytes())
}

fn some_transactions(n: u64) -> Vec<Transaction> {
    (0..n).map(|i| Transaction::new_at(&[3u8; 32], &address(&[4u8; 32]), 100 + i, 10 + i)).collect()
}

#[test]
fn block_hash_formula() {
    let h = Block::calculate_hash(1, 2, "mm", "pp", 3, "me");
    assert_eq!(h, sha256_str("12mmpp3me"));
}

#[test]
fn merkle_root_of_no_transactions() {
    assert_eq!(Block::compute_merkel_root(&Vec::new()), "0".repeat(64));
}

#[test]
fn merkle_root_of_one_transaction() {
    let txs = some_transactions(1);
    assert_eq!(Block::compute_merkel_root(&txs), sha256_str(&txs[0].hash));
}

#[test]
fn merkle_root_of_two_and_three_transactions() {
    let txs = some_transactions(3);
    let leaves: Vec<String> = txs.iter().map(|t| sha256_str(&t.hash)).collect();
    let two = txs[..2].to_vec();
    assert_eq!(Block::compute_merkel_root(&two), merkle_parent(&leaves[0], &leaves[1]));
    let expected = merkle_parent(
        &merkle_parent(&leaves[0], &leaves[1]),
        &merkle_parent(&leaves[2], &leaves[2]),
    );
    assert_eq!(Block::compute_merkel_root(&txs), expected);
}

#[test]
fn merkle_root_is_a_digest_for_every_count() {
    for n in 1..8 {
        let root = Block::compute_merkel_root(&some_transactions(n));
        assert_eq!(root.len(), 64);
        assert!(root.chars().all(|c| c.is_ascii_hexdigit() && !c.is_ascii_uppercase()));
    }
}

#[test]
fn merkle_proof_against_a_block_root() {
    let txs = some_transactions(5);
    let leaves: Vec<String> = txs.iter().map(|t| sha256_str(&t.hash)).collect();
    let root = Block::compute_merkel_root(&txs);
    for i in 0..txs.len() {
        let proof = MerkleProofStep::build_merkle_proof(i, &leaves);
        assert!(MerkleProofStep::verify_merkle_proof(&leaves[i], proof, &root));
    }
}

#[test]
fn genesis_without_work() {
    let g = Block::genesis_at(0, 1000);
    assert_eq!(g.block_header.index, 0);
    assert_eq!(g.block_header.timestamp, 1000);
    assert_eq!(g.block_header.merkle, "");
    assert_eq!(g.block_header.prev_hash, "0".repeat(64));
    assert_eq!(g.block_header.nonce, 0);
    assert_eq!(g.block_header.miner, "");
    assert!(g.block_body.transactions.is_empty());
    assert_eq!(g.block_body.tx_count, 0);
    assert_eq!(g.hash, Block::calculate_hash(0, 1000, "", &"0".repeat(64), 0, ""));
}

#[test]
fn genesis_with_work_finds_the_first_nonce() {
    let g = Block::genesis_at(2, 1000);
    assert!(g.hash.starts_with("00"));
    let header = &g.block_header;
    assert_eq!(
        g.hash,
        Block::calculate_hash(0, 1000, "", &header.prev_hash, header.nonce, "")
    );
    for n in 0..header.nonce {
        let h = Block::calculate_hash(0, 1000, "", &header.prev_hash, n, "");
        assert!(!h.starts_with("00"));
    }
}

#[test]
fn new_block_links_to_the_previous() {
    let g = Block::genesis_at(1, 1000);
    let txs = some_transactions(2);
    let b = Block::new_at(&g, txs.clone(), 1, "miner".to_string(), 2000);
    assert_eq!(b.block_header.index, 1);
    assert_eq!(b.block_header.timestamp, 2000);
    assert_eq!(b.block_header.prev_hash, g.hash);
    assert_eq!(b.block_header.miner, "miner");
    assert_eq!(b.block_header.merkle, Block::compute_merkel_root(&txs));
    assert_eq!(b.block_body.tx_count, 2);
    assert_eq!(b.block_body.transactions.len(), 2);
    assert!(b.hash.starts_with('0'));
    assert_eq!(
        b.hash,
        Block::calculate_hash_with_nonce(1, 2000, &txs, &g.hash, b.block_header.nonce, "miner")
    );
}

#[test]
fn new_block_without_work_keeps_nonce_zero() {
    let g = Block::genesis(0).unwrap();
    let b = Block::new(&g, Vec::new(), 0, String::new()).unwrap();
    assert_eq!(b.block_header.nonce, 0);
    assert_eq!(b.block_header.merkle, "0".repeat(64));
}
