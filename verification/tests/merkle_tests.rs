use mini_blockchain::blockchain::merkel::{merkle_parent, merkle_reduce, MerkleProofStep};
use mini_blockchain::crypto::hash::sha256_str;

fn leaves(n: usize) -> Vec<String> {
    (0..n).map(|i| sha256_str(&format!("leaf{}", i))).collect()
}

#[test]
fn parent_hashes_the_concatenation() {
    assert_eq!(merkle_parent("ab", "cd"), sha256_str("abcd"));
}

#[test]
fn root_of_one_leaf_is_the_leaf() {
    let l = leaves(1);
    assert_eq!(merkle_reduce(l.clone()), l[0]);
}

#[test]
fn root_of_three_leaves_duplicates_the_last() {
    let l = leaves(3);
    let left = merkle_parent(&l[0], &l[1]);
    let right = merkle_parent(&l[2], &l[2]);
    assert_eq!(merkle_reduce(l.clone()), merkle_parent(&left, &right));
}

#[test]
fn every_proof_leads_to_the_root() {
    for n in 1..=9 {
        let l = leaves(n);
        let root = merkle_reduce(l.clone());
        for i in 0..n {
            let proof = MerkleProofStep::build_merkle_proof(i, &l);
            assert!(MerkleProofStep::verify_merkle_proof(&l[i], proof, &root), "n={} i={}", n, i);
        }
    }
}

#[test]
fn proof_of_the_first_of_two() {
    let l = leaves(2);
    let proof = MerkleProofStep::build_merkle_proof(0, &l);
    assert_eq!(proof.len(), 1);
    assert_eq!(proof[0].hash, l[1]);
    assert!(!proof[0].is_left);
    let proof = MerkleProofStep::build_merkle_proof(1, &l);
    assert_eq!(proof[0].hash, l[0]);
    assert!(proof[0].is_left);
}

#[test]
fn proof_for_a_single_leaf_is_empty() {
    let l = leaves(1);
    assert!(MerkleProofStep::build_merkle_proof(0, &l).is_empty());
    assert!(MerkleProofStep::verify_merkle_proof(&l[0], Vec::new(), &l[0]));
}

#[test]
fn wrong_leaf_or_root_is_refused() {
    let l = leaves(4);
    let root = merkle_reduce(l.clone());
    let proof = MerkleProofStep::build_merkle_proof(2, &l);
    assert!(!MerkleProofStep::verify_merkle_proof(&l[3], proof.clone(), &root));
    assert!(!MerkleProofStep::verify_merkle_proof(&l[2], proof, &l[0]));
}
