//! Merkle trees over hex hash strings: levels, roots, and inclusion proofs.
//!
//! A level of the tree is a list of hashes. The level above pairs neighbours,
//! duplicating the last hash when the count is odd, and hashes each pair as
//! the SHA-256 hex of the two hex strings written one after the other. The root
//! is what remains when one hash is left.

use vstd::prelude::*;
use vstd::string::StringExecFns;
use vstd::utf8::encode_utf8;

use crate::crypto::hash::{sha256_str, spec_sha256_hex};

verus! {

/// The characters of each string.
pub open spec fn string_views(strings: Seq<String>) -> Seq<Seq<char>> {
    strings.map_values(|s: String| s@)
}

/// The parent of two nodes: the SHA-256 hex of `left` followed by `right`.
pub open spec fn spec_merkle_parent(left: Seq<char>, right: Seq<char>) -> Seq<char> {
    spec_sha256_hex(encode_utf8(left + right))
}

/// Node `j` of a level once it has been padded to even length by repeating its
/// last node.
pub open spec fn spec_padded(level: Seq<Seq<char>>, j: int) -> Seq<char> {
    if j < level.len() {
        level[j]
    } else {
        level[level.len() - 1]
    }
}

/// The level above `level`: one parent for each pair of the padded level.
pub open spec fn spec_next_level(level: Seq<Seq<char>>) -> Seq<Seq<char>> {
    Seq::new(
        ((level.len() + 1) / 2) as nat,
        |k: int| spec_merkle_parent(level[2 * k], spec_padded(level, 2 * k + 1)),
    )
}

/// The root over a non-empty level: the level itself when it holds one node,
/// else the root over the level above.
pub open spec fn spec_merkle_reduce(level: Seq<Seq<char>>) -> Seq<char>
    decreases level.len(),
{
    if level.len() <= 1 {
        level[0]
    } else {
        spec_merkle_reduce(spec_next_level(level))
    }
}

/// The inclusion proof for node `index` of `level`: at each level, the
/// sibling's hash and whether the sibling stands on the left.
pub open spec fn spec_merkle_proof(level: Seq<Seq<char>>, index: int) -> Seq<(Seq<char>, bool)>
    decreases level.len(),
{
    if level.len() <= 1 {
        seq![]
    } else {
        let is_left = index % 2 == 0;
        let sibling = if is_left {
            index + 1
        } else {
            index - 1
        };
        seq![(spec_padded(level, sibling), !is_left)] + spec_merkle_proof(
            spec_next_level(level),
            index / 2,
        )
    }
}

/// One step of checking a proof: combine the current hash with the sibling,
/// the sibling on the side that the step names.
pub open spec fn spec_proof_step(current: Seq<char>, step: (Seq<char>, bool)) -> Seq<char> {
    if step.1 {
        spec_merkle_parent(step.0, current)
    } else {
        spec_merkle_parent(current, step.0)
    }
}

/// The hash that a proof leads to from `current`.
pub open spec fn spec_merkle_fold(current: Seq<char>, proof: Seq<(Seq<char>, bool)>) -> Seq<char>
    decreases proof.len(),
{
    if proof.len() == 0 {
        current
    } else {
        spec_merkle_fold(spec_proof_step(current, proof[0]), proof.drop_first())
    }
}

/// The steps of a proof as (sibling hash, sibling on the left) pairs.
pub open spec fn proof_views(proof: Seq<MerkleProofStep>) -> Seq<(Seq<char>, bool)> {
    proof.map_values(|step: MerkleProofStep| (step.hash@, step.is_left))
}

/// Following the proof of node `index` from that node leads to the root.
pub proof fn lemma_merkle_proof_verifies(level: Seq<Seq<char>>, index: int)
    requires
        0 <= index < level.len(),
    ensures
        spec_merkle_fold(level[index], spec_merkle_proof(level, index)) == spec_merkle_reduce(
            level,
        ),
    decreases level.len(),
{
    if level.len() > 1 {
        let next = spec_next_level(level);
        let is_left = index % 2 == 0;
        let sibling = if is_left {
            index + 1
        } else {
            index - 1
        };
        let first = (spec_padded(level, sibling), !is_left);
        let rest = spec_merkle_proof(next, index / 2);
        let proof = seq![first] + rest;
        assert(proof[0] == first);
        assert(proof.drop_first() =~= rest);
        let k = index / 2;
        if is_left {
            assert(2 * k == index);
        } else {
            assert(2 * k + 1 == index);
            assert(spec_padded(level, 2 * k + 1) == level[index]);
        }
        assert(spec_proof_step(level[index], first) == next[k]);
        lemma_merkle_proof_verifies(next, k);
    }
}

/// One step of a Merkle proof: the hash of the sibling node, and whether the
/// sibling stands on the left.
#[derive(Clone, Debug)]
pub struct MerkleProofStep {
    /// The sibling's hash.
    pub hash: String,
    /// True when the sibling is the left node of the pair.
    pub is_left: bool,
}

/// The parent of two nodes.
pub fn merkle_parent(left: &str, right: &str) -> (res: String)
    ensures
        res@ == spec_merkle_parent(left@, right@),
        res@.len() == 64,
{
    let mut combined = left.to_owned();
    combined.append(right);
    sha256_str(combined.as_str())
}

/// The level above `level`.
pub fn next_level(level: &Vec<String>) -> (res: Vec<String>)
    requires
        level@.len() >= 1,
    ensures
        string_views(res@) == spec_next_level(string_views(level@)),
        forall|j: int| 0 <= j < res@.len() ==> (#[trigger] res@[j])@.len() == 64,
{
    let ghost views = string_views(level@);
    let n = level.len();
    let half = n / 2 + n % 2;
    let mut res: Vec<String> = Vec::new();
    let mut k: usize = 0;
    while k < half
        invariant
            n == level@.len(),
            n >= 1,
            half == (n + 1) / 2,
            views == string_views(level@),
            k <= half,
            res@.len() == k,
            forall|j: int|
                0 <= j < k ==> #[trigger] res@[j]@ == spec_next_level(views)[j],
            forall|j: int| 0 <= j < k ==> (#[trigger] res@[j])@.len() == 64,
        decreases half - k,
    {
        let left = &level[2 * k];
        let right = if 2 * k + 1 < n {
            &level[2 * k + 1]
        } else {
            &level[n - 1]
        };
        let parent = merkle_parent(left.as_str(), right.as_str());
        res.push(parent);
        k = k + 1;
    }
    assert(string_views(res@) =~= spec_next_level(views));
    res
}

/// The root over a non-empty list of 64-character hashes.
pub fn merkle_reduce(leaves: Vec<String>) -> (res: String)
    requires
        leaves@.len() >= 1,
        forall|j: int| 0 <= j < leaves@.len() ==> (#[trigger] leaves@[j])@.len() == 64,
    ensures
        res@ == spec_merkle_reduce(string_views(leaves@)),
        res@.len() == 64,
{
    let mut level = leaves;
    while level.len() > 1
        invariant
            level@.len() >= 1,
            forall|j: int| 0 <= j < level@.len() ==> (#[trigger] level@[j])@.len() == 64,
            spec_merkle_reduce(string_views(level@)) == spec_merkle_reduce(string_views(leaves@)),
        decreases level@.len(),
    {
        let next = next_level(&level);
        assert(string_views(next@).len() == next@.len());
        level = next;
    }
    let root = level[0].clone();
    root
}

impl MerkleProofStep {
    /// The inclusion proof for hash number `tx_index` among `all_tx_hashes`:
    /// from the bottom level up, each sibling's hash and its side. The index
    /// may also name the copy of the last hash that pads an odd level.
    pub fn build_merkle_proof(tx_index: usize, all_tx_hashes: &[String]) -> (res: Vec<
        MerkleProofStep,
    >)
        requires
            all_tx_hashes@.len() <= 1 || tx_index < all_tx_hashes@.len() + all_tx_hashes@.len() % 2,
        ensures
            proof_views(res@) == spec_merkle_proof(string_views(all_tx_hashes@), tx_index as int),
    {
        let mut current_level: Vec<String> = Vec::new();
        let total = all_tx_hashes.len();
        let mut i: usize = 0;
        while i < total
            invariant
                total == all_tx_hashes@.len(),
                i <= total,
                current_level@.len() == i,
                forall|j: int| 0 <= j < i ==> #[trigger] current_level@[j] == all_tx_hashes@[j],
            decreases total - i,
        {
            current_level.push(all_tx_hashes[i].clone());
            i = i + 1;
        }
        assert(current_level@ =~= all_tx_hashes@);
        let ghost target = spec_merkle_proof(string_views(all_tx_hashes@), tx_index as int);
        let mut proof: Vec<MerkleProofStep> = Vec::new();
        let mut index = tx_index;
        while current_level.len() > 1
            invariant
                current_level@.len() > 1 ==> index < current_level@.len() + current_level@.len() % 2,
                proof_views(proof@) + spec_merkle_proof(string_views(current_level@), index as int)
                    == target,
            decreases current_level@.len(),
        {
            let ghost views = string_views(current_level@);
            let is_left = index % 2 == 0;
            let n = current_level.len();
            let sibling = if is_left {
                index + 1
            } else {
                index - 1
            };
            let sibling_hash = if sibling < n {
                current_level[sibling].clone()
            } else {
                current_level[n - 1].clone()
            };
            assert(sibling_hash@ == spec_padded(views, sibling as int));
            let ghost old_proof = proof@;
            proof.push(MerkleProofStep { hash: sibling_hash, is_left: !is_left });
            assert(proof_views(proof@) =~= proof_views(old_proof).push(
                (spec_padded(views, sibling as int), !is_left),
            ));
            let next = next_level(&current_level);
            current_level = next;
            index = index / 2;
            assert(proof_views(proof@) + spec_merkle_proof(string_views(current_level@), index as int)
                =~= proof_views(old_proof) + spec_merkle_proof(views, (index * 2 + (if is_left { 0usize } else { 1usize })) as int));
        }
        assert(proof_views(proof@) =~= target);
        proof
    }

    /// Whether following `proof` from `tx_hash` leads to `expected_root`.
    pub fn verify_merkle_proof(tx_hash: &str, proof: Vec<MerkleProofStep>, expected_root: &str) -> (res:
        bool)
        ensures
            res == (spec_merkle_fold(tx_hash@, proof_views(proof@)) == expected_root@),
    {
        let ghost steps = proof_views(proof@);
        let mut current_hash: String = tx_hash.to_owned();
        let n = proof.len();
        let mut i: usize = 0;
        assert(steps.skip(0) =~= steps);
        while i < n
            invariant
                n == proof@.len(),
                steps == proof_views(proof@),
                i <= n,
                spec_merkle_fold(current_hash@, steps.skip(i as int)) == spec_merkle_fold(
                    tx_hash@,
                    steps,
                ),
            decreases n - i,
        {
            let step = &proof[i];
            assert(steps.skip(i as int)[0] == steps[i as int]);
            assert(steps.skip(i as int).drop_first() =~= steps.skip(i + 1));
            current_hash =
                if step.is_left {
                    merkle_parent(step.hash.as_str(), current_hash.as_str())
                } else {
                    merkle_parent(current_hash.as_str(), step.hash.as_str())
                };
            i = i + 1;
        }
        assert(steps.skip(n as int) =~= Seq::<(Seq<char>, bool)>::empty());
        let root: String = expected_root.to_owned();
        current_hash == root
    }
}

} // verus!
