//! Blocks: a header of fixed-size data, a body of transactions, and the hash
//! that proof of work seals the header with.

use vstd::prelude::*;
use vstd::string::StringExecFns;
use vstd::utf8::encode_utf8;

use crate::blockchain::merkel::{
    lemma_merkle_proof_verifies, merkle_reduce, spec_merkle_fold, spec_merkle_proof,
    spec_merkle_reduce, string_views,
};
use crate::blockchain::transaction::Transaction;
use crate::clock::current_timestamp;
use crate::crypto::hash::{sha256_str, spec_sha256_hex};
use crate::text::{
    decimal_string, has_leading_zeros, push_decimal, repeat_char, spec_decimal,
    spec_has_leading_zeros, spec_repeat,
};

verus! {

/// Sixty-four zeros: the previous-block hash of the genesis block, and the
/// Merkle root of an empty list of transactions.
pub open spec fn spec_zero_hash() -> Seq<char> {
    spec_repeat('0', 64)
}

/// The Merkle leaves of a list of transactions: the SHA-256 hex of each
/// transaction's hash string.
pub open spec fn spec_tx_leaves(txs: Seq<Transaction>) -> Seq<Seq<char>> {
    Seq::new(txs.len(), |i: int| spec_sha256_hex(encode_utf8(txs[i].hash@)))
}

/// The Merkle root of a list of transactions: sixty-four zeros for no
/// transactions, else the root over their leaves.
pub open spec fn spec_merkle_root(txs: Seq<Transaction>) -> Seq<char> {
    if txs.len() == 0 {
        spec_zero_hash()
    } else {
        spec_merkle_reduce(spec_tx_leaves(txs))
    }
}

/// Merkle inclusion: the proof built for transaction `index` of a block,
/// followed from that transaction's leaf, leads to the block's Merkle root.
pub proof fn lemma_block_merkle_proof(txs: Seq<Transaction>, index: int)
    requires
        0 <= index < txs.len(),
    ensures
        spec_merkle_fold(spec_tx_leaves(txs)[index], spec_merkle_proof(spec_tx_leaves(txs), index))
            == spec_merkle_root(txs),
{
    lemma_merkle_proof_verifies(spec_tx_leaves(txs), index);
}

/// The text that a block hash covers: index, timestamp, Merkle root, previous
/// hash, nonce and miner, one after another, the numbers in decimal.
pub open spec fn spec_block_preimage(
    index: u64,
    timestamp: u64,
    merkle: Seq<char>,
    prev_hash: Seq<char>,
    nonce: u64,
    miner: Seq<char>,
) -> Seq<char> {
    spec_decimal(index as nat) + spec_decimal(timestamp as nat) + merkle + prev_hash + spec_decimal(
        nonce as nat,
    ) + miner
}

/// A block hash: the SHA-256 hex of the UTF-8 bytes of the preimage.
pub open spec fn spec_block_hash(
    index: u64,
    timestamp: u64,
    merkle: Seq<char>,
    prev_hash: Seq<char>,
    nonce: u64,
    miner: Seq<char>,
) -> Seq<char> {
    spec_sha256_hex(encode_utf8(spec_block_preimage(index, timestamp, merkle, prev_hash, nonce, miner)))
}

/// The hash of a header with its nonce replaced by `nonce`.
pub open spec fn spec_hash_with_nonce(header: BlockHeader, nonce: u64) -> Seq<char> {
    spec_block_hash(
        header.index,
        header.timestamp,
        header.merkle@,
        header.prev_hash@,
        nonce,
        header.miner@,
    )
}

/// The hash of a header.
pub open spec fn spec_header_hash(header: BlockHeader) -> Seq<char> {
    spec_hash_with_nonce(header, header.nonce)
}

/// The outcome of a proof-of-work search that starts at nonce `start`: `found`
/// is the first nonce from `start` on whose hash begins with `difficulty`
/// zeros, or, when no nonce up to `u64::MAX` has one, `u64::MAX`.
pub open spec fn spec_nonce_search(
    header: BlockHeader,
    start: u64,
    difficulty: nat,
    found: u64,
) -> bool {
    &&& start <= found
    &&& forall|n: u64|
        start <= n < found ==> !spec_has_leading_zeros(
            #[trigger] spec_hash_with_nonce(header, n),
            difficulty,
        )
    &&& spec_has_leading_zeros(spec_hash_with_nonce(header, found), difficulty) || found
        == u64::MAX
}

/// What a block made by `Block::new_at` on top of `prev` from `transactions`
/// by `miner` at `difficulty` holds, apart from its timestamp.
pub open spec fn spec_block_follows(
    block: Block,
    prev: Block,
    transactions: Seq<Transaction>,
    difficulty: nat,
    miner: Seq<char>,
) -> bool {
    &&& block.block_header.index == prev.block_header.index + 1
    &&& block.block_header.merkle@ == spec_merkle_root(transactions)
    &&& block.block_header.prev_hash@ == prev.hash@
    &&& block.block_header.miner@ == miner
    &&& block.block_body.transactions@ == transactions
    &&& block.block_body.tx_count == transactions.len()
    &&& block.hash@ == spec_header_hash(block.block_header)
    &&& spec_nonce_search(block.block_header, 0, difficulty, block.block_header.nonce)
}

/// The fixed-size data of a block.
#[derive(Clone, Debug)]
pub struct BlockHeader {
    /// The block's height: zero for the genesis block.
    pub index: u64,
    /// Seconds since the Unix epoch when the block was made.
    pub timestamp: u64,
    /// The Merkle root of the block's transactions.
    pub merkle: String,
    /// The hash of the block before it.
    pub prev_hash: String,
    /// The proof-of-work counter.
    pub nonce: u64,
    /// The address of the miner.
    pub miner: String,
}

/// The transactions of a block.
#[derive(Clone, Debug)]
pub struct BlockBody {
    /// The transactions, the reward to the miner first.
    pub transactions: Vec<Transaction>,
    /// How many transactions the block holds.
    pub tx_count: u64,
}

/// A block: header, body and the hash of the header.
#[derive(Clone, Debug)]
pub struct Block {
    /// The header.
    pub block_header: BlockHeader,
    /// The body.
    pub block_body: BlockBody,
    /// The hash of the header.
    pub hash: String,
}

impl Block {
    /// The hash of a header with these fields.
    pub fn calculate_hash(
        index: u64,
        timestamp: u64,
        merkle: &str,
        prev_hash: &str,
        nonce: u64,
        miner: &str,
    ) -> (res: String)
        ensures
            res@ == spec_block_hash(index, timestamp, merkle@, prev_hash@, nonce, miner@),
            res@.len() == 64,
    {
        let mut input = decimal_string(index);
        push_decimal(&mut input, timestamp);
        input.append(merkle);
        input.append(prev_hash);
        push_decimal(&mut input, nonce);
        input.append(miner);
        assert(input@ =~= spec_block_preimage(index, timestamp, merkle@, prev_hash@, nonce, miner@));
        sha256_str(input.as_str())
    }

    /// The hash of a block with these header fields and whose Merkle root is
    /// that of `transactions`.
    pub fn calculate_hash_with_nonce(
        index: u64,
        timestamp: u64,
        transactions: &Vec<Transaction>,
        prev_hash: &str,
        nonce: u64,
        miner: &str,
    ) -> (res: String)
        ensures
            res@ == spec_block_hash(
                index,
                timestamp,
                spec_merkle_root(transactions@),
                prev_hash@,
                nonce,
                miner@,
            ),
    {
        let merkle = Self::compute_merkel_root(transactions);
        Self::calculate_hash(index, timestamp, merkle.as_str(), prev_hash, nonce, miner)
    }

    /// The genesis block made at `timestamp`: height zero, no transactions, an
    /// empty Merkle root and miner, sixty-four zeros as previous hash, sealed
    /// by proof of work at `difficulty`.
    pub fn genesis_at(difficulty: usize, timestamp: u64) -> (res: Self)
        ensures
            res.block_header.index == 0,
            res.block_header.timestamp == timestamp,
            res.block_header.merkle@ == Seq::<char>::empty(),
            res.block_header.prev_hash@ == spec_zero_hash(),
            res.block_header.miner@ == Seq::<char>::empty(),
            res.block_body.transactions@.len() == 0,
            res.block_body.tx_count == 0,
            res.hash@ == spec_header_hash(res.block_header),
            spec_nonce_search(res.block_header, 0, difficulty as nat, res.block_header.nonce),
    {
        let block_header = BlockHeader {
            index: 0,
            timestamp,
            merkle: String::new(),
            prev_hash: repeat_char('0', 64),
            nonce: 0,
            miner: String::new(),
        };
        let block_body = BlockBody { transactions: Vec::new(), tx_count: 0 };
        let mut block = Block { block_header, block_body, hash: repeat_char('0', 64) };
        let ghost unmined = block.block_header;
        if difficulty > 0 {
            block.mine_block(difficulty);
        } else {
            block.hash =
                Self::calculate_hash(
                    block.block_header.index,
                    block.block_header.timestamp,
                    block.block_header.merkle.as_str(),
                    block.block_header.prev_hash.as_str(),
                    block.block_header.nonce,
                    block.block_header.miner.as_str(),
                );
        }
        assert forall|n: u64| #[trigger]
            spec_hash_with_nonce(block.block_header, n) == spec_hash_with_nonce(unmined, n) by {}
        block
    }

    /// The genesis block, made now: `genesis_at` with the current time, or
    /// `None` where the clock reads earlier than the Unix epoch.
    pub fn genesis(difficulty: usize) -> (res: Option<Self>)
        ensures
            res matches Some(block) ==> {
                &&& block.block_header.index == 0
                &&& block.block_header.merkle@ == Seq::<char>::empty()
                &&& block.block_header.prev_hash@ == spec_zero_hash()
                &&& block.block_header.miner@ == Seq::<char>::empty()
                &&& block.block_body.transactions@.len() == 0
                &&& block.block_body.tx_count == 0
                &&& block.hash@ == spec_header_hash(block.block_header)
                &&& spec_nonce_search(
                    block.block_header,
                    0,
                    difficulty as nat,
                    block.block_header.nonce,
                )
            },
    {
        match current_timestamp() {
            Some(timestamp) => Some(Self::genesis_at(difficulty, timestamp)),
            None => None,
        }
    }

    /// Proof of work: counts the nonce up from its current value until the
    /// header's hash begins with `difficulty` zeros, and stores that hash. The
    /// search ends at `u64::MAX` if no nonce before it succeeds.
    fn mine_block(&mut self, difficulty: usize)
        ensures
            final(self).block_body == old(self).block_body,
            final(self).block_header.index == old(self).block_header.index,
            final(self).block_header.timestamp == old(self).block_header.timestamp,
            final(self).block_header.merkle == old(self).block_header.merkle,
            final(self).block_header.prev_hash == old(self).block_header.prev_hash,
            final(self).block_header.miner == old(self).block_header.miner,
            final(self).hash@ == spec_header_hash(final(self).block_header),
            spec_nonce_search(
                old(self).block_header,
                old(self).block_header.nonce,
                difficulty as nat,
                final(self).block_header.nonce,
            ),
    {
        let ghost start = self.block_header;
        loop
            invariant
                self.block_body == old(self).block_body,
                self.block_header.index == start.index,
                self.block_header.timestamp == start.timestamp,
                self.block_header.merkle == start.merkle,
                self.block_header.prev_hash == start.prev_hash,
                self.block_header.miner == start.miner,
                start == old(self).block_header,
                start.nonce <= self.block_header.nonce,
                forall|n: u64|
                    start.nonce <= n < self.block_header.nonce ==> !spec_has_leading_zeros(
                        #[trigger] spec_hash_with_nonce(start, n),
                        difficulty as nat,
                    ),
            ensures
                self.block_body == old(self).block_body,
                self.block_header.index == start.index,
                self.block_header.timestamp == start.timestamp,
                self.block_header.merkle == start.merkle,
                self.block_header.prev_hash == start.prev_hash,
                self.block_header.miner == start.miner,
                self.hash@ == spec_header_hash(self.block_header),
                spec_nonce_search(start, start.nonce, difficulty as nat, self.block_header.nonce),
            decreases u64::MAX - self.block_header.nonce,
        {
            let hash = Self::calculate_hash(
                self.block_header.index,
                self.block_header.timestamp,
                self.block_header.merkle.as_str(),
                self.block_header.prev_hash.as_str(),
                self.block_header.nonce,
                self.block_header.miner.as_str(),
            );
            assert(hash@ == spec_hash_with_nonce(start, self.block_header.nonce));
            if has_leading_zeros(hash.as_str(), difficulty) || self.block_header.nonce == u64::MAX {
                self.hash = hash;
                break ;
            }
            self.block_header.nonce = self.block_header.nonce + 1;
        }
    }

    /// The Merkle root of `transactions`, 64 characters long: sixty-four zeros
    /// when there are none, else the root over the SHA-256 hex of each
    /// transaction's hash.
    pub fn compute_merkel_root(transactions: &Vec<Transaction>) -> (res: String)
        ensures
            res@ == spec_merkle_root(transactions@),
            res@.len() == 64,
    {
        if transactions.len() == 0 {
            return repeat_char('0', 64);
        }
        let mut tx_hashes: Vec<String> = Vec::new();
        let n = transactions.len();
        let mut i: usize = 0;
        while i < n
            invariant
                n == transactions@.len(),
                i <= n,
                tx_hashes@.len() == i,
                forall|j: int|
                    0 <= j < i ==> #[trigger] tx_hashes@[j]@ == spec_tx_leaves(transactions@)[j],
                forall|j: int| 0 <= j < i ==> (#[trigger] tx_hashes@[j])@.len() == 64,
            decreases n - i,
        {
            tx_hashes.push(sha256_str(transactions[i].hash.as_str()));
            i = i + 1;
        }
        assert(string_views(tx_hashes@) =~= spec_tx_leaves(transactions@));
        merkle_reduce(tx_hashes)
    }

    /// The block after `prev_block`, made at `timestamp`: the next height, the
    /// Merkle root of `transactions`, the previous block's hash, and `miner`,
    /// sealed by proof of work at `difficulty` from nonce zero.
    pub fn new_at(
        prev_block: &Block,
        transactions: Vec<Transaction>,
        difficulty: usize,
        miner: String,
        timestamp: u64,
    ) -> (res: Self)
        requires
            prev_block.block_header.index < u64::MAX,
        ensures
            res.block_header.timestamp == timestamp,
            spec_block_follows(res, *prev_block, transactions@, difficulty as nat, miner@),
    {
        let index = prev_block.block_header.index + 1;
        let prev_hash = prev_block.hash.clone();
        let merkle = Self::compute_merkel_root(&transactions);
        let block_header = BlockHeader { index, timestamp, merkle, prev_hash, nonce: 0, miner };
        let tx_count = transactions.len() as u64;
        let block_body = BlockBody { transactions, tx_count };
        let hash = Self::calculate_hash(
            block_header.index,
            block_header.timestamp,
            block_header.merkle.as_str(),
            block_header.prev_hash.as_str(),
            block_header.nonce,
            block_header.miner.as_str(),
        );
        let mut block = Block { block_header, block_body, hash };
        let ghost unmined = block.block_header;
        if difficulty > 0 {
            block.mine_block(difficulty);
        } else {
            block.hash =
                Self::calculate_hash(
                    block.block_header.index,
                    block.block_header.timestamp,
                    block.block_header.merkle.as_str(),
                    block.block_header.prev_hash.as_str(),
                    block.block_header.nonce,
                    block.block_header.miner.as_str(),
                );
        }
        assert forall|n: u64| #[trigger]
            spec_hash_with_nonce(block.block_header, n) == spec_hash_with_nonce(unmined, n) by {}
        block
    }

    /// The block after `prev_block`, made now: `new_at` with the current time,
    /// or `None` where the clock reads earlier than the Unix epoch.
    pub fn new(prev_block: &Block, transactions: Vec<Transaction>, difficulty: usize, miner: String) -> (res:
        Option<Self>)
        requires
            prev_block.block_header.index < u64::MAX,
        ensures
            res matches Some(block) ==> spec_block_follows(
                block,
                *prev_block,
                transactions@,
                difficulty as nat,
                miner@,
            ),
    {
        match current_timestamp() {
            Some(timestamp) => Some(
                Self::new_at(prev_block, transactions, difficulty, miner, timestamp),
            ),
            None => None,
        }
    }
}

} // verus!
