//! The chain: its blocks, the pool of pending transactions, the balances, and
//! the hashes of transactions already mined.

use vstd::hash_map::StringHashMap;
use vstd::hash_set::StringHashSet;
use vstd::prelude::*;

use crate::blockchain::account::{
    spec_balance, spec_transfer, spec_transfer_fits, AccountManager,
};
use crate::blockchain::block::{
    spec_block_follows, spec_block_hash, spec_header_hash, spec_merkle_root, spec_nonce_search,
    spec_zero_hash, Block,
};
use crate::blockchain::transaction::{
    spec_sender_key_ok, spec_signature_ok, Transaction,
};
use crate::clock::current_timestamp;
use crate::text::repeat_char;

verus! {

/// The sum over `blocks` of the number of transactions in each.
pub open spec fn spec_total_txs(blocks: Seq<Block>) -> nat
    decreases blocks.len(),
{
    if blocks.len() == 0 {
        0
    } else {
        spec_total_txs(blocks.drop_last()) + blocks.last().block_body.transactions@.len()
    }
}

/// Whether `tx` involves `address`, as sender or as receiver.
pub open spec fn spec_involves(tx: Transaction, address: Seq<char>) -> bool {
    tx.from@ == address || tx.to@ == address
}

/// The transactions of `txs` that involve `address`, in order.
pub open spec fn spec_txs_involving(txs: Seq<Transaction>, address: Seq<char>) -> Seq<Transaction>
    decreases txs.len(),
{
    if txs.len() == 0 {
        seq![]
    } else {
        let rest = spec_txs_involving(txs.drop_last(), address);
        if spec_involves(txs.last(), address) {
            rest.push(txs.last())
        } else {
            rest
        }
    }
}

/// The transactions of `blocks` that involve `address`, block by block, each
/// block's in order.
pub open spec fn spec_history(blocks: Seq<Block>, address: Seq<char>) -> Seq<Transaction>
    decreases blocks.len(),
{
    if blocks.len() == 0 {
        seq![]
    } else {
        spec_history(blocks.drop_last(), address) + spec_txs_involving(
            blocks.last().block_body.transactions@,
            address,
        )
    }
}

/// Whether `tx` carries the sender name "coinbase" that marks a mining reward.
pub open spec fn spec_is_coinbase(tx: Transaction) -> bool {
    tx.from@ == "coinbase"@
}

/// The outcome of checking the signatures of `txs` in order, skipping mining
/// rewards: `Some(false)` at the first signature that fails, `None` where a
/// sender address cannot be decoded (checking it would panic), and
/// `Some(true)` when all pass.
pub open spec fn spec_txs_check(txs: Seq<Transaction>) -> Option<bool>
    decreases txs.len(),
{
    if txs.len() == 0 {
        Some(true)
    } else if spec_is_coinbase(txs[0]) {
        spec_txs_check(txs.drop_first())
    } else if !spec_sender_key_ok(txs[0].from@) {
        None
    } else if !spec_signature_ok(txs[0]) {
        Some(false)
    } else {
        spec_txs_check(txs.drop_first())
    }
}

/// The outcome of checking `block` against the block before it: its stored
/// hash must be the hash of its header with the Merkle root recomputed from
/// its transactions, it must link to `prev`'s hash, and its signatures must
/// pass.
pub open spec fn spec_block_check(prev: Block, block: Block) -> Option<bool> {
    let h = block.block_header;
    if block.hash@ != spec_block_hash(
        h.index,
        h.timestamp,
        spec_merkle_root(block.block_body.transactions@),
        h.prev_hash@,
        h.nonce,
        h.miner@,
    ) {
        Some(false)
    } else if h.prev_hash@ != prev.hash@ {
        Some(false)
    } else {
        spec_txs_check(block.block_body.transactions@)
    }
}

/// The outcome of checking blocks `i` onwards, each against the one before
/// it, stopping at the first that does not pass.
pub open spec fn spec_chain_check_from(blocks: Seq<Block>, i: int) -> Option<bool>
    decreases blocks.len() - i,
{
    if i < 1 || i >= blocks.len() {
        Some(true)
    } else {
        match spec_block_check(blocks[i - 1], blocks[i]) {
            Some(true) => spec_chain_check_from(blocks, i + 1),
            other => other,
        }
    }
}

/// The outcome of validating a whole chain: every block after the genesis
/// block checked against the one before it.
pub open spec fn spec_chain_check(blocks: Seq<Block>) -> Option<bool> {
    spec_chain_check_from(blocks, 1)
}

/// Every pending transaction has a decodable sender and a signature that
/// verifies.
pub open spec fn spec_pending_ok(pending: Seq<Transaction>) -> bool {
    forall|i: int|
        0 <= i < pending.len() ==> spec_sender_key_ok(#[trigger] pending[i].from@)
            && spec_signature_ok(pending[i])
}

/// Whether some transaction of `pool` carries the hash `hash`.
pub open spec fn spec_pool_has_hash(pool: Seq<Transaction>, hash: Seq<char>) -> bool {
    exists|i: int| 0 <= i < pool.len() && #[trigger] pool[i].hash@ == hash
}

/// No two transactions of the pool share a hash, and none of their hashes has
/// been mined.
pub open spec fn spec_pool_fresh(pool: Seq<Transaction>, used: Set<Seq<char>>) -> bool {
    &&& forall|i: int, j: int|
        0 <= i < j < pool.len() ==> #[trigger] pool[i].hash@ != #[trigger] pool[j].hash@
    &&& forall|i: int| 0 <= i < pool.len() ==> !used.contains(#[trigger] pool[i].hash@)
}

/// Why `add_transaction` refuses `tx` (the message of the first check that
/// fails), or `None` when it accepts it. A hash that has been mined, or that a
/// transaction waiting in the pool carries, is refused as a repeat.
pub open spec fn spec_rejection(
    used: Set<Seq<char>>,
    pool: Seq<Transaction>,
    balances: Map<Seq<char>, u64>,
    tx: Transaction,
) -> Option<Seq<char>> {
    if used.contains(tx.hash@) || spec_pool_has_hash(pool, tx.hash@) {
        Some("不可重复交易"@)
    } else if tx.amount == 0 {
        Some("转账金额不能为0"@)
    } else if !(balances.contains_key(tx.from@) && balances[tx.from@] >= tx.amount + tx.fee) {
        Some("余额不足！"@)
    } else if !spec_signature_ok(tx) {
        Some("签名无效!"@)
    } else {
        None
    }
}

/// Whether `add_transaction` reaches an answer on `tx`: wherever it gets that
/// far, amount plus fee fits in `u64` and the sender address decodes.
pub open spec fn spec_add_defined(
    used: Set<Seq<char>>,
    pool: Seq<Transaction>,
    balances: Map<Seq<char>, u64>,
    tx: Transaction,
) -> bool {
    (!used.contains(tx.hash@) && !spec_pool_has_hash(pool, tx.hash@) && tx.amount != 0) ==> {
        &&& tx.amount + tx.fee <= u64::MAX
        &&& (balances.contains_key(tx.from@) && balances[tx.from@] >= tx.amount + tx.fee)
            ==> spec_sender_key_ok(tx.from@)
    }
}

/// The amount a miner receives for a block.
pub const MINING_REWARD: u64 = 50;

/// What mining reads of a transaction: sender, receiver, amount, fee, hash.
pub open spec fn spec_tx_effect(tx: Transaction) -> (Seq<char>, Seq<char>, u64, u64, Seq<char>) {
    (tx.from@, tx.to@, tx.amount, tx.fee, tx.hash@)
}

/// What mining reads of the reward transaction for `miner`.
pub open spec fn spec_reward_effect(miner: Seq<char>) -> (Seq<char>, Seq<char>, u64, u64, Seq<char>) {
    ("coinbase"@, miner, MINING_REWARD, 0, spec_zero_hash())
}

/// Carries out one transaction while mining for `miner`: a reward credits the
/// miner with its amount; any other transaction is a transfer whose hash is
/// recorded as mined. `None` where the arithmetic would leave `u64`.
pub open spec fn spec_apply_effect(
    state: (Map<Seq<char>, u64>, Set<Seq<char>>),
    effect: (Seq<char>, Seq<char>, u64, u64, Seq<char>),
    miner: Seq<char>,
) -> Option<(Map<Seq<char>, u64>, Set<Seq<char>>)> {
    let (balances, used) = state;
    let (from, to, amount, fee, hash) = effect;
    if from == "coinbase"@ {
        let miner_balance = spec_balance(balances, miner);
        if miner_balance + amount <= u64::MAX {
            Some((balances.insert(miner, (miner_balance + amount) as u64), used))
        } else {
            None
        }
    } else if spec_transfer_fits(balances, from, to, amount, fee, miner) {
        Some((spec_transfer(balances, from, to, amount, fee, miner), used.insert(hash)))
    } else {
        None
    }
}

/// Carries out transactions in order; `None` if any step would overflow.
pub open spec fn spec_apply_effects(
    state: (Map<Seq<char>, u64>, Set<Seq<char>>),
    effects: Seq<(Seq<char>, Seq<char>, u64, u64, Seq<char>)>,
    miner: Seq<char>,
) -> Option<(Map<Seq<char>, u64>, Set<Seq<char>>)>
    decreases effects.len(),
{
    if effects.len() == 0 {
        Some(state)
    } else {
        match spec_apply_effects(state, effects.drop_last(), miner) {
            Some(s) => spec_apply_effect(s, effects.last(), miner),
            None => None,
        }
    }
}

/// The balances and mined hashes after mining `pending` for `miner`: first the
/// reward, then each pending transaction in order.
pub open spec fn spec_mining_outcome(
    balances: Map<Seq<char>, u64>,
    used: Set<Seq<char>>,
    pending: Seq<Transaction>,
    miner: Seq<char>,
) -> Option<(Map<Seq<char>, u64>, Set<Seq<char>>)> {
    spec_apply_effects(
        (balances, used),
        seq![spec_reward_effect(miner)] + pending.map_values(|tx: Transaction| spec_tx_effect(tx)),
        miner,
    )
}

/// Whether `tx` is the reward transaction that mining for `miner` at
/// `timestamp` puts first in its block.
pub open spec fn spec_is_reward(tx: Transaction, miner: Seq<char>, timestamp: u64) -> bool {
    &&& tx.from@ == "coinbase"@
    &&& tx.to@ == miner
    &&& tx.amount == MINING_REWARD
    &&& tx.timestamp == timestamp
    &&& tx.fee == 0
    &&& tx.signature@ == Seq::new(64, |i: int| 0u8)
    &&& tx.hash@ == spec_zero_hash()
}

/// The hashes of the transactions of `txs` that are not mining rewards.
pub open spec fn spec_tx_hashes(txs: Seq<Transaction>) -> Set<Seq<char>>
    decreases txs.len(),
{
    if txs.len() == 0 {
        Set::empty()
    } else if spec_is_coinbase(txs.last()) {
        spec_tx_hashes(txs.drop_last())
    } else {
        spec_tx_hashes(txs.drop_last()).insert(txs.last().hash@)
    }
}

/// The hashes of all transactions in `blocks` that are not mining rewards.
pub open spec fn spec_mined_hashes(blocks: Seq<Block>) -> Set<Seq<char>>
    decreases blocks.len(),
{
    if blocks.len() == 0 {
        Set::empty()
    } else {
        spec_mined_hashes(blocks.drop_last()).union(
            spec_tx_hashes(blocks.last().block_body.transactions@),
        )
    }
}

/// The hashes that carrying out `effects` records: those of the transfers.
pub open spec fn spec_effect_hashes(effects: Seq<(Seq<char>, Seq<char>, u64, u64, Seq<char>)>) -> Set<
    Seq<char>,
>
    decreases effects.len(),
{
    if effects.len() == 0 {
        Set::empty()
    } else if effects.last().0 == "coinbase"@ {
        spec_effect_hashes(effects.drop_last())
    } else {
        spec_effect_hashes(effects.drop_last()).insert(effects.last().4)
    }
}

/// The sum of the balances of `addresses`.
pub open spec fn spec_sum_balances(balances: Map<Seq<char>, u64>, addresses: Seq<Seq<char>>) -> int
    decreases addresses.len(),
{
    if addresses.len() == 0 {
        0
    } else {
        spec_sum_balances(balances, addresses.drop_last()) + spec_balance(
            balances,
            addresses.last(),
        )
    }
}

/// The amount that the rewards among `effects` create.
pub open spec fn spec_minted(effects: Seq<(Seq<char>, Seq<char>, u64, u64, Seq<char>)>) -> int
    decreases effects.len(),
{
    if effects.len() == 0 {
        0
    } else if effects.last().0 == "coinbase"@ {
        spec_minted(effects.drop_last()) + effects.last().2
    } else {
        spec_minted(effects.drop_last())
    }
}

/// Every transfer among `effects` is between three different addresses, all
/// of them in `addresses`.
pub open spec fn spec_transfers_within(
    effects: Seq<(Seq<char>, Seq<char>, u64, u64, Seq<char>)>,
    addresses: Seq<Seq<char>>,
    miner: Seq<char>,
) -> bool {
    forall|i: int|
        0 <= i < effects.len() && (#[trigger] effects[i]).0 != "coinbase"@ ==> {
            &&& addresses.contains(effects[i].0)
            &&& addresses.contains(effects[i].1)
            &&& effects[i].0 != effects[i].1
            &&& effects[i].0 != miner
            &&& effects[i].1 != miner
        }
}

/// A chain of blocks with a pool of transactions waiting to be mined.
pub struct BlockChain {
    /// The blocks, the genesis block first.
    pub chain: Vec<Block>,
    /// How many leading zeros proof of work asks of a block hash.
    pub difficulty: usize,
    /// Transactions accepted and waiting for the next block.
    pub pending_transactions: Vec<Transaction>,
    /// The balances.
    pub accounts: AccountManager,
    /// The hashes of the transactions that have been mined.
    pub used_tx_hashes: StringHashSet,
}

impl BlockChain {
    /// A chain that holds only a genesis block made at `timestamp`, with an
    /// empty pool, no accounts and no mined transactions.
    pub fn new_at(difficulty: usize, timestamp: u64) -> (res: Self)
        ensures
            res.chain@.len() == 1,
            res.chain@[0].block_header.index == 0,
            res.chain@[0].block_header.timestamp == timestamp,
            res.chain@[0].block_header.merkle@ == Seq::<char>::empty(),
            res.chain@[0].block_header.prev_hash@ == spec_zero_hash(),
            res.chain@[0].block_header.miner@ == Seq::<char>::empty(),
            res.chain@[0].block_body.transactions@.len() == 0,
            res.chain@[0].block_body.tx_count == 0,
            res.chain@[0].hash@ == spec_header_hash(res.chain@[0].block_header),
            spec_nonce_search(
                res.chain@[0].block_header,
                0,
                difficulty as nat,
                res.chain@[0].block_header.nonce,
            ),
            res.difficulty == difficulty,
            res.pending_transactions@.len() == 0,
            res.accounts.wf(),
            res.accounts@ == Map::<Seq<char>, u64>::empty(),
            res.used_tx_hashes@ == Set::<Seq<char>>::empty(),
            res.spec_consistent(),
    {
        let genesis = Block::genesis_at(difficulty, timestamp);
        let mut chain: Vec<Block> = Vec::new();
        chain.push(genesis);
        let res = BlockChain {
            chain,
            difficulty,
            pending_transactions: Vec::new(),
            accounts: AccountManager::new(),
            used_tx_hashes: StringHashSet::new(),
        };
        assert(res.chain@.drop_last() =~= Seq::<Block>::empty());
        assert(res.chain@.last().block_body.transactions@.len() == 0);
        assert(spec_tx_hashes(res.chain@.last().block_body.transactions@) =~= Set::<
            Seq<char>,
        >::empty());
        assert(spec_mined_hashes(res.chain@.drop_last()) =~= Set::<Seq<char>>::empty());
        assert(spec_mined_hashes(res.chain@) =~= Set::<Seq<char>>::empty());
        res
    }

    /// A new chain whose genesis block is made now: `new_at` with the current
    /// time, or `None` where the clock reads earlier than the Unix epoch.
    pub fn new(difficulty: usize) -> (res: Option<Self>)
        ensures
            res matches Some(bc) ==> {
                &&& bc.chain@.len() == 1
                &&& bc.chain@[0].block_header.index == 0
                &&& bc.chain@[0].block_header.merkle@ == Seq::<char>::empty()
                &&& bc.chain@[0].block_header.prev_hash@ == spec_zero_hash()
                &&& bc.chain@[0].block_header.miner@ == Seq::<char>::empty()
                &&& bc.chain@[0].block_body.transactions@.len() == 0
                &&& bc.chain@[0].block_body.tx_count == 0
                &&& bc.chain@[0].hash@ == spec_header_hash(bc.chain@[0].block_header)
                &&& spec_nonce_search(
                    bc.chain@[0].block_header,
                    0,
                    difficulty as nat,
                    bc.chain@[0].block_header.nonce,
                )
                &&& bc.difficulty == difficulty
                &&& bc.pending_transactions@.len() == 0
                &&& bc.accounts.wf()
                &&& bc.accounts@ == Map::<Seq<char>, u64>::empty()
                &&& bc.used_tx_hashes@ == Set::<Seq<char>>::empty()
                &&& bc.spec_consistent()
            },
    {
        match current_timestamp() {
            Some(timestamp) => Some(Self::new_at(difficulty, timestamp)),
            None => None,
        }
    }

    /// The chain is sound: it holds a block, every block after the genesis
    /// block passes its check, every pending transaction is signed, no hash is
    /// twice in the pool or both pooled and mined, and the recorded hashes are
    /// those of the transactions mined so far.
    pub open spec fn spec_consistent(&self) -> bool {
        &&& self.chain@.len() >= 1
        &&& spec_chain_check(self.chain@) == Some(true)
        &&& spec_pending_ok(self.pending_transactions@)
        &&& spec_pool_fresh(self.pending_transactions@, self.used_tx_hashes@)
        &&& self.used_tx_hashes@ == spec_mined_hashes(self.chain@)
        &&& self.accounts.wf()
    }

    /// Whether a transaction in the pool carries the hash `hash`.
    fn pool_has_hash(&self, hash: &str) -> (res: bool)
        ensures
            res == spec_pool_has_hash(self.pending_transactions@, hash@),
    {
        let n = self.pending_transactions.len();
        let mut i: usize = 0;
        while i < n
            invariant
                n == self.pending_transactions@.len(),
                i <= n,
                forall|k: int| 0 <= k < i ==> self.pending_transactions@[k].hash@ != hash@,
            decreases n - i,
        {
            if crate::text::str_equal(self.pending_transactions[i].hash.as_str(), hash) {
                return true;
            }
            i = i + 1;
        }
        false
    }

    /// Adds `transaction` to the pool after checking, in this order, that its
    /// hash has not been mined and is not carried by a transaction already in
    /// the pool, that its amount is not zero, that the sender
    /// has an account holding amount plus fee, and that its signature
    /// verifies; the first failed check is answered with its message.
    pub fn add_transaction(&mut self, transaction: Transaction) -> (res: Result<(), String>)
        requires
            spec_add_defined(
                old(self).used_tx_hashes@,
                old(self).pending_transactions@,
                old(self).accounts@,
                transaction,
            ),
        ensures
            res is Ok <==> spec_rejection(
                old(self).used_tx_hashes@,
                old(self).pending_transactions@,
                old(self).accounts@,
                transaction,
            )
                is None,
            res matches Err(message) ==> Some(message@) == spec_rejection(
                old(self).used_tx_hashes@,
                old(self).pending_transactions@,
                old(self).accounts@,
                transaction,
            ),
            res is Ok ==> final(self).pending_transactions@ == old(
                self,
            ).pending_transactions@.push(transaction),
            res is Err ==> final(self).pending_transactions == old(self).pending_transactions,
            final(self).chain == old(self).chain,
            final(self).difficulty == old(self).difficulty,
            final(self).accounts == old(self).accounts,
            final(self).used_tx_hashes == old(self).used_tx_hashes,
            old(self).spec_consistent() ==> final(self).spec_consistent(),
    {
        if self.used_tx_hashes.contains(transaction.hash.as_str()) || self.pool_has_hash(
            transaction.hash.as_str(),
        ) {
            return Err("不可重复交易".to_owned());
        }
        if transaction.amount == 0 {
            return Err("转账金额不能为0".to_owned());
        }
        if !self.accounts.has_sufficient_balance(
            transaction.from.as_str(),
            transaction.amount + transaction.fee,
        ) {
            return Err("余额不足！".to_owned());
        }
        if !transaction.verify_signature() {
            return Err("签名无效!".to_owned());
        }
        let ghost before = self.pending_transactions@;
        self.pending_transactions.push(transaction);
        proof {
            assert(spec_sender_key_ok(transaction.from@));
            if spec_pool_fresh(before, self.used_tx_hashes@) {
                assert forall|i: int, j: int|
                    0 <= i < j < self.pending_transactions@.len() implies #[trigger] self.pending_transactions@[i].hash@
                    != #[trigger] self.pending_transactions@[j].hash@ by {
                    assert(self.pending_transactions@[i] == before[i]);
                    if j < before.len() {
                        assert(self.pending_transactions@[j] == before[j]);
                    }
                }
                assert forall|i: int| 0 <= i < self.pending_transactions@.len() implies !self.used_tx_hashes@.contains(
                    #[trigger] self.pending_transactions@[i].hash@,
                ) by {
                    if i < before.len() {
                        assert(self.pending_transactions@[i] == before[i]);
                    }
                }
            }
            if spec_pending_ok(before) {
            assert forall|i: int| 0 <= i < self.pending_transactions@.len() implies spec_sender_key_ok(
                #[trigger] self.pending_transactions@[i].from@,
            ) && spec_signature_ok(self.pending_transactions@[i]) by {
                if i < before.len() {
                    assert(self.pending_transactions@[i] == before[i]);
                }
            }
            }
        }
        Ok(())
    }

    /// `add_transaction` where it reaches an answer, and `None`, with the chain
    /// unchanged, where it would not (amount plus fee overflowing, or a sender
    /// address that cannot be decoded).
    pub fn add_transaction_checked(&mut self, transaction: Transaction) -> (res: Option<
        Result<(), String>,
    >)
        ensures
            res is None <==> !spec_add_defined(
                old(self).used_tx_hashes@,
                old(self).pending_transactions@,
                old(self).accounts@,
                transaction,
            ),
            res is None ==> *final(self) == *old(self),
            res matches Some(r) ==> (r is Ok <==> spec_rejection(
                old(self).used_tx_hashes@,
                old(self).pending_transactions@,
                old(self).accounts@,
                transaction,
            ) is None),
            res matches Some(Err(message)) ==> Some(message@) == spec_rejection(
                old(self).used_tx_hashes@,
                old(self).pending_transactions@,
                old(self).accounts@,
                transaction,
            ),
            res matches Some(Ok(_)) ==> final(self).pending_transactions@ == old(
                self,
            ).pending_transactions@.push(transaction),
            res matches Some(Err(_)) ==> final(self).pending_transactions == old(
                self,
            ).pending_transactions,
            final(self).chain == old(self).chain,
            final(self).difficulty == old(self).difficulty,
            final(self).accounts == old(self).accounts,
            final(self).used_tx_hashes == old(self).used_tx_hashes,
            old(self).spec_consistent() ==> final(self).spec_consistent(),
    {
        let defined = if self.used_tx_hashes.contains(transaction.hash.as_str())
            || self.pool_has_hash(transaction.hash.as_str()) || transaction.amount == 0 {
            true
        } else if transaction.fee > u64::MAX - transaction.amount {
            false
        } else if self.accounts.has_sufficient_balance(
            transaction.from.as_str(),
            transaction.amount + transaction.fee,
        ) {
            transaction.has_valid_sender()
        } else {
            true
        };
        if defined {
            Some(self.add_transaction(transaction))
        } else {
            None
        }
    }

    /// Validates the chain as `is_valid` does, but answers `None` where
    /// `is_valid` would meet a sender address that cannot be decoded: for each
    /// block after the genesis block, the stored hash against the header hash
    /// with the Merkle root recomputed from the body, the link to the previous
    /// block's hash, and the signature of every transaction that is not a
    /// mining reward.
    pub fn is_valid_checked(&self) -> (res: Option<bool>)
        ensures
            res == spec_chain_check(self.chain@),
    {
        let n = self.chain.len();
        let coinbase: String = "coinbase".to_owned();
        let mut i: usize = 1;
        while i < n
            invariant
                n == self.chain@.len(),
                1 <= i,
                i >= n ==> spec_chain_check_from(self.chain@, i as int) == Some(true),
                coinbase@ == "coinbase"@,
                spec_chain_check(self.chain@) == spec_chain_check_from(self.chain@, i as int),
            decreases n - i,
        {
            let current_block = &self.chain[i];
            let header = &current_block.block_header;
            let recomputed = Block::calculate_hash_with_nonce(
                header.index,
                header.timestamp,
                &current_block.block_body.transactions,
                header.prev_hash.as_str(),
                header.nonce,
                header.miner.as_str(),
            );
            if !(current_block.hash == recomputed) {
                return Some(false);
            }
            if !(header.prev_hash == self.chain[i - 1].hash) {
                return Some(false);
            }
            let txs = &current_block.block_body.transactions;
            let m = txs.len();
            let mut j: usize = 0;
            assert(txs@.skip(0) =~= txs@);
            while j < m
                invariant
                    m == txs@.len(),
                    j <= m,
                    coinbase@ == "coinbase"@,
                    spec_chain_check(self.chain@) == match spec_txs_check(txs@) {
                        Some(true) => spec_chain_check_from(self.chain@, i + 1),
                        other => other,
                    },
                    spec_txs_check(txs@) == spec_txs_check(txs@.skip(j as int)),
                decreases m - j,
            {
                let tx = &txs[j];
                assert(txs@.skip(j as int)[0] == txs@[j as int]);
                assert(txs@.skip(j as int).drop_first() =~= txs@.skip(j + 1));
                if !(tx.from == coinbase) {
                    match tx.verify_signature_checked() {
                        None => {
                            return None;
                        },
                        Some(false) => {
                            return Some(false);
                        },
                        Some(true) => {},
                    }
                }
                j = j + 1;
            }
            assert(txs@.skip(m as int) =~= Seq::<Transaction>::empty());
            i = i + 1;
        }
        Some(true)
    }

    /// Whether the chain is intact: for each block after the genesis block, the
    /// stored hash matches the header hash with the Merkle root recomputed
    /// from the body, the block links to the previous block's hash, and every
    /// transaction that is not a mining reward carries a valid signature.
    pub fn is_valid(&self) -> (res: bool)
        requires
            spec_chain_check(self.chain@) is Some,
        ensures
            res == spec_chain_check(self.chain@)->0,
            self.spec_consistent() ==> res,
    {
        match self.is_valid_checked() {
            Some(valid) => valid,
            None => false,
        }
    }

    /// Mines the pool for `miner`: puts a reward of `MINING_REWARD` dated
    /// `coinbase_timestamp` in front of the pending transactions, carries them
    /// out in order (the reward credits the miner; every other transaction is
    /// a transfer whose fee goes to the miner and whose hash is recorded as
    /// mined), appends them as a block made at `block_timestamp`, and empties
    /// the pool.
    pub fn mine_pending_transactions_at(
        &mut self,
        miner: &str,
        coinbase_timestamp: u64,
        block_timestamp: u64,
    )
        requires
            old(self).accounts.wf(),
            old(self).chain@.len() > 0,
            old(self).chain@.last().block_header.index < u64::MAX,
            spec_mining_outcome(
                old(self).accounts@,
                old(self).used_tx_hashes@,
                old(self).pending_transactions@,
                miner@,
            ) is Some,
        ensures
            final(self).accounts.wf(),
            spec_mining_outcome(
                old(self).accounts@,
                old(self).used_tx_hashes@,
                old(self).pending_transactions@,
                miner@,
            ) == Some((final(self).accounts@, final(self).used_tx_hashes@)),
            final(self).pending_transactions@.len() == 0,
            final(self).chain@.len() == old(self).chain@.len() + 1,
            final(self).chain@.drop_last() == old(self).chain@,
            final(self).chain@.last().block_header.timestamp == block_timestamp,
            final(self).chain@.last().block_body.transactions@.len() == old(
                self,
            ).pending_transactions@.len() + 1,
            spec_is_reward(
                final(self).chain@.last().block_body.transactions@[0],
                miner@,
                coinbase_timestamp,
            ),
            final(self).chain@.last().block_body.transactions@.drop_first() == old(
                self,
            ).pending_transactions@,
            spec_block_follows(
                final(self).chain@.last(),
                old(self).chain@.last(),
                final(self).chain@.last().block_body.transactions@,
                old(self).difficulty as nat,
                miner@,
            ),
            final(self).difficulty == old(self).difficulty,
            old(self).spec_consistent() ==> final(self).spec_consistent(),
            spec_chain_check(old(self).chain@) == Some(true) && spec_pending_ok(
                old(self).pending_transactions@,
            ) ==> spec_chain_check(final(self).chain@) == Some(true),
    {
        let coinbase = Transaction {
            from: "coinbase".to_owned(),
            to: miner.to_owned(),
            amount: MINING_REWARD,
            timestamp: coinbase_timestamp,
            fee: 0,
            signature: [0u8; 64],
            hash: repeat_char('0', 64),
        };
        assert(coinbase.signature@ =~= Seq::new(64, |i: int| 0u8));
        let mut transactions: Vec<Transaction> = Vec::new();
        std::mem::swap(&mut transactions, &mut self.pending_transactions);
        transactions.insert(0, coinbase);
        let ghost init = (old(self).accounts@, old(self).used_tx_hashes@);
        let ghost effects = transactions@.map_values(|tx: Transaction| spec_tx_effect(tx));
        assert(effects =~= seq![spec_reward_effect(miner@)] + old(
            self,
        ).pending_transactions@.map_values(|tx: Transaction| spec_tx_effect(tx)));
        assert(transactions@.drop_first() =~= old(self).pending_transactions@);
        let coinbase_name: String = "coinbase".to_owned();
        let n = transactions.len();
        let mut i: usize = 0;
        assert(effects.take(0) =~= Seq::<(Seq<char>, Seq<char>, u64, u64, Seq<char>)>::empty());
        while i < n
            invariant
                n == transactions@.len(),
                effects == transactions@.map_values(|tx: Transaction| spec_tx_effect(tx)),
                i <= n,
                coinbase_name@ == "coinbase"@,
                self.accounts.wf(),
                spec_apply_effects(init, effects, miner@) is Some,
                spec_apply_effects(init, effects.take(i as int), miner@) == Some(
                    (self.accounts@, self.used_tx_hashes@),
                ),
                self.chain == old(self).chain,
                self.difficulty == old(self).difficulty,
                self.pending_transactions@.len() == 0,
            decreases n - i,
        {
            let x = &transactions[i];
            proof {
                lemma_apply_prefix(init, effects, miner@, i + 1);
                assert(effects.take(i + 1).drop_last() =~= effects.take(i as int));
                assert(effects.take(i + 1).last() == spec_tx_effect(*x));
            }
            if x.from == coinbase_name {
                let miner_balance = self.accounts.get_balance(miner);
                self.accounts.set_balance(miner, miner_balance + x.amount);
            } else {
                self.accounts.transfer(x.from.as_str(), x.to.as_str(), x.amount, x.fee, miner);
                self.used_tx_hashes.insert(x.hash.clone());
            }
            i = i + 1;
        }
        assert(effects.take(n as int) =~= effects);
        let ghost block_txs = transactions@;
        self.add_block_at(transactions, miner, block_timestamp);
        proof {
            if spec_chain_check(old(self).chain@) == Some(true) && spec_pending_ok(
                old(self).pending_transactions@,
            ) {
                assert(spec_is_coinbase(block_txs[0]));
                assert(block_txs.drop_first() =~= old(self).pending_transactions@);
                lemma_mined_block_keeps_chain_valid(
                    old(self).chain@,
                    self.chain@.last(),
                    old(self).pending_transactions@,
                    old(self).difficulty as nat,
                    miner@,
                );
                assert(self.chain@ =~= old(self).chain@.push(self.chain@.last()));
            }
            if old(self).spec_consistent() {
                lemma_pending_pass(old(self).pending_transactions@);
                assert(spec_is_coinbase(block_txs[0]));
                assert(block_txs.drop_first() =~= old(self).pending_transactions@);
                assert(spec_txs_check(block_txs) == Some(true));
                let last = self.chain@.last();
                assert(spec_block_check(old(self).chain@.last(), last) == Some(true));
                lemma_chain_check_push(old(self).chain@, last, 1);
                assert(self.chain@ =~= old(self).chain@.push(last));
                lemma_apply_records(init, effects, miner@);
                lemma_effect_hashes(block_txs);
                assert(self.chain@.drop_last() =~= old(self).chain@);
                assert(self.used_tx_hashes@ =~= spec_mined_hashes(self.chain@));
            }
        }
    }

    /// Mines the pool for `miner` with what the clock answered, once for the
    /// reward and once for the block: where both readings are times, exactly
    /// `mine_pending_transactions_at` at those times, whatever the pool holds
    /// (an empty pool gives a block holding only the reward), and `true`;
    /// where either reading failed, nothing changes and the answer is `false`.
    pub fn mine_pending_transactions_from_clock(
        &mut self,
        miner: &str,
        coinbase_reading: Option<u64>,
        block_reading: Option<u64>,
    ) -> (mined: bool)
        requires
            old(self).accounts.wf(),
            old(self).chain@.len() > 0,
            old(self).chain@.last().block_header.index < u64::MAX,
            spec_mining_outcome(
                old(self).accounts@,
                old(self).used_tx_hashes@,
                old(self).pending_transactions@,
                miner@,
            ) is Some,
        ensures
            mined == (coinbase_reading is Some && block_reading is Some),
            !mined ==> *final(self) == *old(self),
            final(self).accounts.wf(),
            final(self).difficulty == old(self).difficulty,
            old(self).spec_consistent() ==> final(self).spec_consistent(),
            spec_chain_check(old(self).chain@) == Some(true) && spec_pending_ok(
                old(self).pending_transactions@,
            ) ==> spec_chain_check(final(self).chain@) == Some(true),
            mined ==> {
                &&& spec_mining_outcome(
                    old(self).accounts@,
                    old(self).used_tx_hashes@,
                    old(self).pending_transactions@,
                    miner@,
                ) == Some((final(self).accounts@, final(self).used_tx_hashes@))
                &&& final(self).pending_transactions@.len() == 0
                &&& final(self).chain@.len() == old(self).chain@.len() + 1
                &&& final(self).chain@.drop_last() == old(self).chain@
                &&& final(self).chain@.last().block_header.timestamp == block_reading->0
                &&& final(self).chain@.last().block_body.transactions@.len() == old(
                    self,
                ).pending_transactions@.len() + 1
                &&& spec_is_reward(
                    final(self).chain@.last().block_body.transactions@[0],
                    miner@,
                    coinbase_reading->0,
                )
                &&& final(self).chain@.last().block_body.transactions@.drop_first() == old(
                    self,
                ).pending_transactions@
                &&& spec_block_follows(
                    final(self).chain@.last(),
                    old(self).chain@.last(),
                    final(self).chain@.last().block_body.transactions@,
                    old(self).difficulty as nat,
                    miner@,
                )
            },
    {
        match (coinbase_reading, block_reading) {
            (Some(coinbase_timestamp), Some(block_timestamp)) => {
                self.mine_pending_transactions_at(miner, coinbase_timestamp, block_timestamp);
                true
            },
            _ => false,
        }
    }

    /// Mines the pool for `miner` now: `mine_pending_transactions_from_clock`
    /// with the clock read once for the reward and once for the block. Where
    /// the clock reads earlier than the Unix epoch, nothing changes and the
    /// answer is `false`.
    pub fn mine_pending_transactions(&mut self, miner: &str) -> (mined: bool)
        requires
            old(self).accounts.wf(),
            old(self).chain@.len() > 0,
            old(self).chain@.last().block_header.index < u64::MAX,
            spec_mining_outcome(
                old(self).accounts@,
                old(self).used_tx_hashes@,
                old(self).pending_transactions@,
                miner@,
            ) is Some,
        ensures
            !mined ==> *final(self) == *old(self),
            final(self).accounts.wf(),
            final(self).difficulty == old(self).difficulty,
            old(self).spec_consistent() ==> final(self).spec_consistent(),
            spec_chain_check(old(self).chain@) == Some(true) && spec_pending_ok(
                old(self).pending_transactions@,
            ) ==> spec_chain_check(final(self).chain@) == Some(true),
            mined ==> {
                &&& spec_mining_outcome(
                    old(self).accounts@,
                    old(self).used_tx_hashes@,
                    old(self).pending_transactions@,
                    miner@,
                ) == Some((final(self).accounts@, final(self).used_tx_hashes@))
                &&& final(self).pending_transactions@.len() == 0
                &&& final(self).chain@.len() == old(self).chain@.len() + 1
                &&& final(self).chain@.drop_last() == old(self).chain@
                &&& final(self).chain@.last().block_body.transactions@.len() == old(
                    self,
                ).pending_transactions@.len() + 1
                &&& spec_is_reward(
                    final(self).chain@.last().block_body.transactions@[0],
                    miner@,
                    final(self).chain@.last().block_body.transactions@[0].timestamp,
                )
                &&& final(self).chain@.last().block_body.transactions@.drop_first() == old(
                    self,
                ).pending_transactions@
                &&& spec_block_follows(
                    final(self).chain@.last(),
                    old(self).chain@.last(),
                    final(self).chain@.last().block_body.transactions@,
                    old(self).difficulty as nat,
                    miner@,
                )
            },
    {
        let coinbase_reading = current_timestamp();
        let block_reading = current_timestamp();
        self.mine_pending_transactions_from_clock(miner, coinbase_reading, block_reading)
    }

    /// The balance of `address` as the ledger would read with the balances of
    /// `overlay` written over it.
    fn overlay_balance(&self, overlay: &StringHashMap<u64>, address: &str) -> (res: u64)
        ensures
            res == spec_balance(self.accounts@.union_prefer_right(overlay@), address@),
    {
        match overlay.get(address) {
            Some(balance) => *balance,
            None => self.accounts.get_balance(address),
        }
    }

    /// Whether `mine_pending_transactions` can run for `miner`: the chain has a
    /// last block whose height can grow, and the reward and every pending
    /// transfer, carried out in order, keep every balance within `u64`. No
    /// balance is changed.
    pub fn can_mine(&self, miner: &str) -> (res: bool)
        ensures
            res == (self.chain@.len() > 0 && self.chain@.last().block_header.index < u64::MAX
                && spec_mining_outcome(
                self.accounts@,
                self.used_tx_hashes@,
                self.pending_transactions@,
                miner@,
            ) is Some),
    {
        let len = self.chain.len();
        if len == 0 || self.chain[len - 1].block_header.index == u64::MAX {
            return false;
        }
        let ghost init = (self.accounts@, self.used_tx_hashes@);
        let ghost effects = seq![spec_reward_effect(miner@)] + self.pending_transactions@.map_values(
            |tx: Transaction| spec_tx_effect(tx),
        );
        let mut overlay: StringHashMap<u64> = StringHashMap::new();
        let reward_balance = self.accounts.get_balance(miner);
        proof {
            assert(effects.take(1).drop_last() =~= Seq::<(Seq<char>, Seq<char>, u64, u64, Seq<char>)>::empty());
            assert(effects.take(1).last() == spec_reward_effect(miner@));
            assert(spec_apply_effects(init, effects.take(1).drop_last(), miner@) == Some(init));
            assert(spec_apply_effects(init, effects.take(1), miner@) == spec_apply_effect(
                init,
                spec_reward_effect(miner@),
                miner@,
            ));
        }
        if reward_balance > u64::MAX - MINING_REWARD {
            proof {
                lemma_apply_prefix_none(init, effects, miner@, 1);
            }
            return false;
        }
        overlay.insert(miner.to_owned(), reward_balance + MINING_REWARD);
        assert(self.accounts@.union_prefer_right(overlay@) =~= self.accounts@.insert(
            miner@,
            (reward_balance + MINING_REWARD) as u64,
        ));
        let coinbase_name: String = "coinbase".to_owned();
        let n = self.pending_transactions.len();
        let mut i: usize = 0;
        while i < n
            invariant
                n == self.pending_transactions@.len(),
                effects == seq![spec_reward_effect(miner@)] + self.pending_transactions@.map_values(
                    |tx: Transaction| spec_tx_effect(tx),
                ),
                i <= n,
                coinbase_name@ == "coinbase"@,
                init == (self.accounts@, self.used_tx_hashes@),
                spec_apply_effects(init, effects.take(i + 1), miner@) is Some,
                (spec_apply_effects(init, effects.take(i + 1), miner@)->0).0
                    == self.accounts@.union_prefer_right(overlay@),
            decreases n - i,
        {
            let x = &self.pending_transactions[i];
            let ghost state = spec_apply_effects(init, effects.take(i + 1), miner@)->0;
            proof {
                assert(effects.take(i + 2).drop_last() =~= effects.take(i + 1));
                assert(effects.take(i + 2).last() == spec_tx_effect(*x));
                assert(spec_apply_effects(init, effects.take(i + 2), miner@) == spec_apply_effect(
                    state,
                    spec_tx_effect(*x),
                    miner@,
                ));
            }
            if x.from == coinbase_name {
                let miner_balance = self.overlay_balance(&overlay, miner);
                if miner_balance > u64::MAX - x.amount {
                    proof {
                        lemma_apply_prefix_none(init, effects, miner@, i + 2);
                    }
                    return false;
                }
                overlay.insert(miner.to_owned(), miner_balance + x.amount);
                assert(self.accounts@.union_prefer_right(overlay@) =~= state.0.insert(
                    miner@,
                    (miner_balance + x.amount) as u64,
                ));
            } else {
                let from_balance = self.overlay_balance(&overlay, x.from.as_str());
                let to_balance = self.overlay_balance(&overlay, x.to.as_str());
                let miner_balance = self.overlay_balance(&overlay, miner);
                if from_balance < x.amount || from_balance - x.amount < x.fee || to_balance
                    > u64::MAX - x.amount || miner_balance > u64::MAX - x.fee {
                    proof {
                        lemma_apply_prefix_none(init, effects, miner@, i + 2);
                    }
                    return false;
                }
                overlay.insert(x.from.clone(), from_balance - x.amount - x.fee);
                overlay.insert(x.to.clone(), to_balance + x.amount);
                overlay.insert(miner.to_owned(), miner_balance + x.fee);
                assert(self.accounts@.union_prefer_right(overlay@) =~= spec_transfer(
                    state.0,
                    x.from@,
                    x.to@,
                    x.amount,
                    x.fee,
                    miner@,
                ));
            }
            i = i + 1;
        }
        assert(effects.take(n + 1) =~= effects);
        true
    }

    /// A chain assembled from its parts, as read back from storage: the
    /// recorded hashes are rebuilt as those of every transaction in `chain`
    /// that is not a mining reward.
    pub fn from_parts(
        chain: Vec<Block>,
        difficulty: usize,
        pending_transactions: Vec<Transaction>,
        accounts: AccountManager,
    ) -> (res: Self)
        ensures
            res.chain == chain,
            res.difficulty == difficulty,
            res.pending_transactions == pending_transactions,
            res.accounts == accounts,
            res.used_tx_hashes@ == spec_mined_hashes(chain@),
    {
        let mut used = StringHashSet::new();
        let coinbase_name: String = "coinbase".to_owned();
        let n = chain.len();
        let mut i: usize = 0;
        assert(chain@.take(0) =~= Seq::<Block>::empty());
        while i < n
            invariant
                n == chain@.len(),
                i <= n,
                coinbase_name@ == "coinbase"@,
                used@ == spec_mined_hashes(chain@.take(i as int)),
            decreases n - i,
        {
            let txs = &chain[i].block_body.transactions;
            let m = txs.len();
            let mut j: usize = 0;
            let ghost before = used@;
            assert(txs@.take(0) =~= Seq::<Transaction>::empty());
            assert(before.union(spec_tx_hashes(txs@.take(0))) =~= before);
            while j < m
                invariant
                    m == txs@.len(),
                    j <= m,
                    coinbase_name@ == "coinbase"@,
                    used@ == before.union(spec_tx_hashes(txs@.take(j as int))),
                decreases m - j,
            {
                let tx = &txs[j];
                assert(txs@.take(j + 1).drop_last() =~= txs@.take(j as int));
                assert(txs@.take(j + 1).last() == *tx);
                if !(tx.from == coinbase_name) {
                    used.insert(tx.hash.clone());
                    assert(used@ =~= before.union(spec_tx_hashes(txs@.take(j + 1))));
                }
                j = j + 1;
            }
            assert(txs@.take(m as int) =~= txs@);
            assert(chain@.take(i + 1).drop_last() =~= chain@.take(i as int));
            i = i + 1;
        }
        assert(chain@.take(n as int) =~= chain@);
        BlockChain { chain, difficulty, pending_transactions, accounts, used_tx_hashes: used }
    }

    /// The last block.
    pub fn latest_block(&self) -> (res: &Block)
        requires
            self.chain@.len() > 0,
        ensures
            *res == self.chain@.last(),
    {
        &self.chain[self.chain.len() - 1]
    }

    /// Appends a block made at `timestamp` on top of the last one, holding
    /// `transactions` and credited to `miner`, at the chain's difficulty.
    pub fn add_block_at(&mut self, transactions: Vec<Transaction>, miner: &str, timestamp: u64)
        requires
            old(self).chain@.len() > 0,
            old(self).chain@.last().block_header.index < u64::MAX,
        ensures
            final(self).chain@.len() == old(self).chain@.len() + 1,
            final(self).chain@.drop_last() == old(self).chain@,
            final(self).chain@.last().block_header.timestamp == timestamp,
            spec_block_follows(
                final(self).chain@.last(),
                old(self).chain@.last(),
                transactions@,
                old(self).difficulty as nat,
                miner@,
            ),
            final(self).difficulty == old(self).difficulty,
            final(self).pending_transactions == old(self).pending_transactions,
            final(self).accounts == old(self).accounts,
            final(self).used_tx_hashes == old(self).used_tx_hashes,
    {
        let block = {
            let prev_block = self.latest_block();
            Block::new_at(prev_block, transactions, self.difficulty, miner.to_owned(), timestamp)
        };
        self.chain.push(block);
        assert(self.chain@.drop_last() =~= old(self).chain@);
    }

    /// Appends a block made now: `add_block_at` with the current time. Where
    /// the clock reads earlier than the Unix epoch, nothing changes and the
    /// answer is `false`.
    pub fn add_block(&mut self, transactions: Vec<Transaction>, miner: &str) -> (added: bool)
        requires
            old(self).chain@.len() > 0,
            old(self).chain@.last().block_header.index < u64::MAX,
        ensures
            !added ==> *final(self) == *old(self),
            added ==> {
                &&& final(self).chain@.len() == old(self).chain@.len() + 1
                &&& final(self).chain@.drop_last() == old(self).chain@
                &&& spec_block_follows(
                    final(self).chain@.last(),
                    old(self).chain@.last(),
                    transactions@,
                    old(self).difficulty as nat,
                    miner@,
                )
                &&& final(self).difficulty == old(self).difficulty
                &&& final(self).pending_transactions == old(self).pending_transactions
                &&& final(self).accounts == old(self).accounts
                &&& final(self).used_tx_hashes == old(self).used_tx_hashes
            },
    {
        match current_timestamp() {
            Some(timestamp) => {
                self.add_block_at(transactions, miner, timestamp);
                true
            },
            None => false,
        }
    }

    /// The number of blocks.
    pub fn block_count(&self) -> (res: usize)
        ensures
            res == self.chain@.len(),
    {
        self.chain.len()
    }

    /// The number of transactions over all blocks.
    pub fn total_data_size(&self) -> (res: usize)
        requires
            spec_total_txs(self.chain@) <= usize::MAX,
        ensures
            res == spec_total_txs(self.chain@),
    {
        let n = self.chain.len();
        let mut total: usize = 0;
        let mut i: usize = 0;
        while i < n
            invariant
                n == self.chain@.len(),
                i <= n,
                total == spec_total_txs(self.chain@.take(i as int)),
                spec_total_txs(self.chain@) <= usize::MAX,
            decreases n - i,
        {
            proof {
                assert(self.chain@.take(i + 1).drop_last() =~= self.chain@.take(i as int));
                lemma_total_txs_prefix(self.chain@, i + 1);
            }
            total = total + self.chain[i].block_body.transactions.len();
            i = i + 1;
        }
        assert(self.chain@.take(n as int) =~= self.chain@);
        total
    }

    /// Every transaction in the chain whose sender or receiver is `address`,
    /// in the order of the chain.
    pub fn get_transaction_history(&self, address: &str) -> (res: Vec<&Transaction>)
        ensures
            res@.map_values(|tx: &Transaction| *tx) == spec_history(self.chain@, address@),
            res@.map_values(|tx: &Transaction| *tx) == spec_chain_txs(self.chain@).filter(
                |tx: Transaction| tx.from@ == address@ || tx.to@ == address@,
            ),
    {
        let mut history: Vec<&Transaction> = Vec::new();
        let n = self.chain.len();
        let mut i: usize = 0;
        while i < n
            invariant
                n == self.chain@.len(),
                i <= n,
                history@.map_values(|tx: &Transaction| *tx) == spec_history(
                    self.chain@.take(i as int),
                    address@,
                ),
            decreases n - i,
        {
            let block = &self.chain[i];
            let txs = &block.block_body.transactions;
            let m = txs.len();
            let mut j: usize = 0;
            let ghost before = history@.map_values(|tx: &Transaction| *tx);
            while j < m
                invariant
                    m == txs@.len(),
                    j <= m,
                    history@.map_values(|tx: &Transaction| *tx) == before + spec_txs_involving(
                        txs@.take(j as int),
                        address@,
                    ),
                decreases m - j,
            {
                let tx = &txs[j];
                let ghost prev = history@;
                assert(txs@.take(j + 1).drop_last() =~= txs@.take(j as int));
                if crate::text::str_equal(tx.from.as_str(), address) || crate::text::str_equal(
                    tx.to.as_str(),
                    address,
                ) {
                    history.push(tx);
                    assert(history@.map_values(|tx: &Transaction| *tx) =~= prev.map_values(
                        |tx: &Transaction| *tx,
                    ).push(*tx));
                }
                j = j + 1;
            }
            assert(txs@.take(m as int) =~= txs@);
            assert(self.chain@.take(i + 1).drop_last() =~= self.chain@.take(i as int));
            i = i + 1;
        }
        assert(self.chain@.take(n as int) =~= self.chain@);
        proof {
            lemma_history_filter_by(
                self.chain@,
                address@,
                |tx: Transaction| tx.from@ == address@ || tx.to@ == address@,
            );
        }
        history
    }
}

/// Each transaction of `txs` that is not a mining reward has its hash among
/// their hashes.
proof fn lemma_tx_hash_recorded(txs: Seq<Transaction>, j: int)
    requires
        0 <= j < txs.len(),
        !spec_is_coinbase(txs[j]),
    ensures
        spec_tx_hashes(txs).contains(txs[j].hash@),
    decreases txs.len(),
{
    if j < txs.len() - 1 {
        assert(txs.drop_last()[j] == txs[j]);
        lemma_tx_hash_recorded(txs.drop_last(), j);
    }
}

/// The hashes of the transfers in block `i` are among those of the chain.
proof fn lemma_block_hashes_recorded(blocks: Seq<Block>, i: int, hash: Seq<char>)
    requires
        0 <= i < blocks.len(),
        spec_tx_hashes(blocks[i].block_body.transactions@).contains(hash),
    ensures
        spec_mined_hashes(blocks).contains(hash),
    decreases blocks.len(),
{
    if i < blocks.len() - 1 {
        assert(blocks.drop_last()[i] == blocks[i]);
        lemma_block_hashes_recorded(blocks.drop_last(), i, hash);
    }
}

/// Replay protection: in a consistent chain, a transaction that has been mined
/// (and is not a mining reward) is refused as a duplicate if it is offered to
/// `add_transaction` again.
pub proof fn lemma_mined_transaction_refused(bc: BlockChain, i: int, j: int)
    requires
        bc.spec_consistent(),
        0 <= i < bc.chain@.len(),
        0 <= j < bc.chain@[i].block_body.transactions@.len(),
        !spec_is_coinbase(bc.chain@[i].block_body.transactions@[j]),
    ensures
        spec_add_defined(
            bc.used_tx_hashes@,
            bc.pending_transactions@,
            bc.accounts@,
            bc.chain@[i].block_body.transactions@[j],
        ),
        spec_rejection(
            bc.used_tx_hashes@,
            bc.pending_transactions@,
            bc.accounts@,
            bc.chain@[i].block_body.transactions@[j],
        ) == Some("不可重复交易"@),
{
    let tx = bc.chain@[i].block_body.transactions@[j];
    lemma_tx_hash_recorded(bc.chain@[i].block_body.transactions@, j);
    lemma_block_hashes_recorded(bc.chain@, i, tx.hash@);
}

/// In a chain that passes from block `k` on, each block from `k` on passes
/// its check against the one before it.
proof fn lemma_chain_check_each(blocks: Seq<Block>, k: int, i: int)
    requires
        1 <= k <= i < blocks.len(),
        spec_chain_check_from(blocks, k) == Some(true),
    ensures
        spec_block_check(blocks[i - 1], blocks[i]) == Some(true),
    decreases i - k,
{
    assert(spec_block_check(blocks[k - 1], blocks[k]) == Some(true));
    if k < i {
        assert(spec_chain_check_from(blocks, k + 1) == Some(true));
        lemma_chain_check_each(blocks, k + 1, i);
    }
}

/// Replacing block `i` of a passing chain by a block that fails its check
/// against block `i - 1` makes the chain fail, from any earlier start.
proof fn lemma_chain_check_fails_at(blocks: Seq<Block>, block: Block, i: int, k: int)
    requires
        1 <= k <= i < blocks.len(),
        spec_chain_check_from(blocks, k) == Some(true),
        spec_block_check(blocks[i - 1], block) == Some(false),
    ensures
        spec_chain_check_from(blocks.update(i, block), k) == Some(false),
    decreases i - k,
{
    let updated = blocks.update(i, block);
    assert(updated[i - 1] == blocks[i - 1]);
    if k < i {
        assert(updated[k - 1] == blocks[k - 1]);
        assert(updated[k] == blocks[k]);
        assert(spec_block_check(blocks[k - 1], blocks[k]) == Some(true));
        assert(spec_chain_check_from(blocks, k + 1) == Some(true));
        lemma_chain_check_fails_at(blocks, block, i, k + 1);
    } else {
        assert(updated[i] == block);
    }
}

/// Tamper detection: in a chain that validates, changing the stored hash of
/// any block after the genesis block, and nothing else, makes validation fail.
pub proof fn lemma_forged_hash_detected(blocks: Seq<Block>, i: int, forged: Block)
    requires
        spec_chain_check(blocks) == Some(true),
        1 <= i < blocks.len(),
        forged.block_header == blocks[i].block_header,
        forged.block_body == blocks[i].block_body,
        forged.hash@ != blocks[i].hash@,
    ensures
        spec_chain_check(blocks.update(i, forged)) == Some(false),
{
    lemma_chain_check_each(blocks, 1, i);
    lemma_chain_check_fails_at(blocks, forged, i, 1);
}

/// Tamper detection: in a chain that validates, putting in place of any block
/// after the genesis block a block whose previous hash is not the hash of the
/// block before it makes validation fail.
pub proof fn lemma_broken_link_detected(blocks: Seq<Block>, i: int, block: Block)
    requires
        spec_chain_check(blocks) == Some(true),
        1 <= i < blocks.len(),
        block.block_header.prev_hash@ != blocks[i - 1].hash@,
    ensures
        spec_chain_check(blocks.update(i, block)) == Some(false),
{
    lemma_chain_check_fails_at(blocks, block, i, 1);
}

/// Validation commits to block bodies: in a chain that validates, every block
/// after the genesis block stores as its hash the block hash over its header
/// fields with the Merkle root computed from its own transactions (not the
/// root its header records), and names the hash of the block before it.
pub proof fn lemma_valid_chain_commits_to_bodies(blocks: Seq<Block>, i: int)
    requires
        spec_chain_check(blocks) == Some(true),
        1 <= i < blocks.len(),
    ensures
        blocks[i].hash@ == spec_block_hash(
            blocks[i].block_header.index,
            blocks[i].block_header.timestamp,
            spec_merkle_root(blocks[i].block_body.transactions@),
            blocks[i].block_header.prev_hash@,
            blocks[i].block_header.nonce,
            blocks[i].block_header.miner@,
        ),
        blocks[i].block_header.prev_hash@ == blocks[i - 1].hash@,
{
    lemma_chain_check_each(blocks, 1, i);
}

/// Tamper detection for block bodies: in a chain that validates, putting in
/// place of a block after the genesis block one with the same header and
/// stored hash but a transaction list whose Merkle root does not hash, with
/// that header, to the stored hash makes validation fail.
pub proof fn lemma_altered_body_detected(blocks: Seq<Block>, i: int, altered: Block)
    requires
        spec_chain_check(blocks) == Some(true),
        1 <= i < blocks.len(),
        altered.block_header == blocks[i].block_header,
        altered.hash == blocks[i].hash,
        spec_block_hash(
            altered.block_header.index,
            altered.block_header.timestamp,
            spec_merkle_root(altered.block_body.transactions@),
            altered.block_header.prev_hash@,
            altered.block_header.nonce,
            altered.block_header.miner@,
        ) != blocks[i].hash@,
    ensures
        spec_chain_check(blocks.update(i, altered)) == Some(false),
{
    lemma_chain_check_fails_at(blocks, altered, i, 1);
}

/// The transactions of `blocks`, block after block, each block's in order.
pub open spec fn spec_chain_txs(blocks: Seq<Block>) -> Seq<Transaction>
    decreases blocks.len(),
{
    if blocks.len() == 0 {
        seq![]
    } else {
        spec_chain_txs(blocks.drop_last()) + blocks.last().block_body.transactions@
    }
}

/// Filtering a concatenation filters each part.
proof fn lemma_filter_concat(
    s: Seq<Transaction>,
    t: Seq<Transaction>,
    pred: spec_fn(Transaction) -> bool,
)
    ensures
        (s + t).filter(pred) == s.filter(pred) + t.filter(pred),
    decreases t.len(),
{
    if t.len() == 0 {
        assert(s + t =~= s);
        assert(t.filter(pred) =~= t) by {
            reveal(Seq::filter);
        }
        assert(s.filter(pred) + t.filter(pred) =~= s.filter(pred));
    } else {
        let u = t.drop_last();
        let x = t.last();
        lemma_filter_concat(s, u, pred);
        assert(s + t =~= (s + u).push(x));
        assert(t =~= u.push(x));
        (s + u).lemma_filter_push(x, pred);
        u.lemma_filter_push(x, pred);
        if pred(x) {
            assert((s.filter(pred) + u.filter(pred)).push(x) =~= s.filter(pred) + u.filter(
                pred,
            ).push(x));
        }
    }
}

/// The transactions of `txs` involving `address` are those whose sender or
/// receiver is `address`.
proof fn lemma_txs_involving_filter(
    txs: Seq<Transaction>,
    address: Seq<char>,
    pred: spec_fn(Transaction) -> bool,
)
    requires
        forall|tx: Transaction| #[trigger] pred(tx) == (tx.from@ == address || tx.to@ == address),
    ensures
        spec_txs_involving(txs, address) == txs.filter(pred),
    decreases txs.len(),
{
    if txs.len() == 0 {
        assert(txs.filter(pred) =~= txs) by {
            reveal(Seq::filter);
        }
    } else {
        let u = txs.drop_last();
        lemma_txs_involving_filter(u, address, pred);
        assert(txs =~= u.push(txs.last()));
        u.lemma_filter_push(txs.last(), pred);
        assert(pred(txs.last()) == spec_involves(txs.last(), address));
    }
}

/// The history of `address` is the chain's transactions filtered by any
/// predicate that holds exactly where the sender or the receiver is `address`.
proof fn lemma_history_filter_by(
    blocks: Seq<Block>,
    address: Seq<char>,
    pred: spec_fn(Transaction) -> bool,
)
    requires
        forall|tx: Transaction| #[trigger] pred(tx) == (tx.from@ == address || tx.to@ == address),
    ensures
        spec_history(blocks, address) == spec_chain_txs(blocks).filter(pred),
    decreases blocks.len(),
{
    if blocks.len() == 0 {
        assert(spec_chain_txs(blocks).filter(pred) =~= seq![]) by {
            reveal(Seq::filter);
        }
    } else {
        lemma_history_filter_by(blocks.drop_last(), address, pred);
        lemma_txs_involving_filter(blocks.last().block_body.transactions@, address, pred);
        lemma_filter_concat(
            spec_chain_txs(blocks.drop_last()),
            blocks.last().block_body.transactions@,
            pred,
        );
    }
}

/// The history of an address is complete and exact: it is the chain's
/// transactions, in chain order, kept exactly where the sender or the receiver
/// is that address, whatever the amount.
pub proof fn lemma_history_is_the_address_filter(blocks: Seq<Block>, address: Seq<char>)
    ensures
        spec_history(blocks, address) == spec_chain_txs(blocks).filter(
            |tx: Transaction| tx.from@ == address || tx.to@ == address,
        ),
{
    lemma_history_filter_by(
        blocks,
        address,
        |tx: Transaction| tx.from@ == address || tx.to@ == address,
    );
}

/// Mining an empty pool still pays the reward: the miner's balance grows by
/// `MINING_REWARD` (an address without an account starts from zero), no other
/// balance changes, and no hash is recorded as mined.
pub proof fn lemma_mining_empty_pool(
    balances: Map<Seq<char>, u64>,
    used: Set<Seq<char>>,
    miner: Seq<char>,
)
    requires
        spec_balance(balances, miner) + MINING_REWARD <= u64::MAX,
    ensures
        spec_mining_outcome(balances, used, seq![], miner) == Some(
            (balances.insert(miner, (spec_balance(balances, miner) + MINING_REWARD) as u64), used),
        ),
{
    reveal_with_fuel(spec_apply_effects, 2);
}

/// Acceptance reads only the sender's balance: two ledgers that agree on the
/// sender's account give `add_transaction` the same answer on the same
/// transaction, pool and mined hashes, whatever they hold for the receiver
/// or anyone else.
pub proof fn lemma_acceptance_reads_only_the_sender(
    used: Set<Seq<char>>,
    pool: Seq<Transaction>,
    balances: Map<Seq<char>, u64>,
    other: Map<Seq<char>, u64>,
    tx: Transaction,
)
    requires
        balances.contains_key(tx.from@) == other.contains_key(tx.from@),
        balances.contains_key(tx.from@) ==> balances[tx.from@] == other[tx.from@],
    ensures
        spec_rejection(used, pool, balances, tx) == spec_rejection(used, pool, other, tx),
        spec_add_defined(used, pool, balances, tx) == spec_add_defined(used, pool, other, tx),
{
}

/// A fresh, non-zero, signed transfer from a sender holding amount plus fee is
/// accepted, whether or not the receiver has an account.
pub proof fn lemma_covered_transfer_accepted(
    used: Set<Seq<char>>,
    pool: Seq<Transaction>,
    balances: Map<Seq<char>, u64>,
    tx: Transaction,
)
    requires
        !used.contains(tx.hash@),
        forall|k: int| 0 <= k < pool.len() ==> #[trigger] pool[k].hash@ != tx.hash@,
        tx.amount != 0,
        balances.contains_key(tx.from@),
        balances[tx.from@] >= tx.amount + tx.fee,
        spec_signature_ok(tx),
    ensures
        spec_rejection(used, pool, balances, tx) is None,
{
}

/// Replay protection at the pool: a transaction whose hash a transaction in
/// the pool already carries is refused as a repeat.
pub proof fn lemma_pooled_transaction_refused(
    used: Set<Seq<char>>,
    pool: Seq<Transaction>,
    balances: Map<Seq<char>, u64>,
    tx: Transaction,
    k: int,
)
    requires
        0 <= k < pool.len(),
        pool[k].hash@ == tx.hash@,
    ensures
        spec_add_defined(used, pool, balances, tx),
        spec_rejection(used, pool, balances, tx) == Some("不可重复交易"@),
{
    assert(spec_pool_has_hash(pool, tx.hash@));
}

/// The hash of a transfer among `effects` is among the hashes they record.
proof fn lemma_effect_hash_recorded(effects: Seq<(Seq<char>, Seq<char>, u64, u64, Seq<char>)>, m: int)
    requires
        0 <= m < effects.len(),
        effects[m].0 != "coinbase"@,
    ensures
        spec_effect_hashes(effects).contains(effects[m].4),
    decreases effects.len(),
{
    if m < effects.len() - 1 {
        assert(effects.drop_last()[m] == effects[m]);
        lemma_effect_hash_recorded(effects.drop_last(), m);
    }
}

/// Replay protection after mining: once the pool has been mined, each of its
/// transactions that is not a reward is refused as a repeat, whatever pool
/// and balances follow.
pub proof fn lemma_mined_pool_refused(
    balances: Map<Seq<char>, u64>,
    used: Set<Seq<char>>,
    pending: Seq<Transaction>,
    miner: Seq<char>,
    k: int,
    later_pool: Seq<Transaction>,
    later_balances: Map<Seq<char>, u64>,
)
    requires
        spec_mining_outcome(balances, used, pending, miner) is Some,
        0 <= k < pending.len(),
        !spec_is_coinbase(pending[k]),
    ensures
        spec_add_defined(
            (spec_mining_outcome(balances, used, pending, miner)->0).1,
            later_pool,
            later_balances,
            pending[k],
        ),
        spec_rejection(
            (spec_mining_outcome(balances, used, pending, miner)->0).1,
            later_pool,
            later_balances,
            pending[k],
        ) == Some("不可重复交易"@),
{
    let effects = seq![spec_reward_effect(miner)] + pending.map_values(
        |tx: Transaction| spec_tx_effect(tx),
    );
    lemma_apply_records((balances, used), effects, miner);
    assert(effects[k + 1] == spec_tx_effect(pending[k]));
    lemma_effect_hash_recorded(effects, k + 1);
}

/// Mining keeps a valid chain valid: appending, to a chain that validates, a
/// block made on its last block whose first transaction is a reward and whose
/// other transactions are all signed gives a chain that validates.
pub proof fn lemma_mined_block_keeps_chain_valid(
    blocks: Seq<Block>,
    block: Block,
    pending: Seq<Transaction>,
    difficulty: nat,
    miner: Seq<char>,
)
    requires
        blocks.len() >= 1,
        spec_chain_check(blocks) == Some(true),
        spec_pending_ok(pending),
        block.block_body.transactions@.len() >= 1,
        spec_is_coinbase(block.block_body.transactions@[0]),
        block.block_body.transactions@.drop_first() == pending,
        spec_block_follows(block, blocks.last(), block.block_body.transactions@, difficulty, miner),
    ensures
        spec_chain_check(blocks.push(block)) == Some(true),
{
    lemma_pending_pass(pending);
    assert(spec_txs_check(block.block_body.transactions@) == Some(true));
    assert(spec_block_check(blocks.last(), block) == Some(true));
    lemma_chain_check_push(blocks, block, 1);
}

/// Setting the balance of one address changes the sum over a list of
/// distinct addresses by the change of that balance, if the address is listed.
proof fn lemma_sum_insert(
    balances: Map<Seq<char>, u64>,
    addresses: Seq<Seq<char>>,
    address: Seq<char>,
    value: u64,
)
    requires
        addresses.no_duplicates(),
    ensures
        spec_sum_balances(balances.insert(address, value), addresses) == spec_sum_balances(
            balances,
            addresses,
        ) + (if addresses.contains(address) {
            value - spec_balance(balances, address)
        } else {
            0
        }),
    decreases addresses.len(),
{
    if addresses.len() > 0 {
        let rest = addresses.drop_last();
        assert(rest.no_duplicates());
        lemma_sum_insert(balances, rest, address, value);
        if addresses.last() == address {
            assert(!rest.contains(address)) by {
                if rest.contains(address) {
                    let i = choose|i: int| 0 <= i < rest.len() && rest[i] == address;
                    assert(addresses[i] == addresses[addresses.len() - 1]);
                }
            }
        } else {
            assert(rest.contains(address) == addresses.contains(address)) by {
                if addresses.contains(address) {
                    let i = choose|i: int| 0 <= i < addresses.len() && addresses[i] == address;
                    assert(rest[i] == address);
                }
                if rest.contains(address) {
                    let i = choose|i: int| 0 <= i < rest.len() && rest[i] == address;
                    assert(addresses[i] == address);
                }
            }
        }
    }
}

/// Carrying out transactions whose transfers stay among distinct listed
/// addresses changes the sum over the list by exactly what the rewards
/// create, and leaves every unlisted address alone.
proof fn lemma_apply_sum(
    state: (Map<Seq<char>, u64>, Set<Seq<char>>),
    effects: Seq<(Seq<char>, Seq<char>, u64, u64, Seq<char>)>,
    miner: Seq<char>,
    addresses: Seq<Seq<char>>,
)
    requires
        spec_apply_effects(state, effects, miner) is Some,
        addresses.no_duplicates(),
        addresses.contains(miner),
        spec_transfers_within(effects, addresses, miner),
    ensures
        spec_sum_balances((spec_apply_effects(state, effects, miner)->0).0, addresses)
            == spec_sum_balances(state.0, addresses) + spec_minted(effects),
        forall|a: Seq<char>|
            !addresses.contains(a) ==> #[trigger] spec_balance(
                (spec_apply_effects(state, effects, miner)->0).0,
                a,
            ) == spec_balance(state.0, a),
    decreases effects.len(),
{
    if effects.len() > 0 {
        let rest = effects.drop_last();
        assert(spec_transfers_within(rest, addresses, miner)) by {
            assert forall|i: int|
                0 <= i < rest.len() && (#[trigger] rest[i]).0 != "coinbase"@ implies {
                &&& addresses.contains(rest[i].0)
                &&& addresses.contains(rest[i].1)
                &&& rest[i].0 != rest[i].1
                &&& rest[i].0 != miner
                &&& rest[i].1 != miner
            } by {
                assert(rest[i] == effects[i]);
            }
        }
        lemma_apply_sum(state, rest, miner, addresses);
        let prev = spec_apply_effects(state, rest, miner)->0;
        let m = prev.0;
        let e = effects.last();
        assert(e == effects[effects.len() - 1]);
        let res = (spec_apply_effects(state, effects, miner)->0).0;
        if e.0 == "coinbase"@ {
            let mb = spec_balance(m, miner);
            lemma_sum_insert(m, addresses, miner, (mb + e.2) as u64);
            assert(res == m.insert(miner, (mb + e.2) as u64));
            assert forall|a: Seq<char>| !addresses.contains(a) implies #[trigger] spec_balance(res, a)
                == spec_balance(state.0, a) by {
                assert(a != miner);
                assert(spec_balance(m, a) == spec_balance(state.0, a));
            }
        } else {
            let (from, to, amount, fee, hash) = e;
            let fb = spec_balance(m, from);
            let tb = spec_balance(m, to);
            let mb = spec_balance(m, miner);
            let m1 = m.insert(from, (fb - amount - fee) as u64);
            let m2 = m1.insert(to, (tb + amount) as u64);
            lemma_sum_insert(m, addresses, from, (fb - amount - fee) as u64);
            lemma_sum_insert(m1, addresses, to, (tb + amount) as u64);
            lemma_sum_insert(m2, addresses, miner, (mb + fee) as u64);
            assert(spec_balance(m1, to) == tb);
            assert(spec_balance(m2, miner) == mb);
            assert(res == m2.insert(miner, (mb + fee) as u64));
            assert forall|a: Seq<char>| !addresses.contains(a) implies #[trigger] spec_balance(res, a)
                == spec_balance(state.0, a) by {
                assert(a != miner && a != from && a != to);
                assert(spec_balance(m, a) == spec_balance(state.0, a));
            }
        }
    }
}

/// The reward is the only reward among the effects of mining a pool that
/// holds no reward.
proof fn lemma_minted_reward_only(miner: Seq<char>, pending: Seq<Transaction>)
    requires
        forall|i: int| 0 <= i < pending.len() ==> !spec_is_coinbase(#[trigger] pending[i]),
    ensures
        spec_minted(
            seq![spec_reward_effect(miner)] + pending.map_values(|tx: Transaction| spec_tx_effect(tx)),
        ) == MINING_REWARD,
    decreases pending.len(),
{
    let effects = seq![spec_reward_effect(miner)] + pending.map_values(
        |tx: Transaction| spec_tx_effect(tx),
    );
    if pending.len() == 0 {
        assert(effects.drop_last() =~= Seq::<(Seq<char>, Seq<char>, u64, u64, Seq<char>)>::empty());
        assert(spec_minted(effects.drop_last()) == 0);
        assert(effects.last() == spec_reward_effect(miner));
    } else {
        let rest = pending.drop_last();
        assert(effects.drop_last() =~= seq![spec_reward_effect(miner)] + rest.map_values(
            |tx: Transaction| spec_tx_effect(tx),
        ));
        assert(effects.last() == spec_tx_effect(pending[pending.len() - 1]));
        assert forall|i: int| 0 <= i < rest.len() implies !spec_is_coinbase(#[trigger] rest[i]) by {
            assert(rest[i] == pending[i]);
        }
        lemma_minted_reward_only(miner, rest);
    }
}

/// Mining creates exactly the reward: when every pending transfer is between
/// three different addresses (sender, receiver, miner) and the pool holds no
/// reward, the balances of any list of distinct addresses that names all of
/// them grow in sum by `MINING_REWARD`, and every other balance stays as it
/// was.
pub proof fn lemma_mining_adds_only_the_reward(
    balances: Map<Seq<char>, u64>,
    used: Set<Seq<char>>,
    pending: Seq<Transaction>,
    miner: Seq<char>,
    addresses: Seq<Seq<char>>,
)
    requires
        spec_mining_outcome(balances, used, pending, miner) is Some,
        addresses.no_duplicates(),
        addresses.contains(miner),
        forall|i: int|
            0 <= i < pending.len() ==> {
                &&& !spec_is_coinbase(#[trigger] pending[i])
                &&& addresses.contains(pending[i].from@)
                &&& addresses.contains(pending[i].to@)
                &&& pending[i].from@ != pending[i].to@
                &&& pending[i].from@ != miner
                &&& pending[i].to@ != miner
            },
    ensures
        spec_sum_balances((spec_mining_outcome(balances, used, pending, miner)->0).0, addresses)
            == spec_sum_balances(balances, addresses) + MINING_REWARD,
        forall|a: Seq<char>|
            !addresses.contains(a) ==> #[trigger] spec_balance(
                (spec_mining_outcome(balances, used, pending, miner)->0).0,
                a,
            ) == spec_balance(balances, a),
{
    let effects = seq![spec_reward_effect(miner)] + pending.map_values(
        |tx: Transaction| spec_tx_effect(tx),
    );
    assert(spec_transfers_within(effects, addresses, miner)) by {
        assert forall|i: int|
            0 <= i < effects.len() && (#[trigger] effects[i]).0 != "coinbase"@ implies {
            &&& addresses.contains(effects[i].0)
            &&& addresses.contains(effects[i].1)
            &&& effects[i].0 != effects[i].1
            &&& effects[i].0 != miner
            &&& effects[i].1 != miner
        } by {
            if i > 0 {
                assert(effects[i] == spec_tx_effect(pending[i - 1]));
            }
        }
    }
    lemma_apply_sum((balances, used), effects, miner, addresses);
    lemma_minted_reward_only(miner, pending);
}

/// Carrying out transactions adds exactly the hashes of the transfers to the
/// recorded hashes.
proof fn lemma_apply_records(
    state: (Map<Seq<char>, u64>, Set<Seq<char>>),
    effects: Seq<(Seq<char>, Seq<char>, u64, u64, Seq<char>)>,
    miner: Seq<char>,
)
    requires
        spec_apply_effects(state, effects, miner) is Some,
    ensures
        (spec_apply_effects(state, effects, miner)->0).1 == state.1.union(
            spec_effect_hashes(effects),
        ),
    decreases effects.len(),
{
    if effects.len() > 0 {
        lemma_apply_records(state, effects.drop_last(), miner);
        let prev = spec_apply_effects(state, effects.drop_last(), miner)->0;
        if effects.last().0 == "coinbase"@ {
        } else {
            assert(prev.1.insert(effects.last().4) =~= state.1.union(
                spec_effect_hashes(effects.drop_last()),
            ).insert(effects.last().4));
            assert(state.1.union(spec_effect_hashes(effects.drop_last())).insert(effects.last().4)
                =~= state.1.union(spec_effect_hashes(effects)));
        }
    } else {
        assert(state.1.union(Set::empty()) =~= state.1);
    }
}

/// The hashes recorded for a list of transactions are those of its transfers.
proof fn lemma_effect_hashes(txs: Seq<Transaction>)
    ensures
        spec_effect_hashes(txs.map_values(|tx: Transaction| spec_tx_effect(tx))) == spec_tx_hashes(
            txs,
        ),
    decreases txs.len(),
{
    let effects = txs.map_values(|tx: Transaction| spec_tx_effect(tx));
    if txs.len() > 0 {
        assert(effects.drop_last() =~= txs.drop_last().map_values(
            |tx: Transaction| spec_tx_effect(tx),
        ));
        lemma_effect_hashes(txs.drop_last());
    }
}

/// If carrying out all transactions succeeds, so does carrying out the first
/// `k`.
proof fn lemma_apply_prefix(
    state: (Map<Seq<char>, u64>, Set<Seq<char>>),
    effects: Seq<(Seq<char>, Seq<char>, u64, u64, Seq<char>)>,
    miner: Seq<char>,
    k: int,
)
    requires
        spec_apply_effects(state, effects, miner) is Some,
        0 <= k <= effects.len(),
    ensures
        spec_apply_effects(state, effects.take(k), miner) is Some,
    decreases effects.len() - k,
{
    if k == effects.len() {
        assert(effects.take(k) =~= effects);
    } else {
        lemma_apply_prefix(state, effects, miner, k + 1);
        assert(effects.take(k + 1).drop_last() =~= effects.take(k));
    }
}

/// If carrying out the first `k` transactions fails, carrying out all of them
/// fails.
proof fn lemma_apply_prefix_none(
    state: (Map<Seq<char>, u64>, Set<Seq<char>>),
    effects: Seq<(Seq<char>, Seq<char>, u64, u64, Seq<char>)>,
    miner: Seq<char>,
    k: int,
)
    requires
        0 <= k <= effects.len(),
        spec_apply_effects(state, effects.take(k), miner) is None,
    ensures
        spec_apply_effects(state, effects, miner) is None,
{
    if spec_apply_effects(state, effects, miner) is Some {
        lemma_apply_prefix(state, effects, miner, k);
    }
}

/// Signed pending transactions pass the signature checks.
proof fn lemma_pending_pass(pending: Seq<Transaction>)
    requires
        spec_pending_ok(pending),
    ensures
        spec_txs_check(pending) == Some(true),
    decreases pending.len(),
{
    if pending.len() > 0 {
        assert(spec_sender_key_ok(pending[0].from@) && spec_signature_ok(pending[0]));
        let rest = pending.drop_first();
        assert forall|i: int| 0 <= i < rest.len() implies spec_sender_key_ok(
            #[trigger] rest[i].from@,
        ) && spec_signature_ok(rest[i]) by {
            assert(rest[i] == pending[i + 1]);
        }
        lemma_pending_pass(rest);
    }
}

/// Appending a block that passes its check against the last block keeps a
/// passing chain passing.
proof fn lemma_chain_check_push(blocks: Seq<Block>, block: Block, i: int)
    requires
        1 <= i,
        blocks.len() >= 1,
        spec_chain_check_from(blocks, i) == Some(true),
        spec_block_check(blocks.last(), block) == Some(true),
    ensures
        spec_chain_check_from(blocks.push(block), i) == Some(true),
    decreases blocks.len() + 1 - i,
{
    let extended = blocks.push(block);
    if i < blocks.len() {
        assert(extended[i - 1] == blocks[i - 1]);
        assert(extended[i] == blocks[i]);
        assert(spec_block_check(blocks[i - 1], blocks[i]) == Some(true));
        assert(spec_chain_check_from(blocks, i + 1) == Some(true));
        lemma_chain_check_push(blocks, block, i + 1);
    } else if i == blocks.len() {
        assert(extended[i - 1] == blocks.last());
        assert(extended[i] == block);
        assert(spec_chain_check_from(extended, i + 1) == Some(true));
    }
}

/// The transaction count of a prefix grows by the count of its last block.
proof fn lemma_total_txs_prefix(blocks: Seq<Block>, k: int)
    requires
        0 < k <= blocks.len(),
    ensures
        spec_total_txs(blocks.take(k)) == spec_total_txs(blocks.take(k - 1))
            + blocks[k - 1].block_body.transactions@.len(),
        spec_total_txs(blocks.take(k)) <= spec_total_txs(blocks),
    decreases blocks.len() - k,
{
    assert(blocks.take(k).drop_last() =~= blocks.take(k - 1));
    if k < blocks.len() {
        lemma_total_txs_prefix(blocks, k + 1);
    } else {
        assert(blocks.take(k) =~= blocks);
    }
}

} // verus!
