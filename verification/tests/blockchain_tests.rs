use ed25519_dalek::SigningKey;
use mini_blockchain::blockchain::account::AccountManager;
use mini_blockchain::blockchain::blockchain::{BlockChain, MINING_REWARD};
use mini_blockchain::blockchain::transaction::Transaction;

const ALICE: [u8; 32] = [1u8; 32];
const BOB: [u8; 32] = [2u8; 32];
const CHARLIE: [u8; 32] = [3u8; 32];
const MINER: [u8; 32] = [4u8; 32];

fn address(secret: &[u8; 32]) -> String {
    hex::encode(SigningKey::from_bytes(secret).verifying_key().as_bytes())
}

fn funded_chain(difficulty: usize) -> BlockChain {
    let mut bc = BlockChain::new_at(difficulty, 100);
    bc.accounts.set_balance(&address(&ALICE), 100000);
    bc.accounts.set_balance(&address(&BOB), 50000);
    bc.accounts.set_balance(&address(&CHARLIE), 0);
    bc.accounts.set_balance(&address(&MINER), 0);
    bc
}

#[test]
fn new_chain_has_only_genesis() {
    let bc = BlockChain::new(2).unwrap();
    assert_eq!(bc.block_count(), 1);
    assert_eq!(bc.difficulty, 2);
    assert!(bc.pending_transactions.is_empty());
    assert_eq!(bc.latest_block().block_header.index, 0);
    assert!(bc.latest_block().hash.starts_with("00"));
    assert_eq!(bc.total_data_size(), 0);
    assert!(bc.is_valid());
}

#[test]
fn transfer_flow_from_the_readme() {
    let mut bc = funded_chain(2);
    let (alice, bob, charlie, miner) =
        (address(&ALICE), address(&BOB), address(&CHARLIE), address(&MINER));

    let tx1 = Transaction::new_at(&ALICE, &bob, 10000, 200);
    assert_eq!(bc.add_transaction(tx1.clone()), Ok(()));
    let tx2 = Transaction::new_at(&BOB, &charlie, 5000, 201);
    assert_eq!(bc.add_transaction(tx2), Ok(()));
    assert_eq!(bc.pending_transactions.len(), 2);

    assert!(bc.can_mine(&miner));
    bc.mine_pending_transactions_at(&miner, 300, 301);
    assert!(bc.pending_transactions.is_empty());
    assert_eq!(bc.block_count(), 2);

    assert_eq!(bc.accounts.get_balance(&alice), 100000 - 10000 - 100);
    assert_eq!(bc.accounts.get_balance(&bob), 50000 + 10000 - 5000 - 50);
    assert_eq!(bc.accounts.get_balance(&charlie), 5000);
    assert_eq!(bc.accounts.get_balance(&miner), MINING_REWARD + 100 + 50);

    let block = bc.latest_block();
    assert_eq!(block.block_header.index, 1);
    assert_eq!(block.block_header.timestamp, 301);
    assert_eq!(block.block_header.miner, miner);
    assert_eq!(block.block_body.tx_count, 3);
    let reward = &block.block_body.transactions[0];
    assert_eq!(reward.from, "coinbase");
    assert_eq!(reward.to, miner);
    assert_eq!(reward.amount, 50);
    assert_eq!(reward.fee, 0);
    assert_eq!(reward.timestamp, 300);
    assert_eq!(reward.hash, "0".repeat(64));
    assert!(block.hash.starts_with("00"));
    assert_eq!(bc.total_data_size(), 3);

    assert!(bc.is_valid());
    assert_eq!(bc.is_valid_checked(), Some(true));

    let tx3 = Transaction::new_at(&CHARLIE, &alice, 10000, 400);
    assert_eq!(bc.add_transaction(tx3), Err("余额不足！".to_string()));

    let history = bc.get_transaction_history(&alice);
    assert_eq!(history.len(), 1);
    assert_eq!(history[0].hash, tx1.hash);
    assert_eq!(bc.get_transaction_history(&miner).len(), 1);
    assert_eq!(bc.get_transaction_history(&bob).len(), 2);
}

#[test]
fn mined_transaction_is_refused_again() {
    let mut bc = funded_chain(0);
    let tx = Transaction::new_at(&ALICE, &address(&BOB), 100, 1);
    assert_eq!(bc.add_transaction(tx.clone()), Ok(()));
    assert!(bc.mine_pending_transactions(&address(&MINER)));
    assert_eq!(bc.add_transaction(tx), Err("不可重复交易".to_string()));
}

#[test]
fn pooled_transaction_is_refused_again() {
    let mut bc = funded_chain(0);
    let tx = Transaction::new_at(&ALICE, &address(&BOB), 100, 1);
    assert_eq!(bc.add_transaction(tx.clone()), Ok(()));
    assert_eq!(bc.add_transaction(tx.clone()), Err("不可重复交易".to_string()));
    assert_eq!(bc.pending_transactions.len(), 1);
    assert_eq!(bc.add_transaction_checked(tx), Some(Err("不可重复交易".to_string())));
    assert_eq!(bc.pending_transactions.len(), 1);
    assert!(bc.mine_pending_transactions(&address(&MINER)));
    assert_eq!(bc.accounts.get_balance(&address(&BOB)), 50100);
}

#[test]
fn zero_amount_is_refused() {
    let mut bc = funded_chain(0);
    let tx = Transaction::new_at(&ALICE, &address(&BOB), 0, 1);
    assert_eq!(bc.add_transaction(tx), Err("转账金额不能为0".to_string()));
}

#[test]
fn balance_must_cover_amount_and_fee() {
    let mut bc = funded_chain(0);
    let tx = Transaction::new_at(&ALICE, &address(&BOB), 100000, 1);
    assert_eq!(bc.add_transaction(tx), Err("余额不足！".to_string()));
    let tx = Transaction::new_at(&ALICE, &address(&BOB), 99009, 1);
    assert_eq!(bc.add_transaction(tx), Ok(()));
}

#[test]
fn unknown_sender_is_refused_for_balance() {
    let mut bc = funded_chain(0);
    let tx = Transaction::new_at(&[8u8; 32], &address(&BOB), 1, 1);
    assert_eq!(bc.add_transaction(tx), Err("余额不足！".to_string()));
}

#[test]
fn bad_signature_is_refused() {
    let mut bc = funded_chain(0);
    let mut tx = Transaction::new_at(&ALICE, &address(&BOB), 100, 1);
    tx.to = address(&CHARLIE);
    assert_eq!(bc.add_transaction(tx), Err("签名无效!".to_string()));
    assert!(bc.pending_transactions.is_empty());
}

#[test]
fn checked_add_refuses_an_undecodable_sender() {
    let mut bc = BlockChain::new_at(0, 1);
    bc.accounts.set_balance("alice", 1000);
    let mut tx = Transaction::new_at(&ALICE, &address(&BOB), 100, 1);
    tx.from = "alice".to_string();
    assert_eq!(bc.add_transaction_checked(tx.clone()), None);
    assert!(bc.pending_transactions.is_empty());
    tx.amount = 0;
    assert_eq!(bc.add_transaction_checked(tx), Some(Err("转账金额不能为0".to_string())));
}

#[test]
fn checked_add_refuses_an_overflowing_fee() {
    let mut bc = funded_chain(0);
    let mut tx = Transaction::new_at(&ALICE, &address(&BOB), u64::MAX, 1);
    tx.fee = 1;
    assert_eq!(bc.add_transaction_checked(tx), None);
}

#[test]
fn forged_block_hash_is_detected() {
    let mut bc = funded_chain(1);
    bc.add_transaction(Transaction::new_at(&ALICE, &address(&BOB), 100, 1)).unwrap();
    bc.mine_pending_transactions_at(&address(&MINER), 2, 3);
    assert!(bc.is_valid());
    bc.chain[1].hash = "f".repeat(64);
    assert!(!bc.is_valid());
}

#[test]
fn broken_link_is_detected() {
    let mut bc = funded_chain(0);
    bc.mine_pending_transactions_at(&address(&MINER), 2, 3);
    assert!(bc.is_valid());
    bc.chain[1].block_header.prev_hash = "1".repeat(64);
    assert!(!bc.is_valid());
}

#[test]
fn altered_transaction_is_detected() {
    let mut bc = funded_chain(0);
    bc.add_transaction(Transaction::new_at(&ALICE, &address(&BOB), 100, 1)).unwrap();
    bc.mine_pending_transactions_at(&address(&MINER), 2, 3);
    bc.chain[1].block_body.transactions[1].amount = 99;
    assert!(!bc.is_valid());
}

#[test]
fn undecodable_sender_in_chain_is_reported() {
    let mut bc = funded_chain(0);
    bc.add_transaction(Transaction::new_at(&ALICE, &address(&BOB), 100, 1)).unwrap();
    bc.mine_pending_transactions_at(&address(&MINER), 2, 3);
    bc.chain[1].block_body.transactions[1].from = "nobody".to_string();
    let h = &bc.chain[1].block_header;
    let rehashed = mini_blockchain::blockchain::block::Block::calculate_hash_with_nonce(
        h.index,
        h.timestamp,
        &bc.chain[1].block_body.transactions,
        &h.prev_hash,
        h.nonce,
        &h.miner,
    );
    bc.chain[1].hash = rehashed;
    assert_eq!(bc.is_valid_checked(), None);
}

#[test]
fn overdrawn_pool_cannot_be_mined() {
    let mut bc = funded_chain(0);
    let bob = address(&BOB);
    bc.add_transaction(Transaction::new_at(&ALICE, &bob, 60000, 1)).unwrap();
    bc.add_transaction(Transaction::new_at(&ALICE, &bob, 60000, 2)).unwrap();
    assert!(!bc.can_mine(&address(&MINER)));
    assert_eq!(bc.accounts.get_balance(&address(&ALICE)), 100000);
}

#[test]
fn add_block_and_counts() {
    let mut bc = BlockChain::new_at(0, 1);
    bc.add_block_at(Vec::new(), "m", 5);
    assert!(bc.add_block(vec![Transaction::new_at(&ALICE, "x", 1, 1)], "m"));
    assert_eq!(bc.block_count(), 3);
    assert_eq!(bc.total_data_size(), 1);
    assert_eq!(bc.latest_block().block_header.index, 2);
    assert_eq!(bc.chain[1].block_header.timestamp, 5);
    assert!(bc.is_valid());
}

#[test]
fn from_parts_rebuilds_mined_hashes() {
    let mut bc = funded_chain(0);
    let tx = Transaction::new_at(&ALICE, &address(&BOB), 100, 1);
    bc.add_transaction(tx.clone()).unwrap();
    bc.mine_pending_transactions_at(&address(&MINER), 2, 3);
    let mut accounts = AccountManager::new();
    for (a, b) in bc.accounts.entries() {
        accounts.set_balance(&a, b);
    }
    let mut restored = BlockChain::from_parts(bc.chain.clone(), bc.difficulty, Vec::new(), accounts);
    assert!(restored.is_valid());
    assert_eq!(restored.add_transaction(tx), Err("不可重复交易".to_string()));
    assert_eq!(restored.accounts.get_balance(&address(&BOB)), 50100);
}
