use mini_blockchain::blockchain::account::AccountManager;

#[test]
fn new_ledger_is_empty() {
    let accounts = AccountManager::new();
    assert_eq!(accounts.get_balance("alice"), 0);
    assert!(!accounts.has_sufficient_balance("alice", 0));
    assert!(accounts.entries().is_empty());
}

#[test]
fn set_then_get_balance() {
    let mut accounts = AccountManager::new();
    accounts.set_balance("alice", 100);
    accounts.set_balance("bob", 7);
    accounts.set_balance("alice", 42);
    assert_eq!(accounts.get_balance("alice"), 42);
    assert_eq!(accounts.get_balance("bob"), 7);
    assert_eq!(accounts.get_balance("carol"), 0);
}

#[test]
fn sufficient_balance_needs_an_account() {
    let mut accounts = AccountManager::new();
    accounts.set_balance("alice", 100);
    accounts.set_balance("zero", 0);
    assert!(accounts.has_sufficient_balance("alice", 100));
    assert!(!accounts.has_sufficient_balance("alice", 101));
    assert!(accounts.has_sufficient_balance("zero", 0));
    assert!(!accounts.has_sufficient_balance("nobody", 0));
}

#[test]
fn transfer_moves_amount_and_fee() {
    let mut accounts = AccountManager::new();
    accounts.set_balance("alice", 1000);
    accounts.set_balance("bob", 10);
    accounts.transfer("alice", "bob", 300, 3, "miner");
    assert_eq!(accounts.get_balance("alice"), 697);
    assert_eq!(accounts.get_balance("bob"), 310);
    assert_eq!(accounts.get_balance("miner"), 3);
}

#[test]
fn transfer_to_self_keeps_the_later_write() {
    // All balances are read first; the receiver's write comes after the
    // sender's, so a transfer to oneself credits the amount on the old balance.
    let mut accounts = AccountManager::new();
    accounts.set_balance("alice", 1000);
    accounts.transfer("alice", "alice", 100, 1, "miner");
    assert_eq!(accounts.get_balance("alice"), 1100);
    assert_eq!(accounts.get_balance("miner"), 1);
}

#[test]
fn transfer_by_the_miner_keeps_the_fee_write() {
    let mut accounts = AccountManager::new();
    accounts.set_balance("miner", 500);
    accounts.transfer("miner", "bob", 100, 5, "miner");
    assert_eq!(accounts.get_balance("bob"), 100);
    assert_eq!(accounts.get_balance("miner"), 505);
}

#[test]
fn entries_list_each_account_once() {
    let mut accounts = AccountManager::new();
    accounts.set_balance("a", 1);
    accounts.set_balance("b", 2);
    accounts.set_balance("a", 3);
    let entries = accounts.entries();
    assert_eq!(entries, vec![("a".to_string(), 3), ("b".to_string(), 2)]);
}
