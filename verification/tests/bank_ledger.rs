use multicast::bank::{Bank, Transaction, TransactionType};

fn deposit(bank: &mut Bank, account: &str, amount: usize) {
    bank.process_transaction(Transaction {
        node_id: 0,
        id: 1,
        tr: TransactionType::Deposit(account.to_string(), amount),
    });
}

fn transfer(bank: &mut Bank, from: &str, to: &str, amount: usize) {
    bank.process_transaction(Transaction {
        node_id: 0,
        id: 1,
        tr: TransactionType::Transfer(from.to_string(), to.to_string(), amount),
    });
}

#[test]
fn deposit_creates_and_accumulates() {
    let mut bank = Bank::new();
    assert_eq!(bank.get_balance("alice"), None);
    deposit(&mut bank, "alice", 100);
    assert_eq!(bank.get_balance("alice"), Some(100));
    deposit(&mut bank, "alice", 5);
    assert_eq!(bank.get_balance("alice"), Some(105));
}

#[test]
fn transfer_moves_funds() {
    let mut bank = Bank::new();
    deposit(&mut bank, "alice", 100);
    transfer(&mut bank, "alice", "bob", 40);
    assert_eq!(bank.get_balance("alice"), Some(60));
    assert_eq!(bank.get_balance("bob"), Some(40));
}

#[test]
fn transfer_from_absent_source_has_no_effect() {
    let mut bank = Bank::new();
    transfer(&mut bank, "ghost", "bob", 10);
    assert_eq!(bank.get_balance("ghost"), None);
    assert_eq!(bank.get_balance("bob"), None);
}

#[test]
fn transfer_beyond_balance_has_no_effect() {
    let mut bank = Bank::new();
    deposit(&mut bank, "alice", 30);
    transfer(&mut bank, "alice", "bob", 31);
    assert_eq!(bank.get_balance("alice"), Some(30));
    assert_eq!(bank.get_balance("bob"), None);
}

#[test]
fn transfer_to_self_keeps_the_balance() {
    let mut bank = Bank::new();
    deposit(&mut bank, "alice", 30);
    transfer(&mut bank, "alice", "alice", 20);
    assert_eq!(bank.get_balance("alice"), Some(30));
}

#[test]
fn deposit_overflow_has_no_effect() {
    let mut bank = Bank::new();
    deposit(&mut bank, "alice", usize::MAX);
    assert_eq!(bank.get_balance("alice"), Some(usize::MAX));
    deposit(&mut bank, "alice", 1);
    assert_eq!(bank.get_balance("alice"), Some(usize::MAX));
}
