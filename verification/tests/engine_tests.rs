use payments_engine::{Amount, Engine, Transaction, TransactionType};
use rust_decimal::Decimal;

fn dec(mantissa: i64, scale: u32) -> Amount {
    Amount::from_decimal(Decimal::new(mantissa, scale))
}

fn deposit(client: u16, tx: u32, amount: Amount) -> Transaction {
    Transaction { tx_type: TransactionType::Deposit, client, tx, amount: Some(amount) }
}

fn withdrawal(client: u16, tx: u32, amount: Amount) -> Transaction {
    Transaction { tx_type: TransactionType::Withdrawal, client, tx, amount: Some(amount) }
}

fn dispute(client: u16, tx: u32) -> Transaction {
    Transaction { tx_type: TransactionType::Dispute, client, tx, amount: None }
}

fn resolve(client: u16, tx: u32) -> Transaction {
    Transaction { tx_type: TransactionType::Resolve, client, tx, amount: None }
}

fn chargeback(client: u16, tx: u32) -> Transaction {
    Transaction { tx_type: TransactionType::Chargeback, client, tx, amount: None }
}

#[test]
fn test_basic_tx_history() {
    let mut engine = Engine::new();
    engine.process(deposit(1, 1, dec(10, 1)));
    engine.process(deposit(1, 2, dec(20, 1)));
    let account = &engine.accounts[&1];
    assert_eq!(account.available, dec(30, 1));
    assert_eq!(account.held, dec(0, 0));
    assert_eq!(account.total(), dec(30, 1));
    assert!(!account.locked);
}

#[test]
fn test_withdrawal_sufficient_funds() {
    let mut engine = Engine::new();
    engine.process(deposit(1, 1, dec(50, 1)));
    engine.process(withdrawal(1, 2, dec(30, 1)));
    let account = &engine.accounts[&1];
    assert_eq!(account.available, dec(20, 1));
    assert_eq!(account.total(), dec(20, 1));
}

#[test]
fn test_withdrawal_insufficient_funds() {
    let mut engine = Engine::new();
    engine.process(deposit(1, 1, dec(20, 1)));
    engine.process(withdrawal(1, 2, dec(50, 1)));
    let account = &engine.accounts[&1];
    assert_eq!(account.available, dec(20, 1));
    assert_eq!(account.total(), dec(20, 1));
}

#[test]
fn test_dispute() {
    let mut engine = Engine::new();
    engine.process(deposit(1, 1, dec(50, 1)));
    engine.process(dispute(1, 1));
    let account = &engine.accounts[&1];
    assert_eq!(account.available, dec(0, 0));
    assert_eq!(account.held, dec(50, 1));
    assert_eq!(account.total(), dec(50, 1));
    assert!(!account.locked);
}

#[test]
fn test_resolve() {
    let mut engine = Engine::new();
    engine.process(deposit(1, 1, dec(50, 1)));
    engine.process(dispute(1, 1));
    engine.process(resolve(1, 1));
    let account = &engine.accounts[&1];
    assert_eq!(account.available, dec(50, 1));
    assert_eq!(account.held, dec(0, 0));
    assert_eq!(account.total(), dec(50, 1));
    assert!(!account.locked);
}

#[test]
fn test_chargeback() {
    let mut engine = Engine::new();
    engine.process(deposit(1, 1, dec(50, 1)));
    engine.process(dispute(1, 1));
    engine.process(chargeback(1, 1));
    let account = &engine.accounts[&1];
    assert_eq!(account.available, dec(0, 0));
    assert_eq!(account.held, dec(0, 0));
    assert_eq!(account.total(), dec(0, 0));
    assert!(account.locked);
}

#[test]
fn test_locked_account_ignores_transactions() {
    let mut engine = Engine::new();
    engine.process(deposit(1, 1, dec(50, 1)));
    engine.process(dispute(1, 1));
    engine.process(chargeback(1, 1));
    engine.process(deposit(1, 2, dec(100, 1)));
    let account = &engine.accounts[&1];
    assert_eq!(account.available, dec(0, 0));
    assert_eq!(account.total(), dec(0, 0));
    assert!(account.locked);
}

#[test]
fn test_dispute_nonexistent_tx() {
    let mut engine = Engine::new();
    engine.process(deposit(1, 1, dec(50, 1)));
    engine.process(dispute(1, 99));
    let account = &engine.accounts[&1];
    assert_eq!(account.available, dec(50, 1));
    assert_eq!(account.held, dec(0, 0));
}

#[test]
fn test_resolve_without_dispute() {
    let mut engine = Engine::new();
    engine.process(deposit(1, 1, dec(50, 1)));
    engine.process(resolve(1, 1));
    let account = &engine.accounts[&1];
    assert_eq!(account.available, dec(50, 1));
    assert_eq!(account.held, dec(0, 0));
}

#[test]
fn test_chargeback_without_dispute() {
    let mut engine = Engine::new();
    engine.process(deposit(1, 1, dec(50, 1)));
    engine.process(chargeback(1, 1));
    let account = &engine.accounts[&1];
    assert_eq!(account.available, dec(50, 1));
    assert!(!account.locked);
}

#[test]
fn test_chargeback_nonexistent_tx() {
    let mut engine = Engine::new();
    engine.process(deposit(1, 1, dec(50, 1)));
    engine.process(chargeback(1, 99));
    let account = &engine.accounts[&1];
    assert_eq!(account.available, dec(50, 1));
    assert!(!account.locked);
}

#[test]
fn test_resolve_nonexistent_tx() {
    let mut engine = Engine::new();
    engine.process(deposit(1, 1, dec(50, 1)));
    engine.process(resolve(1, 99));
    let account = &engine.accounts[&1];
    assert_eq!(account.available, dec(50, 1));
    assert_eq!(account.held, dec(0, 0));
}

#[test]
fn test_duplicate_dispute() {
    let mut engine = Engine::new();
    engine.process(deposit(1, 1, dec(100, 1)));
    engine.process(dispute(1, 1));
    engine.process(dispute(1, 1));
    let account = &engine.accounts[&1];
    assert_eq!(account.available, dec(0, 0));
    assert_eq!(account.held, dec(100, 1));
    assert_eq!(account.total(), dec(100, 1));
}

#[test]
fn test_duplicate_resolve() {
    let mut engine = Engine::new();
    engine.process(deposit(1, 1, dec(100, 1)));
    engine.process(dispute(1, 1));
    engine.process(resolve(1, 1));
    engine.process(resolve(1, 1));
    let account = &engine.accounts[&1];
    assert_eq!(account.available, dec(100, 1));
    assert_eq!(account.held, dec(0, 0));
    assert_eq!(account.total(), dec(100, 1));
}

#[test]
fn test_duplicate_chargeback() {
    let mut engine = Engine::new();
    engine.process(deposit(1, 1, dec(100, 1)));
    engine.process(dispute(1, 1));
    engine.process(chargeback(1, 1));
    engine.process(chargeback(1, 1));
    let account = &engine.accounts[&1];
    assert_eq!(account.available, dec(0, 0));
    assert_eq!(account.held, dec(0, 0));
    assert_eq!(account.total(), dec(0, 0));
    assert!(account.locked);
}

#[test]
fn test_withdrawal_exact_balance() {
    let mut engine = Engine::new();
    engine.process(deposit(1, 1, dec(50, 1)));
    engine.process(withdrawal(1, 2, dec(50, 1)));
    let account = &engine.accounts[&1];
    assert_eq!(account.available, dec(0, 0));
    assert_eq!(account.total(), dec(0, 0));
}

#[test]
fn test_deposit_zero_creates_account() {
    let mut engine = Engine::new();
    engine.process(deposit(1, 1, dec(0, 0)));
    assert!(engine.accounts.contains_key(&1));
    let account = &engine.accounts[&1];
    assert_eq!(account.available, dec(0, 0));
    assert_eq!(account.total(), dec(0, 0));
}

#[test]
fn test_dispute_withdrawal() {
    let mut engine = Engine::new();
    engine.process(deposit(1, 1, dec(100, 1)));
    engine.process(withdrawal(1, 2, dec(40, 1)));
    engine.process(dispute(1, 2));
    let account = &engine.accounts[&1];
    assert_eq!(account.available, dec(60, 1));
    assert_eq!(account.held, dec(40, 1));
    assert_eq!(account.total(), dec(100, 1));
}

#[test]
fn test_resolve_disputed_withdrawal() {
    let mut engine = Engine::new();
    engine.process(deposit(1, 1, dec(100, 1)));
    engine.process(withdrawal(1, 2, dec(40, 1)));
    engine.process(dispute(1, 2));
    engine.process(resolve(1, 2));
    let account = &engine.accounts[&1];
    assert_eq!(account.available, dec(60, 1));
    assert_eq!(account.held, dec(0, 0));
    assert_eq!(account.total(), dec(60, 1));
}

#[test]
fn test_chargeback_disputed_withdrawal() {
    let mut engine = Engine::new();
    engine.process(deposit(1, 1, dec(100, 1)));
    engine.process(withdrawal(1, 2, dec(40, 1)));
    engine.process(dispute(1, 2));
    engine.process(chargeback(1, 2));
    let account = &engine.accounts[&1];
    assert_eq!(account.available, dec(60, 1));
    assert_eq!(account.held, dec(0, 0));
    assert_eq!(account.total(), dec(60, 1));
    assert!(account.locked);
}

#[test]
fn test_redispute_after_resolve() {
    let mut engine = Engine::new();
    engine.process(deposit(1, 1, dec(100, 1)));
    engine.process(dispute(1, 1));
    engine.process(resolve(1, 1));
    engine.process(dispute(1, 1));
    let account = &engine.accounts[&1];
    assert_eq!(account.available, dec(100, 1));
    assert_eq!(account.held, dec(0, 0));
    assert_eq!(account.total(), dec(100, 1));
}

#[test]
fn test_dispute_wrong_client() {
    let mut engine = Engine::new();
    engine.process(deposit(1, 1, dec(50, 1)));
    engine.process(dispute(2, 1));
    let a1 = &engine.accounts[&1];
    assert_eq!(a1.available, dec(50, 1));
    assert_eq!(a1.held, dec(0, 0));
}

#[test]
fn test_dispute_causes_negative_available() {
    let mut engine = Engine::new();
    engine.process(deposit(1, 1, dec(100, 1)));
    engine.process(withdrawal(1, 2, dec(80, 1)));
    engine.process(dispute(1, 1));
    let account = &engine.accounts[&1];
    assert_eq!(account.available, dec(-80, 1));
    assert_eq!(account.held, dec(100, 1));
    assert_eq!(account.total(), dec(20, 1));
}

#[test]
fn test_withdrawal_while_funds_held() {
    let mut engine = Engine::new();
    engine.process(deposit(1, 1, dec(100, 1)));
    engine.process(dispute(1, 1));
    engine.process(withdrawal(1, 2, dec(50, 1)));
    let account = &engine.accounts[&1];
    assert_eq!(account.available, dec(0, 0));
    assert_eq!(account.held, dec(100, 1));
    assert_eq!(account.total(), dec(100, 1));
}

#[test]
fn test_multiple_disputes_different_txs() {
    let mut engine = Engine::new();
    engine.process(deposit(1, 1, dec(50, 1)));
    engine.process(deposit(1, 2, dec(30, 1)));
    engine.process(dispute(1, 1));
    engine.process(dispute(1, 2));
    let account = &engine.accounts[&1];
    assert_eq!(account.available, dec(0, 0));
    assert_eq!(account.held, dec(80, 1));
    assert_eq!(account.total(), dec(80, 1));
}

#[test]
fn test_resolve_wrong_client() {
    let mut engine = Engine::new();
    engine.process(deposit(1, 1, dec(50, 1)));
    engine.process(dispute(1, 1));
    engine.process(resolve(2, 1));
    let a1 = &engine.accounts[&1];
    assert_eq!(a1.available, dec(0, 0));
    assert_eq!(a1.held, dec(50, 1));
}

#[test]
fn test_chargeback_wrong_client() {
    let mut engine = Engine::new();
    engine.process(deposit(1, 1, dec(50, 1)));
    engine.process(dispute(1, 1));
    engine.process(chargeback(2, 1));
    let a1 = &engine.accounts[&1];
    assert_eq!(a1.available, dec(0, 0));
    assert_eq!(a1.held, dec(50, 1));
    assert!(!a1.locked);
}

#[test]
fn test_dispute_failed_withdrawal() {
    let mut engine = Engine::new();
    engine.process(deposit(1, 1, dec(20, 1)));
    engine.process(withdrawal(1, 2, dec(50, 1)));
    engine.process(dispute(1, 2));
    let account = &engine.accounts[&1];
    assert_eq!(account.available, dec(20, 1));
    assert_eq!(account.held, dec(0, 0));
}

#[test]
fn test_empty_engine() {
    let engine = Engine::new();
    assert!(engine.accounts.is_empty());
}

#[test]
fn test_locked_account_blocks_withdrawal() {
    let mut engine = Engine::new();
    engine.process(deposit(1, 1, dec(100, 1)));
    engine.process(deposit(1, 2, dec(50, 1)));
    engine.process(dispute(1, 1));
    engine.process(chargeback(1, 1));
    engine.process(withdrawal(1, 3, dec(10, 1)));
    let account = &engine.accounts[&1];
    assert_eq!(account.available, dec(50, 1));
    assert_eq!(account.total(), dec(50, 1));
    assert!(account.locked);
}
