use payments_engine::{Account, Amount, Engine, Transaction, TransactionType};
use rust_decimal::Decimal;

fn dec(mantissa: i64, scale: u32) -> Amount {
    Amount::from_decimal(Decimal::new(mantissa, scale))
}

fn tx(tx_type: TransactionType, client: u16, id: u32, amount: Option<Amount>) -> Transaction {
    Transaction { tx_type, client, tx: id, amount }
}

fn max_amount() -> Amount {
    Amount::from_decimal(Decimal::MAX)
}

#[test]
fn sum_aligns_to_the_larger_scale() {
    let r = dec(15, 1).checked_add(&dec(25, 2)).unwrap();
    assert_eq!(r.mantissa(), 175);
    assert_eq!(r.scale(), 2);
}

#[test]
fn sum_with_zero_keeps_the_other_operand() {
    let r = dec(0, 0).checked_add(&dec(50, 1)).unwrap();
    assert_eq!((r.mantissa(), r.scale()), (50, 1));
    let r = dec(50, 1).checked_add(&dec(0, 2)).unwrap();
    assert_eq!((r.mantissa(), r.scale()), (50, 1));
}

#[test]
fn difference_from_zero_negates() {
    let r = dec(0, 3).checked_sub(&dec(50, 1)).unwrap();
    assert_eq!((r.mantissa(), r.scale()), (-50, 1));
    let r = dec(10, 1).checked_sub(&dec(25, 2)).unwrap();
    assert_eq!((r.mantissa(), r.scale()), (75, 2));
}

#[test]
fn overflow_gives_none() {
    assert!(max_amount().checked_add(&dec(1, 0)).is_none());
    assert!(Amount::from_decimal(Decimal::MIN).checked_sub(&dec(1, 0)).is_none());
}

#[test]
fn comparison_and_equality_go_by_value() {
    assert!(dec(50, 1).is_at_least(&dec(500, 2)));
    assert!(!dec(499, 2).is_at_least(&dec(5, 0)));
    assert!(dec(-1, 0).is_at_least(&dec(-15, 1)));
    assert_eq!(dec(50, 1), dec(500, 2));
    assert_ne!(dec(50, 1), dec(51, 1));
}

#[test]
fn decimal_round_trip() {
    let a = Amount::new(-1234, 3);
    assert_eq!((a.mantissa(), a.scale()), (-1234, 3));
    assert_eq!(a.to_decimal(), Decimal::new(-1234, 3));
    let b = Amount::from_decimal(Decimal::new(987, 2));
    assert_eq!((b.mantissa(), b.scale()), (987, 2));
    assert_eq!(Amount::zero(), dec(0, 0));
}

#[test]
fn fresh_account_is_empty() {
    let a = Account::default();
    assert_eq!(a.available, Amount::zero());
    assert_eq!(a.held, Amount::zero());
    assert!(!a.locked);
    assert_eq!(a.total(), Amount::zero());
}

#[test]
fn transaction_without_amount_counts_zero() {
    let t = tx(TransactionType::Dispute, 1, 1, None);
    assert_eq!(t.amount_or_zero(), Amount::zero());
    let t = tx(TransactionType::Deposit, 1, 1, Some(dec(7, 0)));
    assert_eq!(t.amount_or_zero(), dec(7, 0));
}

#[test]
fn locked_account_ignores_every_kind() {
    let mut engine = Engine::new();
    engine.process(tx(TransactionType::Deposit, 1, 1, Some(dec(5, 0))));
    engine.process(tx(TransactionType::Deposit, 1, 2, Some(dec(3, 0))));
    engine.process(tx(TransactionType::Dispute, 1, 1, None));
    engine.process(tx(TransactionType::Chargeback, 1, 1, None));
    engine.process(tx(TransactionType::Dispute, 1, 2, None));
    engine.process(tx(TransactionType::Withdrawal, 1, 3, Some(dec(1, 0))));
    engine.process(tx(TransactionType::Deposit, 1, 4, Some(dec(1, 0))));
    let a = &engine.accounts[&1];
    assert_eq!(a.available, dec(3, 0));
    assert_eq!(a.held, dec(0, 0));
    assert!(a.locked);
}

#[test]
fn transaction_touches_only_its_client() {
    let mut engine = Engine::new();
    engine.process(tx(TransactionType::Deposit, 1, 1, Some(dec(5, 0))));
    engine.process(tx(TransactionType::Deposit, 2, 2, Some(dec(7, 0))));
    engine.process(tx(TransactionType::Dispute, 2, 2, None));
    assert_eq!(engine.accounts[&1].available, dec(5, 0));
    assert_eq!(engine.accounts[&1].held, dec(0, 0));
    assert_eq!(engine.accounts[&2].held, dec(7, 0));
}

#[test]
fn ignored_transaction_still_creates_account() {
    let mut engine = Engine::new();
    engine.process(tx(TransactionType::Dispute, 9, 1, None));
    assert!(engine.accounts.contains_key(&9));
    assert_eq!(engine.accounts[&9].available, Amount::zero());
}

#[test]
fn chargeback_after_resolve_is_ignored() {
    let mut engine = Engine::new();
    engine.process(tx(TransactionType::Deposit, 1, 1, Some(dec(5, 0))));
    engine.process(tx(TransactionType::Dispute, 1, 1, None));
    engine.process(tx(TransactionType::Resolve, 1, 1, None));
    engine.process(tx(TransactionType::Chargeback, 1, 1, None));
    let a = &engine.accounts[&1];
    assert_eq!(a.available, dec(5, 0));
    assert_eq!(a.held, dec(0, 0));
    assert!(!a.locked);
}

#[test]
fn dispute_keeps_total() {
    let mut engine = Engine::new();
    engine.process(tx(TransactionType::Deposit, 1, 1, Some(dec(1234, 2))));
    engine.process(tx(TransactionType::Deposit, 1, 2, Some(dec(1, 1))));
    engine.process(tx(TransactionType::Dispute, 1, 1, None));
    let a = &engine.accounts[&1];
    assert_eq!(a.available, dec(1, 1));
    assert_eq!(a.held, dec(1234, 2));
    assert_eq!(a.total(), dec(1244, 2));
}

#[test]
fn chargeback_of_disputed_deposit_removes_it() {
    let mut engine = Engine::new();
    engine.process(tx(TransactionType::Deposit, 1, 1, Some(dec(10, 0))));
    engine.process(tx(TransactionType::Deposit, 1, 2, Some(dec(4, 0))));
    engine.process(tx(TransactionType::Dispute, 1, 2, None));
    engine.process(tx(TransactionType::Chargeback, 1, 2, None));
    let a = &engine.accounts[&1];
    assert_eq!(a.available, dec(10, 0));
    assert_eq!(a.held, dec(0, 0));
    assert!(a.locked);
}

#[test]
fn try_process_refuses_overflow_and_keeps_state() {
    let mut engine = Engine::new();
    assert!(engine.try_process(tx(TransactionType::Deposit, 1, 1, Some(max_amount()))));
    let next = tx(TransactionType::Deposit, 1, 2, Some(dec(1, 0)));
    assert!(!engine.can_process(&next));
    assert!(!engine.try_process(next));
    assert_eq!(engine.accounts[&1].available, max_amount());
    let withdraw = tx(TransactionType::Withdrawal, 1, 3, Some(dec(1, 0)));
    assert!(engine.can_process(&withdraw));
    assert!(engine.try_process(withdraw));
    assert_eq!(engine.accounts[&1].available.checked_add(&dec(1, 0)), Some(max_amount()));
}

#[test]
fn try_process_all_is_all_or_nothing() {
    let mut engine = Engine::new();
    let bad = vec![
        tx(TransactionType::Deposit, 1, 1, Some(dec(5, 0))),
        tx(TransactionType::Deposit, 2, 2, Some(max_amount())),
        tx(TransactionType::Deposit, 2, 3, Some(max_amount())),
    ];
    assert!(!engine.try_process_all(bad));
    assert!(engine.accounts.is_empty());
    let good = vec![
        tx(TransactionType::Deposit, 1, 1, Some(dec(5, 0))),
        tx(TransactionType::Withdrawal, 1, 2, Some(dec(2, 0))),
    ];
    assert!(engine.try_process_all(good));
    assert_eq!(engine.accounts[&1].available, dec(3, 0));
}

#[test]
fn negative_available_still_blocks_withdrawal() {
    let mut engine = Engine::new();
    engine.process(tx(TransactionType::Deposit, 1, 1, Some(dec(10, 0))));
    engine.process(tx(TransactionType::Withdrawal, 1, 2, Some(dec(8, 0))));
    engine.process(tx(TransactionType::Dispute, 1, 1, None));
    engine.process(tx(TransactionType::Withdrawal, 1, 3, Some(dec(1, 0))));
    let a = &engine.accounts[&1];
    assert_eq!(a.available, dec(-8, 0));
    assert_eq!(a.held, dec(10, 0));
}

fn parts(m: i128, s: u32) -> Amount {
    Amount::from_decimal(Decimal::from_i128_with_scale(m, s))
}

#[test]
fn exact_sum_with_wide_mantissas_keeps_the_larger_scale() {
    let big: i128 = 1 << 70;
    let r = parts(big, 3).checked_add(&parts(5, 10)).unwrap();
    assert_eq!((r.mantissa(), r.scale()), (big * 10_000_000 + 5, 10));
    let r = parts(-big, 3).checked_sub(&parts(5, 10)).unwrap();
    assert_eq!((r.mantissa(), r.scale()), (-big * 10_000_000 - 5, 10));
}

#[test]
fn exact_difference_after_wide_alignment() {
    let max: i128 = 79228162514264337593543950335;
    let a = parts(7922816251426433759354395034, 0);
    let r = a.checked_sub(&parts(max, 1)).unwrap();
    assert_eq!((r.mantissa(), r.scale()), (5, 1));
    let r = a.checked_add(&parts(-max, 1)).unwrap();
    assert_eq!((r.mantissa(), r.scale()), (5, 1));
}

#[test]
fn inexact_sum_is_rounded_not_refused() {
    let max: i128 = 79228162514264337593543950335;
    let r = parts(max, 0).checked_add(&parts(4, 1)).unwrap();
    assert_eq!((r.mantissa(), r.scale()), (max, 0));
}

#[test]
fn four_place_amounts_add_exactly() {
    let r = dec(11234, 4).checked_add(&dec(25678, 4)).unwrap();
    assert_eq!((r.mantissa(), r.scale()), (36912, 4));
    let r = r.checked_sub(&dec(5, 1)).unwrap();
    assert_eq!((r.mantissa(), r.scale()), (31912, 4));
}

#[test]
fn account_accessor_and_checked_total() {
    let mut engine = Engine::new();
    assert!(engine.account(1).is_none());
    engine.process(tx(TransactionType::Deposit, 1, 1, Some(dec(15, 1))));
    let a = engine.account(1).unwrap();
    assert_eq!(a.available, dec(15, 1));
    assert_eq!(a.checked_total(), Some(dec(15, 1)));
    let full = Account { available: max_amount(), held: dec(1, 0), locked: false };
    assert!(full.checked_total().is_none());
}

#[test]
fn process_all_is_processing_each_in_order() {
    let txs = vec![
        tx(TransactionType::Deposit, 1, 1, Some(dec(10, 0))),
        tx(TransactionType::Withdrawal, 1, 2, Some(dec(4, 0))),
        tx(TransactionType::Dispute, 1, 2, None),
        tx(TransactionType::Deposit, 2, 3, Some(dec(3, 0))),
    ];
    let mut all = Engine::new();
    all.process_all(txs.clone());
    let mut one_by_one = Engine::new();
    for t in txs {
        one_by_one.process(t);
    }
    for c in [1u16, 2u16] {
        let a = all.account(c).unwrap();
        let b = one_by_one.account(c).unwrap();
        assert_eq!((a.available, a.held, a.locked), (b.available, b.held, b.locked));
    }
    assert_eq!(all.account(1).unwrap().available, dec(6, 0));
    assert_eq!(all.account(1).unwrap().held, dec(4, 0));
}

#[test]
fn other_clients_do_not_interfere() {
    let txs = vec![
        tx(TransactionType::Deposit, 1, 1, Some(dec(10, 0))),
        tx(TransactionType::Deposit, 2, 2, Some(dec(7, 0))),
        tx(TransactionType::Dispute, 2, 1, None),
        tx(TransactionType::Chargeback, 2, 1, None),
        tx(TransactionType::Dispute, 1, 1, None),
        tx(TransactionType::Resolve, 2, 1, None),
    ];
    let mut all = Engine::new();
    all.process_all(txs.clone());
    let mut own = Engine::new();
    own.process_all(txs.into_iter().filter(|t| t.client == 1).collect());
    let a = all.account(1).unwrap();
    let b = own.account(1).unwrap();
    assert_eq!((a.available, a.held, a.locked), (b.available, b.held, b.locked));
    assert_eq!(a.held, dec(10, 0));
}

#[test]
fn closed_form_balances() {
    let mut engine = Engine::new();
    engine.process_all(vec![
        tx(TransactionType::Deposit, 1, 1, Some(dec(10, 0))),
        tx(TransactionType::Deposit, 1, 2, Some(dec(5, 0))),
        tx(TransactionType::Withdrawal, 1, 3, Some(dec(3, 0))),
        tx(TransactionType::Dispute, 1, 3, None),
        tx(TransactionType::Dispute, 1, 2, None),
        tx(TransactionType::Dispute, 1, 1, None),
        tx(TransactionType::Chargeback, 1, 1, None),
    ]);
    let a = engine.account(1).unwrap();
    // deposits not under dispute (the settled 10) - withdrawals (3) - charged-back deposit (10)
    assert_eq!(a.available, dec(-3, 0));
    // under dispute: withdrawal 3 and deposit 5
    assert_eq!(a.held, dec(8, 0));
    assert!(a.locked);
}

#[test]
fn accounts_are_exactly_the_clients() {
    let mut engine = Engine::new();
    engine.process_all(vec![
        tx(TransactionType::Deposit, 3, 1, Some(dec(1, 0))),
        tx(TransactionType::Withdrawal, 5, 2, Some(dec(1, 0))),
        tx(TransactionType::Resolve, 7, 9, None),
        tx(TransactionType::Deposit, 3, 4, Some(dec(2, 0))),
    ]);
    let mut keys: Vec<u16> = engine.accounts.keys().copied().collect();
    keys.sort();
    assert_eq!(keys, vec![3, 5, 7]);
}
