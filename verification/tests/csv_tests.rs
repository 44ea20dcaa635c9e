use payments_engine::{Amount, Engine, Transaction, TransactionType};
use rust_decimal::Decimal;

fn dec(mantissa: i64, scale: u32) -> Amount {
    Amount::from_decimal(Decimal::new(mantissa, scale))
}

fn parse_type(name: &str) -> Option<TransactionType> {
    match name {
        "deposit" => Some(TransactionType::Deposit),
        "withdrawal" => Some(TransactionType::Withdrawal),
        "dispute" => Some(TransactionType::Dispute),
        "resolve" => Some(TransactionType::Resolve),
        "chargeback" => Some(TransactionType::Chargeback),
        _ => None,
    }
}

fn parse_record(record: &csv::StringRecord) -> Option<Transaction> {
    let tx_type = parse_type(record.get(0)?)?;
    let client = record.get(1)?.parse::<u16>().ok()?;
    let tx = record.get(2)?.parse::<u32>().ok()?;
    let amount = match record.get(3) {
        None | Some("") => None,
        Some(text) => Some(Amount::from_decimal(text.parse::<Decimal>().ok()?)),
    };
    Some(Transaction { tx_type, client, tx, amount })
}

fn run_csv(input: &str) -> Engine {
    let mut rdr = csv::ReaderBuilder::new()
        .trim(csv::Trim::All)
        .from_reader(input.as_bytes());

    let transactions: Vec<Transaction> = rdr
        .records()
        .filter_map(|r| r.ok())
        .filter_map(|r| parse_record(&r))
        .collect();

    let mut engine = Engine::new();
    engine.process_all(transactions);
    engine
}

#[test]
fn test_multiple_clients() {
    let engine = run_csv(
        "type,client,tx,amount\n\
         deposit,1,1,1.0\n\
         deposit,2,2,2.0\n\
         deposit,1,3,2.0\n\
         withdrawal,1,4,1.5\n\
         withdrawal,2,5,3.0\n",
    );
    let a1 = &engine.accounts[&1];
    assert_eq!(a1.available, dec(15, 1));
    assert_eq!(a1.total(), dec(15, 1));

    let a2 = &engine.accounts[&2];
    assert_eq!(a2.available, dec(20, 1));
    assert_eq!(a2.total(), dec(20, 1));
}

#[test]
fn test_whitespace_handling() {
    let engine = run_csv(
        "type, client, tx, amount\n\
         deposit, 1, 1, 1.5000\n",
    );
    let account = &engine.accounts[&1];
    assert_eq!(account.available, dec(15, 1));
}

#[test]
fn test_full_dispute_lifecycle_csv() {
    let engine = run_csv(
        "type,client,tx,amount\n\
         deposit,1,1,10.0\n\
         dispute,1,1,\n\
         resolve,1,1,\n\
         deposit,1,2,5.0\n\
         dispute,1,2,\n\
         chargeback,1,2,\n",
    );
    let account = &engine.accounts[&1];
    assert_eq!(account.available, dec(100, 1));
    assert_eq!(account.held, dec(0, 0));
    assert_eq!(account.total(), dec(100, 1));
    assert!(account.locked);
}

#[test]
fn test_four_decimal_precision() {
    let engine = run_csv(
        "type,client,tx,amount\n\
         deposit,1,1,1.1234\n\
         deposit,1,2,2.5678\n\
         withdrawal,1,3,0.5000\n",
    );
    let account = &engine.accounts[&1];
    assert_eq!(account.available, dec(31912, 4));
    assert_eq!(account.total(), dec(31912, 4));
}
