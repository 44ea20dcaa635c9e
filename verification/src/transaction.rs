//! Transactions as the engine receives them.
use crate::amount::Amount;
use vstd::prelude::*;

verus! {

/// The five kinds of transaction.
#[derive(Clone, Copy, Debug, PartialEq, Eq, Structural)]
pub enum TransactionType {
    /// Credits funds to the client's available balance.
    Deposit,
    /// Debits funds from the client's available balance, if enough is there.
    Withdrawal,
    /// Holds the funds of an earlier transaction of the same client.
    Dispute,
    /// Releases the funds that a dispute holds.
    Resolve,
    /// Withdraws the funds that a dispute holds and freezes the account.
    Chargeback,
}

/// One transaction: its kind, the client, the transaction id and, for
/// deposits and withdrawals, the amount.
#[derive(Clone, Copy, Debug)]
pub struct Transaction {
    pub tx_type: TransactionType,
    pub client: u16,
    pub tx: u32,
    pub amount: Option<Amount>,
}

/// The amount a transaction carries, zero where it carries none.
pub open spec fn tx_amount(tx: Transaction) -> Amount {
    match tx.amount {
        Some(a) => a,
        None => Amount::zero_spec(),
    }
}

impl Transaction {
    /// The amount this transaction carries, zero where it carries none.
    pub fn amount_or_zero(&self) -> (r: Amount)
        ensures
            r == tx_amount(*self),
            self.amount matches Some(a) ==> r == a,
            self.amount is None ==> r.units() == 0 && r.mantissa_of() == 0 && r.scale_of() == 0,
    {
        match self.amount {
            Some(a) => a,
            None => Amount::zero(),
        }
    }
}

} // verus!
