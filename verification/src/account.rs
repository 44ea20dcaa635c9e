//! Client accounts.
use crate::amount::{checked_sum, Amount};
use vstd::prelude::*;

verus! {

/// The balances of one client: funds available, funds held by disputes, and
/// whether a chargeback has frozen the account.
#[derive(Clone, Copy, Debug)]
pub struct Account {
    pub available: Amount,
    pub held: Amount,
    pub locked: bool,
}

impl Account {
    /// A fresh account: nothing available, nothing held, not locked.
    pub open spec fn empty() -> Account {
        Account { available: Amount::zero_spec(), held: Amount::zero_spec(), locked: false }
    }

    /// Available plus held funds.
    ///
    /// `Decimal` addition panics where the sum overflows; the `requires`
    /// leaves those accounts out (`Amount::checked_add` tells them apart).
    pub fn total(&self) -> (r: Amount)
        requires
            checked_sum(self.available, self.held) is Some,
        ensures
            checked_sum(self.available, self.held) == Some(r),
    {
        match self.available.checked_add(&self.held) {
            Some(t) => t,
            None => Amount::zero(),
        }
    }
}

impl Account {
    /// Available plus held funds, or `None` where `Decimal` addition
    /// overflows.
    pub fn checked_total(&self) -> (r: Option<Amount>)
        ensures
            r == checked_sum(self.available, self.held),
    {
        if self.available.checked_add(&self.held).is_some() {
            Some(self.total())
        } else {
            None
        }
    }
}

impl Default for Account {
    fn default() -> (r: Account)
        ensures
            r == Account::empty(),
    {
        Account { available: Amount::zero(), held: Amount::zero(), locked: false }
    }
}

} // verus!
