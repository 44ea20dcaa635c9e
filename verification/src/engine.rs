//! The transactions engine: the state it keeps, the transition that each
//! transaction makes, and the executable engine proved against it.
use crate::account::Account;
use crate::amount::{checked_difference, checked_sum, Amount};
use crate::transaction::{tx_amount, Transaction, TransactionType};
use std::collections::HashMap;
use vstd::prelude::*;

verus! {

broadcast use vstd::std_specs::hash::group_hash_axioms;

/// What the engine remembers of a deposit or withdrawal that took effect:
/// the client, the amount and the kind.
pub type Record = (u16, Amount, TransactionType);

/// The engine's state as maps: accounts by client, the deposits and
/// withdrawals that took effect by transaction id, and the dispute status of
/// each disputed transaction (`true` while under dispute, `false` once
/// resolved or charged back).
pub struct EngineView {
    pub accounts: Map<u16, Account>,
    pub history: Map<u32, Record>,
    pub disputed: Map<u32, bool>,
}

impl EngineView {
    /// The state of a new engine.
    pub open spec fn empty() -> EngineView {
        EngineView { accounts: Map::empty(), history: Map::empty(), disputed: Map::empty() }
    }

    /// The account of `client`, or a fresh one where there is none yet.
    pub open spec fn account(self, client: u16) -> Account {
        if self.accounts.contains_key(client) {
            self.accounts[client]
        } else {
            Account::empty()
        }
    }

    /// This state with `client`'s account replaced by `a`.
    pub open spec fn with_account(self, client: u16, a: Account) -> EngineView {
        EngineView { accounts: self.accounts.insert(client, a), ..self }
    }

    /// This state with the dispute status of `id` set to `status`.
    pub open spec fn with_dispute(self, id: u32, status: bool) -> EngineView {
        EngineView { disputed: self.disputed.insert(id, status), ..self }
    }

    /// This state with an account for `client`, created fresh where there was
    /// none: every transaction does this, whether or not it takes effect.
    pub open spec fn touched(self, client: u16) -> EngineView {
        self.with_account(client, self.account(client))
    }

    /// Whether transaction `id` is recorded as a transaction of `client`.
    pub open spec fn recorded_for(self, id: u32, client: u16) -> bool {
        self.history.contains_key(id) && self.history[id].0 == client
    }

    /// Whether transaction `id` is under dispute now.
    pub open spec fn under_dispute(self, id: u32) -> bool {
        self.disputed.contains_key(id) && self.disputed[id]
    }

    /// Every amount in the state is a valid decimal.
    pub open spec fn wf(self) -> bool {
        &&& forall|c: u16|
            #![trigger self.accounts[c]]
            self.accounts.contains_key(c) ==> self.accounts[c].available.valid()
                && self.accounts[c].held.valid()
        &&& forall|id: u32|
            #![trigger self.history[id]]
            self.history.contains_key(id) ==> self.history[id].1.valid()
    }
}

/// A deposit credits the amount to the available funds and is recorded.
pub open spec fn deposit_step(s: EngineView, tx: Transaction) -> Option<EngineView> {
    let acct = s.account(tx.client);
    let amount = tx_amount(tx);
    match checked_sum(acct.available, amount) {
        Some(available) => Some(
            EngineView {
                accounts: s.accounts.insert(tx.client, Account { available, ..acct }),
                history: s.history.insert(tx.tx, (tx.client, amount, TransactionType::Deposit)),
                disputed: s.disputed,
            },
        ),
        None => None,
    }
}

/// A withdrawal takes effect, and is recorded, only where the available
/// funds are at least the amount.
pub open spec fn withdrawal_step(s: EngineView, tx: Transaction) -> Option<EngineView> {
    let acct = s.account(tx.client);
    let amount = tx_amount(tx);
    if acct.available.units() >= amount.units() {
        match checked_difference(acct.available, amount) {
            Some(available) => Some(
                EngineView {
                    accounts: s.accounts.insert(tx.client, Account { available, ..acct }),
                    history: s.history.insert(
                        tx.tx,
                        (tx.client, amount, TransactionType::Withdrawal),
                    ),
                    disputed: s.disputed,
                },
            ),
            None => None,
        }
    } else {
        Some(s.touched(tx.client))
    }
}

/// A dispute of a recorded transaction of the same client, never disputed
/// before, moves its amount to the held funds (out of the available funds
/// for a deposit) and marks it as under dispute.
pub open spec fn dispute_step(s: EngineView, tx: Transaction) -> Option<EngineView> {
    let acct = s.account(tx.client);
    if !s.disputed.contains_key(tx.tx) && s.recorded_for(tx.tx, tx.client) {
        let amount = s.history[tx.tx].1;
        let available = if s.history[tx.tx].2 == TransactionType::Deposit {
            checked_difference(acct.available, amount)
        } else {
            Some(acct.available)
        };
        let held = checked_sum(acct.held, amount);
        if available is Some && held is Some {
            Some(
                EngineView {
                    accounts: s.accounts.insert(
                        tx.client,
                        Account { available: available.unwrap(), held: held.unwrap(), ..acct },
                    ),
                    history: s.history,
                    disputed: s.disputed.insert(tx.tx, true),
                },
            )
        } else {
            None
        }
    } else {
        Some(s.touched(tx.client))
    }
}

/// A resolve of a transaction of the same client under dispute releases
/// its amount from the held funds (back to the available funds for a
/// deposit) and ends the dispute.
pub open spec fn resolve_step(s: EngineView, tx: Transaction) -> Option<EngineView> {
    let acct = s.account(tx.client);
    if s.under_dispute(tx.tx) && s.recorded_for(tx.tx, tx.client) {
        let amount = s.history[tx.tx].1;
        let held = checked_difference(acct.held, amount);
        let available = if s.history[tx.tx].2 == TransactionType::Deposit {
            checked_sum(acct.available, amount)
        } else {
            Some(acct.available)
        };
        if held is Some && available is Some {
            Some(
                EngineView {
                    accounts: s.accounts.insert(
                        tx.client,
                        Account { available: available.unwrap(), held: held.unwrap(), ..acct },
                    ),
                    history: s.history,
                    disputed: s.disputed.insert(tx.tx, false),
                },
            )
        } else {
            None
        }
    } else {
        Some(s.touched(tx.client))
    }
}

/// A chargeback of a transaction of the same client under dispute removes
/// its amount from the held funds, locks the account and ends the dispute.
pub open spec fn chargeback_step(s: EngineView, tx: Transaction) -> Option<EngineView> {
    let acct = s.account(tx.client);
    if s.under_dispute(tx.tx) && s.recorded_for(tx.tx, tx.client) {
        let amount = s.history[tx.tx].1;
        match checked_difference(acct.held, amount) {
            Some(held) => Some(
                EngineView {
                    accounts: s.accounts.insert(
                        tx.client,
                        Account { held, locked: true, ..acct },
                    ),
                    history: s.history,
                    disputed: s.disputed.insert(tx.tx, false),
                },
            ),
            None => None,
        }
    } else {
        Some(s.touched(tx.client))
    }
}

/// The state after one transaction, or `None` where the arithmetic would
/// overflow the decimal range. A transaction on a locked account only
/// makes sure the account exists; so does any transaction that does not
/// take effect.
pub open spec fn step(s: EngineView, tx: Transaction) -> Option<EngineView> {
    if s.account(tx.client).locked {
        Some(s.touched(tx.client))
    } else {
        match tx.tx_type {
            TransactionType::Deposit => deposit_step(s, tx),
            TransactionType::Withdrawal => withdrawal_step(s, tx),
            TransactionType::Dispute => dispute_step(s, tx),
            TransactionType::Resolve => resolve_step(s, tx),
            TransactionType::Chargeback => chargeback_step(s, tx),
        }
    }
}

/// The state after the transactions in order, or `None` where one of them
/// would overflow the decimal range.
pub open spec fn run(s: EngineView, txs: Seq<Transaction>) -> Option<EngineView>
    decreases txs.len(),
{
    if txs.len() == 0 {
        Some(s)
    } else {
        match step(s, txs[0]) {
            Some(next) => run(next, txs.drop_first()),
            None => None,
        }
    }
}

/// Running from position `i` is one step and then running from `i + 1`.
proof fn lemma_skip_step(txs: Seq<Transaction>, i: int)
    requires
        0 <= i < txs.len(),
    ensures
        txs.skip(i)[0] == txs[i],
        txs.skip(i).drop_first() == txs.skip(i + 1),
        txs.skip(i).len() > 0,
{
    assert(txs.skip(i).drop_first() =~= txs.skip(i + 1));
}

/// The changes one transaction makes: the client's new account, the record
/// to add and the dispute status to set.
struct Update {
    account: Account,
    record: Option<(u32, Record)>,
    mark: Option<(u32, bool)>,
}

spec fn applied(s: EngineView, client: u16, u: Update) -> EngineView {
    EngineView {
        accounts: s.accounts.insert(client, u.account),
        history: match u.record {
            Some(r) => s.history.insert(r.0, r.1),
            None => s.history,
        },
        disputed: match u.mark {
            Some(m) => s.disputed.insert(m.0, m.1),
            None => s.disputed,
        },
    }
}

/// The engine: client accounts, the deposits and withdrawals that took
/// effect, and the dispute status of disputed transactions.
pub struct Engine {
    pub accounts: HashMap<u16, Account>,
    tx_history: HashMap<u32, Record>,
    disputed: HashMap<u32, bool>,
}

impl View for Engine {
    type V = EngineView;

    closed spec fn view(&self) -> EngineView {
        EngineView {
            accounts: self.accounts@,
            history: self.tx_history@,
            disputed: self.disputed@,
        }
    }
}

impl Engine {
    /// An engine with no accounts and no history.
    pub fn new() -> (r: Engine)
        ensures
            r@ == EngineView::empty(),
            r@.wf(),
    {
        Engine { accounts: HashMap::new(), tx_history: HashMap::new(), disputed: HashMap::new() }
    }

    /// The account of `client`, where there is one.
    pub fn account(&self, client: u16) -> (r: Option<Account>)
        ensures
            r == (if self@.accounts.contains_key(client) {
                Some(self@.accounts[client])
            } else {
                None
            }),
    {
        match self.accounts.get(&client) {
            Some(a) => Some(*a),
            None => None,
        }
    }

    fn account_of(&self, client: u16) -> (r: Account)
        ensures
            r == self@.account(client),
    {
        match self.accounts.get(&client) {
            Some(a) => *a,
            None => Account::default(),
        }
    }

    fn record_of(&self, id: u32) -> (r: Option<Record>)
        ensures
            r == (if self@.history.contains_key(id) {
                Some(self@.history[id])
            } else {
                None
            }),
    {
        match self.tx_history.get(&id) {
            Some(r) => Some(*r),
            None => None,
        }
    }

    fn status_of(&self, id: u32) -> (r: Option<bool>)
        ensures
            r == (if self@.disputed.contains_key(id) {
                Some(self@.disputed[id])
            } else {
                None
            }),
    {
        match self.disputed.get(&id) {
            Some(b) => Some(*b),
            None => None,
        }
    }

    /// The changes `tx` makes, or `None` where its arithmetic overflows.
    fn plan(&self, tx: &Transaction) -> (r: Option<Update>)
        ensures
            match r {
                Some(u) => step(self@, *tx) == Some(applied(self@, tx.client, u)),
                None => step(self@, *tx) is None,
            },
    {
        let acct = self.account_of(tx.client);
        let unchanged = Update { account: acct, record: None, mark: None };
        proof {
            assert(applied(self@, tx.client, unchanged) == self@.touched(tx.client));
        }
        if acct.locked {
            return Some(unchanged);
        }
        match tx.tx_type {
            TransactionType::Deposit => {
                let amount = tx.amount_or_zero();
                match acct.available.checked_add(&amount) {
                    Some(available) => Some(
                        Update {
                            account: Account { available, ..acct },
                            record: Some((tx.tx, (tx.client, amount, TransactionType::Deposit))),
                            mark: None,
                        },
                    ),
                    None => None,
                }
            },
            TransactionType::Withdrawal => {
                let amount = tx.amount_or_zero();
                if acct.available.is_at_least(&amount) {
                    match acct.available.checked_sub(&amount) {
                        Some(available) => Some(
                            Update {
                                account: Account { available, ..acct },
                                record: Some(
                                    (tx.tx, (tx.client, amount, TransactionType::Withdrawal)),
                                ),
                                mark: None,
                            },
                        ),
                        None => None,
                    }
                } else {
                    Some(unchanged)
                }
            },
            TransactionType::Dispute => {
                if self.status_of(tx.tx).is_some() {
                    return Some(unchanged);
                }
                match self.record_of(tx.tx) {
                    Some((client, amount, kind)) => {
                        if client != tx.client {
                            return Some(unchanged);
                        }
                        let available = if kind == TransactionType::Deposit {
                            acct.available.checked_sub(&amount)
                        } else {
                            Some(acct.available)
                        };
                        let held = acct.held.checked_add(&amount);
                        match (available, held) {
                            (Some(available), Some(held)) => Some(
                                Update {
                                    account: Account { available, held, ..acct },
                                    record: None,
                                    mark: Some((tx.tx, true)),
                                },
                            ),
                            _ => None,
                        }
                    },
                    None => Some(unchanged),
                }
            },
            TransactionType::Resolve => {
                if self.status_of(tx.tx) != Some(true) {
                    return Some(unchanged);
                }
                match self.record_of(tx.tx) {
                    Some((client, amount, kind)) => {
                        if client != tx.client {
                            return Some(unchanged);
                        }
                        let held = acct.held.checked_sub(&amount);
                        let available = if kind == TransactionType::Deposit {
                            acct.available.checked_add(&amount)
                        } else {
                            Some(acct.available)
                        };
                        match (available, held) {
                            (Some(available), Some(held)) => Some(
                                Update {
                                    account: Account { available, held, ..acct },
                                    record: None,
                                    mark: Some((tx.tx, false)),
                                },
                            ),
                            _ => None,
                        }
                    },
                    None => Some(unchanged),
                }
            },
            TransactionType::Chargeback => {
                if self.status_of(tx.tx) != Some(true) {
                    return Some(unchanged);
                }
                match self.record_of(tx.tx) {
                    Some((client, amount, _)) => {
                        if client != tx.client {
                            return Some(unchanged);
                        }
                        match acct.held.checked_sub(&amount) {
                            Some(held) => Some(
                                Update {
                                    account: Account { held, locked: true, ..acct },
                                    record: None,
                                    mark: Some((tx.tx, false)),
                                },
                            ),
                            None => None,
                        }
                    },
                    None => Some(unchanged),
                }
            },
        }
    }

    /// Whether `tx` can be processed without leaving the decimal range.
    pub fn can_process(&self, tx: &Transaction) -> (r: bool)
        ensures
            r == step(self@, *tx) is Some,
    {
        self.plan(tx).is_some()
    }

    /// Applies one transaction.
    ///
    /// `Decimal` arithmetic panics where a balance would leave the decimal
    /// range; the `requires` leaves those transactions out.
    pub fn process(&mut self, tx: Transaction)
        requires
            step(old(self)@, tx) is Some,
        ensures
            final(self)@ == step(old(self)@, tx).unwrap(),
            old(self)@.wf() ==> final(self)@.wf(),
    {
        match self.plan(&tx) {
            Some(u) => self.apply(tx.client, u),
            None => {},
        }
    }

    /// Applies one transaction where that keeps every balance in the
    /// decimal range, and says whether it did; otherwise leaves the engine
    /// unchanged.
    pub fn try_process(&mut self, tx: Transaction) -> (r: bool)
        ensures
            r == step(old(self)@, tx) is Some,
            final(self)@ == (match step(old(self)@, tx) {
                Some(next) => next,
                None => old(self)@,
            }),
            old(self)@.wf() ==> final(self)@.wf(),
    {
        if self.can_process(&tx) {
            self.process(tx);
            true
        } else {
            false
        }
    }

    /// Applies the transactions in order.
    ///
    /// `Decimal` arithmetic panics where a balance would leave the decimal
    /// range; the `requires` leaves such sequences out.
    pub fn process_all(&mut self, transactions: Vec<Transaction>)
        requires
            run(old(self)@, transactions@) is Some,
        ensures
            final(self)@ == run(old(self)@, transactions@).unwrap(),
            old(self)@.wf() ==> final(self)@.wf(),
    {
        let ghost start = self@;
        let n = transactions.len();
        assert(transactions@.skip(0) =~= transactions@);
        for i in 0..n
            invariant
                n == transactions@.len(),
                run(self@, transactions@.skip(i as int)) == run(start, transactions@),
                run(start, transactions@) is Some,
                start.wf() ==> self@.wf(),
        {
            proof {
                lemma_skip_step(transactions@, i as int);
            }
            self.process(transactions[i]);
        }
        proof {
            assert(transactions@.skip(n as int).len() == 0);
        }
    }

    /// Applies the transactions in order where none of them takes a balance
    /// out of the decimal range, and says whether it did; otherwise leaves
    /// the engine unchanged.
    pub fn try_process_all(&mut self, transactions: Vec<Transaction>) -> (r: bool)
        ensures
            r == run(old(self)@, transactions@) is Some,
            final(self)@ == (match run(old(self)@, transactions@) {
                Some(end) => end,
                None => old(self)@,
            }),
            old(self)@.wf() ==> final(self)@.wf(),
    {
        let mut trial = Engine {
            accounts: self.accounts.clone(),
            tx_history: self.tx_history.clone(),
            disputed: self.disputed.clone(),
        };
        let n = transactions.len();
        assert(transactions@.skip(0) =~= transactions@);
        for i in 0..n
            invariant
                n == transactions@.len(),
                run(trial@, transactions@.skip(i as int)) == run(self@, transactions@),
        {
            proof {
                lemma_skip_step(transactions@, i as int);
            }
            if !trial.can_process(&transactions[i]) {
                return false;
            }
            trial.process(transactions[i]);
        }
        proof {
            assert(transactions@.skip(n as int).len() == 0);
        }
        self.process_all(transactions);
        true
    }

    fn apply(&mut self, client: u16, u: Update)
        ensures
            final(self)@ == applied(old(self)@, client, u),
            old(self)@.wf() ==> final(self)@.wf(),
    {
        let ghost before = self@;
        proof {
            use_type_invariant(&u.account.available);
            use_type_invariant(&u.account.held);
        }
        self.accounts.insert(client, u.account);
        proof {
            if before.wf() {
                assert forall|c: u16| self@.accounts.contains_key(c) implies #[trigger] self@.accounts[
                    c
                ].available.valid() && self@.accounts[c].held.valid() by {
                    if c != client {
                        assert(before.accounts.contains_key(c));
                        assert(before.accounts[c] == self@.accounts[c]);
                    }
                }
            }
        }
        match u.record {
            Some((id, r)) => {
                proof {
                    use_type_invariant(&r.1);
                }
                let ghost mid = self@;
                self.tx_history.insert(id, r);
                proof {
                    if before.wf() {
                        assert forall|k: u32| self@.history.contains_key(k) implies #[trigger] self@.history[
                            k
                        ].1.valid() by {
                            if k != id {
                                assert(mid.history.contains_key(k));
                                assert(before.history[k] == self@.history[k]);
                            }
                        }
                    }
                }
            },
            None => {},
        }
        match u.mark {
            Some((id, m)) => {
                self.disputed.insert(id, m);
            },
            None => {},
        }
    }
}

} // verus!
