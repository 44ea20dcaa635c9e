//! What holds of the engine over every state and transaction.
use crate::account::Account;
use crate::amount::{
    checked_difference, checked_sum, difference_fits, law_four_places_difference_exact,
    law_four_places_sum_exact, lemma_difference_exact, lemma_sum_exact, pow10, sum_fits, Amount,
    MAX_MANTISSA,
};
use crate::engine::{step, EngineView, Record};
use crate::transaction::{tx_amount, Transaction, TransactionType};
use vstd::prelude::*;

verus! {

/// The transaction of the given kind, client and id that carries no amount.
pub open spec fn bare(tx_type: TransactionType, client: u16, id: u32) -> Transaction {
    Transaction { tx_type, client, tx: id, amount: None }
}

/// Whether a dispute of `r` from account `a` needs no rounding.
pub open spec fn dispute_exact(a: Account, r: Record) -> bool {
    &&& r.2 == TransactionType::Deposit ==> difference_fits(a.available, r.1)
    &&& sum_fits(a.held, r.1)
}

/// Whether a resolve of `r` on account `a` needs no rounding.
pub open spec fn resolve_exact(a: Account, r: Record) -> bool {
    &&& difference_fits(a.held, r.1)
    &&& r.2 == TransactionType::Deposit ==> sum_fits(a.available, r.1)
}

/// Account `a` after a dispute of `r`.
pub open spec fn disputed_account(a: Account, r: Record) -> Account {
    Account {
        available: if r.2 == TransactionType::Deposit {
            checked_difference(a.available, r.1).unwrap()
        } else {
            a.available
        },
        held: checked_sum(a.held, r.1).unwrap(),
        locked: a.locked,
    }
}

/// Every disputed transaction is a recorded one.
pub open spec fn disputes_recorded(s: EngineView) -> bool {
    forall|id: u32| s.disputed.contains_key(id) ==> #[trigger] s.history.contains_key(id)
}

proof fn lemma_touched_same(s: EngineView, client: u16)
    requires
        s.accounts.contains_key(client),
    ensures
        s.touched(client) == s,
{
    assert(s.accounts.insert(client, s.accounts[client]) =~= s.accounts);
}

proof fn lemma_account_valid(s: EngineView, client: u16)
    requires
        s.wf(),
    ensures
        s.account(client).available.valid(),
        s.account(client).held.valid(),
{
    if s.accounts.contains_key(client) {
        assert(s.accounts[client].available.valid());
    } else {
        Amount::lemma_zero_valid();
    }
}

/// A locked account ignores every transaction: the state stays as it is.
pub proof fn law_locked_account_ignores_transactions(s: EngineView, tx: Transaction)
    requires
        s.accounts.contains_key(tx.client),
        s.accounts[tx.client].locked,
    ensures
        step(s, tx) == Some(s),
{
    lemma_touched_same(s, tx.client);
}

/// A transaction changes no account but its own client's, no record and no
/// dispute status but those of its own id, and never forgets an account.
pub proof fn law_transaction_is_local(s: EngineView, tx: Transaction)
    requires
        step(s, tx) is Some,
    ensures
        ({
            let t = step(s, tx).unwrap();
            &&& t.accounts.contains_key(tx.client)
            &&& forall|c: u16| c != tx.client ==> #[trigger] t.accounts.contains_key(c) == s.accounts.contains_key(c)
            &&& forall|c: u16| c != tx.client && s.accounts.contains_key(c) ==> #[trigger] t.accounts[c] == s.accounts[c]
            &&& forall|id: u32| id != tx.tx ==> #[trigger] t.history.contains_key(id) == s.history.contains_key(id)
            &&& forall|id: u32| id != tx.tx && s.history.contains_key(id) ==> #[trigger] t.history[id] == s.history[id]
            &&& forall|id: u32| id != tx.tx ==> #[trigger] t.disputed.contains_key(id) == s.disputed.contains_key(id)
            &&& forall|id: u32| id != tx.tx && s.disputed.contains_key(id) ==> #[trigger] t.disputed[id] == s.disputed[id]
        }),
{
}

/// A transaction that is disputed, or was, cannot be disputed again: the
/// dispute only makes sure the account exists.
pub proof fn law_dispute_only_once(s: EngineView, client: u16, id: u32)
    requires
        s.disputed.contains_key(id),
    ensures
        step(s, bare(TransactionType::Dispute, client, id)) == Some(s.touched(client)),
{
}

/// A resolve or chargeback of a transaction not under dispute is ignored:
/// it only makes sure the account exists.
pub proof fn law_settle_needs_dispute(s: EngineView, tx: Transaction)
    requires
        tx.tx_type == TransactionType::Resolve || tx.tx_type == TransactionType::Chargeback,
        !s.under_dispute(tx.tx),
    ensures
        step(s, tx) == Some(s.touched(tx.client)),
{
}

/// A dispute, resolve or chargeback that names no recorded transaction of
/// the same client (none at all, a failed withdrawal, another client's) is
/// ignored: it only makes sure the account exists.
pub proof fn law_foreign_or_unknown_ignored(s: EngineView, tx: Transaction)
    requires
        tx.tx_type == TransactionType::Dispute || tx.tx_type == TransactionType::Resolve
            || tx.tx_type == TransactionType::Chargeback,
        !s.recorded_for(tx.tx, tx.client),
    ensures
        step(s, tx) == Some(s.touched(tx.client)),
{
}

/// A withdrawal of more than the available funds is ignored, and so is not
/// recorded.
pub proof fn law_withdrawal_needs_funds(s: EngineView, tx: Transaction)
    requires
        tx.tx_type == TransactionType::Withdrawal,
        s.account(tx.client).available.units() < tx_amount(tx).units(),
    ensures
        step(s, tx) == Some(s.touched(tx.client)),
{
}

/// A withdrawal that failed for want of funds left no record, so a later
/// dispute of its id (not used before) changes nothing.
pub proof fn law_failed_withdrawal_cannot_be_disputed(s: EngineView, tx: Transaction)
    requires
        tx.tx_type == TransactionType::Withdrawal,
        s.account(tx.client).available.units() < tx_amount(tx).units(),
        !s.history.contains_key(tx.tx),
    ensures
        step(s, tx) is Some,
        step(step(s, tx).unwrap(), bare(TransactionType::Dispute, tx.client, tx.tx)) == Some(
            step(s, tx).unwrap(),
        ),
{
    let t = step(s, tx).unwrap();
    assert(t == s.touched(tx.client));
    lemma_touched_same(t, tx.client);
}

/// A dispute's status only moves one way: undisputed, then under dispute,
/// then settled for good. No entry is ever dropped, and a settled one stays
/// settled.
pub proof fn law_dispute_lifecycle_one_way(s: EngineView, tx: Transaction, id: u32)
    requires
        step(s, tx) is Some,
        s.disputed.contains_key(id),
    ensures
        step(s, tx).unwrap().disputed.contains_key(id),
        !s.disputed[id] ==> !step(s, tx).unwrap().disputed[id],
{
}

/// Every disputed transaction stays a recorded one.
pub proof fn law_disputes_stay_recorded(s: EngineView, tx: Transaction)
    requires
        disputes_recorded(s),
        step(s, tx) is Some,
    ensures
        disputes_recorded(step(s, tx).unwrap()),
{
    let t = step(s, tx).unwrap();
    assert forall|id: u32| t.disputed.contains_key(id) implies #[trigger] t.history.contains_key(id) by {
        if id != tx.tx {
            assert(s.disputed.contains_key(id));
        }
    }
}

/// Deposits and withdrawals never touch the dispute statuses: the
/// transaction they record starts out undisputed (unless its id was
/// disputed before), so a later dispute of it by the same client takes
/// effect.
pub proof fn law_recording_keeps_disputes(s: EngineView, tx: Transaction)
    requires
        tx.tx_type == TransactionType::Deposit || tx.tx_type == TransactionType::Withdrawal,
        step(s, tx) is Some,
    ensures
        step(s, tx).unwrap().disputed == s.disputed,
{
}

/// A deposit of amount `a` to an unlocked account raises its available
/// funds by exactly `a` (where the sum needs no rounding), leaves its held
/// funds, lock and the dispute statuses as they were, and records `a` as a
/// deposit of the client under the transaction's id.
pub proof fn law_deposit_adds_given_amount(s: EngineView, tx: Transaction, a: Amount)
    requires
        s.wf(),
        a.valid(),
        tx.tx_type == TransactionType::Deposit,
        tx.amount == Some(a),
        !s.account(tx.client).locked,
        sum_fits(s.account(tx.client).available, a),
    ensures
        step(s, tx) is Some,
        step(s, tx).unwrap().account(tx.client).available.units() == s.account(
            tx.client,
        ).available.units() + a.units(),
        step(s, tx).unwrap().account(tx.client).held == s.account(tx.client).held,
        !step(s, tx).unwrap().account(tx.client).locked,
        step(s, tx).unwrap().disputed == s.disputed,
        step(s, tx).unwrap().history[tx.tx] == (tx.client, a, TransactionType::Deposit),
{
    lemma_account_valid(s, tx.client);
    lemma_sum_exact(s.account(tx.client).available, a);
}

/// A deposit that carries no amount credits nothing.
pub proof fn law_deposit_without_amount_adds_nothing(s: EngineView, tx: Transaction)
    requires
        s.wf(),
        tx.tx_type == TransactionType::Deposit,
        tx.amount is None,
        !s.account(tx.client).locked,
    ensures
        step(s, tx) is Some,
        step(s, tx).unwrap().account(tx.client).available.units() == s.account(
            tx.client,
        ).available.units(),
{
    lemma_account_valid(s, tx.client);
    Amount::lemma_zero_valid();
    let z = Amount::zero_spec();
    let av = s.account(tx.client).available;
    assert(z.mantissa_of() == 0) by {
        Amount::lemma_from_parts(0, 0);
    }
    av.lemma_valid_parts();
    assert(sum_fits(av, z));
    lemma_sum_exact(av, z);
}

/// A withdrawal of amount `a` from an unlocked account lowers its available
/// funds by exactly `a` where they are at least `a` (and the difference needs
/// no rounding), recording `a` as a withdrawal and leaving held funds and
/// dispute statuses as they were; where they are less than `a` it changes
/// nothing and records nothing.
pub proof fn law_withdrawal_takes_given_amount(s: EngineView, tx: Transaction, a: Amount)
    requires
        s.wf(),
        a.valid(),
        tx.tx_type == TransactionType::Withdrawal,
        tx.amount == Some(a),
        !s.account(tx.client).locked,
        s.account(tx.client).available.units() >= a.units() ==> difference_fits(
            s.account(tx.client).available,
            a,
        ),
    ensures
        step(s, tx) is Some,
        s.account(tx.client).available.units() >= a.units() ==> {
            &&& step(s, tx).unwrap().account(tx.client).available.units() == s.account(
                tx.client,
            ).available.units() - a.units()
            &&& step(s, tx).unwrap().account(tx.client).held == s.account(tx.client).held
            &&& step(s, tx).unwrap().disputed == s.disputed
            &&& step(s, tx).unwrap().history[tx.tx] == (
                tx.client,
                a,
                TransactionType::Withdrawal,
            )
        },
        s.account(tx.client).available.units() < a.units() ==> step(s, tx) == Some(
            s.touched(tx.client),
        ),
{
    lemma_account_valid(s, tx.client);
    if s.account(tx.client).available.units() >= a.units() {
        lemma_difference_exact(s.account(tx.client).available, a);
    }
}

/// A deposit to an unlocked account credits its amount to the available
/// funds (exactly, where the sum needs no rounding) and is recorded.
pub proof fn law_deposit_credits(s: EngineView, tx: Transaction)
    requires
        s.wf(),
        tx_amount(tx).valid(),
        tx.tx_type == TransactionType::Deposit,
        !s.account(tx.client).locked,
        sum_fits(s.account(tx.client).available, tx_amount(tx)),
    ensures
        step(s, tx) is Some,
        step(s, tx).unwrap().account(tx.client).available.units() == s.account(
            tx.client,
        ).available.units() + tx_amount(tx).units(),
        step(s, tx).unwrap().account(tx.client).held == s.account(tx.client).held,
        step(s, tx).unwrap().history[tx.tx] == (tx.client, tx_amount(tx), TransactionType::Deposit),
{
    lemma_account_valid(s, tx.client);
    lemma_sum_exact(s.account(tx.client).available, tx_amount(tx));
}

/// A withdrawal from an unlocked account with enough available funds debits
/// its amount (exactly, where the difference needs no rounding) and is
/// recorded.
pub proof fn law_withdrawal_debits(s: EngineView, tx: Transaction)
    requires
        s.wf(),
        tx_amount(tx).valid(),
        tx.tx_type == TransactionType::Withdrawal,
        !s.account(tx.client).locked,
        s.account(tx.client).available.units() >= tx_amount(tx).units(),
        difference_fits(s.account(tx.client).available, tx_amount(tx)),
    ensures
        step(s, tx) is Some,
        step(s, tx).unwrap().account(tx.client).available.units() == s.account(
            tx.client,
        ).available.units() - tx_amount(tx).units(),
        step(s, tx).unwrap().history[tx.tx] == (
            tx.client,
            tx_amount(tx),
            TransactionType::Withdrawal,
        ),
{
    lemma_account_valid(s, tx.client);
    lemma_difference_exact(s.account(tx.client).available, tx_amount(tx));
}

proof fn lemma_dispute_effect(s: EngineView, client: u16, id: u32)
    requires
        s.wf(),
        !s.account(client).locked,
        !s.disputed.contains_key(id),
        s.recorded_for(id, client),
        dispute_exact(s.account(client), s.history[id]),
    ensures
        step(s, bare(TransactionType::Dispute, client, id)) == Some(
            s.with_account(client, disputed_account(s.account(client), s.history[id])).with_dispute(id, true),
        ),
        disputed_account(s.account(client), s.history[id]).available.valid(),
        disputed_account(s.account(client), s.history[id]).held.valid(),
        disputed_account(s.account(client), s.history[id]).available.units() == s.account(
            client,
        ).available.units() - (if s.history[id].2 == TransactionType::Deposit {
            s.history[id].1.units()
        } else {
            0
        }),
        disputed_account(s.account(client), s.history[id]).held.units() == s.account(
            client,
        ).held.units() + s.history[id].1.units(),
{
    let a = s.account(client);
    let r = s.history[id];
    assert(r.1.valid());
    lemma_account_valid(s, client);
    if r.2 == TransactionType::Deposit {
        lemma_difference_exact(a.available, r.1);
    }
    lemma_sum_exact(a.held, r.1);
}

/// Disputing a deposit holds its amount: available funds fall by it, held
/// funds rise by it, and the total stays the same (where neither needs
/// rounding). Disputing a withdrawal adds its amount to the held funds.
pub proof fn law_dispute_holds_funds(s: EngineView, client: u16, id: u32)
    requires
        s.wf(),
        !s.account(client).locked,
        !s.disputed.contains_key(id),
        s.recorded_for(id, client),
        dispute_exact(s.account(client), s.history[id]),
    ensures
        ({
            let t = step(s, bare(TransactionType::Dispute, client, id)).unwrap();
            let before = s.account(client);
            let after = t.account(client);
            let x = s.history[id].1.units();
            &&& step(s, bare(TransactionType::Dispute, client, id)) is Some
            &&& t.under_dispute(id)
            &&& after.held.units() == before.held.units() + x
            &&& s.history[id].2 == TransactionType::Deposit ==> after.available.units()
                == before.available.units() - x && after.available.units() + after.held.units()
                == before.available.units() + before.held.units()
            &&& s.history[id].2 != TransactionType::Deposit ==> after.available
                == before.available
        }),
{
    lemma_dispute_effect(s, client, id);
}

/// Resolving a dispute undoes it: the account's available and held funds
/// come back to their values before the dispute (where no step needs
/// rounding), and the dispute is settled for good.
pub proof fn law_resolve_undoes_dispute(s: EngineView, client: u16, id: u32)
    requires
        s.wf(),
        !s.account(client).locked,
        !s.disputed.contains_key(id),
        s.recorded_for(id, client),
        dispute_exact(s.account(client), s.history[id]),
        resolve_exact(disputed_account(s.account(client), s.history[id]), s.history[id]),
    ensures
        ({
            let t = step(s, bare(TransactionType::Dispute, client, id)).unwrap();
            let u = step(t, bare(TransactionType::Resolve, client, id));
            &&& step(s, bare(TransactionType::Dispute, client, id)) is Some
            &&& u is Some
            &&& u.unwrap().account(client).available.units() == s.account(
                client,
            ).available.units()
            &&& u.unwrap().account(client).held.units() == s.account(client).held.units()
            &&& !u.unwrap().account(client).locked
            &&& u.unwrap().history == s.history
            &&& u.unwrap().disputed == s.disputed.insert(id, false)
        }),
{
    let a = s.account(client);
    let r = s.history[id];
    lemma_dispute_effect(s, client, id);
    let d = disputed_account(a, r);
    lemma_difference_exact(d.held, r.1);
    if r.2 == TransactionType::Deposit {
        lemma_sum_exact(d.available, r.1);
    }
    let t = step(s, bare(TransactionType::Dispute, client, id)).unwrap();
    assert(t.account(client) == d);
    assert(t.disputed.insert(id, false) =~= s.disputed.insert(id, false));
}

/// An amount of at most four decimal places within a tenth of the range
/// that four places allow (about 7.9e23 in magnitude).
pub open spec fn small_four_places(a: Amount) -> bool {
    &&& a.valid()
    &&& a.scale_of() <= 4
    &&& -(MAX_MANTISSA * pow10(23)) <= a.units() <= MAX_MANTISSA * pow10(23)
}

/// With balances and amount of at most four decimal places and in that
/// range, no step of a dispute and its resolve needs rounding: the resolve
/// gives back exactly what the dispute held.
pub proof fn law_resolve_undoes_dispute_four_places(s: EngineView, client: u16, id: u32)
    requires
        s.wf(),
        !s.account(client).locked,
        !s.disputed.contains_key(id),
        s.recorded_for(id, client),
        small_four_places(s.account(client).available),
        small_four_places(s.account(client).held),
        small_four_places(s.history[id].1),
    ensures
        dispute_exact(s.account(client), s.history[id]),
        resolve_exact(disputed_account(s.account(client), s.history[id]), s.history[id]),
        ({
            let t = step(s, bare(TransactionType::Dispute, client, id)).unwrap();
            let u = step(t, bare(TransactionType::Resolve, client, id));
            &&& step(s, bare(TransactionType::Dispute, client, id)) is Some
            &&& u is Some
            &&& u.unwrap().account(client).available.units() == s.account(
                client,
            ).available.units()
            &&& u.unwrap().account(client).held.units() == s.account(client).held.units()
            &&& !u.unwrap().account(client).locked
            &&& u.unwrap().history == s.history
            &&& u.unwrap().disputed == s.disputed.insert(id, false)
        }),
{
    let a = s.account(client);
    let x = s.history[id].1;
    assert(pow10(24) == 10 * pow10(23));
    law_four_places_sum_exact(a.held, x);
    let held = checked_sum(a.held, x).unwrap();
    law_four_places_difference_exact(held, x);
    if s.history[id].2 == TransactionType::Deposit {
        law_four_places_difference_exact(a.available, x);
        let available = checked_difference(a.available, x).unwrap();
        law_four_places_sum_exact(available, x);
    }
    law_resolve_undoes_dispute(s, client, id);
}

/// A chargeback after a dispute takes the amount out of the held funds,
/// which come back to their value before the dispute, leaves the available
/// funds as the dispute left them (reduced by the amount of a deposit,
/// unchanged for a withdrawal), where no step needs rounding, and locks the
/// account.
pub proof fn law_chargeback_reverses(s: EngineView, client: u16, id: u32)
    requires
        s.wf(),
        !s.account(client).locked,
        !s.disputed.contains_key(id),
        s.recorded_for(id, client),
        dispute_exact(s.account(client), s.history[id]),
        difference_fits(disputed_account(s.account(client), s.history[id]).held, s.history[id].1),
    ensures
        ({
            let t = step(s, bare(TransactionType::Dispute, client, id)).unwrap();
            let u = step(t, bare(TransactionType::Chargeback, client, id));
            &&& step(s, bare(TransactionType::Dispute, client, id)) is Some
            &&& u is Some
            &&& u.unwrap().account(client).available.units() == s.account(
                client,
            ).available.units() - (if s.history[id].2 == TransactionType::Deposit {
                s.history[id].1.units()
            } else {
                0
            })
            &&& u.unwrap().account(client).held.units() == s.account(client).held.units()
            &&& u.unwrap().account(client).locked
            &&& u.unwrap().history == s.history
            &&& u.unwrap().disputed == s.disputed.insert(id, false)
        }),
{
    let a = s.account(client);
    let r = s.history[id];
    lemma_dispute_effect(s, client, id);
    let d = disputed_account(a, r);
    lemma_difference_exact(d.held, r.1);
    let t = step(s, bare(TransactionType::Dispute, client, id)).unwrap();
    assert(t.account(client) == d);
    assert(t.disputed.insert(id, false) =~= s.disputed.insert(id, false));
}

} // verus!
