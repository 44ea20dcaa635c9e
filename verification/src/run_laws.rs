//! What holds of the engine over whole runs of transactions.
use crate::engine::{run, step, EngineView};
use crate::laws::{
    disputes_recorded, law_disputes_stay_recorded, law_locked_account_ignores_transactions,
    law_transaction_is_local,
};
use crate::transaction::{Transaction, TransactionType};
use vstd::prelude::*;

verus! {

/// Running `a` and then `b` is running `a + b`: the engine processes each
/// transaction once, in order.
pub proof fn law_run_concatenation(s: EngineView, a: Seq<Transaction>, b: Seq<Transaction>)
    ensures
        run(s, a + b) == (match run(s, a) {
            Some(m) => run(m, b),
            None => None,
        }),
    decreases a.len(),
{
    if a.len() == 0 {
        assert(a + b =~= b);
    } else {
        assert((a + b)[0] == a[0]);
        assert((a + b).drop_first() =~= a.drop_first() + b);
        match step(s, a[0]) {
            Some(next) => law_run_concatenation(next, a.drop_first(), b),
            None => {},
        }
    }
}

/// Once locked, an account never changes again, whatever transactions follow.
pub proof fn law_locked_account_stays(s: EngineView, txs: Seq<Transaction>, c: u16)
    requires
        s.accounts.contains_key(c),
        s.accounts[c].locked,
        run(s, txs) is Some,
    ensures
        run(s, txs).unwrap().accounts.contains_key(c),
        run(s, txs).unwrap().accounts[c] == s.accounts[c],
    decreases txs.len(),
{
    if txs.len() > 0 {
        let t = step(s, txs[0]).unwrap();
        if txs[0].client == c {
            law_locked_account_ignores_transactions(s, txs[0]);
        } else {
            law_transaction_is_local(s, txs[0]);
            assert(t.accounts.contains_key(c));
        }
        law_locked_account_stays(t, txs.drop_first(), c);
    }
}

/// Whether a transaction, where it takes effect, is recorded under its id.
pub open spec fn is_recorded_kind(tx: Transaction) -> bool {
    tx.tx_type == TransactionType::Deposit || tx.tx_type == TransactionType::Withdrawal
}

/// The deposits and withdrawals of `txs` carry distinct ids, none of them
/// already recorded in `s`.
pub open spec fn fresh_ids(s: EngineView, txs: Seq<Transaction>) -> bool {
    &&& forall|i: int, j: int|
        0 <= i < j < txs.len() && is_recorded_kind(#[trigger] txs[i]) && is_recorded_kind(
            #[trigger] txs[j],
        ) ==> txs[i].tx != txs[j].tx
    &&& forall|i: int|
        0 <= i < txs.len() && is_recorded_kind(#[trigger] txs[i]) ==> !s.history.contains_key(
            txs[i].tx,
        )
}

/// The transactions of `txs` submitted by client `c`, in order.
pub open spec fn for_client(txs: Seq<Transaction>, c: u16) -> Seq<Transaction>
    decreases txs.len(),
{
    if txs.len() == 0 {
        txs
    } else if txs[0].client == c {
        seq![txs[0]] + for_client(txs.drop_first(), c)
    } else {
        for_client(txs.drop_first(), c)
    }
}

/// Two states agree on all that client `c`'s transactions can see.
spec fn agree_for(t1: EngineView, t2: EngineView, c: u16) -> bool {
    &&& t1.accounts.contains_key(c) == t2.accounts.contains_key(c)
    &&& t1.account(c) == t2.account(c)
    &&& forall|id: u32| #[trigger] t1.recorded_for(id, c) == t2.recorded_for(id, c)
    &&& forall|id: u32|
        #[trigger] t1.recorded_for(id, c) ==> t1.history[id] == t2.history[id]
            && t1.disputed.contains_key(id) == t2.disputed.contains_key(id) && (
        t1.disputed.contains_key(id) ==> t1.disputed[id] == t2.disputed[id])
    &&& forall|id: u32| #[trigger] t2.history.contains_key(id) ==> t1.history.contains_key(id)
    &&& disputes_recorded(t1)
    &&& disputes_recorded(t2)
}

/// A step changes the history only at the id of a deposit or withdrawal.
pub proof fn lemma_history_keys(s: EngineView, tx: Transaction, id: u32)
    requires
        step(s, tx) is Some,
        step(s, tx).unwrap().history.contains_key(id),
        !s.history.contains_key(id),
    ensures
        is_recorded_kind(tx),
        id == tx.tx,
{
    law_transaction_is_local(s, tx);
}

/// Another client's transaction keeps the agreement.
proof fn lemma_other_client_step(t1: EngineView, t2: EngineView, tx: Transaction, c: u16)
    requires
        agree_for(t1, t2, c),
        tx.client != c,
        step(t1, tx) is Some,
        is_recorded_kind(tx) ==> !t1.history.contains_key(tx.tx),
    ensures
        agree_for(step(t1, tx).unwrap(), t2, c),
{
    let u = step(t1, tx).unwrap();
    law_transaction_is_local(t1, tx);
    law_disputes_stay_recorded(t1, tx);
    assert(u.accounts.contains_key(c) == t1.accounts.contains_key(c));
    assert(u.account(c) == t1.account(c));
    assert forall|id: u32| #[trigger] u.recorded_for(id, c) == t1.recorded_for(id, c) by {
        if id == tx.tx {
            if u.history.contains_key(id) && !t1.history.contains_key(id) {
                lemma_history_keys(t1, tx, id);
            }
        }
    }
    assert forall|id: u32| #[trigger] u.recorded_for(id, c) implies u.history[id] == t2.history[id]
        && u.disputed.contains_key(id) == t2.disputed.contains_key(id) && (
    u.disputed.contains_key(id) ==> u.disputed[id] == t2.disputed[id]) by {
        assert(t1.recorded_for(id, c));
    }
    assert forall|id: u32| #[trigger] t2.history.contains_key(id) implies u.history.contains_key(
        id,
    ) by {
        assert(t1.history.contains_key(id));
    }
}

/// Client `c`'s own transaction has the same effect on both states.
proof fn lemma_own_step(t1: EngineView, t2: EngineView, tx: Transaction, c: u16)
    requires
        agree_for(t1, t2, c),
        tx.client == c,
        step(t1, tx) is Some,
        is_recorded_kind(tx) ==> !t1.history.contains_key(tx.tx),
    ensures
        step(t2, tx) is Some,
        agree_for(step(t1, tx).unwrap(), step(t2, tx).unwrap(), c),
{
    let u1 = step(t1, tx).unwrap();
    law_transaction_is_local(t1, tx);
    law_disputes_stay_recorded(t1, tx);
    if is_recorded_kind(tx) {
        assert(!t2.history.contains_key(tx.tx));
        assert(!t1.disputed.contains_key(tx.tx));
        assert(!t2.disputed.contains_key(tx.tx));
    } else {
        assert(t1.recorded_for(tx.tx, c) == t2.recorded_for(tx.tx, c));
    }
    assert(step(t2, tx) is Some);
    let u2 = step(t2, tx).unwrap();
    law_transaction_is_local(t2, tx);
    law_disputes_stay_recorded(t2, tx);
    assert forall|id: u32| #[trigger] u1.recorded_for(id, c) == u2.recorded_for(id, c) by {
        if id != tx.tx {
            assert(t1.recorded_for(id, c) == t2.recorded_for(id, c));
        }
    }
    assert forall|id: u32| #[trigger] u1.recorded_for(id, c) implies u1.history[id]
        == u2.history[id] && u1.disputed.contains_key(id) == u2.disputed.contains_key(id) && (
    u1.disputed.contains_key(id) ==> u1.disputed[id] == u2.disputed[id]) by {
        if id != tx.tx {
            assert(t1.recorded_for(id, c));
        }
    }
    assert forall|id: u32| #[trigger] u2.history.contains_key(id) implies u1.history.contains_key(
        id,
    ) by {
        if id != tx.tx {
            assert(t2.history.contains_key(id));
        }
    }
}

pub proof fn lemma_fresh_rest(s: EngineView, txs: Seq<Transaction>)
    requires
        txs.len() > 0,
        fresh_ids(s, txs),
        step(s, txs[0]) is Some,
    ensures
        fresh_ids(step(s, txs[0]).unwrap(), txs.drop_first()),
{
    let t = step(s, txs[0]).unwrap();
    let rest = txs.drop_first();
    assert forall|i: int, j: int|
        0 <= i < j < rest.len() && is_recorded_kind(#[trigger] rest[i]) && is_recorded_kind(
            #[trigger] rest[j],
        ) implies rest[i].tx != rest[j].tx by {
        assert(txs[i + 1] == rest[i] && txs[j + 1] == rest[j]);
    }
    assert forall|i: int|
        0 <= i < rest.len() && is_recorded_kind(#[trigger] rest[i]) implies !t.history.contains_key(
        rest[i].tx,
    ) by {
        assert(txs[i + 1] == rest[i]);
        if t.history.contains_key(rest[i].tx) {
            lemma_history_keys(s, txs[0], rest[i].tx);
        }
    }
}

proof fn lemma_noninterference(t1: EngineView, t2: EngineView, txs: Seq<Transaction>, c: u16)
    requires
        agree_for(t1, t2, c),
        fresh_ids(t1, txs),
        run(t1, txs) is Some,
    ensures
        run(t2, for_client(txs, c)) is Some,
        agree_for(run(t1, txs).unwrap(), run(t2, for_client(txs, c)).unwrap(), c),
    decreases txs.len(),
{
    if txs.len() > 0 {
        let tx = txs[0];
        let rest = txs.drop_first();
        let u1 = step(t1, tx).unwrap();
        lemma_fresh_rest(t1, txs);
        if tx.client == c {
            lemma_own_step(t1, t2, tx, c);
            let u2 = step(t2, tx).unwrap();
            lemma_noninterference(u1, u2, rest, c);
            let f = for_client(rest, c);
            assert((seq![tx] + f)[0] == tx);
            assert((seq![tx] + f).drop_first() =~= f);
        } else {
            lemma_other_client_step(t1, t2, tx, c);
            lemma_noninterference(u1, t2, rest, c);
        }
    }
}

/// From a new engine, with the deposits and withdrawals carrying distinct
/// ids, the other clients' transactions never change client `c`'s account:
/// it ends the same as after `c`'s own transactions alone.
pub proof fn law_other_clients_do_not_interfere(txs: Seq<Transaction>, c: u16)
    requires
        fresh_ids(EngineView::empty(), txs),
        run(EngineView::empty(), txs) is Some,
    ensures
        run(EngineView::empty(), for_client(txs, c)) is Some,
        run(EngineView::empty(), txs).unwrap().accounts.contains_key(c) == run(
            EngineView::empty(),
            for_client(txs, c),
        ).unwrap().accounts.contains_key(c),
        run(EngineView::empty(), txs).unwrap().account(c) == run(
            EngineView::empty(),
            for_client(txs, c),
        ).unwrap().account(c),
{
    let e = EngineView::empty();
    assert(agree_for(e, e, c));
    lemma_noninterference(e, e, txs, c);
}

/// Only a dispute creates a dispute status: a transaction id that no
/// dispute in the run names stays undisputed, whatever deposits,
/// withdrawals, resolves and chargebacks run and whatever the balances.
pub proof fn law_only_disputes_open_disputes(s: EngineView, txs: Seq<Transaction>, id: u32)
    requires
        !s.disputed.contains_key(id),
        run(s, txs) is Some,
        forall|i: int|
            0 <= i < txs.len() && (#[trigger] txs[i]).tx_type == TransactionType::Dispute
                ==> txs[i].tx != id,
    ensures
        !run(s, txs).unwrap().disputed.contains_key(id),
    decreases txs.len(),
{
    if txs.len() > 0 {
        let rest = txs.drop_first();
        law_transaction_is_local(s, txs[0]);
        assert forall|i: int|
            0 <= i < rest.len() && (#[trigger] rest[i]).tx_type == TransactionType::Dispute
                implies rest[i].tx != id by {
            assert(rest[i] == txs[i + 1]);
        }
        law_only_disputes_open_disputes(step(s, txs[0]).unwrap(), rest, id);
    }
}

} // verus!