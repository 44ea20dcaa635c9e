//! The balances of an account in closed form: what the deposits,
//! withdrawals, disputes, resolves and chargebacks that took effect add up to.
use crate::amount::{
    difference_fits, lemma_difference_exact, lemma_sum_exact, sum_fits, Amount,
};
use crate::engine::{run, step, EngineView};
use crate::laws::{
    dispute_exact, disputes_recorded, law_disputes_stay_recorded, law_transaction_is_local,
    resolve_exact,
};
use crate::run_laws::{fresh_ids, is_recorded_kind, lemma_fresh_rest};
use crate::transaction::{tx_amount, Transaction, TransactionType};
use vstd::prelude::*;

verus! {

/// Whether no arithmetic of `tx` on `s` needs rounding.
pub open spec fn step_exact(s: EngineView, tx: Transaction) -> bool {
    let a = s.account(tx.client);
    let x = tx_amount(tx);
    !a.locked ==> match tx.tx_type {
        TransactionType::Deposit => sum_fits(a.available, x),
        TransactionType::Withdrawal => a.available.units() >= x.units() ==> difference_fits(
            a.available,
            x,
        ),
        TransactionType::Dispute => !s.disputed.contains_key(tx.tx) && s.recorded_for(
            tx.tx,
            tx.client,
        ) ==> dispute_exact(a, s.history[tx.tx]),
        TransactionType::Resolve => s.under_dispute(tx.tx) && s.recorded_for(tx.tx, tx.client)
            ==> resolve_exact(a, s.history[tx.tx]),
        TransactionType::Chargeback => s.under_dispute(tx.tx) && s.recorded_for(
            tx.tx,
            tx.client,
        ) ==> difference_fits(a.held, s.history[tx.tx].1),
    }
}

/// Whether no arithmetic of the run of `txs` from `s` needs rounding.
pub open spec fn run_exact(s: EngineView, txs: Seq<Transaction>) -> bool
    decreases txs.len(),
{
    if txs.len() == 0 {
        true
    } else {
        step_exact(s, txs[0]) && match step(s, txs[0]) {
            Some(next) => run_exact(next, txs.drop_first()),
            None => false,
        }
    }
}

/// Every transaction of `txs` carries a valid amount, if any.
pub open spec fn amounts_valid(txs: Seq<Transaction>) -> bool {
    forall|i: int| 0 <= i < txs.len() ==> (#[trigger] tx_amount(txs[i])).valid()
}

/// The value of recorded transaction `id`.
pub open spec fn amount_of(t: EngineView, id: u32) -> int {
    t.history[id].1.units()
}

/// What transaction `id` adds to `c`'s held funds: its amount while a
/// transaction of `c` under dispute.
pub open spec fn held_part(t: EngineView, c: u16, id: u32) -> int {
    if t.recorded_for(id, c) && t.under_dispute(id) {
        amount_of(t, id)
    } else {
        0
    }
}

/// What transaction `id` adds to `c`'s available funds: a deposit of `c` its
/// amount unless under dispute, a withdrawal of `c` minus its amount.
pub open spec fn available_part(t: EngineView, c: u16, id: u32) -> int {
    if t.recorded_for(id, c) {
        if t.history[id].2 == TransactionType::Deposit {
            if t.under_dispute(id) {
                0
            } else {
                amount_of(t, id)
            }
        } else {
            -amount_of(t, id)
        }
    } else {
        0
    }
}

pub open spec fn sum_held(t: EngineView, c: u16, ids: Seq<u32>) -> int
    decreases ids.len(),
{
    if ids.len() == 0 {
        0
    } else {
        sum_held(t, c, ids.drop_last()) + held_part(t, c, ids.last())
    }
}

pub open spec fn sum_available(t: EngineView, c: u16, ids: Seq<u32>) -> int
    decreases ids.len(),
{
    if ids.len() == 0 {
        0
    } else {
        sum_available(t, c, ids.drop_last()) + available_part(t, c, ids.last())
    }
}

/// What the chargeback `charged` took from the available funds: the amount
/// of a charged-back deposit (a withdrawal's amount left them already).
pub open spec fn charge(t: EngineView, charged: Option<u32>) -> int {
    match charged {
        Some(k) => if t.history[k].2 == TransactionType::Deposit {
            amount_of(t, k)
        } else {
            0
        },
        None => 0,
    }
}

/// Client `c`'s balances in closed form: `ids` lists each recorded
/// transaction of `c` once, `charged` is the transaction charged back, if
/// any. Available funds are the deposits not under dispute less the
/// withdrawals and the charged-back deposit; held funds are the amounts under
/// dispute; the account is locked exactly when a chargeback took effect.
pub open spec fn ledger(t: EngineView, c: u16, ids: Seq<u32>, charged: Option<u32>) -> bool {
    &&& ids.no_duplicates()
    &&& forall|id: u32| #[trigger] t.recorded_for(id, c) <==> ids.contains(id)
    &&& t.account(c).held.units() == sum_held(t, c, ids)
    &&& t.account(c).available.units() == sum_available(t, c, ids) - charge(t, charged)
    &&& t.account(c).locked <==> charged is Some
    &&& charged matches Some(k) ==> t.recorded_for(k, c) && t.disputed.contains_key(k)
        && !t.disputed[k]
}

/// Whether `tx` takes effect on `s` (rather than being ignored).
pub open spec fn applies(s: EngineView, tx: Transaction) -> bool {
    let a = s.account(tx.client);
    !a.locked && match tx.tx_type {
        TransactionType::Deposit => true,
        TransactionType::Withdrawal => a.available.units() >= tx_amount(tx).units(),
        TransactionType::Dispute => !s.disputed.contains_key(tx.tx) && s.recorded_for(
            tx.tx,
            tx.client,
        ),
        _ => s.under_dispute(tx.tx) && s.recorded_for(tx.tx, tx.client),
    }
}

/// How much `tx` adds to its client's available funds, arithmetic exact.
pub open spec fn available_delta(s: EngineView, tx: Transaction) -> int {
    if !applies(s, tx) {
        0
    } else {
        let deposit = s.history[tx.tx].2 == TransactionType::Deposit;
        match tx.tx_type {
            TransactionType::Deposit => tx_amount(tx).units(),
            TransactionType::Withdrawal => -tx_amount(tx).units(),
            TransactionType::Dispute => if deposit {
                -amount_of(s, tx.tx)
            } else {
                0
            },
            TransactionType::Resolve => if deposit {
                amount_of(s, tx.tx)
            } else {
                0
            },
            TransactionType::Chargeback => 0,
        }
    }
}

/// How much `tx` adds to its client's held funds, arithmetic exact.
pub open spec fn held_delta(s: EngineView, tx: Transaction) -> int {
    if !applies(s, tx) {
        0
    } else {
        match tx.tx_type {
            TransactionType::Dispute => amount_of(s, tx.tx),
            TransactionType::Resolve => -amount_of(s, tx.tx),
            TransactionType::Chargeback => -amount_of(s, tx.tx),
            _ => 0,
        }
    }
}

/// A step without rounding succeeds, keeps every amount valid, and changes
/// its client's balances by the deltas above.
pub proof fn lemma_exact_step(s: EngineView, tx: Transaction)
    requires
        s.wf(),
        tx_amount(tx).valid(),
        step_exact(s, tx),
    ensures
        step(s, tx) is Some,
        step(s, tx).unwrap().wf(),
        step(s, tx).unwrap().account(tx.client).available.units() == s.account(
            tx.client,
        ).available.units() + available_delta(s, tx),
        step(s, tx).unwrap().account(tx.client).held.units() == s.account(tx.client).held.units()
            + held_delta(s, tx),
{
    let c = tx.client;
    let a = s.account(c);
    let x = tx_amount(tx);
    if s.accounts.contains_key(c) {
        assert(a.available.valid() && a.held.valid());
    } else {
        Amount::lemma_zero_valid();
    }
    if applies(s, tx) {
        match tx.tx_type {
            TransactionType::Deposit => {
                lemma_sum_exact(a.available, x);
            },
            TransactionType::Withdrawal => {
                lemma_difference_exact(a.available, x);
            },
            TransactionType::Dispute => {
                let r = s.history[tx.tx];
                assert(r.1.valid());
                if r.2 == TransactionType::Deposit {
                    lemma_difference_exact(a.available, r.1);
                }
                lemma_sum_exact(a.held, r.1);
            },
            TransactionType::Resolve => {
                let r = s.history[tx.tx];
                assert(r.1.valid());
                if r.2 == TransactionType::Deposit {
                    lemma_sum_exact(a.available, r.1);
                }
                lemma_difference_exact(a.held, r.1);
            },
            TransactionType::Chargeback => {
                let r = s.history[tx.tx];
                assert(r.1.valid());
                lemma_difference_exact(a.held, r.1);
            },
        }
    }
    let u = step(s, tx).unwrap();
    assert(u.wf()) by {
        assert forall|k: u16| u.accounts.contains_key(k) implies #[trigger] u.accounts[k].available.valid()
            && u.accounts[k].held.valid() by {
            if k != c {
                law_transaction_is_local(s, tx);
            }
        }
        assert forall|id: u32| u.history.contains_key(id) implies #[trigger] u.history[id].1.valid() by {
            if id != tx.tx {
                law_transaction_is_local(s, tx);
            }
        }
    }
}

/// A transaction that is ignored leaves everything but the account's
/// existence as it was.
proof fn lemma_ignored_step(s: EngineView, tx: Transaction)
    requires
        !applies(s, tx),
    ensures
        step(s, tx) == Some(s.touched(tx.client)),
{
}

/// Parts of transactions other than `tx`'s own id, or of a transaction that
/// does not apply, stay as they were.
proof fn lemma_part_kept(s: EngineView, tx: Transaction, c: u16, id: u32)
    requires
        step(s, tx) is Some,
        s.recorded_for(id, c),
        id != tx.tx || !applies(s, tx),
    ensures
        held_part(step(s, tx).unwrap(), c, id) == held_part(s, c, id),
        available_part(step(s, tx).unwrap(), c, id) == available_part(s, c, id),
        step(s, tx).unwrap().history[id] == s.history[id],
        step(s, tx).unwrap().disputed.contains_key(id) == s.disputed.contains_key(id),
        s.disputed.contains_key(id) ==> step(s, tx).unwrap().disputed[id] == s.disputed[id],
{
    if applies(s, tx) {
        law_transaction_is_local(s, tx);
    } else {
        lemma_ignored_step(s, tx);
    }
}

/// One step keeps the closed form of client `c`'s balances.
proof fn lemma_ledger_step(
    s: EngineView,
    tx: Transaction,
    c: u16,
    ids: Seq<u32>,
    charged: Option<u32>,
) -> (r: (Seq<u32>, Option<u32>))
    requires
        s.wf(),
        tx_amount(tx).valid(),
        step_exact(s, tx),
        disputes_recorded(s),
        ledger(s, c, ids, charged),
        is_recorded_kind(tx) ==> !s.history.contains_key(tx.tx),
    ensures
        ledger(step(s, tx).unwrap(), c, r.0, r.1),
        r.1 == (if charges(s, tx, c) {
            Some(tx.tx)
        } else {
            charged
        }),
{
    lemma_exact_step(s, tx);
    law_transaction_is_local(s, tx);
    let u = step(s, tx).unwrap();
    let own = tx.client == c && applies(s, tx);
    if !own {
        assert forall|id: u32| #[trigger] u.recorded_for(id, c) <==> ids.contains(id) by {
            if s.recorded_for(id, c) {
                lemma_part_kept(s, tx, c, id);
            } else if id == tx.tx && u.recorded_for(id, c) {
                if applies(s, tx) {
                    assert(tx.client != c);
                } else {
                    lemma_ignored_step(s, tx);
                }
            }
        }
        assert forall|i: int| 0 <= i < ids.len() implies held_part(s, c, #[trigger] ids[i])
            == held_part(u, c, ids[i]) && available_part(s, c, ids[i]) == available_part(
            u,
            c,
            ids[i],
        ) by {
            assert(ids.contains(ids[i]));
            if applies(s, tx) && ids[i] == tx.tx {
                assert(s.recorded_for(tx.tx, c));
                if is_recorded_kind(tx) {
                    assert(false);
                }
                assert(!s.recorded_for(tx.tx, tx.client));
            }
            lemma_part_kept(s, tx, c, ids[i]);
        }
        lemma_sums_agree(s, u, c, ids);
        if charged is Some {
            let k = charged.unwrap();
            if applies(s, tx) && k == tx.tx {
                if is_recorded_kind(tx) {
                    assert(false);
                }
                assert(!s.recorded_for(tx.tx, tx.client));
            }
            lemma_part_kept(s, tx, c, k);
        }
        if tx.client != c {
            assert(u.account(c) == s.account(c));
        } else {
            lemma_ignored_step(s, tx);
        }
        (ids, charged)
    } else {
        let x = tx.tx;
        match tx.tx_type {
            TransactionType::Deposit | TransactionType::Withdrawal => {
                assert(!ids.contains(x));
                assert(!s.disputed.contains_key(x));
                let ids2 = ids.push(x);
                assert forall|id: u32| #[trigger] u.recorded_for(id, c) <==> ids2.contains(id) by {
                    if id != x {
                        if s.recorded_for(id, c) {
                            lemma_part_kept(s, tx, c, id);
                        }
                        assert(ids2.contains(id) <==> ids.contains(id)) by {
                            if ids2.contains(id) {
                                let j = choose|j: int| 0 <= j < ids2.len() && ids2[j] == id;
                                assert(j < ids.len());
                                assert(ids[j] == id);
                            }
                            if ids.contains(id) {
                                let j = choose|j: int| 0 <= j < ids.len() && ids[j] == id;
                                assert(ids2[j] == id);
                            }
                        }
                    } else {
                        assert(ids2[ids.len() as int] == x);
                    }
                }
                assert(ids2.no_duplicates()) by {
                    assert forall|a: int, b: int|
                        0 <= a < ids2.len() && 0 <= b < ids2.len() && a != b implies ids2[a]
                        != ids2[b] by {
                        if a < ids.len() && b < ids.len() {
                            assert(ids2[a] == ids[a] && ids2[b] == ids[b]);
                        } else if a < ids.len() {
                            assert(ids.contains(ids[a]));
                            assert(ids2[a] == ids[a]);
                        } else if b < ids.len() {
                            assert(ids.contains(ids[b]));
                            assert(ids2[b] == ids[b]);
                        }
                    }
                }
                assert forall|i: int| 0 <= i < ids.len() implies held_part(s, c, #[trigger] ids[i])
                    == held_part(u, c, ids[i]) && available_part(s, c, ids[i]) == available_part(
                    u,
                    c,
                    ids[i],
                ) by {
                    assert(ids.contains(ids[i]));
                    lemma_part_kept(s, tx, c, ids[i]);
                }
                lemma_sums_agree(s, u, c, ids);
                lemma_sums_push(u, c, ids, x);
                if charged is Some {
                    lemma_part_kept(s, tx, c, charged.unwrap());
                }
                (ids2, charged)
            },
            _ => {
                assert(ids.contains(x));
                assert forall|id: u32| #[trigger] u.recorded_for(id, c) <==> ids.contains(id) by {
                    if id != x && s.recorded_for(id, c) {
                        lemma_part_kept(s, tx, c, id);
                    }
                }
                assert forall|i: int|
                    0 <= i < ids.len() && ids[i] != x implies held_part(s, c, #[trigger] ids[i])
                    == held_part(u, c, ids[i]) && available_part(s, c, ids[i]) == available_part(
                    u,
                    c,
                    ids[i],
                ) by {
                    assert(ids.contains(ids[i]));
                    lemma_part_kept(s, tx, c, ids[i]);
                }
                lemma_sums_one_change(s, u, c, ids, x);
                if tx.tx_type == TransactionType::Chargeback {
                    (ids, Some(x))
                } else {
                    if charged is Some {
                        let k = charged.unwrap();
                        assert(k != x);
                        lemma_part_kept(s, tx, c, k);
                    }
                    (ids, charged)
                }
            },
        }
    }
}

proof fn lemma_sums_agree(t1: EngineView, t2: EngineView, c: u16, ids: Seq<u32>)
    requires
        forall|i: int|
            0 <= i < ids.len() ==> held_part(t1, c, #[trigger] ids[i]) == held_part(t2, c, ids[i])
                && available_part(t1, c, ids[i]) == available_part(t2, c, ids[i]),
    ensures
        sum_held(t1, c, ids) == sum_held(t2, c, ids),
        sum_available(t1, c, ids) == sum_available(t2, c, ids),
    decreases ids.len(),
{
    if ids.len() > 0 {
        let d = ids.drop_last();
        assert forall|i: int| 0 <= i < d.len() implies held_part(t1, c, #[trigger] d[i])
            == held_part(t2, c, d[i]) && available_part(t1, c, d[i]) == available_part(
            t2,
            c,
            d[i],
        ) by {
            assert(d[i] == ids[i]);
        }
        lemma_sums_agree(t1, t2, c, d);
        assert(ids.last() == ids[ids.len() - 1]);
    }
}

proof fn lemma_sums_one_change(t1: EngineView, t2: EngineView, c: u16, ids: Seq<u32>, k: u32)
    requires
        ids.no_duplicates(),
        ids.contains(k),
        forall|i: int|
            0 <= i < ids.len() && ids[i] != k ==> held_part(t1, c, #[trigger] ids[i]) == held_part(
                t2,
                c,
                ids[i],
            ) && available_part(t1, c, ids[i]) == available_part(t2, c, ids[i]),
    ensures
        sum_held(t2, c, ids) == sum_held(t1, c, ids) + held_part(t2, c, k) - held_part(t1, c, k),
        sum_available(t2, c, ids) == sum_available(t1, c, ids) + available_part(t2, c, k)
            - available_part(t1, c, k),
    decreases ids.len(),
{
    let d = ids.drop_last();
    let n = ids.len() - 1;
    assert(ids.last() == ids[n]);
    if ids[n] == k {
        assert forall|i: int| 0 <= i < d.len() implies held_part(t1, c, #[trigger] d[i])
            == held_part(t2, c, d[i]) && available_part(t1, c, d[i]) == available_part(
            t2,
            c,
            d[i],
        ) by {
            assert(d[i] == ids[i]);
            assert(i != n);
        }
        lemma_sums_agree(t1, t2, c, d);
    } else {
        let j = choose|j: int| 0 <= j < ids.len() && ids[j] == k;
        assert(j != n);
        assert(d[j] == k);
        assert forall|i: int| 0 <= i < d.len() && d[i] != k implies held_part(
            t1,
            c,
            #[trigger] d[i],
        ) == held_part(t2, c, d[i]) && available_part(t1, c, d[i]) == available_part(
            t2,
            c,
            d[i],
        ) by {
            assert(d[i] == ids[i]);
        }
        assert(d.no_duplicates()) by {
            assert forall|a: int, b: int| 0 <= a < d.len() && 0 <= b < d.len() && a != b implies d[a]
                != d[b] by {
                assert(d[a] == ids[a] && d[b] == ids[b]);
            }
        }
        lemma_sums_one_change(t1, t2, c, d, k);
    }
}

proof fn lemma_sums_push(t: EngineView, c: u16, ids: Seq<u32>, x: u32)
    ensures
        sum_held(t, c, ids.push(x)) == sum_held(t, c, ids) + held_part(t, c, x),
        sum_available(t, c, ids.push(x)) == sum_available(t, c, ids) + available_part(t, c, x),
{
    assert(ids.push(x).drop_last() =~= ids);
}

proof fn lemma_sum_held_nonneg(t: EngineView, c: u16, ids: Seq<u32>)
    requires
        forall|i: int| 0 <= i < ids.len() ==> held_part(t, c, #[trigger] ids[i]) >= 0,
    ensures
        sum_held(t, c, ids) >= 0,
    decreases ids.len(),
{
    if ids.len() > 0 {
        let d = ids.drop_last();
        assert forall|i: int| 0 <= i < d.len() implies held_part(t, c, #[trigger] d[i]) >= 0 by {
            assert(d[i] == ids[i]);
        }
        lemma_sum_held_nonneg(t, c, d);
        assert(ids.last() == ids[ids.len() - 1]);
    }
}

proof fn lemma_rest_amounts(txs: Seq<Transaction>)
    requires
        txs.len() > 0,
        amounts_valid(txs),
    ensures
        tx_amount(txs[0]).valid(),
        amounts_valid(txs.drop_first()),
{
    assert(tx_amount(txs[0]).valid());
    assert forall|i: int| 0 <= i < txs.drop_first().len() implies (#[trigger] tx_amount(
        txs.drop_first()[i],
    )).valid() by {
        assert(txs.drop_first()[i] == txs[i + 1]);
        assert(tx_amount(txs[i + 1]).valid());
    }
}

/// Whether `tx` is a chargeback of client `c` that takes effect on `s`.
pub open spec fn charges(s: EngineView, tx: Transaction, c: u16) -> bool {
    tx.client == c && tx.tx_type == TransactionType::Chargeback && applies(s, tx)
}

/// The transaction of client `c` charged back during the run of `txs` from
/// `s`: the id of the first chargeback of `c` that takes effect, if any.
pub open spec fn charged_in_run(s: EngineView, txs: Seq<Transaction>, c: u16) -> Option<u32>
    decreases txs.len(),
{
    if txs.len() == 0 {
        None
    } else if charges(s, txs[0], c) {
        Some(txs[0].tx)
    } else {
        match step(s, txs[0]) {
            Some(next) => charged_in_run(next, txs.drop_first(), c),
            None => None,
        }
    }
}

proof fn lemma_ledger_run(
    s: EngineView,
    txs: Seq<Transaction>,
    c: u16,
    ids: Seq<u32>,
    charged: Option<u32>,
) -> (r: (Seq<u32>, Option<u32>))
    requires
        s.wf(),
        disputes_recorded(s),
        ledger(s, c, ids, charged),
        amounts_valid(txs),
        run_exact(s, txs),
        fresh_ids(s, txs),
    ensures
        run(s, txs) is Some,
        ledger(run(s, txs).unwrap(), c, r.0, r.1),
        r.1 == (match charged {
            Some(k) => Some(k),
            None => charged_in_run(s, txs, c),
        }),
    decreases txs.len(),
{
    if txs.len() == 0 {
        (ids, charged)
    } else {
        let tx = txs[0];
        lemma_rest_amounts(txs);
        assert(is_recorded_kind(tx) ==> !s.history.contains_key(tx.tx));
        let next = lemma_ledger_step(s, tx, c, ids, charged);
        lemma_exact_step(s, tx);
        law_disputes_stay_recorded(s, tx);
        lemma_fresh_rest(s, txs);
        lemma_ledger_run(step(s, tx).unwrap(), txs.drop_first(), c, next.0, next.1)
    }
}

/// Whether some transaction of `txs` is client `c`'s.
pub open spec fn has_client(txs: Seq<Transaction>, c: u16) -> bool {
    exists|i: int| 0 <= i < txs.len() && #[trigger] txs[i].client == c
}

proof fn lemma_run_keys(s: EngineView, txs: Seq<Transaction>, c: u16)
    requires
        run(s, txs) is Some,
    ensures
        run(s, txs).unwrap().accounts.contains_key(c) <==> s.accounts.contains_key(c)
            || has_client(txs, c),
    decreases txs.len(),
{
    if txs.len() > 0 {
        let rest = txs.drop_first();
        law_transaction_is_local(s, txs[0]);
        let next = step(s, txs[0]).unwrap();
        lemma_run_keys(next, rest, c);
        if has_client(rest, c) {
            let i = choose|i: int| 0 <= i < rest.len() && #[trigger] rest[i].client == c;
            assert(txs[i + 1].client == c);
        }
        if has_client(txs, c) && txs[0].client != c {
            let i = choose|i: int| 0 <= i < txs.len() && #[trigger] txs[i].client == c;
            assert(i > 0);
            assert(rest[i - 1].client == c);
        }
        if txs[0].client == c {
            assert(txs[0].client == c);
        }
    }
}

/// From a new engine, the accounts after a run are exactly those of the
/// clients that submitted a transaction, whether or not it took effect.
pub proof fn law_accounts_are_the_clients(txs: Seq<Transaction>)
    requires
        run(EngineView::empty(), txs) is Some,
    ensures
        forall|c: u16|
            #[trigger] run(EngineView::empty(), txs).unwrap().accounts.contains_key(c)
                <==> has_client(txs, c),
{
    assert forall|c: u16|
        #[trigger] run(EngineView::empty(), txs).unwrap().accounts.contains_key(c)
            <==> has_client(txs, c) by {
        lemma_run_keys(EngineView::empty(), txs, c);
    }
}

/// From a new engine, where no arithmetic needs rounding and the deposits
/// and withdrawals carry distinct ids: client `c` has an account exactly when
/// it submitted a transaction, and its balances are in closed form (see
/// `ledger`). Available funds are the deposits not under dispute less the
/// withdrawals and the deposit charged back by the first chargeback of `c`
/// that took effect (`charged_in_run`); held funds are the amounts under
/// dispute; the account is locked exactly when such a chargeback took effect.
pub proof fn law_balances_in_closed_form(txs: Seq<Transaction>, c: u16)
    requires
        amounts_valid(txs),
        fresh_ids(EngineView::empty(), txs),
        run_exact(EngineView::empty(), txs),
    ensures
        run(EngineView::empty(), txs) is Some,
        run(EngineView::empty(), txs).unwrap().accounts.contains_key(c) <==> has_client(txs, c),
        exists|ids: Seq<u32>|
            ledger(
                run(EngineView::empty(), txs).unwrap(),
                c,
                ids,
                charged_in_run(EngineView::empty(), txs, c),
            ),
{
    let e = EngineView::empty();
    Amount::lemma_zero_valid();
    let none: Seq<u32> = Seq::empty();
    assert(ledger(e, c, none, None));
    let r = lemma_ledger_run(e, txs, c, none, None);
    assert(ledger(run(e, txs).unwrap(), c, r.0, charged_in_run(e, txs, c)));
    lemma_run_keys(e, txs, c);
}

/// Every transaction of `txs` carries a non-negative amount, if any.
pub open spec fn amounts_nonnegative(txs: Seq<Transaction>) -> bool {
    forall|i: int| 0 <= i < txs.len() ==> (#[trigger] tx_amount(txs[i])).units() >= 0
}

/// Every recorded transaction has a non-negative amount.
pub open spec fn recorded_nonnegative(t: EngineView) -> bool {
    forall|id: u32| t.history.contains_key(id) ==> #[trigger] amount_of(t, id) >= 0
}

/// Some deposit of client `c` has been disputed (whether or not settled since).
pub open spec fn deposit_disputed(t: EngineView, c: u16) -> bool {
    exists|id: u32|
        t.recorded_for(id, c) && t.history[id].2 == TransactionType::Deposit
            && #[trigger] t.disputed.contains_key(id)
}

/// Disputes, resolves and chargebacks leave the records as they are.
proof fn lemma_settling_keeps_history(s: EngineView, tx: Transaction)
    requires
        step(s, tx) is Some,
        !is_recorded_kind(tx),
    ensures
        step(s, tx).unwrap().history == s.history,
{
}

proof fn lemma_signs_step(s: EngineView, tx: Transaction, c: u16)
    requires
        s.wf(),
        tx_amount(tx).valid(),
        tx_amount(tx).units() >= 0,
        step_exact(s, tx),
        disputes_recorded(s),
        recorded_nonnegative(s),
        is_recorded_kind(tx) ==> !s.history.contains_key(tx.tx),
        s.account(c).available.units() >= 0 || deposit_disputed(s, c),
    ensures
        recorded_nonnegative(step(s, tx).unwrap()),
        step(s, tx).unwrap().account(c).available.units() >= 0 || deposit_disputed(
            step(s, tx).unwrap(),
            c,
        ),
{
    lemma_exact_step(s, tx);
    law_transaction_is_local(s, tx);
    let u = step(s, tx).unwrap();
    assert forall|id: u32| u.history.contains_key(id) implies #[trigger] amount_of(u, id) >= 0 by {
        if id == tx.tx {
            if is_recorded_kind(tx) {
                if !applies(s, tx) {
                    lemma_ignored_step(s, tx);
                    assert(amount_of(s, id) >= 0);
                } else {
                    assert(u.history[id].1 == tx_amount(tx));
                }
            } else {
                lemma_settling_keeps_history(s, tx);
                assert(amount_of(s, id) >= 0);
            }
        } else {
            assert(s.history.contains_key(id));
            assert(amount_of(s, id) >= 0);
        }
    }
    if deposit_disputed(s, c) {
        let id = choose|id: u32|
            s.recorded_for(id, c) && s.history[id].2 == TransactionType::Deposit
                && #[trigger] s.disputed.contains_key(id);
        if id != tx.tx || !applies(s, tx) {
            lemma_part_kept(s, tx, c, id);
        } else {
            lemma_settling_keeps_history(s, tx);
        }
        assert(u.disputed.contains_key(id));
    } else if tx.client != c {
        assert(u.account(c) == s.account(c));
    } else if !applies(s, tx) {
        lemma_ignored_step(s, tx);
    } else if tx.tx_type == TransactionType::Dispute && s.history[tx.tx].2
        == TransactionType::Deposit {
        lemma_settling_keeps_history(s, tx);
        assert(u.disputed.contains_key(tx.tx));
    } else if tx.tx_type == TransactionType::Resolve && s.history[tx.tx].2
        == TransactionType::Deposit {
        assert(s.disputed.contains_key(tx.tx));
        assert(deposit_disputed(s, c));
    }
}

proof fn lemma_signs_run(s: EngineView, txs: Seq<Transaction>, c: u16)
    requires
        s.wf(),
        disputes_recorded(s),
        recorded_nonnegative(s),
        amounts_valid(txs),
        amounts_nonnegative(txs),
        run_exact(s, txs),
        fresh_ids(s, txs),
        s.account(c).available.units() >= 0 || deposit_disputed(s, c),
    ensures
        run(s, txs) is Some,
        recorded_nonnegative(run(s, txs).unwrap()),
        run(s, txs).unwrap().account(c).available.units() >= 0 || deposit_disputed(
            run(s, txs).unwrap(),
            c,
        ),
    decreases txs.len(),
{
    if txs.len() > 0 {
        let tx = txs[0];
        lemma_rest_amounts(txs);
        assert(tx_amount(tx).units() >= 0);
        assert(amounts_nonnegative(txs.drop_first())) by {
            assert forall|i: int| 0 <= i < txs.drop_first().len() implies (#[trigger] tx_amount(
                txs.drop_first()[i],
            )).units() >= 0 by {
                assert(txs.drop_first()[i] == txs[i + 1]);
                assert(tx_amount(txs[i + 1]).units() >= 0);
            }
        }
        assert(is_recorded_kind(tx) ==> !s.history.contains_key(tx.tx));
        lemma_signs_step(s, tx, c);
        lemma_exact_step(s, tx);
        law_disputes_stay_recorded(s, tx);
        lemma_fresh_rest(s, txs);
        lemma_signs_run(step(s, tx).unwrap(), txs.drop_first(), c);
    }
}

/// From a new engine, with non-negative amounts, distinct ids for deposits
/// and withdrawals, and no arithmetic that needs rounding: held funds never
/// go below zero, and available funds go below zero only after a dispute of
/// one of the client's deposits (a withdrawal never takes them there).
pub proof fn law_balance_signs(txs: Seq<Transaction>, c: u16)
    requires
        amounts_valid(txs),
        amounts_nonnegative(txs),
        fresh_ids(EngineView::empty(), txs),
        run_exact(EngineView::empty(), txs),
    ensures
        run(EngineView::empty(), txs) is Some,
        run(EngineView::empty(), txs).unwrap().account(c).held.units() >= 0,
        run(EngineView::empty(), txs).unwrap().account(c).available.units() >= 0
            || deposit_disputed(run(EngineView::empty(), txs).unwrap(), c),
{
    let e = EngineView::empty();
    Amount::lemma_zero_valid();
    let none: Seq<u32> = Seq::empty();
    assert(ledger(e, c, none, None));
    let r = lemma_ledger_run(e, txs, c, none, None);
    lemma_signs_run(e, txs, c);
    let t = run(e, txs).unwrap();
    assert forall|i: int| 0 <= i < r.0.len() implies held_part(t, c, #[trigger] r.0[i]) >= 0 by {
        if t.recorded_for(r.0[i], c) {
            assert(amount_of(t, r.0[i]) >= 0);
        }
    }
    lemma_sum_held_nonneg(t, c, r.0);
}

} // verus!