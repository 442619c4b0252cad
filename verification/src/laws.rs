//! Ledger-wide laws, proved once and for all over the abstract model.
//!
//! The transaction handlers' contracts say that a successful execution turns
//! state `m` into `tx.apply(m, ..)` and that a failed one leaves the state
//! unchanged. The lemmas here therefore establish invariants for every
//! sequence of transitions: a property preserved by every `apply` (and
//! trivially by an unchanged state) holds of every reachable state, starting
//! from the empty ledger of `Schema::new`.
use vstd::prelude::*;
use crate::model::LedgerModel;
use crate::pending_transfer::PendingTransfer;
use crate::transactions::{ConfirmTransfer, Error, Transfer, WalletTransactions,
    spec_can_confirm_withdrawal};

verus! {

/// The combined funds of an escrow pair: the sender's spendable and frozen
/// amounts plus the receiver's spendable balance.
pub open spec fn escrow_sum(m: LedgerModel, sender: u64, receiver: u64) -> int {
    m.wallets[sender].balance + m.wallets[sender].frozen_amount + m.wallets[receiver].balance
}

/// Solvency is an invariant: every successful transition keeps
/// `balance + frozen_amount >= 0` for every account. Together with the
/// handlers' contracts (a failed transition changes nothing, and the empty
/// ledger is trivially solvent) this holds of every reachable state.
pub proof fn lemma_step_preserves_solvency(
    m: LedgerModel,
    tx: WalletTransactions,
    author: u64,
    tx_hash: u64,
)
    requires
        m.consistent(),
        m.solvent(),
        tx.fits(m, author, tx_hash),
        tx.outcome(m, author) is None,
    ensures
        tx.apply(m, author, tx_hash).solvent(),
{
    let m2 = tx.apply(m, author, tx_hash);
    match tx {
        WalletTransactions::Transfer(t) => {
            assert forall|k: u64| m2.has_wallet(k) implies (#[trigger] m2.wallets[k]).balance
                + m2.wallets[k].frozen_amount >= 0 by {
                if k != author {
                    assert(m2.wallets[k] == m.wallets[k]);
                }
            }
        },
        WalletTransactions::Issue(t) => {
            assert forall|k: u64| m2.has_wallet(k) implies (#[trigger] m2.wallets[k]).balance
                + m2.wallets[k].frozen_amount >= 0 by {
                if k != author {
                    assert(m2.wallets[k] == m.wallets[k]);
                }
            }
        },
        WalletTransactions::CreateWallet(t) => {
            assert forall|k: u64| m2.has_wallet(k) implies (#[trigger] m2.wallets[k]).balance
                + m2.wallets[k].frozen_amount >= 0 by {
                if k != author {
                    assert(m2.wallets[k] == m.wallets[k]);
                }
            }
        },
        WalletTransactions::ConfirmTransfer(t) => {
            let p = m.pending[t.tx_hash];
            assert(spec_can_confirm_withdrawal(
                m.wallets[p.from].balance as int,
                m.wallets[p.from].frozen_amount as int,
                p.amount as int,
            ));
            assert forall|k: u64| m2.has_wallet(k) implies (#[trigger] m2.wallets[k]).balance
                + m2.wallets[k].frozen_amount >= 0 by {
                if k != p.from && k != p.to {
                    assert(m2.wallets[k] == m.wallets[k]);
                }
            }
        },
    }
}

/// Non-negative spendable balances are preserved by every transition whose
/// transfer amount stays within the sender's spendable balance. (A transfer
/// may reach into the frozen amount as well, and then the sender's signed
/// balance goes below zero; only `balance + frozen_amount` is preserved
/// unconditionally, see [`lemma_step_preserves_solvency`].)
pub proof fn lemma_step_preserves_nonnegative(
    m: LedgerModel,
    tx: WalletTransactions,
    author: u64,
    tx_hash: u64,
)
    requires
        m.consistent(),
        m.all_balances_nonnegative(),
        tx.fits(m, author, tx_hash),
        tx.outcome(m, author) is None,
        (tx matches WalletTransactions::Transfer(t) ==> t.amount <= m.wallets[author].balance),
    ensures
        tx.apply(m, author, tx_hash).all_balances_nonnegative(),
{
    let m2 = tx.apply(m, author, tx_hash);
    match tx {
        WalletTransactions::Transfer(t) => {
            assert forall|k: u64| m2.has_wallet(k) implies (#[trigger] m2.wallets[k]).balance
                >= 0 by {
                if k != author {
                    assert(m2.wallets[k] == m.wallets[k]);
                }
            }
        },
        WalletTransactions::Issue(t) => {
            assert forall|k: u64| m2.has_wallet(k) implies (#[trigger] m2.wallets[k]).balance
                >= 0 by {
                if k != author {
                    assert(m2.wallets[k] == m.wallets[k]);
                }
            }
        },
        WalletTransactions::CreateWallet(t) => {
            assert forall|k: u64| m2.has_wallet(k) implies (#[trigger] m2.wallets[k]).balance
                >= 0 by {
                if k != author {
                    assert(m2.wallets[k] == m.wallets[k]);
                }
            }
        },
        WalletTransactions::ConfirmTransfer(t) => {
            let p = m.pending[t.tx_hash];
            assert forall|k: u64| m2.has_wallet(k) implies (#[trigger] m2.wallets[k]).balance
                >= 0 by {
                if k != p.from && k != p.to {
                    assert(m2.wallets[k] == m.wallets[k]);
                }
            }
        },
    }
}

/// Conservation: a transfer followed by its matching confirmation (authored
/// by the recorded approver) always succeeds, and the pair only reallocates
/// funds. The sender's spendable-plus-frozen funds plus the receiver's
/// balance are unchanged, and every other account keeps its balances.
pub proof fn lemma_transfer_confirm_conserves(
    m: LedgerModel,
    t: Transfer,
    author: u64,
    h: u64,
    c: ConfirmTransfer,
    h2: u64,
)
    requires
        m.consistent(),
        t.outcome(m, author) is None,
        t.fits(m, author, h),
        c.tx_hash == h,
        c.fits(t.apply(m, author, h), t.approver),
    ensures
        c.outcome(t.apply(m, author, h), t.approver) is None,
        escrow_sum(c.apply(t.apply(m, author, h), t.approver, h2), author, t.to) == escrow_sum(
            m,
            author,
            t.to,
        ),
        forall|q: u64|
            q != author && q != t.to && m.has_wallet(q) ==> (#[trigger] c.apply(
                t.apply(m, author, h),
                t.approver,
                h2,
            ).wallets[q]).balance == m.wallets[q].balance && c.apply(
                t.apply(m, author, h),
                t.approver,
                h2,
            ).wallets[q].frozen_amount == m.wallets[q].frozen_amount,
{
    let m1 = t.apply(m, author, h);
    let p = m1.pending[h];
    assert(p == (PendingTransfer {
        tx_hash: h,
        from: author,
        to: t.to,
        approver: t.approver,
        amount: t.amount,
        fulfilled: false,
    }));
    assert(m1.wallets[author].balance == m.wallets[author].balance - t.amount);
    assert(m1.wallets[author].frozen_amount == m.wallets[author].frozen_amount + t.amount);
    assert(m1.wallets[t.to] == m.wallets[t.to]);
    assert(c.outcome(m1, t.approver) is None);
    let m2 = c.apply(m1, t.approver, h2);
    assert(m2.wallets[t.to].balance == m.wallets[t.to].balance + t.amount);
    assert(m2.wallets[author].balance == m.wallets[author].balance - t.amount);
    assert(m2.wallets[author].frozen_amount == m.wallets[author].frozen_amount);
    assert forall|q: u64| q != author && q != t.to && m.has_wallet(q) implies (#[trigger] m2
        .wallets[q]).balance == m.wallets[q].balance && m2.wallets[q].frozen_amount
        == m.wallets[q].frozen_amount by {
        assert(m1.wallets[q] == m.wallets[q]);
        assert(m2.wallets[q] == m1.wallets[q]);
    }
}

/// A fulfilled pending transfer is terminal: any further confirmation of the
/// same transfer identifier fails, with `UnexpectedThirdParty` when not
/// authored by the recorded approver and with `PendingTransferAlreadyFulfilled`
/// otherwise. (By the handler's contract, the failure leaves the state
/// unchanged.)
pub proof fn lemma_confirm_is_terminal(m: LedgerModel, author: u64, c: ConfirmTransfer)
    requires
        m.consistent(),
        m.pending.dom().contains(c.tx_hash),
        m.pending[c.tx_hash].fulfilled,
    ensures
        c.outcome(m, author) == (if m.pending[c.tx_hash].approver != author {
            Some(Error::UnexpectedThirdParty)
        } else {
            Some(Error::PendingTransferAlreadyFulfilled)
        }),
{
}

/// A confirmation authored by someone other than the recorded approver fails
/// with `UnexpectedThirdParty`, regardless of the fulfilled state.
pub proof fn lemma_confirm_requires_approver(m: LedgerModel, author: u64, c: ConfirmTransfer)
    requires
        m.pending.dom().contains(c.tx_hash),
        m.pending[c.tx_hash].approver != author,
    ensures
        c.outcome(m, author) == Some(Error::UnexpectedThirdParty),
{
}

/// A successful confirmation marks its pending transfer fulfilled and touches
/// no other pending transfer.
pub proof fn lemma_confirm_fulfills(m: LedgerModel, author: u64, c: ConfirmTransfer, h2: u64)
    requires
        m.consistent(),
        c.outcome(m, author) is None,
    ensures
        c.apply(m, author, h2).pending.dom().contains(c.tx_hash),
        c.apply(m, author, h2).pending[c.tx_hash].fulfilled,
        forall|q: u64|
            q != c.tx_hash ==> (#[trigger] c.apply(m, author, h2).pending.dom().contains(q)
                <==> m.pending.dom().contains(q)),
        forall|q: u64|
            q != c.tx_hash && m.pending.dom().contains(q) ==> (#[trigger] c.apply(
                m,
                author,
                h2,
            ).pending[q]) == m.pending[q],
{
}

/// Structural consistency is an invariant: every successful transition keeps
/// the state consistent, within the machine limit on history-log lengths.
pub proof fn lemma_step_preserves_consistent(
    m: LedgerModel,
    tx: WalletTransactions,
    author: u64,
    tx_hash: u64,
)
    requires
        m.consistent(),
        tx.fits(m, author, tx_hash),
        tx.outcome(m, author) is None,
        tx.headroom(m, author),
    ensures
        tx.apply(m, author, tx_hash).consistent(),
{
    match tx {
        WalletTransactions::Transfer(t) => {
            let sender = m.wallets[author];
            crate::model::lemma_record_step_consistent(
                m,
                sender,
                (sender.balance - t.amount) as i64,
                (sender.frozen_amount + t.amount) as u64,
                tx_hash,
            );
            crate::model::lemma_put_pending_consistent(
                m.record_step(
                    sender,
                    (sender.balance - t.amount) as i64,
                    (sender.frozen_amount + t.amount) as u64,
                    tx_hash,
                ),
                (PendingTransfer {
                    tx_hash,
                    from: author,
                    to: t.to,
                    approver: t.approver,
                    amount: t.amount,
                    fulfilled: false,
                }),
            );
        },
        WalletTransactions::Issue(t) => {
            let w = m.wallets[author];
            crate::model::lemma_record_step_consistent(
                m,
                w,
                (w.balance + t.amount) as i64,
                w.frozen_amount,
                tx_hash,
            );
        },
        WalletTransactions::CreateWallet(t) => {
            crate::model::lemma_create_step_consistent(m, author, t.name, crate::INITIAL_BALANCE, tx_hash);
        },
        WalletTransactions::ConfirmTransfer(t) => {
            let p = m.pending[t.tx_hash];
            let sender = m.wallets[p.from];
            let receiver = m.wallets[p.to];
            let m1 = m.record_step(
                sender,
                sender.balance,
                (sender.frozen_amount - p.amount) as u64,
                tx_hash,
            );
            crate::model::lemma_record_step_consistent(
                m,
                sender,
                sender.balance,
                (sender.frozen_amount - p.amount) as u64,
                tx_hash,
            );
            assert(m1.history_of(p.to).len() + 1 <= u64::MAX) by {
                if p.to != p.from {
                    assert(m1.history_of(p.to) == m.history_of(p.to));
                }
            }
            crate::model::lemma_record_step_consistent(
                m1,
                receiver,
                (receiver.balance + p.amount) as i64,
                receiver.frozen_amount,
                tx_hash,
            );
            crate::model::lemma_put_pending_consistent(
                m1.record_step(
                    receiver,
                    (receiver.balance + p.amount) as i64,
                    receiver.frozen_amount,
                    tx_hash,
                ),
                (PendingTransfer { fulfilled: true, ..p }),
            );
        },
    }
}

/// One entry of a ledger history: a transaction together with its author and
/// its identifier.
pub struct LedgerStep {
    /// The transaction payload.
    pub tx: WalletTransactions,
    /// The verified identity of the transaction's signer.
    pub author: u64,
    /// The unique identifier of the transaction.
    pub tx_hash: u64,
}

/// The state after applying a sequence of transitions in order.
pub open spec fn apply_all(m: LedgerModel, steps: Seq<LedgerStep>) -> LedgerModel
    decreases steps.len(),
{
    if steps.len() == 0 {
        m
    } else {
        let s = steps.last();
        s.tx.apply(apply_all(m, steps.drop_last()), s.author, s.tx_hash)
    }
}

/// Whether every step of the sequence succeeds from `m`: at its point in the
/// sequence each transaction passes its precondition checks, its arithmetic
/// stays within machine limits, and its history logs have headroom.
pub open spec fn steps_ok(m: LedgerModel, steps: Seq<LedgerStep>) -> bool
    decreases steps.len(),
{
    steps.len() == 0 || {
        let s = steps.last();
        let before = apply_all(m, steps.drop_last());
        &&& steps_ok(m, steps.drop_last())
        &&& s.tx.outcome(before, s.author) is None
        &&& s.tx.fits(before, s.author, s.tx_hash)
        &&& s.tx.headroom(before, s.author)
    }
}

/// Reachability invariant: from any consistent, solvent state — in particular
/// from the empty ledger of `Schema::new` — every state reached by a sequence
/// of successful transitions is again consistent and solvent: every account
/// keeps `balance + frozen_amount >= 0`.
pub proof fn lemma_reachable_states_are_solvent(m: LedgerModel, steps: Seq<LedgerStep>)
    requires
        m.consistent(),
        m.solvent(),
        steps_ok(m, steps),
    ensures
        apply_all(m, steps).consistent(),
        apply_all(m, steps).solvent(),
    decreases steps.len(),
{
    if steps.len() > 0 {
        let s = steps.last();
        let before = apply_all(m, steps.drop_last());
        lemma_reachable_states_are_solvent(m, steps.drop_last());
        lemma_step_preserves_consistent(before, s.tx, s.author, s.tx_hash);
        lemma_step_preserves_solvency(before, s.tx, s.author, s.tx_hash);
    }
}

/// Whether each transfer in the sequence stays within the sender's spendable
/// balance at its point in the sequence.
pub open spec fn steps_within_spendable(m: LedgerModel, steps: Seq<LedgerStep>) -> bool
    decreases steps.len(),
{
    steps.len() == 0 || {
        let s = steps.last();
        let before = apply_all(m, steps.drop_last());
        &&& steps_within_spendable(m, steps.drop_last())
        &&& (s.tx matches WalletTransactions::Transfer(t) ==> t.amount
            <= before.wallets[s.author].balance)
    }
}

/// As long as every transfer stays within the sender's spendable balance,
/// every reachable account also keeps `balance >= 0` on its own. (The ledger
/// deliberately lets a transfer reach into the frozen amount as well — the
/// escrowed funds may still come back — and such a transfer drives the
/// sender's signed balance below zero, so the restriction is necessary;
/// without it only [`lemma_reachable_states_are_solvent`] holds.)
pub proof fn lemma_reachable_balances_nonnegative(m: LedgerModel, steps: Seq<LedgerStep>)
    requires
        m.consistent(),
        m.all_balances_nonnegative(),
        steps_ok(m, steps),
        steps_within_spendable(m, steps),
    ensures
        apply_all(m, steps).all_balances_nonnegative(),
    decreases steps.len(),
{
    assert(m.solvent());
    if steps.len() > 0 {
        let s = steps.last();
        let before = apply_all(m, steps.drop_last());
        lemma_reachable_balances_nonnegative(m, steps.drop_last());
        lemma_reachable_states_are_solvent(m, steps.drop_last());
        lemma_step_preserves_nonnegative(before, s.tx, s.author, s.tx_hash);
    }
}

/// The fulfilled flag never reverts: whatever transition runs next, a
/// fulfilled pending transfer stays fulfilled.
pub proof fn lemma_step_keeps_fulfilled(
    m: LedgerModel,
    tx: WalletTransactions,
    author: u64,
    tx_hash: u64,
    h: u64,
)
    requires
        m.consistent(),
        tx.fits(m, author, tx_hash),
        tx.outcome(m, author) is None,
        m.pending.dom().contains(h),
        m.pending[h].fulfilled,
    ensures
        tx.apply(m, author, tx_hash).pending.dom().contains(h),
        tx.apply(m, author, tx_hash).pending[h].fulfilled,
{
    match tx {
        WalletTransactions::Transfer(t) => {
            assert(h != tx_hash);
        },
        WalletTransactions::Issue(t) => {
        },
        WalletTransactions::CreateWallet(t) => {
        },
        WalletTransactions::ConfirmTransfer(t) => {
            assert(h != t.tx_hash);
        },
    }
}

} // verus!
