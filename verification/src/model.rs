//! Mathematical model of the ledger state.
//!
//! The contracts of [`crate::schema::Schema`] and of the transaction handlers
//! speak about a [`LedgerModel`]: maps from account identity to wallet record
//! and history log, the account creation order (the canonical order of the
//! published commitment), and the map of pending transfers.
use vstd::prelude::*;
use crate::digest::{digest_step, seq_digest, wallet_digest, DIGEST_SEED};
use crate::pending_transfer::PendingTransfer;
use crate::wallet::Wallet;

verus! {

/// Abstract ledger state.
#[verifier::ext_equal]
pub struct LedgerModel {
    /// Account records by identity.
    pub wallets: Map<u64, Wallet>,
    /// Account identities in creation order; the canonical order of the
    /// published commitment.
    pub order: Seq<u64>,
    /// Per-account history logs: the transaction identifiers that touched the
    /// account, oldest first.
    pub histories: Map<u64, Seq<u64>>,
    /// Pending transfers by the identifier of the transfer transaction.
    pub pending: Map<u64, PendingTransfer>,
}

impl LedgerModel {
    /// The state with no accounts and no pending transfers.
    pub open spec fn empty() -> LedgerModel {
        LedgerModel {
            wallets: Map::empty(),
            order: Seq::empty(),
            histories: Map::empty(),
            pending: Map::empty(),
        }
    }

    /// Whether an account with identity `k` exists.
    pub open spec fn has_wallet(self, k: u64) -> bool {
        self.wallets.dom().contains(k)
    }

    /// The account record for identity `k`, if any.
    pub open spec fn wallet_of(self, k: u64) -> Option<Wallet> {
        if self.has_wallet(k) {
            Some(self.wallets[k])
        } else {
            None
        }
    }

    /// The history log of account `k`; empty if the account does not exist.
    pub open spec fn history_of(self, k: u64) -> Seq<u64> {
        if self.histories.dom().contains(k) {
            self.histories[k]
        } else {
            Seq::empty()
        }
    }

    /// The pending transfer recorded under transaction identifier `h`, if any.
    pub open spec fn pending_of(self, h: u64) -> Option<PendingTransfer> {
        if self.pending.dom().contains(h) {
            Some(self.pending[h])
        } else {
            None
        }
    }

    /// Structural consistency of the state: every account has exactly one
    /// history log, records are stored under their own identity, and each
    /// wallet's `history_len` and `history_hash` summarise its log.
    pub open spec fn consistent(self) -> bool {
        &&& self.histories.dom() == self.wallets.dom()
        &&& forall|k: u64|
            self.has_wallet(k) ==> (#[trigger] self.wallets[k]).pub_key == k
        &&& forall|k: u64|
            self.has_wallet(k) ==> (#[trigger] self.wallets[k]).history_len
                == self.history_of(k).len()
        &&& forall|k: u64|
            self.has_wallet(k) ==> (#[trigger] self.wallets[k]).history_hash == seq_digest(
                self.history_of(k),
            )
        &&& forall|h: u64|
            self.pending.dom().contains(h) ==> (#[trigger] self.pending[h]).tx_hash == h
        &&& self.order.no_duplicates()
        &&& self.order.to_set() == self.wallets.dom()
    }

    /// Solvency: every account's spendable plus reserved funds are
    /// non-negative. This holds of every reachable state.
    pub open spec fn solvent(self) -> bool {
        forall|k: u64|
            self.has_wallet(k) ==> (#[trigger] self.wallets[k]).balance
                + self.wallets[k].frozen_amount >= 0
    }

    /// Whether every account's spendable balance alone is non-negative.
    pub open spec fn all_balances_nonnegative(self) -> bool {
        forall|k: u64| self.has_wallet(k) ==> (#[trigger] self.wallets[k]).balance >= 0
    }

    /// One balance transition of the account of `w`: append `tx` to its
    /// history, recompute the log summary, and store `w` with the given
    /// spendable and reserved amounts.
    pub open spec fn record_step(self, w: Wallet, balance: i64, frozen_amount: u64, tx: u64)
        -> LedgerModel {
        let entries = self.history_of(w.pub_key).push(tx);
        LedgerModel {
            wallets: self.wallets.insert(
                w.pub_key,
                (Wallet {
                    balance,
                    frozen_amount,
                    history_len: entries.len() as u64,
                    history_hash: seq_digest(entries),
                    ..w
                }),
            ),
            histories: self.histories.insert(w.pub_key, entries),
            ..self
        }
    }

    /// Creation of the account `key`: a fresh wallet whose history log holds
    /// the creating transaction alone.
    pub open spec fn create_step(self, key: u64, name: String, balance: i64, tx: u64)
        -> LedgerModel {
        let entries = seq![tx];
        LedgerModel {
            wallets: self.wallets.insert(
                key,
                (Wallet {
                    pub_key: key,
                    name,
                    balance,
                    frozen_amount: 0,
                    history_len: 1,
                    history_hash: seq_digest(entries),
                }),
            ),
            order: self.order.push(key),
            histories: self.histories.insert(key, entries),
            ..self
        }
    }

    /// Store the pending transfer `t` under its own transaction identifier.
    pub open spec fn put_pending(self, t: PendingTransfer) -> LedgerModel {
        LedgerModel { pending: self.pending.insert(t.tx_hash, t), ..self }
    }

    /// Commitment of the first `n` accounts in canonical order.
    pub open spec fn state_digest_to(self, n: int) -> u64
        decreases n,
    {
        if n <= 0 {
            DIGEST_SEED
        } else {
            digest_step(self.state_digest_to(n - 1), wallet_digest(self.wallets[self.order[n - 1]]))
        }
    }

    /// The published commitment: a digest of the account store alone, in
    /// canonical (creation) order. Pending transfers and the per-account logs
    /// are summarised inside the records but are not folded in here.
    pub open spec fn state_digest(self) -> u64 {
        self.state_digest_to(self.order.len() as int)
    }
}

/// A balance transition of an existing account keeps the state consistent:
/// the stored record and the history log are updated in the same step.
pub proof fn lemma_record_step_consistent(
    m: LedgerModel,
    w: Wallet,
    balance: i64,
    frozen_amount: u64,
    tx: u64,
)
    requires
        m.consistent(),
        m.has_wallet(w.pub_key),
        m.history_of(w.pub_key).len() + 1 <= u64::MAX,
    ensures
        m.record_step(w, balance, frozen_amount, tx).consistent(),
{
    let k = w.pub_key;
    let m2 = m.record_step(w, balance, frozen_amount, tx);
    assert(m2.histories.dom() =~= m2.wallets.dom());
    assert(m2.wallets.dom() =~= m.wallets.dom());
    assert(m2.order.to_set() == m2.wallets.dom());
    assert forall|q: u64| m2.has_wallet(q) implies (#[trigger] m2.wallets[q]).history_len
        == m2.history_of(q).len() && m2.wallets[q].history_hash == seq_digest(m2.history_of(q))
        && m2.wallets[q].pub_key == q by {
        if q != k {
            assert(m2.wallets[q] == m.wallets[q]);
            assert(m2.history_of(q) == m.history_of(q));
        } else {
            assert(m2.history_of(k) == m.history_of(k).push(tx));
        }
    }
}

/// Creating a fresh account keeps the state consistent: the new record, its
/// single-entry history log and the canonical order are extended together.
pub proof fn lemma_create_step_consistent(
    m: LedgerModel,
    key: u64,
    name: String,
    balance: i64,
    tx: u64,
)
    requires
        m.consistent(),
        !m.has_wallet(key),
    ensures
        m.create_step(key, name, balance, tx).consistent(),
{
    let m2 = m.create_step(key, name, balance, tx);
    assert(m2.histories.dom() =~= m2.wallets.dom());
    assert forall|q: u64| m2.has_wallet(q) implies (#[trigger] m2.wallets[q]).history_len
        == m2.history_of(q).len() && m2.wallets[q].history_hash == seq_digest(m2.history_of(q))
        && m2.wallets[q].pub_key == q by {
        if q != key {
            assert(m2.wallets[q] == m.wallets[q]);
            assert(m2.history_of(q) == m.history_of(q));
        } else {
            assert(m2.history_of(key) == seq![tx]);
        }
    }
    assert forall|i: int, j: int|
        0 <= i < m2.order.len() && 0 <= j < m2.order.len() && i != j implies m2.order[i]
        != m2.order[j] by {
        if i < m.order.len() && j == m.order.len() {
            assert(m.order.contains(m.order[i]));
            assert(m.order.to_set().contains(m.order[i]));
        }
        if j < m.order.len() && i == m.order.len() {
            assert(m.order.contains(m.order[j]));
            assert(m.order.to_set().contains(m.order[j]));
        }
    }
    assert(m2.order.no_duplicates());
    assert forall|q: u64| m2.order.to_set().contains(q) implies m2.wallets.dom().contains(q) by {
        let idx = choose|i: int| 0 <= i < m2.order.len() && m2.order[i] == q;
        if idx < m.order.len() {
            assert(m.order.contains(q));
            assert(m.order.to_set().contains(q));
        }
    }
    assert forall|q: u64| m2.wallets.dom().contains(q) implies m2.order.to_set().contains(q) by {
        if q == key {
            assert(m2.order[m.order.len() as int] == key);
            assert(m2.order.contains(q));
        } else {
            assert(m.order.to_set().contains(q));
            let idx = choose|i: int| 0 <= i < m.order.len() && m.order[i] == q;
            assert(m2.order[idx] == q);
            assert(m2.order.contains(q));
        }
    }
    assert(m2.order.to_set() =~= m2.wallets.dom());
}

/// Storing a pending transfer keeps the state consistent: the record is keyed
/// by its own transaction identifier and no account data changes.
pub proof fn lemma_put_pending_consistent(m: LedgerModel, t: PendingTransfer)
    requires
        m.consistent(),
    ensures
        m.put_pending(t).consistent(),
{
    let m2 = m.put_pending(t);
    assert forall|h: u64| m2.pending.dom().contains(h) implies (#[trigger] m2.pending[h]).tx_hash
        == h by {
        if h != t.tx_hash {
            assert(m2.pending[h] == m.pending[h]);
        }
    }
}

} // verus!
