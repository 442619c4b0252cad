//! The account record: one wallet per identity.
use vstd::prelude::*;

verus! {

/// Ledger record for one account.
///
/// `balance` is spendable now; `frozen_amount` is reserved pending escrow
/// release. `history_len` and `history_hash` mirror the account's append-only
/// history log: its number of entries and the commitment of its contents.
pub struct Wallet {
    /// Public identifier of the account (unique key of the wallet store).
    pub pub_key: u64,
    /// Display name, set once at creation.
    pub name: String,
    /// Spendable amount. Signed: an escrow-heavy sequence of transfers can
    /// drive it below zero while `balance + frozen_amount` stays non-negative.
    pub balance: i64,
    /// Amount reserved for pending escrowed transfers.
    pub frozen_amount: u64,
    /// Number of entries in the account's history log.
    pub history_len: u64,
    /// Commitment of the account's history log.
    pub history_hash: u64,
}

impl Wallet {
    /// Create a wallet record from its parts.
    pub fn new(
        pub_key: u64,
        name: String,
        balance: i64,
        history_len: u64,
        history_hash: u64,
        frozen_amount: u64,
    ) -> (w: Wallet)
        ensures
            w == (Wallet { pub_key, name, balance, frozen_amount, history_len, history_hash }),
    {
        Wallet { pub_key, name, balance, frozen_amount, history_len, history_hash }
    }

    /// Copy of this wallet with a new balance and updated history summary.
    pub fn set_balance(self, balance: i64, history_len: u64, history_hash: u64) -> (w: Wallet)
        ensures
            w == (Wallet { balance, history_len, history_hash, ..self }),
    {
        Wallet { balance, history_len, history_hash, ..self }
    }

    /// Copy of this wallet with a new frozen amount and updated history summary.
    pub fn set_frozen_amount(self, frozen_amount: u64, history_len: u64, history_hash: u64) -> (w:
        Wallet)
        ensures
            w == (Wallet { frozen_amount, history_len, history_hash, ..self }),
    {
        Wallet { frozen_amount, history_len, history_hash, ..self }
    }
}

impl Clone for Wallet {
    fn clone(&self) -> (w: Wallet)
        ensures
            w == *self,
    {
        Wallet {
            pub_key: self.pub_key,
            name: self.name.clone(),
            balance: self.balance,
            frozen_amount: self.frozen_amount,
            history_len: self.history_len,
            history_hash: self.history_hash,
        }
    }
}

} // verus!
