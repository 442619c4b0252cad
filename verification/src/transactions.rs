//! The four ledger transitions and their error codes.
//!
//! Each handler receives the verified caller identity and the transaction's
//! own identifier from the surrounding envelope, validates its preconditions
//! in order (first failure wins), and either applies all of its mutations or
//! returns one error and leaves the state untouched.
use vstd::prelude::*;
use crate::model::LedgerModel;
use crate::pending_transfer::PendingTransfer;
use crate::schema::Schema;
use crate::INITIAL_BALANCE;

verus! {

/// Error codes emitted by wallet transactions during execution.
///
/// A closed set: the numeric code of each kind (see [`Error::code`]) is stable
/// for wire compatibility and never reused.
#[derive(Clone, Copy, PartialEq, Eq, Structural, Debug)]
pub enum Error {
    /// Wallet already exists. Emitted by `CreateWallet`.
    WalletAlreadyExists,
    /// Sender doesn't exist. Emitted by `Transfer` and `ConfirmTransfer`.
    SenderNotFound,
    /// Receiver doesn't exist. Emitted by `Transfer`, `Issue` and
    /// `ConfirmTransfer`.
    ReceiverNotFound,
    /// Insufficient currency amount. Emitted by `Transfer` and
    /// `ConfirmTransfer`.
    InsufficientCurrencyAmount,
    /// Pending transfer doesn't exist. Emitted by `ConfirmTransfer`.
    PendingTransferNotFound,
    /// Pending transfer has already been fulfilled. Emitted by
    /// `ConfirmTransfer`.
    PendingTransferAlreadyFulfilled,
    /// Approver doesn't exist. Emitted by `Transfer`.
    ApproverNotFound,
    /// The approver coincides with the sender or the receiver. Emitted by
    /// `Transfer`.
    ThirdPartySameAsSenderOrReceiver,
    /// Sender and receiver coincide. Emitted by `Transfer`.
    SenderSameAsReceiver,
    /// The confirmation was authored by someone other than the recorded
    /// approver. Emitted by `ConfirmTransfer`.
    UnexpectedThirdParty,
}

impl Error {
    /// The stable numeric code of this error kind.
    pub open spec fn spec_code(self) -> u8 {
        match self {
            Error::WalletAlreadyExists => 0,
            Error::SenderNotFound => 1,
            Error::ReceiverNotFound => 2,
            Error::InsufficientCurrencyAmount => 3,
            Error::PendingTransferNotFound => 4,
            Error::PendingTransferAlreadyFulfilled => 5,
            Error::ApproverNotFound => 6,
            Error::ThirdPartySameAsSenderOrReceiver => 7,
            Error::SenderSameAsReceiver => 8,
            Error::UnexpectedThirdParty => 9,
        }
    }

    /// The stable numeric code of this error kind.
    pub fn code(&self) -> (r: u8)
        ensures
            r == self.spec_code(),
    {
        match self {
            Error::WalletAlreadyExists => 0,
            Error::SenderNotFound => 1,
            Error::ReceiverNotFound => 2,
            Error::InsufficientCurrencyAmount => 3,
            Error::PendingTransferNotFound => 4,
            Error::PendingTransferAlreadyFulfilled => 5,
            Error::ApproverNotFound => 6,
            Error::ThirdPartySameAsSenderOrReceiver => 7,
            Error::SenderSameAsReceiver => 8,
            Error::UnexpectedThirdParty => 9,
        }
    }

    /// The text of the error's human-readable description.
    pub open spec fn spec_description(self) -> Seq<char> {
        match self {
            Error::WalletAlreadyExists => "Wallet already exists"@,
            Error::SenderNotFound => "Sender doesn't exist"@,
            Error::ReceiverNotFound => "Receiver doesn't exist"@,
            Error::InsufficientCurrencyAmount => "Insufficient currency amount"@,
            Error::PendingTransferNotFound => "Pending transfer doesn't exist"@,
            Error::PendingTransferAlreadyFulfilled => "Pending transfer has already been fulfilled"@,
            Error::ApproverNotFound => "Approver doesn't exist"@,
            Error::ThirdPartySameAsSenderOrReceiver => "Approver coincides with sender or receiver"@,
            Error::SenderSameAsReceiver => "Sender same as receiver"@,
            Error::UnexpectedThirdParty => "Confirmation author is not the recorded approver"@,
        }
    }

    /// A human-readable description of the error.
    pub fn description(&self) -> (r: &'static str)
        ensures
            r@ == self.spec_description(),
    {
        match self {
            Error::WalletAlreadyExists => "Wallet already exists",
            Error::SenderNotFound => "Sender doesn't exist",
            Error::ReceiverNotFound => "Receiver doesn't exist",
            Error::InsufficientCurrencyAmount => "Insufficient currency amount",
            Error::PendingTransferNotFound => "Pending transfer doesn't exist",
            Error::PendingTransferAlreadyFulfilled => "Pending transfer has already been fulfilled",
            Error::ApproverNotFound => "Approver doesn't exist",
            Error::ThirdPartySameAsSenderOrReceiver => "Approver coincides with sender or receiver",
            Error::SenderSameAsReceiver => "Sender same as receiver",
            Error::UnexpectedThirdParty => "Confirmation author is not the recorded approver",
        }
    }
}

/// Whether a confirmed withdrawal of `amount` may proceed for an account with
/// the given spendable balance and frozen amount: the frozen amount must cover
/// it, and so must the combined reserve and available funds (the balance is
/// signed and may have gone non-positive for reasons outside this transition's
/// direct control).
pub open spec fn spec_can_confirm_withdrawal(balance: int, frozen: int, amount: int) -> bool {
    frozen >= amount && frozen + balance >= amount
}

/// Checks whether a withdrawal can be confirmed: the withdrawal amount must be
/// covered by the frozen amount, and also by the frozen amount plus the
/// (possibly negative) spendable balance.
pub fn can_confirm_withdrawal(balance: i64, frozen: u64, amount: u64) -> (r: bool)
    ensures
        r == spec_can_confirm_withdrawal(balance as int, frozen as int, amount as int),
{
    frozen >= amount && (frozen as i128) + (balance as i128) >= (amount as i128)
}

/// Transfer `amount` of the currency from the author's wallet into escrow for
/// the receiver, to be released by the approver.
#[derive(Clone, Debug)]
pub struct Transfer {
    /// Identity of the receiver's wallet.
    pub to: u64,
    /// Identity of the approver's wallet.
    pub approver: u64,
    /// Amount of currency to transfer.
    pub amount: u64,
    /// Auxiliary number that makes otherwise-identical payloads hash to
    /// distinct transaction identifiers; no effect on the ledger state.
    pub seed: u64,
}

/// Issue `amount` of the currency to the author's wallet.
#[derive(Clone, Debug)]
pub struct Issue {
    /// Issued amount of currency.
    pub amount: u64,
    /// Auxiliary number that makes otherwise-identical payloads hash to
    /// distinct transaction identifiers; no effect on the ledger state.
    pub seed: u64,
}

/// Create a wallet for the author with the given `name`.
#[derive(Clone, Debug)]
pub struct CreateWallet {
    /// Name of the new wallet.
    pub name: String,
}

/// Confirm the pending transfer created by the transaction `tx_hash`.
#[derive(Clone, Debug)]
pub struct ConfirmTransfer {
    /// Identifier of the transfer transaction to be confirmed.
    pub tx_hash: u64,
    /// Auxiliary number that makes otherwise-identical payloads hash to
    /// distinct transaction identifiers; no effect on the ledger state.
    pub seed: u64,
}

impl Transfer {
    /// The error this transfer returns on the given state, if any, checking
    /// the preconditions in order: first failure wins.
    pub open spec fn outcome(self, m: LedgerModel, author: u64) -> Option<Error> {
        if author == self.approver || self.to == self.approver {
            Some(Error::ThirdPartySameAsSenderOrReceiver)
        } else if author == self.to {
            Some(Error::SenderSameAsReceiver)
        } else if !m.has_wallet(self.approver) {
            Some(Error::ApproverNotFound)
        } else if !m.has_wallet(author) {
            Some(Error::SenderNotFound)
        } else if !m.has_wallet(self.to) {
            Some(Error::ReceiverNotFound)
        } else if m.wallets[author].balance + m.wallets[author].frozen_amount < self.amount {
            Some(Error::InsufficientCurrencyAmount)
        } else {
            None
        }
    }

    /// The state after this transfer succeeds: the sender's spendable balance
    /// moves into its frozen amount and a fresh pending transfer is recorded
    /// under the transaction's identifier.
    pub open spec fn apply(self, m: LedgerModel, author: u64, tx_hash: u64) -> LedgerModel {
        let sender = m.wallets[author];
        let m1 = m.record_step(
            sender,
            (sender.balance - self.amount) as i64,
            (sender.frozen_amount + self.amount) as u64,
            tx_hash,
        );
        m1.put_pending(
            (PendingTransfer {
                tx_hash,
                from: author,
                to: self.to,
                approver: self.approver,
                amount: self.amount,
                fulfilled: false,
            }),
        )
    }

    /// Machine limits under which the transition's arithmetic is exact, plus
    /// the envelope's guarantee that the transaction identifier is fresh.
    pub open spec fn fits(self, m: LedgerModel, author: u64, tx_hash: u64) -> bool {
        self.outcome(m, author) is None ==> {
            &&& m.wallets[author].balance - self.amount >= i64::MIN
            &&& m.wallets[author].frozen_amount + self.amount <= u64::MAX
            &&& !m.pending.dom().contains(tx_hash)
        }
    }

    /// Execute the transfer authored by `author` under the transaction
    /// identifier `tx_hash`: on success all mutations are applied, on error
    /// none are.
    pub fn execute(&self, schema: &mut Schema, author: u64, tx_hash: u64) -> (r: Result<(), Error>)
        requires
            old(schema).wf(),
            old(schema)@.consistent(),
            self.fits(old(schema)@, author, tx_hash),
        ensures
            final(schema).wf(),
            final(schema)@.consistent(),
            (match r {
                Ok(()) => self.outcome(old(schema)@, author) is None && final(schema)@
                    == self.apply(old(schema)@, author, tx_hash),
                Err(e) => self.outcome(old(schema)@, author) == Some(e) && final(schema)@ == old(
                    schema,
                )@,
            }),
    {
        if author == self.approver || self.to == self.approver {
            return Err(Error::ThirdPartySameAsSenderOrReceiver);
        }
        if author == self.to {
            return Err(Error::SenderSameAsReceiver);
        }
        if schema.wallet(self.approver).is_none() {
            return Err(Error::ApproverNotFound);
        }
        let sender = match schema.wallet(author) {
            Some(w) => w,
            None => {
                return Err(Error::SenderNotFound);
            },
        };
        if schema.wallet(self.to).is_none() {
            return Err(Error::ReceiverNotFound);
        }
        if (sender.balance as i128) + (sender.frozen_amount as i128) < (self.amount as i128) {
            return Err(Error::InsufficientCurrencyAmount);
        }
        proof {
            assert(old(schema)@.wallets[author].pub_key == author);
        }
        schema.decrease_wallet_balance(sender, self.amount, tx_hash);
        schema.create_pending_transfer(tx_hash, author, self.to, self.approver, self.amount);
        proof {
            assert(schema@ =~= self.apply(old(schema)@, author, tx_hash));
        }
        Ok(())
    }
}

impl Issue {
    /// The error an issue returns on the given state, if any: the author's
    /// wallet (the receiver of the issued funds) must exist.
    pub open spec fn outcome(self, m: LedgerModel, author: u64) -> Option<Error> {
        if !m.has_wallet(author) {
            Some(Error::ReceiverNotFound)
        } else {
            None
        }
    }

    /// The state after a successful issue: the author's balance grows by the
    /// issued amount. Issue is the one transition that creates value.
    pub open spec fn apply(self, m: LedgerModel, author: u64, tx_hash: u64) -> LedgerModel {
        let w = m.wallets[author];
        m.record_step(w, (w.balance + self.amount) as i64, w.frozen_amount, tx_hash)
    }

    /// Machine limits under which the transition's arithmetic is exact.
    pub open spec fn fits(self, m: LedgerModel, author: u64) -> bool {
        self.outcome(m, author) is None ==> m.wallets[author].balance + self.amount <= i64::MAX
    }

    /// Execute the issue authored by `author` under the transaction identifier
    /// `tx_hash`.
    pub fn execute(&self, schema: &mut Schema, author: u64, tx_hash: u64) -> (r: Result<(), Error>)
        requires
            old(schema).wf(),
            old(schema)@.consistent(),
            self.fits(old(schema)@, author),
        ensures
            final(schema).wf(),
            final(schema)@.consistent(),
            (match r {
                Ok(()) => self.outcome(old(schema)@, author) is None && final(schema)@
                    == self.apply(old(schema)@, author, tx_hash),
                Err(e) => self.outcome(old(schema)@, author) == Some(e) && final(schema)@ == old(
                    schema,
                )@,
            }),
    {
        match schema.wallet(author) {
            Some(wallet) => {
                proof {
                    assert(old(schema)@.wallets[author].pub_key == author);
                }
                schema.increase_wallet_balance(wallet, self.amount, tx_hash);
                Ok(())
            },
            None => Err(Error::ReceiverNotFound),
        }
    }
}

impl CreateWallet {
    /// The error a wallet creation returns on the given state, if any: the
    /// author must not already have a wallet.
    pub open spec fn outcome(self, m: LedgerModel, author: u64) -> Option<Error> {
        if m.has_wallet(author) {
            Some(Error::WalletAlreadyExists)
        } else {
            None
        }
    }

    /// The state after a successful creation: a fresh wallet for the author
    /// with the initial balance, nothing frozen, and a one-entry history log.
    pub open spec fn apply(self, m: LedgerModel, author: u64, tx_hash: u64) -> LedgerModel {
        m.create_step(author, self.name, INITIAL_BALANCE, tx_hash)
    }

    /// Execute the wallet creation authored by `author` under the transaction
    /// identifier `tx_hash`.
    pub fn execute(&self, schema: &mut Schema, author: u64, tx_hash: u64) -> (r: Result<(), Error>)
        requires
            old(schema).wf(),
            old(schema)@.consistent(),
        ensures
            final(schema).wf(),
            final(schema)@.consistent(),
            (match r {
                Ok(()) => self.outcome(old(schema)@, author) is None && final(schema)@
                    == self.apply(old(schema)@, author, tx_hash),
                Err(e) => self.outcome(old(schema)@, author) == Some(e) && final(schema)@ == old(
                    schema,
                )@,
            }),
    {
        if schema.wallet(author).is_none() {
            schema.create_wallet(author, self.name.clone(), tx_hash);
            Ok(())
        } else {
            Err(Error::WalletAlreadyExists)
        }
    }
}

impl ConfirmTransfer {
    /// The error a confirmation returns on the given state, if any, checking
    /// the preconditions in order: the pending transfer must exist, the author
    /// must be its recorded approver (checked before the fulfilled flag), it
    /// must not be fulfilled yet, both accounts must exist, and the sender's
    /// funds must still cover the escrowed amount.
    pub open spec fn outcome(self, m: LedgerModel, author: u64) -> Option<Error> {
        if !m.pending.dom().contains(self.tx_hash) {
            Some(Error::PendingTransferNotFound)
        } else {
            let p = m.pending[self.tx_hash];
            if p.approver != author {
                Some(Error::UnexpectedThirdParty)
            } else if p.fulfilled {
                Some(Error::PendingTransferAlreadyFulfilled)
            } else if !m.has_wallet(p.from) {
                Some(Error::SenderNotFound)
            } else if !m.has_wallet(p.to) {
                Some(Error::ReceiverNotFound)
            } else if !spec_can_confirm_withdrawal(
                m.wallets[p.from].balance as int,
                m.wallets[p.from].frozen_amount as int,
                p.amount as int,
            ) {
                Some(Error::InsufficientCurrencyAmount)
            } else {
                None
            }
        }
    }

    /// The state after a successful confirmation: the escrowed amount leaves
    /// the sender's frozen funds, is credited to the receiver, and the pending
    /// transfer is marked fulfilled.
    pub open spec fn apply(self, m: LedgerModel, author: u64, tx_hash: u64) -> LedgerModel {
        let p = m.pending[self.tx_hash];
        let sender = m.wallets[p.from];
        let receiver = m.wallets[p.to];
        let m1 = m.record_step(
            sender,
            sender.balance,
            (sender.frozen_amount - p.amount) as u64,
            tx_hash,
        );
        let m2 = m1.record_step(
            receiver,
            (receiver.balance + p.amount) as i64,
            receiver.frozen_amount,
            tx_hash,
        );
        m2.put_pending((PendingTransfer { fulfilled: true, ..p }))
    }

    /// Machine limits under which the transition's arithmetic is exact.
    pub open spec fn fits(self, m: LedgerModel, author: u64) -> bool {
        self.outcome(m, author) is None ==> m.wallets[m.pending[self.tx_hash].to].balance
            + m.pending[self.tx_hash].amount <= i64::MAX
    }

    /// Execute the confirmation authored by `author` under the transaction
    /// identifier `tx_hash`.
    pub fn execute(&self, schema: &mut Schema, author: u64, tx_hash: u64) -> (r: Result<(), Error>)
        requires
            old(schema).wf(),
            old(schema)@.consistent(),
            self.fits(old(schema)@, author),
        ensures
            final(schema).wf(),
            final(schema)@.consistent(),
            (match r {
                Ok(()) => self.outcome(old(schema)@, author) is None && final(schema)@
                    == self.apply(old(schema)@, author, tx_hash),
                Err(e) => self.outcome(old(schema)@, author) == Some(e) && final(schema)@ == old(
                    schema,
                )@,
            }),
    {
        let pending = match schema.pending_transfer(self.tx_hash) {
            Some(p) => p,
            None => {
                return Err(Error::PendingTransferNotFound);
            },
        };
        if pending.approver != author {
            return Err(Error::UnexpectedThirdParty);
        }
        if pending.fulfilled {
            return Err(Error::PendingTransferAlreadyFulfilled);
        }
        let sender = match schema.wallet(pending.from) {
            Some(w) => w,
            None => {
                return Err(Error::SenderNotFound);
            },
        };
        let receiver = match schema.wallet(pending.to) {
            Some(w) => w,
            None => {
                return Err(Error::ReceiverNotFound);
            },
        };
        if !can_confirm_withdrawal(sender.balance, sender.frozen_amount, pending.amount) {
            return Err(Error::InsufficientCurrencyAmount);
        }
        proof {
            assert(old(schema)@.wallets[pending.from].pub_key == pending.from);
            assert(old(schema)@.wallets[pending.to].pub_key == pending.to);
        }
        schema.decrease_wallet_frozen_balance(sender, pending.amount, tx_hash);
        schema.increase_wallet_balance(receiver, pending.amount, tx_hash);
        schema.fulfill_pending_transfer(pending);
        proof {
            assert(schema@ =~= self.apply(old(schema)@, author, tx_hash));
        }
        Ok(())
    }
}

/// Transaction group: the payloads of the four transitions.
#[derive(Clone, Debug)]
pub enum WalletTransactions {
    /// Transfer tx.
    Transfer(Transfer),
    /// Issue tx.
    Issue(Issue),
    /// CreateWallet tx.
    CreateWallet(CreateWallet),
    /// ConfirmTransfer tx.
    ConfirmTransfer(ConfirmTransfer),
}

impl WalletTransactions {
    /// The error this transaction returns on the given state, if any.
    pub open spec fn outcome(self, m: LedgerModel, author: u64) -> Option<Error> {
        match self {
            WalletTransactions::Transfer(t) => t.outcome(m, author),
            WalletTransactions::Issue(t) => t.outcome(m, author),
            WalletTransactions::CreateWallet(t) => t.outcome(m, author),
            WalletTransactions::ConfirmTransfer(t) => t.outcome(m, author),
        }
    }

    /// The state after this transaction succeeds.
    pub open spec fn apply(self, m: LedgerModel, author: u64, tx_hash: u64) -> LedgerModel {
        match self {
            WalletTransactions::Transfer(t) => t.apply(m, author, tx_hash),
            WalletTransactions::Issue(t) => t.apply(m, author, tx_hash),
            WalletTransactions::CreateWallet(t) => t.apply(m, author, tx_hash),
            WalletTransactions::ConfirmTransfer(t) => t.apply(m, author, tx_hash),
        }
    }

    /// Machine limits under which the transaction's arithmetic is exact, and
    /// for a transfer the envelope's guarantee of a fresh identifier.
    pub open spec fn fits(self, m: LedgerModel, author: u64, tx_hash: u64) -> bool {
        match self {
            WalletTransactions::Transfer(t) => t.fits(m, author, tx_hash),
            WalletTransactions::Issue(t) => t.fits(m, author),
            WalletTransactions::CreateWallet(t) => true,
            WalletTransactions::ConfirmTransfer(t) => t.fits(m, author),
        }
    }

    /// Machine limit on the history logs this transaction appends to: their
    /// length counters must not overflow. (A concrete schema enforces this
    /// through the capacity of its stores; stated here so that laws about the
    /// abstract model can assume it.)
    pub open spec fn headroom(self, m: LedgerModel, author: u64) -> bool {
        match self {
            WalletTransactions::Transfer(t) => m.history_of(author).len() + 1 <= u64::MAX,
            WalletTransactions::Issue(t) => m.history_of(author).len() + 1 <= u64::MAX,
            WalletTransactions::CreateWallet(t) => true,
            WalletTransactions::ConfirmTransfer(t) => {
                let p = m.pending[t.tx_hash];
                m.history_of(p.from).len() + 2 <= u64::MAX && m.history_of(p.to).len() + 2
                    <= u64::MAX
            },
        }
    }

    /// Execute this transaction authored by `author` under the transaction
    /// identifier `tx_hash`.
    pub fn execute(&self, schema: &mut Schema, author: u64, tx_hash: u64) -> (r: Result<(), Error>)
        requires
            old(schema).wf(),
            old(schema)@.consistent(),
            self.fits(old(schema)@, author, tx_hash),
        ensures
            final(schema).wf(),
            final(schema)@.consistent(),
            (match r {
                Ok(()) => self.outcome(old(schema)@, author) is None && final(schema)@
                    == self.apply(old(schema)@, author, tx_hash),
                Err(e) => self.outcome(old(schema)@, author) == Some(e) && final(schema)@ == old(
                    schema,
                )@,
            }),
    {
        match self {
            WalletTransactions::Transfer(t) => t.execute(schema, author, tx_hash),
            WalletTransactions::Issue(t) => t.execute(schema, author, tx_hash),
            WalletTransactions::CreateWallet(t) => t.execute(schema, author, tx_hash),
            WalletTransactions::ConfirmTransfer(t) => t.execute(schema, author, tx_hash),
        }
    }
}

} // verus!
