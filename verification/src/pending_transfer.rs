//! The escrow ticket: a transfer awaiting third-party confirmation.
use vstd::prelude::*;

verus! {

/// Record of an escrowed transfer, keyed by the identifier of the transfer
/// transaction that created it. Once `fulfilled` is set it never reverts; the
/// record is kept as an audit trail and is never deleted.
#[derive(Clone, Copy, PartialEq, Eq, Structural, Debug)]
pub struct PendingTransfer {
    /// Identifier of the transfer transaction that created this record.
    pub tx_hash: u64,
    /// Sender identity.
    pub from: u64,
    /// Receiver identity.
    pub to: u64,
    /// Identity whose confirmation releases the escrowed funds.
    pub approver: u64,
    /// Escrowed amount.
    pub amount: u64,
    /// Whether the escrow has been released. Monotonic: false to true, once.
    pub fulfilled: bool,
}

impl PendingTransfer {
    /// Create a pending transfer record from its parts.
    pub fn new(tx_hash: u64, from: u64, to: u64, approver: u64, amount: u64, fulfilled: bool) -> (t:
        PendingTransfer)
        ensures
            t == (PendingTransfer { tx_hash, from, to, approver, amount, fulfilled }),
    {
        PendingTransfer { tx_hash, from, to, approver, amount, fulfilled }
    }

    /// Copy of this pending transfer with the fulfilled flag set.
    pub fn set_fulfilled(self) -> (t: PendingTransfer)
        ensures
            t == (PendingTransfer { fulfilled: true, ..self }),
    {
        PendingTransfer { fulfilled: true, ..self }
    }
}

} // verus!
