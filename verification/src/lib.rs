//! A deterministic escrow ledger: accounts hold spendable and reserved funds,
//! and value moves from sender to receiver only after a third-party approver
//! confirms the escrowed transfer.
//!
//! The ledger is a pure state machine. Each transaction handler validates its
//! preconditions against the current [`schema::Schema`] and either applies all
//! of its mutations or returns a typed [`transactions::Error`] and leaves the
//! state untouched. Identity verification, transaction hashing and persistence
//! are the concern of the surrounding system; the handlers receive the caller
//! identity and the transaction identifier as plain values.
#![allow(unused_imports)]
use vstd::prelude::*;

pub mod digest;
pub mod laws;
pub mod model;
pub mod pending_transfer;
pub mod schema;
pub mod transactions;
pub mod wallet;

verus! {

/// Balance granted to every newly created wallet.
pub const INITIAL_BALANCE: i64 = 100;

} // verus!
