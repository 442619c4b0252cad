use escrow_ledger::pending_transfer::PendingTransfer;
use escrow_ledger::schema::Schema;
use escrow_ledger::transactions::{ConfirmTransfer, CreateWallet, Error, Issue, Transfer,
    WalletTransactions};
use escrow_ledger::INITIAL_BALANCE;

const A: u64 = 1;
const B: u64 = 2;
const C: u64 = 3;

fn create(schema: &mut Schema, who: u64, name: &str, tx: u64) {
    let r = CreateWallet { name: name.to_string() }.execute(schema, who, tx);
    assert_eq!(r, Ok(()));
}

fn three_wallets() -> Schema {
    let mut s = Schema::new();
    create(&mut s, A, "alice", 10);
    create(&mut s, B, "bob", 11);
    create(&mut s, C, "carol", 12);
    s
}

#[test]
fn create_wallet_starts_with_initial_balance() {
    let mut s = Schema::new();
    create(&mut s, A, "alice", 10);
    let w = s.wallet(A).unwrap();
    assert_eq!(w.pub_key, A);
    assert_eq!(w.name, "alice");
    assert_eq!(w.balance, INITIAL_BALANCE);
    assert_eq!(w.frozen_amount, 0);
    assert_eq!(w.history_len, 1);
    assert!(s.wallet(B).is_none());
}

#[test]
fn create_wallet_twice_fails() {
    let mut s = Schema::new();
    create(&mut s, A, "alice", 10);
    let r = CreateWallet { name: "alice again".to_string() }.execute(&mut s, A, 11);
    assert_eq!(r, Err(Error::WalletAlreadyExists));
    assert_eq!(s.wallet(A).unwrap().name, "alice");
    assert_eq!(s.wallet(A).unwrap().history_len, 1);
}

#[test]
fn issue_increases_balance() {
    let mut s = Schema::new();
    create(&mut s, A, "alice", 10);
    let r = Issue { amount: 50, seed: 0 }.execute(&mut s, A, 11);
    assert_eq!(r, Ok(()));
    assert_eq!(s.wallet(A).unwrap().balance, INITIAL_BALANCE + 50);
}

#[test]
fn issue_without_wallet_fails() {
    let mut s = Schema::new();
    let r = Issue { amount: 50, seed: 0 }.execute(&mut s, A, 11);
    assert_eq!(r, Err(Error::ReceiverNotFound));
    assert!(s.wallet(A).is_none());
}

#[test]
fn transfer_moves_balance_into_escrow() {
    let mut s = three_wallets();
    let r = Transfer { to: B, approver: C, amount: 30, seed: 1 }.execute(&mut s, A, 99);
    assert_eq!(r, Ok(()));
    let a = s.wallet(A).unwrap();
    assert_eq!(a.balance, INITIAL_BALANCE - 30);
    assert_eq!(a.frozen_amount, 30);
    assert_eq!(s.wallet(B).unwrap().balance, INITIAL_BALANCE);
    let p = s.pending_transfer(99).unwrap();
    assert_eq!(p, PendingTransfer::new(99, A, B, C, 30, false));
}

#[test]
fn confirm_releases_escrow() {
    let mut s = three_wallets();
    Transfer { to: B, approver: C, amount: 30, seed: 1 }.execute(&mut s, A, 99).unwrap();
    let r = ConfirmTransfer { tx_hash: 99, seed: 2 }.execute(&mut s, C, 100);
    assert_eq!(r, Ok(()));
    let a = s.wallet(A).unwrap();
    assert_eq!(a.balance, INITIAL_BALANCE - 30);
    assert_eq!(a.frozen_amount, 0);
    assert_eq!(s.wallet(B).unwrap().balance, INITIAL_BALANCE + 30);
    assert!(s.pending_transfer(99).unwrap().fulfilled);
}

#[test]
fn transfer_rejects_colliding_parties() {
    let mut s = three_wallets();
    let r = Transfer { to: C, approver: C, amount: 5, seed: 1 }.execute(&mut s, A, 99);
    assert_eq!(r, Err(Error::ThirdPartySameAsSenderOrReceiver));
    let r = Transfer { to: B, approver: A, amount: 5, seed: 1 }.execute(&mut s, A, 99);
    assert_eq!(r, Err(Error::ThirdPartySameAsSenderOrReceiver));
    let r = Transfer { to: A, approver: C, amount: 5, seed: 1 }.execute(&mut s, A, 99);
    assert_eq!(r, Err(Error::SenderSameAsReceiver));
    // nothing was touched
    assert_eq!(s.wallet(A).unwrap().balance, INITIAL_BALANCE);
    assert_eq!(s.wallet(A).unwrap().frozen_amount, 0);
    assert!(s.pending_transfer(99).is_none());
}

#[test]
fn transfer_missing_accounts() {
    let mut s = Schema::new();
    create(&mut s, A, "alice", 10);
    // approver is checked first
    let r = Transfer { to: B, approver: C, amount: 5, seed: 1 }.execute(&mut s, A, 99);
    assert_eq!(r, Err(Error::ApproverNotFound));
    create(&mut s, C, "carol", 12);
    let r = Transfer { to: A, approver: C, amount: 5, seed: 1 }.execute(&mut s, B, 99);
    assert_eq!(r, Err(Error::SenderNotFound));
    let r = Transfer { to: B, approver: C, amount: 5, seed: 1 }.execute(&mut s, A, 99);
    assert_eq!(r, Err(Error::ReceiverNotFound));
}

#[test]
fn transfer_insufficient_funds() {
    let mut s = three_wallets();
    let r = Transfer { to: B, approver: C, amount: 101, seed: 1 }.execute(&mut s, A, 99);
    assert_eq!(r, Err(Error::InsufficientCurrencyAmount));
    assert_eq!(s.wallet(A).unwrap().balance, INITIAL_BALANCE);
}

#[test]
fn transfer_may_reach_into_escrowed_funds() {
    // the frozen amount still counts as available for further transfers,
    // so the signed balance can go below zero while balance + frozen stays put
    let mut s = three_wallets();
    Transfer { to: B, approver: C, amount: 80, seed: 1 }.execute(&mut s, A, 99).unwrap();
    Transfer { to: B, approver: C, amount: 90, seed: 2 }.execute(&mut s, A, 98).unwrap();
    let a = s.wallet(A).unwrap();
    assert_eq!(a.balance, -70);
    assert_eq!(a.frozen_amount, 170);
    assert_eq!(a.balance + a.frozen_amount as i64, INITIAL_BALANCE);
}

#[test]
fn confirm_missing_pending_fails() {
    let mut s = three_wallets();
    let r = ConfirmTransfer { tx_hash: 77, seed: 2 }.execute(&mut s, C, 100);
    assert_eq!(r, Err(Error::PendingTransferNotFound));
}

#[test]
fn confirm_rejects_unexpected_third_party() {
    let mut s = three_wallets();
    Transfer { to: B, approver: C, amount: 30, seed: 1 }.execute(&mut s, A, 99).unwrap();
    // before fulfilment
    let r = ConfirmTransfer { tx_hash: 99, seed: 2 }.execute(&mut s, B, 100);
    assert_eq!(r, Err(Error::UnexpectedThirdParty));
    ConfirmTransfer { tx_hash: 99, seed: 2 }.execute(&mut s, C, 100).unwrap();
    // and after: the approver check comes before the fulfilled check
    let r = ConfirmTransfer { tx_hash: 99, seed: 3 }.execute(&mut s, B, 101);
    assert_eq!(r, Err(Error::UnexpectedThirdParty));
}

#[test]
fn confirm_is_terminal() {
    let mut s = three_wallets();
    Transfer { to: B, approver: C, amount: 30, seed: 1 }.execute(&mut s, A, 99).unwrap();
    ConfirmTransfer { tx_hash: 99, seed: 2 }.execute(&mut s, C, 100).unwrap();
    let r = ConfirmTransfer { tx_hash: 99, seed: 3 }.execute(&mut s, C, 101);
    assert_eq!(r, Err(Error::PendingTransferAlreadyFulfilled));
    // balances unchanged by the failed confirmation
    let a = s.wallet(A).unwrap();
    assert_eq!(a.balance, INITIAL_BALANCE - 30);
    assert_eq!(a.frozen_amount, 0);
    assert_eq!(s.wallet(B).unwrap().balance, INITIAL_BALANCE + 30);
}

#[test]
fn transfer_confirm_pair_conserves_funds() {
    let mut s = three_wallets();
    let before = s.wallet(A).unwrap().balance + s.wallet(A).unwrap().frozen_amount as i64
        + s.wallet(B).unwrap().balance;
    Transfer { to: B, approver: C, amount: 30, seed: 1 }.execute(&mut s, A, 99).unwrap();
    ConfirmTransfer { tx_hash: 99, seed: 2 }.execute(&mut s, C, 100).unwrap();
    let after = s.wallet(A).unwrap().balance + s.wallet(A).unwrap().frozen_amount as i64
        + s.wallet(B).unwrap().balance;
    assert_eq!(before, after);
    // the approver's own funds are untouched
    assert_eq!(s.wallet(C).unwrap().balance, INITIAL_BALANCE);
    assert_eq!(s.wallet(C).unwrap().frozen_amount, 0);
}

#[test]
fn history_records_transactions() {
    let mut s = Schema::new();
    create(&mut s, A, "alice", 10);
    Issue { amount: 50, seed: 0 }.execute(&mut s, A, 11).unwrap();
    assert_eq!(s.wallet_history(A), vec![10, 11]);
    assert_eq!(s.wallet(A).unwrap().history_len, 2);
    assert!(s.wallet_history(B).is_empty());
}

#[test]
fn history_digest_tracks_log() {
    let mut s = Schema::new();
    create(&mut s, A, "alice", 10);
    let h1 = s.wallet(A).unwrap().history_hash;
    Issue { amount: 50, seed: 0 }.execute(&mut s, A, 11).unwrap();
    let h2 = s.wallet(A).unwrap().history_hash;
    assert_ne!(h1, h2);
    // the digest is a function of the log contents alone
    let mut t = Schema::new();
    create(&mut t, A, "other name", 10);
    Issue { amount: 7, seed: 9 }.execute(&mut t, A, 11).unwrap();
    assert_eq!(t.wallet(A).unwrap().history_hash, h2);
}

#[test]
fn state_hash_is_a_function_of_the_accounts() {
    let mut s = three_wallets();
    let mut t = three_wallets();
    assert_eq!(s.state_hash(), t.state_hash());
    assert_eq!(s.state_hash().len(), 1);
    Issue { amount: 50, seed: 0 }.execute(&mut s, A, 13).unwrap();
    assert_ne!(s.state_hash(), t.state_hash());
    Issue { amount: 50, seed: 0 }.execute(&mut t, A, 13).unwrap();
    assert_eq!(s.state_hash(), t.state_hash());
    // pending transfers are not folded into the published commitment:
    // a transfer changes it only through the sender's account record
    let before = s.state_hash();
    Transfer { to: B, approver: C, amount: 30, seed: 1 }.execute(&mut s, A, 99).unwrap();
    assert_ne!(before, s.state_hash());
}

#[test]
fn pending_transfer_set_fulfilled_keeps_fields() {
    let p = PendingTransfer::new(99, A, B, C, 30, false);
    let q = p.set_fulfilled();
    assert!(q.fulfilled);
    assert_eq!((q.tx_hash, q.from, q.to, q.approver, q.amount), (99, A, B, C, 30));
    // and a fulfilled copy stays fulfilled
    assert!(q.set_fulfilled().fulfilled);
}

#[test]
fn error_codes_are_stable() {
    assert_eq!(Error::WalletAlreadyExists.code(), 0);
    assert_eq!(Error::SenderNotFound.code(), 1);
    assert_eq!(Error::ReceiverNotFound.code(), 2);
    assert_eq!(Error::InsufficientCurrencyAmount.code(), 3);
    assert_eq!(Error::PendingTransferNotFound.code(), 4);
    assert_eq!(Error::PendingTransferAlreadyFulfilled.code(), 5);
    assert_eq!(Error::ApproverNotFound.code(), 6);
    assert_eq!(Error::ThirdPartySameAsSenderOrReceiver.code(), 7);
    assert_eq!(Error::SenderSameAsReceiver.code(), 8);
    assert_eq!(Error::UnexpectedThirdParty.code(), 9);
    assert_eq!(Error::WalletAlreadyExists.description(), "Wallet already exists");
    assert_eq!(Error::InsufficientCurrencyAmount.description(), "Insufficient currency amount");
}

#[test]
fn can_confirm_withdrawal_edges() {
    // a zero amount is always covered
    assert!(can_confirm(0, 0, 0));
    // frozen exactly covers the amount, balance zero
    assert!(can_confirm(0, 10, 10));
    // combined funds exactly cover the amount
    assert!(can_confirm(-10, 20, 10));
    // combined funds one short
    assert!(!can_confirm(-11, 20, 10));
}

fn can_confirm(balance: i64, frozen: u64, amount: u64) -> bool {
    escrow_ledger::transactions::can_confirm_withdrawal(balance, frozen, amount)
}

#[test]
fn transaction_group_dispatches() {
    let mut s = Schema::new();
    let txs = vec![
        (A, 10, WalletTransactions::CreateWallet(CreateWallet { name: "alice".to_string() })),
        (B, 11, WalletTransactions::CreateWallet(CreateWallet { name: "bob".to_string() })),
        (C, 12, WalletTransactions::CreateWallet(CreateWallet { name: "carol".to_string() })),
        (A, 13, WalletTransactions::Issue(Issue { amount: 50, seed: 0 })),
        (A, 99, WalletTransactions::Transfer(Transfer { to: B, approver: C, amount: 30, seed: 1 })),
        (C, 100, WalletTransactions::ConfirmTransfer(ConfirmTransfer { tx_hash: 99, seed: 2 })),
    ];
    for (author, hash, tx) in &txs {
        assert_eq!(tx.execute(&mut s, *author, *hash), Ok(()));
    }
    assert_eq!(s.wallet(A).unwrap().balance, INITIAL_BALANCE + 50 - 30);
    assert_eq!(s.wallet(B).unwrap().balance, INITIAL_BALANCE + 30);
    assert!(s.pending_transfer(99).unwrap().fulfilled);
}
