//! Commitment of the ledger's authenticated contents.
//!
//! History logs and the account store are summarised by a deterministic
//! multiply-and-fold commitment over 64-bit words. The transition logic only
//! relies on the fold being a function of the summarised contents, so the
//! concrete commitment can be swapped without touching the handlers.
use vstd::prelude::*;
use crate::wallet::Wallet;

verus! {

/// Starting value of the commitment fold.
pub const DIGEST_SEED: u64 = 0xcbf2_9ce4_8422_2325;

/// Multiplier of the commitment fold.
pub const DIGEST_PRIME: u64 = 0x0000_0100_0000_01b3;

/// One step of the fold: absorb the word `x` into the running commitment `h`.
pub open spec fn digest_step(h: u64, x: u64) -> u64 {
    ((((h ^ x) as int) * (DIGEST_PRIME as int)) % 0x1_0000_0000_0000_0000) as u64
}

/// Commitment of a sequence of words, absorbed left to right.
pub open spec fn seq_digest(s: Seq<u64>) -> u64
    decreases s.len(),
{
    if s.len() == 0 {
        DIGEST_SEED
    } else {
        digest_step(seq_digest(s.drop_last()), s.last())
    }
}

/// Order-preserving injection of a signed balance into the word domain.
pub open spec fn balance_code(b: i64) -> u64 {
    ((b as int) + 0x8000_0000_0000_0000) as u64
}

/// Commitment of one account record: its identifier and numeric state.
pub open spec fn wallet_digest(w: Wallet) -> u64 {
    digest_step(
        digest_step(
            digest_step(
                digest_step(digest_step(DIGEST_SEED, w.pub_key), balance_code(w.balance)),
                w.frozen_amount,
            ),
            w.history_len,
        ),
        w.history_hash,
    )
}

/// Absorb the word `x` into the running commitment `h`.
pub fn digest_push(h: u64, x: u64) -> (r: u64)
    ensures
        r == digest_step(h, x),
{
    let word: u128 = (h ^ x) as u128;
    assert(word * (DIGEST_PRIME as u128) <= (u64::MAX as u128) * (DIGEST_PRIME as u128))
        by (nonlinear_arith)
        requires
            word <= u64::MAX as u128,
    ;
    let wide: u128 = word * (DIGEST_PRIME as u128);
    let reduced: u128 = wide % 0x1_0000_0000_0000_0000u128;
    reduced as u64
}

/// Encode a signed balance for the commitment fold.
pub fn encode_balance(b: i64) -> (r: u64)
    ensures
        r == balance_code(b),
{
    ((b as i128) + 0x8000_0000_0000_0000i128) as u64
}

/// Commitment of a whole history log.
pub fn compute_digest(entries: &Vec<u64>) -> (r: u64)
    ensures
        r == seq_digest(entries@),
{
    let mut h: u64 = DIGEST_SEED;
    let mut i: usize = 0;
    while i < entries.len()
        invariant
            i <= entries@.len(),
            h == seq_digest(entries@.subrange(0, i as int)),
        decreases entries@.len() - i,
    {
        h = digest_push(h, entries[i]);
        i = i + 1;
        proof {
            assert(entries@.subrange(0, i as int).drop_last() =~= entries@.subrange(
                0,
                i as int - 1,
            ));
        }
    }
    proof {
        assert(entries@.subrange(0, entries@.len() as int) =~= entries@);
    }
    h
}

/// Commitment of one account record.
pub fn compute_wallet_digest(w: &Wallet) -> (r: u64)
    ensures
        r == wallet_digest(*w),
{
    let mut h: u64 = digest_push(DIGEST_SEED, w.pub_key);
    h = digest_push(h, encode_balance(w.balance));
    h = digest_push(h, w.frozen_amount);
    h = digest_push(h, w.history_len);
    digest_push(h, w.history_hash)
}

} // verus!
