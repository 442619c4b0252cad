//! The ledger schema: the account store, the per-account history logs and the
//! pending-transfer store, behind read accessors and the balance primitives
//! that keep each account and its history log in step.
use vstd::prelude::*;
use crate::digest::{compute_digest, compute_wallet_digest, digest_push, digest_step, seq_digest,
    wallet_digest, DIGEST_SEED};
use crate::model::LedgerModel;
use crate::pending_transfer::PendingTransfer;
use crate::wallet::Wallet;
use crate::INITIAL_BALANCE;

verus! {

/// One account's append-only history log.
struct History {
    owner: u64,
    entries: Vec<u64>,
}

/// The ledger state: account records, their history logs, and pending
/// transfers. Keys are unique in each store; the abstract value is a
/// [`LedgerModel`].
pub struct Schema {
    wallet_store: Vec<Wallet>,
    history_store: Vec<History>,
    pending_store: Vec<PendingTransfer>,
}

spec fn wallets_unique(s: Seq<Wallet>) -> bool {
    forall|i: int, j: int| 0 <= i < j < s.len() ==> s[i].pub_key != s[j].pub_key
}

spec fn has_wallet_in(s: Seq<Wallet>, k: u64) -> bool {
    exists|i: int| 0 <= i < s.len() && s[i].pub_key == k
}

spec fn wallet_index_in(s: Seq<Wallet>, k: u64) -> int {
    choose|i: int| 0 <= i < s.len() && s[i].pub_key == k
}

spec fn wallet_in(s: Seq<Wallet>, k: u64) -> Wallet {
    s[wallet_index_in(s, k)]
}

spec fn keys_of(s: Seq<Wallet>) -> Seq<u64> {
    Seq::new(s.len(), |i: int| s[i].pub_key)
}

spec fn histories_unique(s: Seq<History>) -> bool {
    forall|i: int, j: int| 0 <= i < j < s.len() ==> s[i].owner != s[j].owner
}

spec fn has_history_in(s: Seq<History>, k: u64) -> bool {
    exists|i: int| 0 <= i < s.len() && s[i].owner == k
}

spec fn history_index_in(s: Seq<History>, k: u64) -> int {
    choose|i: int| 0 <= i < s.len() && s[i].owner == k
}

spec fn history_in(s: Seq<History>, k: u64) -> Seq<u64> {
    s[history_index_in(s, k)].entries@
}

spec fn pendings_unique(s: Seq<PendingTransfer>) -> bool {
    forall|i: int, j: int| 0 <= i < j < s.len() ==> s[i].tx_hash != s[j].tx_hash
}

spec fn has_pending_in(s: Seq<PendingTransfer>, h: u64) -> bool {
    exists|i: int| 0 <= i < s.len() && s[i].tx_hash == h
}

spec fn pending_index_in(s: Seq<PendingTransfer>, h: u64) -> int {
    choose|i: int| 0 <= i < s.len() && s[i].tx_hash == h
}

spec fn pending_in(s: Seq<PendingTransfer>, h: u64) -> PendingTransfer {
    s[pending_index_in(s, h)]
}

impl View for Schema {
    type V = LedgerModel;

    closed spec fn view(&self) -> LedgerModel {
        LedgerModel {
            wallets: Map::new(
                |k: u64| has_wallet_in(self.wallet_store@, k),
                |k: u64| wallet_in(self.wallet_store@, k),
            ),
            order: keys_of(self.wallet_store@),
            histories: Map::new(
                |k: u64| has_history_in(self.history_store@, k),
                |k: u64| history_in(self.history_store@, k),
            ),
            pending: Map::new(
                |h: u64| has_pending_in(self.pending_store@, h),
                |h: u64| pending_in(self.pending_store@, h),
            ),
        }
    }
}

impl Schema {
    /// Well-formedness of the concrete stores: each store keys its records
    /// uniquely, so that the abstract maps determine them.
    pub closed spec fn wf(self) -> bool {
        &&& wallets_unique(self.wallet_store@)
        &&& histories_unique(self.history_store@)
        &&& pendings_unique(self.pending_store@)
    }
}

proof fn lemma_wallet_at_index(s: Seq<Wallet>, i: int)
    requires
        wallets_unique(s),
        0 <= i < s.len(),
    ensures
        has_wallet_in(s, s[i].pub_key),
        wallet_index_in(s, s[i].pub_key) == i,
        wallet_in(s, s[i].pub_key) == s[i],
{
    assert(has_wallet_in(s, s[i].pub_key));
    let j = wallet_index_in(s, s[i].pub_key);
    assert(0 <= j < s.len() && s[j].pub_key == s[i].pub_key);
    if j < i {
        assert(s[j].pub_key != s[i].pub_key);
    } else if i < j {
        assert(s[i].pub_key != s[j].pub_key);
    }
}

proof fn lemma_history_at_index(s: Seq<History>, i: int)
    requires
        histories_unique(s),
        0 <= i < s.len(),
    ensures
        has_history_in(s, s[i].owner),
        history_index_in(s, s[i].owner) == i,
        history_in(s, s[i].owner) == s[i].entries@,
{
    assert(has_history_in(s, s[i].owner));
    let j = history_index_in(s, s[i].owner);
    assert(0 <= j < s.len() && s[j].owner == s[i].owner);
    if j < i {
        assert(s[j].owner != s[i].owner);
    } else if i < j {
        assert(s[i].owner != s[j].owner);
    }
}

proof fn lemma_pending_at_index(s: Seq<PendingTransfer>, i: int)
    requires
        pendings_unique(s),
        0 <= i < s.len(),
    ensures
        has_pending_in(s, s[i].tx_hash),
        pending_index_in(s, s[i].tx_hash) == i,
        pending_in(s, s[i].tx_hash) == s[i],
{
    assert(has_pending_in(s, s[i].tx_hash));
    let j = pending_index_in(s, s[i].tx_hash);
    assert(0 <= j < s.len() && s[j].tx_hash == s[i].tx_hash);
    if j < i {
        assert(s[j].tx_hash != s[i].tx_hash);
    } else if i < j {
        assert(s[i].tx_hash != s[j].tx_hash);
    }
}

proof fn lemma_wallet_update(s: Seq<Wallet>, i: int, w: Wallet)
    requires
        wallets_unique(s),
        0 <= i < s.len(),
        s[i].pub_key == w.pub_key,
    ensures
        wallets_unique(s.update(i, w)),
        forall|k: u64|
            has_wallet_in(s.update(i, w), k) <==> (k == w.pub_key || has_wallet_in(s, k)),
        forall|k: u64|
            #[trigger] has_wallet_in(s.update(i, w), k) ==> wallet_in(s.update(i, w), k) == (
            if k == w.pub_key {
                w
            } else {
                wallet_in(s, k)
            }),
        keys_of(s.update(i, w)) == keys_of(s),
{
    let s2 = s.update(i, w);
    assert forall|a: int, b: int| 0 <= a < b < s2.len() implies s2[a].pub_key != s2[b].pub_key by {
        assert(s2[a].pub_key == s[a].pub_key);
        assert(s2[b].pub_key == s[b].pub_key);
    }
    assert forall|k: u64| has_wallet_in(s2, k) implies (k == w.pub_key || has_wallet_in(s, k)) by {
        let j = wallet_index_in(s2, k);
        assert(0 <= j < s2.len() && s2[j].pub_key == k);
        if j != i {
            assert(s[j].pub_key == k);
        }
    }
    assert forall|k: u64| (k == w.pub_key || has_wallet_in(s, k)) implies has_wallet_in(s2, k) by {
        if k == w.pub_key {
            assert(s2[i].pub_key == k);
        } else {
            let j = wallet_index_in(s, k);
            assert(0 <= j < s.len() && s[j].pub_key == k);
            assert(j != i);
            assert(s2[j].pub_key == k);
        }
    }
    assert forall|k: u64| #[trigger] has_wallet_in(s2, k) implies wallet_in(s2, k) == (
    if k == w.pub_key {
        w
    } else {
        wallet_in(s, k)
    }) by {
        if k == w.pub_key {
            lemma_wallet_at_index(s2, i);
        } else {
            let j = wallet_index_in(s2, k);
            assert(0 <= j < s2.len() && s2[j].pub_key == k);
            assert(j != i);
            assert(s2[j] == s[j]);
            lemma_wallet_at_index(s2, j);
            lemma_wallet_at_index(s, j);
        }
    }
    assert(keys_of(s2) =~= keys_of(s));
}

proof fn lemma_wallet_push(s: Seq<Wallet>, w: Wallet)
    requires
        wallets_unique(s),
        !has_wallet_in(s, w.pub_key),
    ensures
        wallets_unique(s.push(w)),
        forall|k: u64| has_wallet_in(s.push(w), k) <==> (k == w.pub_key || has_wallet_in(s, k)),
        forall|k: u64|
            #[trigger] has_wallet_in(s.push(w), k) ==> wallet_in(s.push(w), k) == (
            if k == w.pub_key {
                w
            } else {
                wallet_in(s, k)
            }),
        keys_of(s.push(w)) == keys_of(s).push(w.pub_key),
{
    let s2 = s.push(w);
    assert forall|a: int, b: int| 0 <= a < b < s2.len() implies s2[a].pub_key != s2[b].pub_key by {
        if b == s.len() {
            if s[a].pub_key == w.pub_key {
                assert(has_wallet_in(s, w.pub_key));
            }
        }
    }
    assert forall|k: u64| has_wallet_in(s2, k) implies (k == w.pub_key || has_wallet_in(s, k)) by {
        let j = wallet_index_in(s2, k);
        assert(0 <= j < s2.len() && s2[j].pub_key == k);
        if j < s.len() {
            assert(s[j].pub_key == k);
        }
    }
    assert forall|k: u64| (k == w.pub_key || has_wallet_in(s, k)) implies has_wallet_in(s2, k) by {
        if k == w.pub_key {
            assert(s2[s.len() as int].pub_key == k);
        } else {
            let j = wallet_index_in(s, k);
            assert(0 <= j < s.len() && s[j].pub_key == k);
            assert(s2[j].pub_key == k);
        }
    }
    assert forall|k: u64| #[trigger] has_wallet_in(s2, k) implies wallet_in(s2, k) == (
    if k == w.pub_key {
        w
    } else {
        wallet_in(s, k)
    }) by {
        if k == w.pub_key {
            lemma_wallet_at_index(s2, s.len() as int);
        } else {
            let j = wallet_index_in(s2, k);
            assert(0 <= j < s2.len() && s2[j].pub_key == k);
            assert(j != s.len());
            assert(s2[j] == s[j]);
            lemma_wallet_at_index(s2, j);
            lemma_wallet_at_index(s, j);
        }
    }
    assert(keys_of(s2) =~= keys_of(s).push(w.pub_key));
}

proof fn lemma_history_update(s: Seq<History>, i: int, h: History)
    requires
        histories_unique(s),
        0 <= i < s.len(),
        s[i].owner == h.owner,
    ensures
        histories_unique(s.update(i, h)),
        forall|k: u64| has_history_in(s.update(i, h), k) <==> (k == h.owner || has_history_in(s, k)),
        forall|k: u64|
            #[trigger] has_history_in(s.update(i, h), k) ==> history_in(s.update(i, h), k) == (
            if k == h.owner {
                h.entries@
            } else {
                history_in(s, k)
            }),
{
    let s2 = s.update(i, h);
    assert forall|a: int, b: int| 0 <= a < b < s2.len() implies s2[a].owner != s2[b].owner by {
        assert(s2[a].owner == s[a].owner);
        assert(s2[b].owner == s[b].owner);
    }
    assert forall|k: u64| has_history_in(s2, k) implies (k == h.owner || has_history_in(s, k)) by {
        let j = history_index_in(s2, k);
        assert(0 <= j < s2.len() && s2[j].owner == k);
        if j != i {
            assert(s[j].owner == k);
        }
    }
    assert forall|k: u64| (k == h.owner || has_history_in(s, k)) implies has_history_in(s2, k) by {
        if k == h.owner {
            assert(s2[i].owner == k);
        } else {
            let j = history_index_in(s, k);
            assert(0 <= j < s.len() && s[j].owner == k);
            assert(j != i);
            assert(s2[j].owner == k);
        }
    }
    assert forall|k: u64| #[trigger] has_history_in(s2, k) implies history_in(s2, k) == (
    if k == h.owner {
        h.entries@
    } else {
        history_in(s, k)
    }) by {
        if k == h.owner {
            lemma_history_at_index(s2, i);
        } else {
            let j = history_index_in(s2, k);
            assert(0 <= j < s2.len() && s2[j].owner == k);
            assert(j != i);
            assert(s2[j] == s[j]);
            lemma_history_at_index(s2, j);
            lemma_history_at_index(s, j);
        }
    }
}

proof fn lemma_history_push(s: Seq<History>, h: History)
    requires
        histories_unique(s),
        !has_history_in(s, h.owner),
    ensures
        histories_unique(s.push(h)),
        forall|k: u64| has_history_in(s.push(h), k) <==> (k == h.owner || has_history_in(s, k)),
        forall|k: u64|
            #[trigger] has_history_in(s.push(h), k) ==> history_in(s.push(h), k) == (
            if k == h.owner {
                h.entries@
            } else {
                history_in(s, k)
            }),
{
    let s2 = s.push(h);
    assert forall|a: int, b: int| 0 <= a < b < s2.len() implies s2[a].owner != s2[b].owner by {
        if b == s.len() {
            if s[a].owner == h.owner {
                assert(has_history_in(s, h.owner));
            }
        }
    }
    assert forall|k: u64| has_history_in(s2, k) implies (k == h.owner || has_history_in(s, k)) by {
        let j = history_index_in(s2, k);
        assert(0 <= j < s2.len() && s2[j].owner == k);
        if j < s.len() {
            assert(s[j].owner == k);
        }
    }
    assert forall|k: u64| (k == h.owner || has_history_in(s, k)) implies has_history_in(s2, k) by {
        if k == h.owner {
            assert(s2[s.len() as int].owner == k);
        } else {
            let j = history_index_in(s, k);
            assert(0 <= j < s.len() && s[j].owner == k);
            assert(s2[j].owner == k);
        }
    }
    assert forall|k: u64| #[trigger] has_history_in(s2, k) implies history_in(s2, k) == (
    if k == h.owner {
        h.entries@
    } else {
        history_in(s, k)
    }) by {
        if k == h.owner {
            lemma_history_at_index(s2, s.len() as int);
        } else {
            let j = history_index_in(s2, k);
            assert(0 <= j < s2.len() && s2[j].owner == k);
            assert(j != s.len());
            assert(s2[j] == s[j]);
            lemma_history_at_index(s2, j);
            lemma_history_at_index(s, j);
        }
    }
}

proof fn lemma_pending_update(s: Seq<PendingTransfer>, i: int, t: PendingTransfer)
    requires
        pendings_unique(s),
        0 <= i < s.len(),
        s[i].tx_hash == t.tx_hash,
    ensures
        pendings_unique(s.update(i, t)),
        forall|k: u64| has_pending_in(s.update(i, t), k) <==> (k == t.tx_hash || has_pending_in(s, k)),
        forall|k: u64|
            #[trigger] has_pending_in(s.update(i, t), k) ==> pending_in(s.update(i, t), k) == (
            if k == t.tx_hash {
                t
            } else {
                pending_in(s, k)
            }),
{
    let s2 = s.update(i, t);
    assert forall|a: int, b: int| 0 <= a < b < s2.len() implies s2[a].tx_hash != s2[b].tx_hash by {
        assert(s2[a].tx_hash == s[a].tx_hash);
        assert(s2[b].tx_hash == s[b].tx_hash);
    }
    assert forall|k: u64| has_pending_in(s2, k) implies (k == t.tx_hash || has_pending_in(s, k)) by {
        let j = pending_index_in(s2, k);
        assert(0 <= j < s2.len() && s2[j].tx_hash == k);
        if j != i {
            assert(s[j].tx_hash == k);
        }
    }
    assert forall|k: u64| (k == t.tx_hash || has_pending_in(s, k)) implies has_pending_in(s2, k) by {
        if k == t.tx_hash {
            assert(s2[i].tx_hash == k);
        } else {
            let j = pending_index_in(s, k);
            assert(0 <= j < s.len() && s[j].tx_hash == k);
            assert(j != i);
            assert(s2[j].tx_hash == k);
        }
    }
    assert forall|k: u64| #[trigger] has_pending_in(s2, k) implies pending_in(s2, k) == (
    if k == t.tx_hash {
        t
    } else {
        pending_in(s, k)
    }) by {
        if k == t.tx_hash {
            lemma_pending_at_index(s2, i);
        } else {
            let j = pending_index_in(s2, k);
            assert(0 <= j < s2.len() && s2[j].tx_hash == k);
            assert(j != i);
            assert(s2[j] == s[j]);
            lemma_pending_at_index(s2, j);
            lemma_pending_at_index(s, j);
        }
    }
}

proof fn lemma_pending_push(s: Seq<PendingTransfer>, t: PendingTransfer)
    requires
        pendings_unique(s),
        !has_pending_in(s, t.tx_hash),
    ensures
        pendings_unique(s.push(t)),
        forall|k: u64| has_pending_in(s.push(t), k) <==> (k == t.tx_hash || has_pending_in(s, k)),
        forall|k: u64|
            #[trigger] has_pending_in(s.push(t), k) ==> pending_in(s.push(t), k) == (
            if k == t.tx_hash {
                t
            } else {
                pending_in(s, k)
            }),
{
    let s2 = s.push(t);
    assert forall|a: int, b: int| 0 <= a < b < s2.len() implies s2[a].tx_hash != s2[b].tx_hash by {
        if b == s.len() {
            if s[a].tx_hash == t.tx_hash {
                assert(has_pending_in(s, t.tx_hash));
            }
        }
    }
    assert forall|k: u64| has_pending_in(s2, k) implies (k == t.tx_hash || has_pending_in(s, k)) by {
        let j = pending_index_in(s2, k);
        assert(0 <= j < s2.len() && s2[j].tx_hash == k);
        if j < s.len() {
            assert(s[j].tx_hash == k);
        }
    }
    assert forall|k: u64| (k == t.tx_hash || has_pending_in(s, k)) implies has_pending_in(s2, k) by {
        if k == t.tx_hash {
            assert(s2[s.len() as int].tx_hash == k);
        } else {
            let j = pending_index_in(s, k);
            assert(0 <= j < s.len() && s[j].tx_hash == k);
            assert(s2[j].tx_hash == k);
        }
    }
    assert forall|k: u64| #[trigger] has_pending_in(s2, k) implies pending_in(s2, k) == (
    if k == t.tx_hash {
        t
    } else {
        pending_in(s, k)
    }) by {
        if k == t.tx_hash {
            lemma_pending_at_index(s2, s.len() as int);
        } else {
            let j = pending_index_in(s2, k);
            assert(0 <= j < s2.len() && s2[j].tx_hash == k);
            assert(j != s.len());
            assert(s2[j] == s[j]);
            lemma_pending_at_index(s2, j);
            lemma_pending_at_index(s, j);
        }
    }
}

fn copy_words(v: &Vec<u64>) -> (r: Vec<u64>)
    ensures
        r@ == v@,
{
    let mut r: Vec<u64> = Vec::new();
    let mut i: usize = 0;
    while i < v.len()
        invariant
            i <= v@.len(),
            r@ == v@.subrange(0, i as int),
        decreases v@.len() - i,
    {
        r.push(v[i]);
        i = i + 1;
        proof {
            assert(r@ =~= v@.subrange(0, i as int));
        }
    }
    proof {
        assert(v@.subrange(0, v@.len() as int) =~= v@);
    }
    r
}

impl Schema {
    /// Creates a schema over empty stores.
    pub fn new() -> (s: Schema)
        ensures
            s.wf(),
            s@ == LedgerModel::empty(),
            s@.consistent(),
    {
        let s = Schema {
            wallet_store: Vec::new(),
            history_store: Vec::new(),
            pending_store: Vec::new(),
        };
        proof {
            assert(s@.wallets =~= LedgerModel::empty().wallets);
            assert(s@.order =~= LedgerModel::empty().order);
            assert(s@.histories =~= LedgerModel::empty().histories);
            assert(s@.pending =~= LedgerModel::empty().pending);
            assert(s@ =~= LedgerModel::empty());
            assert(s@.order.to_set() =~= s@.wallets.dom());
            assert(s@.histories.dom() =~= s@.wallets.dom());
        }
        s
    }

    fn find_wallet(&self, k: u64) -> (r: Option<usize>)
        ensures
            (match r {
                Some(i) => i < self.wallet_store@.len() && self.wallet_store@[i as int].pub_key
                    == k,
                None => !has_wallet_in(self.wallet_store@, k),
            }),
    {
        let n = self.wallet_store.len();
        let mut i: usize = 0;
        while i < n
            invariant
                n == self.wallet_store@.len(),
                i <= n,
                forall|j: int| 0 <= j < i ==> self.wallet_store@[j].pub_key != k,
            decreases n - i,
        {
            if self.wallet_store[i].pub_key == k {
                return Some(i);
            }
            i = i + 1;
        }
        None
    }

    fn find_history(&self, k: u64) -> (r: Option<usize>)
        ensures
            (match r {
                Some(i) => i < self.history_store@.len() && self.history_store@[i as int].owner
                    == k,
                None => !has_history_in(self.history_store@, k),
            }),
    {
        let n = self.history_store.len();
        let mut i: usize = 0;
        while i < n
            invariant
                n == self.history_store@.len(),
                i <= n,
                forall|j: int| 0 <= j < i ==> self.history_store@[j].owner != k,
            decreases n - i,
        {
            if self.history_store[i].owner == k {
                return Some(i);
            }
            i = i + 1;
        }
        None
    }

    fn find_pending(&self, h: u64) -> (r: Option<usize>)
        ensures
            (match r {
                Some(i) => i < self.pending_store@.len() && self.pending_store@[i as int].tx_hash
                    == h,
                None => !has_pending_in(self.pending_store@, h),
            }),
    {
        let n = self.pending_store.len();
        let mut i: usize = 0;
        while i < n
            invariant
                n == self.pending_store@.len(),
                i <= n,
                forall|j: int| 0 <= j < i ==> self.pending_store@[j].tx_hash != h,
            decreases n - i,
        {
            if self.pending_store[i].tx_hash == h {
                return Some(i);
            }
            i = i + 1;
        }
        None
    }

    fn put_wallet(&mut self, w: Wallet)
        requires
            old(self).wf(),
        ensures
            final(self).wf(),
            final(self)@.wallets == old(self)@.wallets.insert(w.pub_key, w),
            final(self)@.histories == old(self)@.histories,
            final(self)@.pending == old(self)@.pending,
            final(self)@.order == (if old(self)@.has_wallet(w.pub_key) {
                old(self)@.order
            } else {
                old(self)@.order.push(w.pub_key)
            }),
    {
        let found = self.find_wallet(w.pub_key);
        match found {
            Some(i) => {
                self.wallet_store[i] = w;
                proof {
                    let s = old(self).wallet_store@;
                    assert(s[i as int].pub_key == w.pub_key);
                    lemma_wallet_update(s, i as int, w);
                    assert(has_wallet_in(s, w.pub_key));
                    assert(self@.wallets =~= old(self)@.wallets.insert(w.pub_key, w));
                }
            },
            None => {
                self.wallet_store.push(w);
                proof {
                    let s = old(self).wallet_store@;
                    lemma_wallet_push(s, w);
                    assert(self@.wallets =~= old(self)@.wallets.insert(w.pub_key, w));
                }
            },
        }
    }

    fn push_history_entry(&mut self, k: u64, tx: u64) -> (r: (u64, u64))
        requires
            old(self).wf(),
            old(self)@.histories.dom().contains(k),
        ensures
            final(self).wf(),
            final(self)@.histories == old(self)@.histories.insert(k, old(self)@.histories[k].push(tx)),
            final(self)@.wallets == old(self)@.wallets,
            final(self)@.order == old(self)@.order,
            final(self)@.pending == old(self)@.pending,
            old(self)@.histories[k].len() + 1 <= u64::MAX,
            r.0 == old(self)@.histories[k].push(tx).len() as u64,
            r.1 == seq_digest(old(self)@.histories[k].push(tx)),
    {
        let i = match self.find_history(k) {
            Some(i) => i,
            None => {
                proof {
                    assert(has_history_in(self.history_store@, k));
                    assert(false);
                }
                0
            },
        };
        self.history_store[i].entries.push(tx);
        let new_len: u64 = self.history_store[i].entries.len() as u64;
        let new_hash: u64 = compute_digest(&self.history_store[i].entries);
        proof {
            let s = old(self).history_store@;
            let h2 = self.history_store@[i as int];
            lemma_history_at_index(s, i as int);
            assert(h2.owner == k);
            assert(h2.entries@ == s[i as int].entries@.push(tx));
            assert(self.history_store@ =~= s.update(i as int, h2));
            lemma_history_update(s, i as int, h2);
            assert(old(self)@.histories[k] == s[i as int].entries@);
            assert(self@.histories =~= old(self)@.histories.insert(
                k,
                old(self)@.histories[k].push(tx),
            ));
        }
        (new_len, new_hash)
    }

    fn create_history(&mut self, k: u64, tx: u64) -> (r: (u64, u64))
        requires
            old(self).wf(),
            !old(self)@.histories.dom().contains(k),
        ensures
            final(self).wf(),
            final(self)@.histories == old(self)@.histories.insert(k, seq![tx]),
            final(self)@.wallets == old(self)@.wallets,
            final(self)@.order == old(self)@.order,
            final(self)@.pending == old(self)@.pending,
            r.0 == 1,
            r.1 == seq_digest(seq![tx]),
    {
        let mut entries: Vec<u64> = Vec::new();
        entries.push(tx);
        let hash = compute_digest(&entries);
        proof {
            assert(entries@ =~= seq![tx]);
        }
        let record = History { owner: k, entries };
        self.history_store.push(record);
        proof {
            let s = old(self).history_store@;
            let h2 = self.history_store@[s.len() as int];
            assert(h2.owner == k && h2.entries@ =~= seq![tx]);
            lemma_history_push(s, h2);
            assert(self@.histories =~= old(self)@.histories.insert(k, seq![tx]));
        }
        (1, hash)
    }

    fn put_pending_record(&mut self, t: PendingTransfer)
        requires
            old(self).wf(),
        ensures
            final(self).wf(),
            final(self)@.pending == old(self)@.pending.insert(t.tx_hash, t),
            final(self)@.wallets == old(self)@.wallets,
            final(self)@.order == old(self)@.order,
            final(self)@.histories == old(self)@.histories,
    {
        let found = self.find_pending(t.tx_hash);
        match found {
            Some(i) => {
                self.pending_store[i] = t;
                proof {
                    let s = old(self).pending_store@;
                    assert(s[i as int].tx_hash == t.tx_hash);
                    lemma_pending_update(s, i as int, t);
                    assert(self@.pending =~= old(self)@.pending.insert(t.tx_hash, t));
                }
            },
            None => {
                self.pending_store.push(t);
                proof {
                    let s = old(self).pending_store@;
                    lemma_pending_push(s, t);
                    assert(self@.pending =~= old(self)@.pending.insert(t.tx_hash, t));
                }
            },
        }
    }

    /// Returns the wallet stored for the given public identifier.
    pub fn wallet(&self, pub_key: u64) -> (r: Option<Wallet>)
        requires
            self.wf(),
        ensures
            r == self@.wallet_of(pub_key),
    {
        let found = self.find_wallet(pub_key);
        match found {
            Some(i) => {
                proof {
                    lemma_wallet_at_index(self.wallet_store@, i as int);
                }
                Some(self.wallet_store[i].clone())
            },
            None => None,
        }
    }

    /// Returns the history log of the given account: the identifiers of the
    /// transactions that touched it, oldest first. Empty if the account does
    /// not exist.
    pub fn wallet_history(&self, pub_key: u64) -> (r: Vec<u64>)
        requires
            self.wf(),
        ensures
            r@ == self@.history_of(pub_key),
    {
        let found = self.find_history(pub_key);
        match found {
            Some(i) => {
                proof {
                    lemma_history_at_index(self.history_store@, i as int);
                }
                copy_words(&self.history_store[i].entries)
            },
            None => Vec::new(),
        }
    }

    /// Returns the pending transfer recorded under the given transfer
    /// transaction identifier.
    pub fn pending_transfer(&self, hash: u64) -> (r: Option<PendingTransfer>)
        requires
            self.wf(),
        ensures
            r == self@.pending_of(hash),
    {
        let found = self.find_pending(hash);
        match found {
            Some(i) => {
                proof {
                    lemma_pending_at_index(self.pending_store@, i as int);
                }
                Some(self.pending_store[i])
            },
            None => None,
        }
    }

    /// Returns the account records, in canonical (creation) order.
    pub fn wallets(&self) -> (r: Vec<Wallet>)
        requires
            self.wf(),
        ensures
            r@.len() == self@.order.len(),
            forall|i: int| 0 <= i < r@.len() ==> r@[i] == self@.wallets[self@.order[i]],
    {
        let n = self.wallet_store.len();
        let mut r: Vec<Wallet> = Vec::new();
        let mut i: usize = 0;
        while i < n
            invariant
                self.wf(),
                n == self.wallet_store@.len(),
                i <= n,
                r@.len() == i,
                forall|j: int| 0 <= j < i ==> r@[j] == self@.wallets[self@.order[j]],
            decreases n - i,
        {
            proof {
                lemma_wallet_at_index(self.wallet_store@, i as int);
            }
            let w = self.wallet_store[i].clone();
            r.push(w);
            i = i + 1;
        }
        r
    }

    /// Returns the pending-transfer records: each stored under its own
    /// transaction identifier, every identifier exactly once.
    pub fn pending_transfers(&self) -> (r: Vec<PendingTransfer>)
        requires
            self.wf(),
        ensures
            forall|i: int|
                0 <= i < r@.len() ==> self@.pending.dom().contains((#[trigger] r@[i]).tx_hash)
                    && r@[i] == self@.pending[r@[i].tx_hash],
            forall|h: u64|
                self@.pending.dom().contains(h) ==> exists|i: int|
                    0 <= i < r@.len() && (#[trigger] r@[i]).tx_hash == h,
            forall|i: int, j: int| 0 <= i < j < r@.len() ==> r@[i].tx_hash != r@[j].tx_hash,
    {
        let n = self.pending_store.len();
        let mut r: Vec<PendingTransfer> = Vec::new();
        let mut i: usize = 0;
        while i < n
            invariant
                self.wf(),
                n == self.pending_store@.len(),
                i <= n,
                r@ == self.pending_store@.subrange(0, i as int),
            decreases n - i,
        {
            r.push(self.pending_store[i]);
            i = i + 1;
            proof {
                assert(r@ =~= self.pending_store@.subrange(0, i as int));
            }
        }
        proof {
            assert(r@ =~= self.pending_store@);
            assert forall|idx: int|
                0 <= idx < r@.len() implies self@.pending.dom().contains(
                (#[trigger] r@[idx]).tx_hash,
            ) && r@[idx] == self@.pending[r@[idx].tx_hash] by {
                lemma_pending_at_index(self.pending_store@, idx);
            }
            assert forall|h: u64| self@.pending.dom().contains(h) implies exists|idx: int|
                0 <= idx < r@.len() && (#[trigger] r@[idx]).tx_hash == h by {
                let idx = pending_index_in(self.pending_store@, h);
                assert(0 <= idx < r@.len() && r@[idx].tx_hash == h);
            }
        }
        r
    }

    /// Returns the published commitment of the ledger: one digest, a function
    /// of the account store alone in canonical order.
    pub fn state_hash(&self) -> (r: Vec<u64>)
        requires
            self.wf(),
        ensures
            r@.len() == 1,
            r@[0] == self@.state_digest(),
    {
        let n = self.wallet_store.len();
        let mut h: u64 = DIGEST_SEED;
        let mut i: usize = 0;
        while i < n
            invariant
                self.wf(),
                n == self.wallet_store@.len(),
                i <= n,
                h == self@.state_digest_to(i as int),
            decreases n - i,
        {
            let wd = compute_wallet_digest(&self.wallet_store[i]);
            proof {
                lemma_wallet_at_index(self.wallet_store@, i as int);
                assert(self@.order[i as int] == self.wallet_store@[i as int].pub_key);
                assert(self@.wallets[self@.order[i as int]] == self.wallet_store@[i as int]);
                assert(self@.state_digest_to(i as int + 1) == digest_step(
                    self@.state_digest_to(i as int),
                    wallet_digest(self@.wallets[self@.order[i as int]]),
                ));
            }
            h = digest_push(h, wd);
            i = i + 1;
        }
        proof {
            assert(self@.order.len() == n);
        }
        let mut r: Vec<u64> = Vec::new();
        r.push(h);
        r
    }

    /// Increase the balance of the wallet and append the transaction to its
    /// history. The account must exist: callers check existence first.
    pub fn increase_wallet_balance(&mut self, wallet: Wallet, amount: u64, transaction: u64)
        requires
            old(self).wf(),
            old(self)@.consistent(),
            old(self)@.has_wallet(wallet.pub_key),
            wallet.balance + amount <= i64::MAX,
        ensures
            final(self).wf(),
            final(self)@.consistent(),
            final(self)@ == old(self)@.record_step(
                wallet,
                (wallet.balance + amount) as i64,
                wallet.frozen_amount,
                transaction,
            ),
    {
        let ghost wallet0 = wallet;
        proof {
            assert(old(self)@.histories.dom() == old(self)@.wallets.dom());
        }
        let summary: (u64, u64) = self.push_history_entry(wallet.pub_key, transaction);
        let new_balance: i64 = ((wallet.balance as i128) + (amount as i128)) as i64;
        let updated = wallet.set_balance(new_balance, summary.0, summary.1);
        self.put_wallet(updated);
        proof {
            assert(old(self)@.history_of(wallet0.pub_key) == old(self)@.histories[wallet0.pub_key]);
            assert(self@ =~= old(self)@.record_step(
                wallet0,
                (wallet0.balance + amount) as i64,
                wallet0.frozen_amount,
                transaction,
            ));
            crate::model::lemma_record_step_consistent(
                old(self)@,
                wallet0,
                (wallet0.balance + amount) as i64,
                wallet0.frozen_amount,
                transaction,
            );
        }
    }

    /// Move part of the wallet's spendable balance into its frozen amount
    /// (the escrow-reservation step) and append the transaction to its
    /// history. The account must exist: callers check existence first.
    pub fn decrease_wallet_balance(&mut self, wallet: Wallet, amount: u64, transaction: u64)
        requires
            old(self).wf(),
            old(self)@.consistent(),
            old(self)@.has_wallet(wallet.pub_key),
            wallet.balance - amount >= i64::MIN,
            wallet.frozen_amount + amount <= u64::MAX,
        ensures
            final(self).wf(),
            final(self)@.consistent(),
            final(self)@ == old(self)@.record_step(
                wallet,
                (wallet.balance - amount) as i64,
                (wallet.frozen_amount + amount) as u64,
                transaction,
            ),
    {
        let ghost wallet0 = wallet;
        proof {
            assert(old(self)@.histories.dom() == old(self)@.wallets.dom());
        }
        let summary: (u64, u64) = self.push_history_entry(wallet.pub_key, transaction);
        let new_balance: i64 = ((wallet.balance as i128) - (amount as i128)) as i64;
        let new_frozen: u64 = wallet.frozen_amount + amount;
        let updated = wallet.set_balance(new_balance, summary.0, summary.1).set_frozen_amount(
            new_frozen,
            summary.0,
            summary.1,
        );
        self.put_wallet(updated);
        proof {
            assert(old(self)@.history_of(wallet0.pub_key) == old(self)@.histories[wallet0.pub_key]);
            assert(self@ =~= old(self)@.record_step(
                wallet0,
                (wallet0.balance - amount) as i64,
                (wallet0.frozen_amount + amount) as u64,
                transaction,
            ));
            crate::model::lemma_record_step_consistent(
                old(self)@,
                wallet0,
                (wallet0.balance - amount) as i64,
                (wallet0.frozen_amount + amount) as u64,
                transaction,
            );
        }
    }

    /// Release part of the wallet's frozen amount without crediting anyone
    /// (the caller credits the receiver separately) and append the transaction
    /// to its history. The account must exist: callers check existence first.
    pub fn decrease_wallet_frozen_balance(&mut self, wallet: Wallet, amount: u64, transaction: u64)
        requires
            old(self).wf(),
            old(self)@.consistent(),
            old(self)@.has_wallet(wallet.pub_key),
            amount <= wallet.frozen_amount,
        ensures
            final(self).wf(),
            final(self)@.consistent(),
            final(self)@ == old(self)@.record_step(
                wallet,
                wallet.balance,
                (wallet.frozen_amount - amount) as u64,
                transaction,
            ),
    {
        let ghost wallet0 = wallet;
        proof {
            assert(old(self)@.histories.dom() == old(self)@.wallets.dom());
        }
        let summary: (u64, u64) = self.push_history_entry(wallet.pub_key, transaction);
        let new_frozen: u64 = wallet.frozen_amount - amount;
        let updated = wallet.set_frozen_amount(new_frozen, summary.0, summary.1);
        self.put_wallet(updated);
        proof {
            assert(old(self)@.history_of(wallet0.pub_key) == old(self)@.histories[wallet0.pub_key]);
            assert(self@ =~= old(self)@.record_step(
                wallet0,
                wallet0.balance,
                (wallet0.frozen_amount - amount) as u64,
                transaction,
            ));
            crate::model::lemma_record_step_consistent(
                old(self)@,
                wallet0,
                wallet0.balance,
                (wallet0.frozen_amount - amount) as u64,
                transaction,
            );
        }
    }

    /// Create a new wallet with the initial balance and a history log holding
    /// the creating transaction. The identity must be fresh: callers check
    /// non-existence first.
    pub fn create_wallet(&mut self, key: u64, name: String, transaction: u64)
        requires
            old(self).wf(),
            old(self)@.consistent(),
            !old(self)@.has_wallet(key),
        ensures
            final(self).wf(),
            final(self)@.consistent(),
            final(self)@ == old(self)@.create_step(key, name, INITIAL_BALANCE, transaction),
    {
        proof {
            assert(old(self)@.histories.dom() == old(self)@.wallets.dom());
        }
        let summary: (u64, u64) = self.create_history(key, transaction);
        let w = Wallet::new(key, name, INITIAL_BALANCE, summary.0, summary.1, 0);
        self.put_wallet(w);
        proof {
            assert(self@ =~= old(self)@.create_step(key, name, INITIAL_BALANCE, transaction));
            crate::model::lemma_create_step_consistent(
                old(self)@,
                key,
                name,
                INITIAL_BALANCE,
                transaction,
            );
        }
    }

    /// Record a new pending transfer under the identifier of its transfer
    /// transaction, not yet fulfilled.
    pub fn create_pending_transfer(
        &mut self,
        tx_hash: u64,
        from: u64,
        to: u64,
        approver: u64,
        amount: u64,
    )
        requires
            old(self).wf(),
            old(self)@.consistent(),
        ensures
            final(self).wf(),
            final(self)@.consistent(),
            final(self)@ == old(self)@.put_pending(
                (PendingTransfer { tx_hash, from, to, approver, amount, fulfilled: false }),
            ),
    {
        let t = PendingTransfer::new(tx_hash, from, to, approver, amount, false);
        self.put_pending_record(t);
        proof {
            assert(self@ =~= old(self)@.put_pending(t));
            crate::model::lemma_put_pending_consistent(old(self)@, t);
        }
    }

    /// Store a copy of the given pending transfer with the fulfilled flag set.
    pub fn fulfill_pending_transfer(&mut self, transfer: PendingTransfer)
        requires
            old(self).wf(),
            old(self)@.consistent(),
        ensures
            final(self).wf(),
            final(self)@.consistent(),
            final(self)@ == old(self)@.put_pending((PendingTransfer { fulfilled: true, ..transfer })),
    {
        let fulfilled = transfer.set_fulfilled();
        self.put_pending_record(fulfilled);
        proof {
            assert(self@ =~= old(self)@.put_pending(fulfilled));
            crate::model::lemma_put_pending_consistent(old(self)@, fulfilled);
        }
    }
}

} // verus!
