//! The memory pool: pending transactions keyed by their hash, the
//! recently-seen cache that drops replays, the gossip batch, and the
//! sifting of pending transactions into a block.

use vstd::multiset::Multiset;
use vstd::prelude::*;

use crate::chainstate::{Chainstate, ChainstateV};
use crate::transaction::{Transaction, TxV};

verus! {

/// How many recently seen transaction hashes are remembered.
pub const SEEN_CACHE: usize = 1000;

/// The most transactions a block takes from the pool.
pub const MAX_BLOCK_TX: usize = 700;

/// The mathematical shadow of a `Mempool`.
pub struct MempoolV {
    pub pending: Seq<TxV>,
    pub cached: Seq<Seq<char>>,
    pub chunked: Seq<TxV>,
}

/// No two pending transactions carry the same hash.
pub open spec fn unique_hashes(s: Seq<TxV>) -> bool {
    forall|i: int, j: int| 0 <= i < j < s.len() ==> s[i].hash() != s[j].hash()
}

/// Some pending transaction carries this hash.
pub open spec fn has_hash(s: Seq<TxV>, h: Seq<char>) -> bool {
    exists|i: int| 0 <= i < s.len() && #[trigger] s[i].hash() == h
}

/// The pending set after a transaction enters: the first entry with its
/// hash is replaced, or it joins at the end.
pub open spec fn upsert_pending(s: Seq<TxV>, tx: TxV) -> Seq<TxV>
    decreases s.len(),
{
    if s.len() == 0 {
        seq![tx]
    } else if s.first().hash() == tx.hash() {
        seq![tx] + s.drop_first()
    } else {
        seq![s.first()] + upsert_pending(s.drop_first(), tx)
    }
}

/// When no entry carries the hash, entering appends.
proof fn lemma_upsert_absent(s: Seq<TxV>, tx: TxV)
    requires
        forall|j: int| 0 <= j < s.len() ==> s[j].hash() != tx.hash(),
    ensures
        upsert_pending(s, tx) =~= s.push(tx),
    decreases s.len(),
{
    if s.len() > 0 {
        lemma_upsert_absent(s.drop_first(), tx);
        assert(upsert_pending(s, tx) =~= seq![s.first()] + s.drop_first().push(tx));
    }
}

/// When the first entry with the hash stands at `i`, entering replaces
/// exactly that entry.
proof fn lemma_upsert_found(s: Seq<TxV>, tx: TxV, i: int)
    requires
        0 <= i < s.len(),
        s[i].hash() == tx.hash(),
        forall|j: int| 0 <= j < i ==> s[j].hash() != tx.hash(),
    ensures
        upsert_pending(s, tx) =~= s.update(i, tx),
    decreases s.len(),
{
    if i == 0 {
        assert(upsert_pending(s, tx) =~= seq![tx] + s.drop_first());
    } else {
        assert(s.drop_first()[i - 1].hash() == tx.hash());
        lemma_upsert_found(s.drop_first(), tx, i - 1);
        assert(s.drop_first().update(i - 1, tx) =~= s.update(i, tx).drop_first());
        assert(upsert_pending(s, tx) =~= seq![s.first()] + s.update(i, tx).drop_first());
    }
}

/// The seen cache after one more hash: oldest evicted at the bound.
pub open spec fn push_seen(cache: Seq<Seq<char>>, h: Seq<char>) -> Seq<Seq<char>> {
    if cache.len() + 1 > SEEN_CACHE {
        cache.push(h).drop_first()
    } else {
        cache.push(h)
    }
}

/// Pending + recently-seen transaction sets and the gossip batch.
pub struct Mempool {
    pending_transactions: Vec<Transaction>,
    cached_transactions: Vec<String>,
    chunked_transactions: Vec<Transaction>,
}

impl View for Mempool {
    type V = MempoolV;

    closed spec fn view(&self) -> MempoolV {
        MempoolV {
            pending: self.pending_transactions.deep_view(),
            cached: self.cached_transactions.deep_view(),
            chunked: self.chunked_transactions.deep_view(),
        }
    }
}

impl Mempool {
    /// Pending hashes stay unique and the seen cache stays within its
    /// bound.
    pub open spec fn wf(self) -> bool {
        unique_hashes(self@.pending) && self@.cached.len() <= SEEN_CACHE
    }

    /// An empty pool.
    pub fn new() -> (r: Self)
        ensures
            r.wf(),
            r@.pending == Seq::<TxV>::empty(),
            r@.cached == Seq::<Seq<char>>::empty(),
            r@.chunked == Seq::<TxV>::empty(),
    {
        let r = Mempool {
            pending_transactions: Vec::new(),
            cached_transactions: Vec::new(),
            chunked_transactions: Vec::new(),
        };
        proof {
            assert(r@.pending =~= Seq::<TxV>::empty());
            assert(r@.cached =~= Seq::<Seq<char>>::empty());
            assert(r@.chunked =~= Seq::<TxV>::empty());
        }
        r
    }

    /// Whether the transaction's hash was seen recently.
    pub fn is_transaction_cached(&self, transaction: &Transaction) -> (r: bool)
        ensures
            r == self@.cached.contains(transaction@.hash()),
    {
        let hash = transaction.get_hash();
        let n = self.cached_transactions.len();
        let mut i: usize = 0;
        while i < n
            invariant
                n == self.cached_transactions.len(),
                i <= n,
                hash@ == transaction@.hash(),
                forall|j: int| 0 <= j < i ==> self.cached_transactions.deep_view()[j] != hash@,
            decreases n - i,
        {
            if self.cached_transactions[i] == hash {
                proof {
                    assert(self@.cached[i as int] == hash@);
                }
                return true;
            }
            i = i + 1;
        }
        false
    }

    /// Puts the transaction into the pool: the pending entry under its
    /// hash is created or replaced, and the hash enters the seen cache,
    /// evicting the oldest over the bound.
    pub fn add_transaction(&mut self, transaction: &Transaction)
        requires
            old(self).wf(),
        ensures
            final(self).wf(),
            final(self)@.pending == upsert_pending(old(self)@.pending, transaction@),
            has_hash(final(self)@.pending, transaction@.hash()),
            final(self)@.cached == push_seen(old(self)@.cached, transaction@.hash()),
            final(self)@.chunked == old(self)@.chunked,
    {
        let hash = transaction.get_hash();
        let n = self.pending_transactions.len();
        let ghost p0 = self@.pending;
        let mut i: usize = 0;
        let mut replaced = false;
        while i < n && !replaced
            invariant
                old(self).wf(),
                n == self.pending_transactions.len(),
                i <= n,
                hash@ == transaction@.hash(),
                self.cached_transactions == old(self).cached_transactions,
                self.chunked_transactions == old(self).chunked_transactions,
                p0 == old(self)@.pending,
                !replaced ==> self.pending_transactions == old(self).pending_transactions,
                !replaced ==> forall|j: int| 0 <= j < i ==> p0[j].hash() != hash@,
                replaced ==> unique_hashes(self@.pending) && has_hash(self@.pending, hash@)
                    && self@.pending == upsert_pending(p0, transaction@),
            decreases n - i,
        {
            let same = self.pending_transactions[i].get_hash() == hash;
            if same {
                let ghost before = self@.pending;
                self.pending_transactions[i] = transaction.clone();
                proof {
                    assert(self@.pending =~= before.update(i as int, transaction@));
                    assert(self@.pending[i as int].hash() == hash@);
                    assert(p0[i as int].hash() == hash@);
                    assert forall|a: int, b: int|
                        0 <= a < b < self@.pending.len() implies self@.pending[a].hash()
                        != self@.pending[b].hash() by {
                        assert(p0[a].hash() != p0[b].hash());
                        if a != i {
                            assert(self@.pending[a] == p0[a]);
                        }
                        if b != i {
                            assert(self@.pending[b] == p0[b]);
                        }
                    }
                    assert(unique_hashes(self@.pending));
                    lemma_upsert_found(p0, transaction@, i as int);
                }
                replaced = true;
            }
            i = i + 1;
        }
        if !replaced {
            let ghost before = self@.pending;
            self.pending_transactions.push(transaction.clone());
            proof {
                assert(self@.pending =~= before.push(transaction@));
                assert(self@.pending[before.len() as int].hash() == hash@);
                assert(unique_hashes(self@.pending));
                assert(!has_hash(p0, hash@));
                lemma_upsert_absent(p0, transaction@);
            }
        }
        let ghost c0 = self@.cached;
        self.cached_transactions.push(hash);
        proof {
            assert(self@.cached =~= c0.push(transaction@.hash()));
        }
        if self.cached_transactions.len() > SEEN_CACHE {
            let ghost c1 = self@.cached;
            self.cached_transactions.remove(0);
            proof {
                assert(self@.cached =~= c1.drop_first());
            }
        }
    }

    /// Drops the pending entry with this hash, if any; the pool keeps
    /// exactly the pending transactions with other hashes.
    pub fn remove_transaction(&mut self, transaction_hash: &String)
        requires
            old(self).wf(),
        ensures
            final(self).wf(),
            final(self)@.pending == old(self)@.pending.filter(
                |t: TxV| t.hash() != transaction_hash@,
            ),
            final(self)@.cached == old(self)@.cached,
            final(self)@.chunked == old(self)@.chunked,
    {
        let n = self.pending_transactions.len();
        let ghost p0 = self@.pending;
        let mut i: usize = 0;
        while i < n
            invariant
                old(self).wf(),
                n == self.pending_transactions.len(),
                i <= n,
                self == old(self),
                p0 == old(self)@.pending,
                forall|j: int| 0 <= j < i ==> p0[j].hash() != transaction_hash@,
            decreases n - i,
        {
            if self.pending_transactions[i].get_hash() == *transaction_hash {
                self.pending_transactions.remove(i);
                proof {
                    assert(self@.pending =~= p0.remove(i as int));
                    lemma_remove_hash_is_filter(p0, i as int, transaction_hash@);
                    assert(unique_hashes(self@.pending));
                }
                return ;
            }
            i = i + 1;
        }
        proof {
            lemma_filter_absent(p0, transaction_hash@);
        }
    }

    /// How many transactions wait in the pool.
    pub fn pending_len(&self) -> (r: usize)
        ensures
            r == self@.pending.len(),
    {
        self.pending_transactions.len()
    }

    /// The pending transactions, in pool order.
    pub fn pending_values(&self) -> (r: Vec<Transaction>)
        ensures
            r.deep_view() == self@.pending,
    {
        let mut r: Vec<Transaction> = Vec::new();
        let n = self.pending_transactions.len();
        for i in 0..n
            invariant
                n == self.pending_transactions.len(),
                r.deep_view() =~= self@.pending.take(i as int),
        {
            let tx = self.pending_transactions[i].clone();
            let ghost dv = r.deep_view();
            r.push(tx);
            proof {
                assert(r.deep_view() =~= dv.push(tx@));
                assert(dv.push(tx@) =~= self@.pending.take(i + 1));
            }
        }
        proof {
            assert(self@.pending.take(n as int) =~= self@.pending);
        }
        r
    }

    /// Saves the transaction for the next gossip chunk.
    pub fn push_chunk(&mut self, transaction: &Transaction)
        requires
            old(self).wf(),
        ensures
            final(self).wf(),
            final(self)@.chunked == old(self)@.chunked.push(transaction@),
            final(self)@.pending == old(self)@.pending,
            final(self)@.cached == old(self)@.cached,
    {
        let ghost c0 = self@.chunked;
        self.chunked_transactions.push(transaction.clone());
        proof {
            assert(self@.chunked =~= c0.push(transaction@));
        }
    }

    /// How many transactions wait for the next gossip chunk.
    pub fn chunk_len(&self) -> (r: usize)
        ensures
            r == self@.chunked.len(),
    {
        self.chunked_transactions.len()
    }

    /// Hands out the gossip chunk and clears it.
    pub fn take_chunk(&mut self) -> (r: Vec<Transaction>)
        requires
            old(self).wf(),
        ensures
            final(self).wf(),
            r.deep_view() == old(self)@.chunked,
            final(self)@.chunked == Seq::<TxV>::empty(),
            final(self)@.pending == old(self)@.pending,
            final(self)@.cached == old(self)@.cached,
    {
        let mut chunk: Vec<Transaction> = Vec::new();
        std::mem::swap(&mut chunk, &mut self.chunked_transactions);
        proof {
            assert(self@.chunked =~= Seq::<TxV>::empty());
        }
        chunk
    }
}

impl Mempool {
    /// Drops every pending transaction whose hash occurs in the given
    /// run; the pool keeps exactly the others.
    pub fn remove_transactions_in(&mut self, txs: &Vec<Transaction>)
        requires
            old(self).wf(),
        ensures
            final(self).wf(),
            final(self)@.pending == old(self)@.pending.filter(
                |t: TxV| !has_hash(txs.deep_view(), t.hash()),
            ),
            final(self)@.cached == old(self)@.cached,
            final(self)@.chunked == old(self)@.chunked,
    {
        let ghost p0 = self@.pending;
        let ghost keep = |t: TxV| !has_hash(txs.deep_view(), t.hash());
        let mut kept: Vec<Transaction> = Vec::new();
        let n = self.pending_transactions.len();
        let mut i: usize = 0;
        while i < n
            invariant
                old(self).wf(),
                self == old(self),
                p0 == old(self)@.pending,
                keep == (|t: TxV| !has_hash(txs.deep_view(), t.hash())),
                n == self.pending_transactions.len(),
                i <= n,
                kept.deep_view() =~= p0.take(i as int).filter(keep),
                forall|a: int|
                    0 <= a < kept.deep_view().len() ==> exists|j: int|
                        0 <= j < i && #[trigger] kept.deep_view()[a] == p0[j],
                unique_hashes(kept.deep_view()),
            decreases n - i,
        {
            let tx = &self.pending_transactions[i];
            proof {
                assert(tx@ == p0[i as int]);
            }
            let hash = tx.get_hash();
            let m = txs.len();
            let mut j: usize = 0;
            let mut found = false;
            while j < m && !found
                invariant
                    m == txs@.len(),
                    j <= m,
                    hash@ == tx@.hash(),
                    !found ==> forall|q: int|
                        0 <= q < j ==> (#[trigger] txs.deep_view()[q]).hash() != hash@,
                    found ==> has_hash(txs.deep_view(), hash@),
                decreases m - j,
            {
                if txs[j].get_hash() == hash {
                    proof {
                        assert(txs.deep_view()[j as int].hash() == hash@);
                    }
                    found = true;
                }
                j = j + 1;
            }
            proof {
                reveal(Seq::filter);
                assert(p0.take(i + 1).drop_last() =~= p0.take(i as int));
                assert(p0.take(i + 1).last() == p0[i as int]);
            }
            if !found {
                let ghost dv = kept.deep_view();
                let copy = tx.clone();
                kept.push(copy);
                proof {
                    assert(keep(p0[i as int]));
                    assert(kept.deep_view() =~= dv.push(p0[i as int]));
                    assert(kept.deep_view()[dv.len() as int] == p0[i as int]);
                    assert forall|a: int|
                        0 <= a < kept.deep_view().len() implies exists|j: int|
                        0 <= j < i + 1 && #[trigger] kept.deep_view()[a] == p0[j] by {
                        if a < dv.len() {
                            let j = choose|j: int| 0 <= j < i && dv[a] == p0[j];
                            assert(kept.deep_view()[a] == p0[j]);
                        } else {
                            assert(kept.deep_view()[a] == p0[i as int]);
                        }
                    }
                    assert forall|a: int, b: int|
                        0 <= a < b < kept.deep_view().len() implies kept.deep_view()[a].hash()
                        != kept.deep_view()[b].hash() by {
                        if b < dv.len() {
                        } else {
                            let j = choose|j: int| 0 <= j < i && kept.deep_view()[a] == p0[j];
                            assert(p0[j].hash() != p0[i as int].hash());
                        }
                    }
                }
            } else {
                proof {
                    assert(!keep(p0[i as int]));
                }
            }
            i = i + 1;
        }
        proof {
            assert(p0.take(n as int) =~= p0);
        }
        self.pending_transactions = kept;
    }
}

/// Removing the only entry with a hash keeps exactly the others.
proof fn lemma_remove_hash_is_filter(s: Seq<TxV>, i: int, h: Seq<char>)
    requires
        unique_hashes(s),
        0 <= i < s.len(),
        s[i].hash() == h,
    ensures
        s.remove(i) =~= s.filter(|t: TxV| t.hash() != h),
        unique_hashes(s.remove(i)),
    decreases s.len(),
{
    reveal(Seq::filter);
    s.remove_ensures(i);
    assert forall|a: int, b: int| 0 <= a < b < s.remove(i).len() implies s.remove(i)[a].hash() != s.remove(
        i,
    )[b].hash() by {
        let a0: int = if a < i {
            a
        } else {
            a + 1
        };
        let b0: int = if b < i {
            b
        } else {
            b + 1
        };
        assert(s.remove(i)[a] == s[a0]);
        assert(s.remove(i)[b] == s[b0]);
    }
    if s.len() > 0 {
        let pred = |t: TxV| t.hash() != h;
        if i == s.len() - 1 {
            assert(s.remove(i) =~= s.drop_last());
            lemma_filter_absent(s.drop_last(), h);
            assert(s.drop_last().filter(pred) =~= s.drop_last());
        } else {
            assert(s.drop_last()[i] == s[i]);
            lemma_remove_hash_is_filter(s.drop_last(), i, h);
            assert(s.remove(i) =~= s.drop_last().remove(i).push(s.last()));
            assert(s.filter(pred) == s.drop_last().filter(pred).push(s.last()));
        }
    }
}

/// Filtering for a hash nobody carries changes nothing.
proof fn lemma_filter_absent(s: Seq<TxV>, h: Seq<char>)
    requires
        forall|j: int| 0 <= j < s.len() ==> s[j].hash() != h,
    ensures
        s.filter(|t: TxV| t.hash() != h) =~= s,
    decreases s.len(),
{
    reveal(Seq::filter);
    if s.len() > 0 {
        lemma_filter_absent(s.drop_last(), h);
    }
}

/// The outcome of sifting pending transactions through a chainstate
/// snapshot.
pub struct Sifted {
    pub ok: Seq<TxV>,
    pub bad: Seq<TxV>,
    pub state: ChainstateV,
}

/// Sifting, one transaction at a time in order: once a block's worth
/// (the cap) is taken the rest are left untouched; otherwise a
/// transaction whose funds and nonce hold at that moment is applied and
/// taken, and any other is set aside. The taken run never exceeds the
/// cap.
pub open spec fn sift(m: ChainstateV, txs: Seq<TxV>) -> Sifted
    decreases txs.len(),
{
    if txs.len() == 0 {
        Sifted { ok: Seq::empty(), bad: Seq::empty(), state: m }
    } else {
        let so_far = sift(m, txs.drop_last());
        let tx = txs.last();
        if so_far.ok.len() >= MAX_BLOCK_TX {
            so_far
        } else if so_far.state.ammount_ok(tx) && so_far.state.history_ok(tx) {
            Sifted {
                ok: so_far.ok.push(tx),
                bad: so_far.bad,
                state: so_far.state.apply_tx(tx),
            }
        } else {
            Sifted { ok: so_far.ok, bad: so_far.bad.push(tx), state: so_far.state }
        }
    }
}

/// A block never takes more than the cap from the pool.
pub proof fn lemma_sift_cap(m: ChainstateV, txs: Seq<TxV>)
    ensures
        sift(m, txs).ok.len() <= MAX_BLOCK_TX,
    decreases txs.len(),
{
    if txs.len() > 0 {
        lemma_sift_cap(m, txs.drop_last());
    }
}

/// A run of transactions sorted by nonce, lowest first.
pub open spec fn sorted_by_history(s: Seq<TxV>) -> bool {
    forall|i: int, j: int| 0 <= i < j < s.len() ==> s[i].history() <= s[j].history()
}

/// One step of a stable insertion sort: the transaction takes its place
/// behind every earlier one whose nonce does not exceed its own.
pub open spec fn insert_sorted(s: Seq<TxV>, tx: TxV) -> Seq<TxV>
    decreases s.len(),
{
    if s.len() == 0 {
        seq![tx]
    } else if s.first().history() <= tx.history() {
        seq![s.first()] + insert_sorted(s.drop_first(), tx)
    } else {
        seq![tx] + s
    }
}

/// The stable sort of a run by nonce: each transaction in turn takes its
/// place behind its equals.
pub open spec fn sort_txs(s: Seq<TxV>) -> Seq<TxV>
    decreases s.len(),
{
    if s.len() == 0 {
        Seq::empty()
    } else {
        insert_sorted(sort_txs(s.drop_last()), s.last())
    }
}

/// The subsequence of a run that carries one given nonce.
pub open spec fn history_class(s: Seq<TxV>, k: u64) -> Seq<TxV> {
    s.filter(|t: TxV| t.history() == k)
}

/// Inserting at the first position whose nonce is larger is the stable
/// insertion step.
proof fn lemma_insert_sorted_at(s: Seq<TxV>, tx: TxV, pos: int)
    requires
        0 <= pos <= s.len(),
        forall|q: int| 0 <= q < pos ==> s[q].history() <= tx.history(),
        pos < s.len() ==> s[pos].history() > tx.history(),
    ensures
        insert_sorted(s, tx) =~= s.insert(pos, tx),
    decreases s.len(),
{
    if pos == 0 {
        if s.len() == 0 {
            assert(insert_sorted(s, tx) =~= s.insert(0, tx));
        } else {
            assert(s.first().history() > tx.history());
            assert(insert_sorted(s, tx) =~= s.insert(0, tx));
        }
    } else {
        assert(s[0].history() <= tx.history());
        lemma_insert_sorted_at(s.drop_first(), tx, pos - 1);
        assert(s.drop_first().insert(pos - 1, tx) =~= s.insert(pos, tx).drop_first());
        assert(insert_sorted(s, tx) =~= seq![s.first()] + s.insert(pos, tx).drop_first());
        assert(seq![s.first()] + s.insert(pos, tx).drop_first() =~= s.insert(pos, tx));
    }
}

/// A lower bound on every nonce survives the insertion of one more
/// transaction that also respects it.
proof fn lemma_insert_sorted_lower(s: Seq<TxV>, tx: TxV, bound: u64)
    requires
        forall|j: int| 0 <= j < s.len() ==> bound <= (#[trigger] s[j]).history(),
        bound <= tx.history(),
    ensures
        forall|j: int|
            0 <= j < insert_sorted(s, tx).len() ==> bound
                <= (#[trigger] insert_sorted(s, tx)[j]).history(),
    decreases s.len(),
{
    if s.len() > 0 && s.first().history() <= tx.history() {
        assert(forall|j: int|
            0 <= j < s.drop_first().len() ==> bound <= (#[trigger] s.drop_first()[j]).history());
        lemma_insert_sorted_lower(s.drop_first(), tx, bound);
        assert forall|j: int| 0 <= j < insert_sorted(s, tx).len() implies bound <= (
        #[trigger] insert_sorted(s, tx)[j]).history() by {
            if j > 0 {
                assert(insert_sorted(s, tx)[j] == insert_sorted(s.drop_first(), tx)[j - 1]);
            }
        }
    }
}

/// Insertion keeps a sorted run sorted.
proof fn lemma_insert_sorted_sorted(s: Seq<TxV>, tx: TxV)
    requires
        sorted_by_history(s),
    ensures
        sorted_by_history(insert_sorted(s, tx)),
    decreases s.len(),
{
    if s.len() > 0 {
        if s.first().history() <= tx.history() {
            assert(sorted_by_history(s.drop_first()));
            lemma_insert_sorted_sorted(s.drop_first(), tx);
            assert(forall|j: int|
                0 <= j < s.drop_first().len() ==> s.first().history() <= (
                #[trigger] s.drop_first()[j]).history());
            lemma_insert_sorted_lower(s.drop_first(), tx, s.first().history());
            assert forall|i: int, j: int|
                0 <= i < j < insert_sorted(s, tx).len() implies insert_sorted(s, tx)[i].history()
                <= insert_sorted(s, tx)[j].history() by {
                if i > 0 {
                    assert(insert_sorted(s, tx)[i] == insert_sorted(s.drop_first(), tx)[i - 1]);
                    assert(insert_sorted(s, tx)[j] == insert_sorted(s.drop_first(), tx)[j - 1]);
                } else {
                    assert(insert_sorted(s, tx)[j] == insert_sorted(s.drop_first(), tx)[j - 1]);
                }
            }
        }
    }
}

/// Into a sorted run, insertion appends the newcomer at the end of its
/// own nonce class and leaves every class otherwise alone: stability.
proof fn lemma_insert_sorted_class(s: Seq<TxV>, tx: TxV, k: u64)
    requires
        sorted_by_history(s),
    ensures
        history_class(insert_sorted(s, tx), k) =~= if k == tx.history() {
            history_class(s, k).push(tx)
        } else {
            history_class(s, k)
        },
    decreases s.len(),
{
    reveal_with_fuel(Seq::filter, 3);
    broadcast use vstd::seq_lib::group_filter_ensures;

    let pred = |t: TxV| t.history() == k;
    if s.len() == 0 {
        assert(seq![tx].drop_last() =~= Seq::<TxV>::empty());
        assert(history_class(insert_sorted(s, tx), k) =~= (if k == tx.history() {
            history_class(s, k).push(tx)
        } else {
            history_class(s, k)
        }));
    } else if s.first().history() <= tx.history() {
        assert(sorted_by_history(s.drop_first()));
        lemma_insert_sorted_class(s.drop_first(), tx, k);
        Seq::filter_distributes_over_add(seq![s.first()], insert_sorted(s.drop_first(), tx), pred);
        Seq::filter_distributes_over_add(seq![s.first()], s.drop_first(), pred);
        assert(seq![s.first()] + s.drop_first() =~= s);
        assert(history_class(insert_sorted(s, tx), k) =~= seq![s.first()].filter(pred)
            + history_class(insert_sorted(s.drop_first(), tx), k));
        assert(history_class(s, k) =~= seq![s.first()].filter(pred) + history_class(
            s.drop_first(),
            k,
        ));
    } else {
        // Every element of the sorted run exceeds the newcomer's nonce,
        // so its class in the run is empty.
        Seq::filter_distributes_over_add(seq![tx], s, pred);
        if k == tx.history() {
            assert(forall|j: int| 0 <= j < s.len() ==> (#[trigger] s[j]).history() > tx.history());
            lemma_filter_none(s, pred);
            assert(history_class(insert_sorted(s, tx), k) =~= seq![tx].filter(pred));
            assert(seq![tx].filter(pred) =~= Seq::<TxV>::empty().push(tx));
            assert(history_class(s, k) =~= Seq::<TxV>::empty());
        } else {
            assert(seq![tx].drop_last() =~= Seq::<TxV>::empty());
            assert(!pred(tx));
            assert(seq![tx].filter(pred) =~= Seq::<TxV>::empty());
        }
    }
}

/// Filtering with a predicate nothing satisfies leaves nothing.
proof fn lemma_filter_none(s: Seq<TxV>, pred: spec_fn(TxV) -> bool)
    requires
        forall|j: int| 0 <= j < s.len() ==> !pred(#[trigger] s[j]),
    ensures
        s.filter(pred) =~= Seq::<TxV>::empty(),
    decreases s.len(),
{
    reveal(Seq::filter);
    if s.len() > 0 {
        lemma_filter_none(s.drop_last(), pred);
    }
}

/// The stable sort is sorted.
pub proof fn lemma_sort_txs_sorted(s: Seq<TxV>)
    ensures
        sorted_by_history(sort_txs(s)),
    decreases s.len(),
{
    if s.len() > 0 {
        lemma_sort_txs_sorted(s.drop_last());
        lemma_insert_sorted_sorted(sort_txs(s.drop_last()), s.last());
    }
}

/// Stability: the sort keeps every nonce class in its arrival order.
pub proof fn lemma_sort_txs_stable(s: Seq<TxV>, k: u64)
    ensures
        history_class(sort_txs(s), k) =~= history_class(s, k),
    decreases s.len(),
{
    reveal(Seq::filter);
    broadcast use vstd::seq_lib::group_filter_ensures;

    if s.len() > 0 {
        let pred = |t: TxV| t.history() == k;
        lemma_sort_txs_stable(s.drop_last(), k);
        lemma_sort_txs_sorted(s.drop_last());
        lemma_insert_sorted_class(sort_txs(s.drop_last()), s.last(), k);
        assert(history_class(s, k) == (if pred(s.last()) {
            history_class(s.drop_last(), k).push(s.last())
        } else {
            history_class(s.drop_last(), k)
        }));
    }
}

/// Sorts transactions by nonce, lowest first; the result is exactly the
/// stable insertion sort of the input, so ties keep their order.
pub fn sort_by_history(txs: Vec<Transaction>) -> (r: Vec<Transaction>)
    ensures
        r.deep_view() == sort_txs(txs.deep_view()),
        sorted_by_history(r.deep_view()),
{
    let ghost txs0 = txs.deep_view();
    let mut out: Vec<Transaction> = Vec::new();
    let n = txs.len();
    let mut i: usize = 0;
    proof {
        assert(out.deep_view() =~= sort_txs(txs0.take(0)));
    }
    while i < n
        invariant
            n == txs@.len(),
            txs0 == txs.deep_view(),
            i <= n,
            out.deep_view() == sort_txs(txs0.take(i as int)),
            sorted_by_history(out.deep_view()),
            out@.len() == i,
        decreases n - i,
    {
        let t = txs[i].clone();
        let h = t.get_history();
        let m = out.len();
        let mut pos: usize = 0;
        while pos < m && out[pos].get_history() <= h
            invariant
                m == out@.len(),
                pos <= m,
                h == t@.history(),
                forall|q: int| 0 <= q < pos ==> (#[trigger] out.deep_view()[q]).history() <= h,
            decreases m - pos,
        {
            pos = pos + 1;
        }
        let ghost before = out.deep_view();
        proof {
            if pos < m {
                assert(out.deep_view()[pos as int].history() > h);
            }
        }
        out.insert(pos, t);
        proof {
            assert(out.deep_view() =~= before.insert(pos as int, t@));
            lemma_insert_sorted_at(before, t@, pos as int);
            assert(txs0.take(i + 1).drop_last() =~= txs0.take(i as int));
            assert(txs0.take(i + 1).last() == txs0[i as int]);
            assert(t@ == txs0[i as int]);
            lemma_insert_sorted_sorted(before, t@);
        }
        i = i + 1;
    }
    proof {
        assert(txs0.take(n as int) =~= txs0);
    }
    out
}

impl Mempool {
    /// Applies a run of incoming transactions to a scratch chainstate to
    /// make sure every one of them is sound and spendable at its turn. A
    /// failed run leaves the scratch state partially applied; callers
    /// discard it.
    pub fn verify_veracity_of_incoming_transactions(
        transactions: &Vec<Transaction>,
        temporal_chainstate: &mut Chainstate,
    ) -> (r: bool)
        requires
            old(temporal_chainstate).wf(),
        ensures
            final(temporal_chainstate).wf(),
            r == crate::block_chain::txs_apply(
                old(temporal_chainstate)@,
                transactions.deep_view(),
            ),
            r ==> final(temporal_chainstate)@ == old(temporal_chainstate)@.apply_txs(
                transactions.deep_view(),
            ),
    {
        let ghost m0 = old(temporal_chainstate)@;
        let ghost txs = transactions.deep_view();
        let n = transactions.len();
        let mut i: usize = 0;
        while i < n
            invariant
                m0 == old(temporal_chainstate)@,
                n == transactions.len(),
                txs == transactions.deep_view(),
                i <= n,
                temporal_chainstate.wf(),
                temporal_chainstate@ == m0.apply_txs(txs.take(i as int)),
                crate::block_chain::txs_apply(m0, txs.take(i as int)),
            decreases n - i,
        {
            let tx = &transactions[i];
            let ok = tx.verify() && temporal_chainstate.verify_transaction_ammount(tx)
                && temporal_chainstate.verify_transaction_history(tx);
            if !ok {
                proof {
                    assert(txs[i as int] == transactions@[i as int]@);
                    crate::block_chain::lemma_txs_apply_prefix_fails(m0, txs, i as int);
                }
                return false;
            }
            temporal_chainstate.effect_transaction(tx);
            proof {
                assert(txs.take(i + 1).drop_last() =~= txs.take(i as int));
                assert(txs.take(i + 1).last() == txs[i as int]);
            }
            i = i + 1;
        }
        proof {
            assert(txs.take(n as int) =~= txs);
        }
        true
    }

    /// Walks pending transactions through a scratch chainstate and
    /// separates the ones a block can take from the ones it cannot,
    /// stopping the intake once a block's worth is gathered.
    pub fn verify_veracity_of_transactions(
        pending_transactions: &Vec<Transaction>,
        temporal_chainstate: &mut Chainstate,
    ) -> (r: (Vec<Transaction>, Vec<Transaction>))
        requires
            old(temporal_chainstate).wf(),
        ensures
            final(temporal_chainstate).wf(),
            r.0.deep_view() == sift(old(temporal_chainstate)@, pending_transactions.deep_view()).ok,
            r.1.deep_view() == sift(
                old(temporal_chainstate)@,
                pending_transactions.deep_view(),
            ).bad,
            final(temporal_chainstate)@ == sift(
                old(temporal_chainstate)@,
                pending_transactions.deep_view(),
            ).state,
    {
        let ghost m0 = old(temporal_chainstate)@;
        let ghost txs = pending_transactions.deep_view();
        let mut ok_txs: Vec<Transaction> = Vec::new();
        let mut bad_txs: Vec<Transaction> = Vec::new();
        let n = pending_transactions.len();
        let mut i: usize = 0;
        while i < n
            invariant
                m0 == old(temporal_chainstate)@,
                n == pending_transactions.len(),
                txs == pending_transactions.deep_view(),
                i <= n,
                temporal_chainstate.wf(),
                ok_txs.deep_view() == sift(m0, txs.take(i as int)).ok,
                bad_txs.deep_view() == sift(m0, txs.take(i as int)).bad,
                temporal_chainstate@ == sift(m0, txs.take(i as int)).state,
            decreases n - i,
        {
            let tx = &pending_transactions[i];
            proof {
                assert(txs.take(i + 1).drop_last() =~= txs.take(i as int));
                assert(txs.take(i + 1).last() == txs[i as int]);
            }
            if ok_txs.len() >= MAX_BLOCK_TX {
            } else if temporal_chainstate.verify_transaction_ammount(tx)
                && temporal_chainstate.verify_transaction_history(tx) {
                temporal_chainstate.effect_transaction(tx);
                let ghost dv = ok_txs.deep_view();
                ok_txs.push(tx.clone());
                proof {
                    assert(ok_txs.deep_view() =~= dv.push(txs[i as int]));
                }
            } else {
                let ghost dv = bad_txs.deep_view();
                bad_txs.push(tx.clone());
                proof {
                    assert(bad_txs.deep_view() =~= dv.push(txs[i as int]));
                }
            }
            i = i + 1;
        }
        proof {
            assert(txs.take(n as int) =~= txs);
        }
        (ok_txs, bad_txs)
    }
}



} // verus!
