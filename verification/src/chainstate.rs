//! The chainstate: the fold of all applied transactions. Per-address
//! balance and nonce, the recent-staker list the election draws from,
//! and the forger-punishment bookkeeping.

use vstd::prelude::*;

use crate::table::Table;
use crate::transaction::{Transaction, TxV};

verus! {

/// How many recent stake transactions are kept for the election.
pub const RECENT_STAKE_WINDOW: usize = 100;

/// How many recent forger addresses are excluded from the election.
pub const RECENT_FORGERS_WINDOW: usize = 2;

/// Balance and nonce of one address.
#[derive(Clone, Copy, PartialEq, Eq, Structural, Debug)]
pub struct AddressInfo {
    pub ammount: u64,
    /// Also known as the nonce.
    pub history: u64,
}

/// The mathematical shadow of a `Chainstate`.
pub struct ChainstateV {
    pub addresses: Map<Seq<char>, AddressInfo>,
    pub last_staking_addresses: Seq<TxV>,
    pub recent_forgers: Seq<Seq<char>>,
    pub missed_forgers: Map<Seq<char>, u64>,
    pub last_forger_was_blocked: bool,
}

/// Whether crediting `to` with `amt` stays within the balance type.
pub open spec fn credit_fits(a: Map<Seq<char>, AddressInfo>, to: Seq<char>, amt: u64) -> bool {
    a.contains_key(to) ==> a[to].ammount + amt <= u64::MAX
}

/// Credit `amt` to `to`, creating the address with nonce zero when it is
/// new.
pub open spec fn credit(a: Map<Seq<char>, AddressInfo>, to: Seq<char>, amt: u64) -> Map<
    Seq<char>,
    AddressInfo,
> {
    if a.contains_key(to) {
        a.insert(to, AddressInfo { ammount: (a[to].ammount + amt) as u64, history: a[to].history })
    } else {
        a.insert(to, AddressInfo { ammount: amt, history: 0 })
    }
}

/// The origin exists, covers the amount, and presents its next nonce
/// (which must still have room to step).
pub open spec fn spend_guard(
    a: Map<Seq<char>, AddressInfo>,
    from: Seq<char>,
    amt: u64,
    history: u64,
) -> bool {
    a.contains_key(from) && a[from].ammount >= amt && a[from].history == history && history
        < u64::MAX
}

/// Debit `amt` from `from` and step its nonce.
pub open spec fn debit(a: Map<Seq<char>, AddressInfo>, from: Seq<char>, amt: u64) -> Map<
    Seq<char>,
    AddressInfo,
> {
    a.insert(
        from,
        AddressInfo {
            ammount: (a[from].ammount - amt) as u64,
            history: (a[from].history + 1) as u64,
        },
    )
}

/// The recent-staker list after one more stake: oldest evicted at the
/// window.
pub open spec fn push_stake(s: Seq<TxV>, tx: TxV) -> Seq<TxV> {
    if s.len() + 1 > RECENT_STAKE_WINDOW {
        s.push(tx).drop_first()
    } else {
        s.push(tx)
    }
}

impl ChainstateV {
    /// The effect of one transaction, as the append engine applies it:
    /// a movement or stake whose guard fails, or whose credit would
    /// overflow the balance type, changes nothing.
    pub open spec fn apply_tx(self, tx: TxV) -> ChainstateV {
        match tx {
            TxV::Coinbase { to, ammount, .. } => {
                if credit_fits(self.addresses, to, ammount) {
                    ChainstateV { addresses: credit(self.addresses, to, ammount), ..self }
                } else {
                    self
                }
            },
            TxV::Movement { from, to, ammount, history, .. } => {
                if spend_guard(self.addresses, from, ammount, history) {
                    let debited = debit(self.addresses, from, ammount);
                    if credit_fits(debited, to, ammount) {
                        ChainstateV { addresses: credit(debited, to, ammount), ..self }
                    } else {
                        self
                    }
                } else {
                    self
                }
            },
            TxV::Stake { from, ammount, history, .. } => {
                if spend_guard(self.addresses, from, ammount, history) {
                    ChainstateV {
                        addresses: debit(self.addresses, from, ammount),
                        last_staking_addresses: push_stake(self.last_staking_addresses, tx),
                        ..self
                    }
                } else {
                    self
                }
            },
        }
    }

    /// The effect of a run of transactions, applied left to right.
    pub open spec fn apply_txs(self, txs: Seq<TxV>) -> ChainstateV
        decreases txs.len(),
    {
        if txs.len() == 0 {
            self
        } else {
            self.apply_txs(txs.drop_last()).apply_tx(txs.last())
        }
    }

    /// The spendability check alone: the origin exists and covers the
    /// amount. A coinbase passes trivially.
    pub open spec fn ammount_ok(self, tx: TxV) -> bool {
        match tx {
            TxV::Coinbase { .. } => true,
            TxV::Movement { from, ammount, .. } => self.addresses.contains_key(from)
                && self.addresses[from].ammount >= ammount,
            TxV::Stake { from, ammount, .. } => self.addresses.contains_key(from)
                && self.addresses[from].ammount >= ammount,
        }
    }

    /// The anti-replay check alone: the nonce is the origin's next one.
    /// A coinbase passes trivially.
    pub open spec fn history_ok(self, tx: TxV) -> bool {
        match tx {
            TxV::Coinbase { .. } => true,
            TxV::Movement { from, history, .. } => self.addresses.contains_key(from)
                && self.addresses[from].history == history,
            TxV::Stake { from, history, .. } => self.addresses.contains_key(from)
                && self.addresses[from].history == history,
        }
    }

    /// The balance shown for an address; an unknown address shows zero.
    pub open spec fn balance_of(self, addr: Seq<char>) -> u64 {
        if self.addresses.contains_key(addr) {
            self.addresses[addr].ammount
        } else {
            0
        }
    }

    /// The recent-forger list after one more forger: oldest evicted at
    /// the window.
    pub open spec fn push_forger(self, addr: Seq<char>) -> Seq<Seq<char>> {
        if self.recent_forgers.len() + 1 > RECENT_FORGERS_WINDOW {
            self.recent_forgers.push(addr).drop_first()
        } else {
            self.recent_forgers.push(addr)
        }
    }
}

/// Per-address balance and nonce, the recent stakers, and the
/// forger-punishment table.
pub struct Chainstate {
    addresses: Table<AddressInfo>,
    last_staking_addresses: Vec<Transaction>,
    recent_forgers: Vec<String>,
    missed_forgers: Table<u64>,
    last_forger_was_blocked: bool,
}

impl View for Chainstate {
    type V = ChainstateV;

    closed spec fn view(&self) -> ChainstateV {
        ChainstateV {
            addresses: self.addresses@,
            last_staking_addresses: self.last_staking_addresses.deep_view(),
            recent_forgers: self.recent_forgers.deep_view(),
            missed_forgers: self.missed_forgers@,
            last_forger_was_blocked: self.last_forger_was_blocked,
        }
    }
}

impl Chainstate {
    /// The tables behind the maps keep their keys unique, and the two
    /// recency lists stay within their windows. Constructors establish
    /// this; every operation keeps it.
    pub closed spec fn wf(self) -> bool {
        &&& self.addresses.wf()
        &&& self.missed_forgers.wf()
        &&& self@.last_staking_addresses.len() <= RECENT_STAKE_WINDOW
        &&& self@.recent_forgers.len() <= RECENT_FORGERS_WINDOW
    }

    /// An empty chainstate.
    pub fn new() -> (r: Self)
        ensures
            r.wf(),
            r@.addresses == Map::<Seq<char>, AddressInfo>::empty(),
            r@.last_staking_addresses == Seq::<TxV>::empty(),
            r@.recent_forgers == Seq::<Seq<char>>::empty(),
            r@.missed_forgers == Map::<Seq<char>, u64>::empty(),
            !r@.last_forger_was_blocked,
    {
        let r = Chainstate {
            addresses: Table::new(),
            last_staking_addresses: Vec::new(),
            recent_forgers: Vec::new(),
            missed_forgers: Table::new(),
            last_forger_was_blocked: false,
        };
        proof {
            assert(r@.last_staking_addresses =~= Seq::<TxV>::empty());
            assert(r@.recent_forgers =~= Seq::<Seq<char>>::empty());
        }
        r
    }

    /// The balance shown for an address; an unknown address shows zero.
    pub fn get_address_ammount(&self, address: String) -> (r: u64)
        requires
            self.wf(),
        ensures
            r == self@.balance_of(address@),
    {
        match self.addresses.get(&address) {
            Some(info) => info.ammount,
            None => 0,
        }
    }

    /// Make sure a transaction can be spent.
    pub fn verify_transaction_ammount(&self, tx: &Transaction) -> (r: bool)
        requires
            self.wf(),
        ensures
            r == self@.ammount_ok(tx@),
    {
        match tx {
            Transaction::MOVEMENT { from_address, ammount, .. } => {
                match self.addresses.get(from_address) {
                    Some(info) => info.ammount >= *ammount,
                    None => false,
                }
            },
            Transaction::STAKE { from_address, ammount, .. } => {
                match self.addresses.get(from_address) {
                    Some(info) => info.ammount >= *ammount,
                    None => false,
                }
            },
            Transaction::COINBASE { .. } => true,
        }
    }

    /// Make sure the `history` of the transaction matches the
    /// chainstate; this is what prevents replay.
    pub fn verify_transaction_history(&self, tx: &Transaction) -> (r: bool)
        requires
            self.wf(),
        ensures
            r == self@.history_ok(tx@),
    {
        match tx {
            Transaction::MOVEMENT { from_address, history, .. } => {
                match self.addresses.get(from_address) {
                    Some(info) => info.history == *history,
                    None => false,
                }
            },
            Transaction::STAKE { from_address, history, .. } => {
                match self.addresses.get(from_address) {
                    Some(info) => info.history == *history,
                    None => false,
                }
            },
            Transaction::COINBASE { .. } => true,
        }
    }

    /// Apply the proper changes to the chainstate when a transaction
    /// occurs.
    pub fn effect_transaction(&mut self, tx: &Transaction)
        requires
            old(self).wf(),
        ensures
            final(self).wf(),
            final(self)@ == old(self)@.apply_tx(tx@),
    {
        match tx {
            Transaction::COINBASE { to_address, ammount, .. } => {
                match self.addresses.get(to_address) {
                    Some(info) => {
                        if info.ammount <= u64::MAX - *ammount {
                            self.addresses.set(
                                to_address,
                                AddressInfo {
                                    ammount: info.ammount + *ammount,
                                    history: info.history,
                                },
                            );
                        }
                    },
                    None => {
                        self.addresses.set(
                            to_address,
                            AddressInfo { ammount: *ammount, history: 0 },
                        );
                    },
                }
            },
            Transaction::MOVEMENT { from_address, to_address, ammount, history, .. } => {
                let origin = self.addresses.get(from_address);
                match origin {
                    Some(info) => {
                        if info.ammount >= *ammount && info.history == *history && *history
                            < u64::MAX {
                            let debited = AddressInfo {
                                ammount: info.ammount - *ammount,
                                history: info.history + 1,
                            };
                            let ghost a1 = self.addresses@.insert(from_address@, debited);
                            match if *to_address == *from_address {
                                Some(debited)
                            } else {
                                self.addresses.get(to_address)
                            } {
                                Some(dest) => {
                                    if dest.ammount <= u64::MAX - *ammount {
                                        proof {
                                            assert(a1.contains_key(to_address@) && a1[to_address@]
                                                == dest);
                                        }
                                        self.addresses.set(from_address, debited);
                                        self.addresses.set(
                                            to_address,
                                            AddressInfo {
                                                ammount: dest.ammount + *ammount,
                                                history: dest.history,
                                            },
                                        );
                                        proof {
                                            assert(self@.addresses =~= credit(
                                                a1,
                                                to_address@,
                                                *ammount,
                                            ));
                                        }
                                    }
                                },
                                None => {
                                    self.addresses.set(from_address, debited);
                                    self.addresses.set(
                                        to_address,
                                        AddressInfo { ammount: *ammount, history: 0 },
                                    );
                                },
                            }
                        }
                    },
                    None => {},
                }
            },
            Transaction::STAKE { from_address, ammount, history, .. } => {
                let origin = self.addresses.get(from_address);
                match origin {
                    Some(info) => {
                        if info.ammount >= *ammount && info.history == *history && *history
                            < u64::MAX {
                            self.addresses.set(
                                from_address,
                                AddressInfo {
                                    ammount: info.ammount - *ammount,
                                    history: info.history + 1,
                                },
                            );
                            let ghost stakes0 = self.last_staking_addresses.deep_view();
                            self.last_staking_addresses.push(tx.clone());
                            proof {
                                assert(self.last_staking_addresses.deep_view() =~= stakes0.push(
                                    tx@,
                                ));
                            }
                            if self.last_staking_addresses.len() > RECENT_STAKE_WINDOW {
                                let ghost stakes1 = self.last_staking_addresses.deep_view();
                                self.last_staking_addresses.remove(0);
                                proof {
                                    assert(self.last_staking_addresses.deep_view()
                                        =~= stakes1.drop_first());
                                }
                            }
                        }
                    },
                    None => {},
                }
            },
        }
    }

    /// Replays a whole chain's transactions over this chainstate, as a
    /// node does at startup.
    pub fn load_from_chain(&mut self, chain: &Vec<crate::block::Block>)
        requires
            old(self).wf(),
        ensures
            final(self).wf(),
            final(self)@ == crate::block_chain::replay(old(self)@, chain.deep_view()),
    {
        let ghost cv = chain.deep_view();
        let ghost m0 = old(self)@;
        let n = chain.len();
        let mut i: usize = 0;
        while i < n
            invariant
                m0 == old(self)@,
                cv == chain.deep_view(),
                n == chain@.len(),
                i <= n,
                self.wf(),
                self@ == crate::block_chain::replay(m0, cv.take(i as int)),
            decreases n - i,
        {
            let block = &chain[i];
            proof {
                assert(block@ == cv[i as int]);
            }
            let ghost txs = block.transactions.deep_view();
            let ghost mid = self@;
            let tx_count = block.transactions.len();
            let mut t: usize = 0;
            while t < tx_count
                invariant
                    cv == chain.deep_view(),
                    i < n,
                    n == chain@.len(),
                    block == &chain[i as int],
                    block@ == cv[i as int],
                    tx_count == block.transactions.len(),
                    txs == block.transactions.deep_view(),
                    t <= tx_count,
                    self.wf(),
                    self@ == mid.apply_txs(txs.take(t as int)),
                decreases tx_count - t,
            {
                let tx = &block.transactions[t];
                self.effect_transaction(tx);
                proof {
                    assert(txs.take(t + 1).drop_last() =~= txs.take(t as int));
                    assert(txs.take(t + 1).last() == txs[t as int]);
                }
                t = t + 1;
            }
            proof {
                assert(txs.take(tx_count as int) =~= txs);
                assert(cv.take(i + 1).drop_last() =~= cv.take(i as int));
                assert(cv.take(i + 1).last() == cv[i as int]);
            }
            i = i + 1;
        }
        proof {
            assert(cv.take(n as int) =~= cv);
        }
    }

    /// Whether the address is currently punished for missing its slot.
    pub fn is_punished(&self, addr: &String) -> (r: bool)
        requires
            self.wf(),
        ensures
            r == self@.missed_forgers.contains_key(addr@),
    {
        self.missed_forgers.contains(addr)
    }

    /// Whether the address forged one of the last few blocks.
    pub fn has_recent_forger(&self, addr: &String) -> (r: bool)
        ensures
            r == self@.recent_forgers.contains(addr@),
    {
        let n = self.recent_forgers.len();
        let mut i: usize = 0;
        while i < n
            invariant
                n == self.recent_forgers.len(),
                i <= n,
                forall|j: int| 0 <= j < i ==> self.recent_forgers.deep_view()[j] != addr@,
            decreases n - i,
        {
            if self.recent_forgers[i] == *addr {
                proof {
                    assert(self@.recent_forgers[i as int] == addr@);
                }
                return true;
            }
            i = i + 1;
        }
        proof {
            assert(forall|j: int| 0 <= j < n ==> self@.recent_forgers[j] != addr@);
        }
        false
    }

    /// Records the address as a recent forger, evicting the oldest at
    /// the window.
    pub fn add_recent_forger(&mut self, addr: &String)
        requires
            old(self).wf(),
        ensures
            final(self).wf(),
            final(self)@ == (ChainstateV {
                recent_forgers: old(self)@.push_forger(addr@),
                ..old(self)@
            }),
    {
        let ghost f0 = self.recent_forgers.deep_view();
        self.recent_forgers.push(addr.clone());
        proof {
            assert(self.recent_forgers.deep_view() =~= f0.push(addr@));
        }
        if self.recent_forgers.len() > RECENT_FORGERS_WINDOW {
            let ghost f1 = self.recent_forgers.deep_view();
            self.recent_forgers.remove(0);
            proof {
                assert(self.recent_forgers.deep_view() =~= f1.drop_first());
            }
        }
    }

    /// Records a punishment for the address at the given chain index.
    pub fn punish(&mut self, addr: &String, index: u64)
        requires
            old(self).wf(),
        ensures
            final(self).wf(),
            final(self)@ == (ChainstateV {
                missed_forgers: old(self)@.missed_forgers.insert(addr@, index),
                ..old(self)@
            }),
    {
        self.missed_forgers.set(addr, index);
    }

    /// Forgives every punished forger whose recorded index lies strictly
    /// before the given chain index.
    pub fn forgive_expired(&mut self, index: u64)
        requires
            old(self).wf(),
        ensures
            final(self).wf(),
            final(self)@.addresses == old(self)@.addresses,
            final(self)@.last_staking_addresses == old(self)@.last_staking_addresses,
            final(self)@.recent_forgers == old(self)@.recent_forgers,
            final(self)@.last_forger_was_blocked == old(self)@.last_forger_was_blocked,
            forall|k: Seq<char>|
                final(self)@.missed_forgers.contains_key(k) <==> (
                #[trigger] old(self)@.missed_forgers.contains_key(k) && old(
                    self,
                )@.missed_forgers[k] >= index),
            forall|k: Seq<char>|
                final(self)@.missed_forgers.contains_key(k)
                    ==> #[trigger] final(self)@.missed_forgers[k] == old(self)@.missed_forgers[k],
    {
        let keys = self.missed_forgers.keys();
        let n = keys.len();
        let ghost m0 = self.missed_forgers@;
        let mut i: usize = 0;
        while i < n
            invariant
                self.addresses == old(self).addresses,
                self.last_staking_addresses == old(self).last_staking_addresses,
                self.recent_forgers == old(self).recent_forgers,
                self.last_forger_was_blocked == old(self).last_forger_was_blocked,
                self.wf(),
                m0 == old(self)@.missed_forgers,
                n == keys@.len(),
                i <= n,
                forall|j: int| 0 <= j < n ==> m0.contains_key(#[trigger] keys@[j]@),
                forall|k: Seq<char>|
                    m0.contains_key(k) ==> exists|j: int| 0 <= j < n && keys@[j]@ == k,
                forall|a: int, b: int| 0 <= a < b < n ==> keys@[a]@ != keys@[b]@,
                forall|k: Seq<char>|
                    #[trigger] self@.missed_forgers.contains_key(k) ==> m0.contains_key(k)
                        && self@.missed_forgers[k] == m0[k],
                forall|j: int|
                    0 <= j < i ==> (self@.missed_forgers.contains_key(#[trigger] keys@[j]@)
                        <==> m0[keys@[j]@] >= index),
                forall|j: int| i <= j < n ==> self@.missed_forgers.contains_key(#[trigger] keys@[j]@),
            decreases n - i,
        {
            let key = &keys[i];
            match self.missed_forgers.get(key) {
                Some(recorded) => {
                    if recorded < index {
                        self.missed_forgers.remove(key);
                    }
                },
                None => {},
            }
            i = i + 1;
        }
        proof {
            assert forall|k: Seq<char>| #[trigger]
                self@.missed_forgers.contains_key(k) implies m0.contains_key(k) && m0[k]
                >= index by {
                let j = choose|j: int| 0 <= j < n && keys@[j]@ == k;
            }
            assert forall|k: Seq<char>|
                #[trigger] m0.contains_key(k) && m0[k] >= index implies self@.missed_forgers.contains_key(
                k,
            ) by {
                let j = choose|j: int| 0 <= j < n && keys@[j]@ == k;
            }
        }
    }

    /// Whether the previous slot already timed out; guards back-to-back
    /// punishment.
    pub fn last_forger_was_blocked(&self) -> (r: bool)
        ensures
            r == self@.last_forger_was_blocked,
    {
        self.last_forger_was_blocked
    }

    /// Sets the timed-out flag.
    pub fn set_last_forger_blocked(&mut self, value: bool)
        requires
            old(self).wf(),
        ensures
            final(self).wf(),
            final(self)@ == (ChainstateV { last_forger_was_blocked: value, ..old(self)@ }),
    {
        self.last_forger_was_blocked = value;
    }

    /// The recent stake transactions, oldest first.
    pub fn staking_transactions(&self) -> (r: &Vec<Transaction>)
        ensures
            r.deep_view() == self@.last_staking_addresses,
    {
        &self.last_staking_addresses
    }
}

/// A movement or stake whose origin is the given address.
pub open spec fn is_spend_from(tx: TxV, a: Seq<char>) -> bool {
    (tx is Movement || tx is Stake) && tx.from() == Some(a)
}

/// Whether a movement or stake changes the chainstate when applied: its
/// guard holds, and for a movement the credit also fits.
pub open spec fn spend_applies(m: ChainstateV, tx: TxV) -> bool {
    match tx {
        TxV::Movement { from, to, ammount, history, .. } => spend_guard(
            m.addresses,
            from,
            ammount,
            history,
        ) && credit_fits(debit(m.addresses, from, ammount), to, ammount),
        TxV::Stake { from, ammount, history, .. } => spend_guard(m.addresses, from, ammount, history),
        TxV::Coinbase { .. } => false,
    }
}

/// The nonces of the accepted movements and stakes from one address, in
/// the order the run applies them.
pub open spec fn accepted_nonces(m: ChainstateV, txs: Seq<TxV>, a: Seq<char>) -> Seq<u64>
    decreases txs.len(),
{
    if txs.len() == 0 {
        Seq::empty()
    } else {
        let pre = accepted_nonces(m, txs.drop_last(), a);
        let mid = m.apply_txs(txs.drop_last());
        let tx = txs.last();
        if is_spend_from(tx, a) && spend_applies(mid, tx) {
            pre.push(tx.history())
        } else {
            pre
        }
    }
}

/// The nonce an address shows; an unknown address shows zero.
pub open spec fn nonce_of(m: ChainstateV, a: Seq<char>) -> u64 {
    if m.addresses.contains_key(a) {
        m.addresses[a].history
    } else {
        0
    }
}

/// Nonce monotonicity: over any run of transactions, the nonces of the
/// accepted movements and stakes from one address count up one by one
/// from the address's starting nonce, with no gaps; the address's nonce
/// afterwards has advanced by exactly their number.
pub proof fn lemma_nonce_monotonicity(m: ChainstateV, txs: Seq<TxV>, a: Seq<char>)
    ensures
        nonce_of(m.apply_txs(txs), a) == nonce_of(m, a) + accepted_nonces(m, txs, a).len(),
        forall|i: int|
            0 <= i < accepted_nonces(m, txs, a).len() ==> #[trigger] accepted_nonces(m, txs, a)[i]
                == nonce_of(m, a) + i,
    decreases txs.len(),
{
    if txs.len() > 0 {
        let prefix = txs.drop_last();
        let tx = txs.last();
        let mid = m.apply_txs(prefix);
        let pre = accepted_nonces(m, prefix, a);
        lemma_nonce_monotonicity(m, prefix, a);
        if is_spend_from(tx, a) && spend_applies(mid, tx) {
            assert(tx.history() == nonce_of(mid, a));
            assert(nonce_of(mid.apply_tx(tx), a) == nonce_of(mid, a) + 1);
        } else {
            assert(nonce_of(mid.apply_tx(tx), a) == nonce_of(mid, a)) by {
                lemma_apply_keeps_other_nonce(mid, tx, a);
            }
        }
    }
}

/// A transaction that is not an accepted spend from an address leaves
/// that address's nonce alone.
proof fn lemma_apply_keeps_other_nonce(m: ChainstateV, tx: TxV, a: Seq<char>)
    requires
        !(is_spend_from(tx, a) && spend_applies(m, tx)),
    ensures
        nonce_of(m.apply_tx(tx), a) == nonce_of(m, a),
{
    match tx {
        TxV::Coinbase { to, ammount, .. } => {
            if credit_fits(m.addresses, to, ammount) {
                assert(nonce_of(m.apply_tx(tx), a) == nonce_of(m, a));
            }
        },
        TxV::Movement { from, to, ammount, history, .. } => {
            if spend_guard(m.addresses, from, ammount, history) {
                let debited = debit(m.addresses, from, ammount);
                if credit_fits(debited, to, ammount) {
                    assert(from != a);
                    assert(nonce_of(m.apply_tx(tx), a) == nonce_of(m, a));
                }
            }
        },
        TxV::Stake { from, ammount, history, .. } => {
            if spend_guard(m.addresses, from, ammount, history) {
                assert(from != a);
                assert(nonce_of(m.apply_tx(tx), a) == nonce_of(m, a));
            }
        },
    }
}

impl Clone for Chainstate {
    fn clone(&self) -> (r: Self)
        ensures
            r@ == self@,
            self.wf() ==> r.wf(),
    {
        let mut stakes: Vec<Transaction> = Vec::new();
        let n = self.last_staking_addresses.len();
        for i in 0..n
            invariant
                n == self.last_staking_addresses.len(),
                stakes.deep_view() =~= self.last_staking_addresses.deep_view().take(i as int),
        {
            let tx = self.last_staking_addresses[i].clone();
            let ghost dv = stakes.deep_view();
            stakes.push(tx);
            proof {
                assert(stakes.deep_view() =~= dv.push(tx@));
                assert(dv.push(tx@) =~= self.last_staking_addresses.deep_view().take(i + 1));
            }
        }
        let mut forgers: Vec<String> = Vec::new();
        let m = self.recent_forgers.len();
        for i in 0..m
            invariant
                m == self.recent_forgers.len(),
                forgers.deep_view() =~= self.recent_forgers.deep_view().take(i as int),
        {
            let f = self.recent_forgers[i].clone();
            let ghost dv = forgers.deep_view();
            forgers.push(f);
            proof {
                assert(forgers.deep_view() =~= dv.push(f@));
                assert(dv.push(f@) =~= self.recent_forgers.deep_view().take(i + 1));
            }
        }
        proof {
            assert(stakes.deep_view() =~= self.last_staking_addresses.deep_view());
            assert(forgers.deep_view() =~= self.recent_forgers.deep_view());
        }
        Chainstate {
            addresses: self.addresses.clone(),
            last_staking_addresses: stakes,
            recent_forgers: forgers,
            missed_forgers: self.missed_forgers.clone(),
            last_forger_was_blocked: self.last_forger_was_blocked,
        }
    }
}

} // verus!
