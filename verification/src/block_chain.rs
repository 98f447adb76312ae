//! The chain itself: the append rule, the integrity audit over a whole
//! chain, and the chainstate kept in step with it.

use vstd::prelude::*;

use crate::block::{Block, BlockV};
use crate::block_hash::{unite_of, BlockHash};
use crate::chainstate::{Chainstate, ChainstateV};
use crate::errors::BlockchainErrors;
use crate::key::{address_of, Key};
use crate::transaction::{Transaction, TxV};

verus! {

/// A coinbase leads the block, rewards the block's forger, and is the
/// only coinbase in it.
pub open spec fn coinbase_ok(b: BlockV) -> bool {
    &&& b.transactions.len() > 0
    &&& b.transactions[0] is Coinbase
    &&& (match b.transactions[0] {
        TxV::Coinbase { to, .. } => to == address_of(b.key),
        _ => false,
    })
    &&& forall|i: int| 1 <= i < b.transactions.len() ==> !(#[trigger] b.transactions[i] is Coinbase)
}

/// Every transaction of the run is self-consistent and spendable at its
/// turn, starting from the given chainstate.
pub open spec fn txs_apply(m: ChainstateV, txs: Seq<TxV>) -> bool
    decreases txs.len(),
{
    txs.len() == 0 || {
        let prefix = txs.drop_last();
        let applied = m.apply_txs(prefix);
        txs_apply(m, prefix) && txs.last().valid() && applied.ammount_ok(txs.last())
            && applied.history_ok(txs.last())
    }
}

/// The chainstate after replaying a whole chain from the given start.
pub open spec fn replay(m: ChainstateV, chain: Seq<BlockV>) -> ChainstateV
    decreases chain.len(),
{
    if chain.len() == 0 {
        m
    } else {
        replay(m, chain.drop_last()).apply_txs(chain.last().transactions)
    }
}

/// The chainstate every node starts a replay from.
pub open spec fn empty_state() -> ChainstateV {
    ChainstateV {
        addresses: Map::empty(),
        last_staking_addresses: Seq::empty(),
        recent_forgers: Seq::empty(),
        missed_forgers: Map::empty(),
        last_forger_was_blocked: false,
    }
}

/// One block is sound on its own and against its predecessor: its hash
/// matches its fields, its signature verifies under its forger key, its
/// coinbase rewards that forger, it links to the predecessor's hash, and
/// it was not forged by the same key as the predecessor.
pub open spec fn block_ok_at(chain: Seq<BlockV>, i: int) -> bool {
    &&& chain[i].integrity_ok()
    &&& chain[i].signed_by(chain[i].key)
    &&& coinbase_ok(chain[i])
    &&& chain[i].index == Some((i + 1) as usize)
    &&& (i > 0 ==> chain[i].previous_hash == Some(chain[i - 1].hash) && chain[i].key != chain[i
        - 1].key)
    &&& (i == 0 ==> chain[i].previous_hash is None)
}

/// Every transaction of every block applies in order, replaying from the
/// empty chainstate.
pub open spec fn chain_applies(chain: Seq<BlockV>) -> bool
    decreases chain.len(),
{
    chain.len() == 0 || {
        let prefix = chain.drop_last();
        chain_applies(prefix) && txs_apply(replay(empty_state(), prefix), chain.last().transactions)
    }
}

/// What a full audit of a chain holds it to.
pub open spec fn chain_ok(chain: Seq<BlockV>) -> bool {
    (forall|i: int| 0 <= i < chain.len() ==> #[trigger] block_ok_at(chain, i)) && chain_applies(
        chain,
    )
}

/// The mathematical shadow of a `Blockchain`.
pub struct BlockchainV {
    pub chain: Seq<BlockV>,
    pub index: usize,
    pub last_block_hash: Option<crate::block_hash::BlockHashV>,
    pub state: ChainstateV,
}

/// The in-memory chain with its running chainstate.
pub struct Blockchain {
    pub chain: Vec<Block>,
    pub index: usize,
    pub last_block_hash: Option<BlockHash>,
    /// The chainstate the chain folds to, plus forger bookkeeping.
    pub state: Chainstate,
}

impl View for Blockchain {
    type V = BlockchainV;

    open spec fn view(&self) -> BlockchainV {
        BlockchainV {
            chain: self.chain.deep_view(),
            index: self.index,
            last_block_hash: match self.last_block_hash {
                Some(h) => Some(h@),
                None => None,
            },
            state: self.state@,
        }
    }
}

/// The balances and nonces of a well-formed chain are the fold of its
/// blocks; the forger bookkeeping moves separately.
pub open spec fn state_follows_chain(bc: BlockchainV) -> bool {
    let replayed = replay(empty_state(), bc.chain);
    bc.state.addresses == replayed.addresses && bc.state.last_staking_addresses
        == replayed.last_staking_addresses
}

impl Blockchain {
    /// What every operation of the chain preserves: the audit passes,
    /// the counters and the cached last hash agree with the chain, and
    /// the chainstate is the fold of the chain.
    pub open spec fn wf(self) -> bool {
        &&& chain_ok(self@.chain)
        &&& self@.index == self@.chain.len()
        &&& self@.chain.len() <= usize::MAX - 1
        &&& (match self@.last_block_hash {
            Some(h) => self@.chain.len() > 0 && h == self@.chain.last().hash,
            None => self@.chain.len() == 0,
        })
        &&& state_follows_chain(self@)
        &&& self.state.wf()
    }

    /// An empty chain, ready for its genesis block.
    pub fn new() -> (r: Self)
        ensures
            r.wf(),
            r@.chain == Seq::<BlockV>::empty(),
            r@.index == 0,
            r@.last_block_hash is None,
            r@.state == empty_state(),
    {
        let r = Blockchain {
            chain: Vec::new(),
            index: 0,
            last_block_hash: None,
            state: Chainstate::new(),
        };
        proof {
            assert(r@.chain =~= Seq::<BlockV>::empty());
            assert(r@.state.addresses =~= empty_state().addresses);
            assert(r@.state.last_staking_addresses =~= empty_state().last_staking_addresses);
            assert(r@.state.recent_forgers =~= empty_state().recent_forgers);
            assert(r@.state.missed_forgers =~= empty_state().missed_forgers);
            assert(r@.state =~= empty_state());
        }
        r
    }

    /// The number of blocks appended so far.
    pub fn get_index(&self) -> (r: usize)
        ensures
            r == self@.index,
    {
        self.index
    }

    /// The hash of the last block, if there is one.
    pub fn get_last_hash(&self) -> (r: Option<BlockHash>)
        ensures
            match r {
                Some(h) => self@.last_block_hash == Some(h@),
                None => self@.last_block_hash is None,
            },
    {
        match &self.last_block_hash {
            Some(h) => Some(h.clone()),
            None => None,
        }
    }

    /// The last block, if there is one.
    pub fn peek(&self) -> (r: Option<&Block>)
        ensures
            match r {
                Some(b) => self@.chain.len() > 0 && b@ == self@.chain.last(),
                None => self@.chain.len() == 0,
            },
    {
        let n = self.chain.len();
        if n == 0 {
            None
        } else {
            Some(&self.chain[n - 1])
        }
    }

    /// The blocks of the chain, oldest first.
    pub fn blocks(&self) -> (r: &Vec<Block>)
        ensures
            r.deep_view() == self@.chain,
    {
        &self.chain
    }

    /// Audits this chain in place; what `verify_integrity` holds a
    /// chain to.
    pub fn verify_integrity(&self) -> (r: Result<(), BlockchainErrors>)
        ensures
            r is Ok <==> chain_ok(self@.chain),
    {
        verify_integrity(&self.chain)
    }

    /// A block of the in-memory chain with the given hash string.
    pub fn get_block_with_hash(&self, hash: &String) -> (r: Option<&Block>)
        ensures
            match r {
                Some(b) => exists|i: int|
                    0 <= i < self@.chain.len() && #[trigger] self@.chain[i] == b@ && b@.hash.hash
                        == hash@,
                None => forall|i: int|
                    0 <= i < self@.chain.len() ==> (#[trigger] self@.chain[i]).hash.hash != hash@,
            },
    {
        let n = self.chain.len();
        let mut i: usize = 0;
        while i < n
            invariant
                n == self.chain.len(),
                i <= n,
                forall|j: int| 0 <= j < i ==> (#[trigger] self.chain.deep_view()[j]).hash.hash != hash@,
            decreases n - i,
        {
            if self.chain[i].hash.hash == *hash {
                proof {
                    assert(self@.chain[i as int] == self.chain@[i as int]@);
                }
                return Some(&self.chain[i]);
            }
            i = i + 1;
        }
        None
    }

    /// A block of the in-memory chain whose predecessor has the given
    /// hash string.
    pub fn get_block_with_prev_hash(&self, prev_hash: &String) -> (r: Option<&Block>)
        ensures
            match r {
                Some(b) => exists|i: int|
                    0 <= i < self@.chain.len() && #[trigger] self@.chain[i] == b@ && (
                    b@.previous_hash matches Some(p) && p.hash == prev_hash@),
                None => forall|i: int|
                    0 <= i < self@.chain.len() ==> !((#[trigger] self@.chain[i]).previous_hash
                        matches Some(p) && p.hash == prev_hash@),
            },
    {
        let n = self.chain.len();
        let mut i: usize = 0;
        while i < n
            invariant
                n == self.chain.len(),
                i <= n,
                forall|j: int|
                    0 <= j < i ==> !((#[trigger] self.chain.deep_view()[j]).previous_hash matches
                    Some(p) && p.hash == prev_hash@),
            decreases n - i,
        {
            match &self.chain[i].previous_hash {
                Some(p) => {
                    if p.hash == *prev_hash {
                        proof {
                            assert(self@.chain[i as int] == self.chain@[i as int]@);
                        }
                        return Some(&self.chain[i]);
                    }
                },
                None => {},
            }
            proof {
                assert(!((#[trigger] self.chain.deep_view()[i as int]).previous_hash matches Some(p)
                    && p.hash == prev_hash@));
            }
            i = i + 1;
        }
        None
    }
}

/// The append rule: the block continues the tail, comes from the
/// expected forger, is sound in itself, and every transaction of it
/// applies to the current chainstate; the chain also has room for one
/// more index.
pub open spec fn can_append(bc: BlockchainV, b: BlockV, expected: Option<Seq<u8>>) -> bool {
    &&& (match bc.last_block_hash {
        None => b.previous_hash is None,
        Some(h) => b.previous_hash == Some(h),
    })
    &&& (match expected {
        None => true,
        Some(k) => b.key == k,
    })
    &&& b.integrity_ok()
    &&& b.signed_by(b.key)
    &&& coinbase_ok(b)
    &&& txs_apply(bc.state, b.transactions)
    &&& (bc.chain.len() > 0 ==> b.key != bc.chain.last().key)
    &&& bc.chain.len() < usize::MAX - 1
}

/// Which check of the append rule failed first; the checks run in a
/// fixed order.
pub enum AppendFailure {
    /// The block does not continue the current tail.
    WrongPredecessor,
    /// The block does not come from the expected forger.
    WrongForger,
    /// The stored hash does not match the block's fields.
    WrongHash,
    /// The signature does not verify the hash under the forger key.
    WrongSignature,
    /// No single leading coinbase.
    CoinbaseShape,
    /// The leading coinbase does not reward the block's forger.
    WrongCoinbaseAddress,
    /// Some transaction fails its checks at its turn.
    TransactionRejected,
    /// The forger repeats the previous block's.
    RepeatedForger,
    /// The chain has no room for another index.
    ChainFull,
}

/// The checks that precede the coinbase walk.
pub open spec fn pre_coinbase_ok(bc: BlockchainV, b: BlockV, expected: Option<Seq<u8>>) -> bool {
    &&& (match bc.last_block_hash {
        None => b.previous_hash is None,
        Some(h) => b.previous_hash == Some(h),
    })
    &&& (match expected {
        None => true,
        Some(k) => b.key == k,
    })
    &&& b.integrity_ok()
    &&& b.signed_by(b.key)
}

/// The checks that precede the transaction walk.
pub open spec fn pre_txs_ok(bc: BlockchainV, b: BlockV, expected: Option<Seq<u8>>) -> bool {
    pre_coinbase_ok(bc, b, expected) && coinbase_ok(b)
}

/// The first check of the append rule that the block fails, if any.
pub open spec fn append_failure(bc: BlockchainV, b: BlockV, expected: Option<Seq<u8>>) -> Option<
    AppendFailure,
> {
    if !(match bc.last_block_hash {
        None => b.previous_hash is None,
        Some(h) => b.previous_hash == Some(h),
    }) {
        Some(AppendFailure::WrongPredecessor)
    } else if !(match expected {
        None => true,
        Some(k) => b.key == k,
    }) {
        Some(AppendFailure::WrongForger)
    } else if !b.integrity_ok() {
        Some(AppendFailure::WrongHash)
    } else if !b.signed_by(b.key) {
        Some(AppendFailure::WrongSignature)
    } else if b.transactions.len() == 0 || !(b.transactions[0] is Coinbase) {
        Some(AppendFailure::CoinbaseShape)
    } else if !(match b.transactions[0] {
        TxV::Coinbase { to, .. } => to == address_of(b.key),
        _ => false,
    }) {
        Some(AppendFailure::WrongCoinbaseAddress)
    } else if exists|i: int| 1 <= i < b.transactions.len() && #[trigger] b.transactions[i]
        is Coinbase {
        Some(AppendFailure::CoinbaseShape)
    } else if !txs_apply(bc.state, b.transactions) {
        Some(AppendFailure::TransactionRejected)
    } else if bc.chain.len() > 0 && b.key == bc.chain.last().key {
        Some(AppendFailure::RepeatedForger)
    } else if bc.chain.len() >= usize::MAX - 1 {
        Some(AppendFailure::ChainFull)
    } else {
        None
    }
}

/// Which error value names which failed check.
pub open spec fn append_error_matches(e: BlockchainErrors, f: AppendFailure) -> bool {
    match f {
        AppendFailure::WrongPredecessor => e matches BlockchainErrors::InvalidPrevioushHash(_, _),
        AppendFailure::WrongForger => e matches BlockchainErrors::InvalidBlockForger(_),
        AppendFailure::WrongHash => e matches BlockchainErrors::InvalidHash,
        AppendFailure::WrongSignature => e matches BlockchainErrors::InvalidSignature,
        AppendFailure::CoinbaseShape => e matches BlockchainErrors::MultipleCoinbase(_),
        AppendFailure::WrongCoinbaseAddress => e matches BlockchainErrors::InvalidCoinbaseAddress(
            _,
        ),
        AppendFailure::TransactionRejected => e matches BlockchainErrors::CouldntAddBlock(_),
        AppendFailure::RepeatedForger => e matches BlockchainErrors::InvalidBlockForger(_),
        AppendFailure::ChainFull => e matches BlockchainErrors::CouldntAddBlock(_),
    }
}

/// The key bytes an optional expected forger stands for.
pub open spec fn opt_key_view(k: Option<&Key>) -> Option<Seq<u8>> {
    match k {
        Some(k) => Some(k@),
        None => None,
    }
}

/// The block as it joins the chain: the same fields under its new index.
pub open spec fn appended_block(b: BlockV, idx: int) -> BlockV {
    BlockV { index: Some(idx as usize), ..b }
}

/// The chainstate after a block's transactions are committed: balances
/// and stakers move; the forger bookkeeping stays.
pub open spec fn committed_state(m: ChainstateV, txs: Seq<TxV>) -> ChainstateV {
    ChainstateV {
        addresses: m.apply_txs(txs).addresses,
        last_staking_addresses: m.apply_txs(txs).last_staking_addresses,
        ..m
    }
}

/// The spendability checks and effects of a transaction read only the
/// balances and the staker list, so two chainstates that agree there
/// apply a run of transactions alike.
proof fn lemma_apply_projects(m1: ChainstateV, m2: ChainstateV, tx: TxV)
    requires
        m1.addresses == m2.addresses,
        m1.last_staking_addresses == m2.last_staking_addresses,
    ensures
        m1.apply_tx(tx).addresses == m2.apply_tx(tx).addresses,
        m1.apply_tx(tx).last_staking_addresses == m2.apply_tx(tx).last_staking_addresses,
        m1.ammount_ok(tx) == m2.ammount_ok(tx),
        m1.history_ok(tx) == m2.history_ok(tx),
{
}

/// Applying transactions never touches the forger bookkeeping.
proof fn lemma_apply_txs_keeps_forgers(m: ChainstateV, txs: Seq<TxV>)
    ensures
        m.apply_txs(txs).recent_forgers == m.recent_forgers,
        m.apply_txs(txs).missed_forgers == m.missed_forgers,
        m.apply_txs(txs).last_forger_was_blocked == m.last_forger_was_blocked,
    decreases txs.len(),
{
    if txs.len() > 0 {
        lemma_apply_txs_keeps_forgers(m, txs.drop_last());
    }
}

/// The same, over a whole run.
proof fn lemma_txs_apply_projects(m1: ChainstateV, m2: ChainstateV, txs: Seq<TxV>)
    requires
        m1.addresses == m2.addresses,
        m1.last_staking_addresses == m2.last_staking_addresses,
    ensures
        txs_apply(m1, txs) == txs_apply(m2, txs),
        m1.apply_txs(txs).addresses == m2.apply_txs(txs).addresses,
        m1.apply_txs(txs).last_staking_addresses == m2.apply_txs(txs).last_staking_addresses,
    decreases txs.len(),
{
    if txs.len() > 0 {
        lemma_txs_apply_projects(m1, m2, txs.drop_last());
        lemma_apply_projects(m1.apply_txs(txs.drop_last()), m2.apply_txs(txs.drop_last()), txs.last());
    }
}

impl Blockchain {
    /// Appends a block to the chain. The checks run in a fixed order and
    /// the first failure names the error; on any failure the chain and
    /// its state are untouched.
    pub fn add_block(&mut self, block: &Block, expected_forger: Option<&Key>) -> (r: Result<
        (),
        BlockchainErrors,
    >)
        requires
            old(self).wf(),
        ensures
            final(self).wf(),
            r is Ok <==> can_append(old(self)@, block@, opt_key_view(expected_forger)),
            r is Ok ==> final(self)@.chain == old(self)@.chain.push(
                appended_block(block@, old(self)@.chain.len() + 1 as int),
            ),
            r is Ok ==> final(self)@.index == old(self)@.index + 1,
            r is Ok ==> final(self)@.last_block_hash == Some(block@.hash),
            r is Ok ==> final(self)@.state == committed_state(old(self)@.state, block@.transactions),
            r is Err ==> final(self)@ == old(self)@,
            match r {
                Ok(_) => append_failure(old(self)@, block@, opt_key_view(expected_forger)) is None,
                Err(e) => (append_failure(old(self)@, block@, opt_key_view(expected_forger))
                    matches Some(f) && append_error_matches(e, f)),
            },
    {
        let ghost bc0 = self@;
        let ghost exp = opt_key_view(expected_forger);
        // 1. The block must continue the current tail.
        match (&self.last_block_hash, &block.previous_hash) {
            (None, None) => {},
            (Some(h), Some(p)) => {
                if !(*p == *h) {
                    return Err(
                        BlockchainErrors::InvalidPrevioushHash(h.hash.clone(), p.hash.clone()),
                    );
                }
            },
            (Some(h), None) => {
                return Err(
                    BlockchainErrors::InvalidPrevioushHash(h.hash.clone(), String::new()),
                );
            },
            (None, Some(p)) => {
                return Err(
                    BlockchainErrors::InvalidPrevioushHash(String::new(), p.hash.clone()),
                );
            },
        }
        // 2. Only the elected forger may extend the chain.
        match expected_forger {
            Some(k) => {
                if !(block.key == *k) {
                    return Err(BlockchainErrors::InvalidBlockForger(block.hash.unite()));
                }
            },
            None => {},
        }
        // 3. The hash must match the fields and the signature the hash.
        if block.verify_integrity().is_err() {
            return Err(BlockchainErrors::InvalidHash);
        }
        let signer = crate::public_address::PublicAddress::from(&block.key);
        if !block.verify_sign_with(&signer) {
            return Err(BlockchainErrors::InvalidSignature);
        }
        // 4. A single coinbase leads the block and rewards its forger.
        if block.transactions.len() == 0 {
            return Err(BlockchainErrors::MultipleCoinbase(block.hash.unite()));
        }
        match &block.transactions[0] {
            Transaction::COINBASE { to_address, .. } => {
                let forger_address = block.key.hash_it();
                if !(*to_address == forger_address) {
                    return Err(
                        BlockchainErrors::InvalidCoinbaseAddress(block.transactions[0].get_hash()),
                    );
                }
            },
            _ => {
                return Err(BlockchainErrors::MultipleCoinbase(block.hash.unite()));
            },
        }
        let tx_count = block.transactions.len();
        let mut i: usize = 1;
        while i < tx_count
            invariant
                old(self).wf(),
                self == old(self),
                bc0 == old(self)@,
                exp == opt_key_view(expected_forger),
                pre_coinbase_ok(bc0, block@, exp),
                block@.transactions.len() > 0,
                block@.transactions[0] is Coinbase,
                (match block@.transactions[0] {
                    TxV::Coinbase { to, .. } => to == address_of(block@.key),
                    _ => false,
                }),
                tx_count == block.transactions.len(),
                1 <= i <= tx_count,
                forall|j: int|
                    1 <= j < i ==> !(#[trigger] block.transactions.deep_view()[j] is Coinbase),
            decreases tx_count - i,
        {
            match &block.transactions[i] {
                Transaction::COINBASE { .. } => {
                    proof {
                        assert(block@.transactions[i as int] is Coinbase);
                        assert(!coinbase_ok(block@));
                        assert(append_failure(bc0, block@, exp) == Some(
                            AppendFailure::CoinbaseShape,
                        ));
                    }
                    return Err(BlockchainErrors::MultipleCoinbase(block.transactions[i].get_hash()));
                },
                _ => {},
            }
            i = i + 1;
        }
        // 5. Every transaction must apply to a snapshot of the state.
        let mut snapshot = self.state.clone();
        let ghost txs = block.transactions.deep_view();
        let mut i: usize = 0;
        while i < tx_count
            invariant
                old(self).wf(),
                self == old(self),
                bc0 == old(self)@,
                exp == opt_key_view(expected_forger),
                pre_txs_ok(bc0, block@, exp),
                tx_count == block.transactions.len(),
                txs == block.transactions.deep_view(),
                i <= tx_count,
                snapshot.wf(),
                snapshot@ == bc0.state.apply_txs(txs.take(i as int)),
                txs_apply(bc0.state, txs.take(i as int)),
            decreases tx_count - i,
        {
            let tx = &block.transactions[i];
            let ok = tx.verify() && snapshot.verify_transaction_ammount(tx)
                && snapshot.verify_transaction_history(tx);
            if !ok {
                proof {
                    lemma_txs_apply_prefix_fails(bc0.state, txs, i as int);
                    assert(append_failure(bc0, block@, exp) == Some(
                        AppendFailure::TransactionRejected,
                    ));
                }
                return Err(BlockchainErrors::CouldntAddBlock(block.hash.unite()));
            }
            snapshot.effect_transaction(tx);
            proof {
                assert(txs.take(i + 1).drop_last() =~= txs.take(i as int));
                assert(txs.take(i + 1).last() == txs[i as int]);
            }
            i = i + 1;
        }
        proof {
            assert(txs.take(tx_count as int) =~= txs);
        }
        // 6. The forger must differ from the previous block's.
        let chain_len = self.chain.len();
        if chain_len > 0 {
            if self.chain[chain_len - 1].key == block.key {
                return Err(BlockchainErrors::InvalidBlockForger(block.hash.unite()));
            }
        }
        if chain_len >= usize::MAX - 1 {
            return Err(BlockchainErrors::CouldntAddBlock(block.hash.unite()));
        }
        // Commit: the snapshot becomes the state and the block joins the
        // chain under its new index.
        let mut appended = block.clone();
        appended.index = Some(self.index + 1);
        let ghost old_chain = self.chain.deep_view();
        self.state = snapshot;
        self.chain.push(appended);
        self.index = self.index + 1;
        self.last_block_hash = Some(block.hash.clone());
        proof {
            let new_chain = self.chain.deep_view();
            assert(old_chain == bc0.chain);
            assert(new_chain =~= old_chain.push(appended@));
            assert(new_chain.drop_last() =~= old_chain);
            assert(new_chain.last() == appended@);
            assert(appended@ == appended_block(block@, old_chain.len() + 1 as int));
            assert(appended@.transactions == txs);
            lemma_txs_apply_projects(bc0.state, replay(empty_state(), old_chain), txs);
            assert(txs_apply(replay(empty_state(), old_chain), txs));
            assert(chain_applies(new_chain));
            assert forall|j: int| 0 <= j < new_chain.len() implies #[trigger] block_ok_at(
                new_chain,
                j,
            ) by {
                if j < old_chain.len() {
                    assert(block_ok_at(old_chain, j));
                    assert(new_chain[j] == old_chain[j]);
                    if j > 0 {
                        assert(new_chain[j - 1] == old_chain[j - 1]);
                    }
                } else {
                    assert(new_chain[j] == appended@);
                }
            }
            assert(self@.state.addresses == bc0.state.apply_txs(txs).addresses);
            assert(replay(empty_state(), new_chain) == replay(empty_state(), old_chain).apply_txs(
                txs,
            ));
            assert(state_follows_chain(self@));
            lemma_apply_txs_keeps_forgers(bc0.state, txs);
            assert(self@.state =~= committed_state(bc0.state, block@.transactions));
        }
        Ok(())
    }
}

/// If a transaction of the run fails its checks at its turn, the whole
/// run does not apply.
pub proof fn lemma_txs_apply_prefix_fails(m: ChainstateV, txs: Seq<TxV>, i: int)
    requires
        0 <= i < txs.len(),
        !(txs[i].valid() && m.apply_txs(txs.take(i)).ammount_ok(txs[i]) && m.apply_txs(
            txs.take(i),
        ).history_ok(txs[i])),
    ensures
        !txs_apply(m, txs),
    decreases txs.len(),
{
    if txs.len() > 0 {
        if i == txs.len() - 1 {
            assert(txs.take(i) =~= txs.drop_last());
            assert(txs.last() == txs[i]);
        } else {
            assert(txs.drop_last()[i] == txs[i]);
            assert(txs.drop_last().take(i) =~= txs.take(i));
            lemma_txs_apply_prefix_fails(m, txs.drop_last(), i);
        }
    }
}

/// If some block's transactions fail at their turn, the whole chain does
/// not apply.
proof fn lemma_chain_applies_fails(chain: Seq<BlockV>, i: int)
    requires
        0 <= i < chain.len(),
        !txs_apply(replay(empty_state(), chain.take(i)), chain[i].transactions),
    ensures
        !chain_applies(chain),
    decreases chain.len(),
{
    if chain.len() > 0 {
        if i == chain.len() - 1 {
            assert(chain.take(i) =~= chain.drop_last());
        } else {
            assert(chain.drop_last()[i] == chain[i]);
            assert(chain.drop_last().take(i) =~= chain.take(i));
            lemma_chain_applies_fails(chain.drop_last(), i);
        }
    }
}

/// Audits a whole chain: every block sound in itself and against its
/// predecessor, and every transaction applying at its turn from the
/// empty chainstate. This is what a node runs over a persisted chain at
/// startup.
pub fn verify_integrity(chain: &Vec<Block>) -> (r: Result<(), BlockchainErrors>)
    ensures
        r is Ok <==> chain_ok(chain.deep_view()),
{
    let ghost cv = chain.deep_view();
    let n = chain.len();
    let mut i: usize = 0;
    while i < n
        invariant
            cv == chain.deep_view(),
            n == chain@.len(),
            i <= n,
            forall|j: int| 0 <= j < i ==> #[trigger] block_ok_at(cv, j),
        decreases n - i,
    {
        let block = &chain[i];
        proof {
            assert(block@ == cv[i as int]);
        }
        if block.verify_integrity().is_err() {
            proof {
                assert(!block_ok_at(cv, i as int));
            }
            return Err(BlockchainErrors::InvalidHash);
        }
        let signer = crate::public_address::PublicAddress::from(&block.key);
        if !block.verify_sign_with(&signer) {
            proof {
                assert(!block_ok_at(cv, i as int));
            }
            return Err(BlockchainErrors::InvalidSignature);
        }
        match block.index {
            Some(idx) => {
                if !(idx == i + 1) {
                    proof {
                        assert(!block_ok_at(cv, i as int));
                    }
                    return Err(BlockchainErrors::CouldntLoadBlock(block.hash.unite()));
                }
            },
            None => {
                proof {
                    assert(!block_ok_at(cv, i as int));
                }
                return Err(BlockchainErrors::CouldntLoadBlock(block.hash.unite()));
            },
        }
        if block.transactions.len() == 0 {
            proof {
                assert(!block_ok_at(cv, i as int));
            }
            return Err(BlockchainErrors::MultipleCoinbase(block.hash.unite()));
        }
        match &block.transactions[0] {
            Transaction::COINBASE { to_address, .. } => {
                let forger_address = block.key.hash_it();
                if !(*to_address == forger_address) {
                    proof {
                        assert(block@.transactions[0] is Coinbase);
                        assert(!block_ok_at(cv, i as int));
                    }
                    return Err(
                        BlockchainErrors::InvalidCoinbaseAddress(block.transactions[0].get_hash()),
                    );
                }
            },
            _ => {
                proof {
                    assert(!(block@.transactions[0] is Coinbase));
                    assert(!block_ok_at(cv, i as int));
                }
                return Err(BlockchainErrors::MultipleCoinbase(block.hash.unite()));
            },
        }
        let tx_count = block.transactions.len();
        let mut t: usize = 1;
        while t < tx_count
            invariant
                cv == chain.deep_view(),
                i < n,
                n == chain@.len(),
                block == &chain[i as int],
                block@ == cv[i as int],
                tx_count == block.transactions.len(),
                1 <= t <= tx_count,
                forall|j: int|
                    1 <= j < t ==> !(#[trigger] block.transactions.deep_view()[j] is Coinbase),
            decreases tx_count - t,
        {
            match &block.transactions[t] {
                Transaction::COINBASE { .. } => {
                    proof {
                        assert(block@.transactions[t as int] is Coinbase);
                        assert(!coinbase_ok(cv[i as int]));
                        assert(!block_ok_at(cv, i as int));
                    }
                    return Err(
                        BlockchainErrors::MultipleCoinbase(block.transactions[t].get_hash()),
                    );
                },
                _ => {},
            }
            t = t + 1;
        }
        if i > 0 {
            let previous = &chain[i - 1];
            proof {
                assert(previous@ == cv[i - 1]);
            }
            match &block.previous_hash {
                Some(p) => {
                    if !(*p == previous.hash) {
                        proof {
                            assert(!block_ok_at(cv, i as int));
                        }
                        return Err(
                            BlockchainErrors::InvalidPrevioushHash(
                                previous.hash.hash.clone(),
                                p.hash.clone(),
                            ),
                        );
                    }
                },
                None => {
                    proof {
                        assert(!block_ok_at(cv, i as int));
                    }
                    return Err(
                        BlockchainErrors::InvalidPrevioushHash(
                            previous.hash.hash.clone(),
                            String::new(),
                        ),
                    );
                },
            }
            if previous.key == block.key {
                proof {
                    assert(!block_ok_at(cv, i as int));
                }
                return Err(BlockchainErrors::InvalidBlockForger(block.hash.unite()));
            }
        } else {
            match &block.previous_hash {
                Some(p) => {
                    proof {
                        assert(!block_ok_at(cv, i as int));
                    }
                    return Err(
                        BlockchainErrors::InvalidPrevioushHash(String::new(), p.hash.clone()),
                    );
                },
                None => {},
            }
        }
        proof {
            assert(block_ok_at(cv, i as int));
        }
        i = i + 1;
    }
    // Replay every transaction from the empty chainstate.
    let mut state = Chainstate::new();
    let mut i: usize = 0;
    while i < n
        invariant
            cv == chain.deep_view(),
            n == chain@.len(),
            i <= n,
            state.wf(),
            state@ == replay(empty_state(), cv.take(i as int)),
            chain_applies(cv.take(i as int)),
        decreases n - i,
    {
        let block = &chain[i];
        proof {
            assert(block@ == cv[i as int]);
        }
        let ghost txs = block.transactions.deep_view();
        let ghost m0 = state@;
        let tx_count = block.transactions.len();
        let mut t: usize = 0;
        while t < tx_count
            invariant
                cv == chain.deep_view(),
                i < n,
                n == chain@.len(),
                block == &chain[i as int],
                block@ == cv[i as int],
                tx_count == block.transactions.len(),
                txs == block.transactions.deep_view(),
                t <= tx_count,
                state.wf(),
                state@ == m0.apply_txs(txs.take(t as int)),
                txs_apply(m0, txs.take(t as int)),
                m0 == replay(empty_state(), cv.take(i as int)),
                chain_applies(cv.take(i as int)),
            decreases tx_count - t,
        {
            let tx = &block.transactions[t];
            let ok = tx.verify() && state.verify_transaction_ammount(tx)
                && state.verify_transaction_history(tx);
            if !ok {
                proof {
                    lemma_txs_apply_prefix_fails(m0, txs, t as int);
                    lemma_chain_applies_fails(cv, i as int);
                }
                return Err(BlockchainErrors::CouldntAddBlock(block.hash.unite()));
            }
            state.effect_transaction(tx);
            proof {
                assert(txs.take(t + 1).drop_last() =~= txs.take(t as int));
                assert(txs.take(t + 1).last() == txs[t as int]);
            }
            t = t + 1;
        }
        proof {
            assert(txs.take(tx_count as int) =~= txs);
            assert(cv.take(i + 1).drop_last() =~= cv.take(i as int));
            assert(cv.take(i + 1).last() == cv[i as int]);
        }
        i = i + 1;
    }
    proof {
        assert(cv.take(n as int) =~= cv);
    }
    Ok(())
}

impl Blockchain {
    /// Rebuilds a chain from persisted blocks, auditing it first; the
    /// chainstate is replayed from the empty one.
    pub fn from_blocks(blocks: Vec<Block>) -> (r: Result<Blockchain, BlockchainErrors>)
        ensures
            r is Ok <==> chain_ok(blocks.deep_view()) && blocks@.len() < usize::MAX - 1,
            r matches Ok(bc) ==> bc.wf() && bc@.chain == blocks.deep_view(),
    {
        if verify_integrity(&blocks).is_err() {
            return Err(BlockchainErrors::InvalidHash);
        }
        let n = blocks.len();
        if n >= usize::MAX - 1 {
            return Err(BlockchainErrors::CouldntLoadBlock(String::new()));
        }
        let ghost cv = blocks.deep_view();
        let mut state = Chainstate::new();
        proof {
            assert(state@ =~= empty_state());
        }
        state.load_from_chain(&blocks);
        let last_block_hash = if n == 0 {
            None
        } else {
            Some(blocks[n - 1].hash.clone())
        };
        let bc = Blockchain { chain: blocks, index: n, last_block_hash, state };
        proof {
            assert(bc@.chain == cv);
        }
        Ok(bc)
    }
}

/// Puts persisted blocks back in index order: the block carrying index
/// `k` ends at position `k - 1`.
pub fn order_chain(chain: &Vec<Block>) -> (r: Vec<Block>)
    requires
        forall|j: int|
            0 <= j < chain@.len() ==> ((#[trigger] chain.deep_view()[j].index) matches Some(k)
                && 1 <= k <= chain@.len()),
        forall|j1: int, j2: int|
            0 <= j1 < j2 < chain@.len() ==> chain.deep_view()[j1].index
                != chain.deep_view()[j2].index,
    ensures
        r@.len() == chain@.len(),
        forall|j: int|
            0 <= j < chain@.len() ==> r.deep_view()[chain.deep_view()[j].index.unwrap() - 1]
                == #[trigger] chain.deep_view()[j],
{
    let ghost cv = chain.deep_view();
    let n = chain.len();
    let mut ordered: Vec<Block> = Vec::new();
    for i in 0..n
        invariant
            cv == chain.deep_view(),
            n == chain@.len(),
            ordered.deep_view() =~= cv.take(i as int),
    {
        let b = chain[i].clone();
        let ghost dv = ordered.deep_view();
        ordered.push(b);
        proof {
            assert(ordered.deep_view() =~= dv.push(b@));
            assert(dv.push(b@) =~= cv.take(i + 1));
        }
    }
    proof {
        assert(ordered.deep_view() =~= cv);
    }
    let mut j: usize = 0;
    while j < n
        invariant
            cv == chain.deep_view(),
            n == chain@.len(),
            j <= n,
            ordered@.len() == n,
            forall|p: int|
                0 <= p < j ==> ordered.deep_view()[cv[p].index.unwrap() - 1] == #[trigger] cv[p],
            forall|j2: int|
                0 <= j2 < n ==> ((#[trigger] cv[j2].index) matches Some(k) && 1 <= k <= n),
            forall|j1: int, j2: int| 0 <= j1 < j2 < n ==> cv[j1].index != cv[j2].index,
        decreases n - j,
    {
        let b = chain[j].clone();
        proof {
            assert(b@ == cv[j as int]);
        }
        let idx = match b.index {
            Some(idx) => idx,
            None => 1,
        };
        let ghost before = ordered.deep_view();
        ordered.set(idx - 1, b);
        proof {
            assert(ordered.deep_view() =~= before.update(idx - 1 as int, cv[j as int]));
            assert forall|p: int| 0 <= p < j + 1 implies ordered.deep_view()[cv[p].index.unwrap()
                - 1] == #[trigger] cv[p] by {
                if p < j {
                    assert(cv[p].index != cv[j as int].index);
                }
            }
        }
        j = j + 1;
    }
    ordered
}

/// Every transaction of a chain, block by block, in apply order.
pub open spec fn chain_txs(chain: Seq<BlockV>) -> Seq<TxV>
    decreases chain.len(),
{
    if chain.len() == 0 {
        Seq::empty()
    } else {
        chain_txs(chain.drop_last()) + chain.last().transactions
    }
}

/// Nonce monotonicity across a whole chain: for any address, the nonces
/// of its accepted movements and stakes, taken block by block from the
/// start, are exactly 0, 1, 2, ... with no gaps.
pub proof fn lemma_chain_nonce_monotonicity(bc: Blockchain, a: Seq<char>)
    requires
        bc.wf(),
    ensures
        forall|i: int|
            0 <= i < crate::chainstate::accepted_nonces(
                empty_state(),
                chain_txs(bc@.chain),
                a,
            ).len() ==> #[trigger] crate::chainstate::accepted_nonces(
                empty_state(),
                chain_txs(bc@.chain),
                a,
            )[i] == i,
{
    crate::chainstate::lemma_nonce_monotonicity(empty_state(), chain_txs(bc@.chain), a);
}

/// Every recent stake is a stake transaction whose origin is the hash
/// of its author's key.
pub open spec fn stakes_consistent(stakes: Seq<TxV>) -> bool {
    forall|i: int|
        0 <= i < stakes.len() ==> (match #[trigger] stakes[i] {
            TxV::Stake { author, from, .. } => from == address_of(author),
            _ => false,
        })
}

/// Applying one self-consistent transaction keeps the staker list
/// self-consistent.
proof fn lemma_apply_tx_stakes(m: ChainstateV, tx: TxV)
    requires
        stakes_consistent(m.last_staking_addresses),
        tx.valid(),
    ensures
        stakes_consistent(m.apply_tx(tx).last_staking_addresses),
{
    match tx {
        TxV::Stake { from, ammount, history, .. } => {
            if crate::chainstate::spend_guard(m.addresses, from, ammount, history) {
                let pushed = m.last_staking_addresses.push(tx);
                assert forall|i: int| 0 <= i < pushed.len() implies (match #[trigger] pushed[i] {
                    TxV::Stake { author, from, .. } => from == address_of(author),
                    _ => false,
                }) by {
                    if i < m.last_staking_addresses.len() {
                        assert(pushed[i] == m.last_staking_addresses[i]);
                    } else {
                        assert(pushed[i] == tx);
                    }
                }
                if m.last_staking_addresses.len() + 1 > crate::chainstate::RECENT_STAKE_WINDOW {
                    assert forall|i: int|
                        0 <= i < pushed.drop_first().len() implies (
                    match #[trigger] pushed.drop_first()[i] {
                        TxV::Stake { author, from, .. } => from == address_of(author),
                        _ => false,
                    }) by {
                        assert(pushed.drop_first()[i] == pushed[i + 1]);
                    }
                }
            }
        },
        _ => {},
    }
}

/// A run of transactions that applies keeps the staker list
/// self-consistent.
proof fn lemma_txs_apply_stakes(m: ChainstateV, txs: Seq<TxV>)
    requires
        stakes_consistent(m.last_staking_addresses),
        txs_apply(m, txs),
    ensures
        stakes_consistent(m.apply_txs(txs).last_staking_addresses),
    decreases txs.len(),
{
    if txs.len() > 0 {
        lemma_txs_apply_stakes(m, txs.drop_last());
        lemma_apply_tx_stakes(m.apply_txs(txs.drop_last()), txs.last());
    }
}

/// Replaying a chain whose transactions all apply leaves a
/// self-consistent staker list.
proof fn lemma_chain_stakes_consistent(chain: Seq<BlockV>)
    requires
        chain_applies(chain),
    ensures
        stakes_consistent(replay(empty_state(), chain).last_staking_addresses),
    decreases chain.len(),
{
    if chain.len() > 0 {
        lemma_chain_stakes_consistent(chain.drop_last());
        lemma_txs_apply_stakes(
            replay(empty_state(), chain.drop_last()),
            chain.last().transactions,
        );
    }
}

/// In a well-formed chain, every recent stake is a stake transaction
/// whose origin is the hash of its author's key: the election can read
/// a winner's address off its key.
pub proof fn lemma_wf_stakes_consistent(bc: Blockchain)
    requires
        bc.wf(),
    ensures
        stakes_consistent(bc@.state.last_staking_addresses),
{
    lemma_chain_stakes_consistent(bc@.chain);
}

/// Integrity closure: any chain reached by legal appends passes the full
/// audit that `verify_integrity` runs over it.
pub proof fn lemma_integrity_closure(bc: Blockchain)
    requires
        bc.wf(),
    ensures
        chain_ok(bc@.chain),
{
}

/// Every block of a well-formed chain has exactly one coinbase: it
/// leads the block and rewards the block's forger.
pub proof fn lemma_single_coinbase(bc: Blockchain, i: int)
    requires
        bc.wf(),
        0 <= i < bc@.chain.len(),
    ensures
        bc@.chain[i].transactions.len() > 0,
        bc@.chain[i].transactions[0] is Coinbase,
        (match bc@.chain[i].transactions[0] {
            TxV::Coinbase { to, .. } => to == address_of(bc@.chain[i].key),
            _ => false,
        }),
        forall|t: int|
            1 <= t < bc@.chain[i].transactions.len() ==> !(#[trigger] bc@.chain[i].transactions[t]
                is Coinbase),
{
    assert(block_ok_at(bc@.chain, i));
}

/// No back-to-back forging: adjacent blocks of a well-formed chain come
/// from different forger keys.
pub proof fn lemma_no_back_to_back(bc: Blockchain, i: int)
    requires
        bc.wf(),
        1 <= i < bc@.chain.len(),
    ensures
        bc@.chain[i].key != bc@.chain[i - 1].key,
{
    assert(block_ok_at(bc@.chain, i));
}

} // verus!
