//! The node's decision core: transaction admission, block forging, block
//! intake with the lost-block buffer, and forger-liveness enforcement.
//! Everything here is a function from state and event to state and
//! actions; the network and the clock stay outside.

use vstd::prelude::*;

use crate::block::Block;
use crate::block_chain::{appended_block, can_append, Blockchain};
use crate::block_builder::BlockBuilder;
use crate::chainstate::ChainstateV;
use crate::errors::{BlockchainErrors, TxError};
use crate::key::{address_of, Key};
use crate::mempool::{has_hash, push_seen, upsert_pending, Mempool, MempoolV};
use crate::transaction::{Transaction, TxV};
use crate::transaction_builder::{TransactionBuilder, TransactionType};
use crate::wallet::Wallet;

verus! {

/// How long a forger may take before it is punished, in milliseconds.
pub const BLOCK_TIME_MAX: u64 = 5000;

/// How many pending transactions a block waits for.
pub const MINIMUM_MEMPOOL_SIZE: usize = 100;

/// How many transactions are gossiped as one chunk.
pub const TRANSACTIONS_CHUNK_SIZE: usize = 4;

/// The coinbase reward a forged block mints.
pub const BLOCK_REWARD: u64 = 10;

/// The key bytes a cached next-forger stands for.
pub open spec fn forger_view(k: Option<Key>) -> Option<Seq<u8>> {
    match k {
        Some(k) => Some(k@),
        None => None,
    }
}

/// The coinbase a forged block leads with: the reward, minted to the
/// forger's address, under its canonical hash.
pub open spec fn reward_coinbase(pk: Seq<u8>) -> TxV {
    TxV::Coinbase {
        to: address_of(pk),
        ammount: BLOCK_REWARD,
        hash: crate::digest::digest_of(
            address_of(pk) + crate::text::dec_of(BLOCK_REWARD as nat),
        ),
    }
}

/// Forging is due for these parts: enough transactions wait, the
/// election named this wallet, and its nonce has room for the reward.
pub open spec fn forging_due_for(
    pending: Seq<TxV>,
    next_forger: Option<Key>,
    wallet: Wallet,
) -> bool {
    &&& pending.len() > MINIMUM_MEMPOOL_SIZE
    &&& (next_forger matches Some(k) && k@ == wallet.spec_public())
    &&& wallet.spec_history() < u64::MAX
}

/// The sifting a forging pass performs over these parts.
pub open spec fn planned_sift_for(
    pending: Seq<TxV>,
    bc: crate::block_chain::BlockchainV,
) -> crate::mempool::Sifted {
    crate::mempool::sift(bc.state, crate::mempool::sort_txs(pending))
}

/// The transactions a block forged from these parts would carry.
pub open spec fn planned_txs_for(
    pending: Seq<TxV>,
    bc: crate::block_chain::BlockchainV,
    wallet: Wallet,
) -> Seq<TxV> {
    seq![reward_coinbase(wallet.spec_public())] + planned_sift_for(pending, bc).ok
}

/// The hash of the block forged from these parts.
pub open spec fn planned_hash_for(
    pending: Seq<TxV>,
    bc: crate::block_chain::BlockchainV,
    wallet: Wallet,
    timestamp: u64,
) -> crate::block_hash::BlockHashV {
    crate::block_hash::block_hash_of(
        planned_txs_for(pending, bc, wallet),
        timestamp,
        wallet.spec_public(),
        bc.last_block_hash,
    )
}

/// The signature draw over that hash.
pub open spec fn planned_signature_for(
    pending: Seq<TxV>,
    bc: crate::block_chain::BlockchainV,
    wallet: Wallet,
    timestamp: u64,
) -> Option<Seq<u8>> {
    crate::sig::sign_of(
        wallet.spec_secret(),
        crate::block_hash::unite_of(planned_hash_for(pending, bc, wallet, timestamp)),
    )
}

/// The block forged from these parts, signature included (meaningful
/// when the signature draw succeeds).
pub open spec fn planned_block_for(
    pending: Seq<TxV>,
    bc: crate::block_chain::BlockchainV,
    wallet: Wallet,
    timestamp: u64,
) -> crate::block::BlockV {
    crate::block::BlockV {
        hash: planned_hash_for(pending, bc, wallet, timestamp),
        previous_hash: bc.last_block_hash,
        timestamp,
        transactions: planned_txs_for(pending, bc, wallet),
        key: wallet.spec_public(),
        signature: (match planned_signature_for(pending, bc, wallet, timestamp) {
            Some(sg) => sg,
            None => Seq::empty(),
        }),
        index: None,
    }
}

/// Admission accepts a transaction that was not seen before, passes its
/// self-checks, and can be covered by its origin's balance.
pub open spec fn admits(m: MempoolV, cs: ChainstateV, tx: TxV) -> bool {
    !m.cached.contains(tx.hash()) && tx.valid() && cs.ammount_ok(tx)
}

/// What admission does to the pool: a replay is dropped silently, a bad
/// transaction is rejected, and an admitted one joins the pending set,
/// the seen cache and the gossip chunk.
pub open spec fn admit_step(m: MempoolV, cs: ChainstateV, tx: TxV) -> MempoolV {
    if m.cached.contains(tx.hash()) {
        m
    } else if tx.valid() && cs.ammount_ok(tx) {
        MempoolV {
            pending: upsert_pending(m.pending, tx),
            cached: push_seen(m.cached, tx.hash()),
            chunked: m.chunked.push(tx),
        }
    } else {
        m
    }
}

/// What one admission pass decided: the admission verdict, a gossip
/// batch ready to send, a freshly forged block to broadcast, and
/// whether the elected forger was punished for missing its slot.
pub struct TransactionOutcome {
    pub admitted: Result<(), TxError>,
    pub batch: Option<Vec<Transaction>>,
    pub forged: Option<Block>,
    pub punished: bool,
}

/// The block still waits in the buffer, or stands on the chain under
/// some index.
pub open spec fn block_kept(b: crate::block::BlockV, lost: Seq<crate::block::BlockV>, chain: Seq<
    crate::block::BlockV,
>) -> bool {
    lost.contains(b) || exists|k: int|
        0 <= k < chain.len() && #[trigger] chain[k] == crate::block_chain::appended_block(b, k + 1)
}

/// Every punishment on record was earned at the current chain height:
/// what the forgiveness sweep after an append leaves behind.
pub open spec fn punishments_swept(bc: crate::block_chain::BlockchainV) -> bool {
    forall|k: Seq<char>| #[trigger]
        bc.state.missed_forgers.contains_key(k) ==> bc.state.missed_forgers[k] >= bc.index as u64
}

/// What became of an incoming block.
#[derive(Debug, PartialEq, Eq, Structural)]
pub enum BlockStatus {
    /// The block continued the chain.
    Appended,
    /// The block's predecessor is missing; it waits in the lost-block
    /// buffer while the peers are asked for the predecessor.
    Parked,
    /// The block is invalid against the current chain and was dropped.
    Rejected,
}

/// The replicated state one node holds, with the actions it decides on.
pub struct NodeState {
    /// The chain of blocks.
    pub blockchain: Blockchain,
    /// Blocks whose predecessor has not arrived yet.
    pub lost_blocks: Vec<Block>,
    /// The node's memory pool.
    pub mempool: Mempool,
    /// The node's own wallet.
    pub wallet: Wallet,
    /// The node's identifier.
    pub id: u16,
    /// The forger the election chose for the next slot.
    pub next_forger: Option<Key>,
}

impl NodeState {
    /// The chain and the pool are well formed.
    pub open spec fn wf(self) -> bool {
        self.blockchain.wf() && self.mempool.wf()
    }

    /// A fresh node over a chain and a wallet.
    pub fn new(blockchain: Blockchain, wallet: Wallet, id: u16) -> (r: Self)
        requires
            blockchain.wf(),
        ensures
            r.wf(),
            r.blockchain == blockchain,
            r.lost_blocks@.len() == 0,
            r.next_forger is None,
    {
        NodeState {
            blockchain,
            lost_blocks: Vec::new(),
            mempool: Mempool::new(),
            wallet,
            id,
            next_forger: None,
        }
    }

    /// Runs the election over the current chain and caches the winner as
    /// the next forger.
    pub fn elect_new_forger(&mut self)
        requires
            old(self).wf(),
        ensures
            final(self).wf(),
            final(self).blockchain@.chain == old(self).blockchain@.chain,
            final(self).blockchain@.index == old(self).blockchain@.index,
            final(self).blockchain@.last_block_hash == old(self).blockchain@.last_block_hash,
            final(self).blockchain@.state.addresses == old(self).blockchain@.state.addresses,
            final(self).blockchain@.state.last_staking_addresses == old(
                self,
            ).blockchain@.state.last_staking_addresses,
            final(self).blockchain@.state.missed_forgers == old(
                self,
            ).blockchain@.state.missed_forgers,
            final(self).blockchain@.state.last_forger_was_blocked == old(
                self,
            ).blockchain@.state.last_forger_was_blocked,
            final(self).mempool == old(self).mempool,
            final(self).lost_blocks == old(self).lost_blocks,
            final(self).wallet == old(self).wallet,
            match final(self).next_forger {
                Some(key) => old(self).blockchain@.chain.len() > 0 && (crate::consensus::elect_spec(
                    old(self).blockchain@.state,
                    old(self).blockchain@.chain.last().hash.hash,
                ) matches Some(s) && (match s {
                    TxV::Stake { author, .. } => key@ == author,
                    _ => false,
                })),
                None => old(self).blockchain@.chain.len() == 0 || crate::consensus::elect_spec(
                    old(self).blockchain@.state,
                    old(self).blockchain@.chain.last().hash.hash,
                ) is None,
            },
    {
        match crate::consensus::elect_new_forger(&mut self.blockchain) {
            Ok(key) => {
                self.next_forger = Some(key);
            },
            Err(_) => {
                self.next_forger = None;
            },
        }
    }

    /// Admits one transaction into the pool, as the gossip and RPC
    /// handlers do: a replay is dropped, a bad transaction rejected with
    /// its reason, and a sound, covered one joins the pool and the next
    /// gossip chunk.
    pub fn admit_transaction(&mut self, transaction: &Transaction) -> (r: Result<(), TxError>)
        requires
            old(self).wf(),
        ensures
            final(self).wf(),
            final(self).blockchain == old(self).blockchain,
            final(self).lost_blocks == old(self).lost_blocks,
            final(self).wallet == old(self).wallet,
            final(self).next_forger == old(self).next_forger,
            final(self).mempool@ == old(self).admitted_pool(transaction@),
            r is Ok <==> admits(old(self).mempool@, old(self).blockchain@.state, transaction@),
            r == Result::<(), TxError>::Err(TxError::DuplicateSeen) <==> old(
                self,
            ).mempool@.cached.contains(transaction@.hash()),
            r == Result::<(), TxError>::Err(TxError::InsufficientFunds) <==> !old(
                self,
            ).mempool@.cached.contains(transaction@.hash()) && transaction@.valid() && !old(
                self,
            ).blockchain@.state.ammount_ok(transaction@),
            !old(self).mempool@.cached.contains(transaction@.hash()) && !transaction@.valid()
                ==> (r matches Err(e) && (e == TxError::BadSignature || e == TxError::AddressMismatch
                || e == TxError::HashMismatch)),
    {
        if self.mempool.is_transaction_cached(transaction) {
            return Err(TxError::DuplicateSeen);
        }
        if let Err(e) = transaction.check() {
            return Err(e);
        }
        if !self.blockchain.state.verify_transaction_ammount(transaction) {
            return Err(TxError::InsufficientFunds);
        }
        self.mempool.add_transaction(transaction);
        self.mempool.push_chunk(transaction);
        Ok(())
    }

    /// Hands out the gossip chunk once it crossed the threshold.
    pub fn take_gossip_batch(&mut self) -> (r: Option<Vec<Transaction>>)
        requires
            old(self).wf(),
        ensures
            final(self).wf(),
            final(self).blockchain == old(self).blockchain,
            final(self).lost_blocks == old(self).lost_blocks,
            final(self).wallet == old(self).wallet,
            final(self).next_forger == old(self).next_forger,
            r is Some <==> old(self).mempool@.chunked.len() > TRANSACTIONS_CHUNK_SIZE,
            r matches Some(batch) ==> batch.deep_view() == old(self).mempool@.chunked,
            r is Some ==> final(self).mempool@.chunked == Seq::<TxV>::empty(),
            r is Some ==> final(self).mempool@.pending == old(self).mempool@.pending,
            r is Some ==> final(self).mempool@.cached == old(self).mempool@.cached,
            r is None ==> final(self).mempool == old(self).mempool,
    {
        if self.mempool.chunk_len() > TRANSACTIONS_CHUNK_SIZE {
            Some(self.mempool.take_chunk())
        } else {
            None
        }
    }

    /// The pool as it stands right after this transaction's admission.
    pub open spec fn admitted_pool(self, tx: TxV) -> MempoolV {
        admit_step(self.mempool@, self.blockchain@.state, tx)
    }

    /// Forging is due: enough transactions wait, the election named this
    /// node, and the wallet's nonce has room for the reward transaction.
    pub open spec fn forging_due(self) -> bool {
        forging_due_for(self.mempool@.pending, self.next_forger, self.wallet)
    }

    /// The sifting of the pool a forging pass performs: pending
    /// transactions in nonce order, walked against the current state.
    pub open spec fn planned_sift(self) -> crate::mempool::Sifted {
        planned_sift_for(self.mempool@.pending, self.blockchain@)
    }

    /// The transactions a forged block would carry: the coinbase reward
    /// to this node, then the sifted pending transactions.
    pub open spec fn planned_txs(self) -> Seq<TxV> {
        planned_txs_for(self.mempool@.pending, self.blockchain@, self.wallet)
    }

    /// The hash of the block a forging pass would build now.
    pub open spec fn planned_hash(self, timestamp: u64) -> crate::block_hash::BlockHashV {
        planned_hash_for(self.mempool@.pending, self.blockchain@, self.wallet, timestamp)
    }

    /// The block a forging pass would build now, signature included
    /// (meaningful when the signature draw succeeds).
    pub open spec fn planned_block(self, timestamp: u64) -> crate::block::BlockV {
        planned_block_for(self.mempool@.pending, self.blockchain@, self.wallet, timestamp)
    }

    /// The signature draw a forging pass makes over the planned hash.
    pub open spec fn planned_signature(self, timestamp: u64) -> Option<Seq<u8>> {
        planned_signature_for(self.mempool@.pending, self.blockchain@, self.wallet, timestamp)
    }

    /// The bookkeeping after any successful append: punished forgers
    /// whose index lies behind the chain are forgiven, the missed-slot
    /// flag clears, the appended transactions leave the pool, and the
    /// election runs again.
    fn after_append(&mut self, appended: &Vec<Transaction>)
        requires
            old(self).wf(),
        ensures
            final(self).wf(),
            final(self).blockchain@.chain == old(self).blockchain@.chain,
            final(self).blockchain@.index == old(self).blockchain@.index,
            final(self).blockchain@.last_block_hash == old(self).blockchain@.last_block_hash,
            final(self).blockchain@.state.addresses == old(self).blockchain@.state.addresses,
            final(self).blockchain@.state.last_staking_addresses == old(
                self,
            ).blockchain@.state.last_staking_addresses,
            !final(self).blockchain@.state.last_forger_was_blocked,
            final(self).lost_blocks == old(self).lost_blocks,
            final(self).wallet == old(self).wallet,
            final(self).mempool@.pending == old(self).mempool@.pending.filter(
                |t: TxV| !has_hash(appended.deep_view(), t.hash()),
            ),
            forall|k: Seq<char>|
                final(self).blockchain@.state.missed_forgers.contains_key(k) <==> (
                #[trigger] old(self).blockchain@.state.missed_forgers.contains_key(k) && old(
                    self,
                ).blockchain@.state.missed_forgers[k] >= old(self).blockchain@.index),
            punishments_swept(final(self).blockchain@),
    {
        let index = self.blockchain.get_index();
        self.blockchain.state.forgive_expired(index as u64);
        self.blockchain.state.set_last_forger_blocked(false);
        self.mempool.remove_transactions_in(appended);
        self.elect_new_forger();
        proof {
            assert forall|k: Seq<char>| #[trigger] self.blockchain@.state.missed_forgers.contains_key(
                k,
            ) implies self.blockchain@.state.missed_forgers[k] >= self.blockchain@.index as u64 by {
                assert(old(self).blockchain@.state.missed_forgers.contains_key(k));
            }
        }
    }

    /// Takes a block in from a peer: appended when it continues the
    /// chain under the elected forger; parked when only its predecessor
    /// is missing (the caller then asks the peers for it); dropped
    /// otherwise. Either way the lost-block buffer is drained as far as
    /// it goes.
    pub fn add_block(&mut self, block: &Block) -> (r: BlockStatus)
        requires
            old(self).wf(),
        ensures
            final(self).wf(),
            r == BlockStatus::Appended <==> can_append(
                old(self).blockchain@,
                block@,
                forger_view(old(self).next_forger),
            ),
            r == BlockStatus::Parked <==> crate::block_chain::append_failure(
                old(self).blockchain@,
                block@,
                forger_view(old(self).next_forger),
            ) == Some(crate::block_chain::AppendFailure::WrongPredecessor),
            r == BlockStatus::Parked ==> (exists|q: int|
                0 <= q < final(self).lost_blocks@.len() && (
                #[trigger] final(self).lost_blocks.deep_view()[q]).hash.hash == block@.hash.hash)
                || (exists|k: int|
                0 <= k < final(self).blockchain@.chain.len() && (
                #[trigger] final(self).blockchain@.chain[k]).hash.hash == block@.hash.hash),
            old(self).blockchain@.chain.is_prefix_of(final(self).blockchain@.chain),
            r == BlockStatus::Appended
                ==> !final(self).blockchain@.state.last_forger_was_blocked && punishments_swept(
                final(self).blockchain@,
            ),
            r == BlockStatus::Appended ==> final(self).blockchain@.chain.len() > old(
                self,
            ).blockchain@.chain.len(),
            r == BlockStatus::Appended ==> final(self).blockchain@.chain[old(
                self,
            ).blockchain@.chain.len() as int] == crate::block_chain::appended_block(
                block@,
                old(self).blockchain@.chain.len() + 1 as int,
            ),
            forall|i: int|
                0 <= i < final(self).lost_blocks@.len() ==> !can_append(
                    final(self).blockchain@,
                    #[trigger] final(self).lost_blocks.deep_view()[i],
                    forger_view(final(self).next_forger),
                ),
            final(self).wallet == old(self).wallet,
    {
        let expected = match &self.next_forger {
            Some(k) => Some(k),
            None => None,
        };
        let ghost bc0 = self.blockchain@;
        let ghost expv = forger_view(self.next_forger);
        let ghost chain0 = self.blockchain@.chain;
        proof {
            assert(crate::block_chain::opt_key_view(expected) == expv);
        }
        let ghost failure = crate::block_chain::append_failure(bc0, block@, expv);
        let status = match self.blockchain.add_block(block, expected) {
            Ok(_) => {
                self.after_append(&block.transactions);
                BlockStatus::Appended
            },
            Err(BlockchainErrors::InvalidPrevioushHash(_, _)) => {
                proof {
                    assert(failure == Some(crate::block_chain::AppendFailure::WrongPredecessor));
                }
                let mut already = false;
                let ghost frozen = *self;
                let n = self.lost_blocks.len();
                let mut i: usize = 0;
                let mut hash_at: usize = 0;
                while i < n
                    invariant
                        *self == frozen,
                        self.wf(),
                        n == self.lost_blocks@.len(),
                        i <= n,
                        already ==> hash_at < n && self.lost_blocks.deep_view()[hash_at as int].hash.hash
                            == block@.hash.hash,
                    decreases n - i,
                {
                    if self.lost_blocks[i].hash.hash == block.hash.hash {
                        already = true;
                        hash_at = i;
                    }
                    i = i + 1;
                }
                if !already {
                    let ghost lost_pre = self.lost_blocks.deep_view();
                    self.lost_blocks.push(block.clone());
                    proof {
                        assert(self.lost_blocks.deep_view() =~= lost_pre.push(block@));
                        assert(self.lost_blocks.deep_view()[lost_pre.len() as int] == block@);
                    }
                }
                proof {
                    assert(exists|q: int|
                        0 <= q < self.lost_blocks@.len()
                            && (#[trigger] self.lost_blocks.deep_view()[q]).hash.hash
                            == block@.hash.hash);
                }
                BlockStatus::Parked
            },
            Err(_) => {
                proof {
                    assert(failure is Some);
                    assert(failure != Some(crate::block_chain::AppendFailure::WrongPredecessor));
                }
                BlockStatus::Rejected
            },
        };
        let ghost chain_mid = self.blockchain@.chain;
        let ghost lost_mid = self.lost_blocks.deep_view();
        self.drain_lost_blocks();
        proof {
            assert(chain0.is_prefix_of(chain_mid)) by {
                if status == BlockStatus::Appended {
                    assert(chain_mid.subrange(0, chain0.len() as int) =~= chain0);
                } else {
                    assert(chain_mid =~= chain0);
                }
            }
            assert(chain0.is_prefix_of(self.blockchain@.chain)) by {
                assert forall|j: int| 0 <= j < chain0.len() implies self.blockchain@.chain[j]
                    == chain0[j] by {
                    assert(self.blockchain@.chain.subrange(0, chain_mid.len() as int)[j]
                        == self.blockchain@.chain[j]);
                    assert(chain_mid.subrange(0, chain0.len() as int)[j] == chain_mid[j]);
                }
                assert(self.blockchain@.chain.subrange(0, chain0.len() as int) =~= chain0);
            }
            if status == BlockStatus::Appended {
                assert(chain_mid == chain0.push(
                    crate::block_chain::appended_block(block@, chain0.len() + 1 as int),
                ));
                assert(self.blockchain@.chain[chain0.len() as int] == chain_mid[chain0.len() as int]);
            }
            if status == BlockStatus::Parked {
                let q = choose|q: int|
                    0 <= q < lost_mid.len() && (#[trigger] lost_mid[q]).hash.hash
                        == block@.hash.hash;
                assert(block_kept(lost_mid[q], self.lost_blocks.deep_view(), self.blockchain@.chain));
                if self.lost_blocks.deep_view().contains(lost_mid[q]) {
                    let q2 = choose|q2: int|
                        0 <= q2 < self.lost_blocks.deep_view().len()
                            && self.lost_blocks.deep_view()[q2] == lost_mid[q];
                    assert((self.lost_blocks.deep_view()[q2]).hash.hash == block@.hash.hash);
                } else {
                    let k = choose|k: int|
                        0 <= k < self.blockchain@.chain.len() && #[trigger] self.blockchain@.chain[k]
                            == crate::block_chain::appended_block(lost_mid[q], k + 1);
                    assert((self.blockchain@.chain[k]).hash.hash == block@.hash.hash);
                }
            }
        }
        status
    }

    /// Appends every parked block that continues the chain, in as many
    /// sweeps as it takes. Every block that was parked either joined the
    /// chain or still waits; what remains cannot extend the chain as it
    /// now stands.
    pub fn drain_lost_blocks(&mut self)
        requires
            old(self).wf(),
        ensures
            final(self).wf(),
            final(self).wallet == old(self).wallet,
            old(self).blockchain@.chain.is_prefix_of(final(self).blockchain@.chain),
            forall|i: int|
                0 <= i < final(self).lost_blocks@.len() ==> !can_append(
                    final(self).blockchain@,
                    #[trigger] final(self).lost_blocks.deep_view()[i],
                    forger_view(final(self).next_forger),
                ),
            forall|i: int|
                0 <= i < old(self).lost_blocks@.len() ==> block_kept(
                    #[trigger] old(self).lost_blocks.deep_view()[i],
                    final(self).lost_blocks.deep_view(),
                    final(self).blockchain@.chain,
                ),
            punishments_swept(old(self).blockchain@) ==> punishments_swept(
                final(self).blockchain@,
            ),
            !old(self).blockchain@.state.last_forger_was_blocked
                ==> !final(self).blockchain@.state.last_forger_was_blocked,
    {
        let mut progressed = true;
        proof {
            assert(self.blockchain@.chain.is_prefix_of(self.blockchain@.chain));
            assert forall|p: int| 0 <= p < old(self).lost_blocks@.len() implies block_kept(
                #[trigger] old(self).lost_blocks.deep_view()[p],
                self.lost_blocks.deep_view(),
                self.blockchain@.chain,
            ) by {
                assert(self.lost_blocks.deep_view().contains(old(self).lost_blocks.deep_view()[p]));
            }
        }
        while progressed
            invariant
                self.wf(),
                self.wallet == old(self).wallet,
                old(self).blockchain@.chain.is_prefix_of(self.blockchain@.chain),
                forall|p: int|
                    0 <= p < old(self).lost_blocks@.len() ==> block_kept(
                        #[trigger] old(self).lost_blocks.deep_view()[p],
                        self.lost_blocks.deep_view(),
                        self.blockchain@.chain,
                    ),
                punishments_swept(old(self).blockchain@) ==> punishments_swept(self.blockchain@),
                !old(self).blockchain@.state.last_forger_was_blocked
                    ==> !self.blockchain@.state.last_forger_was_blocked,
                !progressed ==> forall|i: int|
                    0 <= i < self.lost_blocks@.len() ==> !can_append(
                        self.blockchain@,
                        #[trigger] self.lost_blocks.deep_view()[i],
                        forger_view(self.next_forger),
                    ),
            decreases self.lost_blocks@.len() + (if progressed {
                1int
            } else {
                0int
            }),
        {
            progressed = false;
            let n = self.lost_blocks.len();
            let mut i: usize = 0;
            while i < n && !progressed
                invariant
                    self.wf(),
                    self.wallet == old(self).wallet,
                    old(self).blockchain@.chain.is_prefix_of(self.blockchain@.chain),
                    forall|p: int|
                        0 <= p < old(self).lost_blocks@.len() ==> block_kept(
                            #[trigger] old(self).lost_blocks.deep_view()[p],
                            self.lost_blocks.deep_view(),
                            self.blockchain@.chain,
                        ),
                    punishments_swept(old(self).blockchain@) ==> punishments_swept(
                        self.blockchain@,
                    ),
                    !old(self).blockchain@.state.last_forger_was_blocked
                        ==> !self.blockchain@.state.last_forger_was_blocked,
                    !progressed ==> n == self.lost_blocks@.len(),
                    !progressed ==> i <= n,
                    !progressed ==> forall|j: int|
                        0 <= j < i ==> !can_append(
                            self.blockchain@,
                            #[trigger] self.lost_blocks.deep_view()[j],
                            forger_view(self.next_forger),
                        ),
                    progressed ==> self.lost_blocks@.len() < n,
                decreases n - i,
            {
                let candidate = self.lost_blocks[i].clone();
                let expected = match &self.next_forger {
                    Some(k) => Some(k),
                    None => None,
                };
                let ghost chain_before = self.blockchain@.chain;
                let ghost lost_before = self.lost_blocks.deep_view();
                match self.blockchain.add_block(&candidate, expected) {
                    Ok(_) => {
                        self.lost_blocks.remove(i);
                        self.after_append(&candidate.transactions);
                        proof {
                            assert(chain_before.is_prefix_of(self.blockchain@.chain)) by {
                                assert(self.blockchain@.chain.subrange(
                                    0,
                                    chain_before.len() as int,
                                ) =~= chain_before);
                            }
                            lost_before.remove_ensures(i as int);
                            assert(self.lost_blocks.deep_view() =~= lost_before.remove(i as int));
                            assert(self.blockchain@.chain[chain_before.len() as int]
                                == crate::block_chain::appended_block(
                                candidate@,
                                chain_before.len() + 1 as int,
                            ));
                            assert forall|p: int|
                                0 <= p < old(self).lost_blocks@.len() implies block_kept(
                                #[trigger] old(self).lost_blocks.deep_view()[p],
                                self.lost_blocks.deep_view(),
                                self.blockchain@.chain,
                            ) by {
                                let b = old(self).lost_blocks.deep_view()[p];
                                if lost_before.contains(b) {
                                    let q = choose|q: int|
                                        0 <= q < lost_before.len() && lost_before[q] == b;
                                    if b == candidate@ {
                                        assert(self.blockchain@.chain[chain_before.len() as int]
                                            == crate::block_chain::appended_block(
                                            b,
                                            chain_before.len() + 1 as int,
                                        ));
                                    } else {
                                        let q2: int = if q < i as int {
                                            q
                                        } else {
                                            q - 1
                                        };
                                        assert(self.lost_blocks.deep_view()[q2] == b);
                                        assert(self.lost_blocks.deep_view().contains(b));
                                    }
                                } else {
                                    let k = choose|k: int|
                                        0 <= k < chain_before.len() && chain_before[k]
                                            == crate::block_chain::appended_block(b, k + 1);
                                    assert(self.blockchain@.chain[k] == chain_before[k]);
                                }
                            }
                        }
                        progressed = true;
                    },
                    Err(_) => {},
                }
                i = i + 1;
            }
        }
    }

    /// Assembles, appends and returns a new block when this node is the
    /// elected forger and enough transactions wait: the pending set is
    /// ordered by nonce, sifted against a chainstate snapshot, topped
    /// with the coinbase reward, signed, and appended; the transactions
    /// taken or set aside leave the pool.
    pub fn try_forge(&mut self, timestamp: u64) -> (r: Option<Block>)
        requires
            old(self).wf(),
        ensures
            final(self).wf(),
            final(self).wallet == old(self).wallet,
            r matches Some(b) ==> b@ == old(self).planned_block(timestamp),
            r matches Some(b) ==> final(self).blockchain@.chain == old(
                self,
            ).blockchain@.chain.push(
                appended_block(b@, old(self).blockchain@.chain.len() + 1 as int),
            ),
            r is Some ==> old(self).forging_due(),
            r is Some ==> final(self).mempool@.pending == old(self).mempool@.pending.filter(
                |t: TxV|
                    !has_hash(
                        old(self).planned_sift().ok + old(self).planned_sift().bad,
                        t.hash(),
                    ),
            ),
            r is Some ==> !final(self).blockchain@.state.last_forger_was_blocked
                && punishments_swept(final(self).blockchain@),
            old(self).forging_due() && old(self).planned_signature(timestamp) is Some
                && can_append(
                old(self).blockchain@,
                old(self).planned_block(timestamp),
                Some(old(self).wallet.spec_public()),
            ) ==> r is Some,
            r is None ==> final(self).blockchain@ == old(self).blockchain@,
            r is None ==> final(self).mempool@ == old(self).mempool@,
            r is None ==> final(self).lost_blocks == old(self).lost_blocks,
            r is None ==> final(self).next_forger == old(self).next_forger,
    {
        let ghost plan = old(self).planned_block(timestamp);
        let ghost sifted = old(self).planned_sift();
        if self.mempool.pending_len() <= MINIMUM_MEMPOOL_SIZE {
            return None;
        }
        let my_key = self.wallet.get_public();
        match &self.next_forger {
            Some(forger) => {
                if !(*forger == my_key) {
                    return None;
                }
            },
            None => {
                return None;
            },
        }
        if self.wallet.get_history() == u64::MAX {
            return None;
        }
        let pending = self.mempool.pending_values();
        let sorted = crate::mempool::sort_by_history(pending);
        let mut snapshot = self.blockchain.state.clone();
        let (ok_txs, bad_txs) = Mempool::verify_veracity_of_transactions(&sorted, &mut snapshot);
        proof {
            assert(ok_txs.deep_view() == sifted.ok);
            assert(bad_txs.deep_view() == sifted.bad);
        }
        let mut wallet_copy = self.wallet.clone();
        let reward_tx = match TransactionBuilder::new()
            .to_address(my_key.hash_it().as_str())
            .ammount(BLOCK_REWARD)
            .is_type(TransactionType::COINBASE)
            .with_wallet(&mut wallet_copy)
            .build() {
            Some(tx) => tx,
            None => {
                return None;
            },
        };
        proof {
            assert(reward_tx@ == reward_coinbase(self.wallet.spec_public()));
        }
        let mut block_txs: Vec<Transaction> = Vec::new();
        block_txs.push(reward_tx);
        let ok_count = ok_txs.len();
        let mut i: usize = 0;
        proof {
            assert(block_txs.deep_view() =~= seq![
                reward_coinbase(self.wallet.spec_public()),
            ] + sifted.ok.take(0));
        }
        while i < ok_count
            invariant
                ok_count == ok_txs@.len(),
                ok_txs.deep_view() == sifted.ok,
                i <= ok_count,
                block_txs.deep_view() =~= seq![
                    reward_coinbase(self.wallet.spec_public()),
                ] + sifted.ok.take(i as int),
                self.wallet == old(self).wallet,
            decreases ok_count - i,
        {
            let tx = ok_txs[i].clone();
            let ghost dv = block_txs.deep_view();
            block_txs.push(tx);
            proof {
                assert(block_txs.deep_view() =~= dv.push(sifted.ok[i as int]));
                assert(dv.push(sifted.ok[i as int]) =~= seq![
                    reward_coinbase(self.wallet.spec_public()),
                ] + sifted.ok.take(i + 1));
            }
            i = i + 1;
        }
        proof {
            assert(sifted.ok.take(ok_count as int) =~= sifted.ok);
            assert(block_txs.deep_view() =~= old(self).planned_txs());
        }
        let mut builder = BlockBuilder::new().transactions(block_txs).timestamp(timestamp).key(
            &my_key,
        );
        match self.blockchain.get_last_hash() {
            Some(last) => {
                builder = builder.previous_hash(&last);
            },
            None => {},
        }
        let signed = builder.hash_it().sign_with(&self.wallet);
        proof {
            assert(signed.hash.unwrap()@ == old(self).planned_hash(timestamp));
        }
        match &signed.signature {
            Some(_) => {},
            None => {
                proof {
                    assert(old(self).planned_signature(timestamp) is None);
                }
                return None;
            },
        }
        let new_block = signed.build();
        proof {
            assert(new_block@ == plan);
        }
        let expected = match &self.next_forger {
            Some(k) => Some(k),
            None => None,
        };
        match self.blockchain.add_block(&new_block, expected) {
            Ok(_) => {},
            Err(_) => {
                proof {
                    assert(!can_append(
                        old(self).blockchain@,
                        plan,
                        Some(old(self).wallet.spec_public()),
                    ));
                }
                return None;
            },
        }
        let mut taken = ok_txs;
        let bad_count = bad_txs.len();
        let mut j: usize = 0;
        proof {
            assert(taken.deep_view() =~= sifted.ok + sifted.bad.take(0));
        }
        while j < bad_count
            invariant
                bad_count == bad_txs@.len(),
                bad_txs.deep_view() == sifted.bad,
                j <= bad_count,
                taken.deep_view() =~= sifted.ok + sifted.bad.take(j as int),
            decreases bad_count - j,
        {
            let tx = bad_txs[j].clone();
            let ghost dv = taken.deep_view();
            taken.push(tx);
            proof {
                assert(taken.deep_view() =~= dv.push(sifted.bad[j as int]));
                assert(dv.push(sifted.bad[j as int]) =~= sifted.ok + sifted.bad.take(j + 1));
            }
            j = j + 1;
        }
        proof {
            assert(sifted.bad.take(bad_count as int) =~= sifted.bad);
            assert(taken.deep_view() =~= sifted.ok + sifted.bad);
        }
        self.after_append(&taken);
        Some(new_block)
    }


    /// The canonical last-hash string and the block height, as the
    /// request/response surface reports them; an empty chain shows an
    /// empty string.
    pub fn get_chain_length(&self) -> (r: (String, usize))
        ensures
            r.1 == self.blockchain@.index,
            match self.blockchain@.last_block_hash {
                Some(h) => r.0@ == crate::block_hash::unite_of(h),
                None => r.0@ == Seq::<char>::empty(),
            },
    {
        let last_hash = match self.blockchain.get_last_hash() {
            Some(h) => h.unite(),
            None => String::new(),
        };
        (last_hash, self.blockchain.get_index())
    }

    /// The node's own on-chain address.
    pub fn get_node_address(&self) -> (r: String)
        ensures
            r@ == address_of(self.wallet.spec_public()),
    {
        self.wallet.get_public().hash_it()
    }

    /// The balance shown for an address; an unknown address shows zero.
    pub fn get_address_ammount(&self, address: String) -> (r: u64)
        requires
            self.wf(),
        ensures
            r == self.blockchain@.state.balance_of(address@),
    {
        self.blockchain.state.get_address_ammount(address)
    }

    /// A block of the chain by its hash string.
    pub fn get_block_with_hash(&self, hash: &String) -> (r: Option<&Block>)
        ensures
            match r {
                Some(b) => exists|i: int|
                    0 <= i < self.blockchain@.chain.len() && #[trigger] self.blockchain@.chain[i]
                        == b@ && b@.hash.hash == hash@,
                None => forall|i: int|
                    0 <= i < self.blockchain@.chain.len() ==> (
                    #[trigger] self.blockchain@.chain[i]).hash.hash != hash@,
            },
    {
        self.blockchain.get_block_with_hash(hash)
    }

    /// A block of the chain whose predecessor carries the given hash
    /// string.
    pub fn get_block_with_prev_hash(&self, prev_hash: &String) -> (r: Option<&Block>)
        ensures
            match r {
                Some(b) => exists|i: int|
                    0 <= i < self.blockchain@.chain.len() && #[trigger] self.blockchain@.chain[i]
                        == b@ && (b@.previous_hash matches Some(p) && p.hash == prev_hash@),
                None => forall|i: int|
                    0 <= i < self.blockchain@.chain.len() ==> !((
                    #[trigger] self.blockchain@.chain[i]).previous_hash matches Some(p) && p.hash
                        == prev_hash@),
            },
    {
        self.blockchain.get_block_with_prev_hash(prev_hash)
    }

    /// The whole admission pass a transaction handler runs: admit the
    /// transaction, hand out a gossip batch past the chunk size, and
    /// past the mempool threshold either forge a block (when this node
    /// is the elected forger) or check the elected forger's slot for a
    /// timeout. The caller broadcasts what comes back.
    pub fn add_transaction(&mut self, transaction: &Transaction, now_ms: u64) -> (r:
        TransactionOutcome)
        requires
            old(self).wf(),
        ensures
            final(self).wf(),
            final(self).wallet == old(self).wallet,
            r.admitted is Ok <==> admits(
                old(self).mempool@,
                old(self).blockchain@.state,
                transaction@,
            ),
            r.admitted == Result::<(), TxError>::Err(TxError::DuplicateSeen) <==> old(
                self,
            ).mempool@.cached.contains(transaction@.hash()),
            final(self).mempool@.pending == (if r.forged is None {
                old(self).admitted_pool(transaction@).pending
            } else {
                old(self).admitted_pool(transaction@).pending.filter(
                    (|t: TxV|
                        !has_hash(
                            planned_sift_for(
                                old(self).admitted_pool(transaction@).pending,
                                old(self).blockchain@,
                            ).ok + planned_sift_for(
                                old(self).admitted_pool(transaction@).pending,
                                old(self).blockchain@,
                            ).bad,
                            t.hash(),
                        )),
                )
            }),
            r.batch is Some <==> old(self).admitted_pool(transaction@).chunked.len() > TRANSACTIONS_CHUNK_SIZE,
            r.batch matches Some(b) ==> b.deep_view() == old(self).admitted_pool(transaction@).chunked,
            r.forged matches Some(b) ==> b@ == planned_block_for(
                old(self).admitted_pool(transaction@).pending,
                old(self).blockchain@,
                old(self).wallet,
                now_ms,
            ),
            r.forged matches Some(b) ==> final(self).blockchain@.chain == old(
                self,
            ).blockchain@.chain.push(
                appended_block(b@, old(self).blockchain@.chain.len() + 1 as int),
            ),
            forging_due_for(
                old(self).admitted_pool(transaction@).pending,
                old(self).next_forger,
                old(self).wallet,
            ) && planned_signature_for(
                old(self).admitted_pool(transaction@).pending,
                old(self).blockchain@,
                old(self).wallet,
                now_ms,
            ) is Some && can_append(
                old(self).blockchain@,
                planned_block_for(
                    old(self).admitted_pool(transaction@).pending,
                    old(self).blockchain@,
                    old(self).wallet,
                    now_ms,
                ),
                Some(old(self).wallet.spec_public()),
            ) ==> r.forged is Some,
            r.punished <==> r.forged is None && old(self).admitted_pool(transaction@).pending.len() > MINIMUM_MEMPOOL_SIZE && old(self).blockchain@.chain.len() > 0 && old(
                self,
            ).next_forger is Some && !old(self).blockchain@.state.last_forger_was_blocked && now_ms
                > old(self).blockchain@.chain.last().timestamp + BLOCK_TIME_MAX,
            r.forged is None && !r.punished ==> final(self).blockchain@ == old(self).blockchain@
                && final(self).next_forger == old(self).next_forger,
    {
        let ghost m1 = old(self).admitted_pool(transaction@);
        let admitted = self.admit_transaction(transaction);
        let batch = self.take_gossip_batch();
        let mut forged: Option<Block> = None;
        let mut punished = false;
        let ghost mid = *self;
        proof {
            assert(mid.mempool@.pending == m1.pending);
            assert(mid.blockchain@ == old(self).blockchain@);
            assert(mid.wallet == old(self).wallet);
            assert(mid.next_forger == old(self).next_forger);
        }
        if self.mempool.pending_len() > MINIMUM_MEMPOOL_SIZE {
            forged = self.try_forge(now_ms);
            proof {
                assert(mid.planned_block(now_ms) == planned_block_for(
                    m1.pending,
                    old(self).blockchain@,
                    old(self).wallet,
                    now_ms,
                ));
                assert(mid.planned_sift() == planned_sift_for(m1.pending, old(self).blockchain@));
            }
            match &forged {
                Some(_) => {},
                None => {
                    punished = self.check_forger_timeout(now_ms);
                },
            }
        } else {
            proof {
                assert(!forging_due_for(m1.pending, old(self).next_forger, old(self).wallet));
            }
        }
        TransactionOutcome { admitted, batch, forged, punished }
    }

    /// Punishes the elected forger when its slot timed out: past the
    /// block time, with the previous slot not already missed, the cached
    /// forger is recorded as punished at the current index, the flag is
    /// raised, and the election runs again.
    pub fn check_forger_timeout(&mut self, now_ms: u64) -> (r: bool)
        requires
            old(self).wf(),
        ensures
            final(self).wf(),
            final(self).wallet == old(self).wallet,
            final(self).blockchain@.chain == old(self).blockchain@.chain,
            final(self).mempool == old(self).mempool,
            final(self).lost_blocks == old(self).lost_blocks,
            r <==> old(self).blockchain@.chain.len() > 0 && old(self).next_forger is Some && !old(
                self,
            ).blockchain@.state.last_forger_was_blocked && now_ms > old(
                self,
            ).blockchain@.chain.last().timestamp + BLOCK_TIME_MAX,
            r ==> final(self).blockchain@.state.missed_forgers == old(
                self,
            ).blockchain@.state.missed_forgers.insert(
                address_of(old(self).next_forger.unwrap()@),
                old(self).blockchain@.index as u64,
            ) && final(self).blockchain@.state.last_forger_was_blocked,
            !r ==> *final(self) == *old(self),
    {
        let last_timestamp = match self.blockchain.peek() {
            Some(b) => b.timestamp,
            None => {
                return false;
            },
        };
        let forger = match &self.next_forger {
            Some(k) => k.clone(),
            None => {
                return false;
            },
        };
        if self.blockchain.state.last_forger_was_blocked() {
            return false;
        }
        if !(last_timestamp < u64::MAX - BLOCK_TIME_MAX && now_ms > last_timestamp
            + BLOCK_TIME_MAX) {
            return false;
        }
        let addr = forger.hash_it();
        let index = self.blockchain.get_index();
        self.blockchain.state.punish(&addr, index as u64);
        self.blockchain.state.set_last_forger_blocked(true);
        self.elect_new_forger();
        true
    }
}

/// Admitting a transaction a second time changes nothing: the first
/// admission left its hash among the seen ones, so the second is
/// dropped, whatever the chainstate has become in between.
pub proof fn lemma_mempool_idempotence(m: MempoolV, cs1: ChainstateV, cs2: ChainstateV, tx: TxV)
    requires
        m.cached.contains(tx.hash()) || admits(m, cs1, tx),
    ensures
        admit_step(admit_step(m, cs1, tx), cs2, tx) == admit_step(m, cs1, tx),
{
    let m1 = admit_step(m, cs1, tx);
    if !m.cached.contains(tx.hash()) && tx.valid() && cs1.ammount_ok(tx) {
        let pushed = m.cached.push(tx.hash());
        assert(pushed[m.cached.len() as int] == tx.hash());
        if m.cached.len() + 1 > crate::mempool::SEEN_CACHE {
            assert(pushed.drop_first()[m.cached.len() - 1] == tx.hash());
            assert(m1.cached.contains(tx.hash()));
        } else {
            assert(m1.cached.contains(tx.hash()));
        }
    }
}

} // verus!
