//! The forger election: a deterministic choice of the next block
//! producer among the recent stakers, driven by the last block's hash.

use vstd::prelude::*;

use crate::block::Block;
use crate::block_chain::Blockchain;
use crate::chainstate::{Chainstate, ChainstateV};
use crate::errors::ConsensusErrors;
use crate::key::Key;
use crate::text::{contains_prefix_of, contains_seq};
use crate::transaction::{Transaction, TxV};

verus! {

/// A staker may win when it did not forge recently, is not punished,
/// and the needle occurs in its stake-transaction hash.
pub open spec fn eligible(m: ChainstateV, s: TxV, needle: Seq<char>) -> bool {
    &&& s is Stake
    &&& (match s.from() {
        Some(f) => !m.recent_forgers.contains(f) && !m.missed_forgers.contains_key(f),
        None => false,
    })
    &&& contains_seq(s.hash(), needle)
}

/// The first eligible staker, oldest first.
pub open spec fn find_winner(m: ChainstateV, stakes: Seq<TxV>, needle: Seq<char>) -> Option<TxV>
    decreases stakes.len(),
{
    if stakes.len() == 0 {
        None
    } else if eligible(m, stakes.first(), needle) {
        Some(stakes.first())
    } else {
        find_winner(m, stakes.drop_first(), needle)
    }
}

/// The election at prefix length `k`: try the first `k` characters of
/// the hash, then shorter and shorter prefixes.
pub open spec fn elect_at(m: ChainstateV, h: Seq<char>, k: nat) -> Option<TxV>
    decreases k,
{
    if k == 0 {
        None
    } else {
        match find_winner(m, m.last_staking_addresses, h.subrange(0, k as int)) {
            Some(s) => Some(s),
            None => elect_at(m, h, (k - 1) as nat),
        }
    }
}

/// The winning stake transaction, given the chainstate and the last
/// block's hash characters. All nodes compute the same winner from the
/// same inputs.
pub open spec fn elect_spec(m: ChainstateV, h: Seq<char>) -> Option<TxV> {
    elect_at(m, h, h.len())
}

/// Picks the next block forger from the recent stakers, deterministically
/// from the chainstate and the last block's hash. Pure: recording the
/// winner as a recent forger is the caller's step.
pub fn elect_forger(state: &Chainstate, last_block: &Block) -> (r: Option<Key>)
    requires
        state.wf(),
    ensures
        match r {
            Some(key) => elect_spec(state@, last_block@.hash.hash) matches Some(s) && (
            match s {
                TxV::Stake { author, .. } => key@ == author,
                _ => false,
            }),
            None => elect_spec(state@, last_block@.hash.hash) is None,
        },
{
    let ghost m = state@;
    let h = &last_block.hash.hash;
    let ghost hv = last_block@.hash.hash;
    let hash_len = h.as_str().unicode_len();
    let stakes = state.staking_transactions();
    let stake_count = stakes.len();
    let mut k: usize = hash_len;
    while k > 0
        invariant
            state.wf(),
            m == state@,
            hv == last_block@.hash.hash,
            h@ == hv,
            hash_len == hv.len(),
            stakes.deep_view() == m.last_staking_addresses,
            stake_count == stakes.len(),
            k <= hash_len,
            elect_at(m, hv, hash_len as nat) == elect_at(m, hv, k as nat),
        decreases k,
    {
        let mut i: usize = 0;
        proof {
            assert(m.last_staking_addresses.skip(0) =~= m.last_staking_addresses);
        }
        while i < stake_count
            invariant
                state.wf(),
                m == state@,
                hv == last_block@.hash.hash,
                h@ == hv,
                hash_len == hv.len(),
                stakes.deep_view() == m.last_staking_addresses,
                stake_count == stakes.len(),
                0 < k <= hash_len,
                i <= stake_count,
                elect_at(m, hv, hash_len as nat) == elect_at(m, hv, k as nat),
                find_winner(m, m.last_staking_addresses, hv.subrange(0, k as int)) == find_winner(
                    m,
                    m.last_staking_addresses.skip(i as int),
                    hv.subrange(0, k as int),
                ),
            decreases stake_count - i,
        {
            let ghost rest = m.last_staking_addresses.skip(i as int);
            proof {
                assert(rest.first() == m.last_staking_addresses[i as int]);
                assert(stakes.deep_view()[i as int] == stakes@[i as int]@);
                assert(rest.drop_first() =~= m.last_staking_addresses.skip(i + 1));
            }
            match &stakes[i] {
                Transaction::STAKE { author_public_key, hash, from_address, .. } => {
                    let forger_is_not_recent = !state.has_recent_forger(from_address);
                    let forger_is_not_punished = !state.is_punished(from_address);
                    let forger_won = contains_prefix_of(hash.as_str(), h.as_str(), k);
                    if forger_is_not_recent && forger_is_not_punished && forger_won {
                        proof {
                            assert(eligible(m, rest.first(), hv.subrange(0, k as int)));
                            assert(find_winner(m, rest, hv.subrange(0, k as int)) == Some(
                                rest.first(),
                            ));
                            assert(find_winner(m, m.last_staking_addresses, hv.subrange(0, k as int))
                                == Some(rest.first()));
                            assert(elect_at(m, hv, k as nat) == Some(rest.first()));
                            assert(elect_at(m, hv, hash_len as nat) matches Some(s) && s
                                == rest.first());
                        }
                        return Some(author_public_key.clone());
                    }
                    proof {
                        assert(!eligible(m, rest.first(), hv.subrange(0, k as int)));
                    }
                },
                _ => {
                    proof {
                        assert(!(rest.first() is Stake));
                        assert(!eligible(m, rest.first(), hv.subrange(0, k as int)));
                    }
                },
            }
            i = i + 1;
        }
        proof {
            assert(m.last_staking_addresses.skip(stake_count as int) =~= Seq::<TxV>::empty());
            assert(find_winner(m, m.last_staking_addresses, hv.subrange(0, k as int)) is None);
        }
        k = k - 1;
    }
    proof {
        assert(elect_at(m, hv, 0) is None);
    }
    None
}

/// Elects the next forger over a whole chain, and records the winner's
/// address as a recent forger; everything else stays as it was. Fails
/// when the chain is empty or no staker survives the search.
pub fn elect_new_forger(blockchain: &mut Blockchain) -> (r: Result<Key, ConsensusErrors>)
    requires
        old(blockchain).wf(),
    ensures
        final(blockchain).wf(),
        final(blockchain)@.chain == old(blockchain)@.chain,
        final(blockchain)@.index == old(blockchain)@.index,
        final(blockchain)@.last_block_hash == old(blockchain)@.last_block_hash,
        final(blockchain)@.state.addresses == old(blockchain)@.state.addresses,
        final(blockchain)@.state.last_staking_addresses == old(
            blockchain,
        )@.state.last_staking_addresses,
        final(blockchain)@.state.missed_forgers == old(blockchain)@.state.missed_forgers,
        final(blockchain)@.state.last_forger_was_blocked == old(
            blockchain,
        )@.state.last_forger_was_blocked,
        match r {
            Ok(key) => old(blockchain)@.chain.len() > 0 && (elect_spec(
                old(blockchain)@.state,
                old(blockchain)@.chain.last().hash.hash,
            ) matches Some(s) && (match s {
                TxV::Stake { author, .. } => key@ == author,
                _ => false,
            })) && final(blockchain)@.state.recent_forgers == old(
                blockchain,
            )@.state.push_forger(crate::key::address_of(key@)),
            Err(_) => final(blockchain)@ == old(blockchain)@ && (old(blockchain)@.chain.len() == 0
                || elect_spec(
                old(blockchain)@.state,
                old(blockchain)@.chain.last().hash.hash,
            ) is None),
        },
{
    let winner = {
        let last_block = match blockchain.peek() {
            Some(b) => b,
            None => {
                return Err(ConsensusErrors::TransactionBroken);
            },
        };
        elect_forger(&blockchain.state, last_block)
    };
    match winner {
        Some(key) => {
            let addr = key.hash_it();
            blockchain.state.add_recent_forger(&addr);
            Ok(key)
        },
        None => Err(ConsensusErrors::TransactionBroken),
    }
}

/// The election is a function of the chainstate and the last hash: two
/// nodes that agree on those agree on the winner.
pub proof fn lemma_election_deterministic(m1: ChainstateV, m2: ChainstateV, h1: Seq<char>, h2: Seq<char>)
    requires
        m1 == m2,
        h1 == h2,
    ensures
        elect_spec(m1, h1) == elect_spec(m2, h2),
{
}


/// The winner of an election is one of the recent stakes.
proof fn lemma_find_winner_member(m: ChainstateV, stakes: Seq<TxV>, needle: Seq<char>)
    ensures
        find_winner(m, stakes, needle) matches Some(s) ==> stakes.contains(s),
    decreases stakes.len(),
{
    if stakes.len() > 0 {
        if eligible(m, stakes.first(), needle) {
            assert(stakes[0] == stakes.first());
        } else {
            lemma_find_winner_member(m, stakes.drop_first(), needle);
            if find_winner(m, stakes.drop_first(), needle) is Some {
                let s = find_winner(m, stakes.drop_first(), needle).unwrap();
                let q = choose|q: int|
                    0 <= q < stakes.drop_first().len() && stakes.drop_first()[q] == s;
                assert(stakes[q + 1] == s);
            }
        }
    }
}

proof fn lemma_elect_at_member(m: ChainstateV, h: Seq<char>, k: nat)
    ensures
        elect_at(m, h, k) matches Some(s) ==> m.last_staking_addresses.contains(s),
    decreases k,
{
    if k > 0 {
        lemma_find_winner_member(m, m.last_staking_addresses, h.subrange(0, k as int));
        lemma_elect_at_member(m, h, (k - 1) as nat);
    }
}

/// A punished forger is never elected: whoever the election returns, the
/// address of its key is not on the punishment record. In particular,
/// after a forger is punished for a missed slot, the next election
/// returns a different forger.
pub proof fn lemma_elected_not_punished(bc: Blockchain, h: Seq<char>)
    requires
        bc.wf(),
    ensures
        elect_spec(bc@.state, h) matches Some(s) ==> (match s {
            TxV::Stake { author, .. } => !bc@.state.missed_forgers.contains_key(
                crate::key::address_of(author),
            ),
            _ => false,
        }),
{
    lemma_elected_eligible(bc@.state, h);
    lemma_elect_at_member(bc@.state, h, h.len());
    crate::block_chain::lemma_wf_stakes_consistent(bc);
    if elect_spec(bc@.state, h) is Some {
        let s = elect_spec(bc@.state, h).unwrap();
        let q = choose|q: int|
            0 <= q < bc@.state.last_staking_addresses.len()
                && bc@.state.last_staking_addresses[q] == s;
        assert(bc@.state.last_staking_addresses[q] == s);
    }
}

/// Whoever wins the election is a staker that neither forged recently
/// nor stands punished.
pub proof fn lemma_elected_eligible(m: ChainstateV, h: Seq<char>)
    ensures
        elect_spec(m, h) matches Some(s) ==> s is Stake && (s.from() matches Some(f)
            && !m.recent_forgers.contains(f) && !m.missed_forgers.contains_key(f)),
{
    lemma_elect_at_eligible(m, h, h.len());
}

proof fn lemma_elect_at_eligible(m: ChainstateV, h: Seq<char>, k: nat)
    ensures
        elect_at(m, h, k) matches Some(s) ==> s is Stake && (s.from() matches Some(f)
            && !m.recent_forgers.contains(f) && !m.missed_forgers.contains_key(f)),
    decreases k,
{
    if k > 0 {
        lemma_find_winner_eligible(m, m.last_staking_addresses, h.subrange(0, k as int));
        lemma_elect_at_eligible(m, h, (k - 1) as nat);
    }
}

proof fn lemma_find_winner_eligible(m: ChainstateV, stakes: Seq<TxV>, needle: Seq<char>)
    ensures
        find_winner(m, stakes, needle) matches Some(s) ==> eligible(m, s, needle),
    decreases stakes.len(),
{
    if stakes.len() > 0 && !eligible(m, stakes.first(), needle) {
        lemma_find_winner_eligible(m, stakes.drop_first(), needle);
    }
}

} // verus!
