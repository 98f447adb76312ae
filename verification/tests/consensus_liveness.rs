// The forger election and the liveness enforcement: deterministic
// winners, punishment of a missed slot, and recovery afterwards.

use pos_chain::block::Block;
use pos_chain::block_builder::BlockBuilder;
use pos_chain::block_chain::Blockchain;
use pos_chain::block_hash::BlockHash;
use pos_chain::consensus::elect_forger;
use pos_chain::node::{BlockStatus, NodeState, BLOCK_TIME_MAX};
use pos_chain::transaction::Transaction;
use pos_chain::transaction_builder::{TransactionBuilder, TransactionType};
use pos_chain::wallet::Wallet;

fn wallet_from(byte: u8) -> Wallet {
    Wallet::from_private(&vec![byte; 32], 0).unwrap()
}

fn forge_block(
    wallet: &Wallet,
    prev: Option<BlockHash>,
    extra: Vec<Transaction>,
    reward: u64,
    ts: u64,
) -> Block {
    let mut wcopy = wallet.clone();
    let coinbase = TransactionBuilder::new()
        .to_address(wallet.get_public().hash_it().as_str())
        .ammount(reward)
        .is_type(TransactionType::COINBASE)
        .with_wallet(&mut wcopy)
        .build()
        .unwrap();
    let mut txs = vec![coinbase];
    txs.extend(extra);
    let mut builder = BlockBuilder::new()
        .transactions(txs)
        .timestamp(ts)
        .key(&wallet.get_public());
    if let Some(p) = prev {
        builder = builder.previous_hash(&p);
    }
    builder.hash_it().sign_with(wallet).build()
}

fn movement(wallet: &mut Wallet, to: &str, ammount: u64) -> Transaction {
    TransactionBuilder::new()
        .to_address(to)
        .ammount(ammount)
        .is_type(TransactionType::MOVEMENT)
        .with_wallet(wallet)
        .build()
        .unwrap()
}

fn stake(wallet: &mut Wallet, ammount: u64) -> Transaction {
    TransactionBuilder::new()
        .ammount(ammount)
        .is_type(TransactionType::STAKE)
        .with_wallet(wallet)
        .build()
        .unwrap()
}

// A chain whose state holds stakes from alice and bob, with a neutral
// forger on the last block so either staker may forge the next one.
fn staked_chain() -> (Blockchain, Wallet, Wallet) {
    let mut alice = wallet_from(1);
    let mut bob = wallet_from(2);
    let dave = wallet_from(6);
    let bob_addr = bob.get_public().hash_it();

    let mut blockchain = Blockchain::new();
    let genesis = forge_block(&alice, None, vec![], 1_000_000, 1_000);
    blockchain.add_block(&genesis, None).unwrap();

    let pay_bob = movement(&mut alice, bob_addr.as_str(), 1_000);
    let stake_alice = stake(&mut alice, 1);
    let stake_bob = stake(&mut bob, 1);
    let block2 = forge_block(
        &bob,
        blockchain.last_block_hash.clone(),
        vec![pay_bob, stake_alice, stake_bob],
        10,
        2_000,
    );
    blockchain.add_block(&block2, None).unwrap();

    let block3 = forge_block(&dave, blockchain.last_block_hash.clone(), vec![], 10, 3_000);
    blockchain.add_block(&block3, None).unwrap();

    (blockchain, alice, bob)
}

#[test]
fn election_is_deterministic() {
    // Two independent runs over the same chainstate and last block
    // return the same winner.
    let (blockchain, _, _) = staked_chain();
    let last = blockchain.peek().unwrap();
    let first = elect_forger(&blockchain.state, last);
    let second = elect_forger(&blockchain.state, last);
    match (&first, &second) {
        (Some(a), Some(b)) => assert_eq!(a.0, b.0),
        (None, None) => {}
        _ => panic!("the two elections disagreed"),
    }
    // With two fresh stakers and a 64-character hash, someone wins.
    assert!(first.is_some());
}

#[test]
fn missed_slot_punishment_and_recovery() {
    // The elected forger misses its slot: the next admission-time check
    // punishes it, a different forger is elected, and once the chain
    // advances the punishment is forgiven.
    let (blockchain, alice, bob) = staked_chain();
    let last_ts = blockchain.peek().unwrap().timestamp;
    let mut node = NodeState::new(blockchain, alice.clone(), 0);
    node.elect_new_forger();
    let first_forger = node.next_forger.clone().expect("someone is elected");
    let first_addr = first_forger.hash_it();

    let punished = node.check_forger_timeout(last_ts + BLOCK_TIME_MAX + 1);
    assert!(punished);
    assert!(node.blockchain.state.is_punished(&first_addr));

    let second_forger = node.next_forger.clone().expect("a replacement is elected");
    assert_ne!(first_forger.0, second_forger.0);

    // The replacement forges; its block advances the chain and the
    // punishment from the earlier index is forgiven.
    let forger_wallet = if second_forger.0 == alice.get_public().0 {
        alice.clone()
    } else {
        bob.clone()
    };
    let block = forge_block(
        &forger_wallet,
        node.blockchain.last_block_hash.clone(),
        vec![],
        10,
        last_ts + BLOCK_TIME_MAX + 2,
    );
    let status = node.add_block(&block);
    assert_eq!(status, BlockStatus::Appended);
    assert!(!node.blockchain.state.is_punished(&first_addr));
}

#[test]
fn admission_pipeline_forges_at_threshold() {
    // Once the pool crosses the threshold and this node is the elected
    // forger, one admission pass assembles, appends and returns a block
    // and the pool empties.
    let (blockchain, alice, bob) = staked_chain();
    let winner_key = elect_forger(&blockchain.state, blockchain.peek().unwrap())
        .expect("someone is elected");
    let winner = if winner_key.0 == alice.get_public().0 {
        alice.clone()
    } else {
        bob.clone()
    };
    let mut node = NodeState::new(blockchain, winner.clone(), 0);
    node.elect_new_forger();

    let mut sender = alice.clone();
    let mut forged = None;
    let mut batches = 0;
    for i in 0..101u64 {
        let tx = movement(&mut sender, format!("peer{}", i).as_str(), 1);
        let outcome = node.add_transaction(&tx, 4_000);
        assert!(outcome.admitted.is_ok());
        if outcome.batch.is_some() {
            batches += 1;
        }
        if outcome.forged.is_some() {
            forged = outcome.forged;
        }
    }
    let block = forged.expect("the threshold crossing forged a block");
    assert_eq!(node.blockchain.get_index(), 4);
    assert_eq!(node.mempool.pending_len(), 0);
    assert!(batches > 0);
    // The forged block leads with the coinbase reward to the forger.
    assert_eq!(block.transactions.len(), 102);
    assert_eq!(
        node.blockchain.state.get_address_ammount("peer0".to_string()),
        1
    );
    assert_eq!(
        node.blockchain.state.get_address_ammount("peer100".to_string()),
        1
    );
}
