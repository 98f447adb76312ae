// End-to-end scenarios over the chain: genesis, a simple transfer, a
// replayed transaction, a block from the wrong forger, and out-of-order
// blocks drained back into place.

use pos_chain::block::Block;
use pos_chain::block_builder::BlockBuilder;
use pos_chain::block_chain::Blockchain;
use pos_chain::block_hash::BlockHash;
use pos_chain::errors::{BlockchainErrors, TxError};
use pos_chain::node::{BlockStatus, NodeState};
use pos_chain::transaction::Transaction;
use pos_chain::transaction_builder::{TransactionBuilder, TransactionType};
use pos_chain::wallet::Wallet;

fn wallet_from(byte: u8) -> Wallet {
    Wallet::from_private(&vec![byte; 32], 0).unwrap()
}

fn forge_block(
    wallet: &Wallet,
    prev: Option<BlockHash>,
    extra: Vec<Transaction>,
    reward: u64,
    ts: u64,
) -> Block {
    let mut wcopy = wallet.clone();
    let coinbase = TransactionBuilder::new()
        .to_address(wallet.get_public().hash_it().as_str())
        .ammount(reward)
        .is_type(TransactionType::COINBASE)
        .with_wallet(&mut wcopy)
        .build()
        .unwrap();
    let mut txs = vec![coinbase];
    txs.extend(extra);
    let mut builder = BlockBuilder::new()
        .transactions(txs)
        .timestamp(ts)
        .key(&wallet.get_public());
    if let Some(p) = prev {
        builder = builder.previous_hash(&p);
    }
    builder.hash_it().sign_with(wallet).build()
}

fn movement(wallet: &mut Wallet, to: &str, ammount: u64) -> Transaction {
    TransactionBuilder::new()
        .to_address(to)
        .ammount(ammount)
        .is_type(TransactionType::MOVEMENT)
        .with_wallet(wallet)
        .build()
        .unwrap()
}

#[test]
fn genesis_state() {
    // A single node whose wallet holds 1 000 000 via a genesis coinbase.
    let genesis_wallet = wallet_from(1);
    let mut blockchain = Blockchain::new();
    let genesis = forge_block(&genesis_wallet, None, vec![], 1_000_000, 1_000);
    blockchain.add_block(&genesis, None).unwrap();

    assert_eq!(blockchain.get_index(), 1);
    let last = blockchain.get_last_hash().unwrap().unite();
    assert!(last.starts_with("1x"));
    let addr = genesis_wallet.get_public().hash_it();
    assert_eq!(blockchain.state.get_address_ammount(addr), 1_000_000);
}

#[test]
fn simple_transfer() {
    // From the genesis state, a movement of 5 to bob lands in the next
    // block; balances and the nonce move accordingly.
    let mut genesis_wallet = wallet_from(1);
    let forger2 = wallet_from(2);
    let bob = wallet_from(3);
    let bob_addr = bob.get_public().hash_it();
    let genesis_addr = genesis_wallet.get_public().hash_it();

    let mut blockchain = Blockchain::new();
    let genesis = forge_block(&genesis_wallet, None, vec![], 1_000_000, 1_000);
    blockchain.add_block(&genesis, None).unwrap();

    let tx = movement(&mut genesis_wallet, bob_addr.as_str(), 5);
    let prev = blockchain.last_block_hash.clone();
    let block = forge_block(&forger2, prev, vec![tx], 10, 2_000);
    blockchain.add_block(&block, None).unwrap();

    assert_eq!(blockchain.state.get_address_ammount(genesis_addr), 999_995);
    assert_eq!(blockchain.state.get_address_ammount(bob_addr), 5);
    let replayed = {
        // The genesis wallet's nonce advanced to 1.
        let again = movement(&mut genesis_wallet.clone(), "anywhere", 1);
        again.get_history()
    };
    assert_eq!(replayed, 1);
}

#[test]
fn replay_rejection() {
    // Resubmitting the same transaction verbatim is dropped through the
    // seen cache and leaves the pool unchanged.
    let mut genesis_wallet = wallet_from(1);
    let bob = wallet_from(3);
    let bob_addr = bob.get_public().hash_it();

    let mut blockchain = Blockchain::new();
    let genesis = forge_block(&genesis_wallet, None, vec![], 1_000_000, 1_000);
    blockchain.add_block(&genesis, None).unwrap();

    let mut node = NodeState::new(blockchain, genesis_wallet.clone(), 0);
    let tx = movement(&mut genesis_wallet, bob_addr.as_str(), 5);

    assert!(node.admit_transaction(&tx).is_ok());
    assert_eq!(node.mempool.pending_len(), 1);

    let second = node.admit_transaction(&tx);
    assert_eq!(second, Err(TxError::DuplicateSeen));
    assert_eq!(node.mempool.pending_len(), 1);
    assert_eq!(node.blockchain.state.get_address_ammount(bob_addr), 0);
}

#[test]
fn wrong_forger() {
    // A peer proposes a block signed by a non-elected key: the append
    // names the forger error and the chain stays as it was.
    let genesis_wallet = wallet_from(1);
    let elected = wallet_from(2);
    let mallory = wallet_from(4);

    let mut blockchain = Blockchain::new();
    let genesis = forge_block(&genesis_wallet, None, vec![], 1_000_000, 1_000);
    blockchain.add_block(&genesis, None).unwrap();

    let prev = blockchain.last_block_hash.clone();
    let bad = forge_block(&mallory, prev, vec![], 10, 2_000);
    let elected_key = elected.get_public();
    let r = blockchain.add_block(&bad, Some(&elected_key));
    assert!(matches!(r, Err(BlockchainErrors::InvalidBlockForger(_))));
    assert_eq!(blockchain.get_index(), 1);
}

#[test]
fn out_of_order_blocks() {
    // Block N+1 arrives before N: it is parked, and once N lands both
    // stand on the chain in order with the buffer empty.
    let genesis_wallet = wallet_from(1);
    let forger2 = wallet_from(2);
    let forger3 = wallet_from(5);

    let mut blockchain = Blockchain::new();
    let genesis = forge_block(&genesis_wallet, None, vec![], 1_000_000, 1_000);
    blockchain.add_block(&genesis, None).unwrap();

    let prev1 = blockchain.last_block_hash.clone();
    let block_n = forge_block(&forger2, prev1, vec![], 10, 2_000);
    let block_n1 = forge_block(&forger3, Some(block_n.hash.clone()), vec![], 10, 3_000);

    let mut node = NodeState::new(blockchain, genesis_wallet.clone(), 0);
    let first = node.add_block(&block_n1);
    assert_eq!(first, BlockStatus::Parked);
    assert_eq!(node.lost_blocks.len(), 1);

    let second = node.add_block(&block_n);
    assert_eq!(second, BlockStatus::Appended);
    assert_eq!(node.blockchain.get_index(), 3);
    assert_eq!(node.lost_blocks.len(), 0);
    let hashes: Vec<String> = node
        .blockchain
        .chain
        .iter()
        .map(|b| b.hash.hash.clone())
        .collect();
    assert_eq!(hashes[1], block_n.hash.hash);
    assert_eq!(hashes[2], block_n1.hash.hash);
}

#[test]
fn ordered_chain_reload() {
    // A shuffled persisted chain is put back in index order and loads
    // into a fresh, audited chain.
    let a = wallet_from(1);
    let b = wallet_from(2);

    let mut blockchain = Blockchain::new();
    let genesis = forge_block(&a, None, vec![], 10, 1_000);
    blockchain.add_block(&genesis, None).unwrap();
    let block2 = forge_block(&b, blockchain.last_block_hash.clone(), vec![], 10, 2_000);
    blockchain.add_block(&block2, None).unwrap();
    let block3 = forge_block(&a, blockchain.last_block_hash.clone(), vec![], 10, 3_000);
    blockchain.add_block(&block3, None).unwrap();

    let shuffled = vec![
        blockchain.chain[2].clone(),
        blockchain.chain[0].clone(),
        blockchain.chain[1].clone(),
    ];
    let ordered = pos_chain::block_chain::order_chain(&shuffled);
    assert_eq!(ordered.len(), 3);
    for (i, block) in ordered.iter().enumerate() {
        assert_eq!(block.index, Some(i + 1));
    }

    let reloaded = Blockchain::from_blocks(ordered).unwrap();
    assert_eq!(reloaded.get_index(), 3);
    assert!(pos_chain::block_chain::verify_integrity(&reloaded.chain).is_ok());
}

#[test]
fn fully_reversed_blocks() {
    // Three successors arrive newest first; each parks until the one
    // before it lands, then the buffer drains them all into order.
    let genesis_wallet = wallet_from(1);
    let forger2 = wallet_from(2);
    let forger3 = wallet_from(5);

    let mut blockchain = Blockchain::new();
    let genesis = forge_block(&genesis_wallet, None, vec![], 1_000_000, 1_000);
    blockchain.add_block(&genesis, None).unwrap();

    let prev1 = blockchain.last_block_hash.clone();
    let block_n = forge_block(&forger2, prev1, vec![], 10, 2_000);
    let block_n1 = forge_block(&forger3, Some(block_n.hash.clone()), vec![], 10, 3_000);
    let block_n2 = forge_block(&forger2, Some(block_n1.hash.clone()), vec![], 10, 4_000);

    let mut node = NodeState::new(blockchain, genesis_wallet.clone(), 0);
    assert_eq!(node.add_block(&block_n2), BlockStatus::Parked);
    assert_eq!(node.add_block(&block_n1), BlockStatus::Parked);
    assert_eq!(node.lost_blocks.len(), 2);
    assert_eq!(node.add_block(&block_n), BlockStatus::Appended);
    assert_eq!(node.blockchain.get_index(), 4);
    assert_eq!(node.lost_blocks.len(), 0);
    let hashes: Vec<String> = node
        .blockchain
        .chain
        .iter()
        .map(|b| b.hash.hash.clone())
        .collect();
    assert_eq!(hashes[1], block_n.hash.hash);
    assert_eq!(hashes[2], block_n1.hash.hash);
    assert_eq!(hashes[3], block_n2.hash.hash);
}

#[test]
fn chain_audit_rejects_tampering() {
    // A block whose stored amount was altered after signing fails the
    // full audit.
    let a = wallet_from(1);
    let b = wallet_from(2);
    let mut blockchain = Blockchain::new();
    let genesis = forge_block(&a, None, vec![], 10, 1_000);
    blockchain.add_block(&genesis, None).unwrap();
    let block2 = forge_block(&b, blockchain.last_block_hash.clone(), vec![], 10, 2_000);
    blockchain.add_block(&block2, None).unwrap();

    let mut tampered = blockchain.chain.clone();
    if let Transaction::COINBASE { ammount, .. } = &mut tampered[1].transactions[0] {
        *ammount = 1_000_000;
    }
    assert!(pos_chain::block_chain::verify_integrity(&blockchain.chain).is_ok());
    assert!(pos_chain::block_chain::verify_integrity(&tampered).is_err());
}

#[test]
fn replayed_state_matches() {
    // Replaying a chain's transactions over a fresh chainstate gives
    // the same balances the chain carries.
    let mut genesis_wallet = wallet_from(1);
    let forger2 = wallet_from(2);
    let bob = wallet_from(3);
    let bob_addr = bob.get_public().hash_it();
    let genesis_addr = genesis_wallet.get_public().hash_it();

    let mut blockchain = Blockchain::new();
    let genesis = forge_block(&genesis_wallet, None, vec![], 1_000_000, 1_000);
    blockchain.add_block(&genesis, None).unwrap();
    let tx = movement(&mut genesis_wallet, bob_addr.as_str(), 7);
    let block = forge_block(&forger2, blockchain.last_block_hash.clone(), vec![tx], 10, 2_000);
    blockchain.add_block(&block, None).unwrap();

    let mut replayed = pos_chain::chainstate::Chainstate::new();
    replayed.load_from_chain(&blockchain.chain);
    assert_eq!(
        replayed.get_address_ammount(genesis_addr.clone()),
        blockchain.state.get_address_ammount(genesis_addr),
    );
    assert_eq!(
        replayed.get_address_ammount(bob_addr.clone()),
        blockchain.state.get_address_ammount(bob_addr),
    );
}

#[test]
fn append_error_kinds() {
    // Each way a block can fail the append rule names its own error.
    let a = wallet_from(1);
    let b = wallet_from(2);
    let mut c = wallet_from(3);

    let mut blockchain = Blockchain::new();
    let genesis = forge_block(&a, None, vec![], 1_000_000, 1_000);
    blockchain.add_block(&genesis, None).unwrap();
    let prev = blockchain.last_block_hash.clone();

    // A block that does not continue the tail.
    let stray = forge_block(&b, None, vec![], 10, 2_000);
    assert!(matches!(
        blockchain.add_block(&stray, None),
        Err(BlockchainErrors::InvalidPrevioushHash(_, _))
    ));

    // A block whose fields were altered after hashing.
    let mut rehashed = forge_block(&b, prev.clone(), vec![], 10, 2_000);
    rehashed.timestamp += 1;
    assert!(rehashed.verify_integrity().is_err());
    assert!(matches!(
        blockchain.add_block(&rehashed, None),
        Err(BlockchainErrors::InvalidHash)
    ));

    // A block whose signature was swapped out.
    let mut missigned = forge_block(&b, prev.clone(), vec![], 10, 2_000);
    missigned.signature = a.sign_data(missigned.hash.unite()).unwrap();
    assert!(matches!(
        blockchain.add_block(&missigned, None),
        Err(BlockchainErrors::InvalidSignature)
    ));

    // A block with a second coinbase.
    let extra_coinbase = TransactionBuilder::new()
        .to_address("someone")
        .ammount(1)
        .is_type(TransactionType::COINBASE)
        .with_wallet(&mut c.clone())
        .build()
        .unwrap();
    let doubled = forge_block(&b, prev.clone(), vec![extra_coinbase], 10, 2_000);
    assert!(matches!(
        blockchain.add_block(&doubled, None),
        Err(BlockchainErrors::MultipleCoinbase(_))
    ));

    // A block whose leading coinbase rewards somebody else.
    let foreign_coinbase = TransactionBuilder::new()
        .to_address("someone else")
        .ammount(10)
        .is_type(TransactionType::COINBASE)
        .with_wallet(&mut c.clone())
        .build()
        .unwrap();
    let misrewarded = BlockBuilder::new()
        .transactions(vec![foreign_coinbase])
        .timestamp(2_000)
        .key(&b.get_public())
        .previous_hash(&prev.clone().unwrap())
        .hash_it()
        .sign_with(&b)
        .build();
    assert!(matches!(
        blockchain.add_block(&misrewarded, None),
        Err(BlockchainErrors::InvalidCoinbaseAddress(_))
    ));

    // A block carrying a transaction its origin cannot cover.
    let overdraft = movement(&mut c, "nobody", 1);
    let unfunded = forge_block(&b, prev.clone(), vec![overdraft], 10, 2_000);
    assert!(matches!(
        blockchain.add_block(&unfunded, None),
        Err(BlockchainErrors::CouldntAddBlock(_))
    ));

    // A block forged by the same key as the one before it.
    let repeated = forge_block(&a, prev.clone(), vec![], 10, 2_000);
    assert!(matches!(
        blockchain.add_block(&repeated, None),
        Err(BlockchainErrors::InvalidBlockForger(_))
    ));

    // Nothing of all that moved the chain.
    assert_eq!(blockchain.get_index(), 1);

    // A sound successor still appends.
    let good = forge_block(&b, prev, vec![], 10, 2_000);
    assert!(blockchain.add_block(&good, None).is_ok());
    assert_eq!(blockchain.get_index(), 2);
}
