// The chainstate fold: transaction effects on balances and nonces, the
// spendability checks, and the bounded recent-staker list.

use pos_chain::chainstate::Chainstate;
use pos_chain::key::Key;
use pos_chain::transaction::Transaction;

fn coinbase(to: &str, ammount: u64) -> Transaction {
    Transaction::COINBASE { to_address: to.to_string(), ammount, hash: String::new() }
}

fn movement(from: &str, to: &str, ammount: u64, history: u64) -> Transaction {
    Transaction::MOVEMENT {
        author_public_key: Key(vec![]),
        signature: Key(vec![]),
        from_address: from.to_string(),
        to_address: to.to_string(),
        ammount,
        hash: String::new(),
        history,
    }
}

fn stake(from: &str, ammount: u64, history: u64) -> Transaction {
    Transaction::STAKE {
        author_public_key: Key(vec![]),
        signature: Key(vec![]),
        from_address: from.to_string(),
        ammount,
        hash: format!("stake {} {}", from, history),
        history,
    }
}

#[test]
fn effects_and_checks() {
    let mut state = Chainstate::new();
    assert_eq!(state.get_address_ammount("alice".to_string()), 0);

    state.effect_transaction(&coinbase("alice", 100));
    assert_eq!(state.get_address_ammount("alice".to_string()), 100);

    // Spendability and anti-replay checks.
    assert!(state.verify_transaction_ammount(&movement("alice", "bob", 40, 0)));
    assert!(!state.verify_transaction_ammount(&movement("alice", "bob", 101, 0)));
    assert!(!state.verify_transaction_ammount(&movement("bob", "alice", 1, 0)));
    assert!(state.verify_transaction_history(&movement("alice", "bob", 40, 0)));
    assert!(!state.verify_transaction_history(&movement("alice", "bob", 40, 1)));

    // A movement with the right nonce moves funds and steps the nonce.
    state.effect_transaction(&movement("alice", "bob", 40, 0));
    assert_eq!(state.get_address_ammount("alice".to_string()), 60);
    assert_eq!(state.get_address_ammount("bob".to_string()), 40);

    // Replaying it is a no-op: the nonce already moved on.
    state.effect_transaction(&movement("alice", "bob", 40, 0));
    assert_eq!(state.get_address_ammount("alice".to_string()), 60);
    assert_eq!(state.get_address_ammount("bob".to_string()), 40);

    // A stake burns the amount from the origin and registers it.
    state.effect_transaction(&stake("alice", 5, 1));
    assert_eq!(state.get_address_ammount("alice".to_string()), 55);
    assert_eq!(state.staking_transactions().len(), 1);

    // An unfunded stake is a no-op.
    state.effect_transaction(&stake("nobody", 5, 0));
    assert_eq!(state.staking_transactions().len(), 1);
}

#[test]
fn recent_stakes_evict_oldest() {
    let mut state = Chainstate::new();
    state.effect_transaction(&coinbase("alice", 10_000));
    for nonce in 0..101u64 {
        state.effect_transaction(&stake("alice", 1, nonce));
    }
    let stakes = state.staking_transactions();
    assert_eq!(stakes.len(), 100);
    // The oldest stake (nonce zero) was evicted.
    assert_eq!(stakes[0].get_history(), 1);
    assert_eq!(stakes[99].get_history(), 100);
}

#[test]
fn forger_bookkeeping() {
    let mut state = Chainstate::new();
    let alice = "alice".to_string();
    let bob = "bob".to_string();
    let carol = "carol".to_string();

    assert!(!state.is_punished(&alice));
    state.punish(&alice, 4);
    assert!(state.is_punished(&alice));

    // Forgiveness only clears entries strictly before the index.
    state.forgive_expired(4);
    assert!(state.is_punished(&alice));
    state.forgive_expired(5);
    assert!(!state.is_punished(&alice));

    // The recent-forger window keeps the last two.
    state.add_recent_forger(&alice);
    state.add_recent_forger(&bob);
    assert!(state.has_recent_forger(&alice));
    state.add_recent_forger(&carol);
    assert!(!state.has_recent_forger(&alice));
    assert!(state.has_recent_forger(&bob));
    assert!(state.has_recent_forger(&carol));
}
