//! Builds the three kinds of transaction, hashing their canonical form
//! and signing movements and stakes with a wallet.

use vstd::prelude::*;

use crate::digest::keccak_hex;
use crate::key::{address_of, Key};
use crate::text::u64_to_dec;
use crate::transaction::{Transaction, TxV};
use crate::wallet::Wallet;
use vstd::string::StringExecFns;

verus! {

/// Which kind of transaction is being built.
pub enum TransactionType {
    MOVEMENT,
    STAKE,
    COINBASE,
}

/// A transaction under construction.
pub struct TransactionBuilder {
    pub author_public_key: Option<Key>,
    pub from_address: Option<String>,
    pub to_address: Option<String>,
    pub ammount: Option<u64>,
    pub history: Option<u64>,
    pub type_tx: Option<TransactionType>,
    pub wallet: Option<Wallet>,
}

impl TransactionBuilder {
    /// An empty builder.
    pub fn new() -> (r: Self)
        ensures
            r.author_public_key is None,
            r.from_address is None,
            r.to_address is None,
            r.ammount is None,
            r.history is None,
            r.type_tx is None,
            r.wallet is None,
    {
        TransactionBuilder {
            author_public_key: None,
            from_address: None,
            to_address: None,
            ammount: None,
            history: None,
            type_tx: None,
            wallet: None,
        }
    }

    /// Sets the destination address.
    pub fn to_address(self, to_address: &str) -> (r: Self)
        ensures
            r.to_address matches Some(a) && a@ == to_address@,
            r.author_public_key == self.author_public_key,
            r.from_address == self.from_address,
            r.ammount == self.ammount,
            r.history == self.history,
            r.type_tx == self.type_tx,
            r.wallet == self.wallet,
    {
        TransactionBuilder { to_address: Some(String::from_str(to_address)), ..self }
    }

    /// Sets the amount.
    pub fn ammount(self, ammount: u64) -> (r: Self)
        ensures
            r.ammount == Some(ammount),
            r.author_public_key == self.author_public_key,
            r.from_address == self.from_address,
            r.to_address == self.to_address,
            r.history == self.history,
            r.type_tx == self.type_tx,
            r.wallet == self.wallet,
    {
        TransactionBuilder { ammount: Some(ammount), ..self }
    }

    /// Sets the kind.
    pub fn is_type(self, type_tx: TransactionType) -> (r: Self)
        ensures
            r.type_tx == Some(type_tx),
            r.author_public_key == self.author_public_key,
            r.from_address == self.from_address,
            r.to_address == self.to_address,
            r.ammount == self.ammount,
            r.history == self.history,
            r.wallet == self.wallet,
    {
        TransactionBuilder { type_tx: Some(type_tx), ..self }
    }

    /// Takes the author, origin address and nonce from the wallet, and
    /// steps the wallet's history unless a coinbase is being built.
    pub fn with_wallet(self, wallet: &mut Wallet) -> (r: Self)
        requires
            self.type_tx is Some,
            old(wallet).spec_history() < u64::MAX,
        ensures
            r.wallet matches Some(w) && w.spec_secret() == old(wallet).spec_secret()
                && w.spec_history() == old(wallet).spec_history(),
            r.author_public_key matches Some(k) && k@ == old(wallet).spec_public(),
            r.from_address matches Some(a) && a@ == address_of(old(wallet).spec_public()),
            r.history == Some(old(wallet).spec_history()),
            r.to_address == self.to_address,
            r.ammount == self.ammount,
            r.type_tx == self.type_tx,
            (match self.type_tx {
                Some(TransactionType::COINBASE) => final(wallet).spec_history() == old(
                    wallet,
                ).spec_history(),
                _ => final(wallet).spec_history() == old(wallet).spec_history() + 1,
            }),
            final(wallet).spec_secret() == old(wallet).spec_secret(),
    {
        let snapshot = wallet.clone();
        let history = wallet.get_history();
        let author = wallet.get_public();
        let from = author.hash_it();
        match self.type_tx {
            Some(TransactionType::COINBASE) => {},
            _ => {
                wallet.advance_history();
            },
        }
        TransactionBuilder {
            wallet: Some(snapshot),
            history: Some(history),
            author_public_key: Some(author),
            from_address: Some(from),
            ..self
        }
    }

    /// Assembles the transaction: the canonical fields are hashed, and a
    /// movement or stake is signed by the wallet. `None` only on the
    /// wallet's failed signature draw.
    pub fn build(&self) -> (r: Option<Transaction>)
        requires
            self.type_tx is Some,
            self.to_address is Some || !(self.type_tx matches Some(
                TransactionType::COINBASE,
            ) || self.type_tx matches Some(TransactionType::MOVEMENT)),
            self.ammount is Some,
            (match self.type_tx {
                Some(TransactionType::COINBASE) => true,
                _ => self.wallet is Some && self.history is Some && self.author_public_key is Some
                    && self.from_address is Some,
            }),
            (match (self.type_tx, &self.wallet, &self.author_public_key, &self.from_address) {
                (Some(TransactionType::COINBASE), _, _, _) => true,
                (_, Some(w), Some(k), Some(a)) => k@ == w.spec_public() && a@ == address_of(k@)
                    && self.history == Some(w.spec_history()),
                _ => false,
            }),
        ensures
            (self.type_tx matches Some(TransactionType::COINBASE)) ==> r is Some,
            r matches Some(t) ==> t@.valid(),
            r matches Some(t) ==> (match self.type_tx {
                Some(TransactionType::COINBASE) => t@ matches TxV::Coinbase { to, ammount, .. }
                    && Some(to) == match &self.to_address {
                    Some(a) => Some(a@),
                    None => None,
                } && Some(ammount) == self.ammount,
                Some(TransactionType::MOVEMENT) => t@ matches TxV::Movement {
                    author,
                    from,
                    to,
                    ammount,
                    history,
                    ..
                } && Some(author) == match &self.author_public_key {
                    Some(k) => Some(k@),
                    None => None,
                } && Some(to) == match &self.to_address {
                    Some(a) => Some(a@),
                    None => None,
                } && Some(from) == match &self.from_address {
                    Some(a) => Some(a@),
                    None => None,
                } && Some(ammount) == self.ammount && Some(history) == self.history,
                Some(TransactionType::STAKE) => t@ matches TxV::Stake {
                    author,
                    from,
                    ammount,
                    history,
                    ..
                } && Some(author) == match &self.author_public_key {
                    Some(k) => Some(k@),
                    None => None,
                } && Some(from) == match &self.from_address {
                    Some(a) => Some(a@),
                    None => None,
                } && Some(ammount) == self.ammount && Some(history) == self.history,
                None => false,
            }),
    {
        match self.type_tx {
            Some(TransactionType::COINBASE) => {
                let to_address = match &self.to_address {
                    Some(a) => a.clone(),
                    None => String::new(),
                };
                let ammount = match self.ammount {
                    Some(a) => a,
                    None => 0,
                };
                let mut canon = to_address.clone();
                let a = u64_to_dec(ammount);
                canon.append(a.as_str());
                let hash = keccak_hex(canon.as_str());
                let t = Transaction::COINBASE { to_address, ammount, hash };
                proof {
                    assert(canon@ =~= t@.canon());
                }
                Some(t)
            },
            Some(TransactionType::MOVEMENT) => {
                let wallet = match &self.wallet {
                    Some(w) => w,
                    None => {
                        return None;
                    },
                };
                let author_public_key = match &self.author_public_key {
                    Some(k) => k.clone(),
                    None => {
                        return None;
                    },
                };
                let from_address = match &self.from_address {
                    Some(a) => a.clone(),
                    None => {
                        return None;
                    },
                };
                let to_address = match &self.to_address {
                    Some(a) => a.clone(),
                    None => String::new(),
                };
                let ammount = match self.ammount {
                    Some(a) => a,
                    None => 0,
                };
                let history = match self.history {
                    Some(h) => h,
                    None => 0,
                };
                let mut canon = author_public_key.to_text();
                canon.append(from_address.as_str());
                canon.append(to_address.as_str());
                let a = u64_to_dec(ammount);
                canon.append(a.as_str());
                let h = u64_to_dec(history);
                canon.append(h.as_str());
                let hash = keccak_hex(canon.as_str());
                let signature = match wallet.sign_data(hash.clone()) {
                    Some(s) => s,
                    None => {
                        return None;
                    },
                };
                let t = Transaction::MOVEMENT {
                    author_public_key,
                    signature,
                    from_address,
                    to_address,
                    ammount,
                    hash,
                    history,
                };
                proof {
                    assert(canon@ =~= t@.canon());
                }
                Some(t)
            },
            Some(TransactionType::STAKE) => {
                let wallet = match &self.wallet {
                    Some(w) => w,
                    None => {
                        return None;
                    },
                };
                let author_public_key = match &self.author_public_key {
                    Some(k) => k.clone(),
                    None => {
                        return None;
                    },
                };
                let from_address = match &self.from_address {
                    Some(a) => a.clone(),
                    None => {
                        return None;
                    },
                };
                let ammount = match self.ammount {
                    Some(a) => a,
                    None => 0,
                };
                let history = match self.history {
                    Some(h) => h,
                    None => 0,
                };
                let mut canon = author_public_key.to_text();
                canon.append(from_address.as_str());
                let a = u64_to_dec(ammount);
                canon.append(a.as_str());
                let h = u64_to_dec(history);
                canon.append(h.as_str());
                let hash = keccak_hex(canon.as_str());
                let signature = match wallet.sign_data(hash.clone()) {
                    Some(s) => s,
                    None => {
                        return None;
                    },
                };
                let t = Transaction::STAKE {
                    author_public_key,
                    signature,
                    from_address,
                    ammount,
                    hash,
                    history,
                };
                proof {
                    assert(canon@ =~= t@.canon());
                }
                Some(t)
            },
            None => None,
        }
    }
}

} // verus!
