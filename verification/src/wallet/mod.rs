//! RGB wallet
//!
//! This module defines the [`Wallet`] structure and all its related data.

use vstd::prelude::*;

use crate::error::{InternalError, WalletError};
use crate::keys::{key_of_phrase, key_of_text, read_mnemonic, read_pubkey, WalletKey};
use crate::text::{join_path, path_of};

pub mod compose;
pub mod funding;
pub mod issue;
pub mod listing;
pub mod online;
pub mod outputs;
pub mod paths;
pub mod prepare;
pub mod receive;
pub mod send;
pub mod sending;
pub mod settle;
pub mod transfers;
pub mod types;

use types::{BitcoinNetwork, Online, WalletData};

verus! {

/// An RGB wallet
///
/// A `Wallet` struct holds all the data required to operate it
#[derive(Debug)]
pub struct Wallet {
    wallet_data: WalletData,
    watch_only: bool,
    bitcoin_network: BitcoinNetwork,
    wallet_dir: String,
    online: Option<Online>,
}

/// How a public key compares with a mnemonic phrase.
pub enum KeyCheck {
    /// The keys belong together, or there are no private ones
    Match,
    /// The mnemonic phrase gives another public key
    Differ,
    /// The mnemonic phrase gives no key
    NoKey,
}

/// How a public key compares with the one that a mnemonic phrase gives.
pub open spec fn key_check(xpub: Seq<char>, derived: Option<Seq<char>>) -> KeyCheck {
    match derived {
        None => KeyCheck::NoKey,
        Some(d) => if d == xpub {
            KeyCheck::Match
        } else {
            KeyCheck::Differ
        },
    }
}

/// Tells whether a public key is the one that a mnemonic phrase gives.
pub fn check_keys(xpub: &String, derived: &Option<String>) -> (r: Result<(), WalletError>)
    ensures
        ({
            let check = key_check(xpub@, types::opt_text(*derived));
            &&& r is Ok <==> check is Match
            &&& (r matches Err(WalletError::InvalidBitcoinKeys)) <==> check is Differ
            &&& (r matches Err(WalletError::Internal(InternalError::Unexpected))) <==> check is NoKey
        }),
{
    match derived {
        None => Err(WalletError::Internal(InternalError::Unexpected)),
        Some(d) => if *d == *xpub {
            Ok(())
        } else {
            Err(WalletError::InvalidBitcoinKeys)
        },
    }
}

impl Wallet {
    #[verifier::type_invariant]
    spec fn consistent(self) -> bool {
        &&& self.watch_only == (self.wallet_data.mnemonic is None)
        &&& self.bitcoin_network == self.wallet_data.bitcoin_network
    }

    /// The wallet data provided by the user.
    pub closed spec fn data(&self) -> WalletData {
        self.wallet_data
    }

    /// The wallet data directory.
    pub closed spec fn dir(&self) -> Seq<char> {
        self.wallet_dir@
    }

    /// The data of the connection that the wallet has, if it is online.
    pub closed spec fn connection(&self) -> Option<Online> {
        self.online
    }

    /// Whether online data are those that the wallet went online with.
    pub open spec fn is_online_with(&self, online: Online) -> bool {
        self.connection() matches Some(own) && own@ == online@
    }

    /// The directory of the wallet: named by the fingerprint of its key, below
    /// the data directory.
    pub fn locate(wallet_data: &WalletData, absolute_data_dir: &str, data_dir_exists: bool) -> (r:
        Result<String, WalletError>)
        ensures
            ({
                let key = key_of_text(wallet_data.pubkey@, wallet_data.bitcoin_network);
                &&& (r matches Err(WalletError::InvalidPubkey(_))) <==> key is None
                &&& (r matches Err(WalletError::InexistentDataDir)) <==> key is Some
                    && !data_dir_exists
                &&& r is Ok <==> key is Some && data_dir_exists
                &&& r matches Ok(dir) ==> dir@ == path_of(absolute_data_dir@, (key->0).1)
            }),
    {
        match read_pubkey(wallet_data.pubkey.as_str(), wallet_data.bitcoin_network) {
            Err(e) => Err(WalletError::InvalidPubkey(e)),
            Ok(key) => if !data_dir_exists {
                Err(WalletError::InexistentDataDir)
            } else {
                Ok(join_path(absolute_data_dir, key.fingerprint.as_str()))
            },
        }
    }

    /// Create a new RGB wallet based on the provided [`WalletData`]
    ///
    /// A wallet with a mnemonic phrase holds private keys, which have to belong to
    /// the public key. One without is watch only.
    pub fn new(wallet_data: WalletData, absolute_data_dir: &str, data_dir_exists: bool) -> (r:
        Result<Wallet, WalletError>)
        ensures
            ({
                let network = wallet_data.bitcoin_network;
                let key = key_of_text(wallet_data.pubkey@, network);
                let located = key is Some && data_dir_exists;
                let has_phrase = wallet_data.mnemonic is Some;
                let derived = key_of_phrase(wallet_data.mnemonic->0@, network);
                let check = key_check((key->0).0, derived->0);
                &&& (r matches Err(WalletError::InvalidPubkey(_))) <==> key is None
                &&& (r matches Err(WalletError::InexistentDataDir)) <==> key is Some
                    && !data_dir_exists
                &&& (r matches Err(WalletError::InvalidMnemonic(_))) <==> located && has_phrase
                    && derived is None
                &&& (r matches Err(WalletError::InvalidBitcoinKeys)) <==> located && has_phrase
                    && derived is Some && check is Differ
                &&& (r matches Err(WalletError::Internal(InternalError::Unexpected))) <==> located
                    && has_phrase && derived is Some && check is NoKey
                &&& r is Ok <==> located && (has_phrase ==> derived is Some && check is Match)
                &&& r matches Ok(wallet) ==> {
                    &&& wallet.data() == wallet_data
                    &&& wallet.dir() == path_of(absolute_data_dir@, (key->0).1)
                    &&& wallet.connection() is None
                }
            }),
    {
        let key: WalletKey = match read_pubkey(
            wallet_data.pubkey.as_str(),
            wallet_data.bitcoin_network,
        ) {
            Err(e) => {
                return Err(WalletError::InvalidPubkey(e));
            },
            Ok(key) => key,
        };
        if !data_dir_exists {
            return Err(WalletError::InexistentDataDir);
        }
        let wallet_dir: String = join_path(absolute_data_dir, key.fingerprint.as_str());
        match &wallet_data.mnemonic {
            None => {},
            Some(phrase) => {
                match read_mnemonic(phrase.as_str(), wallet_data.bitcoin_network) {
                    Err(e) => {
                        return Err(WalletError::InvalidMnemonic(e));
                    },
                    Ok(derived) => {
                        match check_keys(&key.xpub, &derived) {
                            Err(e) => {
                                return Err(e);
                            },
                            Ok(()) => {},
                        }
                    },
                }
            },
        }
        let watch_only: bool = wallet_data.mnemonic.is_none();
        let bitcoin_network: BitcoinNetwork = wallet_data.bitcoin_network;
        Ok(Wallet { wallet_data, watch_only, bitcoin_network, wallet_dir, online: None })
    }

    /// Return the wallet data provided by the user
    pub fn get_wallet_data(&self) -> (r: WalletData)
        ensures
            r == self.data(),
    {
        self.wallet_data.clone()
    }

    /// Return the wallet data directory
    pub fn get_wallet_dir(&self) -> (r: String)
        ensures
            r@ == self.dir(),
    {
        self.wallet_dir.clone()
    }

    /// Fails unless the given online data are those that the wallet went online
    /// with.
    pub fn check_online(&self, online: &Online) -> (r: Result<(), WalletError>)
        ensures
            r is Ok <==> self.is_online_with(*online),
            r is Err ==> r matches Err(WalletError::InvalidOnline),
    {
        match &self.online {
            Some(own) => if own.id == online.id && own.electrum_url == online.electrum_url {
                Ok(())
            } else {
                Err(WalletError::InvalidOnline)
            },
            None => Err(WalletError::InvalidOnline),
        }
    }

    /// Fails for a watch only wallet.
    pub fn check_xprv(&self) -> (r: Result<(), WalletError>)
        ensures
            r is Ok <==> self.data().mnemonic is Some,
            r is Err ==> r matches Err(WalletError::WatchOnly),
    {
        proof {
            use_type_invariant(self);
        }
        if self.watch_only {
            Err(WalletError::WatchOnly)
        } else {
            Ok(())
        }
    }
}

} // verus!
