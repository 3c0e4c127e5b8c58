//! The keys of a wallet.

use std::str::FromStr;

use bdk::bitcoin::secp256k1::Secp256k1;
use bdk::bitcoin::Network;
use bdk::keys::bip39::{Language, Mnemonic};
use bdk::keys::{DerivableKey, ExtendedKey};
use bdk::miniscript::Segwitv0;
use bitcoin::util::bip32::ExtendedPubKey;
use vstd::prelude::*;

use crate::wallet::types::BitcoinNetwork;

verus! {

/// An extended public key with its fingerprint.
#[derive(Debug, PartialEq, Eq)]
pub struct WalletKey {
    /// The key, in its text form for the network of the wallet
    pub xpub: String,
    /// The fingerprint of the key, in hexadecimal
    pub fingerprint: String,
}

/// The text form, for a network, and the fingerprint of the extended public key
/// that a text holds, if it holds one.
pub uninterp spec fn key_of_text(pubkey: Seq<char>, network: BitcoinNetwork) -> Option<
    (Seq<char>, Seq<char>),
>;

/// The text form, for a network, of the extended public key of a mnemonic
/// phrase: nothing where the phrase cannot be read, and no key where its seed
/// gives none.
pub uninterp spec fn key_of_phrase(phrase: Seq<char>, network: BitcoinNetwork) -> Option<
    Option<Seq<char>>,
>;

/// Calls `ExtendedPubKey::from_str`, and `ExtendedKey::into_xpub` and
/// `ExtendedPubKey::fingerprint` on what it gives. What comes back is fixed by
/// the text and the network.
#[verifier::external_body]
pub(crate) fn read_pubkey(pubkey: &str, network: BitcoinNetwork) -> (r: Result<
    WalletKey,
    bitcoin::util::bip32::Error,
>)
    ensures
        r matches Ok(key) ==> key_of_text(pubkey@, network) == Some(
            (key.xpub@, key.fingerprint@),
        ),
        r is Err ==> key_of_text(pubkey@, network) is None,
{
    let network = match network {
        BitcoinNetwork::Mainnet => Network::Bitcoin,
        BitcoinNetwork::Testnet => Network::Testnet,
        BitcoinNetwork::Signet => Network::Signet,
        BitcoinNetwork::Regtest => Network::Regtest,
    };
    let key: ExtendedKey<Segwitv0> = ExtendedKey::from(ExtendedPubKey::from_str(pubkey)?);
    let xpub = key.into_xpub(network, &Secp256k1::new());
    Ok(WalletKey { xpub: xpub.to_string(), fingerprint: xpub.fingerprint().to_string() })
}

/// Calls `Mnemonic::parse_in` for the English word list, and
/// `Mnemonic::into_extended_key` and `ExtendedKey::into_xpub` on what it gives.
/// What comes back is fixed by the phrase and the network.
#[verifier::external_body]
pub(crate) fn read_mnemonic(phrase: &str, network: BitcoinNetwork) -> (r: Result<
    Option<String>,
    bdk::keys::bip39::Error,
>)
    ensures
        r matches Ok(Some(xpub)) ==> key_of_phrase(phrase@, network) == Some(Some(xpub@)),
        r matches Ok(None) ==> key_of_phrase(phrase@, network) == Some(None::<Seq<char>>),
        r is Err ==> key_of_phrase(phrase@, network) is None,
{
    let network = match network {
        BitcoinNetwork::Mainnet => Network::Bitcoin,
        BitcoinNetwork::Testnet => Network::Testnet,
        BitcoinNetwork::Signet => Network::Signet,
        BitcoinNetwork::Regtest => Network::Regtest,
    };
    let mnemonic = Mnemonic::parse_in(Language::English, phrase)?;
    let key: Option<ExtendedKey<Segwitv0>> = mnemonic.into_extended_key().ok();
    Ok(key.map(|k| k.into_xpub(network, &Secp256k1::new()).to_string()))
}

} // verus!
