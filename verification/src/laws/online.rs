//! Wallets and their connections.

use vstd::prelude::*;

use crate::database::{DbAsset, DbTxo};
use crate::error::{InternalError, WalletError};
use crate::keys::{key_of_phrase, key_of_text};
use crate::laws::is_among;
use crate::laws::text::{below, lemma_below};
use crate::laws::transfers::is_connected;
use crate::text::decimal;
use crate::wallet::online::{
    after_silence, check_assets, check_bitcoins, has_text, is_in_texts, GoOnline, RGB_NODE_TRIES,
};
use crate::wallet::types::{listed, BitcoinNetwork, Online, Outpoint, WalletData};
use crate::wallet::{check_keys, Wallet};

verus! {

/// Whether an attempt to go online is right. A wallet that is online stays with its server,
/// and no other. Any other wallet connects to the server under a new ID, checks it unless
/// the network is a local one, and checks itself unless that is to be skipped.
pub open spec fn goes_online(
    before: Option<Online>,
    after: Option<Online>,
    r: Result<GoOnline, WalletError>,
    url: Seq<char>,
    id: u64,
    network: BitcoinNetwork,
    skip_consistency_check: bool,
) -> bool {
    match before {
        Some(own) => {
            &&& after matches Some(kept) && kept.id == own.id && kept.electrum_url@
                == own.electrum_url@
            &&& own.electrum_url@ == url ==> (r matches Ok(GoOnline::Existing(told)) && told.id
                == own.id && told.electrum_url@ == url)
            &&& own.electrum_url@ != url ==> (r matches Err(WalletError::CannotChangeOnline))
        },
        None => {
            &&& after matches Some(new) && new.id == id && new.electrum_url@ == url
            &&& r matches Ok(GoOnline::Start(c)) && {
                &&& c.online.id == id
                &&& c.online.electrum_url@ == url
                &&& c.check_consistency <==> !skip_consistency_check
                &&& c.probe_server <==> !(network is Regtest)
                &&& c.electrum.url@ == url
                &&& c.electrum.retry == 3
                &&& c.electrum.timeout == 5
                &&& c.electrum.stop_gap == 20
                &&& c.rpc_endpoint@ == "rpc-endpoint-"@ + decimal(id as nat)
                &&& c.ctl_endpoint@ == "ctl-endpoint-"@ + decimal(id as nat)
                &&& c.storm_endpoint@ == "storm-endpoint-"@ + decimal(id as nat)
                &&& c.store_endpoint@ == "store-endpoint-"@ + decimal(id as nat)
            }
        },
    }
}

/// Data of a connection are valid exactly where they have the ID and the server of the
/// connection that the wallet has. Only a wallet with a mnemonic phrase has private keys.
pub proof fn connections_are_checked(
    wallet: Wallet,
    online: Online,
    checked: Result<(), WalletError>,
    keys: Result<(), WalletError>,
)
    requires
        call_ensures(Wallet::check_online, (&wallet, &online), checked),
        call_ensures(Wallet::check_xprv, (&wallet,), keys),
    ensures
        is_connected(wallet, online) ==> checked is Ok,
        !is_connected(wallet, online) ==> (checked matches Err(WalletError::InvalidOnline)),
        wallet.data().mnemonic is Some ==> keys is Ok,
        wallet.data().mnemonic is None ==> (keys matches Err(WalletError::WatchOnly)),
{
}

/// A silent RGB node is asked again as long as there are tries, one less each time.
pub proof fn tries_run_out(tries_left: usize, r: Result<usize, WalletError>)
    requires
        call_ensures(after_silence, (tries_left,), r),
    ensures
        tries_left > 0 ==> (r matches Ok(left) && left + 1 == tries_left),
        tries_left == 0 ==> (r matches Err(
            WalletError::Internal(InternalError::CannotQueryRgbNode),
        )),
{
}

/// A silent RGB node is given up once it has been asked and then twenty times again. The
/// sequence holds how many tries are left each time.
pub proof fn silent_nodes_are_given_up(left: Seq<usize>, e: WalletError)
    requires
        left.len() > 0,
        left[0] == RGB_NODE_TRIES,
        forall|k: int|
            0 < k < left.len() ==> call_ensures(
                after_silence,
                (left[k - 1],),
                Ok::<usize, WalletError>(#[trigger] left[k]),
            ),
        call_ensures(after_silence, (left.last(),), Err::<usize, WalletError>(e)),
    ensures
        left.len() == 21,
{
    lemma_left(left, left.len() - 1);
}

proof fn lemma_left(left: Seq<usize>, k: int)
    requires
        0 <= k < left.len(),
        forall|i: int|
            0 < i < left.len() ==> call_ensures(
                after_silence,
                (left[i - 1],),
                Ok::<usize, WalletError>(#[trigger] left[i]),
            ),
    ensures
        left[k] + k == left[0],
    decreases k,
{
    if k > 0 {
        lemma_left(left, k - 1);
        assert(call_ensures(after_silence, (left[k - 1],), Ok::<usize, WalletError>(left[k])));
    }
}

/// A wallet is consistent where each output that counts as unspent is unspent. What counts
/// as spent does not matter.
pub proof fn unspent_outputs_are_there(
    txos: Vec<DbTxo>,
    unspent: Vec<Outpoint>,
    r: Result<(), WalletError>,
)
    requires
        call_ensures(check_bitcoins, (&txos, &unspent), r),
    ensures
        (forall|i: int|
            0 <= i < txos@.len() && !(#[trigger] txos@[i]).spent ==> is_among(
                unspent@,
                txos@[i].txid@,
                txos@[i].vout,
            )) ==> r is Ok,
        (exists|i: int|
            0 <= i < txos@.len() && !(#[trigger] txos@[i]).spent && !is_among(
                unspent@,
                txos@[i].txid@,
                txos@[i].vout,
            )) ==> (r matches Err(WalletError::Inconsistency(details)) && details@
            == "spent bitcoins with another wallet"@),
{
    assert forall|i: int| 0 <= i < txos@.len() implies is_among(
        unspent@,
        (#[trigger] txos@[i]).txid@,
        txos@[i].vout,
    ) == listed(unspent@, txos@[i].outpoint_spec()@) by {
        lemma_listed(unspent@, txos@[i]);
    }
}

proof fn lemma_listed(outpoints: Seq<Outpoint>, t: DbTxo)
    ensures
        is_among(outpoints, t.txid@, t.vout) <==> listed(outpoints, t.outpoint_spec()@),
{
    if is_among(outpoints, t.txid@, t.vout) {
        let k = choose|k: int|
            0 <= k < outpoints.len() && (#[trigger] outpoints[k]).txid@ == t.txid@
                && outpoints[k].vout == t.vout;
        assert(outpoints[k]@ == t.outpoint_spec()@);
    }
    if listed(outpoints, t.outpoint_spec()@) {
        let k = choose|k: int|
            0 <= k < outpoints.len() && (#[trigger] outpoints[k])@ == t.outpoint_spec()@;
        assert(outpoints[k]@.0 == t.outpoint_spec()@.0);
        assert(outpoints[k].txid@ == t.txid@);
    }
}

/// Whether a contract is one of a list.
pub open spec fn is_contract(contract_ids: Seq<String>, id: Seq<char>) -> bool {
    exists|k: int| 0 <= k < contract_ids.len() && (#[trigger] contract_ids[k])@ == id
}

/// A wallet is consistent where the RGB node knows the contracts of all its assets.
pub proof fn assets_are_known_to_the_node(
    assets: Vec<DbAsset>,
    contract_ids: Vec<String>,
    r: Result<(), WalletError>,
    t: String,
    found: bool,
)
    requires
        call_ensures(check_assets, (&assets, &contract_ids), r),
        call_ensures(is_in_texts, (&contract_ids, &t), found),
    ensures
        found <==> is_contract(contract_ids@, t@),
        (forall|i: int|
            0 <= i < assets@.len() ==> is_contract(
                contract_ids@,
                (#[trigger] assets@[i]).asset_id@,
            )) ==> r is Ok,
        (exists|i: int|
            0 <= i < assets@.len() && !is_contract(
                contract_ids@,
                (#[trigger] assets@[i]).asset_id@,
            )) ==> (r matches Err(WalletError::Inconsistency(details)) && details@
            == "DB assets do not match with ones stored in RGB"@),
{
    assert forall|id: Seq<char>| #[trigger] is_contract(contract_ids@, id) <==> has_text(
        contract_ids@,
        id,
    ) by {}
    assert forall|i: int| 0 <= i < assets@.len() implies is_contract(
        contract_ids@,
        (#[trigger] assets@[i]).asset_id@,
    ) == has_text(contract_ids@, assets@[i].asset_id@) by {}
    if exists|i: int|
        0 <= i < assets@.len() && !is_contract(
            contract_ids@,
            (#[trigger] assets@[i]).asset_id@,
        ) {
        let i = choose|i: int|
            0 <= i < assets@.len() && !is_contract(
                contract_ids@,
                (#[trigger] assets@[i]).asset_id@,
            );
        assert(!has_text(contract_ids@, assets@[i].asset_id@));
        assert(r is Err);
    }
}

/// A public key belongs to a mnemonic phrase exactly where the phrase gives that key.
pub proof fn keys_belong_together(
    xpub: String,
    derived: Option<String>,
    r: Result<(), WalletError>,
)
    requires
        call_ensures(check_keys, (&xpub, &derived), r),
    ensures
        match derived {
            None => r matches Err(WalletError::Internal(InternalError::Unexpected)),
            Some(key) => if key@ == xpub@ {
                r is Ok
            } else {
                r matches Err(WalletError::InvalidBitcoinKeys)
            },
        },
{
}

/// A wallet is made of a valid public key, a data directory that exists and, where there is
/// one, a mnemonic phrase that gives the same key. Its directory has the fingerprint of the
/// key as its name, and it starts offline with the data that are given.
pub proof fn wallets_are_made_of_matching_keys(
    wallet_data: WalletData,
    data_dir: &str,
    data_dir_exists: bool,
    located: Result<String, WalletError>,
    r: Result<Wallet, WalletError>,
)
    requires
        call_ensures(Wallet::locate, (&wallet_data, data_dir, data_dir_exists), located),
        call_ensures(Wallet::new, (wallet_data, data_dir, data_dir_exists), r),
    ensures
        match key_of_text(wallet_data.pubkey@, wallet_data.bitcoin_network) {
            None => {
                &&& located matches Err(WalletError::InvalidPubkey(_))
                &&& r matches Err(WalletError::InvalidPubkey(_))
            },
            Some(key) => if !data_dir_exists {
                &&& located matches Err(WalletError::InexistentDataDir)
                &&& r matches Err(WalletError::InexistentDataDir)
            } else {
                &&& located matches Ok(dir) && dir@ == below(data_dir@, key.1)
                &&& match wallet_data.mnemonic {
                    None => r is Ok,
                    Some(phrase) => match key_of_phrase(
                        phrase@,
                        wallet_data.bitcoin_network,
                    ) {
                        None => r matches Err(WalletError::InvalidMnemonic(_)),
                        Some(None) => r matches Err(
                            WalletError::Internal(InternalError::Unexpected),
                        ),
                        Some(Some(own)) => if own == key.0 {
                            r is Ok
                        } else {
                            r matches Err(WalletError::InvalidBitcoinKeys)
                        },
                    },
                }
                &&& r matches Ok(wallet) ==> {
                    &&& wallet.data() == wallet_data
                    &&& wallet.dir() == below(data_dir@, key.1)
                    &&& wallet.connection() is None
                }
            },
        },
{
    let key = key_of_text(wallet_data.pubkey@, wallet_data.bitcoin_network);
    if key is Some {
        lemma_below(data_dir@, (key->0).1);
    }
}

/// A wallet shows the data that it was made of, and its directory.
pub proof fn wallets_show_their_data(wallet: Wallet, data: WalletData, dir: String)
    requires
        call_ensures(Wallet::get_wallet_data, (&wallet,), data),
        call_ensures(Wallet::get_wallet_dir, (&wallet,), dir),
    ensures
        data == wallet.data(),
        dir@ == wallet.dir(),
{
}

/// Going online keeps the data of a wallet, and the connection that it has.
pub proof fn wallets_stay_with_their_servers(
    wallet: &mut Wallet,
    electrum_url: String,
    skip_consistency_check: bool,
    now_nanos: i128,
    r: Result<GoOnline, WalletError>,
)
    requires
        call_ensures(
            Wallet::go_online,
            (wallet, electrum_url, skip_consistency_check, now_nanos),
            r,
        ),
    ensures
        final(wallet).data() == old(wallet).data(),
        final(wallet).dir() == old(wallet).dir(),
        goes_online(
            old(wallet).connection(),
            final(wallet).connection(),
            r,
            electrum_url@,
            now_nanos as u64,
            old(wallet).data().bitcoin_network,
            skip_consistency_check,
        ),
{
}

/// A wallet that could not connect is offline again, and one that could keeps its
/// connection. Its data stay as they are, and the outcome is told.
pub proof fn failed_connections_are_dropped(
    wallet: &mut Wallet,
    outcome: Result<Online, WalletError>,
    r: Result<Online, WalletError>,
)
    requires
        call_ensures(Wallet::end_go_online, (wallet, outcome), r),
    ensures
        final(wallet).data() == old(wallet).data(),
        final(wallet).dir() == old(wallet).dir(),
        outcome is Err ==> final(wallet).connection() is None,
        outcome is Ok ==> final(wallet).connection() == old(wallet).connection(),
        r == outcome,
{
}

} // verus!
