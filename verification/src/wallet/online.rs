//! Going online.

use vstd::prelude::*;
use vstd::string::*;

use crate::database::{DbAsset, DbTxo};
use crate::error::{InternalError, WalletError};
use crate::laws::online::goes_online;
use crate::text::{decimal, joined, u64_to_string};
use crate::wallet::types::{is_listed, listed, BitcoinNetwork, Online, Outpoint};
use crate::wallet::Wallet;

verus! {

/// How many times an RGB node that does not answer is asked again.
pub const RGB_NODE_TRIES: usize = 20;

/// The settings of the connection to an electrum server.
#[derive(Debug, PartialEq, Eq)]
pub struct ElectrumSettings {
    /// URL of the server
    pub url: String,
    /// How many times a request is repeated
    pub retry: u8,
    /// How many seconds an answer may take
    pub timeout: u8,
    /// How many unused addresses end a scan
    pub stop_gap: usize,
}

/// What a wallet that goes online needs to connect to.
#[derive(Debug, PartialEq, Eq)]
pub struct Connecting {
    /// The new online data
    pub online: Online,
    /// Whether the server has to know the network's reference transaction
    pub probe_server: bool,
    /// The settings of the electrum connection
    pub electrum: ElectrumSettings,
    /// The endpoint for RPC requests
    pub rpc_endpoint: String,
    /// The endpoint for control messages
    pub ctl_endpoint: String,
    /// The endpoint of the messaging service
    pub storm_endpoint: String,
    /// The endpoint of the storage service
    pub store_endpoint: String,
    /// Whether the wallet's consistency has to be checked
    pub check_consistency: bool,
}

/// How an attempt to go online starts.
#[derive(Debug, PartialEq, Eq)]
pub enum GoOnline {
    /// The wallet is already online with that server
    Existing(Online),
    /// The wallet has to connect
    Start(Connecting),
}

/// What connecting to a server under an ID takes.
pub open spec fn connects(
    c: Connecting,
    id: u64,
    url: Seq<char>,
    network: BitcoinNetwork,
    skip_consistency_check: bool,
) -> bool {
    &&& c.check_consistency == !skip_consistency_check
    &&& c.online@ == (id, url)
    &&& c.probe_server == (network != BitcoinNetwork::Regtest)
    &&& c.electrum.url@ == url
    &&& c.electrum.retry == 3
    &&& c.electrum.timeout == 5
    &&& c.electrum.stop_gap == 20
    &&& c.rpc_endpoint@ == "rpc-endpoint-"@ + decimal(id as nat)
    &&& c.ctl_endpoint@ == "ctl-endpoint-"@ + decimal(id as nat)
    &&& c.storm_endpoint@ == "storm-endpoint-"@ + decimal(id as nat)
    &&& c.store_endpoint@ == "store-endpoint-"@ + decimal(id as nat)
}

/// How an attempt to go online starts. A wallet that is online stays so with its
/// server, and no other. One that is not takes on new online data.
pub open spec fn online_decided(
    before: Option<Online>,
    after: Option<Online>,
    r: Result<GoOnline, WalletError>,
    url: Seq<char>,
    id: u64,
    network: BitcoinNetwork,
    skip_consistency_check: bool,
) -> bool {
    match before {
        Some(own) => {
            &&& after == before
            &&& own.electrum_url@ == url ==> r == Ok::<GoOnline, WalletError>(
                GoOnline::Existing(own),
            )
            &&& own.electrum_url@ != url ==> (r matches Err(WalletError::CannotChangeOnline))
        },
        None => r matches Ok(GoOnline::Start(c)) && after == Some(c.online) && connects(
            c,
            id,
            url,
            network,
            skip_consistency_check,
        ),
    }
}

impl Wallet {
    /// Return the existing or freshly generated set of wallet [`Online`] data
    ///
    /// A wallet that is online stays with its server. One that is not is given new
    /// data, whose ID is the given time in nanoseconds, and has to connect.
    ///
    /// Setting skip_consistency_check to true bypases the check and allows operating an
    /// inconsistent wallet. Warning: this is dangerous, only do this if you know what you're doing!
    pub fn go_online(
        &mut self,
        electrum_url: String,
        skip_consistency_check: bool,
        now_nanos: i128,
    ) -> (r: Result<GoOnline, WalletError>)
        ensures
            final(self).data() == old(self).data(),
            final(self).dir() == old(self).dir(),
            online_decided(
                old(self).connection(),
                final(self).connection(),
                r,
                electrum_url@,
                now_nanos as u64,
                old(self).data().bitcoin_network,
                skip_consistency_check,
            ),
            goes_online(
                old(self).connection(),
                final(self).connection(),
                r,
                electrum_url@,
                now_nanos as u64,
                old(self).data().bitcoin_network,
                skip_consistency_check,
            ),
    {
        proof {
            use_type_invariant(&*self);
        }
        match &self.online {
            Some(own) => {
                if electrum_url == own.electrum_url {
                    return Ok(GoOnline::Existing(own.clone()));
                } else {
                    return Err(WalletError::CannotChangeOnline);
                }
            },
            None => {},
        }
        let id: u64 = #[verifier::truncate] (now_nanos as u64);
        let id_text: String = u64_to_string(id);
        let online: Online = Online { id, electrum_url: electrum_url.clone() };
        let probe_server: bool = !matches!(self.bitcoin_network, BitcoinNetwork::Regtest);
        let c: Connecting = Connecting {
            online: online.clone(),
            probe_server,
            electrum: ElectrumSettings { url: electrum_url, retry: 3, timeout: 5, stop_gap: 20 },
            rpc_endpoint: joined("rpc-endpoint-", id_text.as_str()),
            ctl_endpoint: joined("ctl-endpoint-", id_text.as_str()),
            storm_endpoint: joined("storm-endpoint-", id_text.as_str()),
            store_endpoint: joined("store-endpoint-", id_text.as_str()),
            check_consistency: !skip_consistency_check,
        };
        self.online = Some(online);
        Ok(GoOnline::Start(c))
    }

    /// Ends an attempt to go online: where connecting failed, the wallet is offline
    /// again.
    pub fn end_go_online(&mut self, outcome: Result<Online, WalletError>) -> (r: Result<
        Online,
        WalletError,
    >)
        ensures
            final(self).data() == old(self).data(),
            final(self).dir() == old(self).dir(),
            r == outcome,
            outcome is Ok ==> final(self).connection() == old(self).connection(),
            outcome is Err ==> final(self).connection() is None,
    {
        proof {
            use_type_invariant(&*self);
        }
        if outcome.is_err() {
            self.online = None;
        }
        outcome
    }
}

/// Going online again gives the same online data, as long as the server is the
/// same, and is refused for another one.
pub proof fn online_data_stay(
    first: Result<GoOnline, WalletError>,
    again: Result<GoOnline, WalletError>,
    between: Option<Online>,
    after: Option<Online>,
    url: Seq<char>,
    other_url: Seq<char>,
    id: u64,
    other_id: u64,
    network: BitcoinNetwork,
    skip: bool,
    other_skip: bool,
)
    requires
        online_decided(None, between, first, url, id, network, skip),
        online_decided(between, after, again, other_url, other_id, network, other_skip),
    ensures
        after == between,
        other_url == url ==> (first matches Ok(GoOnline::Start(c)) && again == Ok::<
            GoOnline,
            WalletError,
        >(GoOnline::Existing(c.online)) && after == Some(c.online)),
        other_url != url ==> (again matches Err(WalletError::CannotChangeOnline)),
{
}

/// How many tries are left after an RGB node did not answer, if it is tried again.
pub open spec fn next_tries(tries_left: usize) -> Option<usize> {
    if tries_left == 0 {
        None
    } else {
        Some((tries_left - 1) as usize)
    }
}

/// Tells how many tries are left after an RGB node did not answer.
pub fn after_silence(tries_left: usize) -> (r: Result<usize, WalletError>)
    ensures
        match next_tries(tries_left) {
            Some(left) => r matches Ok(told) && told == left,
            None => r matches Err(WalletError::Internal(InternalError::CannotQueryRgbNode)),
        },
{
    if tries_left < 1 {
        Err(WalletError::Internal(InternalError::CannotQueryRgbNode))
    } else {
        Ok(tries_left - 1)
    }
}

/// An RGB node that does not answer is asked once, and then as many times again as there
/// are tries: `left` holds how many are left each time that it is asked.
pub proof fn silent_node_is_given_up(left: Seq<usize>)
    requires
        left.len() > 0,
        left[0] == RGB_NODE_TRIES,
        forall|k: int|
            0 < k < left.len() ==> next_tries(left[k - 1]) == Some(#[trigger] left[k]),
    ensures
        left.len() <= RGB_NODE_TRIES + 1,
        next_tries(left.last()) is None <==> left.len() == RGB_NODE_TRIES + 1,
{
    lemma_tries_left(left, left.len() - 1);
}

proof fn lemma_tries_left(left: Seq<usize>, k: int)
    requires
        0 <= k < left.len(),
        forall|i: int|
            0 < i < left.len() ==> next_tries(left[i - 1]) == Some(#[trigger] left[i]),
    ensures
        left[k] + k == left[0],
    decreases k,
{
    if k > 0 {
        lemma_tries_left(left, k - 1);
        assert(next_tries(left[k - 1]) == Some(left[k]));
    }
}

/// Whether all outputs that count as unspent are unspent in the bitcoin wallet.
pub open spec fn bitcoins_match(txos: Seq<DbTxo>, unspent: Seq<Outpoint>) -> bool {
    forall|i: int|
        0 <= i < txos.len() && !(#[trigger] txos[i]).spent ==> listed(
            unspent,
            txos[i].outpoint_spec()@,
        )
}

/// Fails where an output that counts as unspent was spent with another wallet.
pub fn check_bitcoins(txos: &Vec<DbTxo>, unspent: &Vec<Outpoint>) -> (r: Result<(), WalletError>)
    ensures
        r is Ok <==> bitcoins_match(txos@, unspent@),
        r is Err ==> (r matches Err(WalletError::Inconsistency(details)) && details@
            == "spent bitcoins with another wallet"@),
{
    let mut i: usize = 0;
    while i < txos.len()
        invariant
            i <= txos.len(),
            forall|k: int|
                0 <= k < i && !(#[trigger] txos@[k]).spent ==> listed(
                    unspent@,
                    txos@[k].outpoint_spec()@,
                ),
        decreases txos.len() - i,
    {
        if !txos[i].spent {
            let outpoint: Outpoint = txos[i].outpoint();
            if !is_listed(unspent, &outpoint) {
                return Err(
                    WalletError::Inconsistency("spent bitcoins with another wallet".to_owned()),
                );
            }
        }
        i += 1;
    }
    Ok(())
}

/// Whether a text is in a list of texts.
pub open spec fn has_text(texts: Seq<String>, t: Seq<char>) -> bool {
    exists|i: int| 0 <= i < texts.len() && (#[trigger] texts[i])@ == t
}

/// Tells whether a text is in a list of texts.
pub fn is_in_texts(texts: &Vec<String>, t: &String) -> (r: bool)
    ensures
        r == has_text(texts@, t@),
{
    let mut i: usize = 0;
    while i < texts.len()
        invariant
            i <= texts.len(),
            forall|k: int| 0 <= k < i ==> (#[trigger] texts@[k])@ != t@,
        decreases texts.len() - i,
    {
        if texts[i] == *t {
            return true;
        }
        i += 1;
    }
    false
}

/// Whether all assets of the wallet are known to the RGB node.
pub open spec fn assets_match(assets: Seq<DbAsset>, contract_ids: Seq<String>) -> bool {
    forall|i: int|
        0 <= i < assets.len() ==> has_text(contract_ids, (#[trigger] assets[i]).asset_id@)
}

/// Fails where an asset of the wallet is not known to the RGB node.
pub fn check_assets(assets: &Vec<DbAsset>, contract_ids: &Vec<String>) -> (r: Result<
    (),
    WalletError,
>)
    ensures
        r is Ok <==> forall|i: int|
            0 <= i < assets@.len() ==> has_text(
                contract_ids@,
                (#[trigger] assets@[i]).asset_id@,
            ),
        r is Ok <==> assets_match(assets@, contract_ids@),
        r is Err ==> (r matches Err(WalletError::Inconsistency(details)) && details@
            == "DB assets do not match with ones stored in RGB"@),
{
    let mut i: usize = 0;
    while i < assets.len()
        invariant
            i <= assets.len(),
            forall|k: int|
                0 <= k < i ==> has_text(contract_ids@, (#[trigger] assets@[k]).asset_id@),
        decreases assets.len() - i,
    {
        if !is_in_texts(contract_ids, &assets[i].asset_id) {
            return Err(
                WalletError::Inconsistency(
                    "DB assets do not match with ones stored in RGB".to_owned(),
                ),
            );
        }
        i += 1;
    }
    Ok(())
}

} // verus!
