//! The data that the wallet shows to its user.

use vstd::prelude::*;
use vstd::string::*;

use crate::database::{DbAsset, DbTransfer, DbTxo, LocalUnspent, TransferData};
use crate::text::{
    decimal, is_digit, lemma_decimal_digits, parse_u64, parsed_u64, u64_to_string,
};

verus! {

/// The characters of an optional text.
pub open spec fn opt_text(o: Option<String>) -> Option<Seq<char>> {
    match o {
        Some(s) => Some(s@),
        None => None,
    }
}

/// Tells whether two optional texts are the same.
pub fn same_text(a: &Option<String>, b: &Option<String>) -> (r: bool)
    ensures
        r == (opt_text(*a) == opt_text(*b)),
{
    match (a, b) {
        (Some(x), Some(y)) => *x == *y,
        (None, None) => true,
        _ => false,
    }
}

/// An RGB recipient
#[derive(Debug, PartialEq, Eq, Hash)]
pub struct Recipient {
    /// Blinded UTXO
    pub blinded_utxo: String,
    /// RGB amount
    pub amount: u64,
}

impl Clone for Recipient {
    fn clone(&self) -> (r: Self)
        ensures
            r == *self,
    {
        Recipient { blinded_utxo: self.blinded_utxo.clone(), amount: self.amount }
    }
}

/// An asset balance
///
/// The settled balance includes all operations that have completed and are in a final status.
/// The future balance also includes operations that have not yet completed or are not yet final.
#[derive(Debug, Clone, Copy, PartialEq, Eq, Hash)]
pub struct Balance {
    /// Settled balance
    pub settled: u64,
    /// Future balance, as if everything was settled
    pub future: u64,
}

/// An RGB asset
#[derive(Debug, PartialEq, Eq, Hash)]
pub struct Asset {
    /// ID of the asset
    pub asset_id: String,
    /// Ticker of the asset
    pub ticker: String,
    /// Name of the asset
    pub name: String,
    /// Precision, also known as divisibility, of the asset
    pub precision: u8,
    /// Current balance of the asset
    pub balance: Balance,
}

impl Asset {
    /// The asset that a stored row and a balance describe.
    pub open spec fn described_by(x: DbAsset, balance: Balance) -> Asset {
        Asset {
            asset_id: x.asset_id,
            ticker: x.ticker,
            name: x.name,
            precision: x.precision,
            balance,
        }
    }

    /// Shows a stored asset with its balance.
    pub fn from_db_asset(x: DbAsset, balance: Balance) -> (r: Asset)
        ensures
            r == Asset::described_by(x, balance),
    {
        Asset {
            asset_id: x.asset_id,
            ticker: x.ticker,
            name: x.name,
            precision: x.precision,
            balance,
        }
    }
}

/// Data for a UTXO blinding
#[derive(Debug, PartialEq, Eq)]
pub struct BlindData {
    /// Blinded UTXO
    pub blinded_utxo: String,
    /// Secret used to blind the UTXO
    pub blinding_secret: u64,
    /// Expiration of the blinded_utxo
    pub expiration_timestamp: Option<i64>,
}

/// Supported database types
#[derive(Debug, Clone, Copy, PartialEq, Eq, Structural)]
pub enum DatabaseType {
    /// A SQLite database
    Sqlite,
}

/// Supported bitcoin networks
#[derive(Debug, Clone, Copy, PartialEq, Eq, Structural)]
pub enum BitcoinNetwork {
    /// The bitcoin main network
    Mainnet,
    /// The bitcoin test network
    Testnet,
    /// The signed bitcoin test network
    Signet,
    /// A local bitcoin network
    Regtest,
}

/// Data for operations that require the wallet to be online
#[derive(Debug, PartialEq, Eq)]
pub struct Online {
    /// ID to tell different Online structs apart
    pub id: u64,
    /// URL of the electrum server to be used for online operations
    pub electrum_url: String,
}

impl Clone for Online {
    fn clone(&self) -> (r: Self)
        ensures
            r == *self,
    {
        Online { id: self.id, electrum_url: self.electrum_url.clone() }
    }
}

impl View for Online {
    type V = (u64, Seq<char>);

    open spec fn view(&self) -> (u64, Seq<char>) {
        (self.id, self.electrum_url@)
    }
}

/// Bitcoin transaction outpoint
#[derive(Debug, PartialEq, Eq, Hash)]
pub struct Outpoint {
    /// ID of the transaction
    pub txid: String,
    /// Output index
    pub vout: u32,
}

impl Clone for Outpoint {
    fn clone(&self) -> (r: Self)
        ensures
            r == *self,
    {
        Outpoint { txid: self.txid.clone(), vout: self.vout }
    }
}

impl View for Outpoint {
    type V = (Seq<char>, u32);

    open spec fn view(&self) -> (Seq<char>, u32) {
        (self.txid@, self.vout)
    }
}

/// The rendering of an outpoint: the transaction ID, a colon and the output index.
pub open spec fn outpoint_text(o: (Seq<char>, u32)) -> Seq<char> {
    o.0.push(':') + decimal(o.1 as nat)
}

impl Outpoint {
    /// Tells whether two outpoints are the same.
    pub fn same(&self, other: &Outpoint) -> (r: bool)
        ensures
            r == (self@ == other@),
    {
        self.vout == other.vout && self.txid == other.txid
    }

    /// Renders the outpoint as the transaction ID, a colon and the output index.
    pub fn to_string(&self) -> (r: String)
        ensures
            r@ == outpoint_text(self@),
    {
        proof {
            reveal_strlit(":");
        }
        let mut s: String = self.txid.clone();
        s.append(":");
        assert(s@ =~= self.txid@.push(':'));
        let vout: String = u64_to_string(self.vout as u64);
        s.append(vout.as_str());
        s
    }
}

/// Whether an outpoint is in a list of outpoints.
pub open spec fn listed(outpoints: Seq<Outpoint>, o: (Seq<char>, u32)) -> bool {
    exists|i: int| 0 <= i < outpoints.len() && (#[trigger] outpoints[i])@ == o
}

/// Tells whether an outpoint is in a list of outpoints.
pub fn is_listed(outpoints: &Vec<Outpoint>, o: &Outpoint) -> (r: bool)
    ensures
        r == listed(outpoints@, o@),
{
    let mut i: usize = 0;
    while i < outpoints.len()
        invariant
            i <= outpoints.len(),
            forall|k: int| 0 <= k < i ==> (#[trigger] outpoints@[k])@ != o@,
        decreases outpoints.len() - i,
    {
        if outpoints[i].same(o) {
            return true;
        }
        i += 1;
    }
    false
}

/// Two outpoints have the same rendering only if they are the same.
pub proof fn outpoints_differ_in_text(a: (Seq<char>, u32), b: (Seq<char>, u32))
    requires
        outpoint_text(a) == outpoint_text(b),
    ensures
        a == b,
{
    let s = outpoint_text(a);
    let da = decimal(a.1 as nat);
    let db = decimal(b.1 as nat);
    lemma_decimal_digits(a.1 as nat);
    lemma_decimal_digits(b.1 as nat);
    let pa = a.0.len() as int;
    let pb = b.0.len() as int;
    assert(s.len() == pa + 1 + da.len());
    assert(outpoint_text(b).len() == pb + 1 + db.len());
    assert(s[pa] == ':');
    assert(outpoint_text(b)[pb] == ':');
    if pa < pb {
        assert(s[pb] == da[pb - pa - 1]);
        assert(is_digit(da[pb - pa - 1]));
    }
    if pb < pa {
        assert(s[pa] == db[pa - pb - 1]);
        assert(is_digit(db[pa - pb - 1]));
    }
    assert(a.0 =~= s.take(pa));
    assert(b.0 =~= outpoint_text(b).take(pb));
    assert(da =~= s.skip(pa + 1));
    assert(db =~= outpoint_text(b).skip(pb + 1));
}

/// An RGB allocation
#[derive(Debug, PartialEq, Eq, PartialOrd, Ord)]
pub struct RgbAllocation {
    /// Asset ID
    pub asset_id: Option<String>,
    /// RGB amount
    pub amount: u64,
    /// Defines if the allocation is settled
    pub settled: bool,
}

impl Clone for RgbAllocation {
    fn clone(&self) -> (r: Self)
        ensures
            r == *self,
    {
        RgbAllocation {
            asset_id: self.asset_id.clone(),
            amount: self.amount,
            settled: self.settled,
        }
    }
}

/// The status of a [`Transfer`]
#[derive(Debug, Clone, Copy, PartialEq, Eq, Structural)]
pub enum TransferStatus {
    /// Waiting for the counterparty to take action
    WaitingCounterparty,
    /// Waiting for the transfer transcation to be confirmed
    WaitingConfirmations,
    /// Settled transfer, this status is final
    Settled,
    /// Failed transfer, this status is final
    Failed,
}

impl TransferStatus {
    /// The number under which a status is stored.
    pub open spec fn code(self) -> u16 {
        match self {
            TransferStatus::WaitingCounterparty => 1,
            TransferStatus::WaitingConfirmations => 2,
            TransferStatus::Settled => 3,
            TransferStatus::Failed => 4,
        }
    }

    /// Whether a status is stored under a number.
    pub open spec fn is_code(code: u16) -> bool {
        exists|s: TransferStatus| #[trigger] s.code() == code
    }

    /// Whether a transfer in this status can still change.
    pub open spec fn is_pending(self) -> bool {
        self is WaitingCounterparty || self is WaitingConfirmations
    }

    /// Gives the number under which the status is stored.
    pub fn to_code(&self) -> (r: u16)
        ensures
            r == self.code(),
    {
        match self {
            TransferStatus::WaitingCounterparty => 1,
            TransferStatus::WaitingConfirmations => 2,
            TransferStatus::Settled => 3,
            TransferStatus::Failed => 4,
        }
    }

    /// Reads a status from the number under which it is stored.
    pub fn from_code(code: u16) -> (r: Option<TransferStatus>)
        ensures
            r matches Some(s) ==> s.code() == code,
            r is None ==> forall|s: TransferStatus| #![trigger s.code()] s.code() != code,
            r is None ==> !TransferStatus::is_code(code),
    {
        if code == 1 {
            Some(TransferStatus::WaitingCounterparty)
        } else if code == 2 {
            Some(TransferStatus::WaitingConfirmations)
        } else if code == 3 {
            Some(TransferStatus::Settled)
        } else if code == 4 {
            Some(TransferStatus::Failed)
        } else {
            None
        }
    }
}

/// No two statuses are stored under one number.
pub proof fn status_codes_differ(a: TransferStatus, b: TransferStatus)
    ensures
        a.code() == b.code() ==> a == b,
{
}

/// An RGB transfer
#[derive(Debug, PartialEq, Eq)]
pub struct Transfer {
    /// ID of the transfer
    pub idx: i64,
    /// Timestamp of the transfer creation
    pub created_at: i64,
    /// Timestamp of the transfer last update
    pub updated_at: i64,
    /// Status of the transfer
    pub status: TransferStatus,
    /// Amount
    pub amount: u64,
    /// Whether the transfer is incoming
    pub incoming: bool,
    /// Txid of the transfer
    pub txid: Option<String>,
    /// Blinded UTXO of the transfer's recipient
    pub blinded_utxo: Option<String>,
    /// Unblinded UTXO of the transfer's recipient
    pub unblinded_utxo: Option<Outpoint>,
    /// Change UTXO for the transfer's sender
    pub change_utxo: Option<Outpoint>,
    /// Secret used to blind the UTXO
    pub blinding_secret: Option<u64>,
    /// Expiration of the transfer
    pub expiration: Option<i64>,
}

impl Transfer {
    /// Whether the numbers of a stored transfer can be read.
    pub open spec fn readable(x: DbTransfer) -> bool {
        &&& parsed_u64(x.amount@) is Some
        &&& x.blinding_secret matches Some(secret) ==> parsed_u64(secret@) is Some
    }

    /// The transfer that a stored row and the data of its batch describe.
    pub open spec fn described_by(x: DbTransfer, td: TransferData) -> Transfer {
        Transfer {
            idx: x.idx,
            created_at: td.created_at,
            updated_at: td.updated_at,
            status: td.status,
            amount: parsed_u64(x.amount@)->0,
            incoming: td.incoming,
            txid: td.txid,
            blinded_utxo: x.blinded_utxo,
            unblinded_utxo: td.unblinded_utxo,
            change_utxo: td.change_utxo,
            blinding_secret: match x.blinding_secret {
                Some(secret) => parsed_u64(secret@),
                None => None,
            },
            expiration: td.expiration,
        }
    }

    /// Shows a stored transfer with the data of its batch.
    pub fn from_db_transfer(x: DbTransfer, td: TransferData) -> (r: Transfer)
        requires
            Transfer::readable(x),
        ensures
            r == Transfer::described_by(x, td),
    {
        let blinding_secret: Option<u64> = match &x.blinding_secret {
            Some(secret) => parse_u64(secret.as_str()),
            None => None,
        };
        let amount: Option<u64> = parse_u64(x.amount.as_str());
        Transfer {
            idx: x.idx,
            created_at: td.created_at,
            updated_at: td.updated_at,
            status: td.status,
            amount: amount.unwrap(),
            incoming: td.incoming,
            txid: td.txid,
            blinded_utxo: x.blinded_utxo,
            unblinded_utxo: td.unblinded_utxo,
            change_utxo: td.change_utxo,
            blinding_secret,
            expiration: td.expiration,
        }
    }
}

/// An unspent transaction output
#[derive(Debug, PartialEq, Eq)]
pub struct Utxo {
    /// UTXO outpoint
    pub outpoint: Outpoint,
    /// Amount held in satoshi
    pub btc_amount: u64,
    /// Defines if the UTXO can have RGB allocations
    pub colorable: bool,
}

impl Utxo {
    /// The output that a stored row describes.
    pub open spec fn described_by(x: DbTxo) -> Utxo {
        Utxo {
            outpoint: x.outpoint_spec(),
            btc_amount: parsed_u64(x.btc_amount@)->0,
            colorable: x.colorable,
        }
    }

    /// Shows a stored output.
    pub fn from_db_txo(x: DbTxo) -> (r: Utxo)
        requires
            x.readable(),
        ensures
            r == Utxo::described_by(x),
    {
        let btc_amount: Option<u64> = parse_u64(x.btc_amount.as_str());
        Utxo {
            outpoint: x.outpoint(),
            btc_amount: btc_amount.unwrap(),
            colorable: x.colorable,
        }
    }
}

/// A wallet unspent
#[derive(Debug, PartialEq, Eq)]
pub struct Unspent {
    /// Bitcoin UTXO
    pub utxo: Utxo,
    /// RGB allocations on the utxo
    pub rgb_allocations: Vec<RgbAllocation>,
}

impl Unspent {
    /// The unspent that a stored output and its allocations describe.
    pub open spec fn described_by(x: LocalUnspent) -> Unspent {
        Unspent { utxo: Utxo::described_by(x.utxo), rgb_allocations: x.rgb_allocations }
    }

    /// Shows a stored output with its allocations.
    pub fn from_local_unspent(x: LocalUnspent) -> (r: Unspent)
        requires
            x.utxo.readable(),
        ensures
            r == Unspent::described_by(x),
    {
        Unspent { utxo: Utxo::from_db_txo(x.utxo), rgb_allocations: x.rgb_allocations }
    }
}

/// Wallet data provided by the user
#[derive(Debug, PartialEq, Eq)]
pub struct WalletData {
    /// Directory where the wallet directory is to be created
    pub data_dir: String,
    /// Bitcoin network for the wallet
    pub bitcoin_network: BitcoinNetwork,
    /// Database type used by the wallet
    pub database_type: DatabaseType,
    /// Wallet xpub
    pub pubkey: String,
    /// Wallet mnemonic phrase
    pub mnemonic: Option<String>,
}

impl Clone for WalletData {
    fn clone(&self) -> (r: Self)
        ensures
            r == *self,
    {
        WalletData {
            data_dir: self.data_dir.clone(),
            bitcoin_network: self.bitcoin_network,
            database_type: self.database_type,
            pubkey: self.pubkey.clone(),
            mnemonic: self.mnemonic.clone(),
        }
    }
}

} // verus!
