//! The rows that the wallet stores.

use vstd::prelude::*;

use crate::text::parsed_u64;
use crate::wallet::types::{Outpoint, RgbAllocation, TransferStatus};

pub mod entities;
pub mod plans;
pub mod records;

verus! {

/// What a coloring stands for.
#[derive(Debug, Clone, Copy, PartialEq, Eq, Structural)]
pub enum ColoringType {
    /// The output was offered for an incoming transfer
    Blind,
    /// The output received an issued amount
    Issue,
    /// The output was an input of a transfer
    Input,
    /// The output received the change of a transfer
    Change,
}

/// A stored asset.
#[derive(Debug, PartialEq, Eq)]
pub struct DbAsset {
    /// Index of the row
    pub idx: i64,
    /// ID of the asset
    pub asset_id: String,
    /// Ticker of the asset
    pub ticker: String,
    /// Name of the asset
    pub name: String,
    /// Precision of the asset
    pub precision: u8,
}

impl Clone for DbAsset {
    fn clone(&self) -> (r: Self)
        ensures
            r == *self,
    {
        DbAsset {
            idx: self.idx,
            asset_id: self.asset_id.clone(),
            ticker: self.ticker.clone(),
            name: self.name.clone(),
            precision: self.precision,
        }
    }
}

/// A stored transaction output.
#[derive(Debug, PartialEq, Eq)]
pub struct DbTxo {
    /// Index of the row
    pub idx: i64,
    /// ID of the transaction
    pub txid: String,
    /// Index of the output in the transaction
    pub vout: u32,
    /// Amount held in satoshi, in decimal
    pub btc_amount: String,
    /// Whether the output has been spent
    pub spent: bool,
    /// Whether the output can have RGB allocations
    pub colorable: bool,
}

impl Clone for DbTxo {
    fn clone(&self) -> (r: Self)
        ensures
            r == *self,
    {
        DbTxo {
            idx: self.idx,
            txid: self.txid.clone(),
            vout: self.vout,
            btc_amount: self.btc_amount.clone(),
            spent: self.spent,
            colorable: self.colorable,
        }
    }
}

impl DbTxo {
    /// The outpoint of the output.
    pub open spec fn outpoint_spec(self) -> Outpoint {
        Outpoint { txid: self.txid, vout: self.vout }
    }

    /// Whether the amount of the output can be read.
    pub open spec fn readable(self) -> bool {
        parsed_u64(self.btc_amount@) is Some
    }

    /// Gives the outpoint of the output.
    pub fn outpoint(&self) -> (r: Outpoint)
        ensures
            r == self.outpoint_spec(),
    {
        Outpoint { txid: self.txid.clone(), vout: self.vout }
    }
}

/// A stored batch transfer: all that one transaction carries.
#[derive(Debug, PartialEq, Eq)]
pub struct DbBatchTransfer {
    /// Index of the row
    pub idx: i64,
    /// ID of the transaction
    pub txid: Option<String>,
    /// Status of the transfer
    pub status: TransferStatus,
    /// Expiration of the transfer
    pub expiration: Option<i64>,
}

impl Clone for DbBatchTransfer {
    fn clone(&self) -> (r: Self)
        ensures
            r == *self,
    {
        DbBatchTransfer {
            idx: self.idx,
            txid: self.txid.clone(),
            status: self.status,
            expiration: self.expiration,
        }
    }
}

impl DbBatchTransfer {
    /// Tells whether the transfer has failed.
    pub fn failed(&self) -> (r: bool)
        ensures
            r == (self.status is Failed),
    {
        matches!(self.status, TransferStatus::Failed)
    }

    /// Tells whether the transfer can still change.
    pub fn pending(&self) -> (r: bool)
        ensures
            r == self.status.is_pending(),
    {
        self.waiting_counterparty() || self.waiting_confirmations()
    }

    /// Tells whether the transfer waits for its transaction to be confirmed.
    pub fn waiting_confirmations(&self) -> (r: bool)
        ensures
            r == (self.status is WaitingConfirmations),
    {
        matches!(self.status, TransferStatus::WaitingConfirmations)
    }

    /// Tells whether the transfer waits for its counterparty.
    pub fn waiting_counterparty(&self) -> (r: bool)
        ensures
            r == (self.status is WaitingCounterparty),
    {
        matches!(self.status, TransferStatus::WaitingCounterparty)
    }
}

/// A stored asset transfer: all that one batch transfer carries of one asset.
#[derive(Debug, PartialEq, Eq)]
pub struct DbAssetTransfer {
    /// Index of the row
    pub idx: i64,
    /// Index of the batch transfer
    pub batch_transfer_idx: i64,
    /// Whether the user asked for the transfer
    pub user_driven: bool,
    /// ID of the asset
    pub asset_id: Option<String>,
}

impl Clone for DbAssetTransfer {
    fn clone(&self) -> (r: Self)
        ensures
            r == *self,
    {
        DbAssetTransfer {
            idx: self.idx,
            batch_transfer_idx: self.batch_transfer_idx,
            user_driven: self.user_driven,
            asset_id: self.asset_id.clone(),
        }
    }
}

/// A stored transfer: the part of an asset transfer that goes to one recipient.
#[derive(Debug, PartialEq, Eq)]
pub struct DbTransfer {
    /// Index of the row
    pub idx: i64,
    /// Index of the asset transfer
    pub asset_transfer_idx: i64,
    /// RGB amount, in decimal
    pub amount: String,
    /// Blinded UTXO of the recipient
    pub blinded_utxo: Option<String>,
    /// Secret used to blind the UTXO, in decimal
    pub blinding_secret: Option<String>,
    /// Whether the recipient accepted the transfer, once it has answered
    pub ack: Option<bool>,
}

impl Clone for DbTransfer {
    fn clone(&self) -> (r: Self)
        ensures
            r == *self,
    {
        DbTransfer {
            idx: self.idx,
            asset_transfer_idx: self.asset_transfer_idx,
            amount: self.amount.clone(),
            blinded_utxo: self.blinded_utxo.clone(),
            blinding_secret: self.blinding_secret.clone(),
            ack: self.ack,
        }
    }
}

/// A stored coloring: an amount that an asset transfer puts on an output, or
/// takes from it.
#[derive(Debug, PartialEq, Eq)]
pub struct DbColoring {
    /// Index of the row
    pub idx: i64,
    /// Index of the output
    pub txo_idx: i64,
    /// Index of the asset transfer
    pub asset_transfer_idx: i64,
    /// What the coloring stands for
    pub coloring_type: ColoringType,
    /// RGB amount, in decimal
    pub amount: String,
}

impl Clone for DbColoring {
    fn clone(&self) -> (r: Self)
        ensures
            r == *self,
    {
        DbColoring {
            idx: self.idx,
            txo_idx: self.txo_idx,
            asset_transfer_idx: self.asset_transfer_idx,
            coloring_type: self.coloring_type,
            amount: self.amount.clone(),
        }
    }
}

/// A stored output with the allocations that it holds.
#[derive(Debug, PartialEq, Eq)]
pub struct LocalUnspent {
    /// The output
    pub utxo: DbTxo,
    /// The allocations on the output
    pub rgb_allocations: Vec<RgbAllocation>,
}

/// What a batch transfer tells of its transfers.
#[derive(Debug, PartialEq, Eq)]
pub struct TransferData {
    /// Timestamp of the creation
    pub created_at: i64,
    /// Timestamp of the last update
    pub updated_at: i64,
    /// Status of the transfer
    pub status: TransferStatus,
    /// Whether the transfer is incoming
    pub incoming: bool,
    /// ID of the transaction
    pub txid: Option<String>,
    /// Unblinded UTXO of the recipient
    pub unblinded_utxo: Option<Outpoint>,
    /// Change UTXO of the sender
    pub change_utxo: Option<Outpoint>,
    /// Expiration of the transfer
    pub expiration: Option<i64>,
}

} // verus!
