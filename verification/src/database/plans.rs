//! Rows that are still to be stored. The database numbers them, and a row refers
//! to the one that it is nested in.

use vstd::prelude::*;

use crate::database::ColoringType;
use crate::seqs::sum;
use crate::text::parsed_u64;
use crate::wallet::types::TransferStatus;

verus! {

/// A coloring to store.
#[derive(Debug, PartialEq, Eq)]
pub struct NewColoring {
    /// Index of the output
    pub txo_idx: i64,
    /// What the coloring stands for
    pub coloring_type: ColoringType,
    /// RGB amount, in decimal
    pub amount: String,
}

/// A transfer to store.
#[derive(Debug, PartialEq, Eq)]
pub struct NewTransfer {
    /// RGB amount, in decimal
    pub amount: String,
    /// Blinded UTXO of the recipient
    pub blinded_utxo: Option<String>,
    /// Secret used to blind the UTXO, in decimal
    pub blinding_secret: Option<String>,
}

/// An asset transfer to store, with all that belongs to it.
#[derive(Debug, PartialEq, Eq)]
pub struct NewAssetTransfer {
    /// Whether the user asked for the transfer
    pub user_driven: bool,
    /// ID of the asset
    pub asset_id: Option<String>,
    /// The transfers
    pub transfers: Vec<NewTransfer>,
    /// The colorings
    pub colorings: Vec<NewColoring>,
}

/// A batch transfer to store, with all that belongs to it.
#[derive(Debug, PartialEq, Eq)]
pub struct NewBatchTransfer {
    /// ID of the transaction
    pub txid: Option<String>,
    /// Status of the transfer
    pub status: TransferStatus,
    /// Expiration of the transfer
    pub expiration: Option<i64>,
    /// The asset transfers
    pub asset_transfers: Vec<NewAssetTransfer>,
}

/// The amounts of the colorings of a kind.
pub open spec fn colored_amounts(colorings: Seq<NewColoring>, kind: ColoringType) -> Seq<u64> {
    colorings.filter(|c: NewColoring| c.coloring_type == kind).map_values(
        |c: NewColoring| parsed_u64(c.amount@)->0,
    )
}

/// Where all colorings are of a kind, all of them count.
pub proof fn lemma_one_kind(colorings: Seq<NewColoring>, kind: ColoringType)
    requires
        forall|i: int| 0 <= i < colorings.len() ==> (#[trigger] colorings[i]).coloring_type == kind,
    ensures
        colorings.filter(|c: NewColoring| c.coloring_type == kind) == colorings,
    decreases colorings.len(),
{
    reveal(Seq::filter);
    if colorings.len() > 0 {
        lemma_one_kind(colorings.drop_last(), kind);
        assert(colorings =~= colorings.drop_last().push(colorings.last()));
    }
}

/// The amount that the colorings of a kind stand for.
pub open spec fn colored_total(colorings: Seq<NewColoring>, kind: ColoringType) -> nat {
    sum(colored_amounts(colorings, kind))
}

/// The amount that transfers stand for.
pub open spec fn transferred_total(transfers: Seq<NewTransfer>) -> nat {
    sum(transfers.map_values(|t: NewTransfer| parsed_u64(t.amount@)->0))
}

} // verus!
