//! What the operations of the wallet are for: how what they return relates to the rows
//! and answers that they are given, told by the fields of these alone.

use vstd::prelude::*;

use crate::database::records::Records;
use crate::wallet::types::Outpoint;

pub mod chain;
pub mod composing;
pub mod funding;
pub mod issuing;
pub mod listing;
pub mod moving;
pub mod online;
pub mod outputs;
pub mod preparing;
pub mod receiving;
pub mod records;
pub mod sending;
pub mod settling;
pub mod text;
pub mod transfers;

verus! {

/// Whether an asset transfer is part of the batch transfer in a row.
pub open spec fn is_part(records: Records, asset_transfer: i64, j: int) -> bool {
    &&& 0 <= j < records.batch_transfers@.len()
    &&& exists|i: int|
        0 <= i < records.asset_transfers@.len() && (#[trigger] records.asset_transfers@[i]).idx
            == asset_transfer && records.asset_transfers@[i].batch_transfer_idx
            == records.batch_transfers@[j].idx
}

/// Whether an asset transfer is part of a failed batch transfer.
pub open spec fn is_part_of_failed(records: Records, asset_transfer: i64) -> bool {
    exists|j: int| #[trigger]
        is_part(records, asset_transfer, j) && records.batch_transfers@[j].status is Failed
}

/// Whether an outpoint is one of a list.
pub open spec fn is_among(outpoints: Seq<Outpoint>, txid: Seq<char>, vout: u32) -> bool {
    exists|k: int|
        0 <= k < outpoints.len() && (#[trigger] outpoints[k]).txid@ == txid && outpoints[k].vout
            == vout
}

/// Whether an asset transfer belongs to the batch transfer with an index.
pub open spec fn belongs(records: Records, asset_transfer: i64, batch: i64) -> bool {
    exists|i: int|
        0 <= i < records.asset_transfers@.len() && (#[trigger] records.asset_transfers@[i]).idx
            == asset_transfer && records.asset_transfers@[i].batch_transfer_idx == batch
}

/// Whether a list is made of those items of another one, in their order, that stand at
/// given indices.
pub open spec fn is_list_of<A>(list: Seq<A>, items: Seq<A>, at: Seq<int>) -> bool {
    &&& list.len() == at.len()
    &&& forall|k: int|
        0 <= k < at.len() ==> 0 <= #[trigger] at[k] < items.len() && list[k] == items[at[k]]
    &&& forall|k: int, l: int| 0 <= k < l < at.len() ==> #[trigger] at[k] < #[trigger] at[l]
}

} // verus!
