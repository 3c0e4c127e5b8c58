//! Looking things up in the rows that the wallet stores.

use vstd::prelude::*;

use crate::database::{
    DbAsset, DbAssetTransfer, DbBatchTransfer, DbColoring, DbTransfer, DbTxo,
};
use crate::error::WalletError;
use crate::seqs::{
    first_where, has_id, lemma_filter_ends, lemma_filter_step, lemma_first_at, lemma_no_first,
};
use crate::wallet::types::{opt_text, same_text, TransferStatus};

verus! {

/// The rows of all tables.
#[derive(Debug, PartialEq, Eq)]
pub struct Records {
    /// The assets
    pub assets: Vec<DbAsset>,
    /// The transaction outputs
    pub txos: Vec<DbTxo>,
    /// The batch transfers
    pub batch_transfers: Vec<DbBatchTransfer>,
    /// The asset transfers
    pub asset_transfers: Vec<DbAssetTransfer>,
    /// The transfers
    pub transfers: Vec<DbTransfer>,
    /// The colorings
    pub colorings: Vec<DbColoring>,
}

/// Picks the asset with a given ID.
pub open spec fn with_asset_id(asset_id: Seq<char>) -> spec_fn(DbAsset) -> bool {
    |a: DbAsset| a.asset_id@ == asset_id
}

/// The asset with a given ID.
pub open spec fn asset_with(assets: Seq<DbAsset>, asset_id: Seq<char>) -> Option<DbAsset> {
    first_where(assets, with_asset_id(asset_id))
}

/// Picks the transfer with a given blinded UTXO.
pub open spec fn with_blinded_utxo(blinded_utxo: Seq<char>) -> spec_fn(DbTransfer) -> bool {
    |t: DbTransfer| opt_text(t.blinded_utxo) == Some(blinded_utxo)
}

/// The transfer with a given blinded UTXO.
pub open spec fn transfer_with(transfers: Seq<DbTransfer>, blinded_utxo: Seq<char>) -> Option<
    DbTransfer,
> {
    first_where(transfers, with_blinded_utxo(blinded_utxo))
}

/// Picks the batch transfer with a given transaction ID.
pub open spec fn with_txid(txid: Seq<char>) -> spec_fn(DbBatchTransfer) -> bool {
    |b: DbBatchTransfer| opt_text(b.txid) == Some(txid)
}

/// The batch transfer with a given transaction ID.
pub open spec fn batch_with(batches: Seq<DbBatchTransfer>, txid: Seq<char>) -> Option<
    DbBatchTransfer,
> {
    first_where(batches, with_txid(txid))
}

/// The asset transfer with a given index.
pub open spec fn asset_transfer_at(asset_transfers: Seq<DbAssetTransfer>, idx: i64) -> Option<
    DbAssetTransfer,
> {
    first_where(asset_transfers, |t: DbAssetTransfer| t.idx == idx)
}

/// The batch transfer with a given index.
pub open spec fn batch_at(batches: Seq<DbBatchTransfer>, idx: i64) -> Option<DbBatchTransfer> {
    first_where(batches, |b: DbBatchTransfer| b.idx == idx)
}

/// The asset transfers of a batch transfer, in their order.
pub open spec fn asset_transfers_of(asset_transfers: Seq<DbAssetTransfer>, batch: i64) -> Seq<
    DbAssetTransfer,
> {
    asset_transfers.filter(|t: DbAssetTransfer| t.batch_transfer_idx == batch)
}

/// Whether an asset transfer belongs to a batch transfer.
pub open spec fn in_batch(asset_transfers: Seq<DbAssetTransfer>, idx: i64, batch: i64) -> bool {
    exists|i: int|
        0 <= i < asset_transfers.len() && (#[trigger] asset_transfers[i]).idx == idx
            && asset_transfers[i].batch_transfer_idx == batch
}

/// The transfers of a batch transfer, in their order.
pub open spec fn transfers_of(
    transfers: Seq<DbTransfer>,
    asset_transfers: Seq<DbAssetTransfer>,
    batch: i64,
) -> Seq<DbTransfer> {
    transfers.filter(|t: DbTransfer| in_batch(asset_transfers, t.asset_transfer_idx, batch))
}

/// Whether a batch transfer has a given index and status.
pub open spec fn batch_has_status(
    batches: Seq<DbBatchTransfer>,
    idx: i64,
    status: TransferStatus,
) -> bool {
    exists|i: int|
        0 <= i < batches.len() && (#[trigger] batches[i]).idx == idx && batches[i].status == status
}

/// Whether an asset transfer belongs to a batch transfer with a given status.
pub open spec fn in_batch_with_status(
    asset_transfers: Seq<DbAssetTransfer>,
    batches: Seq<DbBatchTransfer>,
    idx: i64,
    status: TransferStatus,
) -> bool {
    exists|i: int|
        0 <= i < asset_transfers.len() && (#[trigger] asset_transfers[i]).idx == idx
            && batch_has_status(batches, asset_transfers[i].batch_transfer_idx, status)
}

/// Gives the asset with a given ID, or the error that there is none.
pub fn get_asset_or_fail(assets: &Vec<DbAsset>, asset_id: &String) -> (r: Result<
    DbAsset,
    WalletError,
>)
    ensures
        r matches Ok(a) ==> asset_with(assets@, asset_id@) == Some(a),
        r is Err ==> asset_with(assets@, asset_id@) is None && (r matches Err(
            WalletError::AssetNotFound(id),
        ) && id@ == asset_id@),
{
    let ghost p = with_asset_id(asset_id@);
    let mut i: usize = 0;
    while i < assets.len()
        invariant
            i <= assets.len(),
            p == with_asset_id(asset_id@),
            forall|k: int| 0 <= k < i ==> !p(#[trigger] assets@[k]),
        decreases assets.len() - i,
    {
        if assets[i].asset_id == *asset_id {
            proof {
                lemma_first_at(assets@, p, i as int);
            }
            return Ok(assets[i].clone());
        }
        i += 1;
    }
    proof {
        lemma_no_first(assets@, p);
    }
    Err(WalletError::AssetNotFound(asset_id.clone()))
}

/// Gives the transfer with a given blinded UTXO.
pub fn get_transfer(transfers: &Vec<DbTransfer>, blinded_utxo: &String) -> (r: Option<
    DbTransfer,
>)
    ensures
        r == transfer_with(transfers@, blinded_utxo@),
{
    let ghost p = with_blinded_utxo(blinded_utxo@);
    let wanted: Option<String> = Some(blinded_utxo.clone());
    let mut i: usize = 0;
    while i < transfers.len()
        invariant
            i <= transfers.len(),
            opt_text(wanted) == Some(blinded_utxo@),
            p == with_blinded_utxo(blinded_utxo@),
            forall|k: int| 0 <= k < i ==> !p(#[trigger] transfers@[k]),
        decreases transfers.len() - i,
    {
        if same_text(&transfers[i].blinded_utxo, &wanted) {
            proof {
                lemma_first_at(transfers@, p, i as int);
            }
            return Some(transfers[i].clone());
        }
        i += 1;
    }
    proof {
        lemma_no_first(transfers@, p);
    }
    None
}

/// Gives the batch transfer with a given transaction ID.
pub fn get_batch_transfer(batches: &Vec<DbBatchTransfer>, txid: &String) -> (r: Option<
    DbBatchTransfer,
>)
    ensures
        r == batch_with(batches@, txid@),
{
    let ghost p = with_txid(txid@);
    let wanted: Option<String> = Some(txid.clone());
    let mut i: usize = 0;
    while i < batches.len()
        invariant
            i <= batches.len(),
            opt_text(wanted) == Some(txid@),
            p == with_txid(txid@),
            forall|k: int| 0 <= k < i ==> !p(#[trigger] batches@[k]),
        decreases batches.len() - i,
    {
        if same_text(&batches[i].txid, &wanted) {
            proof {
                lemma_first_at(batches@, p, i as int);
            }
            return Some(batches[i].clone());
        }
        i += 1;
    }
    proof {
        lemma_no_first(batches@, p);
    }
    None
}

/// Gives the asset transfer with a given index.
pub fn get_asset_transfer_at(asset_transfers: &Vec<DbAssetTransfer>, idx: i64) -> (r: Option<
    DbAssetTransfer,
>)
    ensures
        r == asset_transfer_at(asset_transfers@, idx),
{
    let ghost p = |t: DbAssetTransfer| t.idx == idx;
    let mut i: usize = 0;
    while i < asset_transfers.len()
        invariant
            i <= asset_transfers.len(),
            p == (|t: DbAssetTransfer| t.idx == idx),
            forall|k: int| 0 <= k < i ==> !p(#[trigger] asset_transfers@[k]),
        decreases asset_transfers.len() - i,
    {
        if asset_transfers[i].idx == idx {
            proof {
                lemma_first_at(asset_transfers@, p, i as int);
            }
            return Some(asset_transfers[i].clone());
        }
        i += 1;
    }
    proof {
        lemma_no_first(asset_transfers@, p);
    }
    None
}

/// Gives the batch transfer with a given index.
pub fn get_batch_transfer_at(batches: &Vec<DbBatchTransfer>, idx: i64) -> (r: Option<
    DbBatchTransfer,
>)
    ensures
        r == batch_at(batches@, idx),
{
    let ghost p = |b: DbBatchTransfer| b.idx == idx;
    let mut i: usize = 0;
    while i < batches.len()
        invariant
            i <= batches.len(),
            p == (|b: DbBatchTransfer| b.idx == idx),
            forall|k: int| 0 <= k < i ==> !p(#[trigger] batches@[k]),
        decreases batches.len() - i,
    {
        if batches[i].idx == idx {
            proof {
                lemma_first_at(batches@, p, i as int);
            }
            return Some(batches[i].clone());
        }
        i += 1;
    }
    proof {
        lemma_no_first(batches@, p);
    }
    None
}

/// Gives the asset transfers of a batch transfer, in their order.
pub fn iter_batch_asset_transfers(asset_transfers: &Vec<DbAssetTransfer>, batch: i64) -> (r: Vec<
    DbAssetTransfer,
>)
    ensures
        r@ == asset_transfers_of(asset_transfers@, batch),
{
    let ghost p = |t: DbAssetTransfer| t.batch_transfer_idx == batch;
    let mut kept: Vec<DbAssetTransfer> = Vec::new();
    let mut i: usize = 0;
    proof {
        lemma_filter_ends(asset_transfers@, p);
    }
    while i < asset_transfers.len()
        invariant
            i <= asset_transfers.len(),
            p == (|t: DbAssetTransfer| t.batch_transfer_idx == batch),
            kept@ == asset_transfers@.take(i as int).filter(p),
        decreases asset_transfers.len() - i,
    {
        proof {
            lemma_filter_step(asset_transfers@, p, i as int);
        }
        if asset_transfers[i].batch_transfer_idx == batch {
            kept.push(asset_transfers[i].clone());
        }
        i += 1;
    }
    proof {
        lemma_filter_ends(asset_transfers@, p);
    }
    kept
}

/// Gives the indices of asset transfers.
pub fn indices_of(asset_transfers: &Vec<DbAssetTransfer>) -> (r: Vec<i64>)
    ensures
        r@ == asset_transfers@.map_values(|t: DbAssetTransfer| t.idx),
{
    let mut ids: Vec<i64> = Vec::new();
    let mut i: usize = 0;
    while i < asset_transfers.len()
        invariant
            i <= asset_transfers.len(),
            ids@ == asset_transfers@.take(i as int).map_values(|t: DbAssetTransfer| t.idx),
        decreases asset_transfers.len() - i,
    {
        ids.push(asset_transfers[i].idx);
        i += 1;
        assert(ids@ =~= asset_transfers@.take(i as int).map_values(|t: DbAssetTransfer| t.idx));
    }
    assert(asset_transfers@.take(i as int) =~= asset_transfers@);
    ids
}

/// The indices of the asset transfers of a batch transfer are those that belong
/// to it.
pub proof fn lemma_batch_indices(asset_transfers: Seq<DbAssetTransfer>, batch: i64, idx: i64)
    ensures
        asset_transfers_of(asset_transfers, batch).map_values(
            |t: DbAssetTransfer| t.idx,
        ).contains(idx) <==> in_batch(asset_transfers, idx, batch),
{
    let p = |t: DbAssetTransfer| t.batch_transfer_idx == batch;
    let kept = asset_transfers.filter(p);
    let ids = kept.map_values(|t: DbAssetTransfer| t.idx);
    if ids.contains(idx) {
        let k = choose|k: int| 0 <= k < ids.len() && ids[k] == idx;
        asset_transfers.lemma_filter_pred(p, k);
        asset_transfers.lemma_filter_contains_rev(p, kept[k]);
        let i = choose|i: int| 0 <= i < asset_transfers.len() && asset_transfers[i] == kept[k];
        assert(asset_transfers[i].idx == idx);
    }
    if in_batch(asset_transfers, idx, batch) {
        let i = choose|i: int|
            0 <= i < asset_transfers.len() && (#[trigger] asset_transfers[i]).idx == idx
                && asset_transfers[i].batch_transfer_idx == batch;
        asset_transfers.lemma_filter_contains(p, i);
        let k = choose|k: int| 0 <= k < kept.len() && kept[k] == asset_transfers[i];
        assert(ids[k] == idx);
    }
}

/// Gives the transfers of a batch transfer, in their order.
pub fn batch_transfers_of(
    transfers: &Vec<DbTransfer>,
    asset_transfers: &Vec<DbAssetTransfer>,
    batch: i64,
) -> (r: Vec<DbTransfer>)
    ensures
        r@ == transfers_of(transfers@, asset_transfers@, batch),
{
    let ghost p = |t: DbTransfer| in_batch(asset_transfers@, t.asset_transfer_idx, batch);
    let own: Vec<DbAssetTransfer> = iter_batch_asset_transfers(asset_transfers, batch);
    let ids: Vec<i64> = indices_of(&own);
    let mut kept: Vec<DbTransfer> = Vec::new();
    let mut i: usize = 0;
    proof {
        lemma_filter_ends(transfers@, p);
    }
    while i < transfers.len()
        invariant
            i <= transfers.len(),
            p == (|t: DbTransfer| in_batch(asset_transfers@, t.asset_transfer_idx, batch)),
            ids@ == asset_transfers_of(asset_transfers@, batch).map_values(
                |t: DbAssetTransfer| t.idx,
            ),
            kept@ == transfers@.take(i as int).filter(p),
        decreases transfers.len() - i,
    {
        proof {
            lemma_filter_step(transfers@, p, i as int);
            lemma_batch_indices(
                asset_transfers@,
                batch,
                transfers@[i as int].asset_transfer_idx,
            );
        }
        if has_id(&ids, transfers[i].asset_transfer_idx) {
            kept.push(transfers[i].clone());
        }
        i += 1;
    }
    proof {
        lemma_filter_ends(transfers@, p);
    }
    kept
}

/// Gives the indices of the batch transfers with a given status.
fn batches_with_status(batches: &Vec<DbBatchTransfer>, status: TransferStatus) -> (r: Vec<i64>)
    ensures
        forall|id: i64| #[trigger]
            r@.contains(id) <==> batch_has_status(batches@, id, status),
{
    let mut ids: Vec<i64> = Vec::new();
    let mut i: usize = 0;
    while i < batches.len()
        invariant
            i <= batches.len(),
            forall|id: i64| #[trigger]
                ids@.contains(id) <==> batch_has_status(batches@.take(i as int), id, status),
        decreases batches.len() - i,
    {
        let ghost before = ids@;
        let ghost head = batches@.take(i as int);
        let ghost longer = batches@.take(i + 1);
        assert(longer =~= head.push(batches@[i as int]));
        if batches[i].status == status {
            ids.push(batches[i].idx);
        }
        proof {
            assert forall|id: i64| #[trigger] ids@.contains(id) <==> batch_has_status(
                longer,
                id,
                status,
            ) by {
                assert(before.contains(id) <==> batch_has_status(head, id, status));
                lemma_push_contains(before, batches@[i as int].idx, id);
                if batch_has_status(head, id, status) {
                    let k = choose|k: int|
                        0 <= k < head.len() && (#[trigger] head[k]).idx == id && head[k].status
                            == status;
                    assert(longer[k] == head[k]);
                }
                if batch_has_status(longer, id, status) {
                    let k = choose|k: int|
                        0 <= k < longer.len() && (#[trigger] longer[k]).idx == id
                            && longer[k].status == status;
                    if k < i {
                        assert(head[k] == longer[k]);
                    }
                }
                assert(longer[i as int] == batches@[i as int]);
            }
        }
        i += 1;
    }
    assert(batches@.take(i as int) =~= batches@);
    ids
}

/// One more item is all that a longer list holds in addition.
proof fn lemma_push_contains(s: Seq<i64>, x: i64, id: i64)
    ensures
        s.push(x).contains(id) <==> s.contains(id) || id == x,
{
    if s.contains(id) {
        let k = choose|k: int| 0 <= k < s.len() && s[k] == id;
        assert(s.push(x)[k] == id);
    }
    assert(s.push(x)[s.len() as int] == x);
}

/// Gives the indices of the asset transfers that belong to a batch transfer with
/// a given status.
pub fn asset_transfers_with_status(
    asset_transfers: &Vec<DbAssetTransfer>,
    batches: &Vec<DbBatchTransfer>,
    status: TransferStatus,
) -> (r: Vec<i64>)
    ensures
        forall|id: i64| #[trigger]
            r@.contains(id) <==> in_batch_with_status(asset_transfers@, batches@, id, status),
{
    let batch_ids: Vec<i64> = batches_with_status(batches, status);
    let mut ids: Vec<i64> = Vec::new();
    let mut i: usize = 0;
    while i < asset_transfers.len()
        invariant
            i <= asset_transfers.len(),
            forall|id: i64| #[trigger]
                batch_ids@.contains(id) <==> batch_has_status(batches@, id, status),
            forall|id: i64| #[trigger]
                ids@.contains(id) <==> in_batch_with_status(
                    asset_transfers@.take(i as int),
                    batches@,
                    id,
                    status,
                ),
        decreases asset_transfers.len() - i,
    {
        let ghost before = ids@;
        let ghost head = asset_transfers@.take(i as int);
        let ghost longer = asset_transfers@.take(i + 1);
        assert(longer =~= head.push(asset_transfers@[i as int]));
        if has_id(&batch_ids, asset_transfers[i].batch_transfer_idx) {
            ids.push(asset_transfers[i].idx);
        }
        proof {
            assert forall|id: i64| #[trigger] ids@.contains(id) <==> in_batch_with_status(
                longer,
                batches@,
                id,
                status,
            ) by {
                assert(before.contains(id) <==> in_batch_with_status(
                    head,
                    batches@,
                    id,
                    status,
                ));
                lemma_push_contains(before, asset_transfers@[i as int].idx, id);
                if in_batch_with_status(head, batches@, id, status) {
                    let k = choose|k: int|
                        0 <= k < head.len() && (#[trigger] head[k]).idx == id
                            && batch_has_status(batches@, head[k].batch_transfer_idx, status);
                    assert(longer[k] == head[k]);
                }
                if in_batch_with_status(longer, batches@, id, status) {
                    let k = choose|k: int|
                        0 <= k < longer.len() && (#[trigger] longer[k]).idx == id
                            && batch_has_status(batches@, longer[k].batch_transfer_idx, status);
                    if k < i {
                        assert(head[k] == longer[k]);
                    }
                }
                assert(longer[i as int] == asset_transfers@[i as int]);
            }
        }
        i += 1;
    }
    assert(asset_transfers@.take(i as int) =~= asset_transfers@);
    ids
}

} // verus!
