//! Looking things up in the rows.

use vstd::prelude::*;

use crate::database::entities::coloring::{
    Column, ColumnKind, Entity, Model, PrimaryKey, Relation, RelationLink,
};
use crate::database::records::{
    asset_transfers_of, asset_transfers_with_status, batch_has_status, batch_transfers_of,
    get_asset_or_fail, get_asset_transfer_at, get_batch_transfer, get_batch_transfer_at,
    get_transfer, in_batch, in_batch_with_status, indices_of, iter_batch_asset_transfers,
    transfers_of, with_asset_id, with_blinded_utxo, with_txid,
};
use crate::database::{DbAsset, DbAssetTransfer, DbBatchTransfer, DbColoring, DbTransfer};
use crate::error::WalletError;
use crate::laws::{is_among, is_list_of};
use crate::laws::issuing::{lemma_together, together};
use crate::laws::sending::is_text;
use crate::seqs::{checked_total, has_id, lemma_filter_picks, lemma_first_index, total};
use crate::wallet::types::{is_listed, same_text, Outpoint, TransferStatus};

verus! {

/// Whether a row is the first one of a table that satisfies a condition.
pub open spec fn is_first<A>(row: A, rows: Seq<A>, p: spec_fn(A) -> bool) -> bool {
    exists|i: int|
        0 <= i < rows.len() && #[trigger] rows[i] == row && p(row) && forall|k: int|
            0 <= k < i ==> !p(#[trigger] rows[k])
}

/// Whether no row of a table satisfies a condition.
pub open spec fn is_nowhere<A>(rows: Seq<A>, p: spec_fn(A) -> bool) -> bool {
    forall|i: int| 0 <= i < rows.len() ==> !p(#[trigger] rows[i])
}

/// An asset is found by its ID.
pub proof fn assets_are_found(
    assets: Vec<DbAsset>,
    asset_id: String,
    r: Result<DbAsset, WalletError>,
)
    requires
        call_ensures(get_asset_or_fail, (&assets, &asset_id), r),
    ensures
        r matches Ok(a) ==> is_first(a, assets@, |x: DbAsset| x.asset_id@ == asset_id@),
        r matches Err(e) ==> is_nowhere(assets@, |x: DbAsset| x.asset_id@ == asset_id@) && (
        e matches WalletError::AssetNotFound(id) && id@ == asset_id@),
{
    let p = with_asset_id(asset_id@);
    let q = |x: DbAsset| x.asset_id@ == asset_id@;
    lemma_first_index(assets@, p);
    lemma_same_first(assets@, p, q);
}

proof fn lemma_same_first<A>(rows: Seq<A>, p: spec_fn(A) -> bool, q: spec_fn(A) -> bool)
    requires
        forall|i: int| 0 <= i < rows.len() ==> p(#[trigger] rows[i]) == q(rows[i]),
    ensures
        is_nowhere(rows, p) <==> is_nowhere(rows, q),
        forall|x: A| #[trigger] is_first(x, rows, p) ==> is_first(x, rows, q),
{
    assert forall|x: A| #[trigger] is_first(x, rows, p) implies is_first(x, rows, q) by {
        let i = choose|i: int|
            0 <= i < rows.len() && #[trigger] rows[i] == x && p(x) && forall|k: int|
                0 <= k < i ==> !p(#[trigger] rows[k]);
        assert(rows[i] == x && q(x));
        assert forall|k: int| 0 <= k < i implies !q(#[trigger] rows[k]) by {
            assert(!p(rows[k]));
        }
    }
    if is_nowhere(rows, p) {
        assert forall|i: int| 0 <= i < rows.len() implies !q(#[trigger] rows[i]) by {
            assert(!p(rows[i]));
        }
    }
    if is_nowhere(rows, q) {
        assert forall|i: int| 0 <= i < rows.len() implies !p(#[trigger] rows[i]) by {
            assert(!q(rows[i]));
        }
    }
}

/// A transfer is found by its blinded UTXO, a batch transfer by the ID of its transaction.
pub proof fn transfers_are_found(
    transfers: Vec<DbTransfer>,
    blinded_utxo: String,
    transfer: Option<DbTransfer>,
    batches: Vec<DbBatchTransfer>,
    txid: String,
    batch: Option<DbBatchTransfer>,
)
    requires
        call_ensures(get_transfer, (&transfers, &blinded_utxo), transfer),
        call_ensures(get_batch_transfer, (&batches, &txid), batch),
    ensures
        transfer matches Some(t) ==> is_first(
            t,
            transfers@,
            |x: DbTransfer| is_text(x.blinded_utxo, blinded_utxo@),
        ),
        transfer is None ==> is_nowhere(
            transfers@,
            |x: DbTransfer| is_text(x.blinded_utxo, blinded_utxo@),
        ),
        batch matches Some(b) ==> is_first(
            b,
            batches@,
            |x: DbBatchTransfer| is_text(x.txid, txid@),
        ),
        batch is None ==> is_nowhere(
            batches@,
            |x: DbBatchTransfer| is_text(x.txid, txid@),
        ),
{
    let p = with_blinded_utxo(blinded_utxo@);
    let q = |x: DbTransfer| is_text(x.blinded_utxo, blinded_utxo@);
    lemma_first_index(transfers@, p);
    assert forall|i: int| 0 <= i < transfers@.len() implies p(#[trigger] transfers@[i]) == q(
        transfers@[i],
    ) by {}
    lemma_same_first(transfers@, p, q);
    let p2 = with_txid(txid@);
    let q2 = |x: DbBatchTransfer| is_text(x.txid, txid@);
    lemma_first_index(batches@, p2);
    assert forall|i: int| 0 <= i < batches@.len() implies p2(#[trigger] batches@[i]) == q2(
        batches@[i],
    ) by {}
    lemma_same_first(batches@, p2, q2);
}

/// Asset transfers and batch transfers are found by their indices.
pub proof fn rows_are_found_by_their_indices(
    asset_transfers: Vec<DbAssetTransfer>,
    batches: Vec<DbBatchTransfer>,
    idx: i64,
    asset_transfer: Option<DbAssetTransfer>,
    batch: Option<DbBatchTransfer>,
)
    requires
        call_ensures(get_asset_transfer_at, (&asset_transfers, idx), asset_transfer),
        call_ensures(get_batch_transfer_at, (&batches, idx), batch),
    ensures
        asset_transfer matches Some(t) ==> is_first(
            t,
            asset_transfers@,
            |x: DbAssetTransfer| x.idx == idx,
        ),
        asset_transfer is None ==> is_nowhere(
            asset_transfers@,
            |x: DbAssetTransfer| x.idx == idx,
        ),
        batch matches Some(b) ==> is_first(b, batches@, |x: DbBatchTransfer| x.idx == idx),
        batch is None ==> is_nowhere(batches@, |x: DbBatchTransfer| x.idx == idx),
{
    lemma_first_index(asset_transfers@, |x: DbAssetTransfer| x.idx == idx);
    lemma_first_index(batches@, |x: DbBatchTransfer| x.idx == idx);
}

/// Whether an asset transfer with an index is one of a batch transfer.
pub open spec fn is_one_of(rows: Seq<DbAssetTransfer>, idx: i64, batch: i64) -> bool {
    exists|i: int|
        0 <= i < rows.len() && (#[trigger] rows[i]).idx == idx && rows[i].batch_transfer_idx
            == batch
}

/// The asset transfers of a batch transfer are those that refer to it, and its transfers
/// are those that refer to one of these, all of them and in their order.
pub proof fn parts_are_found(
    transfers: Vec<DbTransfer>,
    asset_transfers: Vec<DbAssetTransfer>,
    batch: i64,
    own: Vec<DbAssetTransfer>,
    ids: Vec<i64>,
    r: Vec<DbTransfer>,
) -> (at: (Seq<int>, Seq<int>))
    requires
        call_ensures(iter_batch_asset_transfers, (&asset_transfers, batch), own),
        call_ensures(indices_of, (&own,), ids),
        call_ensures(batch_transfers_of, (&transfers, &asset_transfers, batch), r),
    ensures
        is_list_of(own@, asset_transfers@, at.0),
        forall|i: int|
            0 <= i < asset_transfers@.len() ==> (at.0.contains(i) <==> (
            #[trigger] asset_transfers@[i]).batch_transfer_idx == batch),
        ids@.len() == own@.len(),
        forall|i: int| 0 <= i < ids@.len() ==> #[trigger] ids@[i] == own@[i].idx,
        is_list_of(r@, transfers@, at.1),
        forall|i: int|
            0 <= i < transfers@.len() ==> (at.1.contains(i) <==> is_one_of(
                asset_transfers@,
                (#[trigger] transfers@[i]).asset_transfer_idx,
                batch,
            )),
{
    let p = |t: DbAssetTransfer| t.batch_transfer_idx == batch;
    let q = |t: DbTransfer| in_batch(asset_transfers@, t.asset_transfer_idx, batch);
    assert(asset_transfers_of(asset_transfers@, batch) == asset_transfers@.filter(p));
    assert(transfers_of(transfers@, asset_transfers@, batch) == transfers@.filter(q));
    let a = lemma_filter_picks(asset_transfers@, p);
    let b = lemma_filter_picks(transfers@, q);
    assert forall|i: int| 0 <= i < asset_transfers@.len() implies (a.contains(i) <==> (
    #[trigger] asset_transfers@[i]).batch_transfer_idx == batch) by {
        if a.contains(i) {
            let k = choose|k: int| 0 <= k < a.len() && a[k] == i;
            assert(p(asset_transfers@[a[k]]));
        }
        if asset_transfers@[i].batch_transfer_idx == batch {
            assert(p(asset_transfers@[i]));
        }
    }
    assert forall|i: int| 0 <= i < transfers@.len() implies (b.contains(i) <==> is_one_of(
        asset_transfers@,
        (#[trigger] transfers@[i]).asset_transfer_idx,
        batch,
    )) by {
        if b.contains(i) {
            let k = choose|k: int| 0 <= k < b.len() && b[k] == i;
            assert(q(transfers@[b[k]]));
        }
        if is_one_of(asset_transfers@, transfers@[i].asset_transfer_idx, batch) {
            assert(q(transfers@[i]));
        }
    }
    (a, b)
}

/// Whether an asset transfer is part of a batch transfer with a status.
pub open spec fn has_status(
    asset_transfers: Seq<DbAssetTransfer>,
    batches: Seq<DbBatchTransfer>,
    idx: i64,
    status: TransferStatus,
) -> bool {
    exists|j: int|
        0 <= j < batches.len() && (#[trigger] batches[j]).status == status && is_one_of(
            asset_transfers,
            idx,
            batches[j].idx,
        )
}

/// The asset transfers with a status are those that are part of a batch transfer with it.
pub proof fn parts_are_found_by_status(
    asset_transfers: Vec<DbAssetTransfer>,
    batches: Vec<DbBatchTransfer>,
    status: TransferStatus,
    r: Vec<i64>,
)
    requires
        call_ensures(asset_transfers_with_status, (&asset_transfers, &batches, status), r),
    ensures
        forall|id: i64| #[trigger]
            r@.contains(id) <==> has_status(asset_transfers@, batches@, id, status),
{
    let rows = asset_transfers@;
    assert forall|id: i64| #[trigger] r@.contains(id) <==> has_status(
        rows,
        batches@,
        id,
        status,
    ) by {
        if in_batch_with_status(rows, batches@, id, status) {
            let i = choose|i: int|
                0 <= i < rows.len() && (#[trigger] rows[i]).idx == id && batch_has_status(
                    batches@,
                    rows[i].batch_transfer_idx,
                    status,
                );
            let own = rows[i].batch_transfer_idx;
            let j = choose|j: int|
                0 <= j < batches@.len() && (#[trigger] batches@[j]).idx == own
                    && batches@[j].status == status;
            assert(is_one_of(rows, id, batches@[j].idx));
        }
        if has_status(rows, batches@, id, status) {
            let j = choose|j: int|
                0 <= j < batches@.len() && (#[trigger] batches@[j]).status == status
                    && is_one_of(rows, id, batches@[j].idx);
            let i = choose|i: int|
                0 <= i < rows.len() && (#[trigger] rows[i]).idx == id && rows[i].batch_transfer_idx
                    == batches@[j].idx;
            assert(batch_has_status(batches@, rows[i].batch_transfer_idx, status));
            assert(in_batch_with_status(rows, batches@, id, status));
        }
    }
}

/// Amounts are added up, where the sum fits.
pub proof fn amounts_are_added_up(
    amounts: Vec<u64>,
    r: u64,
    checked: Option<u64>,
)
    requires
        call_ensures(total, (&amounts,), r),
        call_ensures(checked_total, (&amounts,), checked),
    ensures
        r == together(amounts@),
        checked is Some <==> together(amounts@) <= u64::MAX,
        checked matches Some(n) ==> n == together(amounts@),
{
    lemma_together(amounts@);
}

/// Indices, texts and outpoints are the same where they are equal.
pub proof fn equal_things_are_the_same(
    ids: Vec<i64>,
    id: i64,
    found: bool,
    a: Option<String>,
    b: Option<String>,
    same: bool,
    x: Outpoint,
    y: Outpoint,
    same_outpoint: bool,
    outpoints: Vec<Outpoint>,
    in_list: bool,
)
    requires
        call_ensures(has_id, (&ids, id), found),
        call_ensures(same_text, (&a, &b), same),
        call_ensures(Outpoint::same, (&x, &y), same_outpoint),
        call_ensures(is_listed, (&outpoints, &x), in_list),
    ensures
        found <==> exists|i: int| 0 <= i < ids@.len() && #[trigger] ids@[i] == id,
        same <==> match (a, b) {
            (Some(s), Some(t)) => s@ == t@,
            (None, None) => true,
            _ => false,
        },
        same_outpoint <==> x.txid@ == y.txid@ && x.vout == y.vout,
        in_list <==> is_among(outpoints@, x.txid@, x.vout),
{
    if in_list {
        let i = choose|i: int| 0 <= i < outpoints@.len() && (#[trigger] outpoints@[i])@ == x@;
        assert(outpoints@[i]@.0 == x@.0);
        assert(outpoints@[i].txid@ == x.txid@);
    }
    if is_among(outpoints@, x.txid@, x.vout) {
        let k = choose|k: int|
            0 <= k < outpoints@.len() && (#[trigger] outpoints@[k]).txid@ == x.txid@
                && outpoints@[k].vout == x.vout;
        assert(outpoints@[k]@ == x@);
    }
}

/// A coloring is stored as a row that holds all of it, and comes back as it was.
pub proof fn colorings_are_stored_whole(
    c: DbColoring,
    row: Model,
    back: DbColoring,
)
    requires
        call_ensures(Model::from_coloring, (c,), row),
        call_ensures(Model::into_coloring, (row,), back),
    ensures
        row.idx == c.idx,
        row.txo_idx == c.txo_idx,
        row.transfer_idx == c.asset_transfer_idx,
        row.coloring_type == c.coloring_type,
        row.amount == c.amount,
        back == c,
{
}

/// Indices are stored as big integers, the kind of a coloring as a small one and its amount
/// as a text.
pub proof fn columns_hold_their_kinds(column: Column, r: ColumnKind)
    requires
        call_ensures(Column::def, (&column,), r),
    ensures
        match column {
            Column::Idx => r is BigInteger,
            Column::TxoIdx => r is BigInteger,
            Column::TransferIdx => r is BigInteger,
            Column::ColoringType => r is SmallInteger,
            Column::Amount => r is Text,
        },
{
}

/// A batch transfer tells its status.
pub proof fn batch_transfers_tell_their_status(
    batch: DbBatchTransfer,
    failed: bool,
    pending: bool,
    for_counterparty: bool,
    for_confirmations: bool,
)
    requires
        call_ensures(DbBatchTransfer::failed, (&batch,), failed),
        call_ensures(DbBatchTransfer::pending, (&batch,), pending),
        call_ensures(DbBatchTransfer::waiting_counterparty, (&batch,), for_counterparty),
        call_ensures(DbBatchTransfer::waiting_confirmations, (&batch,), for_confirmations),
    ensures
        failed <==> batch.status is Failed,
        pending <==> batch.status is WaitingCounterparty || batch.status is WaitingConfirmations,
        for_counterparty <==> batch.status is WaitingCounterparty,
        for_confirmations <==> batch.status is WaitingConfirmations,
{
}

/// The table of colorings is linked to that of transfers and to that of outputs, by the
/// indices of their rows. The database numbers its rows.
pub proof fn colorings_are_linked(
    table: Entity,
    name: &'static str,
    relation: Relation,
    link: RelationLink,
    to_transfer: RelationLink,
    to_txo: RelationLink,
    numbered: bool,
)
    requires
        call_ensures(Entity::table_name, (&table,), name),
        call_ensures(Relation::def, (&relation,), link),
        call_ensures(Entity::to_transfer, (), to_transfer),
        call_ensures(Entity::to_txo, (), to_txo),
        call_ensures(PrimaryKey::auto_increment, (), numbered),
    ensures
        name@ == "coloring"@,
        to_transfer.from is TransferIdx,
        to_transfer.to_table@ == "transfer"@,
        to_transfer.to_column@ == "idx"@,
        to_txo.from is TxoIdx,
        to_txo.to_table@ == "txo"@,
        to_txo.to_column@ == "idx"@,
        relation is Transfer ==> link.from is TransferIdx && link.to_table@ == "transfer"@,
        relation is Txo ==> link.from is TxoIdx && link.to_table@ == "txo"@,
        link.to_column@ == "idx"@,
        numbered,
{
}

} // verus!
