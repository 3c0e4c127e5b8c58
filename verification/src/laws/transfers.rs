//! Failing, deleting and refreshing transfers.

use vstd::prelude::*;

use crate::database::records::{
    asset_transfer_at, batch_at, batch_with, in_batch, lemma_batch_indices, transfer_with,
    transfers_of, with_asset_id, with_blinded_utxo, with_txid, Records,
};
use crate::database::{DbAssetTransfer, DbBatchTransfer, DbTransfer};
use crate::error::WalletError;
use crate::laws::{is_list_of, is_part};
use crate::seqs::{lemma_filter_picks, lemma_filter_single, lemma_first_index, picks};
use crate::wallet::transfers::{
    carries, connected, expire_transfer, expired, expired_transfers, fail_batch_transfer,
    refresh_transfer, selected, to_refresh, Deletion, RefreshStep, Selection,
};
use crate::wallet::types::{opt_text, Online, TransferStatus};
use crate::wallet::Wallet;

verus! {

/// Whether no two rows of a table have one index.
pub open spec fn rows_differ(records: Records) -> bool {
    &&& forall|i: int, j: int|
        0 <= i < j < records.asset_transfers@.len() ==> (
        #[trigger] records.asset_transfers@[i]).idx != (
        #[trigger] records.asset_transfers@[j]).idx
    &&& forall|i: int, j: int|
        0 <= i < j < records.batch_transfers@.len() ==> (
        #[trigger] records.batch_transfers@[i]).idx != (
        #[trigger] records.batch_transfers@[j]).idx
}

/// Whether a wallet is online with given data.
pub open spec fn is_connected(wallet: Wallet, online: Online) -> bool {
    wallet.connection() matches Some(own) && own.id == online.id && own.electrum_url@
        == online.electrum_url@
}

/// Whether a transfer is the only one of the batch transfer in a row.
pub open spec fn is_alone(records: Records, t: int, b: int) -> bool {
    forall|k: int|
        0 <= k < records.transfers@.len() && k != t ==> !is_part(
            records,
            (#[trigger] records.transfers@[k]).asset_transfer_idx,
            b,
        )
}

/// Whether a transaction ID that may be given is that of a batch transfer.
pub open spec fn is_txid_of(txid: Option<String>, batch: DbBatchTransfer) -> bool {
    match (txid, batch.txid) {
        (Some(a), Some(b)) => a@ == b@,
        (None, None) => true,
        _ => false,
    }
}

/// Whether a transfer is the first one of a blinded UTXO, and is part of the batch transfer
/// in a row.
pub open spec fn is_named(records: Records, blinded_utxo: String, t: int, b: int) -> bool {
    &&& 0 <= t < records.transfers@.len()
    &&& records.transfers@[t].blinded_utxo matches Some(text) && text@ == blinded_utxo@
    &&& forall|k: int|
        0 <= k < t ==> !((#[trigger] records.transfers@[k]).blinded_utxo matches Some(x) && x@
            == blinded_utxo@)
    &&& is_part(records, records.transfers@[t].asset_transfer_idx, b)
}

proof fn lemma_named(
    records: Records,
    blinded_utxo: String,
    txid: Option<String>,
    t: int,
    b: int,
)
    requires
        connected(records),
        rows_differ(records),
        is_named(records, blinded_utxo, t, b),
    ensures
        ({
            let batch = records.batch_transfers@[b];
            let found = selected(
                records,
                Some(blinded_utxo@),
                opt_text(txid),
            );
            if is_txid_of(txid, batch) || (txid is None && is_alone(records, t, b)) {
                found == Selection::Batch(batch)
            } else {
                found is Mismatch
            }
        }),
{
    let transfers = records.transfers@;
    let p = with_blinded_utxo(blinded_utxo@);
    lemma_first_index(transfers, p);
    assert(p(transfers[t]));
    let first = transfer_with(transfers, blinded_utxo@)->0;
    let f = choose|f: int|
        0 <= f < transfers.len() && #[trigger] transfers[f] == first && p(first) && forall|k: int|
            0 <= k < f ==> !p(#[trigger] transfers[k]);
    assert(f == t) by {
        if f < t {
            assert(p(transfers[f]));
        }
        if t < f {
            assert(!p(transfers[t]));
        }
    }
    let id = transfers[t].asset_transfer_idx;
    let asset_transfers = records.asset_transfers@;
    let a = choose|a: int|
        0 <= a < asset_transfers.len() && (#[trigger] asset_transfers[a]).idx == id
            && asset_transfers[a].batch_transfer_idx == records.batch_transfers@[b].idx;
    let q = |x: DbAssetTransfer| x.idx == id;
    lemma_first_index(asset_transfers, q);
    assert(q(asset_transfers[a]));
    assert(asset_transfer_at(asset_transfers, id) == Some(asset_transfers[a])) by {
        let x = asset_transfer_at(asset_transfers, id)->0;
        let k = choose|k: int|
            0 <= k < asset_transfers.len() && #[trigger] asset_transfers[k] == x && q(x);
        assert(k == a);
    }
    let batches = records.batch_transfers@;
    let own = batches[b].idx;
    let q2 = |x: DbBatchTransfer| x.idx == own;
    lemma_first_index(batches, q2);
    assert(q2(batches[b]));
    assert(batch_at(batches, own) == Some(batches[b])) by {
        let x = batch_at(batches, own)->0;
        let k = choose|k: int| 0 <= k < batches.len() && #[trigger] batches[k] == x && q2(x);
        assert(k == b);
    }
    lemma_part_count(records, t, b);
}

proof fn lemma_part_count(records: Records, t: int, b: int)
    requires
        0 <= t < records.transfers@.len(),
        is_part(records, records.transfers@[t].asset_transfer_idx, b),
    ensures
        is_alone(records, t, b) <==> transfers_of(
            records.transfers@,
            records.asset_transfers@,
            records.batch_transfers@[b].idx,
        ).len() <= 1,
{
    let own = records.batch_transfers@[b].idx;
    let asset_transfers = records.asset_transfers@;
    let p = |t: DbTransfer| in_batch(asset_transfers, t.asset_transfer_idx, own);
    assert(transfers_of(records.transfers@, asset_transfers, own) == records.transfers@.filter(p));
    lemma_filter_single(records.transfers@, p, t);
    assert forall|k: int| 0 <= k < records.transfers@.len() implies p(
        #[trigger] records.transfers@[k],
    ) == is_part(records, records.transfers@[k].asset_transfer_idx, b) by {}
}

/// A blinded UTXO names the batch transfer of its transfer where that has no other
/// transfer, whatever its transaction, or where its transaction ID is given with it. Such
/// a batch transfer is failed if and only if it waits for its counterparty.
pub proof fn a_named_transfer_can_be_failed(
    wallet: Wallet,
    records: Records,
    online: Online,
    blinded_utxo: String,
    txid: Option<String>,
    t: int,
    b: int,
    r: Result<Vec<DbBatchTransfer>, WalletError>,
)
    requires
        connected(records),
        rows_differ(records),
        is_connected(wallet, online),
        is_named(records, blinded_utxo, t, b),
        call_ensures(
            Wallet::fail_transfers,
            (&wallet, &records, &online, Some(blinded_utxo), txid),
            r,
        ),
    ensures
        ({
            let batch = records.batch_transfers@[b];
            let meant = is_txid_of(txid, batch) || (txid is None && is_alone(records, t, b));
            if meant && batch.status is WaitingCounterparty {
                r matches Ok(list) && list@.len() == 1 && list@[0] == batch
            } else {
                r matches Err(WalletError::CannotFailTransfer)
            }
        }),
{
    lemma_named(records, blinded_utxo, txid, t, b);
}

/// Likewise, such a batch transfer is deleted if and only if it has failed, and with it
/// the colorings of exactly its own asset transfers.
pub proof fn a_named_transfer_can_be_deleted(
    wallet: Wallet,
    records: Records,
    blinded_utxo: String,
    txid: Option<String>,
    t: int,
    b: int,
    r: Result<Vec<Deletion>, WalletError>,
)
    requires
        connected(records),
        rows_differ(records),
        is_named(records, blinded_utxo, t, b),
        call_ensures(
            Wallet::delete_transfers,
            (&wallet, &records, Some(blinded_utxo), txid),
            r,
        ),
    ensures
        ({
            let batch = records.batch_transfers@[b];
            let meant = is_txid_of(txid, batch) || (txid is None && is_alone(records, t, b));
            if meant && batch.status is Failed {
                &&& r matches Ok(list)
                &&& list@.len() == 1
                &&& list@[0].batch_transfer == batch
                &&& forall|id: i64| #[trigger]
                    list@[0].asset_transfers@.contains(id) <==> is_part(records, id, b)
            } else {
                r matches Err(WalletError::CannotDeleteTransfer)
            }
        }),
{
    lemma_named(records, blinded_utxo, txid, t, b);
    if r is Ok {
        assert forall|id: i64| #[trigger] r->Ok_0@[0].asset_transfers@.contains(id) <==> is_part(
            records,
            id,
            b,
        ) by {
            lemma_batch_indices(records.asset_transfers@, records.batch_transfers@[b].idx, id);
        }
    }
}

/// Whether a batch transfer is the first one with a transaction ID.
pub open spec fn is_first_with(records: Records, txid: String, b: int) -> bool {
    &&& 0 <= b < records.batch_transfers@.len()
    &&& forall|k: int|
        0 <= k <= b ==> ((#[trigger] records.batch_transfers@[k]).txid matches Some(x) && x@
            == txid@) == (k == b)
}

/// A transaction ID alone names its batch transfer, which is failed if and only if it
/// waits for its counterparty and deleted if and only if it has failed.
pub proof fn a_transaction_names_its_transfer(
    wallet: Wallet,
    records: Records,
    online: Online,
    txid: String,
    b: int,
    failed: Result<Vec<DbBatchTransfer>, WalletError>,
    deleted: Result<Vec<Deletion>, WalletError>,
)
    requires
        connected(records),
        is_connected(wallet, online),
        is_first_with(records, txid, b),
        call_ensures(
            Wallet::fail_transfers,
            (&wallet, &records, &online, None::<String>, Some(txid)),
            failed,
        ),
        call_ensures(
            Wallet::delete_transfers,
            (&wallet, &records, None::<String>, Some(txid)),
            deleted,
        ),
    ensures
        ({
            let batch = records.batch_transfers@[b];
            &&& batch.status is WaitingCounterparty ==> (failed matches Ok(list) && list@.len()
                == 1 && list@[0] == batch)
            &&& !(batch.status is WaitingCounterparty) ==> (failed matches Err(
                WalletError::CannotFailTransfer,
            ))
            &&& batch.status is Failed ==> (deleted matches Ok(list) && list@.len() == 1
                && list@[0].batch_transfer == batch)
            &&& !(batch.status is Failed) ==> (deleted matches Err(
                WalletError::CannotDeleteTransfer,
            ))
        }),
{
    let p = with_txid(txid@);
    lemma_first_index(records.batch_transfers@, p);
    let batches = records.batch_transfers@;
    assert(p(batches[b]));
    let x = batch_with(batches, txid@)->0;
    let f = choose|f: int|
        0 <= f < batches.len() && #[trigger] batches[f] == x && p(x) && forall|k: int|
            0 <= k < f ==> !p(#[trigger] batches[k]);
    assert(f == b) by {
        if f < b {
            assert(p(batches[f]));
        }
        if b < f {
            assert(!p(batches[b]));
        }
    }
}

/// What is not stored cannot be failed or deleted: the error tells the blinded UTXO or
/// the transaction ID that was asked for.
pub proof fn unknown_transfers_are_not_found(
    wallet: Wallet,
    records: Records,
    online: Online,
    blinded_utxo: Option<String>,
    txid: Option<String>,
    failed: Result<Vec<DbBatchTransfer>, WalletError>,
    deleted: Result<Vec<Deletion>, WalletError>,
)
    requires
        connected(records),
        is_connected(wallet, online),
        call_ensures(
            Wallet::fail_transfers,
            (&wallet, &records, &online, blinded_utxo, txid),
            failed,
        ),
        call_ensures(Wallet::delete_transfers, (&wallet, &records, blinded_utxo, txid), deleted),
    ensures
        ({
            let no_transfer = blinded_utxo matches Some(bu) && forall|k: int|
                0 <= k < records.transfers@.len() ==> !((
                #[trigger] records.transfers@[k]).blinded_utxo matches Some(x) && x@ == bu@);
            let no_batch = blinded_utxo is None && (txid matches Some(id) && forall|k: int|
                0 <= k < records.batch_transfers@.len() ==> !((
                #[trigger] records.batch_transfers@[k]).txid matches Some(x) && x@ == id@));
            &&& no_transfer <==> (failed matches Err(WalletError::TransferNotFound(_)))
            &&& no_transfer <==> (deleted matches Err(WalletError::TransferNotFound(_)))
            &&& no_batch <==> (failed matches Err(WalletError::BatchTransferNotFound(_)))
            &&& no_batch <==> (deleted matches Err(WalletError::BatchTransferNotFound(_)))
            &&& failed matches Err(WalletError::TransferNotFound(x)) ==> x@ == blinded_utxo->0@
            &&& failed matches Err(WalletError::BatchTransferNotFound(x)) ==> x@ == txid->0@
        }),
{
    if let Some(bu) = blinded_utxo {
        let p = with_blinded_utxo(bu@);
        lemma_first_index(records.transfers@, p);
    } else if let Some(id) = txid {
        let p = with_txid(id@);
        lemma_first_index(records.batch_transfers@, p);
    }
}

/// Where nothing is named, exactly the batch transfers that wait for their counterparty
/// are failed, and exactly the failed ones deleted, in their order.
pub proof fn all_eligible_transfers_are_taken(
    wallet: Wallet,
    records: Records,
    online: Online,
    failed: Result<Vec<DbBatchTransfer>, WalletError>,
    deleted: Result<Vec<Deletion>, WalletError>,
) -> (at: (Seq<int>, Seq<int>))
    requires
        is_connected(wallet, online),
        call_ensures(
            Wallet::fail_transfers,
            (&wallet, &records, &online, None::<String>, None::<String>),
            failed,
        ),
        call_ensures(
            Wallet::delete_transfers,
            (&wallet, &records, None::<String>, None::<String>),
            deleted,
        ),
    ensures
        failed matches Ok(list) && is_list_of(list@, records.batch_transfers@, at.0),
        forall|b: int|
            0 <= b < records.batch_transfers@.len() ==> (at.0.contains(b) <==> (
            #[trigger] records.batch_transfers@[b]).status is WaitingCounterparty),
        deleted matches Ok(list) && list@.len() == at.1.len() && forall|k: int|
            0 <= k < at.1.len() ==> 0 <= #[trigger] at.1[k] < records.batch_transfers@.len()
                && deletes_batch(list@[k], records, at.1[k]),
        forall|k: int, l: int|
            0 <= k < l < at.1.len() ==> #[trigger] at.1[k] < #[trigger] at.1[l],
        forall|b: int|
            0 <= b < records.batch_transfers@.len() ==> (at.1.contains(b) <==> (
            #[trigger] records.batch_transfers@[b]).status is Failed),
{
    let waiting = |b: DbBatchTransfer| b.status == TransferStatus::WaitingCounterparty;
    let gone = |b: DbBatchTransfer| b.status == TransferStatus::Failed;
    let batches = records.batch_transfers@;
    let x = lemma_filter_picks(batches, waiting);
    let y = lemma_filter_picks(batches, gone);
    lemma_picked(batches, waiting, x);
    lemma_picked(batches, gone, y);
    let list = deleted->Ok_0@;
    let kept = batches.filter(gone);
    assert forall|b: int| 0 <= b < batches.len() implies (x.contains(b) <==> (
    #[trigger] batches[b]).status is WaitingCounterparty) && (y.contains(b)
        <==> batches[b].status is Failed) by {
        assert(waiting(batches[b]) == (batches[b].status is WaitingCounterparty));
        assert(gone(batches[b]) == (batches[b].status is Failed));
    }
    assert forall|k: int| 0 <= k < y.len() implies 0 <= #[trigger] y[k] < batches.len()
        && deletes_batch(list[k], records, y[k]) by {
        assert(list[k].batch_transfer == kept[k]);
        assert forall|id: i64| #[trigger] list[k].asset_transfers@.contains(id) <==> is_part(
            records,
            id,
            y[k],
        ) by {
            lemma_batch_indices(records.asset_transfers@, batches[y[k]].idx, id);
        }
    }
    (x, y)
}

proof fn lemma_picked<A>(s: Seq<A>, p: spec_fn(A) -> bool, at: Seq<int>)
    requires
        picks(at, s, p),
    ensures
        forall|i: int| 0 <= i < s.len() ==> (at.contains(i) <==> p(#[trigger] s[i])),
{
    assert forall|i: int| 0 <= i < s.len() implies (at.contains(i) <==> p(#[trigger] s[i])) by {
        if at.contains(i) {
            let k = choose|k: int| 0 <= k < at.len() && at[k] == i;
            assert(p(s[at[k]]));
        }
    }
}

/// Whether a deletion is that of the batch transfer in a row, with the colorings of its
/// asset transfers.
pub open spec fn deletes_batch(d: Deletion, records: Records, b: int) -> bool {
    &&& d.batch_transfer == records.batch_transfers@[b]
    &&& forall|id: i64| #[trigger] d.asset_transfers@.contains(id) <==> is_part(records, id, b)
}

/// Whether a batch transfer has an asset transfer of an asset.
pub open spec fn has_asset(records: Records, batch: DbBatchTransfer, asset_id: Seq<char>) -> bool {
    exists|i: int|
        {
            &&& 0 <= i < records.asset_transfers@.len()
            &&& (#[trigger] records.asset_transfers@[i]).batch_transfer_idx == batch.idx
            &&& records.asset_transfers@[i].asset_id matches Some(id) && id@ == asset_id
        }
}

/// Whether a batch transfer still waits and, where an asset is given, carries it.
pub open spec fn is_refreshed(
    records: Records,
    batch: DbBatchTransfer,
    asset_id: Option<String>,
) -> bool {
    &&& batch.status is WaitingCounterparty || batch.status is WaitingConfirmations
    &&& asset_id matches Some(id) ==> has_asset(records, batch, id@)
}

/// A refresh looks at every batch transfer that still waits, for its counterparty or for
/// its confirmations, and at no other, in their order. Where an asset is given, it has to
/// be known, and only the batch transfers that carry it count. Then the wallet has to be
/// online.
pub proof fn all_pending_transfers_are_refreshed(
    wallet: Wallet,
    records: Records,
    online: Online,
    asset_id: Option<String>,
    r: Result<Vec<DbBatchTransfer>, WalletError>,
) -> (at: Seq<int>)
    requires
        call_ensures(Wallet::refresh, (&wallet, &records, &online, asset_id), r),
    ensures
        ({
            let unknown = asset_id matches Some(id) && forall|k: int|
                0 <= k < records.assets@.len() ==> (#[trigger] records.assets@[k]).asset_id@
                    != id@;
            &&& unknown ==> (r matches Err(WalletError::AssetNotFound(id)) && id@
                == asset_id->0@)
            &&& !unknown && !is_connected(wallet, online) ==> (r matches Err(
                WalletError::InvalidOnline,
            ))
            &&& !unknown && is_connected(wallet, online) ==> (r matches Ok(list) && is_list_of(
                list@,
                records.batch_transfers@,
                at,
            ))
        }),
        forall|b: int|
            0 <= b < records.batch_transfers@.len() ==> (at.contains(b) <==> is_refreshed(
                records,
                #[trigger] records.batch_transfers@[b],
                asset_id,
            )),
{
    if let Some(id) = asset_id {
        lemma_first_index(records.assets@, with_asset_id(id@));
    }
    let wanted = opt_text(asset_id);
    let p = |b: DbBatchTransfer|
        b.status.is_pending() && (wanted matches Some(id) ==> carries(
            records.asset_transfers@,
            b.idx,
            id,
        ));
    lemma_refreshed(records, wanted);
    let at = lemma_filter_picks(records.batch_transfers@, p);
    lemma_picked(records.batch_transfers@, p, at);
    assert forall|b: int| 0 <= b < records.batch_transfers@.len() implies (at.contains(b)
        <==> is_refreshed(records, #[trigger] records.batch_transfers@[b], asset_id)) by {
        let x = records.batch_transfers@[b];
        if let Some(id) = asset_id {
            assert(carries(records.asset_transfers@, x.idx, id@) == has_asset(
                records,
                x,
                id@,
            ));
        }
        assert(p(x) == is_refreshed(records, x, asset_id));
    }
    at
}

proof fn lemma_refreshed(records: Records, asset_id: Option<Seq<char>>)
    ensures
        to_refresh(records, asset_id) == records.batch_transfers@.filter(
            |b: DbBatchTransfer|
                b.status.is_pending() && (asset_id matches Some(id) ==> carries(
                    records.asset_transfers@,
                    b.idx,
                    id,
                )),
        ),
{
}

/// Nothing is failed by a wallet that is not online.
pub proof fn failing_needs_a_connection(
    wallet: Wallet,
    records: Records,
    online: Online,
    blinded_utxo: Option<String>,
    txid: Option<String>,
    r: Result<Vec<DbBatchTransfer>, WalletError>,
)
    requires
        call_ensures(
            Wallet::fail_transfers,
            (&wallet, &records, &online, blinded_utxo, txid),
            r,
        ),
    ensures
        !is_connected(wallet, online) <==> (r matches Err(WalletError::InvalidOnline)),
{
}

/// While a transfer waits for its counterparty, the consignment of an incoming one and the
/// answers to an outgoing one are looked for. Then its confirmations are, and in a final
/// status nothing.
pub proof fn each_status_is_refreshed_in_its_way(
    batch: DbBatchTransfer,
    incoming: bool,
    r: RefreshStep,
)
    requires
        call_ensures(refresh_transfer, (&batch, incoming), r),
    ensures
        r is WaitConsignment <==> batch.status is WaitingCounterparty && incoming,
        r is WaitAck <==> batch.status is WaitingCounterparty && !incoming,
        r is WaitConfirmations <==> batch.status is WaitingConfirmations,
        r is Nothing <==> batch.status is Settled || batch.status is Failed,
{
}

/// A transfer is failed only where a refresh did not change it. Then its status is failed
/// and it expires now, and nothing else changes.
pub proof fn only_unchanged_transfers_are_failed(
    batch: DbBatchTransfer,
    refreshed: Option<DbBatchTransfer>,
    throw_err: bool,
    now: i64,
    r: Result<Option<DbBatchTransfer>, WalletError>,
    e: Option<DbBatchTransfer>,
)
    requires
        call_ensures(fail_batch_transfer, (&batch, &refreshed, throw_err, now), r),
        call_ensures(expire_transfer, (&batch, &refreshed), e),
    ensures
        refreshed is Some && throw_err ==> (r matches Err(WalletError::CannotFailTransfer)),
        refreshed is Some && !throw_err ==> (r matches Ok(None)),
        refreshed is Some ==> e is None,
        refreshed is None ==> {
            &&& r matches Ok(Some(row)) && {
                &&& row.idx == batch.idx
                &&& row.txid == batch.txid
                &&& row.status is Failed
                &&& row.expiration == Some(now)
            }
            &&& e matches Some(row) && {
                &&& row.idx == batch.idx
                &&& row.txid == batch.txid
                &&& row.status is Failed
                &&& row.expiration == batch.expiration
            }
        },
{
}

/// Exactly the transfers that wait for their counterparty and whose expiration has passed
/// are expired, in their order.
pub proof fn waiting_transfers_expire(
    batches: Vec<DbBatchTransfer>,
    now: i64,
    r: Vec<DbBatchTransfer>,
) -> (at: Seq<int>)
    requires
        call_ensures(expired_transfers, (&batches, now), r),
    ensures
        is_list_of(r@, batches@, at),
        forall|b: int|
            0 <= b < batches@.len() ==> (at.contains(b) <==> {
                &&& (#[trigger] batches@[b]).status is WaitingCounterparty
                &&& batches@[b].expiration matches Some(e) && e < now
            }),
{
    let p = |b: DbBatchTransfer| expired(b, now);
    let at = lemma_filter_picks(batches@, p);
    lemma_picked(batches@, p, at);
    assert forall|b: int| 0 <= b < batches@.len() implies (at.contains(b) <==> {
        &&& (#[trigger] batches@[b]).status is WaitingCounterparty
        &&& batches@[b].expiration matches Some(e) && e < now
    }) by {
        assert(p(batches@[b]) == expired(batches@[b], now));
    }
    at
}

} // verus!
