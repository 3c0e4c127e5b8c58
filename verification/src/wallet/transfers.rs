//! Finding, deleting, failing and refreshing transfers.

use vstd::prelude::*;

use crate::database::records::{
    asset_transfer_at, asset_transfers_of, asset_with, batch_at, batch_has_status,
    batch_transfers_of, batch_with, get_asset_or_fail, get_asset_transfer_at, get_batch_transfer,
    get_batch_transfer_at, get_transfer, in_batch, in_batch_with_status, indices_of,
    iter_batch_asset_transfers, lemma_batch_indices, transfer_with, transfers_of,
    with_blinded_utxo, Records,
};
use crate::database::{DbAssetTransfer, DbBatchTransfer, DbColoring, DbTransfer};
use crate::error::WalletError;
use crate::seqs::{
    has_id, lemma_filter_agree, lemma_filter_all, lemma_filter_ends, lemma_filter_step,
    lemma_no_first,
};
use crate::wallet::types::{opt_text, same_text, Online, TransferStatus};
use crate::wallet::Wallet;

verus! {

/// What a blinded UTXO and a transaction ID point at.
#[derive(Debug, PartialEq, Eq)]
pub enum Selection {
    /// No transfer has the blinded UTXO
    NoTransfer,
    /// No batch transfer has the transaction ID
    NoBatchTransfer,
    /// The two do not point at one batch transfer, or the blinded UTXO alone
    /// points at a part of one
    Mismatch,
    /// A batch transfer
    Batch(DbBatchTransfer),
}

/// The batch transfer that a transfer is part of.
pub open spec fn batch_of(records: Records, t: DbTransfer) -> Option<DbBatchTransfer> {
    match asset_transfer_at(records.asset_transfers@, t.asset_transfer_idx) {
        Some(a) => batch_at(records.batch_transfers@, a.batch_transfer_idx),
        None => None,
    }
}

/// Whether every transfer is part of a stored batch transfer.
pub open spec fn connected(records: Records) -> bool {
    forall|i: int|
        0 <= i < records.transfers@.len() ==> batch_of(
            records,
            #[trigger] records.transfers@[i],
        ) is Some
}

/// What a blinded UTXO and a transaction ID, at least one of which is given,
/// point at.
///
/// A blinded UTXO points at the batch transfer of its transfer. A batch transfer
/// with other transfers, or any where a transaction ID is given, has to have that
/// transaction ID.
pub open spec fn selected(
    records: Records,
    blinded_utxo: Option<Seq<char>>,
    txid: Option<Seq<char>>,
) -> Selection {
    match blinded_utxo {
        Some(bu) => match transfer_with(records.transfers@, bu) {
            None => Selection::NoTransfer,
            Some(t) => {
                let batch = batch_of(records, t)->0;
                let count = transfers_of(
                    records.transfers@,
                    records.asset_transfers@,
                    batch.idx,
                ).len();
                if (count > 1 || txid is Some) && txid != opt_text(batch.txid) {
                    Selection::Mismatch
                } else {
                    Selection::Batch(batch)
                }
            },
        },
        None => match batch_with(records.batch_transfers@, txid->0) {
            None => Selection::NoBatchTransfer,
            Some(batch) => Selection::Batch(batch),
        },
    }
}

proof fn lemma_found_is_stored(transfers: Seq<DbTransfer>, blinded_utxo: Seq<char>)
    ensures
        transfer_with(transfers, blinded_utxo) matches Some(t) ==> transfers.contains(t),
{
    let p = with_blinded_utxo(blinded_utxo);
    if transfers.filter(p).len() > 0 {
        transfers.lemma_filter_contains_rev(p, transfers.filter(p)[0]);
    }
}

fn select_batch(
    records: &Records,
    blinded_utxo: &Option<String>,
    txid: &Option<String>,
) -> (r: Selection)
    requires
        connected(*records),
        blinded_utxo is Some || txid is Some,
    ensures
        r == selected(*records, opt_text(*blinded_utxo), opt_text(*txid)),
{
    match blinded_utxo {
        Some(bu) => {
            let found: Option<DbTransfer> = get_transfer(&records.transfers, bu);
            match found {
                None => Selection::NoTransfer,
                Some(t) => {
                    proof {
                        lemma_found_is_stored(records.transfers@, bu@);
                        let k = choose|k: int|
                            0 <= k < records.transfers@.len() && records.transfers@[k] == t;
                        assert(batch_of(*records, records.transfers@[k]) is Some);
                    }
                    let asset_transfer: Option<DbAssetTransfer> = get_asset_transfer_at(
                        &records.asset_transfers,
                        t.asset_transfer_idx,
                    );
                    let batch: Option<DbBatchTransfer> = get_batch_transfer_at(
                        &records.batch_transfers,
                        asset_transfer.unwrap().batch_transfer_idx,
                    );
                    let batch: DbBatchTransfer = batch.unwrap();
                    let count: usize = batch_transfers_of(
                        &records.transfers,
                        &records.asset_transfers,
                        batch.idx,
                    ).len();
                    if (count > 1 || txid.is_some()) && !same_text(txid, &batch.txid) {
                        Selection::Mismatch
                    } else {
                        Selection::Batch(batch)
                    }
                },
            }
        },
        None => {
            match txid {
                Some(id) => match get_batch_transfer(&records.batch_transfers, id) {
                    None => Selection::NoBatchTransfer,
                    Some(batch) => Selection::Batch(batch),
                },
                None => Selection::NoBatchTransfer,
            }
        },
    }
}

/// The batch transfers with a given status, in their order.
pub open spec fn with_status(batches: Seq<DbBatchTransfer>, status: TransferStatus) -> Seq<
    DbBatchTransfer,
> {
    batches.filter(|b: DbBatchTransfer| b.status == status)
}

fn batches_in_status(batches: &Vec<DbBatchTransfer>, status: TransferStatus) -> (r: Vec<
    DbBatchTransfer,
>)
    ensures
        r@ == with_status(batches@, status),
{
    let ghost p = |b: DbBatchTransfer| b.status == status;
    let mut kept: Vec<DbBatchTransfer> = Vec::new();
    let mut i: usize = 0;
    proof {
        lemma_filter_ends(batches@, p);
    }
    while i < batches.len()
        invariant
            i <= batches.len(),
            p == (|b: DbBatchTransfer| b.status == status),
            kept@ == batches@.take(i as int).filter(p),
        decreases batches.len() - i,
    {
        proof {
            lemma_filter_step(batches@, p, i as int);
        }
        if batches[i].status == status {
            kept.push(batches[i].clone());
        }
        i += 1;
    }
    proof {
        lemma_filter_ends(batches@, p);
    }
    kept
}

/// What to delete: a batch transfer, and before it the colorings of its asset
/// transfers.
#[derive(Debug, PartialEq, Eq)]
pub struct Deletion {
    /// The asset transfers whose colorings go
    pub asset_transfers: Vec<i64>,
    /// The batch transfer
    pub batch_transfer: DbBatchTransfer,
}

/// Whether a deletion is that of a batch transfer with all its colorings.
pub open spec fn deletes(d: Deletion, batch: DbBatchTransfer, records: Records) -> bool {
    &&& d.batch_transfer == batch
    &&& d.asset_transfers@ == asset_transfers_of(
        records.asset_transfers@,
        batch.idx,
    ).map_values(|t: DbAssetTransfer| t.idx)
}

fn delete_batch_transfer(batch: DbBatchTransfer, records: &Records) -> (r: Deletion)
    ensures
        deletes(r, batch, *records),
{
    let own: Vec<DbAssetTransfer> = iter_batch_asset_transfers(
        &records.asset_transfers,
        batch.idx,
    );
    Deletion { asset_transfers: indices_of(&own), batch_transfer: batch }
}

/// How deleting transfers ends.
pub open spec fn deletion_decided(
    r: Result<Vec<Deletion>, WalletError>,
    records: Records,
    blinded_utxo: Option<Seq<char>>,
    txid: Option<Seq<char>>,
) -> bool {
    if blinded_utxo is None && txid is None {
        let failed = with_status(records.batch_transfers@, TransferStatus::Failed);
        &&& r matches Ok(list)
        &&& list@.len() == failed.len()
        &&& forall|i: int| 0 <= i < list@.len() ==> deletes(#[trigger] list@[i], failed[i], records)
    } else {
        match selected(records, blinded_utxo, txid) {
            Selection::NoTransfer => r matches Err(WalletError::TransferNotFound(bu)) && Some(bu@)
                == blinded_utxo,
            Selection::NoBatchTransfer => r matches Err(WalletError::BatchTransferNotFound(id))
                && Some(id@) == txid,
            Selection::Mismatch => r matches Err(WalletError::CannotDeleteTransfer),
            Selection::Batch(batch) => if batch.status is Failed {
                &&& r matches Ok(list)
                &&& list@.len() == 1
                &&& deletes(list@[0], batch, records)
            } else {
                r matches Err(WalletError::CannotDeleteTransfer)
            },
        }
    }
}

/// How choosing the transfers to fail ends.
pub open spec fn failing_decided(
    r: Result<Vec<DbBatchTransfer>, WalletError>,
    records: Records,
    blinded_utxo: Option<Seq<char>>,
    txid: Option<Seq<char>>,
) -> bool {
    if blinded_utxo is None && txid is None {
        &&& r matches Ok(list)
        &&& list@ == with_status(records.batch_transfers@, TransferStatus::WaitingCounterparty)
    } else {
        match selected(records, blinded_utxo, txid) {
            Selection::NoTransfer => r matches Err(WalletError::TransferNotFound(bu)) && Some(bu@)
                == blinded_utxo,
            Selection::NoBatchTransfer => r matches Err(WalletError::BatchTransferNotFound(id))
                && Some(id@) == txid,
            Selection::Mismatch => r matches Err(WalletError::CannotFailTransfer),
            Selection::Batch(batch) => if batch.status is WaitingCounterparty {
                &&& r matches Ok(list)
                &&& list@ == seq![batch]
            } else {
                r matches Err(WalletError::CannotFailTransfer)
            },
        }
    }
}

/// The batch transfers that a refresh looks at: those that can still change and,
/// where an asset is given, have an asset transfer of it.
pub open spec fn to_refresh(records: Records, asset_id: Option<Seq<char>>) -> Seq<
    DbBatchTransfer,
> {
    records.batch_transfers@.filter(
        |b: DbBatchTransfer|
            b.status.is_pending() && (asset_id matches Some(id) ==> carries(
                records.asset_transfers@,
                b.idx,
                id,
            )),
    )
}

/// Whether a batch transfer has an asset transfer of an asset.
pub open spec fn carries(
    asset_transfers: Seq<DbAssetTransfer>,
    batch: i64,
    asset_id: Seq<char>,
) -> bool {
    exists|i: int|
        0 <= i < asset_transfers.len() && (#[trigger] asset_transfers[i]).batch_transfer_idx
            == batch && opt_text(asset_transfers[i].asset_id) == Some(asset_id)
}

fn batches_carrying(asset_transfers: &Vec<DbAssetTransfer>, asset_id: &String) -> (r: Vec<i64>)
    ensures
        forall|id: i64| #[trigger]
            r@.contains(id) <==> carries(asset_transfers@, id, asset_id@),
{
    let wanted: Option<String> = Some(asset_id.clone());
    let mut ids: Vec<i64> = Vec::new();
    let mut i: usize = 0;
    while i < asset_transfers.len()
        invariant
            i <= asset_transfers.len(),
            opt_text(wanted) == Some(asset_id@),
            forall|id: i64| #[trigger]
                ids@.contains(id) <==> carries(
                    asset_transfers@.take(i as int),
                    id,
                    asset_id@,
                ),
        decreases asset_transfers.len() - i,
    {
        let ghost before = ids@;
        let ghost head = asset_transfers@.take(i as int);
        let ghost longer = asset_transfers@.take(i + 1);
        let ghost t = asset_transfers@[i as int];
        assert(longer =~= head.push(t));
        if same_text(&asset_transfers[i].asset_id, &wanted) {
            ids.push(asset_transfers[i].batch_transfer_idx);
        }
        proof {
            assert forall|id: i64| #[trigger] ids@.contains(id) <==> carries(
                longer,
                id,
                asset_id@,
            ) by {
                assert(before.contains(id) <==> carries(head, id, asset_id@));
                if before.contains(id) {
                    let k = choose|k: int| 0 <= k < before.len() && before[k] == id;
                    assert(ids@[k] == id);
                }
                if ids@.contains(id) {
                    let k = choose|k: int| 0 <= k < ids@.len() && ids@[k] == id;
                    if k < before.len() {
                        assert(before[k] == id);
                    }
                }
                if carries(head, id, asset_id@) {
                    let k = choose|k: int|
                        0 <= k < head.len() && (#[trigger] head[k]).batch_transfer_idx == id
                            && opt_text(head[k].asset_id) == Some(asset_id@);
                    assert(longer[k] == head[k]);
                }
                if carries(longer, id, asset_id@) {
                    let k = choose|k: int|
                        0 <= k < longer.len() && (#[trigger] longer[k]).batch_transfer_idx == id
                            && opt_text(longer[k].asset_id) == Some(asset_id@);
                    if k < i {
                        assert(head[k] == longer[k]);
                    } else {
                        assert(ids@[before.len() as int] == id);
                    }
                }
                assert(longer[i as int] == t);
            }
        }
        i += 1;
    }
    assert(asset_transfers@.take(i as int) =~= asset_transfers@);
    ids
}

fn pending_batches(records: &Records, asset_id: &Option<String>) -> (r: Vec<DbBatchTransfer>)
    ensures
        r@ == to_refresh(*records, opt_text(*asset_id)),
{
    let ghost wanted = opt_text(*asset_id);
    let ghost p = |b: DbBatchTransfer|
        b.status.is_pending() && (wanted matches Some(id) ==> carries(
            records.asset_transfers@,
            b.idx,
            id,
        ));
    let ids: Vec<i64> = match asset_id {
        Some(id) => batches_carrying(&records.asset_transfers, id),
        None => Vec::new(),
    };
    let mut kept: Vec<DbBatchTransfer> = Vec::new();
    let mut i: usize = 0;
    proof {
        lemma_filter_ends(records.batch_transfers@, p);
    }
    while i < records.batch_transfers.len()
        invariant
            i <= records.batch_transfers.len(),
            wanted == opt_text(*asset_id),
            p == (|b: DbBatchTransfer|
                b.status.is_pending() && (wanted matches Some(id) ==> carries(
                    records.asset_transfers@,
                    b.idx,
                    id,
                ))),
            wanted matches Some(w) ==> forall|id: i64| #[trigger]
                ids@.contains(id) <==> carries(records.asset_transfers@, id, w),
            kept@ == records.batch_transfers@.take(i as int).filter(p),
        decreases records.batch_transfers.len() - i,
    {
        proof {
            lemma_filter_step(records.batch_transfers@, p, i as int);
        }
        let b: &DbBatchTransfer = &records.batch_transfers[i];
        if b.pending() && (asset_id.is_none() || has_id(&ids, b.idx)) {
            kept.push(b.clone());
        }
        i += 1;
    }
    proof {
        lemma_filter_ends(records.batch_transfers@, p);
        assert(to_refresh(*records, wanted) == records.batch_transfers@.filter(p)) by {
            assert(p =~= (|b: DbBatchTransfer|
                b.status.is_pending() && (wanted matches Some(id) ==> carries(
                    records.asset_transfers@,
                    b.idx,
                    id,
                ))));
        }
    }
    kept
}

/// What refreshing a batch transfer consists of.
#[derive(Debug, Clone, Copy, PartialEq, Eq, Structural)]
pub enum RefreshStep {
    /// Look for the consignment of an incoming transfer
    WaitConsignment,
    /// Look for the answers of the recipients of an outgoing transfer
    WaitAck,
    /// Look for the confirmations of the transaction
    WaitConfirmations,
    /// Nothing, the status is final
    Nothing,
}

/// What refreshing a batch transfer in a given status consists of.
pub open spec fn refresh_step(status: TransferStatus, incoming: bool) -> RefreshStep {
    match status {
        TransferStatus::WaitingCounterparty => if incoming {
            RefreshStep::WaitConsignment
        } else {
            RefreshStep::WaitAck
        },
        TransferStatus::WaitingConfirmations => RefreshStep::WaitConfirmations,
        TransferStatus::Settled => RefreshStep::Nothing,
        TransferStatus::Failed => RefreshStep::Nothing,
    }
}

/// Tells what refreshing a batch transfer consists of.
pub fn refresh_transfer(transfer: &DbBatchTransfer, incoming: bool) -> (r: RefreshStep)
    ensures
        r == refresh_step(transfer.status, incoming),
{
    match transfer.status {
        TransferStatus::WaitingCounterparty => if incoming {
            RefreshStep::WaitConsignment
        } else {
            RefreshStep::WaitAck
        },
        TransferStatus::WaitingConfirmations => RefreshStep::WaitConfirmations,
        TransferStatus::Settled => RefreshStep::Nothing,
        TransferStatus::Failed => RefreshStep::Nothing,
    }
}

/// A batch transfer once it is failed by the user.
pub open spec fn as_failed(batch: DbBatchTransfer, now: i64) -> DbBatchTransfer {
    DbBatchTransfer { status: TransferStatus::Failed, expiration: Some(now), ..batch }
}

/// Fails a batch transfer, if its status didn't change after a refresh.
///
/// Returns the updated row. Where the status changed, there is none and, for a
/// transfer that was asked for by name, an error.
pub fn fail_batch_transfer(
    batch: &DbBatchTransfer,
    refreshed: &Option<DbBatchTransfer>,
    throw_err: bool,
    now: i64,
) -> (r: Result<Option<DbBatchTransfer>, WalletError>)
    ensures
        match *refreshed {
            None => r matches Ok(Some(row)) && row == as_failed(*batch, now),
            Some(_) => if throw_err {
                r matches Err(WalletError::CannotFailTransfer)
            } else {
                r matches Ok(None)
            },
        },
{
    if refreshed.is_none() {
        let mut row: DbBatchTransfer = batch.clone();
        row.status = TransferStatus::Failed;
        row.expiration = Some(now);
        Ok(Some(row))
    } else if throw_err {
        Err(WalletError::CannotFailTransfer)
    } else {
        Ok(None)
    }
}

/// Whether a batch transfer that waits for its counterparty has expired.
pub open spec fn expired(batch: DbBatchTransfer, now: i64) -> bool {
    batch.status is WaitingCounterparty && (batch.expiration matches Some(e) && e < now)
}

/// Gives the batch transfers that have expired, in their order.
pub fn expired_transfers(batches: &Vec<DbBatchTransfer>, now: i64) -> (r: Vec<DbBatchTransfer>)
    ensures
        r@ == batches@.filter(|b: DbBatchTransfer| expired(b, now)),
{
    let ghost p = |b: DbBatchTransfer| expired(b, now);
    let mut kept: Vec<DbBatchTransfer> = Vec::new();
    let mut i: usize = 0;
    proof {
        lemma_filter_ends(batches@, p);
    }
    while i < batches.len()
        invariant
            i <= batches.len(),
            p == (|b: DbBatchTransfer| expired(b, now)),
            kept@ == batches@.take(i as int).filter(p),
        decreases batches.len() - i,
    {
        proof {
            lemma_filter_step(batches@, p, i as int);
        }
        let expiration: i64 = match batches[i].expiration {
            Some(e) => e,
            None => now,
        };
        if batches[i].waiting_counterparty() && expiration < now {
            kept.push(batches[i].clone());
        }
        i += 1;
    }
    proof {
        lemma_filter_ends(batches@, p);
    }
    kept
}

/// Fails an expired batch transfer, if its status didn't change after a refresh.
///
/// Returns the updated row, whose expiration stays.
pub fn expire_transfer(batch: &DbBatchTransfer, refreshed: &Option<DbBatchTransfer>) -> (r: Option<
    DbBatchTransfer,
>)
    ensures
        *refreshed is Some ==> r is None,
        *refreshed is None ==> r == Some(
            (DbBatchTransfer { status: TransferStatus::Failed, ..*batch }),
        ),
{
    if refreshed.is_none() {
        let mut row: DbBatchTransfer = batch.clone();
        row.status = TransferStatus::Failed;
        Some(row)
    } else {
        None
    }
}

impl Wallet {
    /// Delete eligible transfers from the database
    ///
    /// An optional `blinded_utxo` can be provided to operate on a single transfer.
    /// An optional `txid` can be provided to operate on a batch transfer.
    /// If both a `blinded_utxo` and a `txid` are provided, they need to belong to the same batch
    /// transfer or an error is returned.
    ///
    /// Eligible transfers are the ones in status [`TransferStatus::Failed`]
    pub fn delete_transfers(
        &self,
        records: &Records,
        blinded_utxo: Option<String>,
        txid: Option<String>,
    ) -> (r: Result<Vec<Deletion>, WalletError>)
        requires
            connected(*records),
        ensures
            deletion_decided(r, *records, opt_text(blinded_utxo), opt_text(txid)),
    {
        if blinded_utxo.is_some() || txid.is_some() {
            match select_batch(records, &blinded_utxo, &txid) {
                Selection::NoTransfer => Err(
                    WalletError::TransferNotFound(blinded_utxo.unwrap()),
                ),
                Selection::NoBatchTransfer => Err(
                    WalletError::BatchTransferNotFound(txid.unwrap()),
                ),
                Selection::Mismatch => Err(WalletError::CannotDeleteTransfer),
                Selection::Batch(batch) => {
                    if !batch.failed() {
                        return Err(WalletError::CannotDeleteTransfer);
                    }
                    let mut list: Vec<Deletion> = Vec::new();
                    list.push(delete_batch_transfer(batch, records));
                    Ok(list)
                },
            }
        } else {
            let failed: Vec<DbBatchTransfer> = batches_in_status(
                &records.batch_transfers,
                TransferStatus::Failed,
            );
            let mut list: Vec<Deletion> = Vec::new();
            let mut i: usize = 0;
            while i < failed.len()
                invariant
                    i <= failed.len(),
                    list@.len() == i,
                    forall|k: int|
                        0 <= k < i ==> deletes(#[trigger] list@[k], failed@[k], *records),
                decreases failed.len() - i,
            {
                list.push(delete_batch_transfer(failed[i].clone(), records));
                i += 1;
            }
            Ok(list)
        }
    }

    /// Set the status for eligible transfers to [`TransferStatus::Failed`]
    ///
    /// An optional `blinded_utxo` can be provided to operate on a single transfer.
    /// An optional `txid` can be provided to operate on a batch transfer.
    /// If both a `blinded_utxo` and a `txid` are provided, they need to belong to the same batch
    /// transfer or an error is returned.
    ///
    /// Eligible transfer are the ones in status [`TransferStatus::WaitingCounterparty`] after a
    /// `refresh` has been performed
    ///
    /// Returns the batch transfers to refresh and then to fail ([`fail_batch_transfer`])
    pub fn fail_transfers(
        &self,
        records: &Records,
        online: &Online,
        blinded_utxo: Option<String>,
        txid: Option<String>,
    ) -> (r: Result<Vec<DbBatchTransfer>, WalletError>)
        requires
            connected(*records),
        ensures
            (r matches Err(WalletError::InvalidOnline)) <==> !self.is_online_with(*online),
            self.is_online_with(*online) ==> failing_decided(
                r,
                *records,
                opt_text(blinded_utxo),
                opt_text(txid),
            ),
    {
        match self.check_online(online) {
            Err(e) => {
                return Err(e);
            },
            Ok(()) => {},
        }
        if blinded_utxo.is_some() || txid.is_some() {
            match select_batch(records, &blinded_utxo, &txid) {
                Selection::NoTransfer => Err(
                    WalletError::TransferNotFound(blinded_utxo.unwrap()),
                ),
                Selection::NoBatchTransfer => Err(
                    WalletError::BatchTransferNotFound(txid.unwrap()),
                ),
                Selection::Mismatch => Err(WalletError::CannotFailTransfer),
                Selection::Batch(batch) => {
                    if !batch.waiting_counterparty() {
                        return Err(WalletError::CannotFailTransfer);
                    }
                    let mut list: Vec<DbBatchTransfer> = Vec::new();
                    let ghost chosen = batch;
                    list.push(batch);
                    assert(list@ =~= seq![chosen]);
                    Ok(list)
                },
            }
        } else {
            Ok(batches_in_status(&records.batch_transfers, TransferStatus::WaitingCounterparty))
        }
    }

    /// Refresh the status of pending transfers, optionally filtered by [`Asset`] ID.
    ///
    /// Changes to each transfer depend on its status and whether the wallet is on the receiving or
    /// sending side.
    ///
    /// Returns the batch transfers to refresh ([`refresh_transfer`])
    ///
    /// [`Asset`]: crate::wallet::types::Asset
    pub fn refresh(&self, records: &Records, online: &Online, asset_id: Option<String>) -> (r:
        Result<Vec<DbBatchTransfer>, WalletError>)
        ensures
            ({
                let id = opt_text(asset_id);
                let unknown = id is Some && asset_with(records.assets@, id->0) is None;
                let online = self.is_online_with(*online);
                &&& unknown ==> (r matches Err(WalletError::AssetNotFound(a)) && Some(a@) == id)
                &&& !unknown && !online ==> (r matches Err(WalletError::InvalidOnline))
                &&& !unknown && online ==> (r matches Ok(list) && list@ == to_refresh(
                    *records,
                    id,
                ))
            }),
    {
        match &asset_id {
            Some(id) => match get_asset_or_fail(&records.assets, id) {
                Err(e) => {
                    return Err(e);
                },
                Ok(_) => {},
            },
            None => {},
        }
        match self.check_online(online) {
            Err(e) => {
                return Err(e);
            },
            Ok(()) => {},
        }
        Ok(pending_batches(records, &asset_id))
    }
}

/// A refresh never looks at a settled or failed transfer: those statuses are
/// final.
pub proof fn final_statuses_are_not_refreshed(
    records: Records,
    asset_id: Option<Seq<char>>,
    i: int,
)
    requires
        0 <= i < to_refresh(records, asset_id).len(),
    ensures
        !(to_refresh(records, asset_id)[i].status is Settled),
        !(to_refresh(records, asset_id)[i].status is Failed),
        refresh_step(TransferStatus::Settled, true) is Nothing,
        refresh_step(TransferStatus::Settled, false) is Nothing,
        refresh_step(TransferStatus::Failed, true) is Nothing,
        refresh_step(TransferStatus::Failed, false) is Nothing,
{
    let p = |b: DbBatchTransfer|
        b.status.is_pending() && (asset_id matches Some(id) ==> carries(
            records.asset_transfers@,
            b.idx,
            id,
        ));
    records.batch_transfers@.lemma_filter_pred(p, i);
}

/// A transfer that was failed can be deleted, and is not failed again.
pub proof fn failed_transfers_can_be_deleted(
    batch: DbBatchTransfer,
    now: i64,
    records: Records,
    blinded_utxo: Option<Seq<char>>,
    txid: Option<Seq<char>>,
    deleted: Result<Vec<Deletion>, WalletError>,
    failed: Result<Vec<DbBatchTransfer>, WalletError>,
)
    requires
        blinded_utxo is Some || txid is Some,
        selected(records, blinded_utxo, txid) == Selection::Batch(as_failed(batch, now)),
        deletion_decided(deleted, records, blinded_utxo, txid),
        failing_decided(failed, records, blinded_utxo, txid),
    ensures
        deleted matches Ok(list) && list@.len() == 1 && deletes(
            list@[0],
            as_failed(batch, now),
            records,
        ),
        failed matches Err(WalletError::CannotFailTransfer),
{
}

/// Whether a batch transfer is deleted.
pub open spec fn batch_deleted(list: Seq<Deletion>, idx: i64) -> bool {
    exists|i: int| 0 <= i < list.len() && (#[trigger] list[i]).batch_transfer.idx == idx
}

/// Whether the colorings of an asset transfer are deleted.
pub open spec fn colorings_deleted(list: Seq<Deletion>, asset_transfer: i64) -> bool {
    exists|i: int|
        0 <= i < list.len() && (#[trigger] list[i]).asset_transfers@.contains(asset_transfer)
}

/// Whether records come from others by deletions.
pub open spec fn deleted_from(after: Records, before: Records, list: Seq<Deletion>) -> bool {
    &&& after.batch_transfers@ == before.batch_transfers@.filter(
        |b: DbBatchTransfer| !batch_deleted(list, b.idx),
    )
    &&& after.colorings@ == before.colorings@.filter(
        |c: DbColoring| !colorings_deleted(list, c.asset_transfer_idx),
    )
}

/// Deleting all failed transfers leaves exactly the batch transfers that are not failed,
/// and the colorings that are not of an asset transfer of a failed one. Doing so once
/// more is no error and changes nothing.
pub proof fn exactly_the_failed_are_deleted(
    before: Records,
    first: Result<Vec<Deletion>, WalletError>,
    after: Records,
    again: Result<Vec<Deletion>, WalletError>,
    end: Records,
)
    requires
        forall|i: int, j: int|
            0 <= i < j < before.batch_transfers@.len() ==> (
            #[trigger] before.batch_transfers@[i]).idx != (
            #[trigger] before.batch_transfers@[j]).idx,
        deletion_decided(first, before, None, None),
        first matches Ok(list) ==> deleted_from(after, before, list@),
        deletion_decided(again, after, None, None),
        again matches Ok(list) ==> deleted_from(end, after, list@),
    ensures
        first is Ok,
        after.batch_transfers@ == before.batch_transfers@.filter(
            |b: DbBatchTransfer| !(b.status is Failed),
        ),
        after.colorings@ == before.colorings@.filter(
            |c: DbColoring|
                !in_batch_with_status(
                    before.asset_transfers@,
                    before.batch_transfers@,
                    c.asset_transfer_idx,
                    TransferStatus::Failed,
                ),
        ),
        again matches Ok(list) && list@.len() == 0,
        end.batch_transfers@ == after.batch_transfers@,
        end.colorings@ == after.colorings@,
{
    let list = first->Ok_0@;
    let batches = before.batch_transfers@;
    let colorings = before.colorings@;
    let is_failed = |b: DbBatchTransfer| b.status == TransferStatus::Failed;
    let failed = batches.filter(is_failed);
    assert forall|i: int| 0 <= i < batches.len() implies batch_deleted(
        list,
        (#[trigger] batches[i]).idx,
    ) == (batches[i].status is Failed) by {
        if batches[i].status is Failed {
            batches.lemma_filter_contains(is_failed, i);
            let k = choose|k: int| 0 <= k < failed.len() && failed[k] == batches[i];
            assert(deletes(list[k], failed[k], before));
        }
        if batch_deleted(list, batches[i].idx) {
            let k = choose|k: int|
                0 <= k < list.len() && (#[trigger] list[k]).batch_transfer.idx == batches[i].idx;
            assert(deletes(list[k], failed[k], before));
            batches.lemma_filter_contains_rev(is_failed, failed[k]);
            batches.lemma_filter_pred(is_failed, k);
            let j = choose|j: int| 0 <= j < batches.len() && batches[j] == failed[k];
            assert(batches[j].idx == batches[i].idx);
        }
    }
    lemma_filter_agree(
        batches,
        |b: DbBatchTransfer| !batch_deleted(list, b.idx),
        |b: DbBatchTransfer| !(b.status is Failed),
    );
    assert forall|id: i64| colorings_deleted(list, id) == #[trigger] in_batch_with_status(
        before.asset_transfers@,
        batches,
        id,
        TransferStatus::Failed,
    ) by {
        lemma_deleted_colorings(before, list, id);
    }
    lemma_filter_agree(
        colorings,
        |c: DbColoring| !colorings_deleted(list, c.asset_transfer_idx),
        |c: DbColoring|
            !in_batch_with_status(
                before.asset_transfers@,
                before.batch_transfers@,
                c.asset_transfer_idx,
                TransferStatus::Failed,
            ),
    );
    let left = after.batch_transfers@;
    assert forall|k: int| 0 <= k < left.len() implies !is_failed(#[trigger] left[k]) by {
        batches.lemma_filter_pred(|b: DbBatchTransfer| !(b.status is Failed), k);
    }
    lemma_no_first(left, is_failed);
    let none = again->Ok_0@;
    lemma_filter_all(left, |b: DbBatchTransfer| !batch_deleted(none, b.idx));
    lemma_filter_all(
        after.colorings@,
        |c: DbColoring| !colorings_deleted(none, c.asset_transfer_idx),
    );
}

proof fn lemma_deleted_colorings(records: Records, list: Seq<Deletion>, id: i64)
    requires
        ({
            let failed = with_status(records.batch_transfers@, TransferStatus::Failed);
            &&& list.len() == failed.len()
            &&& forall|i: int|
                0 <= i < list.len() ==> deletes(#[trigger] list[i], failed[i], records)
        }),
    ensures
        colorings_deleted(list, id) == in_batch_with_status(
            records.asset_transfers@,
            records.batch_transfers@,
            id,
            TransferStatus::Failed,
        ),
{
    let batches = records.batch_transfers@;
    let asset_transfers = records.asset_transfers@;
    let is_failed = |b: DbBatchTransfer| b.status == TransferStatus::Failed;
    let failed = batches.filter(is_failed);
    if colorings_deleted(list, id) {
        let k = choose|k: int|
            0 <= k < list.len() && (#[trigger] list[k]).asset_transfers@.contains(id);
        assert(deletes(list[k], failed[k], records));
        lemma_batch_indices(asset_transfers, failed[k].idx, id);
        batches.lemma_filter_contains_rev(is_failed, failed[k]);
        batches.lemma_filter_pred(is_failed, k);
        let j = choose|j: int| 0 <= j < batches.len() && batches[j] == failed[k];
        assert(batches[j].idx == failed[k].idx && batches[j].status is Failed);
        assert(batch_has_status(batches, failed[k].idx, TransferStatus::Failed));
        let i = choose|i: int|
            0 <= i < asset_transfers.len() && (#[trigger] asset_transfers[i]).idx == id
                && asset_transfers[i].batch_transfer_idx == failed[k].idx;
        assert(asset_transfers[i].idx == id);
    }
    if in_batch_with_status(asset_transfers, batches, id, TransferStatus::Failed) {
        let i = choose|i: int|
            0 <= i < asset_transfers.len() && (#[trigger] asset_transfers[i]).idx == id
                && batch_has_status(
                batches,
                asset_transfers[i].batch_transfer_idx,
                TransferStatus::Failed,
            );
        let batch = asset_transfers[i].batch_transfer_idx;
        let j = choose|j: int|
            0 <= j < batches.len() && (#[trigger] batches[j]).idx == batch && batches[j].status
                == TransferStatus::Failed;
        batches.lemma_filter_contains(is_failed, j);
        let k = choose|k: int| 0 <= k < failed.len() && failed[k] == batches[j];
        assert(deletes(list[k], failed[k], records));
        assert(in_batch(asset_transfers, id, batch));
        lemma_batch_indices(asset_transfers, batch, id);
        assert(list[k].asset_transfers@.contains(id));
    }
}

/// Where both a blinded UTXO and a transaction ID are given, only a batch
/// transfer that both belong to is operated on.
pub proof fn both_given_have_to_agree(
    records: Records,
    blinded_utxo: Seq<char>,
    txid: Seq<char>,
)
    requires
        connected(records),
    ensures
        selected(records, Some(blinded_utxo), Some(txid)) matches Selection::Batch(batch) ==> {
            &&& opt_text(batch.txid) == Some(txid)
            &&& transfer_with(records.transfers@, blinded_utxo) matches Some(t) && batch_of(
                records,
                t,
            ) == Some(batch)
        },
{
    lemma_found_is_stored(records.transfers@, blinded_utxo);
    if transfer_with(records.transfers@, blinded_utxo) is Some {
        let t = transfer_with(records.transfers@, blinded_utxo)->0;
        let k = choose|k: int|
            0 <= k < records.transfers@.len() && records.transfers@[k] == t;
        assert(batch_of(records, records.transfers@[k]) is Some);
    }
}

/// A transfer without an expiration never expires.
pub proof fn no_expiration_never_expires(batch: DbBatchTransfer, now: i64)
    requires
        batch.expiration is None,
    ensures
        !expired(batch, now),
{
}

} // verus!
