//! Settling transfers: the answers of recipients and the confirmations of
//! transactions.

use vstd::prelude::*;

use crate::chain::PsbtContents;
use crate::database::records::{batch_transfers_of, transfers_of, Records};
use crate::database::{DbAssetTransfer, DbBatchTransfer, DbColoring, DbTransfer, DbTxo};
use crate::error::{InternalError, WalletError};
use crate::seqs::{lemma_filter_ends, lemma_filter_step};
use crate::text::{contains_text, occurs_in, path_of};
use crate::wallet::outputs::{as_colorable, get_txo, stored_txo};
use crate::wallet::paths::{
    consignment_path, consignment_path_of, consignment_rcv_file, signed_psbt_file, transfer_dir,
    transfer_dir_of,
};
use crate::wallet::receive::{
    consignment_received, records_receipt, AcceptedConsignment, Receipt, ReceivedConsignment,
};
use crate::wallet::send::{records_batch, InfoAssetTransfer, InfoBatchTransfer};
use crate::wallet::sending::{first_status, signed_send_started, FinishedSend, SignedSend};
use crate::wallet::transfers::as_failed;
use crate::wallet::types::{Outpoint, Transfer, TransferStatus};

verus! {

/// How many confirmations settle a transfer.
pub const MIN_CONFIRMATIONS: u8 = 1;

/// Gives the transfers of an asset transfer whose recipients have not answered
/// yet, in their order.
pub fn unanswered(transfers: &Vec<DbTransfer>, asset_transfer: i64) -> (r: Vec<DbTransfer>)
    ensures
        r@ == transfers@.filter(
            |t: DbTransfer| t.asset_transfer_idx == asset_transfer && t.ack is None,
        ),
{
    let ghost p = |t: DbTransfer| t.asset_transfer_idx == asset_transfer && t.ack is None;
    let mut kept: Vec<DbTransfer> = Vec::new();
    let mut i: usize = 0;
    proof {
        lemma_filter_ends(transfers@, p);
    }
    while i < transfers.len()
        invariant
            i <= transfers.len(),
            p == (|t: DbTransfer| t.asset_transfer_idx == asset_transfer && t.ack is None),
            kept@ == transfers@.take(i as int).filter(p),
        decreases transfers.len() - i,
    {
        proof {
            lemma_filter_step(transfers@, p, i as int);
        }
        if transfers[i].asset_transfer_idx == asset_transfer && transfers[i].ack.is_none() {
            kept.push(transfers[i].clone());
        }
        i += 1;
    }
    proof {
        lemma_filter_ends(transfers@, p);
    }
    kept
}

/// What a recipient answered: whether it accepted or, failing that, refused.
pub open spec fn answer(ack: Option<bool>, nack: Option<bool>) -> Option<bool> {
    if ack == Some(true) {
        Some(true)
    } else if nack == Some(true) {
        Some(false)
    } else {
        None
    }
}

/// Gives the updated row of a transfer whose recipient answered, if it did.
pub fn record_answer(transfer: &DbTransfer, ack: Option<bool>, nack: Option<bool>) -> (r: Option<
    DbTransfer,
>)
    ensures
        match answer(ack, nack) {
            None => r is None,
            Some(accepted) => r == Some((DbTransfer { ack: Some(accepted), ..*transfer })),
        },
{
    let accepted: bool = match ack {
        Some(true) => true,
        _ => match nack {
            Some(true) => false,
            _ => {
                return None;
            },
        },
    };
    let mut row: DbTransfer = transfer.clone();
    row.ack = Some(accepted);
    Some(row)
}

/// What follows from the answers of the recipients of a batch transfer.
#[derive(Debug, PartialEq, Eq)]
pub enum AckOutcome {
    /// One recipient refused: the updated row
    Refused(DbBatchTransfer),
    /// All recipients accepted: the file with the signed PSBT, which has to be
    /// broadcast, and the updated row
    Accepted(String, DbBatchTransfer),
    /// Some have not answered yet
    Waiting,
}

/// Whether a recipient of transfers refused.
pub open spec fn any_refused(transfers: Seq<DbTransfer>) -> bool {
    exists|i: int| 0 <= i < transfers.len() && (#[trigger] transfers[i]).ack == Some(false)
}

/// Whether all recipients of transfers accepted.
pub open spec fn all_accepted(transfers: Seq<DbTransfer>) -> bool {
    forall|i: int| 0 <= i < transfers.len() ==> (#[trigger] transfers[i]).ack == Some(true)
}

fn has_refused(transfers: &Vec<DbTransfer>) -> (r: bool)
    ensures
        r == any_refused(transfers@),
{
    let mut i: usize = 0;
    while i < transfers.len()
        invariant
            i <= transfers.len(),
            forall|k: int| 0 <= k < i ==> (#[trigger] transfers@[k]).ack != Some(false),
        decreases transfers.len() - i,
    {
        match transfers[i].ack {
            Some(false) => {
                return true;
            },
            _ => {},
        }
        i += 1;
    }
    false
}

fn have_all_accepted(transfers: &Vec<DbTransfer>) -> (r: bool)
    ensures
        r == all_accepted(transfers@),
{
    let mut i: usize = 0;
    while i < transfers.len()
        invariant
            i <= transfers.len(),
            forall|k: int| 0 <= k < i ==> (#[trigger] transfers@[k]).ack == Some(true),
        decreases transfers.len() - i,
    {
        match transfers[i].ack {
            Some(true) => {},
            _ => {
                assert(transfers@[i as int].ack != Some(true));
                return false;
            },
        }
        i += 1;
    }
    true
}

/// What follows from the answers of the recipients of a batch transfer.
pub open spec fn acks_decided(
    r: AckOutcome,
    wallet_dir: Seq<char>,
    batch: DbBatchTransfer,
    transfers: Seq<DbTransfer>,
) -> bool {
    if any_refused(transfers) {
        r == AckOutcome::Refused(
            (DbBatchTransfer { status: TransferStatus::Failed, ..batch }),
        )
    } else if all_accepted(transfers) {
        r matches AckOutcome::Accepted(path, row) && {
            &&& path@ == path_of(
                transfer_dir_of(wallet_dir, batch.txid->0@),
                "signed.psbt"@,
            )
            &&& row == (DbBatchTransfer { status: TransferStatus::WaitingConfirmations, ..batch })
        }
    } else {
        r is Waiting
    }
}

/// Decides what follows from the answers of the recipients of a batch transfer.
pub fn decide_acks(wallet_dir: &str, records: &Records, batch: &DbBatchTransfer) -> (r: AckOutcome)
    requires
        ({
            let transfers = transfers_of(
                records.transfers@,
                records.asset_transfers@,
                batch.idx,
            );
            !any_refused(transfers) && all_accepted(transfers) ==> batch.txid is Some
        }),
    ensures
        acks_decided(
            r,
            wallet_dir@,
            *batch,
            transfers_of(records.transfers@, records.asset_transfers@, batch.idx),
        ),
{
    let transfers: Vec<DbTransfer> = batch_transfers_of(
        &records.transfers,
        &records.asset_transfers,
        batch.idx,
    );
    if has_refused(&transfers) {
        let mut row: DbBatchTransfer = batch.clone();
        row.status = TransferStatus::Failed;
        AckOutcome::Refused(row)
    } else if have_all_accepted(&transfers) {
        let txid: &String = batch.txid.as_ref().unwrap();
        let dir: String = transfer_dir(wallet_dir, txid.as_str());
        let path: String = signed_psbt_file(dir.as_str());
        let mut row: DbBatchTransfer = batch.clone();
        row.status = TransferStatus::WaitingConfirmations;
        AckOutcome::Accepted(path, row)
    } else {
        AckOutcome::Waiting
    }
}

/// A transaction that waits for its recipients is broadcast only once all of them
/// have accepted, and one refusal fails the transfer.
pub proof fn broadcast_only_when_all_accepted(
    r: AckOutcome,
    wallet_dir: Seq<char>,
    batch: DbBatchTransfer,
    transfers: Seq<DbTransfer>,
    i: int,
)
    requires
        acks_decided(r, wallet_dir, batch, transfers),
        0 <= i < transfers.len(),
    ensures
        r is Accepted ==> transfers[i].ack == Some(true),
        transfers[i].ack == Some(false) ==> (r matches AckOutcome::Refused(row)
            && row.status is Failed),
        transfers[i].ack is None ==> !(r is Accepted),
{
}

/// How far a transaction is.
#[derive(Debug, Clone, Copy, PartialEq, Eq, Structural)]
pub enum Confirmation {
    /// It is confirmed
    Confirmed,
    /// It is not confirmed yet, or not known yet
    Pending,
    /// The server could not tell
    Failed,
}

/// How far a transaction is, given the confirmations that the server tells or the
/// error that it answers with.
pub open spec fn confirmation(reply: Result<Option<u64>, String>) -> Confirmation {
    match reply {
        Err(details) => if occurs_in("No such mempool or blockchain transaction"@, details@) {
            Confirmation::Pending
        } else {
            Confirmation::Failed
        },
        Ok(Some(n)) => if n < MIN_CONFIRMATIONS {
            Confirmation::Pending
        } else {
            Confirmation::Confirmed
        },
        Ok(None) => Confirmation::Pending,
    }
}

/// Tells how far a transaction is.
pub fn get_confirmation(reply: &Result<Option<u64>, String>) -> (r: Confirmation)
    ensures
        r == confirmation(*reply),
{
    match reply {
        Err(details) => if contains_text(
            details.as_str(),
            "No such mempool or blockchain transaction",
        ) {
            Confirmation::Pending
        } else {
            Confirmation::Failed
        },
        Ok(confirmations) => match confirmations {
            Some(n) => if *n < MIN_CONFIRMATIONS as u64 {
                Confirmation::Pending
            } else {
                Confirmation::Confirmed
            },
            None => Confirmation::Pending,
        },
    }
}

/// Whether an output of a transaction holds bitcoins.
pub open spec fn holds_bitcoins(psbt: PsbtContents, vout: int) -> bool {
    psbt.output_values@[vout] != 0
}

/// The indices of the first outputs of a transaction that hold bitcoins.
pub open spec fn funded_outputs(psbt: PsbtContents, n: int) -> Seq<int> {
    Seq::new(n as nat, |i: int| i).filter(|i: int| holds_bitcoins(psbt, i))
}

/// Whether the outputs of a transaction that hold bitcoins are all stored.
pub open spec fn funded_outputs_stored(psbt: PsbtContents, txos: Seq<DbTxo>) -> bool {
    forall|i: int|
        0 <= i < psbt.output_values@.len() && #[trigger] holds_bitcoins(psbt, i) ==> stored_txo(
            txos,
            (psbt.txid@, i as u32),
        ) is Some
}

/// Gives the updated rows of the outputs of a confirmed transaction: those that
/// hold bitcoins can have allocations from now on.
pub fn color_outputs(psbt: &PsbtContents, txos: &Vec<DbTxo>) -> (r: Vec<DbTxo>)
    requires
        psbt.output_values@.len() <= u32::MAX,
        funded_outputs_stored(*psbt, txos@),
    ensures
        ({
            let funded = funded_outputs(*psbt, psbt.output_values@.len() as int);
            &&& r@.len() == funded.len()
            &&& forall|i: int|
                0 <= i < r@.len() ==> #[trigger] r@[i] == as_colorable(
                    stored_txo(txos@, (psbt.txid@, funded[i] as u32))->0,
                )
        }),
{
    let ghost p = |i: int| holds_bitcoins(*psbt, i);
    let ghost all = Seq::new(psbt.output_values@.len(), |i: int| i);
    let mut rows: Vec<DbTxo> = Vec::new();
    let mut i: usize = 0;
    proof {
        lemma_filter_ends(all, p);
    }
    while i < psbt.output_values.len()
        invariant
            i <= psbt.output_values.len(),
            psbt.output_values@.len() <= u32::MAX,
            p == (|i: int| holds_bitcoins(*psbt, i)),
            all == Seq::new(psbt.output_values@.len(), |i: int| i),
            funded_outputs_stored(*psbt, txos@),
            rows@.len() == all.take(i as int).filter(p).len(),
            forall|k: int|
                0 <= k < rows@.len() ==> #[trigger] rows@[k] == as_colorable(
                    stored_txo(
                        txos@,
                        (psbt.txid@, all.take(i as int).filter(p)[k] as u32),
                    )->0,
                ),
        decreases psbt.output_values.len() - i,
    {
        proof {
            lemma_filter_step(all, p, i as int);
        }
        if psbt.output_values[i] != 0 {
            assert(holds_bitcoins(*psbt, i as int));
            let outpoint: Outpoint = Outpoint { txid: psbt.txid.clone(), vout: i as u32 };
            let found: Option<DbTxo> = get_txo(txos, &outpoint);
            let mut row: DbTxo = found.unwrap();
            row.colorable = true;
            rows.push(row);
        }
        i += 1;
    }
    proof {
        lemma_filter_ends(all, p);
    }
    rows
}

/// What settling a confirmed transfer takes.
#[derive(Debug, PartialEq, Eq)]
pub struct SettlePlan {
    /// The directory of the transfer
    pub transfer_dir: String,
    /// The files with the consignments that the RGB node has to consume
    pub consignment_paths: Vec<String>,
    /// Whether the RGB node has to process the disclosure of other assets that
    /// moved
    pub disclosure: bool,
}

/// The asset transfers that the user asked for, in their order.
pub open spec fn user_driven(asset_transfers: Seq<DbAssetTransfer>) -> Seq<DbAssetTransfer> {
    asset_transfers.filter(|t: DbAssetTransfer| t.user_driven)
}

fn consignment_paths(dir: &str, asset_transfers: &Vec<DbAssetTransfer>) -> (r: Vec<String>)
    requires
        forall|i: int|
            0 <= i < asset_transfers@.len() && (#[trigger] asset_transfers@[i]).user_driven
                ==> asset_transfers@[i].asset_id is Some,
    ensures
        r@.len() == user_driven(asset_transfers@).len(),
        forall|i: int|
            0 <= i < r@.len() ==> (#[trigger] r@[i])@ == consignment_path_of(
                dir@,
                user_driven(asset_transfers@)[i].asset_id->0@,
            ),
{
    let ghost p = |t: DbAssetTransfer| t.user_driven;
    let mut paths: Vec<String> = Vec::new();
    let mut i: usize = 0;
    proof {
        lemma_filter_ends(asset_transfers@, p);
    }
    while i < asset_transfers.len()
        invariant
            i <= asset_transfers.len(),
            p == (|t: DbAssetTransfer| t.user_driven),
            forall|k: int|
                0 <= k < asset_transfers@.len() && (#[trigger] asset_transfers@[k]).user_driven
                    ==> asset_transfers@[k].asset_id is Some,
            paths@.len() == asset_transfers@.take(i as int).filter(p).len(),
            forall|k: int|
                0 <= k < paths@.len() ==> (#[trigger] paths@[k])@ == consignment_path_of(
                    dir@,
                    asset_transfers@.take(i as int).filter(p)[k].asset_id->0@,
                ),
        decreases asset_transfers.len() - i,
    {
        proof {
            lemma_filter_step(asset_transfers@, p, i as int);
        }
        if asset_transfers[i].user_driven {
            assert(asset_transfers@[i as int].asset_id is Some);
            let asset_id: &String = asset_transfers[i].asset_id.as_ref().unwrap();
            paths.push(consignment_path(dir, asset_id.as_str()));
        }
        i += 1;
    }
    proof {
        lemma_filter_ends(asset_transfers@, p);
    }
    paths
}

fn moves_others(asset_transfers: &Vec<DbAssetTransfer>) -> (r: bool)
    ensures
        r == exists|i: int|
            0 <= i < asset_transfers@.len() && !(#[trigger] asset_transfers@[i]).user_driven,
{
    let mut i: usize = 0;
    while i < asset_transfers.len()
        invariant
            i <= asset_transfers.len(),
            forall|k: int| 0 <= k < i ==> (#[trigger] asset_transfers@[k]).user_driven,
        decreases asset_transfers.len() - i,
    {
        if !asset_transfers[i].user_driven {
            return true;
        }
        i += 1;
    }
    false
}

/// Whether a plan is what settling a confirmed transfer takes.
pub open spec fn settling_planned(
    plan: SettlePlan,
    wallet_dir: Seq<char>,
    batch: DbBatchTransfer,
    asset_transfers: Seq<DbAssetTransfer>,
    incoming: Option<DbTransfer>,
) -> bool {
    &&& match incoming {
        Some(transfer) => {
            &&& plan.transfer_dir@ == transfer_dir_of(wallet_dir, transfer.blinded_utxo->0@)
            &&& plan.consignment_paths@.len() == 1
            &&& plan.consignment_paths@[0]@ == path_of(plan.transfer_dir@, "rcv_compose.rgbc"@)
        },
        None => {
            &&& plan.transfer_dir@ == transfer_dir_of(wallet_dir, batch.txid->0@)
            &&& plan.consignment_paths@.len() == user_driven(asset_transfers).len()
            &&& forall|i: int|
                0 <= i < plan.consignment_paths@.len() ==> (
                #[trigger] plan.consignment_paths@[i])@ == consignment_path_of(
                    plan.transfer_dir@,
                    user_driven(asset_transfers)[i].asset_id->0@,
                )
        },
    }
    &&& plan.disclosure == exists|i: int|
        0 <= i < asset_transfers.len() && !(#[trigger] asset_transfers[i]).user_driven
}

/// Tells what settling a confirmed transfer takes. An incoming transfer has one
/// consignment, an outgoing one has one for each asset that the user sends.
pub fn plan_settling(
    wallet_dir: &str,
    batch: &DbBatchTransfer,
    asset_transfers: &Vec<DbAssetTransfer>,
    incoming: &Option<DbTransfer>,
) -> (r: SettlePlan)
    requires
        match *incoming {
            Some(transfer) => transfer.blinded_utxo is Some,
            None => {
                &&& batch.txid is Some
                &&& forall|i: int|
                    0 <= i < asset_transfers@.len() && (#[trigger] asset_transfers@[i]).user_driven
                        ==> asset_transfers@[i].asset_id is Some
            },
        },
    ensures
        settling_planned(r, wallet_dir@, *batch, asset_transfers@, *incoming),
{
    let disclosure: bool = moves_others(asset_transfers);
    match incoming {
        Some(transfer) => {
            let blinded_utxo: &String = transfer.blinded_utxo.as_ref().unwrap();
            let dir: String = transfer_dir(wallet_dir, blinded_utxo.as_str());
            let mut paths: Vec<String> = Vec::new();
            paths.push(consignment_rcv_file(dir.as_str()));
            SettlePlan { transfer_dir: dir, consignment_paths: paths, disclosure }
        },
        None => {
            let txid: &String = batch.txid.as_ref().unwrap();
            let dir: String = transfer_dir(wallet_dir, txid.as_str());
            let paths: Vec<String> = consignment_paths(dir.as_str(), asset_transfers);
            SettlePlan { transfer_dir: dir, consignment_paths: paths, disclosure }
        },
    }
}

/// When an incoming transfer settles, the consignment that was received for it is
/// consumed.
pub proof fn received_consignments_are_consumed(
    received: ReceivedConsignment,
    text: Seq<char>,
    plan: SettlePlan,
    wallet_dir: Seq<char>,
    batch: DbBatchTransfer,
    asset_transfers: Seq<DbAssetTransfer>,
    transfer: DbTransfer,
)
    requires
        transfer.blinded_utxo is Some,
        consignment_received(received, wallet_dir, transfer.blinded_utxo->0@, text),
        settling_planned(plan, wallet_dir, batch, asset_transfers, Some(transfer)),
    ensures
        plan.consignment_paths@.len() == 1,
        plan.consignment_paths@[0]@ == received.consignment_path@,
{
}

/// When all recipients have accepted, the PSBT that is broadcast is the one that the
/// send operation saved.
pub proof fn saved_psbts_are_broadcast(
    started: SignedSend,
    signed_psbt: Seq<char>,
    finished: FinishedSend,
    transfer_info_map: Seq<(String, InfoAssetTransfer)>,
    info: InfoBatchTransfer,
    now: i64,
    outcome: AckOutcome,
    wallet_dir: Seq<char>,
    batch: DbBatchTransfer,
    transfers: Seq<DbTransfer>,
)
    requires
        signed_send_started(Ok(started), true, wallet_dir, signed_psbt),
        records_batch(
            finished.batch_transfer,
            started.psbt.txid@,
            transfer_info_map,
            info.blank_allocations@,
            info.change_utxo_idx,
            first_status(info.donation),
            now,
        ),
        batch.txid == finished.batch_transfer.txid,
        acks_decided(outcome, wallet_dir, batch, transfers),
    ensures
        outcome matches AckOutcome::Accepted(path, _) ==> path@ == started.psbt_file@,
{
}

/// What the RGB node has to know to find the output of an incoming transfer.
#[derive(Debug, PartialEq, Eq)]
pub struct Reveal {
    /// The secret that was drawn when the output was blinded
    pub blinding_factor: u64,
    /// The output
    pub outpoint: Outpoint,
}

/// Gives what the RGB node has to know to find the output of an incoming transfer.
pub fn reveal_output(transfer: &Transfer) -> (r: Reveal)
    requires
        transfer.blinding_secret is Some,
        transfer.unblinded_utxo is Some,
    ensures
        Some(r.blinding_factor) == transfer.blinding_secret,
        Some(r.outpoint) == transfer.unblinded_utxo,
{
    let outpoint: &Outpoint = transfer.unblinded_utxo.as_ref().unwrap();
    Reveal {
        blinding_factor: transfer.blinding_secret.unwrap(),
        outpoint: outpoint.clone(),
    }
}

/// Fails unless the RGB node found a consignment valid when it consumed it.
pub fn check_consumed(valid: bool) -> (r: Result<(), WalletError>)
    ensures
        r is Ok <==> valid,
        r is Err ==> (r matches Err(WalletError::Internal(InternalError::Unexpected))),
{
    if valid {
        Ok(())
    } else {
        Err(WalletError::Internal(InternalError::Unexpected))
    }
}

/// A batch transfer once it is settled.
pub open spec fn as_settled(batch: DbBatchTransfer) -> DbBatchTransfer {
    DbBatchTransfer { status: TransferStatus::Settled, ..batch }
}

/// Gives the row of a batch transfer once it is settled.
pub fn settle_transfer(batch: &DbBatchTransfer) -> (r: DbBatchTransfer)
    ensures
        r == as_settled(*batch),
{
    let mut row: DbBatchTransfer = batch.clone();
    row.status = TransferStatus::Settled;
    row
}

/// Whether a status may follow another. A transfer waits for its counterparty,
/// then for its confirmations, and is then settled. It may fail as long as it
/// waits for its counterparty. What is settled or failed stays so.
pub open spec fn may_follow(before: TransferStatus, after: TransferStatus) -> bool {
    match before {
        TransferStatus::WaitingCounterparty => after is WaitingConfirmations || after is Failed,
        TransferStatus::WaitingConfirmations => after is Settled,
        TransferStatus::Settled => false,
        TransferStatus::Failed => false,
    }
}

/// Every update of a transfer moves its status forward: a received consignment, the
/// answers of recipients and a user who gives up, while it waits for its
/// counterparty, and the confirmations of its transaction.
pub proof fn statuses_move_forward(
    batch: DbBatchTransfer,
    rows: AcceptedConsignment,
    asset_transfer: DbAssetTransfer,
    transfer: DbTransfer,
    coloring: DbColoring,
    receipt: Receipt,
    outcome: AckOutcome,
    wallet_dir: Seq<char>,
    transfers: Seq<DbTransfer>,
    now: i64,
)
    requires
        records_receipt(rows, batch, asset_transfer, transfer, coloring, receipt),
        acks_decided(outcome, wallet_dir, batch, transfers),
    ensures
        batch.status is WaitingCounterparty ==> {
            &&& may_follow(batch.status, rows.batch_transfer.status)
            &&& outcome matches AckOutcome::Refused(row) ==> may_follow(batch.status, row.status)
            &&& outcome matches AckOutcome::Accepted(_, row) ==> may_follow(
                batch.status,
                row.status,
            )
            &&& may_follow(batch.status, as_failed(batch, now).status)
        },
        batch.status is WaitingConfirmations ==> may_follow(
            batch.status,
            as_settled(batch).status,
        ),
{
}

} // verus!
