//! Settling transfers.

use vstd::prelude::*;

use crate::chain::PsbtContents;
use crate::database::records::{in_batch, transfers_of, Records};
use crate::database::{DbAssetTransfer, DbBatchTransfer, DbTransfer, DbTxo};
use crate::error::{InternalError, WalletError};
use crate::laws::sending::{consignment_at, transfer_at};
use crate::laws::text::{below, lemma_below, stands_at};
use crate::laws::{belongs, is_list_of};
use crate::seqs::{lemma_filter_members, lemma_filter_picks};
use crate::text::{occurs_at, occurs_in};
use crate::wallet::outputs::{lemma_stored_txo, stored_txo};
use crate::wallet::paths::consignment_path_of;
use crate::wallet::settle::{
    all_accepted, any_refused, check_consumed, color_outputs, decide_acks, funded_outputs,
    funded_outputs_stored, get_confirmation, holds_bitcoins, plan_settling, record_answer,
    reveal_output, settle_transfer, unanswered, user_driven, AckOutcome, Confirmation, Reveal,
    SettlePlan,
};
use crate::wallet::types::{Transfer, TransferStatus};

verus! {

/// Any number of confirmations but zero settles a transfer. As long as there is none, or
/// the server tells no number, the transfer waits.
pub proof fn one_confirmation_is_enough(reply: Result<Option<u64>, String>, r: Confirmation)
    requires
        call_ensures(get_confirmation, (&reply,), r),
    ensures
        reply matches Ok(Some(n)) ==> (r is Confirmed <==> n >= 1) && (r is Pending <==> n == 0),
        reply matches Ok(None) ==> r is Pending,
        reply is Err ==> !(r is Confirmed),
{
}

/// What is confirmed stays so: more confirmations do not undo it.
pub proof fn confirmations_only_grow(
    fewer: Result<Option<u64>, String>,
    more: Result<Option<u64>, String>,
    before: Confirmation,
    after: Confirmation,
)
    requires
        call_ensures(get_confirmation, (&fewer,), before),
        call_ensures(get_confirmation, (&more,), after),
        fewer matches Ok(Some(n)) && (more matches Ok(Some(m)) && n <= m),
        before is Confirmed,
    ensures
        after is Confirmed,
{
}

/// A transaction that the server does not know yet may still come. Any other error of the
/// server is one of the operation.
pub proof fn unknown_transactions_may_still_come(
    details: String,
    before: Seq<char>,
    after: Seq<char>,
    r: Confirmation,
)
    requires
        call_ensures(get_confirmation, (&Err::<Option<u64>, String>(details),), r),
    ensures
        details@ == before + "No such mempool or blockchain transaction"@ + after ==> r is Pending,
        r is Pending ==> exists|i: int|
            stands_at("No such mempool or blockchain transaction"@, details@, i),
        r is Pending || r is Failed,
{
    let needle = "No such mempool or blockchain transaction"@;
    if details@ == before + needle + after {
        let i = before.len() as int;
        assert(details@.subrange(i, i + needle.len()) =~= needle);
        assert(occurs_at(needle, details@, i));
    }
    if r is Pending {
        assert(occurs_in(needle, details@));
        let i = choose|i: int| #[trigger] occurs_at(needle, details@, i);
        assert forall|k: int| 0 <= k < needle.len() implies #[trigger] needle[k] == details@[i
            + k] by {
            assert(details@.subrange(i, i + needle.len())[k] == details@[i + k]);
        }
        assert(stands_at(needle, details@, i));
    }
}

/// The recipients of an asset transfer who are asked are those who have not answered yet,
/// in their order.
pub proof fn those_who_did_not_answer_are_asked(
    transfers: Vec<DbTransfer>,
    asset_transfer: i64,
    r: Vec<DbTransfer>,
) -> (at: Seq<int>)
    requires
        call_ensures(unanswered, (&transfers, asset_transfer), r),
    ensures
        is_list_of(r@, transfers@, at),
        forall|i: int|
            0 <= i < transfers@.len() ==> (at.contains(i) <==> (
            #[trigger] transfers@[i]).asset_transfer_idx == asset_transfer
                && transfers@[i].ack is None),
{
    let p = |t: DbTransfer| t.asset_transfer_idx == asset_transfer && t.ack is None;
    let at = lemma_filter_picks(transfers@, p);
    assert(r@ == transfers@.filter(p));
    assert forall|i: int| 0 <= i < transfers@.len() implies (at.contains(i) <==> (
    #[trigger] transfers@[i]).asset_transfer_idx == asset_transfer
        && transfers@[i].ack is None) by {
        if at.contains(i) {
            let k = choose|k: int| 0 <= k < at.len() && at[k] == i;
            assert(p(transfers@[at[k]]));
        }
        if transfers@[i].asset_transfer_idx == asset_transfer && transfers@[i].ack is None {
            assert(p(transfers@[i]));
        }
    }
    at
}

/// An acceptance counts, whatever else the server tells. Without one, a refusal counts.
/// Only the answer of the transfer changes, and only once there is one.
pub proof fn answers_are_taken_down(
    transfer: DbTransfer,
    ack: Option<bool>,
    nack: Option<bool>,
    r: Option<DbTransfer>,
)
    requires
        call_ensures(record_answer, (&transfer, ack, nack), r),
    ensures
        ack == Some(true) ==> (r matches Some(row) && row.ack == Some(true)),
        ack != Some(true) && nack == Some(true) ==> (r matches Some(row) && row.ack == Some(
            false,
        )),
        ack != Some(true) && nack != Some(true) ==> r is None,
        r matches Some(row) ==> {
            &&& row.idx == transfer.idx
            &&& row.asset_transfer_idx == transfer.asset_transfer_idx
            &&& row.amount == transfer.amount
            &&& row.blinded_utxo == transfer.blinded_utxo
            &&& row.blinding_secret == transfer.blinding_secret
        },
{
}

/// Whether a row of a batch transfer differs from another one in the status alone.
pub open spec fn has_new_status(
    row: DbBatchTransfer,
    batch: DbBatchTransfer,
    status: TransferStatus,
) -> bool {
    &&& row.idx == batch.idx
    &&& row.txid == batch.txid
    &&& row.expiration == batch.expiration
    &&& row.status == status
}

/// Whether some recipient of a batch transfer gave an answer.
pub open spec fn has_answer(records: Records, batch: i64, answer: Option<bool>) -> bool {
    exists|i: int|
        0 <= i < records.transfers@.len() && belongs(
            records,
            (#[trigger] records.transfers@[i]).asset_transfer_idx,
            batch,
        ) && records.transfers@[i].ack == answer
}

/// One refusal fails a batch transfer. It is broadcast exactly where all its recipients
/// accepted, and waits as long as one of them has not answered and none refused.
pub proof fn one_refusal_fails_a_transfer(
    wallet_dir: &str,
    records: Records,
    batch: DbBatchTransfer,
    r: AckOutcome,
)
    requires
        call_ensures(decide_acks, (wallet_dir, &records, &batch), r),
    ensures
        r is Refused <==> has_answer(records, batch.idx, Some(false)),
        r is Waiting <==> has_answer(records, batch.idx, None) && !has_answer(
            records,
            batch.idx,
            Some(false),
        ),
        r is Accepted <==> !has_answer(records, batch.idx, None) && !has_answer(
            records,
            batch.idx,
            Some(false),
        ),
        r matches AckOutcome::Refused(row) ==> has_new_status(
            row,
            batch,
            TransferStatus::Failed,
        ),
        r matches AckOutcome::Accepted(path, row) ==> {
            &&& has_new_status(row, batch, TransferStatus::WaitingConfirmations)
            &&& batch.txid matches Some(txid) ==> path@ == below(
                transfer_at(wallet_dir@, txid@),
                "signed.psbt"@,
            )
        },
{
    let own = batch.idx;
    let asset_transfers = records.asset_transfers@;
    let p = |t: DbTransfer| in_batch(asset_transfers, t.asset_transfer_idx, own);
    let transfers = transfers_of(records.transfers@, asset_transfers, own);
    assert(transfers == records.transfers@.filter(p));
    lemma_filter_members(records.transfers@, p);
    assert forall|answer: Option<bool>| #[trigger] has_answer(records, own, answer) <==> exists|
        i: int,
    |
        0 <= i < transfers.len() && (#[trigger] transfers[i]).ack == answer by {
        if has_answer(records, own, answer) {
            let i = choose|i: int|
                0 <= i < records.transfers@.len() && belongs(
                    records,
                    (#[trigger] records.transfers@[i]).asset_transfer_idx,
                    own,
                ) && records.transfers@[i].ack == answer;
            assert(p(records.transfers@[i]));
            assert(transfers.contains(records.transfers@[i]));
        }
        if exists|i: int| 0 <= i < transfers.len() && (#[trigger] transfers[i]).ack == answer {
            let i = choose|i: int|
                0 <= i < transfers.len() && (#[trigger] transfers[i]).ack == answer;
            assert(records.transfers@.contains(transfers[i]) && p(transfers[i]));
            let k = choose|k: int|
                0 <= k < records.transfers@.len() && records.transfers@[k] == transfers[i];
            assert(belongs(records, records.transfers@[k].asset_transfer_idx, own));
        }
    }
    assert(any_refused(transfers) <==> has_answer(records, own, Some(false)));
    assert(!all_accepted(transfers) <==> has_answer(records, own, None) || has_answer(
        records,
        own,
        Some(false),
    )) by {
        if !all_accepted(transfers) {
            let i = choose|i: int|
                0 <= i < transfers.len() && (#[trigger] transfers[i]).ack != Some(true);
            assert(transfers[i].ack is None || transfers[i].ack == Some(false));
        }
    }
    if r is Accepted && batch.txid is Some {
        let txid = batch.txid->0@;
        lemma_below(wallet_dir@, "transfers"@);
        lemma_below(below(wallet_dir@, "transfers"@), txid);
        lemma_below(transfer_at(wallet_dir@, txid), "signed.psbt"@);
    }
}

/// Whether a row of an output differs from another one only in that it can have
/// allocations.
pub open spec fn is_colored(row: DbTxo, txo: DbTxo) -> bool {
    &&& row.idx == txo.idx
    &&& row.txid == txo.txid
    &&& row.vout == txo.vout
    &&& row.btc_amount == txo.btc_amount
    &&& row.spent == txo.spent
    &&& row.colorable
}

/// Whether an output of a transaction is among updated rows.
pub open spec fn is_colored_among(rows: Seq<DbTxo>, txid: Seq<char>, vout: int) -> bool {
    exists|k: int|
        0 <= k < rows.len() && (#[trigger] rows[k]).txid@ == txid && rows[k].vout == vout
}

/// Whether a row is that of a stored output of a transaction that holds bitcoins.
pub open spec fn is_colored_output(row: DbTxo, psbt: PsbtContents, txos: Seq<DbTxo>) -> bool {
    &&& row.txid@ == psbt.txid@
    &&& row.vout < psbt.output_values@.len()
    &&& psbt.output_values@[row.vout as int] > 0
    &&& exists|t: int| 0 <= t < txos.len() && is_colored(row, #[trigger] txos[t])
}

/// All outputs of a confirmed transaction that hold bitcoins can have allocations, and no
/// other row changes.
pub proof fn confirmed_outputs_can_have_allocations(
    psbt: PsbtContents,
    txos: Vec<DbTxo>,
    r: Vec<DbTxo>,
)
    requires
        psbt.output_values@.len() <= u32::MAX,
        funded_outputs_stored(psbt, txos@),
        call_ensures(color_outputs, (&psbt, &txos), r),
    ensures
        forall|v: int|
            0 <= v < psbt.output_values@.len() && #[trigger] psbt.output_values@[v] > 0
                ==> is_colored_among(r@, psbt.txid@, v),
        forall|k: int|
            0 <= k < r@.len() ==> is_colored_output(#[trigger] r@[k], psbt, txos@),
{
    let n = psbt.output_values@.len() as int;
    let all = Seq::new(n as nat, |i: int| i);
    let p = |i: int| holds_bitcoins(psbt, i);
    let funded = funded_outputs(psbt, n);
    assert(funded == all.filter(p));
    lemma_filter_members(all, p);
    assert forall|k: int| 0 <= k < r@.len() implies is_colored_output(
        #[trigger] r@[k],
        psbt,
        txos@,
    ) && r@[k].vout == funded[k] by {
        assert(p(funded[k]) && all.contains(funded[k]));
        let v = choose|v: int| 0 <= v < all.len() && all[v] == funded[k];
        assert(v == funded[k]);
        assert(holds_bitcoins(psbt, v));
        let o = (psbt.txid@, v as u32);
        lemma_stored_txo(txos@, o);
        assert(stored_txo(txos@, o) is Some);
        assert(txos@.contains(stored_txo(txos@, o)->0));
        let t = choose|t: int| 0 <= t < txos@.len() && txos@[t] == stored_txo(txos@, o)->0;
        assert(is_colored(r@[k], txos@[t]));
    }
    assert forall|v: int|
        0 <= v < n && #[trigger] psbt.output_values@[v] > 0 implies is_colored_among(
        r@,
        psbt.txid@,
        v,
    ) by {
        assert(p(v));
        assert(all[v] == v);
        assert(all.contains(v));
        assert(funded.contains(v));
        let k = choose|k: int| 0 <= k < funded.len() && funded[k] == v;
        assert(r@[k].vout == v);
        assert(is_colored_output(r@[k], psbt, txos@));
    }
}

/// An incoming transfer settles by the consignment that was received for its blinded UTXO.
/// An outgoing one settles by one consignment for each asset that the user sends, in their
/// order. The disclosure is needed exactly where other assets moved along.
pub proof fn settling_takes_the_consignments(
    wallet_dir: &str,
    batch: DbBatchTransfer,
    asset_transfers: Vec<DbAssetTransfer>,
    incoming: Option<DbTransfer>,
    r: SettlePlan,
) -> (at: Seq<int>)
    requires
        call_ensures(plan_settling, (wallet_dir, &batch, &asset_transfers, &incoming), r),
    ensures
        r.disclosure <==> exists|i: int|
            0 <= i < asset_transfers@.len() && !(#[trigger] asset_transfers@[i]).user_driven,
        incoming matches Some(transfer) ==> (transfer.blinded_utxo matches Some(utxo) ==> {
            &&& r.transfer_dir@ == transfer_at(wallet_dir@, utxo@)
            &&& r.consignment_paths@.len() == 1
            &&& r.consignment_paths@[0]@ == below(
                transfer_at(wallet_dir@, utxo@),
                "rcv_compose.rgbc"@,
            )
        }),
        incoming is None ==> {
            &&& batch.txid matches Some(txid) ==> r.transfer_dir@ == transfer_at(
                wallet_dir@,
                txid@,
            )
            &&& r.consignment_paths@.len() == at.len()
            &&& forall|k: int|
                0 <= k < at.len() ==> {
                    &&& 0 <= #[trigger] at[k] < asset_transfers@.len()
                    &&& asset_transfers@[at[k]].user_driven
                    &&& asset_transfers@[at[k]].asset_id matches Some(id)
                        ==> r.consignment_paths@[k]@ == consignment_at(r.transfer_dir@, id@)
                }
            &&& forall|k: int, l: int|
                0 <= k < l < at.len() ==> #[trigger] at[k] < #[trigger] at[l]
            &&& forall|i: int|
                0 <= i < asset_transfers@.len() && (#[trigger] asset_transfers@[i]).user_driven
                    ==> at.contains(i)
        },
{
    let p = |t: DbAssetTransfer| t.user_driven;
    let at = lemma_filter_picks(asset_transfers@, p);
    assert(user_driven(asset_transfers@) == asset_transfers@.filter(p));
    lemma_below(wallet_dir@, "transfers"@);
    let name = match incoming {
        Some(transfer) => transfer.blinded_utxo->0@,
        None => batch.txid->0@,
    };
    lemma_below(below(wallet_dir@, "transfers"@), name);
    lemma_below(transfer_at(wallet_dir@, name), "rcv_compose.rgbc"@);
    if incoming is None {
        assert forall|k: int| 0 <= k < at.len() implies {
            &&& 0 <= #[trigger] at[k] < asset_transfers@.len()
            &&& asset_transfers@[at[k]].user_driven
            &&& asset_transfers@[at[k]].asset_id matches Some(id)
                ==> r.consignment_paths@[k]@ == consignment_at(r.transfer_dir@, id@)
        } by {
            assert(p(asset_transfers@[at[k]]));
            let t = asset_transfers@[at[k]];
            assert(t == user_driven(asset_transfers@)[k]);
            let id = t.asset_id->0@;
            lemma_below(r.transfer_dir@, id);
            lemma_below(below(r.transfer_dir@, id), "consignment_out"@);
            assert(r.consignment_paths@[k]@ == consignment_path_of(
                r.transfer_dir@,
                id,
            ));
        }
        assert forall|i: int|
            0 <= i < asset_transfers@.len() && (
            #[trigger] asset_transfers@[i]).user_driven implies at.contains(i) by {
            assert(p(asset_transfers@[i]));
        }
    }
    at
}

/// The output of an incoming transfer is found by the secret and the outpoint that are
/// kept of it.
pub proof fn incoming_outputs_are_revealed(transfer: Transfer, r: Reveal)
    requires
        call_ensures(reveal_output, (&transfer,), r),
    ensures
        transfer.blinding_secret matches Some(secret) ==> r.blinding_factor == secret,
        transfer.unblinded_utxo matches Some(o) ==> r.outpoint.txid@ == o.txid@ && r.outpoint.vout
            == o.vout,
{
}

/// Only a consignment that is valid is consumed, and a transfer that settles changes in
/// nothing but its status.
pub proof fn valid_consignments_settle(
    valid: bool,
    consumed: Result<(), WalletError>,
    batch: DbBatchTransfer,
    r: DbBatchTransfer,
)
    requires
        call_ensures(check_consumed, (valid,), consumed),
        call_ensures(settle_transfer, (&batch,), r),
    ensures
        valid ==> consumed is Ok,
        !valid ==> (consumed matches Err(WalletError::Internal(InternalError::Unexpected))),
        has_new_status(r, batch, TransferStatus::Settled),
{
}

} // verus!
