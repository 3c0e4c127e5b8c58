//! Sending assets.

use vstd::prelude::*;

use crate::chain::{holds_output, outpoint_before, psbt_of_text, same_output, transaction_of_text};
use crate::database::plans::{NewAssetTransfer, NewBatchTransfer};
use crate::database::records::{
    asset_with, batch_has_status, in_batch_with_status, with_asset_id, Records,
};
use crate::database::{ColoringType, DbAsset, DbColoring, DbTxo, LocalUnspent};
use crate::error::{InternalError, WalletError};
use crate::laws::chain::{comes_first, has_same, is_id, is_same, lemma_first, lemma_same};
use crate::laws::text::{below, is_ahead, lemma_below, lemma_parts};
use crate::laws::transfers::is_connected;
use crate::laws::{is_part, is_part_of_failed};
use crate::seqs::{
    lemma_filter_ends, lemma_filter_members, lemma_filter_picks, lemma_filter_step,
    lemma_first_index, sum,
};
use crate::text::{decimal, text_before};
use crate::wallet::compose::get_psbt_text;
use crate::wallet::paths::{
    consignment_file, consignment_path, consignment_rcv_file, signed_psbt_file, transfer_data_file,
    transfer_dir, transfer_dir_of,
};
use crate::wallet::send::{
    all_settled, amount_on, asset_amount, asset_amounts, enough_assets_are_found,
    inputs_are_payment_and_change, is_coloring, lemma_inputs_used_bound, no_input_is_superfluous,
    payers, recipient_amounts, records_blank, records_transfer, save_transfers, select_rgb_inputs,
    settled, spendable_asset_txos, spends, AssetSpend, InfoAssetTransfer, InfoBatchTransfer,
};
use crate::wallet::sending::{
    amount_asked, asset_postings, assets_differ, can_send, choose_inputs, countable, finish_send,
    get_all_inputs, get_postings, has_asset, inputs_of, insert_transfer, is_live_input, is_sent,
    joined_utxos, live_input, live_inputs, ordered_utxos, posting_views, prepared_send,
    requested_amount, sends, tells_unsendable, utxos_by_asset, FinishedSend, PreparedSend,
    SendStart, SignedSend,
};
use crate::wallet::types::{opt_text, Online, Outpoint, Recipient, RgbAllocation, TransferStatus};
use crate::wallet::Wallet;

verus! {

/// Whether a coloring marks an input of a transfer that is open or settled: one that
/// waits for its counterparty, waits for its confirmations or is settled, and no failed
/// one.
pub open spec fn is_spent_by_transfer(records: Records, c: DbColoring) -> bool {
    &&& c.coloring_type is Input
    &&& exists|j: int| #[trigger]
        is_part(records, c.asset_transfer_idx, j) && (
        records.batch_transfers@[j].status is WaitingCounterparty
            || records.batch_transfers@[j].status is WaitingConfirmations
            || records.batch_transfers@[j].status is Settled)
    &&& !is_part_of_failed(records, c.asset_transfer_idx)
}

/// Whether an output is an input of a transfer that is part of no failed one.
pub open spec fn is_spent(records: Records, txo_idx: i64) -> bool {
    exists|c: int|
        {
            &&& 0 <= c < records.colorings@.len()
            &&& (#[trigger] records.colorings@[c]).txo_idx == txo_idx
            &&& records.colorings@[c].coloring_type is Input
            &&& !is_part_of_failed(records, records.colorings@[c].asset_transfer_idx)
        }
}

/// An asset transfer is part of a failed one exactly where the library takes it for such.
pub proof fn lemma_part_of_failed(records: Records, id: i64)
    ensures
        in_batch_with_status(
            records.asset_transfers@,
            records.batch_transfers@,
            id,
            TransferStatus::Failed,
        ) <==> is_part_of_failed(records, id),
{
    let failed = in_batch_with_status(
        records.asset_transfers@,
        records.batch_transfers@,
        id,
        TransferStatus::Failed,
    );
    if is_part_of_failed(records, id) {
        let j = choose|j: int| #[trigger]
            is_part(records, id, j) && records.batch_transfers@[j].status is Failed;
        let i = choose|i: int|
            0 <= i < records.asset_transfers@.len() && (#[trigger] records.asset_transfers@[i]).idx
                == id && records.asset_transfers@[i].batch_transfer_idx
                == records.batch_transfers@[j].idx;
        assert(records.batch_transfers@[j].status == TransferStatus::Failed);
        assert(batch_has_status(
            records.batch_transfers@,
            records.asset_transfers@[i].batch_transfer_idx,
            TransferStatus::Failed,
        ));
        assert(failed);
    }
    if failed {
        let i = choose|i: int|
            0 <= i < records.asset_transfers@.len() && (#[trigger] records.asset_transfers@[i]).idx
                == id && batch_has_status(
                records.batch_transfers@,
                records.asset_transfers@[i].batch_transfer_idx,
                TransferStatus::Failed,
            );
        let own = records.asset_transfers@[i].batch_transfer_idx;
        let j = choose|j: int|
            0 <= j < records.batch_transfers@.len() && (#[trigger] records.batch_transfers@[j]).idx
                == own && records.batch_transfers@[j].status == TransferStatus::Failed;
        assert(is_part(records, id, j));
    }
}

proof fn lemma_live(records: Records, c: DbColoring)
    ensures
        is_live_input(records, c) <==> c.coloring_type is Input && !is_part_of_failed(
            records,
            c.asset_transfer_idx,
        ),
{
    lemma_part_of_failed(records, c.asset_transfer_idx);
}

/// A send operation starts by setting aside every output that another transfer, unless
/// that failed, already spends, and no other output. It needs the data of the connection.
pub proof fn outputs_of_other_transfers_are_set_aside(
    wallet: Wallet,
    online: Online,
    recipient_map: Vec<(String, Vec<Recipient>)>,
    donation: bool,
    records: Records,
    r: Result<SendStart, WalletError>,
)
    requires
        call_ensures(
            Wallet::send_begin,
            (&wallet, &online, &recipient_map, donation, &records),
            r,
        ),
    ensures
        r is Ok <==> is_connected(wallet, online),
        r matches Err(e) ==> e is InvalidOnline,
        r matches Ok(start) ==> {
            &&& start.donation == donation
            &&& forall|c: int|
                0 <= c < records.colorings@.len() && is_spent_by_transfer(
                    records,
                    #[trigger] records.colorings@[c],
                ) ==> start.unspendable_txo_ids@.contains(records.colorings@[c].txo_idx)
            &&& forall|c: int|
                0 <= c < records.colorings@.len() && (
                #[trigger] records.colorings@[c]).coloring_type is Input && !is_part_of_failed(
                    records,
                    records.colorings@[c].asset_transfer_idx,
                ) ==> start.unspendable_txo_ids@.contains(records.colorings@[c].txo_idx)
            &&& forall|k: int|
                0 <= k < start.unspendable_txo_ids@.len() ==> is_spent(
                    records,
                    #[trigger] start.unspendable_txo_ids@[k],
                )
        },
{
    if r is Ok {
        let ids = r->Ok_0.unspendable_txo_ids@;
        let colorings = records.colorings@;
        assert forall|c: int| 0 <= c < colorings.len() implies is_live_input(
            records,
            #[trigger] colorings[c],
        ) == (colorings[c].coloring_type is Input && !is_part_of_failed(
            records,
            colorings[c].asset_transfer_idx,
        )) by {
            lemma_live(records, colorings[c]);
        }
        assert forall|c: int|
            0 <= c < colorings.len() && (#[trigger] colorings[c]).coloring_type is Input
                && !is_part_of_failed(
                records,
                colorings[c].asset_transfer_idx,
            ) implies ids.contains(colorings[c].txo_idx) by {
            assert(live_input(records, colorings[c].txo_idx));
        }
        assert forall|k: int| 0 <= k < ids.len() implies is_spent(records, #[trigger] ids[k]) by {
            assert(ids.contains(ids[k]));
            assert(live_input(records, ids[k]));
        }
    }
}

/// What allocations hold of an asset.
pub open spec fn held(allocations: Seq<RgbAllocation>, asset_id: Seq<char>) -> int
    decreases allocations.len(),
{
    if allocations.len() == 0 {
        0
    } else {
        let a = allocations.last();
        held(allocations.drop_last(), asset_id) + if a.asset_id matches Some(id) && id@ == asset_id {
            a.amount as int
        } else {
            0
        }
    }
}

/// Whether nothing on an output is still to be settled.
pub open spec fn is_settled(u: LocalUnspent) -> bool {
    forall|i: int|
        0 <= i < u.rgb_allocations@.len() ==> (#[trigger] u.rgb_allocations@[i]).settled
}

/// What outputs hold of an asset, of those on which nothing is still to be settled.
pub open spec fn settled_amount(unspents: Seq<LocalUnspent>, asset_id: Seq<char>) -> int
    decreases unspents.len(),
{
    if unspents.len() == 0 {
        0
    } else {
        let u = unspents.last();
        settled_amount(unspents.drop_last(), asset_id) + if is_settled(u) {
            held(u.rgb_allocations@, asset_id)
        } else {
            0
        }
    }
}

/// What the inputs of a spend hold together.
pub open spec fn spent_in_all(txo_map: Seq<(i64, u64)>) -> int
    decreases txo_map.len(),
{
    if txo_map.len() == 0 {
        0
    } else {
        spent_in_all(txo_map.drop_last()) + txo_map.last().1
    }
}

/// Whether a spend takes the outputs at given indices.
pub open spec fn takes(
    spend: AssetSpend,
    unspents: Seq<LocalUnspent>,
    asset_id: Seq<char>,
    at: Seq<int>,
) -> bool {
    &&& spend.txo_map@.len() == at.len()
    &&& spend.input_outpoints@.len() == at.len()
    &&& forall|k: int|
        0 <= k < at.len() ==> {
            let u = unspents[#[trigger] at[k]];
            &&& 0 <= at[k] < unspents.len()
            &&& spend.txo_map@[k].0 == u.utxo.idx
            &&& spend.txo_map@[k].1 == held(u.rgb_allocations@, asset_id)
            &&& spend.input_outpoints@[k].txid@ == u.utxo.txid@
            &&& spend.input_outpoints@[k].vout == u.utxo.vout
        }
}

/// Whether outputs are the first ones of a list on which nothing is still to be settled.
pub open spec fn are_first_settled(unspents: Seq<LocalUnspent>, at: Seq<int>) -> bool {
    &&& forall|k: int|
        0 <= k < at.len() ==> 0 <= #[trigger] at[k] < unspents.len() && is_settled(
            unspents[at[k]],
        )
    &&& forall|k: int, l: int| 0 <= k < l < at.len() ==> #[trigger] at[k] < #[trigger] at[l]
    &&& forall|i: int, k: int|
        0 <= i < unspents.len() && is_settled(#[trigger] unspents[i]) && 0 <= k < at.len() && i
            < #[trigger] at[k] ==> at.contains(i)
}

proof fn lemma_held(allocations: Seq<RgbAllocation>, asset_id: Seq<char>)
    ensures
        held(allocations, asset_id) == sum(asset_amounts(allocations, asset_id)),
    decreases allocations.len(),
{
    let p = |a: RgbAllocation| opt_text(a.asset_id) == Some(asset_id);
    let f = |a: RgbAllocation| a.amount;
    assert(asset_amounts(allocations, asset_id) == allocations.filter(p).map_values(f));
    lemma_filter_ends(allocations, p);
    if allocations.len() == 0 {
        assert(allocations =~= allocations.take(0));
        assert(allocations.filter(p).map_values(f) =~= Seq::<u64>::empty());
    } else {
        let n = allocations.len() - 1;
        let head = allocations.drop_last();
        lemma_held(head, asset_id);
        lemma_filter_step(allocations, p, n);
        assert(allocations.take(n) =~= head);
        if p(allocations[n]) {
            assert(allocations.filter(p).map_values(f).drop_last() =~= head.filter(p).map_values(
                f,
            ));
        }
    }
}

proof fn lemma_settled_amount(unspents: Seq<LocalUnspent>, asset_id: Seq<char>)
    ensures
        settled_amount(unspents, asset_id) == amount_on(settled(unspents), asset_id),
    decreases unspents.len(),
{
    let p = |u: LocalUnspent| all_settled(u);
    lemma_filter_ends(unspents, p);
    if unspents.len() == 0 {
        assert(unspents =~= unspents.take(0));
    } else {
        let n = unspents.len() - 1;
        let head = unspents.drop_last();
        lemma_settled_amount(head, asset_id);
        lemma_filter_step(unspents, p, n);
        assert(unspents.take(n) =~= head);
        lemma_held(unspents[n].rgb_allocations@, asset_id);
        if p(unspents[n]) {
            assert(settled(unspents).drop_last() =~= settled(head));
        }
    }
}

proof fn lemma_spent_in_all(txo_map: Seq<(i64, u64)>)
    ensures
        spent_in_all(txo_map) == sum(txo_map.map_values(|e: (i64, u64)| e.1)),
    decreases txo_map.len(),
{
    let f = |e: (i64, u64)| e.1;
    if txo_map.len() > 0 {
        lemma_spent_in_all(txo_map.drop_last());
        assert(txo_map.map_values(f).drop_last() =~= txo_map.drop_last().map_values(f));
    }
}

proof fn lemma_short_without_last(spend: AssetSpend, paying: Seq<LocalUnspent>, asset_id: Seq<char>, n: int)
    requires
        0 <= n <= paying.len(),
        amount_on(paying, asset_id) <= u64::MAX,
        spend.txo_map@ == paying.map_values(
            |u: LocalUnspent| (u.utxo.idx, asset_amount(u, asset_id) as u64),
        ),
    ensures
        spent_in_all(spend.txo_map@.take(n)) == amount_on(paying.take(n), asset_id),
        forall|k: int|
            0 <= k < n ==> (#[trigger] spend.txo_map@[k]).1 == asset_amount(paying[k], asset_id),
    decreases n,
{
    lemma_amount_fits(paying, asset_id, n);
    if n > 0 {
        lemma_short_without_last(spend, paying, asset_id, n - 1);
        assert(spend.txo_map@.take(n).drop_last() =~= spend.txo_map@.take(n - 1));
        assert(paying.take(n).drop_last() =~= paying.take(n - 1));
        assert(spend.txo_map@[n - 1].1 == asset_amount(paying[n - 1], asset_id));
    }
}

proof fn lemma_amount_fits(unspents: Seq<LocalUnspent>, asset_id: Seq<char>, n: int)
    requires
        0 <= n <= unspents.len(),
    ensures
        amount_on(unspents.take(n), asset_id) <= amount_on(unspents, asset_id),
        n > 0 ==> asset_amount(unspents[n - 1], asset_id) <= amount_on(unspents, asset_id),
    decreases unspents.len() - n,
{
    if n < unspents.len() {
        lemma_amount_fits(unspents, asset_id, n + 1);
        assert(unspents.take(n + 1).drop_last() =~= unspents.take(n));
    } else {
        assert(unspents.take(n) =~= unspents);
    }
    if n > 0 {
        assert(unspents.take(n).last() == unspents[n - 1]);
    }
}

/// Whether a spend pays an amount with the outputs at given indices: with the first ones
/// on which nothing is still to be settled, as many as it takes and no more.
pub open spec fn pays(
    spend: AssetSpend,
    unspents: Seq<LocalUnspent>,
    asset_id: Seq<char>,
    amount: int,
    at: Seq<int>,
) -> bool {
    &&& takes(spend, unspents, asset_id, at)
    &&& are_first_settled(unspents, at)
    &&& spent_in_all(spend.txo_map@) == amount + spend.change_amount
    &&& at.len() > 1 ==> spent_in_all(spend.txo_map@.drop_last()) < amount
    &&& at.len() == 0 ==> forall|i: int|
        0 <= i < unspents.len() ==> !is_settled(#[trigger] unspents[i])
}

/// An amount is paid by the first outputs on which nothing is still to be settled, as many
/// as it takes and no more, and what they hold beyond the amount comes back. That fails
/// exactly where all of these outputs together hold less.
pub proof fn the_first_settled_outputs_pay(
    unspents: Vec<LocalUnspent>,
    asset_id: String,
    amount_needed: u64,
    r: Result<AssetSpend, WalletError>,
) -> (at: Seq<int>)
    requires
        amount_on(payers(unspents@, asset_id@, amount_needed), asset_id@) <= u64::MAX,
        call_ensures(select_rgb_inputs, (&unspents, &asset_id, amount_needed), r),
    ensures
        r is Ok <==> settled_amount(unspents@, asset_id@) >= amount_needed,
        r matches Err(e) ==> e is InsufficientAssets,
        r matches Ok(spend) ==> pays(spend, unspents@, asset_id@, amount_needed as int, at),
{
    enough_assets_are_found(unspents@, asset_id@, amount_needed);
    lemma_settled_amount(unspents@, asset_id@);
    if r is Ok {
        lemma_pays(r->Ok_0, unspents@, asset_id@, amount_needed)
    } else {
        Seq::empty()
    }
}

proof fn lemma_pays(
    spend: AssetSpend,
    unspents: Seq<LocalUnspent>,
    id: Seq<char>,
    amount_needed: u64,
) -> (at: Seq<int>)
    requires
        amount_on(payers(unspents, id, amount_needed), id) <= u64::MAX,
        spends(spend, payers(unspents, id, amount_needed), id, amount_needed),
    ensures
        pays(spend, unspents, id, amount_needed as int, at),
{
    let p = |u: LocalUnspent| all_settled(u);
    let all = settled(unspents);
    let paying = payers(unspents, id, amount_needed);
    let every = lemma_filter_picks(unspents, p);
    let n = paying.len() as int;
    no_input_is_superfluous(unspents, id, amount_needed);
    let at = every.take(n);
    inputs_are_payment_and_change(spend, unspents, id, amount_needed);
    lemma_spent_in_all(spend.txo_map@);
    lemma_short_without_last(spend, paying, id, n);
    assert(n <= all.len()) by {
        lemma_paying_first(unspents, id, amount_needed);
    }
    assert forall|k: int| 0 <= k < n implies paying[k] == unspents[#[trigger] at[k]] by {
        lemma_paying_first(unspents, id, amount_needed);
        assert(unspents[every[k]] == all[k]);
    }
    assert forall|k: int| 0 <= k < at.len() implies {
        let u = unspents[#[trigger] at[k]];
        &&& 0 <= at[k] < unspents.len()
        &&& spend.txo_map@[k].0 == u.utxo.idx
        &&& spend.txo_map@[k].1 == held(u.rgb_allocations@, id)
        &&& spend.input_outpoints@[k].txid@ == u.utxo.txid@
        &&& spend.input_outpoints@[k].vout == u.utxo.vout
    } by {
        assert(at[k] == every[k]);
        lemma_held(paying[k].rgb_allocations@, id);
        assert(spend.txo_map@[k].1 == asset_amount(paying[k], id));
        assert(spend.input_outpoints@[k] == paying[k].utxo.outpoint_spec());
    }
    assert forall|i: int, k: int|
        0 <= i < unspents.len() && is_settled(#[trigger] unspents[i]) && 0 <= k < at.len()
            && i < #[trigger] at[k] implies at.contains(i) by {
        assert(p(unspents[i]));
        let j = choose|j: int| 0 <= j < every.len() && every[j] == i;
        assert(at[k] == every[k]);
        assert(j < k) by {
            if k < j {
                assert(every[k] < every[j]);
            }
        }
        assert(at[j] == i);
    }
    assert forall|k: int| 0 <= k < at.len() implies 0 <= #[trigger] at[k] < unspents.len()
        && is_settled(unspents[at[k]]) by {
        assert(at[k] == every[k]);
        assert(p(unspents[every[k]]));
    }
    assert forall|k: int, l: int| 0 <= k < l < at.len() implies #[trigger] at[k]
        < #[trigger] at[l] by {
        assert(every[k] < every[l]);
    }
    if n > 1 {
        lemma_short_without_last(spend, paying, id, n - 1);
        assert(spend.txo_map@.take(n - 1) =~= spend.txo_map@.drop_last());
        assert(paying.take(n - 1) =~= paying.drop_last());
    }
    if n == 0 {
        lemma_paying_first(unspents, id, amount_needed);
        assert(all.len() == 0);
        assert forall|i: int| 0 <= i < unspents.len() implies !is_settled(
            #[trigger] unspents[i],
        ) by {
            if is_settled(unspents[i]) {
                assert(p(unspents[i]));
                assert(every.contains(i));
            }
        }
    }
    at
}

proof fn lemma_paying_first(unspents: Seq<LocalUnspent>, asset_id: Seq<char>, amount_needed: u64)
    ensures
        ({
            let paying = payers(unspents, asset_id, amount_needed);
            let all = settled(unspents);
            &&& paying.len() <= all.len()
            &&& paying == all.take(paying.len() as int)
            &&& paying.len() == 0 ==> all.len() == 0
        }),
{
    let all = settled(unspents);
    lemma_inputs_used_bound(all, asset_id, amount_needed as int);
}

/// No output that a transfer spends, open or settled, is spent again: not by an amount
/// that is paid from the outputs which were not set aside when the send operation started.
pub proof fn no_output_is_spent_twice(
    wallet: Wallet,
    online: Online,
    recipient_map: Vec<(String, Vec<Recipient>)>,
    donation: bool,
    records: Records,
    start: SendStart,
    asset_txos: Vec<DbTxo>,
    spendable: Vec<DbTxo>,
    unspents: Vec<LocalUnspent>,
    asset_id: String,
    amount_needed: u64,
    spend: AssetSpend,
)
    requires
        call_ensures(
            Wallet::send_begin,
            (&wallet, &online, &recipient_map, donation, &records),
            Ok::<SendStart, WalletError>(start),
        ),
        call_ensures(spendable_asset_txos, (&asset_txos, &start.unspendable_txo_ids), spendable),
        forall|i: int|
            0 <= i < unspents@.len() ==> spendable@.contains((#[trigger] unspents@[i]).utxo),
        amount_on(payers(unspents@, asset_id@, amount_needed), asset_id@) <= u64::MAX,
        call_ensures(
            select_rgb_inputs,
            (&unspents, &asset_id, amount_needed),
            Ok::<AssetSpend, WalletError>(spend),
        ),
        outputs_differ(records),
        forall|i: int| 0 <= i < asset_txos@.len() ==> records.txos@.contains(
            #[trigger] asset_txos@[i],
        ),
    ensures
        forall|k: int, c: int|
            0 <= k < spend.txo_map@.len() && 0 <= c < records.colorings@.len()
                && is_spent_by_transfer(records, #[trigger] records.colorings@[c]) ==> (
            #[trigger] spend.txo_map@[k]).0 != records.colorings@[c].txo_idx,
        forall|k: int, c: int, t: int|
            #![trigger spend.input_outpoints@[k], records.colorings@[c], records.txos@[t]]
            0 <= k < spend.input_outpoints@.len() && 0 <= c < records.colorings@.len() && 0 <= t
                < records.txos@.len() && is_spent_by_transfer(records, records.colorings@[c])
                && records.txos@[t].idx == records.colorings@[c].txo_idx ==> !is_output_at(
                records.txos@[t],
                spend.input_outpoints@[k],
            ),
{
    let r: Result<SendStart, WalletError> = Ok(start);
    outputs_of_other_transfers_are_set_aside(wallet, online, recipient_map, donation, records, r);
    let at = the_first_settled_outputs_pay(unspents, asset_id, amount_needed, Ok(spend));
    let ids = start.unspendable_txo_ids@;
    let q = |t: DbTxo| !ids.contains(t.idx);
    assert(spendable@ == asset_txos@.filter(q));
    lemma_filter_members(asset_txos@, q);
    assert forall|k: int| 0 <= k < at.len() implies !ids.contains(
        unspents@[#[trigger] at[k]].utxo.idx,
    ) && records.txos@.contains(unspents@[at[k]].utxo) by {
        assert(spendable@.contains(unspents@[at[k]].utxo));
    }
    assert forall|k: int, c: int|
        0 <= k < spend.txo_map@.len() && 0 <= c < records.colorings@.len() && is_spent_by_transfer(
            records,
            #[trigger] records.colorings@[c],
        ) implies (#[trigger] spend.txo_map@[k]).0 != records.colorings@[c].txo_idx by {
        assert(spend.txo_map@[k].0 == unspents@[at[k]].utxo.idx);
    }
    assert forall|k: int, c: int, t: int|
        #![trigger spend.input_outpoints@[k], records.colorings@[c], records.txos@[t]]
        0 <= k < spend.input_outpoints@.len() && 0 <= c < records.colorings@.len() && 0 <= t
            < records.txos@.len() && is_spent_by_transfer(records, records.colorings@[c])
            && records.txos@[t].idx == records.colorings@[c].txo_idx implies !is_output_at(records.txos@[t], spend.input_outpoints@[k]) by {
        let paid = unspents@[at[k]].utxo;
        let j = choose|j: int| 0 <= j < records.txos@.len() && records.txos@[j] == paid;
        assert(records.txos@[j].idx != records.txos@[t].idx);
        if is_output_at(records.txos@[t], spend.input_outpoints@[k]) {
            assert(records.txos@[j].txid@ == records.txos@[t].txid@);
        }
    }
}

/// Whether a stored output is the one at an outpoint.
pub open spec fn is_output_at(t: DbTxo, o: Outpoint) -> bool {
    t.txid@ == o.txid@ && t.vout == o.vout
}

/// Whether no output is stored twice.
pub open spec fn outputs_differ(records: Records) -> bool {
    forall|i: int, j: int|
        0 <= i < j < records.txos@.len() ==> (#[trigger] records.txos@[i]).txid@ != (
        #[trigger] records.txos@[j]).txid@ || records.txos@[i].vout != records.txos@[j].vout
}

/// What recipients ask for together.
pub open spec fn asked(recipients: Seq<Recipient>) -> int
    decreases recipients.len(),
{
    if recipients.len() == 0 {
        0
    } else {
        asked(recipients.drop_last()) + recipients.last().amount
    }
}

/// Whether an asset is known.
pub open spec fn is_known(assets: Seq<DbAsset>, asset_id: Seq<char>) -> bool {
    exists|i: int| 0 <= i < assets.len() && (#[trigger] assets[i]).asset_id@ == asset_id
}

proof fn lemma_asked(recipients: Seq<Recipient>)
    ensures
        asked(recipients) == sum(recipient_amounts(recipients)),
    decreases recipients.len(),
{
    if recipients.len() > 0 {
        lemma_asked(recipients.drop_last());
        assert(recipient_amounts(recipients).drop_last() =~= recipient_amounts(
            recipients.drop_last(),
        ));
    }
}

/// An asset is known exactly where it is found.
pub proof fn lemma_known(assets: Seq<DbAsset>, asset_id: Seq<char>)
    ensures
        asset_with(assets, asset_id) is Some <==> is_known(assets, asset_id),
{
    let p = with_asset_id(asset_id);
    lemma_first_index(assets, p);
    assert forall|i: int| 0 <= i < assets.len() implies p(#[trigger] assets[i]) == (
    assets[i].asset_id@ == asset_id) by {}
}

/// Of a known asset, all that its recipients ask for is needed.
pub proof fn all_recipients_count(
    assets: Vec<DbAsset>,
    asset_id: String,
    recipients: Vec<Recipient>,
    r: Result<u64, WalletError>,
)
    requires
        call_ensures(requested_amount, (&assets, &asset_id, &recipients), r),
    ensures
        is_known(assets@, asset_id@) ==> (r matches Ok(amount) && amount == asked(recipients@)),
        !is_known(assets@, asset_id@) ==> (r matches Err(WalletError::AssetNotFound(id)) && id@
            == asset_id@),
{
    lemma_known(assets@, asset_id@);
    lemma_asked(recipients@);
}

/// Whether a transfer sends what the recipients of an asset ask for, from outputs that are
/// offered for it.
pub open spec fn serves(
    t: (String, InfoAssetTransfer),
    entry: (String, Vec<Recipient>),
    offered: Seq<LocalUnspent>,
) -> bool {
    &&& t.0@ == entry.0@
    &&& t.1.recipients@ == entry.1@
    &&& exists|at: Seq<int>| #[trigger]
        pays(t.1.asset_spend, offered, entry.0@, asked(entry.1@), at)
}

/// Whether an asset can be sent.
pub open spec fn is_sendable(
    assets: Seq<DbAsset>,
    entry: (String, Vec<Recipient>),
    offered: Seq<LocalUnspent>,
) -> bool {
    is_known(assets, entry.0@) && settled_amount(offered, entry.0@) >= asked(entry.1@)
}

/// Whether some transfer serves the recipients of an asset.
pub open spec fn is_served(
    transfers: Seq<(String, InfoAssetTransfer)>,
    entry: (String, Vec<Recipient>),
    offered: Seq<LocalUnspent>,
) -> bool {
    exists|j: int| 0 <= j < transfers.len() && serves(#[trigger] transfers[j], entry, offered)
}

/// The recipients of all assets are served, each asset by one transfer from the outputs
/// that are offered for it. That fails exactly where an asset is not known, or where the
/// outputs offered for it hold less than its recipients ask for. The first such asset is
/// the one that is told of.
pub proof fn all_assets_are_served(
    assets: Vec<DbAsset>,
    recipient_map: Vec<(String, Vec<Recipient>)>,
    offered: Vec<Vec<LocalUnspent>>,
    r: Result<Vec<(String, InfoAssetTransfer)>, WalletError>,
)
    requires
        offered@.len() == recipient_map@.len(),
        assets_differ(recipient_map@),
        forall|i: int|
            0 <= i < recipient_map@.len() ==> countable(
                #[trigger] recipient_map@[i],
                offered@[i]@,
            ),
        call_ensures(choose_inputs, (&assets, recipient_map, &offered), r),
    ensures
        r is Ok <==> forall|i: int|
            0 <= i < recipient_map@.len() ==> is_sendable(
                assets@,
                #[trigger] recipient_map@[i],
                offered@[i]@,
            ),
        r matches Ok(transfers) ==> {
            &&& transfers@.len() == recipient_map@.len()
            &&& forall|i: int|
                0 <= i < recipient_map@.len() ==> is_served(
                    transfers@,
                    #[trigger] recipient_map@[i],
                    offered@[i]@,
                )
            &&& forall|i: int, j: int|
                0 <= i < j < transfers@.len() ==> is_ahead(
                    (#[trigger] transfers@[i]).0@,
                    (#[trigger] transfers@[j]).0@,
                )
        },
        r matches Err(e) ==> exists|k: int|
            {
                &&& 0 <= k < recipient_map@.len()
                &&& !is_sendable(assets@, #[trigger] recipient_map@[k], offered@[k]@)
                &&& forall|i: int|
                    0 <= i < k ==> is_sendable(
                        assets@,
                        #[trigger] recipient_map@[i],
                        offered@[i]@,
                    )
                &&& if is_known(assets@, recipient_map@[k].0@) {
                    e is InsufficientAssets
                } else {
                    e matches WalletError::AssetNotFound(id) && id@ == recipient_map@[k].0@
                }
            },
{
    assert forall|i: int| 0 <= i < recipient_map@.len() implies can_send(
        assets@,
        #[trigger] recipient_map@[i],
        offered@[i]@,
    ) == is_sendable(assets@, recipient_map@[i], offered@[i]@) by {
        let entry = recipient_map@[i];
        assert(countable(entry, offered@[i]@));
        lemma_asked(entry.1@);
        lemma_known(assets@, entry.0@);
        lemma_settled_amount(offered@[i]@, entry.0@);
        enough_assets_are_found(offered@[i]@, entry.0@, amount_asked(entry) as u64);
    }
    if r is Ok {
        let transfers = r->Ok_0@;
        assert forall|i: int| 0 <= i < recipient_map@.len() implies is_served(
            transfers,
            #[trigger] recipient_map@[i],
            offered@[i]@,
        ) by {
            let entry = recipient_map@[i];
            assert(countable(entry, offered@[i]@));
            assert(is_sent(transfers, entry, offered@[i]@));
            let j = choose|j: int|
                0 <= j < transfers.len() && sends(#[trigger] transfers[j], entry, offered@[i]@);
            lemma_asked(entry.1@);
            let at = lemma_pays(
                transfers[j].1.asset_spend,
                offered@[i]@,
                entry.0@,
                amount_asked(entry) as u64,
            );
            assert(serves(transfers[j], entry, offered@[i]@));
        }
        assert forall|i: int, j: int| 0 <= i < j < transfers.len() implies is_ahead(
            (#[trigger] transfers[i]).0@,
            (#[trigger] transfers[j]).0@,
        ) by {
            assert(text_before(transfers[i].0@, transfers[j].0@));
            lemma_parts(transfers[i].0@, transfers[j].0@);
        }
    } else {
        let e = r->Err_0;
        let k = choose|k: int| #[trigger]
            tells_unsendable(e, assets@, recipient_map@, offered@, k);
        lemma_known(assets@, recipient_map@[k].0@);
        assert(!can_send(assets@, recipient_map@[k], offered@[k]@));
        assert(!is_sendable(assets@, recipient_map@[k], offered@[k]@));
    }
}

/// Whether an optional text is a given one.
pub open spec fn is_text(o: Option<String>, text: Seq<char>) -> bool {
    o matches Some(s) && s@ == text
}

/// Whether the rows of an asset that the user sends are right: an input for each output
/// that pays with what it holds, the change on the change output, and a transfer for each
/// recipient.
pub open spec fn is_recorded(
    a: NewAssetTransfer,
    t: (String, InfoAssetTransfer),
    change_utxo_idx: i64,
) -> bool {
    let inputs = t.1.asset_spend.txo_map@;
    let recipients = t.1.recipients@;
    &&& a.user_driven
    &&& is_text(a.asset_id, t.0@)
    &&& a.colorings@.len() == inputs.len() + 1
    &&& forall|i: int|
        0 <= i < inputs.len() ==> {
            let c = #[trigger] a.colorings@[i];
            &&& c.txo_idx == inputs[i].0
            &&& c.coloring_type is Input
            &&& c.amount@ == decimal(inputs[i].1 as nat)
        }
    &&& a.colorings@.last().txo_idx == change_utxo_idx
    &&& a.colorings@.last().coloring_type is Change
    &&& a.colorings@.last().amount@ == decimal(t.1.asset_spend.change_amount as nat)
    &&& a.transfers@.len() == recipients.len()
    &&& forall|i: int|
        0 <= i < recipients.len() ==> {
            &&& is_text((#[trigger] a.transfers@[i]).blinded_utxo, recipients[i].blinded_utxo@)
            &&& a.transfers@[i].amount@ == decimal(recipients[i].amount as nat)
            &&& a.transfers@[i].blinding_secret is None
        }
}

/// Whether the rows of an asset that only moves to the change output are right: the amount
/// on that output, and nothing that the user asked for.
pub open spec fn is_recorded_as_moved(
    a: NewAssetTransfer,
    moved: (String, u64),
    change_utxo_idx: i64,
) -> bool {
    &&& !a.user_driven
    &&& is_text(a.asset_id, moved.0@)
    &&& a.transfers@.len() == 0
    &&& a.colorings@.len() == 1
    &&& a.colorings@[0].txo_idx == change_utxo_idx
    &&& a.colorings@[0].coloring_type is Change
    &&& a.colorings@[0].amount@ == decimal(moved.1 as nat)
}

/// What is stored of a transaction is what it sends of each asset and what it moves along
/// with it, for an hour. Only a donation is broadcast at once, and waits for its
/// confirmations.
pub proof fn sent_transfers_are_recorded(
    txid: String,
    transfers: Vec<(String, InfoAssetTransfer)>,
    info: InfoBatchTransfer,
    now: i64,
    r: FinishedSend,
)
    requires
        now + 60 * 60 <= i64::MAX,
        call_ensures(finish_send, (&txid, &transfers, &info, now), r),
    ensures
        r.broadcast <==> info.donation,
        info.donation ==> r.batch_transfer.status is WaitingConfirmations,
        !info.donation ==> r.batch_transfer.status is WaitingCounterparty,
        is_text(r.batch_transfer.txid, txid@),
        r.batch_transfer.expiration matches Some(at) && at == now + 60 * 60,
        r.batch_transfer.asset_transfers@.len() == transfers@.len()
            + info.blank_allocations@.len(),
        forall|i: int|
            0 <= i < transfers@.len() ==> is_recorded(
                r.batch_transfer.asset_transfers@[i],
                #[trigger] transfers@[i],
                info.change_utxo_idx,
            ),
        forall|i: int|
            0 <= i < info.blank_allocations@.len() ==> is_recorded_as_moved(
                r.batch_transfer.asset_transfers@[transfers@.len() + i],
                #[trigger] info.blank_allocations@[i],
                info.change_utxo_idx,
            ),
{
    let rows = r.batch_transfer.asset_transfers@;
    assert forall|i: int| 0 <= i < transfers@.len() implies is_recorded(
        rows[i],
        #[trigger] transfers@[i],
        info.change_utxo_idx,
    ) by {
        let a = rows[i];
        let inputs = transfers@[i].1.asset_spend.txo_map@;
        assert(records_transfer(a, transfers@[i].0@, transfers@[i].1, info.change_utxo_idx));
        assert forall|k: int| 0 <= k < inputs.len() implies {
            let c = #[trigger] a.colorings@[k];
            &&& c.txo_idx == inputs[k].0
            &&& c.coloring_type is Input
            &&& c.amount@ == decimal(inputs[k].1 as nat)
        } by {
            assert(is_coloring(
                a.colorings@[k],
                inputs[k].0,
                ColoringType::Input,
                inputs[k].1,
            ));
        }
        assert(a.colorings@.last() == a.colorings@[inputs.len() as int]);
    }
    assert forall|i: int| 0 <= i < info.blank_allocations@.len() implies is_recorded_as_moved(
        rows[transfers@.len() + i],
        #[trigger] info.blank_allocations@[i],
        info.change_utxo_idx,
    ) by {
        assert(records_blank(
            rows[transfers@.len() + i],
            info.blank_allocations@[i].0@,
            info.blank_allocations@[i].1,
            info.change_utxo_idx,
        ));
    }
}

proof fn lemma_inputs_of(transfers: Seq<(String, InfoAssetTransfer)>)
    ensures
        forall|i: int, k: int|
            0 <= i < transfers.len() && 0 <= k < transfers[i].1.asset_spend.input_outpoints@.len()
                ==> inputs_of(transfers).contains(
                #[trigger] transfers[i].1.asset_spend.input_outpoints@[k],
            ),
        forall|o: Outpoint| #[trigger]
            inputs_of(transfers).contains(o) ==> is_input_of(transfers, o),
    decreases transfers.len(),
{
    let all = inputs_of(transfers);
    if transfers.len() > 0 {
        let n = transfers.len() - 1;
        let head = transfers.drop_last();
        lemma_inputs_of(head);
        let before = inputs_of(head);
        let own = transfers.last().1.asset_spend.input_outpoints@;
        assert(all == before + own);
        assert forall|i: int, k: int|
            0 <= i < transfers.len() && 0 <= k
                < transfers[i].1.asset_spend.input_outpoints@.len() implies all.contains(
            #[trigger] transfers[i].1.asset_spend.input_outpoints@[k],
        ) by {
            let o = transfers[i].1.asset_spend.input_outpoints@[k];
            if i < n {
                assert(head[i] == transfers[i]);
                assert(before.contains(head[i].1.asset_spend.input_outpoints@[k]));
                let j = choose|j: int| 0 <= j < before.len() && before[j] == o;
                assert(all[j] == o);
            } else {
                assert(all[before.len() + k] == own[k]);
            }
        }
        assert forall|o: Outpoint| #[trigger] all.contains(o) implies is_input_of(
            transfers,
            o,
        ) by {
            let j = choose|j: int| 0 <= j < all.len() && all[j] == o;
            if j < before.len() {
                assert(before[j] == o);
                assert(before.contains(o));
                let i = choose|i: int|
                    0 <= i < head.len() && (
                    #[trigger] head[i]).1.asset_spend.input_outpoints@.contains(o);
                assert(transfers[i] == head[i]);
            } else {
                assert(own[j - before.len()] == o);
                assert(transfers[n].1.asset_spend.input_outpoints@.contains(o));
            }
        }
    }
}

/// Whether an outpoint is an input of some transfer.
pub open spec fn is_input_of(transfers: Seq<(String, InfoAssetTransfer)>, o: Outpoint) -> bool {
    exists|i: int|
        0 <= i < transfers.len() && (
        #[trigger] transfers[i]).1.asset_spend.input_outpoints@.contains(o)
}

/// A transaction spends the inputs of all transfers and no other output, each of them
/// once.
pub proof fn all_inputs_are_spent(
    transfers: Vec<(String, InfoAssetTransfer)>,
    r: Vec<Outpoint>,
)
    requires
        forall|i: int, k: int|
            0 <= i < transfers@.len() && 0 <= k
                < transfers@[i].1.asset_spend.input_outpoints@.len() ==> is_id(
                (#[trigger] transfers@[i].1.asset_spend.input_outpoints@[k]).txid@,
            ),
        call_ensures(get_all_inputs, (&transfers,), r),
    ensures
        forall|i: int| 0 <= i < r@.len() ==> is_input_of(transfers@, #[trigger] r@[i]),
        forall|i: int, k: int|
            0 <= i < transfers@.len() && 0 <= k
                < transfers@[i].1.asset_spend.input_outpoints@.len() ==> has_same(
                r@,
                #[trigger] transfers@[i].1.asset_spend.input_outpoints@[k],
            ),
        forall|i: int, j: int|
            0 <= i < j < r@.len() ==> comes_first(#[trigger] r@[i], #[trigger] r@[j]),
{
    lemma_inputs_of(transfers@);
    let all = inputs_of(transfers@);
    assert forall|i: int| 0 <= i < r@.len() implies is_id((#[trigger] r@[i]).txid@)
        && is_input_of(transfers@, r@[i]) by {
        assert(all.contains(r@[i]));
        let t = choose|t: int|
            0 <= t < transfers@.len() && (
            #[trigger] transfers@[t]).1.asset_spend.input_outpoints@.contains(r@[i]);
        let own = transfers@[t].1.asset_spend.input_outpoints@;
        let k = choose|k: int| 0 <= k < own.len() && own[k] == r@[i];
        assert(is_id(transfers@[t].1.asset_spend.input_outpoints@[k].txid@));
    }
    assert forall|i: int, k: int|
        0 <= i < transfers@.len() && 0 <= k
            < transfers@[i].1.asset_spend.input_outpoints@.len() implies has_same(
        r@,
        #[trigger] transfers@[i].1.asset_spend.input_outpoints@[k],
    ) by {
        let o = transfers@[i].1.asset_spend.input_outpoints@[k];
        assert(all.contains(o));
        let j = choose|j: int| 0 <= j < all.len() && all[j] == o;
        assert(same_output(all[j]@, o@));
        assert(holds_output(all, o@));
        assert(holds_output(r@, o@));
        let m = choose|m: int| 0 <= m < r@.len() && same_output((#[trigger] r@[m])@, o@);
        lemma_same(r@[m].txid@, o.txid@);
        assert(is_same(r@[m], o));
    }
    assert forall|i: int, j: int| 0 <= i < j < r@.len() implies comes_first(
        #[trigger] r@[i],
        #[trigger] r@[j],
    ) by {
        assert(outpoint_before(r@[i]@, r@[j]@));
        lemma_first(r@[i], r@[j]);
    }
}

/// The file with the consignment of an asset, below the directory of a transfer.
pub open spec fn consignment_at(dir: Seq<char>, asset_id: Seq<char>) -> Seq<char> {
    below(below(dir, asset_id), "consignment_out"@)
}

/// Whether a posting is that of a file for a blinded UTXO.
pub open spec fn is_posting(
    posting: (String, String),
    blinded_utxo: Seq<char>,
    file: Seq<char>,
) -> bool {
    posting.0@ == blinded_utxo && posting.1@ == file
}

/// One more asset adds one posting for each of its recipients behind those of the other
/// assets: the consignment of the asset, for the blinded UTXO of the recipient.
pub proof fn each_recipient_gets_the_consignment(
    dir: &str,
    transfers: Vec<(String, InfoAssetTransfer)>,
    longer: Vec<(String, InfoAssetTransfer)>,
    t: (String, InfoAssetTransfer),
    r: Vec<(String, String)>,
    r_longer: Vec<(String, String)>,
)
    requires
        longer@ == transfers@.push(t),
        call_ensures(get_postings, (dir, &transfers), r),
        call_ensures(get_postings, (dir, &longer), r_longer),
    ensures
        transfers@.len() == 0 ==> r@.len() == 0,
        r_longer@.len() == r@.len() + t.1.recipients@.len(),
        forall|i: int|
            0 <= i < r@.len() ==> (#[trigger] r_longer@[i]).0@ == r@[i].0@ && r_longer@[i].1@
                == r@[i].1@,
        forall|k: int|
            0 <= k < t.1.recipients@.len() ==> is_posting(
                r_longer@[r@.len() + k],
                (#[trigger] t.1.recipients@[k]).blinded_utxo@,
                consignment_at(dir@, t.0@),
            ),
{
    let a = posting_views(r@);
    let b = posting_views(r_longer@);
    assert(longer@.drop_last() =~= transfers@);
    assert(longer@.last() == t);
    let own = asset_postings(dir@, t);
    assert(b == a + own);
    assert(a.len() == r@.len() && b.len() == r_longer@.len());
    assert forall|i: int| 0 <= i < r@.len() implies (#[trigger] r_longer@[i]).0@ == r@[i].0@
        && r_longer@[i].1@ == r@[i].1@ by {
        assert(b[i] == (r_longer@[i].0@, r_longer@[i].1@));
        assert(a[i] == (r@[i].0@, r@[i].1@));
    }
    lemma_below(dir@, t.0@);
    lemma_below(below(dir@, t.0@), "consignment_out"@);
    assert forall|k: int| 0 <= k < t.1.recipients@.len() implies is_posting(
        r_longer@[r@.len() + k],
        (#[trigger] t.1.recipients@[k]).blinded_utxo@,
        consignment_at(dir@, t.0@),
    ) by {
        let i = r@.len() + k;
        assert(b[i] == (r_longer@[i].0@, r_longer@[i].1@));
        assert(b[i] == own[k]);
    }
}

/// The directory of a transfer, below that of the wallet.
pub open spec fn transfer_at(wallet_dir: Seq<char>, name: Seq<char>) -> Seq<char> {
    below(below(wallet_dir, "transfers"@), name)
}

/// A prepared PSBT is shown as its text, and its transfer has a directory with the name of
/// its transaction.
pub proof fn a_prepared_psbt_is_shown(
    wallet_dir: &str,
    psbt: Vec<u8>,
    text: Result<String, WalletError>,
    r: Result<PreparedSend, WalletError>,
)
    requires
        call_ensures(get_psbt_text, (&psbt,), text),
        call_ensures(prepared_send, (wallet_dir, &psbt), r),
    ensures
        r is Ok <==> (text matches Ok(shown) && transaction_of_text(shown@) is Some),
        text is Err ==> (r matches Err(WalletError::Internal(InternalError::RgbData))),
        r matches Ok(done) ==> (text matches Ok(shown) && {
            &&& done.psbt@ == shown@
            &&& transaction_of_text(shown@) matches Some(tx) && done.transfer_dir@
                == transfer_at(wallet_dir@, tx.0)
        }),
{
    lemma_below(wallet_dir@, "transfers"@);
    if r is Ok {
        let shown = text->Ok_0;
        let tx = transaction_of_text(shown@)->0;
        lemma_below(below(wallet_dir@, "transfers"@), tx.0);
    }
}

/// A signed PSBT is kept in the directory that has the name of its transaction, where also
/// is what was decided when it was prepared. It is read only where the wallet is online.
pub proof fn a_signed_psbt_is_kept_by_its_transaction(
    wallet: Wallet,
    online: Online,
    signed_psbt: &str,
    r: Result<SignedSend, WalletError>,
)
    requires
        call_ensures(Wallet::send_end, (&wallet, &online, signed_psbt), r),
    ensures
        !is_connected(wallet, online) ==> (r matches Err(WalletError::InvalidOnline)),
        is_connected(wallet, online) && transaction_of_text(signed_psbt@) is None ==> (
        r matches Err(WalletError::InvalidPsbt(_))),
        is_connected(wallet, online) && transaction_of_text(signed_psbt@) is Some ==> (
        r matches Ok(started) && {
            let tx = transaction_of_text(signed_psbt@)->0;
            let dir = transfer_at(wallet.dir(), tx.0);
            &&& started.psbt.text@ == signed_psbt@
            &&& started.psbt.txid@ == tx.0
            &&& started.psbt.output_values@ == tx.2
            &&& started.transfer_dir@ == dir
            &&& started.psbt_file@ == below(dir, "signed.psbt"@)
            &&& started.info_file@ == below(dir, "transfer_data.txt"@)
        }),
{
    lemma_below(wallet.dir(), "transfers"@);
    if r is Ok {
        let tx = transaction_of_text(signed_psbt@)->0;
        let dir = transfer_at(wallet.dir(), tx.0);
        assert(psbt_of_text(signed_psbt@) is Some);
        lemma_below(below(wallet.dir(), "transfers"@), tx.0);
        lemma_below(dir, "signed.psbt"@);
        lemma_below(dir, "transfer_data.txt"@);
    }
}

/// A wallet without private keys cannot send on its own. Any other one starts as a send
/// operation does that is signed elsewhere.
pub proof fn sending_needs_keys(
    wallet: Wallet,
    online: Online,
    recipient_map: Vec<(String, Vec<Recipient>)>,
    donation: bool,
    records: Records,
    r: Result<SendStart, WalletError>,
    begun: Result<SendStart, WalletError>,
)
    requires
        call_ensures(Wallet::send, (&wallet, &online, &recipient_map, donation, &records), r),
        call_ensures(
            Wallet::send_begin,
            (&wallet, &online, &recipient_map, donation, &records),
            begun,
        ),
    ensures
        wallet.data().mnemonic is None ==> (r matches Err(WalletError::WatchOnly)),
        wallet.data().mnemonic is Some ==> {
            &&& r is Ok <==> begun is Ok
            &&& r matches Err(e) ==> e is InvalidOnline
            &&& r matches Ok(a) ==> (begun matches Ok(b) && a.donation == b.donation && forall|
                id: i64,
            |
                #[trigger] a.unspendable_txo_ids@.contains(id)
                    <==> b.unspendable_txo_ids@.contains(id))
        },
{
}

/// The rows of a transaction have the status that is given, whatever else is stored.
pub proof fn stored_transfers_have_the_given_status(
    txid: String,
    transfers: Vec<(String, InfoAssetTransfer)>,
    blank_allocations: Vec<(String, u64)>,
    change_utxo_idx: i64,
    status: TransferStatus,
    now: i64,
    r: NewBatchTransfer,
)
    requires
        now + 60 * 60 <= i64::MAX,
        call_ensures(
            save_transfers,
            (&txid, &transfers, &blank_allocations, change_utxo_idx, status, now),
            r,
        ),
    ensures
        r.status == status,
        is_text(r.txid, txid@),
        r.expiration matches Some(at) && at == now + 60 * 60,
        r.asset_transfers@.len() == transfers@.len() + blank_allocations@.len(),
{
}

/// The outputs that other transfers spend are told by their indices.
pub proof fn spent_outputs_are_told(records: Records, r: Vec<i64>)
    requires
        call_ensures(live_inputs, (&records,), r),
    ensures
        forall|id: i64| #[trigger] r@.contains(id) <==> is_spent(records, id),
{
    assert forall|id: i64| #[trigger] r@.contains(id) <==> is_spent(records, id) by {
        if live_input(records, id) {
            let c = choose|c: int|
                0 <= c < records.colorings@.len() && is_live_input(
                    records,
                    #[trigger] records.colorings@[c],
                ) && records.colorings@[c].txo_idx == id;
            lemma_live(records, records.colorings@[c]);
            assert(records.colorings@[c].txo_idx == id);
        }
        if is_spent(records, id) {
            let c = choose|c: int|
                {
                    &&& 0 <= c < records.colorings@.len()
                    &&& (#[trigger] records.colorings@[c]).txo_idx == id
                    &&& records.colorings@[c].coloring_type is Input
                    &&& !is_part_of_failed(records, records.colorings@[c].asset_transfer_idx)
                };
            lemma_live(records, records.colorings@[c]);
            assert(is_live_input(records, records.colorings@[c]));
        }
    }
}

/// The blinded UTXOs of recipients, one after the other.
pub open spec fn utxos_of(recipients: Seq<Recipient>) -> Seq<char>
    decreases recipients.len(),
{
    if recipients.len() == 0 {
        Seq::empty()
    } else {
        utxos_of(recipients.drop_last()) + recipients.last().blinded_utxo@
    }
}

proof fn lemma_utxos(recipients: Seq<Recipient>)
    ensures
        utxos_of(recipients) == joined_utxos(recipients),
    decreases recipients.len(),
{
    if recipients.len() > 0 {
        lemma_utxos(recipients.drop_last());
    }
}

/// A send operation is told by the blinded UTXOs of the recipients of each asset, in the
/// order of their characters and so whatever the order of the assets.
pub proof fn blinded_utxos_are_put_in_order(
    recipient_map: Vec<(String, Vec<Recipient>)>,
    r: Vec<String>,
)
    requires
        call_ensures(ordered_utxos, (&recipient_map,), r),
    ensures
        forall|i: int, j: int|
            0 <= i < j < r@.len() ==> !is_ahead((#[trigger] r@[j])@, (#[trigger] r@[i])@),
        r@.map_values(|s: String| s@).to_multiset() == recipient_map@.map_values(
            |e: (String, Vec<Recipient>)| utxos_of(e.1@),
        ).to_multiset(),
{
    assert forall|i: int, j: int| 0 <= i < j < r@.len() implies !is_ahead(
        (#[trigger] r@[j])@,
        (#[trigger] r@[i])@,
    ) by {
        lemma_parts(r@[j]@, r@[i]@);
    }
    let f = |e: (String, Vec<Recipient>)| utxos_of(e.1@);
    assert(recipient_map@.map_values(f) =~= utxos_by_asset(recipient_map@)) by {
        assert forall|i: int| 0 <= i < recipient_map@.len() implies utxos_of(
            (#[trigger] recipient_map@[i]).1@,
        ) == joined_utxos(recipient_map@[i].1@) by {
            lemma_utxos(recipient_map@[i].1@);
        }
    }
}

/// The files of a transfer are kept below its directory, which is below that of the wallet.
pub proof fn files_are_kept_below_their_transfers(
    wallet_dir: &str,
    name: &str,
    dir: String,
    base: &str,
    asset_id: &str,
    info_file: String,
    psbt_file: String,
    out_file: String,
    out_path: String,
    received_file: String,
)
    requires
        call_ensures(transfer_dir, (wallet_dir, name), dir),
        call_ensures(transfer_data_file, (base,), info_file),
        call_ensures(signed_psbt_file, (base,), psbt_file),
        call_ensures(consignment_file, (base,), out_file),
        call_ensures(consignment_path, (base, asset_id), out_path),
        call_ensures(consignment_rcv_file, (base,), received_file),
    ensures
        dir@ == below(below(wallet_dir@, "transfers"@), name@),
        info_file@ == below(base@, "transfer_data.txt"@),
        psbt_file@ == below(base@, "signed.psbt"@),
        out_file@ == below(base@, "consignment_out"@),
        out_path@ == below(below(base@, asset_id@), "consignment_out"@),
        received_file@ == below(base@, "rcv_compose.rgbc"@),
{
    lemma_below(wallet_dir@, "transfers"@);
    lemma_below(below(wallet_dir@, "transfers"@), name@);
    lemma_below(base@, "transfer_data.txt"@);
    lemma_below(base@, "signed.psbt"@);
    lemma_below(base@, "consignment_out"@);
    lemma_below(base@, asset_id@);
    lemma_below(below(base@, asset_id@), "consignment_out"@);
    lemma_below(base@, "rcv_compose.rgbc"@);
}

/// A send operation works in a directory of its own, which is named by a number.
pub proof fn sends_work_in_numbered_directories(
    wallet: Wallet,
    online: Online,
    recipient_map: Vec<(String, Vec<Recipient>)>,
    donation: bool,
    records: Records,
    start: SendStart,
)
    requires
        call_ensures(
            Wallet::send_begin,
            (&wallet, &online, &recipient_map, donation, &records),
            Ok::<SendStart, WalletError>(start),
        ),
    ensures
        exists|n: u64| start.transfer_dir@ == transfer_at(wallet.dir(), #[trigger] decimal(n as nat)),
{
    let hash = choose|hash: u64|
        start.transfer_dir@ == transfer_dir_of(wallet.dir(), #[trigger] decimal(hash as nat));
    lemma_below(wallet.dir(), "transfers"@);
    lemma_below(below(wallet.dir(), "transfers"@), decimal(hash as nat));
    assert(start.transfer_dir@ == transfer_at(wallet.dir(), decimal(hash as nat)));
}

/// Whether a list holds a transfer of an asset.
pub open spec fn holds_asset(transfers: Seq<(String, InfoAssetTransfer)>, asset_id: Seq<char>) -> bool {
    exists|i: int| 0 <= i < transfers.len() && (#[trigger] transfers[i]).0@ == asset_id
}

/// An asset has its last transfer in a list, and no other. The transfers of other assets
/// stay, no asset is added but this one, and they stand in the order of their IDs.
pub proof fn assets_have_one_transfer_each(
    transfers: &mut Vec<(String, InfoAssetTransfer)>,
    asset_id: String,
    info: InfoAssetTransfer,
)
    requires
        call_ensures(insert_transfer, (transfers, asset_id, info), ()),
    ensures
        forall|i: int, j: int|
            0 <= i < j < final(transfers)@.len() ==> is_ahead(
                (#[trigger] final(transfers)@[i]).0@,
                (#[trigger] final(transfers)@[j]).0@,
            ),
        exists|i: int|
            0 <= i < final(transfers)@.len() && (#[trigger] final(transfers)@[i]).0@ == asset_id@
                && final(transfers)@[i].1 == info,
        forall|j: int|
            0 <= j < old(transfers)@.len() && (#[trigger] old(transfers)@[j]).0@ != asset_id@
                ==> final(transfers)@.contains(old(transfers)@[j]),
        final(transfers)@.len() == old(transfers)@.len() + if holds_asset(
            old(transfers)@,
            asset_id@,
        ) {
            0int
        } else {
            1
        },
{
    let before = old(transfers)@;
    let after = final(transfers)@;
    assert(holds_asset(before, asset_id@) == has_asset(before, asset_id@));
    assert forall|i: int, j: int| 0 <= i < j < after.len() implies is_ahead(
        (#[trigger] after[i]).0@,
        (#[trigger] after[j]).0@,
    ) by {
        lemma_parts(after[i].0@, after[j].0@);
    }
    if has_asset(before, asset_id@) {
        let i = choose|i: int|
            0 <= i < before.len() && (#[trigger] before[i]).0@ == asset_id@ && after
                == before.update(i, (before[i].0, info));
        assert(after[i].0@ == asset_id@);
        assert forall|j: int| 0 <= j < before.len() && (#[trigger] before[j]).0@
            != asset_id@ implies after.contains(before[j]) by {
            assert(after[j] == before[j]);
        }
    } else {
        let i = choose|i: int|
            0 <= i <= before.len() && after == #[trigger] before.insert(i, (asset_id, info));
        assert(after[i].0@ == asset_id@);
        assert forall|j: int| 0 <= j < before.len() && (#[trigger] before[j]).0@
            != asset_id@ implies after.contains(before[j]) by {
            if j < i {
                assert(after[j] == before[j]);
            } else {
                assert(after[j + 1] == before[j]);
            }
        }
    }
}

} // verus!
