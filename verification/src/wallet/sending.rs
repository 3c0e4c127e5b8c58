//! The course of a send operation.

use std::collections::hash_map::DefaultHasher;
use std::hash::{BuildHasher, BuildHasherDefault};

use vstd::prelude::*;

use crate::chain::{
    all_valid, holds_output, is_txid, psbt_of_text, read_own_psbt, read_signed_psbt,
    sort_outpoints, strictly_ordered, PsbtContents,
};
use crate::database::plans::NewBatchTransfer;
use crate::database::records::{
    asset_transfers_with_status, asset_with, get_asset_or_fail, in_batch_with_status, Records,
};
use crate::database::{ColoringType, DbAsset, DbColoring, DbTxo, LocalUnspent};
use crate::error::{InternalError, WalletError};
use crate::rgb_data::psbt_text;
use crate::seqs::{has_id, sum, total};
use crate::text::{
    decimal, is_before, lemma_before_irreflexive, lemma_before_total, lemma_before_transitive,
    path_of, text_before, u64_to_string,
};
use crate::wallet::compose::get_psbt_text;
use crate::wallet::paths::{
    consignment_path, consignment_path_of, signed_psbt_file, transfer_data_file, transfer_dir, transfer_dir_of,
};
use crate::wallet::send::{
    amount_on, inputs_are_payment_and_change, no_input_is_superfluous, payers, recipient_amounts,
    records_batch, save_transfers, select_rgb_inputs, spends, spent_amounts, AssetSpend,
    InfoAssetTransfer, InfoBatchTransfer, DURATION_SEND_TRANSFER,
};
use crate::wallet::types::{opt_text, Online, Outpoint, Recipient, TransferStatus};
use crate::wallet::Wallet;

verus! {

/// Whether an output is an input of a transfer that has not failed.
pub open spec fn live_input(records: Records, txo_idx: i64) -> bool {
    exists|i: int|
        0 <= i < records.colorings@.len() && is_live_input(
            records,
            #[trigger] records.colorings@[i],
        ) && records.colorings@[i].txo_idx == txo_idx
}

/// Whether a coloring marks an input of a transfer that has not failed.
pub open spec fn is_live_input(records: Records, c: DbColoring) -> bool {
    c.coloring_type is Input && !in_batch_with_status(
        records.asset_transfers@,
        records.batch_transfers@,
        c.asset_transfer_idx,
        TransferStatus::Failed,
    )
}

/// Gives the outputs that are inputs of transfers that have not failed.
pub fn live_inputs(records: &Records) -> (r: Vec<i64>)
    ensures
        forall|id: i64| #[trigger] r@.contains(id) <==> live_input(*records, id),
{
    let failed: Vec<i64> = asset_transfers_with_status(
        &records.asset_transfers,
        &records.batch_transfers,
        TransferStatus::Failed,
    );
    let mut ids: Vec<i64> = Vec::new();
    let mut i: usize = 0;
    while i < records.colorings.len()
        invariant
            i <= records.colorings.len(),
            forall|id: i64| #[trigger]
                failed@.contains(id) <==> in_batch_with_status(
                    records.asset_transfers@,
                    records.batch_transfers@,
                    id,
                    TransferStatus::Failed,
                ),
            forall|id: i64| #[trigger]
                ids@.contains(id) <==> exists|k: int|
                    0 <= k < i && is_live_input(*records, #[trigger] records.colorings@[k])
                        && records.colorings@[k].txo_idx == id,
        decreases records.colorings.len() - i,
    {
        let ghost before = ids@;
        let ghost c = records.colorings@[i as int];
        assert(failed@.contains(c.asset_transfer_idx) <==> in_batch_with_status(
            records.asset_transfers@,
            records.batch_transfers@,
            c.asset_transfer_idx,
            TransferStatus::Failed,
        ));
        if matches!(records.colorings[i].coloring_type, ColoringType::Input) && !has_id(
            &failed,
            records.colorings[i].asset_transfer_idx,
        ) {
            ids.push(records.colorings[i].txo_idx);
        }
        proof {
            assert forall|id: i64| #[trigger] ids@.contains(id) <==> exists|k: int|
                0 <= k < i + 1 && is_live_input(*records, #[trigger] records.colorings@[k])
                    && records.colorings@[k].txo_idx == id by {
                assert(before.contains(id) <==> exists|k: int|
                    0 <= k < i && is_live_input(*records, #[trigger] records.colorings@[k])
                        && records.colorings@[k].txo_idx == id);
                if before.contains(id) {
                    let k = choose|k: int| 0 <= k < before.len() && before[k] == id;
                    assert(ids@[k] == id);
                }
                if ids@.contains(id) {
                    let k = choose|k: int| 0 <= k < ids@.len() && ids@[k] == id;
                    if k < before.len() {
                        assert(before[k] == id);
                    } else {
                        assert(is_live_input(*records, records.colorings@[i as int]));
                    }
                }
                if is_live_input(*records, c) && c.txo_idx == id {
                    assert(ids@[before.len() as int] == id);
                }
            }
        }
        i += 1;
    }
    ids
}

/// The blinded UTXOs of recipients, one after the other.
pub open spec fn joined_utxos(recipients: Seq<Recipient>) -> Seq<char>
    decreases recipients.len(),
{
    if recipients.len() == 0 {
        Seq::empty()
    } else {
        joined_utxos(recipients.drop_last()) + recipients.last().blinded_utxo@
    }
}

fn join_utxos(recipients: &Vec<Recipient>) -> (r: String)
    ensures
        r@ == joined_utxos(recipients@),
{
    proof {
        reveal_strlit("");
    }
    let mut text: String = "".to_owned();
    let mut i: usize = 0;
    assert(recipients@.take(0) =~= Seq::<Recipient>::empty());
    assert(text@ =~= joined_utxos(recipients@.take(0)));
    while i < recipients.len()
        invariant
            i <= recipients.len(),
            text@ == joined_utxos(recipients@.take(i as int)),
        decreases recipients.len() - i,
    {
        assert(recipients@.take(i + 1).drop_last() =~= recipients@.take(i as int));
        text.append(recipients[i].blinded_utxo.as_str());
        i += 1;
    }
    assert(recipients@.take(i as int) =~= recipients@);
    text
}

/// The characters of each of a list of texts.
pub open spec fn texts_of(texts: Seq<String>) -> Seq<Seq<char>> {
    texts.map_values(|s: String| s@)
}

/// Whether texts stand in their order.
pub open spec fn texts_ordered(texts: Seq<String>) -> bool {
    forall|i: int, j: int|
        0 <= i < j < texts.len() ==> !text_before((#[trigger] texts[j])@, (#[trigger] texts[i])@)
}

fn insert_text(texts: &mut Vec<String>, text: String)
    requires
        texts_ordered(old(texts)@),
    ensures
        texts_ordered(final(texts)@),
        texts_of(final(texts)@).to_multiset() == texts_of(old(texts)@).to_multiset().insert(
            text@,
        ),
{
    let ghost before = texts@;
    let mut i: usize = 0;
    while i < texts.len() && !is_before(text.as_str(), texts[i].as_str())
        invariant
            i <= texts.len(),
            texts@ == before,
            texts_ordered(before),
            forall|k: int| 0 <= k < i ==> !text_before(text@, (#[trigger] before[k])@),
        decreases texts.len() - i,
    {
        i += 1;
    }
    let ghost new = text;
    texts.insert(i, text);
    proof {
        let at = i as int;
        let after = texts@;
        assert forall|k: int| at <= k < before.len() implies !text_before(
            (#[trigger] before[k])@,
            new@,
        ) by {
            assert(text_before(new@, before[at]@));
            if text_before(before[k]@, new@) {
                lemma_before_transitive(before[k]@, new@, before[at]@);
                if k == at {
                    lemma_before_irreflexive(before[at]@);
                }
            }
        }
        assert forall|a: int, b: int| 0 <= a < b < after.len() implies !text_before(
            (#[trigger] after[b])@,
            (#[trigger] after[a])@,
        ) by {
            if b < at {
                assert(after[a] == before[a] && after[b] == before[b]);
            } else if b == at {
                assert(after[a] == before[a]);
            } else if a < at {
                assert(after[a] == before[a] && after[b] == before[b - 1]);
            } else if a == at {
                assert(after[b] == before[b - 1]);
            } else {
                assert(after[a] == before[a - 1] && after[b] == before[b - 1]);
            }
        }
        let x = texts_of(after);
        let y = texts_of(before);
        assert(x.remove(at) =~= y);
        vstd::seq_lib::to_multiset_remove(x, at);
        x.to_multiset_ensures();
        assert(x.contains(x[at]));
        assert(x.to_multiset() =~= y.to_multiset().insert(new@));
    }
}

/// The blinded UTXOs of the recipients of each asset, one after the other.
pub open spec fn utxos_by_asset(recipient_map: Seq<(String, Vec<Recipient>)>) -> Seq<Seq<char>> {
    recipient_map.map_values(|e: (String, Vec<Recipient>)| joined_utxos(e.1@))
}

/// Gives the blinded UTXOs of the recipients of each asset, one after the other and
/// in order.
pub fn ordered_utxos(recipient_map: &Vec<(String, Vec<Recipient>)>) -> (r: Vec<String>)
    ensures
        texts_ordered(r@),
        texts_of(r@).to_multiset() == utxos_by_asset(recipient_map@).to_multiset(),
{
    let ghost all = utxos_by_asset(recipient_map@);
    let mut texts: Vec<String> = Vec::new();
    let mut i: usize = 0;
    assert(texts_of(texts@) =~= all.take(0));
    while i < recipient_map.len()
        invariant
            i <= recipient_map.len(),
            all == utxos_by_asset(recipient_map@),
            texts_ordered(texts@),
            texts_of(texts@).to_multiset() == all.take(i as int).to_multiset(),
        decreases recipient_map.len() - i,
    {
        let text: String = join_utxos(&recipient_map[i].1);
        proof {
            assert(all[i as int] == text@);
            assert(all.take(i + 1) =~= all.take(i as int).push(text@));
            vstd::seq_lib::to_multiset_build(all.take(i as int), text@);
        }
        insert_text(&mut texts, text);
        i += 1;
    }
    assert(all.take(i as int) =~= all);
    texts
}

/// Calls `BuildHasher::hash_one` of `DefaultHasher`. How that hasher works is not
/// specified, and what it is fed depends on the width of `usize`, so nothing is told
/// of the number.
#[verifier::external_body]
fn hash_texts(texts: &Vec<String>) -> (r: u64) {
    BuildHasherDefault::<DefaultHasher>::default().hash_one(texts)
}

/// What a send operation starts with.
#[derive(Debug, PartialEq, Eq)]
pub struct SendStart {
    /// The directory of the transfer, until it has a transaction
    pub transfer_dir: String,
    /// The outputs that must not pay
    pub unspendable_txo_ids: Vec<i64>,
    /// Whether the transaction is broadcast without waiting for the recipients
    pub donation: bool,
}

/// How a send operation starts.
pub open spec fn send_started(
    r: Result<SendStart, WalletError>,
    online: bool,
    wallet_dir: Seq<char>,
    records: Records,
    donation: bool,
) -> bool {
    &&& (r matches Err(WalletError::InvalidOnline)) <==> !online
    &&& r is Ok <==> online
    &&& r matches Ok(start) ==> {
        &&& start.donation == donation
        &&& exists|hash: u64|
            start.transfer_dir@ == transfer_dir_of(wallet_dir, #[trigger] decimal(hash as nat))
        &&& forall|id: i64| #[trigger]
            start.unspendable_txo_ids@.contains(id) <==> live_input(records, id)
    }
}

/// Gives the amount of an asset that its recipients ask for, where the asset is
/// known.
pub fn requested_amount(assets: &Vec<DbAsset>, asset_id: &String, recipients: &Vec<Recipient>) -> (r:
    Result<u64, WalletError>)
    requires
        asset_with(assets@, asset_id@) is Some ==> sum(recipient_amounts(recipients@)) <= u64::MAX,
    ensures
        ({
            let known = asset_with(assets@, asset_id@) is Some;
            &&& !known ==> (r matches Err(WalletError::AssetNotFound(id)) && id@ == asset_id@)
            &&& known ==> (r matches Ok(amount) && amount == sum(recipient_amounts(recipients@)))
        }),
{
    match get_asset_or_fail(assets, asset_id) {
        Err(e) => {
            return Err(e);
        },
        Ok(_) => {},
    }
    let mut amounts: Vec<u64> = Vec::new();
    let mut i: usize = 0;
    while i < recipients.len()
        invariant
            i <= recipients.len(),
            amounts@ == recipient_amounts(recipients@.take(i as int)),
        decreases recipients.len() - i,
    {
        amounts.push(recipients[i].amount);
        i += 1;
        assert(amounts@ =~= recipient_amounts(recipients@.take(i as int)));
    }
    assert(recipients@.take(i as int) =~= recipients@);
    Ok(total(&amounts))
}

/// Whether transfers of assets are ordered by the IDs of the assets, each of which
/// occurs once.
pub open spec fn assets_ordered(transfers: Seq<(String, InfoAssetTransfer)>) -> bool {
    forall|i: int, j: int|
        0 <= i < j < transfers.len() ==> text_before(
            (#[trigger] transfers[i]).0@,
            (#[trigger] transfers[j]).0@,
        )
}

/// Whether there is a transfer of an asset among transfers.
pub open spec fn has_asset(transfers: Seq<(String, InfoAssetTransfer)>, asset_id: Seq<char>) -> bool {
    exists|i: int| 0 <= i < transfers.len() && (#[trigger] transfers[i]).0@ == asset_id
}

/// Puts the transfer of an asset into its place, or takes the place of an earlier
/// one of the asset.
pub fn insert_transfer(
    transfers: &mut Vec<(String, InfoAssetTransfer)>,
    asset_id: String,
    info: InfoAssetTransfer,
)
    requires
        assets_ordered(old(transfers)@),
    ensures
        assets_ordered(final(transfers)@),
        has_asset(old(transfers)@, asset_id@) ==> exists|i: int|
            0 <= i < old(transfers)@.len() && (#[trigger] old(transfers)@[i]).0@ == asset_id@
                && final(transfers)@ == old(transfers)@.update(i, (old(transfers)@[i].0, info)),
        !has_asset(old(transfers)@, asset_id@) ==> exists|i: int|
            0 <= i <= old(transfers)@.len() && final(transfers)@ == #[trigger] old(
                transfers,
            )@.insert(i, (asset_id, info)),
{
    let ghost before = transfers@;
    let mut i: usize = 0;
    while i < transfers.len()
        invariant
            i <= transfers.len(),
            transfers@ == before,
            before == old(transfers)@,
            assets_ordered(before),
            forall|k: int| 0 <= k < i ==> text_before((#[trigger] before[k]).0@, asset_id@),
        decreases transfers.len() - i,
    {
        if transfers[i].0 == asset_id {
            let key: String = transfers[i].0.clone();
            transfers.set(i, (key, info));
            proof {
                let after = transfers@;
                assert(after =~= before.update(i as int, (before[i as int].0, info)));
                assert(before[i as int].0@ == asset_id@);
                assert forall|a: int, b: int| 0 <= a < b < after.len() implies text_before(
                    (#[trigger] after[a]).0@,
                    (#[trigger] after[b]).0@,
                ) by {
                    assert(text_before(before[a].0@, before[b].0@));
                }
            }
            return;
        }
        if is_before(asset_id.as_str(), transfers[i].0.as_str()) {
            let ghost new = (asset_id, info);
            transfers.insert(i, (asset_id, info));
            proof {
                lemma_asset_added(before, i as int, new);
            }
            return;
        }
        proof {
            lemma_before_total(asset_id@, before[i as int].0@);
        }
        i += 1;
    }
    let ghost new = (asset_id, info);
    transfers.push((asset_id, info));
    proof {
        assert(transfers@ =~= before.insert(before.len() as int, new));
        lemma_asset_added(before, before.len() as int, new);
    }
}

proof fn lemma_asset_added(
    before: Seq<(String, InfoAssetTransfer)>,
    at: int,
    new: (String, InfoAssetTransfer),
)
    requires
        assets_ordered(before),
        0 <= at <= before.len(),
        forall|k: int| 0 <= k < at ==> text_before((#[trigger] before[k]).0@, new.0@),
        at < before.len() ==> text_before(new.0@, before[at].0@),
    ensures
        assets_ordered(before.insert(at, new)),
        !has_asset(before, new.0@),
{
    let after = before.insert(at, new);
    assert forall|k: int| at <= k < before.len() implies text_before(
        new.0@,
        (#[trigger] before[k]).0@,
    ) by {
        if k > at {
            lemma_before_transitive(new.0@, before[at].0@, before[k].0@);
        }
    }
    lemma_before_irreflexive(new.0@);
    assert forall|a: int, b: int| 0 <= a < b < after.len() implies text_before(
        (#[trigger] after[a]).0@,
        (#[trigger] after[b]).0@,
    ) by {
        if b < at {
            assert(after[a] == before[a] && after[b] == before[b]);
        } else if b == at {
            assert(after[a] == before[a]);
        } else if a < at {
            assert(after[a] == before[a] && after[b] == before[b - 1]);
        } else if a == at {
            assert(after[b] == before[b - 1]);
        } else {
            assert(after[a] == before[a - 1] && after[b] == before[b - 1]);
        }
    }
    if has_asset(before, new.0@) {
        let k = choose|k: int| 0 <= k < before.len() && (#[trigger] before[k]).0@ == new.0@;
        if k < at {
            assert(text_before(before[k].0@, new.0@));
        } else {
            assert(text_before(new.0@, before[k].0@));
        }
    }
}

/// What the recipients of an asset ask for.
pub open spec fn amount_asked(entry: (String, Vec<Recipient>)) -> nat {
    sum(recipient_amounts(entry.1@))
}

/// Whether no asset has two entries.
pub open spec fn assets_differ(recipient_map: Seq<(String, Vec<Recipient>)>) -> bool {
    forall|i: int, j: int|
        0 <= i < j < recipient_map.len() ==> (#[trigger] recipient_map[i]).0@ != (
        #[trigger] recipient_map[j]).0@
}

/// Whether the amounts of an asset that are asked for, and that the outputs which pay
/// for them hold, can be counted.
pub open spec fn countable(entry: (String, Vec<Recipient>), offered: Seq<LocalUnspent>) -> bool {
    &&& amount_asked(entry) <= u64::MAX
    &&& amount_on(payers(offered, entry.0@, amount_asked(entry) as u64), entry.0@) <= u64::MAX
}

/// Whether an asset can be sent: it is known, and the offered outputs hold enough of
/// it.
pub open spec fn can_send(
    assets: Seq<DbAsset>,
    entry: (String, Vec<Recipient>),
    offered: Seq<LocalUnspent>,
) -> bool {
    let amount = amount_asked(entry) as u64;
    asset_with(assets, entry.0@) is Some && amount_on(
        payers(offered, entry.0@, amount),
        entry.0@,
    ) >= amount
}

/// Whether a transfer sends an asset to its recipients, and is paid for by offered
/// outputs.
pub open spec fn sends(
    t: (String, InfoAssetTransfer),
    entry: (String, Vec<Recipient>),
    offered: Seq<LocalUnspent>,
) -> bool {
    let amount = amount_asked(entry) as u64;
    &&& t.0@ == entry.0@
    &&& t.1.recipients@ == entry.1@
    &&& spends(t.1.asset_spend, payers(offered, entry.0@, amount), entry.0@, amount)
}

/// Whether an error tells why the first asset that cannot be sent cannot.
pub open spec fn tells_unsendable(
    e: WalletError,
    assets: Seq<DbAsset>,
    recipient_map: Seq<(String, Vec<Recipient>)>,
    offered: Seq<Vec<LocalUnspent>>,
    k: int,
) -> bool {
    &&& 0 <= k < recipient_map.len()
    &&& !can_send(assets, recipient_map[k], offered[k]@)
    &&& forall|i: int|
        0 <= i < k ==> can_send(assets, #[trigger] recipient_map[i], offered[i]@)
    &&& if asset_with(assets, recipient_map[k].0@) is None {
        e matches WalletError::AssetNotFound(id) && id@ == recipient_map[k].0@
    } else {
        e is InsufficientAssets
    }
}

/// Whether there is a transfer for an entry of the recipient map.
pub open spec fn is_sent(
    transfers: Seq<(String, InfoAssetTransfer)>,
    entry: (String, Vec<Recipient>),
    offered: Seq<LocalUnspent>,
) -> bool {
    exists|j: int| 0 <= j < transfers.len() && sends(#[trigger] transfers[j], entry, offered)
}

/// Whether an asset has an entry.
spec fn has_entry(entries: Seq<(String, Vec<Recipient>)>, asset_id: Seq<char>) -> bool {
    exists|k: int| 0 <= k < entries.len() && (#[trigger] entries[k]).0@ == asset_id
}

/// Chooses the outputs that pay for each asset, among those that are offered for it.
///
/// The transfers come back in the order of the IDs of their assets.
pub fn choose_inputs(
    assets: &Vec<DbAsset>,
    recipient_map: Vec<(String, Vec<Recipient>)>,
    offered: &Vec<Vec<LocalUnspent>>,
) -> (r: Result<Vec<(String, InfoAssetTransfer)>, WalletError>)
    requires
        offered@.len() == recipient_map@.len(),
        assets_differ(recipient_map@),
        forall|i: int|
            0 <= i < recipient_map@.len() ==> countable(
                #[trigger] recipient_map@[i],
                offered@[i]@,
            ),
    ensures
        r is Ok <==> forall|i: int|
            0 <= i < recipient_map@.len() ==> can_send(
                assets@,
                #[trigger] recipient_map@[i],
                offered@[i]@,
            ),
        r matches Err(e) ==> exists|k: int| #[trigger]
            tells_unsendable(e, assets@, recipient_map@, offered@, k),
        r matches Ok(transfers) ==> {
            &&& transfers@.len() == recipient_map@.len()
            &&& assets_ordered(transfers@)
            &&& forall|i: int|
                0 <= i < recipient_map@.len() ==> is_sent(
                    transfers@,
                    #[trigger] recipient_map@[i],
                    offered@[i]@,
                )
        },
{
    let ghost all = recipient_map@;
    let mut transfers: Vec<(String, InfoAssetTransfer)> = Vec::new();
    let n: usize = offered.len();
    let mut i: usize = 0;
    for entry in it: recipient_map.into_iter()
        invariant
            it.seq() == all,
            all == recipient_map@,
            i == it.index(),
            n == all.len(),
            offered@.len() == n,
            assets_differ(all),
            forall|k: int| 0 <= k < all.len() ==> countable(#[trigger] all[k], offered@[k]@),
            forall|k: int| 0 <= k < i ==> can_send(assets@, #[trigger] all[k], offered@[k]@),
            transfers@.len() == i,
            assets_ordered(transfers@),
            forall|k: int|
                0 <= k < i ==> is_sent(transfers@, #[trigger] all[k], offered@[k]@),
            forall|j: int|
                0 <= j < transfers@.len() ==> has_entry(
                    all.take(i as int),
                    (#[trigger] transfers@[j]).0@,
                ),
    {
        assert(entry == all[i as int]);
        assert(countable(all[i as int], offered@[i as int]@));
        let (asset_id, recipients): (String, Vec<Recipient>) = entry;
        let amount: u64 = match requested_amount(assets, &asset_id, &recipients) {
            Err(e) => {
                assert(tells_unsendable(e, assets@, all, offered@, i as int));
                return Err(e);
            },
            Ok(amount) => amount,
        };
        let asset_spend: AssetSpend = match select_rgb_inputs(&offered[i], &asset_id, amount) {
            Err(e) => {
                assert(tells_unsendable(e, assets@, all, offered@, i as int));
                return Err(e);
            },
            Ok(asset_spend) => asset_spend,
        };
        let ghost before = transfers@;
        let ghost id = asset_id;
        let info: InfoAssetTransfer = InfoAssetTransfer { recipients, asset_spend };
        proof {
            if has_asset(before, id@) {
                let j = choose|j: int| 0 <= j < before.len() && (#[trigger] before[j]).0@ == id@;
                let head = all.take(i as int);
                let k = choose|k: int| 0 <= k < head.len() && (#[trigger] head[k]).0@ == id@;
                assert(head[k] == all[k]);
                assert(all[k].0@ != all[i as int].0@);
            }
        }
        insert_transfer(&mut transfers, asset_id, info);
        proof {
            let at = choose|at: int|
                0 <= at <= before.len() && transfers@ == #[trigger] before.insert(at, (id, info));
            lemma_entry_sent(before, transfers@, at, (id, info), all, offered@, i as int);
        }
        i += 1;
    }
    Ok(transfers)
}

proof fn lemma_entry_sent(
    before: Seq<(String, InfoAssetTransfer)>,
    after: Seq<(String, InfoAssetTransfer)>,
    at: int,
    new: (String, InfoAssetTransfer),
    all: Seq<(String, Vec<Recipient>)>,
    offered: Seq<Vec<LocalUnspent>>,
    i: int,
)
    requires
        0 <= at <= before.len(),
        0 <= i < all.len(),
        after == before.insert(at, new),
        sends(new, all[i], offered[i]@),
        forall|k: int| 0 <= k < i ==> is_sent(before, #[trigger] all[k], offered[k]@),
        forall|j: int|
            0 <= j < before.len() ==> has_entry(all.take(i), (#[trigger] before[j]).0@),
    ensures
        forall|k: int| 0 <= k <= i ==> is_sent(after, #[trigger] all[k], offered[k]@),
        forall|j: int|
            0 <= j < after.len() ==> has_entry(all.take(i + 1), (#[trigger] after[j]).0@),
{
    assert(after[at] == new);
    assert forall|k: int| 0 <= k <= i implies is_sent(after, #[trigger] all[k], offered[k]@) by {
        if k < i {
            let j = choose|j: int|
                0 <= j < before.len() && sends(#[trigger] before[j], all[k], offered[k]@);
            if j < at {
                assert(after[j] == before[j]);
            } else {
                assert(after[j + 1] == before[j]);
            }
        }
    }
    let head = all.take(i);
    let longer = all.take(i + 1);
    assert forall|j: int| 0 <= j < after.len() implies has_entry(
        longer,
        (#[trigger] after[j]).0@,
    ) by {
        if j == at {
            assert(longer[i].0@ == after[j].0@);
        } else {
            let b = if j < at {
                j
            } else {
                j - 1
            };
            assert(after[j] == before[b]);
            let k = choose|k: int|
                0 <= k < head.len() && (#[trigger] head[k]).0@ == before[b].0@;
            assert(longer[k] == head[k]);
        }
    }
}

/// What the inputs of each transfer hold is what its recipients get and the change.
pub proof fn chosen_inputs_balance(
    t: (String, InfoAssetTransfer),
    entry: (String, Vec<Recipient>),
    offered: Seq<LocalUnspent>,
)
    requires
        countable(entry, offered),
        sends(t, entry, offered),
    ensures
        sum(spent_amounts(t.1.asset_spend)) == sum(recipient_amounts(t.1.recipients@))
            + t.1.asset_spend.change_amount,
{
    inputs_are_payment_and_change(
        t.1.asset_spend,
        offered,
        entry.0@,
        amount_asked(entry) as u64,
    );
}

/// The inputs of transfers, one after the other.
pub open spec fn inputs_of(transfers: Seq<(String, InfoAssetTransfer)>) -> Seq<Outpoint>
    decreases transfers.len(),
{
    if transfers.len() == 0 {
        Seq::empty()
    } else {
        inputs_of(transfers.drop_last()) + transfers.last().1.asset_spend.input_outpoints@
    }
}

/// Whether the transaction IDs of all inputs of transfers are valid.
pub open spec fn inputs_valid(transfers: Seq<(String, InfoAssetTransfer)>) -> bool {
    forall|i: int|
        0 <= i < transfers.len() ==> all_valid(
            (#[trigger] transfers[i]).1.asset_spend.input_outpoints@,
        )
}

/// Gives the inputs of all transfers, in order and each of them once.
pub fn get_all_inputs(transfers: &Vec<(String, InfoAssetTransfer)>) -> (r: Vec<Outpoint>)
    requires
        inputs_valid(transfers@),
    ensures
        strictly_ordered(r@),
        all_valid(r@),
        forall|o: (Seq<char>, u32)|
            #[trigger] holds_output(r@, o) <==> holds_output(inputs_of(transfers@), o),
        forall|i: int| 0 <= i < r@.len() ==> inputs_of(transfers@).contains(#[trigger] r@[i]),
{
    let mut inputs: Vec<Outpoint> = Vec::new();
    let mut i: usize = 0;
    assert(transfers@.take(0) =~= Seq::<(String, InfoAssetTransfer)>::empty());
    while i < transfers.len()
        invariant
            i <= transfers.len(),
            inputs_valid(transfers@),
            inputs@ == inputs_of(transfers@.take(i as int)),
            all_valid(inputs@),
        decreases transfers.len() - i,
    {
        let own: &Vec<Outpoint> = &transfers[i].1.asset_spend.input_outpoints;
        let ghost start = inputs@;
        let mut j: usize = 0;
        assert(all_valid(transfers@[i as int].1.asset_spend.input_outpoints@));
        assert(start + own@.take(0) =~= start);
        while j < own.len()
            invariant
                j <= own.len(),
                all_valid(own@),
                inputs@ == start + own@.take(j as int),
                all_valid(inputs@),
            decreases own.len() - j,
        {
            let ghost before = inputs@;
            inputs.push(own[j].clone());
            j += 1;
            proof {
                assert(inputs@ =~= start + own@.take(j as int));
                assert(is_txid(own@[j - 1].txid@));
                assert forall|k: int| 0 <= k < inputs@.len() implies is_txid(
                    (#[trigger] inputs@[k]).txid@,
                ) by {
                    if k < before.len() {
                        assert(inputs@[k] == before[k]);
                    }
                }
            }
        }
        proof {
            assert(own@.take(j as int) =~= own@);
            assert(transfers@.take(i + 1).drop_last() =~= transfers@.take(i as int));
            assert(transfers@.take(i + 1).last() == transfers@[i as int]);
        }
        i += 1;
    }
    assert(transfers@.take(i as int) =~= transfers@);
    sort_outpoints(&inputs)
}

/// A prepared PSBT and the directory of its transfer.
#[derive(Debug, PartialEq, Eq)]
pub struct PreparedSend {
    /// The PSBT, ready to be signed
    pub psbt: String,
    /// The directory of the transfer, which is named by its transaction
    pub transfer_dir: String,
}

/// Whether a result is the text of a prepared PSBT and the directory that its
/// transfer moves to.
pub open spec fn send_prepared(
    r: Result<PreparedSend, WalletError>,
    wallet_dir: Seq<char>,
    psbt: Seq<u8>,
) -> bool {
    let text = psbt_text(psbt);
    let contents = psbt_of_text(text->0);
    &&& (r matches Err(WalletError::Internal(InternalError::RgbData))) <==> text is None
    &&& (r matches Err(WalletError::Internal(InternalError::PsbtParse(_)))) <==> text is Some
        && contents is None
    &&& r is Ok <==> text is Some && contents is Some
    &&& r matches Ok(done) ==> {
        &&& text == Some(done.psbt@)
        &&& done.transfer_dir@ == transfer_dir_of(wallet_dir, (contents->0).1)
    }
}

/// Gives the text of a prepared PSBT and the directory that its transfer moves to.
pub fn prepared_send(wallet_dir: &str, psbt: &Vec<u8>) -> (r: Result<PreparedSend, WalletError>)
    ensures
        send_prepared(r, wallet_dir@, psbt@),
{
    let text: String = match get_psbt_text(psbt) {
        Err(e) => {
            return Err(e);
        },
        Ok(text) => text,
    };
    match read_own_psbt(text.as_str()) {
        Err(e) => Err(e),
        Ok(contents) => Ok(
            PreparedSend {
                psbt: text,
                transfer_dir: transfer_dir(wallet_dir, contents.txid.as_str()),
            },
        ),
    }
}

/// What the second half of a send operation starts with.
#[derive(Debug, PartialEq, Eq)]
pub struct SignedSend {
    /// What the signed PSBT holds
    pub psbt: PsbtContents,
    /// The directory of the transfer
    pub transfer_dir: String,
    /// The file for the signed PSBT
    pub psbt_file: String,
    /// The file with what was decided when the PSBT was prepared
    pub info_file: String,
}

/// How the second half of a send operation starts.
pub open spec fn signed_send_started(
    r: Result<SignedSend, WalletError>,
    online: bool,
    wallet_dir: Seq<char>,
    signed_psbt: Seq<char>,
) -> bool {
    let contents = psbt_of_text(signed_psbt);
    &&& (r matches Err(WalletError::InvalidOnline)) <==> !online
    &&& (r matches Err(WalletError::InvalidPsbt(_))) <==> online && contents is None
    &&& r is Ok <==> online && contents is Some
    &&& r matches Ok(started) ==> {
        &&& contents == Some(started.psbt@)
        &&& started.transfer_dir@ == transfer_dir_of(wallet_dir, started.psbt.txid@)
        &&& started.psbt_file@ == path_of(started.transfer_dir@, "signed.psbt"@)
        &&& started.info_file@ == path_of(started.transfer_dir@, "transfer_data.txt"@)
    }
}

/// The status that a transfer is stored with: a donation is broadcast at once and
/// waits for its confirmations, any other transfer waits for its recipients.
pub open spec fn first_status(donation: bool) -> TransferStatus {
    if donation {
        TransferStatus::WaitingConfirmations
    } else {
        TransferStatus::WaitingCounterparty
    }
}

/// The consignments to post for the recipients of an asset: for whom, and which file.
pub open spec fn asset_postings(dir: Seq<char>, transfer: (String, InfoAssetTransfer)) -> Seq<
    (Seq<char>, Seq<char>),
> {
    transfer.1.recipients@.map_values(
        |r: Recipient| (r.blinded_utxo@, consignment_path_of(dir, transfer.0@)),
    )
}

/// The consignments to post for transfers, whose files are below a directory.
pub open spec fn postings_of(dir: Seq<char>, transfers: Seq<(String, InfoAssetTransfer)>) -> Seq<
    (Seq<char>, Seq<char>),
>
    decreases transfers.len(),
{
    if transfers.len() == 0 {
        Seq::empty()
    } else {
        postings_of(dir, transfers.drop_last()) + asset_postings(dir, transfers.last())
    }
}

/// The characters of a list of postings.
pub open spec fn posting_views(postings: Seq<(String, String)>) -> Seq<(Seq<char>, Seq<char>)> {
    postings.map_values(|p: (String, String)| (p.0@, p.1@))
}

/// Gives the consignments to post for transfers: for each recipient of each asset, its
/// blinded UTXO and the file of the consignment of the asset.
pub fn get_postings(transfer_dir: &str, transfers: &Vec<(String, InfoAssetTransfer)>) -> (r: Vec<
    (String, String),
>)
    ensures
        posting_views(r@) == postings_of(transfer_dir@, transfers@),
{
    let mut postings: Vec<(String, String)> = Vec::new();
    let mut i: usize = 0;
    assert(posting_views(postings@) =~= Seq::<(Seq<char>, Seq<char>)>::empty());
    assert(transfers@.take(0) =~= Seq::<(String, InfoAssetTransfer)>::empty());
    while i < transfers.len()
        invariant
            i <= transfers.len(),
            posting_views(postings@) == postings_of(transfer_dir@, transfers@.take(i as int)),
        decreases transfers.len() - i,
    {
        let ghost start = posting_views(postings@);
        let ghost own = asset_postings(transfer_dir@, transfers@[i as int]);
        let recipients: &Vec<Recipient> = &transfers[i].1.recipients;
        let mut k: usize = 0;
        assert(start + own.take(0) =~= start);
        while k < recipients.len()
            invariant
                i < transfers.len(),
                k <= recipients.len(),
                *recipients == transfers@[i as int].1.recipients,
                own == asset_postings(transfer_dir@, transfers@[i as int]),
                posting_views(postings@) == start + own.take(k as int),
            decreases recipients.len() - k,
        {
            let ghost before = postings@;
            let path: String = consignment_path(transfer_dir, transfers[i].0.as_str());
            let ghost posting = (recipients@[k as int].blinded_utxo@, path@);
            postings.push((recipients[k].blinded_utxo.clone(), path));
            proof {
                assert(own[k as int] == posting);
                assert(posting_views(postings@) =~= posting_views(before).push(posting));
                assert(own.take(k + 1) =~= own.take(k as int).push(posting));
            }
            k += 1;
        }
        proof {
            assert(own.take(k as int) =~= own);
            let longer = transfers@.take(i + 1);
            assert(longer.drop_last() =~= transfers@.take(i as int));
            assert(longer.last() == transfers@[i as int]);
        }
        i += 1;
    }
    assert(transfers@.take(i as int) =~= transfers@);
    postings
}

/// How many consignments are posted for the first transfers.
pub open spec fn posted_before(transfers: Seq<(String, InfoAssetTransfer)>, n: int) -> int
    decreases n,
{
    if n <= 0 {
        0
    } else {
        posted_before(transfers, n - 1) + transfers[n - 1].1.recipients@.len()
    }
}

/// Whether postings are those for the recipients of transfers, one for each of them and
/// no other.
pub open spec fn posted_once(
    postings: Seq<(Seq<char>, Seq<char>)>,
    dir: Seq<char>,
    transfers: Seq<(String, InfoAssetTransfer)>,
) -> bool {
    &&& postings.len() == posted_before(transfers, transfers.len() as int)
    &&& forall|i: int, k: int|
        0 <= i < transfers.len() && 0 <= k < transfers[i].1.recipients@.len() ==> postings[
        posted_before(transfers, i) + k] == (
            (#[trigger] transfers[i].1.recipients@[k]).blinded_utxo@,
            consignment_path_of(dir, transfers[i].0@),
        )
}

proof fn lemma_posted(dir: Seq<char>, transfers: Seq<(String, InfoAssetTransfer)>, n: int)
    requires
        0 <= n <= transfers.len(),
    ensures
        posted_once(postings_of(dir, transfers.take(n)), dir, transfers.take(n)),
        posted_before(transfers.take(n), n) == posted_before(transfers, n),
    decreases n,
{
    let head = transfers.take(n);
    if n > 0 {
        lemma_posted(dir, transfers, n - 1);
        let m = n - 1;
        let shorter = transfers.take(m);
        assert(head.drop_last() =~= shorter);
        lemma_posted_prefix(head, shorter, m);
        let before = postings_of(dir, shorter);
        let all = postings_of(dir, head);
        assert(all == before + asset_postings(dir, head.last()));
        lemma_posted_prefix(transfers, shorter, m);
        assert forall|i: int, k: int|
            0 <= i < head.len() && 0 <= k < head[i].1.recipients@.len() implies all[posted_before(
            head,
            i,
        ) + k] == (
            (#[trigger] head[i].1.recipients@[k]).blinded_utxo@,
            consignment_path_of(dir, head[i].0@),
        ) by {
            if i < m {
                assert(head[i] == shorter[i]);
                lemma_posted_prefix(head, shorter, i);
                assert(before[posted_before(shorter, i) + k] == (
                    shorter[i].1.recipients@[k].blinded_utxo@,
                    consignment_path_of(dir, shorter[i].0@),
                ));
                lemma_posted_grows(shorter, i, i);
                lemma_posted_grows(shorter, i + 1, m);
                assert(posted_before(shorter, i + 1) == posted_before(shorter, i)
                    + shorter[i].1.recipients@.len());
            } else {
                assert(posted_before(head, i) == before.len());
                assert(asset_postings(dir, head.last())[k] == (
                    head[i].1.recipients@[k].blinded_utxo@,
                    consignment_path_of(dir, head[i].0@),
                ));
            }
        }
    }
}

proof fn lemma_posted_prefix(
    a: Seq<(String, InfoAssetTransfer)>,
    b: Seq<(String, InfoAssetTransfer)>,
    n: int,
)
    requires
        0 <= n <= a.len(),
        n <= b.len(),
        forall|i: int| 0 <= i < n ==> a[i] == b[i],
    ensures
        posted_before(a, n) == posted_before(b, n),
    decreases n,
{
    if n > 0 {
        lemma_posted_prefix(a, b, n - 1);
        assert(a[n - 1] == b[n - 1]);
    }
}

proof fn lemma_posted_grows(transfers: Seq<(String, InfoAssetTransfer)>, n: int, m: int)
    requires
        0 <= n <= m,
    ensures
        0 <= posted_before(transfers, n) <= posted_before(transfers, m),
    decreases m,
{
    if n < m {
        lemma_posted_grows(transfers, n, m - 1);
    } else if n > 0 {
        lemma_posted_grows(transfers, n - 1, m - 1);
    }
}

/// How a send operation ends.
#[derive(Debug, PartialEq, Eq)]
pub struct FinishedSend {
    /// Whether the transaction is broadcast before the rows are stored
    pub broadcast: bool,
    /// The rows to store
    pub batch_transfer: NewBatchTransfer,
}

/// Whether a send operation ends as it has to.
pub open spec fn send_finished(
    r: FinishedSend,
    txid: Seq<char>,
    transfers: Seq<(String, InfoAssetTransfer)>,
    info: InfoBatchTransfer,
    now: i64,
) -> bool {
    &&& r.broadcast == info.donation
    &&& records_batch(
        r.batch_transfer,
        txid,
        transfers,
        info.blank_allocations@,
        info.change_utxo_idx,
        first_status(info.donation),
        now,
    )
}

/// Ends a send operation: tells whether to broadcast the transaction, and what to
/// store.
pub fn finish_send(
    txid: &String,
    transfer_info_map: &Vec<(String, InfoAssetTransfer)>,
    info: &InfoBatchTransfer,
    now: i64,
) -> (r: FinishedSend)
    requires
        now + DURATION_SEND_TRANSFER <= i64::MAX,
    ensures
        send_finished(r, txid@, transfer_info_map@, *info, now),
{
    let status: TransferStatus = if info.donation {
        TransferStatus::WaitingConfirmations
    } else {
        TransferStatus::WaitingCounterparty
    };
    let batch_transfer: NewBatchTransfer = save_transfers(
        txid,
        transfer_info_map,
        &info.blank_allocations,
        info.change_utxo_idx,
        status,
        now,
    );
    FinishedSend { broadcast: info.donation, batch_transfer }
}

impl Wallet {
    /// Send tokens. See the [`send_begin`](Wallet::send_begin) function for details.
    ///
    /// This is the full version, requiring a wallet with private keys
    pub fn send(
        &self,
        online: &Online,
        recipient_map: &Vec<(String, Vec<Recipient>)>,
        donation: bool,
        records: &Records,
    ) -> (r: Result<SendStart, WalletError>)
        ensures
            (r matches Err(WalletError::WatchOnly)) <==> self.data().mnemonic is None,
            self.data().mnemonic is Some ==> send_started(
                r,
                self.is_online_with(*online),
                self.dir(),
                *records,
                donation,
            ),
    {
        match self.check_xprv() {
            Err(e) => Err(e),
            Ok(()) => self.send_begin(online, recipient_map, donation, records),
        }
    }

    /// Prepare the PSBT to send tokens according to the given recipient map.
    ///
    /// The `recipient_map` maps asset IDs to a vector of [`Recipient`]s. Each recipient
    /// is specified by a `blinded_utxo` and the `amount` to send.
    ///
    /// If `donation` is true, the resulting transaction will be broadcast (by
    /// [`send_end`](Wallet::send_end)) as soon as it's ready, without the need for recipients to
    /// acknowledge the transfer.
    /// If `donation` is false, all recipients will need to ack the transfer before the transaction
    /// is broadcast (as part of [`refresh`](Wallet::refresh)).
    ///
    /// This is the first half of the partial version, requiring no private keys.
    ///
    /// Returns the directory of the transfer and the outputs that must not pay. Those that do are
    /// then chosen ([`choose_inputs`]), and the transfers are put into a PSBT
    /// ([`Preparation`](crate::wallet::prepare::Preparation))
    pub fn send_begin(
        &self,
        online: &Online,
        recipient_map: &Vec<(String, Vec<Recipient>)>,
        donation: bool,
        records: &Records,
    ) -> (r: Result<SendStart, WalletError>)
        ensures
            send_started(r, self.is_online_with(*online), self.dir(), *records, donation),
    {
        match self.check_online(online) {
            Err(e) => {
                return Err(e);
            },
            Ok(()) => {},
        }
        let hash: u64 = hash_texts(&ordered_utxos(recipient_map));
        let name: String = u64_to_string(hash);
        let wallet_dir: String = self.get_wallet_dir();
        let transfer_dir: String = transfer_dir(wallet_dir.as_str(), name.as_str());
        assert(transfer_dir@ == transfer_dir_of(self.dir(), decimal(hash as nat)));
        Ok(SendStart { transfer_dir, unspendable_txo_ids: live_inputs(records), donation })
    }

    /// Complete the send operation by saving the PSBT to disk, POSTing consignments to the proxy
    /// server, saving the transfer to DB and broadcasting the provided PSBT, if appropriate.
    ///
    /// This is the second half of the partial version. The provided PSBT, prepared with the
    /// `send_begin` function, needs to have already been signed.
    ///
    /// Returns what the PSBT holds, the txid among it, and the files to write and to read before
    /// consignments are posted ([`get_postings`]) and the operation ends ([`finish_send`])
    pub fn send_end(&self, online: &Online, signed_psbt: &str) -> (r: Result<
        SignedSend,
        WalletError,
    >)
        ensures
            signed_send_started(r, self.is_online_with(*online), self.dir(), signed_psbt@),
    {
        match self.check_online(online) {
            Err(e) => {
                return Err(e);
            },
            Ok(()) => {},
        }
        let psbt: PsbtContents = match read_signed_psbt(signed_psbt) {
            Err(e) => {
                return Err(e);
            },
            Ok(psbt) => psbt,
        };
        let wallet_dir: String = self.get_wallet_dir();
        let transfer_dir: String = transfer_dir(wallet_dir.as_str(), psbt.txid.as_str());
        let psbt_file: String = signed_psbt_file(transfer_dir.as_str());
        let info_file: String = transfer_data_file(transfer_dir.as_str());
        Ok(SignedSend { psbt, transfer_dir, psbt_file, info_file })
    }
}

/// A send operation ends in the directory that it was prepared in, where the signed
/// PSBT has the transaction of the prepared one.
pub proof fn sends_end_where_they_were_prepared(
    prepared: PreparedSend,
    psbt: Seq<u8>,
    started: SignedSend,
    signed_psbt: Seq<char>,
    wallet_dir: Seq<char>,
)
    requires
        send_prepared(Ok(prepared), wallet_dir, psbt),
        signed_send_started(Ok(started), true, wallet_dir, signed_psbt),
        (psbt_of_text(signed_psbt)->0).1 == (psbt_of_text(prepared.psbt@)->0).1,
    ensures
        started.transfer_dir@ == prepared.transfer_dir@,
{
}

/// The second half of a send operation has the transaction of the signed PSBT. The
/// consignment is posted once for each recipient of each asset. A donation is broadcast
/// and waits for its confirmations, any other transfer is not broadcast and waits for
/// its recipients. What is stored has the ID of the transaction.
pub proof fn sends_are_posted_and_recorded(
    started: SignedSend,
    signed_psbt: Seq<char>,
    wallet_dir: Seq<char>,
    transfers: Seq<(String, InfoAssetTransfer)>,
    postings: Seq<(String, String)>,
    info: InfoBatchTransfer,
    now: i64,
    finished: FinishedSend,
)
    requires
        signed_send_started(Ok(started), true, wallet_dir, signed_psbt),
        posting_views(postings) == postings_of(started.transfer_dir@, transfers),
        send_finished(finished, started.psbt.txid@, transfers, info, now),
    ensures
        started.psbt.txid@ == (psbt_of_text(signed_psbt)->0).1,
        posted_once(posting_views(postings), started.transfer_dir@, transfers),
        opt_text(finished.batch_transfer.txid) == Some(started.psbt.txid@),
        info.donation ==> finished.broadcast
            && finished.batch_transfer.status is WaitingConfirmations,
        !info.donation ==> !finished.broadcast
            && finished.batch_transfer.status is WaitingCounterparty,
{
    lemma_posted(started.transfer_dir@, transfers, transfers.len() as int);
    assert(transfers.take(transfers.len() as int) =~= transfers);
}

/// No transfer pays with an output that is an input of another transfer that has not
/// failed, where only spendable outputs are offered to it.
pub proof fn live_inputs_do_not_pay(
    records: Records,
    unspendable_txo_ids: Seq<i64>,
    asset_txos: Seq<DbTxo>,
    unspents: Seq<LocalUnspent>,
    asset_id: Seq<char>,
    amount_needed: u64,
    i: int,
)
    requires
        forall|id: i64| #[trigger]
            unspendable_txo_ids.contains(id) <==> live_input(records, id),
        forall|k: int|
            0 <= k < unspents.len() ==> asset_txos.filter(
                |t: DbTxo| !unspendable_txo_ids.contains(t.idx),
            ).contains((#[trigger] unspents[k]).utxo),
        0 <= i < payers(unspents, asset_id, amount_needed).len(),
    ensures
        !live_input(records, payers(unspents, asset_id, amount_needed)[i].utxo.idx),
{
    let p = |t: DbTxo| !unspendable_txo_ids.contains(t.idx);
    let paying = payers(unspents, asset_id, amount_needed);
    no_input_is_superfluous(unspents, asset_id, amount_needed);
    assert(unspents.contains(paying[i]));
    let k = choose|k: int| 0 <= k < unspents.len() && unspents[k] == paying[i];
    assert(asset_txos.filter(p).contains(unspents[k].utxo));
    let j = choose|j: int|
        0 <= j < asset_txos.filter(p).len() && asset_txos.filter(p)[j] == unspents[k].utxo;
    asset_txos.lemma_filter_pred(p, j);
    assert(!unspendable_txo_ids.contains(paying[i].utxo.idx));
}

} // verus!
