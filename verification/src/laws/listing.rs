//! What the wallet shows.

use vstd::prelude::*;

use crate::database::records::{batch_has_status, in_batch_with_status, Records};
use crate::database::{DbAsset, DbTransfer, DbTxo, LocalUnspent, TransferData};
use crate::error::WalletError;
use crate::laws::receiving::tells_fields;
use crate::laws::sending::{is_known, is_text, lemma_known};
use crate::laws::{is_list_of, is_part};
use crate::rgb_data::field_values;
use crate::seqs::{lemma_filter_picks, lemma_first_index};
use crate::text::parsed_u64;
use crate::wallet::listing::{
    almost_spent, asked_for, assets_known, assets_shown, contract_with, get_known_assets,
    get_outputs_to_show, get_transfers_to_show, known_to, outputs_to_show, spent_index,
    tells_foreign, transfers_to_show, with_contract_id, KnownContract,
};
use crate::wallet::receive::describes_asset;
use crate::wallet::types::{opt_text, Asset, Balance, Transfer, TransferStatus, Unspent, Utxo};
use crate::wallet::Wallet;

verus! {

/// Whether a transfer is one of an asset that the user asked for.
pub open spec fn is_asked_for(records: Records, asset_transfer: i64, asset_id: Seq<char>) -> bool {
    exists|i: int|
        {
            &&& 0 <= i < records.asset_transfers@.len()
            &&& (#[trigger] records.asset_transfers@[i]).idx == asset_transfer
            &&& records.asset_transfers@[i].user_driven
            &&& is_text(records.asset_transfers@[i].asset_id, asset_id)
        }
}

/// Of a known asset, the transfers that the user asked for are shown, all of them and in
/// their order. Those that move along with other assets are not.
pub proof fn transfers_that_the_user_asked_for_are_shown(
    records: Records,
    asset_id: String,
    r: Result<Vec<DbTransfer>, WalletError>,
) -> (at: Seq<int>)
    requires
        call_ensures(get_transfers_to_show, (&records, &asset_id), r),
    ensures
        !is_known(records.assets@, asset_id@) ==> (r matches Err(WalletError::AssetNotFound(id))
            && id@ == asset_id@),
        is_known(records.assets@, asset_id@) ==> (r matches Ok(list) && is_list_of(
            list@,
            records.transfers@,
            at,
        )),
        forall|i: int|
            0 <= i < records.transfers@.len() ==> (at.contains(i) <==> is_asked_for(
                records,
                (#[trigger] records.transfers@[i]).asset_transfer_idx,
                asset_id@,
            )),
{
    lemma_known(records.assets@, asset_id@);
    let p = |t: DbTransfer| asked_for(records.asset_transfers@, t.asset_transfer_idx, asset_id@);
    assert(transfers_to_show(records, asset_id@) == records.transfers@.filter(p));
    let at = lemma_filter_picks(records.transfers@, p);
    assert forall|i: int| 0 <= i < records.transfers@.len() implies (at.contains(i)
        <==> is_asked_for(
        records,
        (#[trigger] records.transfers@[i]).asset_transfer_idx,
        asset_id@,
    )) by {
        let id = records.transfers@[i].asset_transfer_idx;
        lemma_asked_for(records, id, asset_id@);
        if at.contains(i) {
            let k = choose|k: int| 0 <= k < at.len() && at[k] == i;
            assert(p(records.transfers@[at[k]]));
        }
        if is_asked_for(records, id, asset_id@) {
            assert(p(records.transfers@[i]));
        }
    }
    at
}

proof fn lemma_asked_for(records: Records, id: i64, asset_id: Seq<char>)
    ensures
        is_asked_for(records, id, asset_id) <==> asked_for(
            records.asset_transfers@,
            id,
            asset_id,
        ),
{
    let rows = records.asset_transfers@;
    if is_asked_for(records, id, asset_id) {
        let i = choose|i: int|
            {
                &&& 0 <= i < rows.len()
                &&& (#[trigger] rows[i]).idx == id
                &&& rows[i].user_driven
                &&& is_text(rows[i].asset_id, asset_id)
            };
        assert(opt_text(rows[i].asset_id) == Some(asset_id));
    }
    if asked_for(rows, id, asset_id) {
        let i = choose|i: int|
            0 <= i < rows.len() && (#[trigger] rows[i]).idx == id && rows[i].user_driven
                && opt_text(rows[i].asset_id) == Some(asset_id);
        assert(is_text(rows[i].asset_id, asset_id));
    }
}

/// Whether an asset transfer is part of a batch transfer that waits for its confirmations.
pub open spec fn is_part_of_waiting(records: Records, asset_transfer: i64) -> bool {
    exists|j: int| #[trigger]
        is_part(records, asset_transfer, j)
            && records.batch_transfers@[j].status is WaitingConfirmations
}

/// Whether an output is spent by a transfer that waits for its confirmations: an output
/// with its index is, and a coloring of such a transfer is on it.
pub open spec fn is_being_spent(records: Records, t: DbTxo) -> bool {
    &&& exists|k: int|
        0 <= k < records.txos@.len() && (#[trigger] records.txos@[k]).idx == t.idx
            && records.txos@[k].spent
    &&& exists|c: int|
        0 <= c < records.colorings@.len() && (#[trigger] records.colorings@[c]).txo_idx == t.idx
            && is_part_of_waiting(records, records.colorings@[c].asset_transfer_idx)
}

proof fn lemma_waiting(records: Records, id: i64)
    ensures
        is_part_of_waiting(records, id) <==> in_batch_with_status(
            records.asset_transfers@,
            records.batch_transfers@,
            id,
            TransferStatus::WaitingConfirmations,
        ),
{
    let rows = records.asset_transfers@;
    let batches = records.batch_transfers@;
    if is_part_of_waiting(records, id) {
        let j = choose|j: int| #[trigger]
            is_part(records, id, j) && batches[j].status is WaitingConfirmations;
        let i = choose|i: int|
            0 <= i < rows.len() && (#[trigger] rows[i]).idx == id && rows[i].batch_transfer_idx
                == batches[j].idx;
        assert(batches[j].status == TransferStatus::WaitingConfirmations);
        assert(batch_has_status(
            batches,
            rows[i].batch_transfer_idx,
            TransferStatus::WaitingConfirmations,
        ));
    }
    if in_batch_with_status(rows, batches, id, TransferStatus::WaitingConfirmations) {
        let i = choose|i: int|
            0 <= i < rows.len() && (#[trigger] rows[i]).idx == id
                && batch_has_status(
                batches,
                rows[i].batch_transfer_idx,
                TransferStatus::WaitingConfirmations,
            );
        let own = rows[i].batch_transfer_idx;
        let j = choose|j: int|
            0 <= j < batches.len() && (#[trigger] batches[j]).idx == own && batches[j].status
                == TransferStatus::WaitingConfirmations;
        assert(is_part(records, id, j));
    }
}

proof fn lemma_being_spent(records: Records, t: DbTxo)
    ensures
        is_being_spent(records, t) <==> almost_spent(records, t),
{
    assert forall|id: i64| #[trigger] is_part_of_waiting(records, id) <==> in_batch_with_status(
        records.asset_transfers@,
        records.batch_transfers@,
        id,
        TransferStatus::WaitingConfirmations,
    ) by {
        lemma_waiting(records, id);
    }
    if almost_spent(records, t) {
        let c = choose|c: int|
            0 <= c < records.colorings@.len() && (#[trigger] records.colorings@[c]).txo_idx
                == t.idx && in_batch_with_status(
                records.asset_transfers@,
                records.batch_transfers@,
                records.colorings@[c].asset_transfer_idx,
                TransferStatus::WaitingConfirmations,
            ) && spent_index(records.txos@, t.idx);
        assert(is_part_of_waiting(records, records.colorings@[c].asset_transfer_idx));
    }
    if is_being_spent(records, t) {
        let c = choose|c: int|
            0 <= c < records.colorings@.len() && (#[trigger] records.colorings@[c]).txo_idx
                == t.idx && is_part_of_waiting(records, records.colorings@[c].asset_transfer_idx);
        assert(records.colorings@[c].txo_idx == t.idx);
    }
}

/// The outputs that are shown are the unspent ones, then those that are being spent, all
/// of them and in their order.
pub proof fn outputs_that_are_being_spent_are_shown(
    records: Records,
    unspent_txos: Vec<DbTxo>,
    r: Vec<DbTxo>,
) -> (at: Seq<int>)
    requires
        call_ensures(get_outputs_to_show, (&records, unspent_txos), r),
    ensures
        r@.len() == unspent_txos@.len() + at.len(),
        forall|i: int| 0 <= i < unspent_txos@.len() ==> #[trigger] r@[i] == unspent_txos@[i],
        is_list_of(r@.skip(unspent_txos@.len() as int), records.txos@, at),
        forall|i: int|
            0 <= i < records.txos@.len() ==> (at.contains(i) <==> is_being_spent(
                records,
                #[trigger] records.txos@[i],
            )),
{
    let p = |t: DbTxo| almost_spent(records, t);
    let at = lemma_filter_picks(records.txos@, p);
    assert(outputs_to_show(records, unspent_txos@) == unspent_txos@ + records.txos@.filter(p));
    assert(r@.skip(unspent_txos@.len() as int) =~= records.txos@.filter(p));
    assert forall|i: int| 0 <= i < records.txos@.len() implies (at.contains(i) <==> is_being_spent(
        records,
        #[trigger] records.txos@[i],
    )) by {
        lemma_being_spent(records, records.txos@[i]);
        if at.contains(i) {
            let k = choose|k: int| 0 <= k < at.len() && at[k] == i;
            assert(p(records.txos@[at[k]]));
        }
        if is_being_spent(records, records.txos@[i]) {
            assert(p(records.txos@[i]));
        }
    }
    at
}

/// Whether a contract is the first one of a list with an ID.
pub open spec fn is_first_contract(
    contracts: Seq<KnownContract>,
    c: int,
    id: Seq<char>,
) -> bool {
    &&& 0 <= c < contracts.len()
    &&& contracts[c].contract_id@ == id
    &&& forall|k: int| 0 <= k < c ==> (#[trigger] contracts[k]).contract_id@ != id
}

/// Whether the RGB node knows a contract.
pub open spec fn is_of_node(contracts: Seq<KnownContract>, id: Seq<char>) -> bool {
    exists|c: int| #[trigger] is_first_contract(contracts, c, id)
}

/// Whether an asset is told by a contract alone: nothing is stored of it, and the contract
/// tells its ticker, its name and its precision.
pub open spec fn is_told(assets: Seq<DbAsset>, c: KnownContract) -> bool {
    !is_known(assets, c.contract_id@) && (c.contract matches Some(contract) && tells_fields(
        contract@,
    ))
}

/// Whether an asset is shown with the balance of its contract.
pub open spec fn has_balance_of(a: Asset, contracts: Seq<KnownContract>) -> bool {
    forall|c: int| #[trigger]
        is_first_contract(contracts, c, a.asset_id@) ==> a.balance.settled
            == contracts[c].balance.settled && a.balance.future == contracts[c].balance.future
}

proof fn lemma_contracts(contracts: Seq<KnownContract>, id: Seq<char>)
    ensures
        contract_with(contracts, id) is Some <==> is_of_node(contracts, id),
        forall|c: int| #[trigger]
            is_first_contract(contracts, c, id) ==> contract_with(contracts, id) == Some(
                contracts[c],
            ),
{
    let p = with_contract_id(id);
    lemma_first_index(contracts, p);
    if contract_with(contracts, id) is Some {
        let x = contract_with(contracts, id)->0;
        let c = choose|c: int|
            0 <= c < contracts.len() && #[trigger] contracts[c] == x && p(x) && forall|k: int|
                0 <= k < c ==> !p(#[trigger] contracts[k]);
        assert forall|k: int| 0 <= k < c implies (#[trigger] contracts[k]).contract_id@ != id by {
            assert(!p(contracts[k]));
        }
        assert(is_first_contract(contracts, c, id));
        assert forall|d: int| #[trigger] is_first_contract(contracts, d, id) implies d == c by {
            if d < c {
                assert(!p(contracts[d]));
            }
        }
    } else {
        assert forall|c: int| !#[trigger] is_first_contract(contracts, c, id) by {
            if is_first_contract(contracts, c, id) {
                assert(p(contracts[c]));
            }
        }
    }
}

/// The assets that the RGB node knows are shown: those that are stored, in their order, then
/// those that only its contracts tell, in theirs. Each has the balance of its contract.
pub proof fn assets_of_the_node_are_shown(
    wallet: Wallet,
    assets: Vec<DbAsset>,
    contracts: Vec<KnownContract>,
    r: Vec<Asset>,
) -> (at: (Seq<int>, Seq<int>))
    requires
        call_ensures(Wallet::list_assets, (&wallet, &assets, &contracts), r),
    ensures
        r@.len() == at.0.len() + at.1.len(),
        forall|k: int|
            0 <= k < at.0.len() ==> {
                let a = assets@[#[trigger] at.0[k]];
                &&& 0 <= at.0[k] < assets@.len()
                &&& r@[k].asset_id@ == a.asset_id@
                &&& r@[k].ticker@ == a.ticker@
                &&& r@[k].name@ == a.name@
                &&& r@[k].precision == a.precision
            },
        forall|k: int, l: int|
            0 <= k < l < at.0.len() ==> #[trigger] at.0[k] < #[trigger] at.0[l],
        forall|i: int|
            0 <= i < assets@.len() ==> (at.0.contains(i) <==> is_of_node(
                contracts@,
                (#[trigger] assets@[i]).asset_id@,
            )),
        forall|k: int|
            0 <= k < at.1.len() ==> 0 <= #[trigger] at.1[k] < contracts@.len()
                && shows_contract(r@[at.0.len() + k], contracts@[at.1[k]]),
        forall|k: int, l: int|
            0 <= k < l < at.1.len() ==> #[trigger] at.1[k] < #[trigger] at.1[l],
        forall|i: int|
            0 <= i < contracts@.len() ==> (at.1.contains(i) <==> is_told(
                assets@,
                #[trigger] contracts@[i],
            )),
        forall|k: int| 0 <= k < r@.len() ==> has_balance_of(#[trigger] r@[k], contracts@),
{
    let known = choose|known: Seq<DbAsset>| #[trigger]
        assets_known(known, assets@, contracts@) && r@ == assets_shown(known, contracts@);
    let p = known_to(contracts@);
    let q = tells_foreign(assets@);
    let stored = assets@.filter(p);
    let foreign = contracts@.filter(q);
    let n = stored.len() as int;
    let a = lemma_filter_picks(assets@, p);
    let b = lemma_filter_picks(contracts@, q);
    assert forall|k: int| 0 <= k < a.len() implies {
        let x = assets@[#[trigger] a[k]];
        &&& 0 <= a[k] < assets@.len()
        &&& r@[k].asset_id@ == x.asset_id@
        &&& r@[k].ticker@ == x.ticker@
        &&& r@[k].name@ == x.name@
        &&& r@[k].precision == x.precision
    } by {
        assert(known[k] == known.take(n)[k]);
    }
    assert forall|i: int| 0 <= i < assets@.len() implies (a.contains(i) <==> is_of_node(
        contracts@,
        (#[trigger] assets@[i]).asset_id@,
    )) by {
        lemma_contracts(contracts@, assets@[i].asset_id@);
        if a.contains(i) {
            let k = choose|k: int| 0 <= k < a.len() && a[k] == i;
            assert(p(assets@[a[k]]));
        }
        if is_of_node(contracts@, assets@[i].asset_id@) {
            assert(p(assets@[i]));
        }
    }
    assert forall|k: int| 0 <= k < b.len() implies 0 <= #[trigger] b[k] < contracts@.len()
        && shows_contract(r@[a.len() + k], contracts@[b[k]]) by {
        assert(describes_asset(
            known.skip(n)[k],
            foreign[k].contract_id@,
            foreign[k].contract->0@,
        ));
        assert(known.skip(n)[k] == known[n + k]);
        assert(q(contracts@[b[k]]));
    }
    assert forall|i: int| 0 <= i < contracts@.len() implies (b.contains(i) <==> is_told(
        assets@,
        #[trigger] contracts@[i],
    )) by {
        lemma_known(assets@, contracts@[i].contract_id@);
        if b.contains(i) {
            let k = choose|k: int| 0 <= k < b.len() && b[k] == i;
            assert(q(contracts@[b[k]]));
        }
        if is_told(assets@, contracts@[i]) {
            assert(q(contracts@[i]));
        }
    }
    assert forall|k: int| 0 <= k < r@.len() implies has_balance_of(
        #[trigger] r@[k],
        contracts@,
    ) by {
        lemma_contracts(contracts@, known[k].asset_id@);
    }
    (a, b)
}

/// Whether an asset is the one that a contract tells.
pub open spec fn shows_contract(a: Asset, c: KnownContract) -> bool {
    &&& a.asset_id@ == c.contract_id@
    &&& c.contract matches Some(contract)
    &&& field_values(contract@) matches Some(f)
    &&& f.0.len() > 0 && a.ticker@ == f.0[0]
    &&& f.1.len() > 0 && a.name@ == f.1[0]
    &&& f.2.len() > 0 && a.precision == f.2[0]
}

/// The assets that are described and those that are listed are the same ones.
pub proof fn described_assets_are_listed(
    wallet: Wallet,
    assets: Vec<DbAsset>,
    contracts: Vec<KnownContract>,
    r: Vec<Asset>,
    rows: Vec<DbAsset>,
)
    requires
        call_ensures(Wallet::list_assets, (&wallet, &assets, &contracts), r),
        call_ensures(get_known_assets, (&assets, &contracts), rows),
    ensures
        rows@.len() == r@.len(),
        forall|i: int|
            0 <= i < r@.len() ==> {
                &&& (#[trigger] r@[i]).asset_id@ == rows@[i].asset_id@
                &&& r@[i].ticker@ == rows@[i].ticker@
                &&& r@[i].name@ == rows@[i].name@
                &&& r@[i].precision == rows@[i].precision
            },
{
    let known = choose|known: Seq<DbAsset>| #[trigger]
        assets_known(known, assets@, contracts@) && r@ == assets_shown(known, contracts@);
    let n = assets@.filter(known_to(contracts@)).len() as int;
    let foreign = contracts@.filter(tells_foreign(assets@));
    assert forall|i: int| 0 <= i < r@.len() implies {
        &&& (#[trigger] r@[i]).asset_id@ == rows@[i].asset_id@
        &&& r@[i].ticker@ == rows@[i].ticker@
        &&& r@[i].name@ == rows@[i].name@
        &&& r@[i].precision == rows@[i].precision
    } by {
        if i < n {
            assert(known[i] == known.take(n)[i]);
            assert(rows@[i] == rows@.take(n)[i]);
        } else {
            assert(known[i] == known.skip(n)[i - n]);
            assert(rows@[i] == rows@.skip(n)[i - n]);
            assert(describes_asset(
                known.skip(n)[i - n],
                foreign[i - n].contract_id@,
                foreign[i - n].contract->0@,
            ));
            assert(describes_asset(
                rows@.skip(n)[i - n],
                foreign[i - n].contract_id@,
                foreign[i - n].contract->0@,
            ));
        }
    }
}

/// The balance of an asset is the stored one, and only an asset that is described has one.
pub proof fn balances_are_the_stored_ones(
    wallet: Wallet,
    assets: Vec<DbAsset>,
    asset_id: String,
    stored: Balance,
    r: Result<Balance, WalletError>,
)
    requires
        call_ensures(Wallet::get_asset_balance, (&wallet, &assets, &asset_id, stored), r),
    ensures
        is_known(assets@, asset_id@) ==> (r matches Ok(balance) && balance.settled
            == stored.settled && balance.future == stored.future),
        !is_known(assets@, asset_id@) ==> (r matches Err(WalletError::AssetNotFound(id)) && id@
            == asset_id@),
{
    lemma_known(assets@, asset_id@);
}

/// Whether a transfer is shown as it is stored, with the data of its batch transfer.
pub open spec fn shows_transfer(r: Transfer, x: DbTransfer, td: TransferData) -> bool {
    &&& r.idx == x.idx
    &&& r.created_at == td.created_at
    &&& r.updated_at == td.updated_at
    &&& r.status == td.status
    &&& parsed_u64(x.amount@) matches Some(n) ==> r.amount == n
    &&& r.incoming == td.incoming
    &&& r.txid == td.txid
    &&& r.blinded_utxo == x.blinded_utxo
    &&& r.unblinded_utxo == td.unblinded_utxo
    &&& r.change_utxo == td.change_utxo
    &&& x.blinding_secret matches Some(text) ==> r.blinding_secret == parsed_u64(text@)
    &&& x.blinding_secret is None ==> r.blinding_secret is None
    &&& r.expiration == td.expiration
}

/// Transfers are shown in their order, each with the data of its batch transfer.
pub proof fn transfers_are_shown_as_stored(
    wallet: Wallet,
    transfers: Vec<DbTransfer>,
    data: Vec<TransferData>,
    r: Vec<Transfer>,
    x: DbTransfer,
    td: TransferData,
    one: Transfer,
)
    requires
        call_ensures(Wallet::list_transfers, (&wallet, transfers, data), r),
        call_ensures(Transfer::from_db_transfer, (x, td), one),
    ensures
        r@.len() == transfers@.len(),
        forall|i: int|
            0 <= i < r@.len() ==> shows_transfer(#[trigger] r@[i], transfers@[i], data@[i]),
        shows_transfer(one, x, td),
{
}

/// Whether an output is shown as it is stored.
pub open spec fn shows_output(r: Utxo, x: DbTxo) -> bool {
    &&& r.outpoint.txid@ == x.txid@
    &&& r.outpoint.vout == x.vout
    &&& parsed_u64(x.btc_amount@) matches Some(n) ==> r.btc_amount == n
    &&& r.colorable == x.colorable
}

/// Outputs are shown in their order, each with its allocations.
pub proof fn outputs_are_shown_as_stored(
    wallet: Wallet,
    unspents: Vec<LocalUnspent>,
    r: Vec<Unspent>,
    x: LocalUnspent,
    one: Unspent,
    utxo: Utxo,
)
    requires
        call_ensures(Wallet::list_unspents, (&wallet, unspents), r),
        call_ensures(Unspent::from_local_unspent, (x,), one),
        call_ensures(Utxo::from_db_txo, (x.utxo,), utxo),
    ensures
        r@.len() == unspents@.len(),
        forall|i: int|
            0 <= i < r@.len() ==> shows_output((#[trigger] r@[i]).utxo, unspents@[i].utxo)
                && r@[i].rgb_allocations == unspents@[i].rgb_allocations,
        shows_output(one.utxo, x.utxo),
        one.rgb_allocations == x.rgb_allocations,
        shows_output(utxo, x.utxo),
{
}

/// An asset is shown as it is stored, with its balance.
pub proof fn assets_are_shown_as_stored(x: DbAsset, balance: Balance, r: Asset)
    requires
        call_ensures(Asset::from_db_asset, (x, balance), r),
    ensures
        r.asset_id == x.asset_id,
        r.ticker == x.ticker,
        r.name == x.name,
        r.precision == x.precision,
        r.balance.settled == balance.settled,
        r.balance.future == balance.future,
{
}

/// A status is stored as its number, and read from it.
pub proof fn statuses_are_stored_as_numbers(
    status: TransferStatus,
    code: u16,
    read: Option<TransferStatus>,
    other: u16,
    of_other: Option<TransferStatus>,
)
    requires
        call_ensures(TransferStatus::to_code, (&status,), code),
        call_ensures(TransferStatus::from_code, (code,), read),
        call_ensures(TransferStatus::from_code, (other,), of_other),
    ensures
        status is WaitingCounterparty ==> code == 1,
        status is WaitingConfirmations ==> code == 2,
        status is Settled ==> code == 3,
        status is Failed ==> code == 4,
        read == Some(status),
        of_other is Some <==> 1 <= other <= 4,
{
    assert(status.code() == code);
    if 1 <= other <= 4 {
        assert(TransferStatus::WaitingCounterparty.code() == 1);
        assert(TransferStatus::WaitingConfirmations.code() == 2);
        assert(TransferStatus::Settled.code() == 3);
        assert(TransferStatus::Failed.code() == 4);
    }
}

} // verus!
