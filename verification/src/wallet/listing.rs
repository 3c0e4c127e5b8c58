//! What the wallet shows: assets, transfers and unspents.

use vstd::prelude::*;

use crate::database::records::{
    asset_transfers_with_status, asset_with, get_asset_or_fail, in_batch_with_status, with_asset_id,
    Records,
};
use crate::database::{
    DbAsset, DbAssetTransfer, DbColoring, DbTransfer, DbTxo, LocalUnspent, TransferData,
};
use crate::error::WalletError;
use crate::seqs::{
    first_where, has_id, lemma_filter_ends, lemma_filter_indices, lemma_filter_step,
    lemma_first_at, lemma_no_first,
};
use crate::wallet::receive::{describes_asset, read_new_asset, tells_asset};
use crate::wallet::types::{
    opt_text, same_text, Asset, Balance, Transfer, TransferStatus, Unspent,
};
use crate::wallet::Wallet;

verus! {

/// Whether an asset transfer is one of an asset that the user asked for.
pub open spec fn asked_for(
    asset_transfers: Seq<DbAssetTransfer>,
    idx: i64,
    asset_id: Seq<char>,
) -> bool {
    exists|i: int|
        0 <= i < asset_transfers.len() && (#[trigger] asset_transfers[i]).idx == idx
            && asset_transfers[i].user_driven && opt_text(asset_transfers[i].asset_id) == Some(
            asset_id,
        )
}

/// The transfers of an asset that the user asked for, in their order.
pub open spec fn transfers_to_show(records: Records, asset_id: Seq<char>) -> Seq<DbTransfer> {
    records.transfers@.filter(
        |t: DbTransfer| asked_for(records.asset_transfers@, t.asset_transfer_idx, asset_id),
    )
}

fn asset_transfers_asked_for(asset_transfers: &Vec<DbAssetTransfer>, asset_id: &String) -> (r: Vec<
    i64,
>)
    ensures
        forall|id: i64| #[trigger]
            r@.contains(id) <==> asked_for(asset_transfers@, id, asset_id@),
{
    let wanted: Option<String> = Some(asset_id.clone());
    let mut ids: Vec<i64> = Vec::new();
    let mut i: usize = 0;
    while i < asset_transfers.len()
        invariant
            i <= asset_transfers.len(),
            opt_text(wanted) == Some(asset_id@),
            forall|id: i64| #[trigger]
                ids@.contains(id) <==> asked_for(
                    asset_transfers@.take(i as int),
                    id,
                    asset_id@,
                ),
        decreases asset_transfers.len() - i,
    {
        let ghost before = ids@;
        let ghost head = asset_transfers@.take(i as int);
        let ghost longer = asset_transfers@.take(i + 1);
        let ghost t = asset_transfers@[i as int];
        assert(longer =~= head.push(t));
        if asset_transfers[i].user_driven && same_text(&asset_transfers[i].asset_id, &wanted) {
            ids.push(asset_transfers[i].idx);
        }
        proof {
            assert forall|id: i64| #[trigger] ids@.contains(id) <==> asked_for(
                longer,
                id,
                asset_id@,
            ) by {
                assert(before.contains(id) <==> asked_for(head, id, asset_id@));
                if before.contains(id) {
                    let k = choose|k: int| 0 <= k < before.len() && before[k] == id;
                    assert(ids@[k] == id);
                }
                if ids@.contains(id) {
                    let k = choose|k: int| 0 <= k < ids@.len() && ids@[k] == id;
                    if k < before.len() {
                        assert(before[k] == id);
                    }
                }
                if asked_for(head, id, asset_id@) {
                    let k = choose|k: int|
                        0 <= k < head.len() && (#[trigger] head[k]).idx == id
                            && head[k].user_driven && opt_text(head[k].asset_id) == Some(
                            asset_id@,
                        );
                    assert(longer[k] == head[k]);
                }
                if asked_for(longer, id, asset_id@) {
                    let k = choose|k: int|
                        0 <= k < longer.len() && (#[trigger] longer[k]).idx == id
                            && longer[k].user_driven && opt_text(longer[k].asset_id) == Some(
                            asset_id@,
                        );
                    if k < i {
                        assert(head[k] == longer[k]);
                    } else {
                        assert(ids@[before.len() as int] == id);
                    }
                }
                assert(longer[i as int] == t);
            }
        }
        i += 1;
    }
    assert(asset_transfers@.take(i as int) =~= asset_transfers@);
    ids
}

/// Gives the transfers of an asset that the user asked for, in their order.
pub fn get_transfers_to_show(records: &Records, asset_id: &String) -> (r: Result<
    Vec<DbTransfer>,
    WalletError,
>)
    ensures
        ({
            let known = asset_with(records.assets@, asset_id@) is Some;
            &&& !known ==> (r matches Err(WalletError::AssetNotFound(id)) && id@ == asset_id@)
            &&& known ==> (r matches Ok(list) && list@ == transfers_to_show(*records, asset_id@))
        }),
{
    match get_asset_or_fail(&records.assets, asset_id) {
        Err(e) => {
            return Err(e);
        },
        Ok(_) => {},
    }
    let ghost p = |t: DbTransfer|
        asked_for(records.asset_transfers@, t.asset_transfer_idx, asset_id@);
    let ids: Vec<i64> = asset_transfers_asked_for(&records.asset_transfers, asset_id);
    let mut kept: Vec<DbTransfer> = Vec::new();
    let mut i: usize = 0;
    proof {
        lemma_filter_ends(records.transfers@, p);
    }
    while i < records.transfers.len()
        invariant
            i <= records.transfers.len(),
            p == (|t: DbTransfer|
                asked_for(records.asset_transfers@, t.asset_transfer_idx, asset_id@)),
            forall|id: i64| #[trigger]
                ids@.contains(id) <==> asked_for(records.asset_transfers@, id, asset_id@),
            kept@ == records.transfers@.take(i as int).filter(p),
        decreases records.transfers.len() - i,
    {
        proof {
            lemma_filter_step(records.transfers@, p, i as int);
        }
        if has_id(&ids, records.transfers[i].asset_transfer_idx) {
            kept.push(records.transfers[i].clone());
        }
        i += 1;
    }
    proof {
        lemma_filter_ends(records.transfers@, p);
    }
    Ok(kept)
}

/// Whether an output was spent by a transfer that still waits for its
/// confirmations: a coloring of such a transfer is on it.
pub open spec fn almost_spent(records: Records, t: DbTxo) -> bool {
    exists|i: int|
        0 <= i < records.colorings@.len() && (#[trigger] records.colorings@[i]).txo_idx == t.idx
            && in_batch_with_status(
            records.asset_transfers@,
            records.batch_transfers@,
            records.colorings@[i].asset_transfer_idx,
            TransferStatus::WaitingConfirmations,
        ) && spent_index(records.txos@, t.idx)
}

/// Whether an index is that of a spent output.
pub open spec fn spent_index(txos: Seq<DbTxo>, idx: i64) -> bool {
    exists|i: int| 0 <= i < txos.len() && (#[trigger] txos[i]).idx == idx && txos[i].spent
}

/// The outputs whose allocations are shown: the unspent ones, then those that a
/// transfer spent that still waits for its confirmations.
pub open spec fn outputs_to_show(records: Records, unspent_txos: Seq<DbTxo>) -> Seq<DbTxo> {
    unspent_txos + records.txos@.filter(|t: DbTxo| almost_spent(records, t))
}

fn spent_txos(txos: &Vec<DbTxo>) -> (r: Vec<i64>)
    ensures
        forall|id: i64| #[trigger] r@.contains(id) <==> spent_index(txos@, id),
{
    let mut ids: Vec<i64> = Vec::new();
    let mut i: usize = 0;
    while i < txos.len()
        invariant
            i <= txos.len(),
            forall|id: i64| #[trigger]
                ids@.contains(id) <==> spent_index(txos@.take(i as int), id),
        decreases txos.len() - i,
    {
        let ghost before = ids@;
        let ghost head = txos@.take(i as int);
        let ghost longer = txos@.take(i + 1);
        assert(longer =~= head.push(txos@[i as int]));
        if txos[i].spent {
            ids.push(txos[i].idx);
        }
        proof {
            assert forall|id: i64| #[trigger] ids@.contains(id) <==> spent_index(longer, id) by {
                assert(before.contains(id) <==> spent_index(head, id));
                if before.contains(id) {
                    let k = choose|k: int| 0 <= k < before.len() && before[k] == id;
                    assert(ids@[k] == id);
                }
                if ids@.contains(id) {
                    let k = choose|k: int| 0 <= k < ids@.len() && ids@[k] == id;
                    if k < before.len() {
                        assert(before[k] == id);
                    }
                }
                if spent_index(head, id) {
                    let k = choose|k: int|
                        0 <= k < head.len() && (#[trigger] head[k]).idx == id && head[k].spent;
                    assert(longer[k] == head[k]);
                }
                if spent_index(longer, id) {
                    let k = choose|k: int|
                        0 <= k < longer.len() && (#[trigger] longer[k]).idx == id
                            && longer[k].spent;
                    if k < i {
                        assert(head[k] == longer[k]);
                    } else {
                        assert(ids@[before.len() as int] == id);
                    }
                }
                assert(longer[i as int] == txos@[i as int]);
            }
        }
        i += 1;
    }
    assert(txos@.take(i as int) =~= txos@);
    ids
}

/// Whether a coloring of a transfer that waits for its confirmations is on an
/// output.
spec fn colored_by(
    colorings: Seq<DbColoring>,
    waiting: Seq<i64>,
    spent: Seq<i64>,
    idx: i64,
) -> bool {
    exists|i: int|
        0 <= i < colorings.len() && (#[trigger] colorings[i]).txo_idx == idx && waiting.contains(
            colorings[i].asset_transfer_idx,
        ) && spent.contains(idx)
}

fn almost_spent_txos(colorings: &Vec<DbColoring>, waiting: &Vec<i64>, spent: &Vec<i64>) -> (r: Vec<
    i64,
>)
    ensures
        forall|id: i64| #[trigger]
            r@.contains(id) <==> colored_by(colorings@, waiting@, spent@, id),
{
    let mut ids: Vec<i64> = Vec::new();
    let mut i: usize = 0;
    while i < colorings.len()
        invariant
            i <= colorings.len(),
            forall|id: i64| #[trigger]
                ids@.contains(id) <==> colored_by(
                    colorings@.take(i as int),
                    waiting@,
                    spent@,
                    id,
                ),
        decreases colorings.len() - i,
    {
        let ghost before = ids@;
        let ghost head = colorings@.take(i as int);
        let ghost longer = colorings@.take(i + 1);
        let ghost c = colorings@[i as int];
        assert(longer =~= head.push(c));
        if has_id(waiting, colorings[i].asset_transfer_idx) && has_id(spent, colorings[i].txo_idx) {
            ids.push(colorings[i].txo_idx);
        }
        proof {
            assert forall|id: i64| #[trigger] ids@.contains(id) <==> colored_by(
                longer,
                waiting@,
                spent@,
                id,
            ) by {
                assert(before.contains(id) <==> colored_by(head, waiting@, spent@, id));
                if before.contains(id) {
                    let k = choose|k: int| 0 <= k < before.len() && before[k] == id;
                    assert(ids@[k] == id);
                }
                if ids@.contains(id) {
                    let k = choose|k: int| 0 <= k < ids@.len() && ids@[k] == id;
                    if k < before.len() {
                        assert(before[k] == id);
                    }
                }
                if colored_by(head, waiting@, spent@, id) {
                    let k = choose|k: int|
                        0 <= k < head.len() && (#[trigger] head[k]).txo_idx == id
                            && waiting@.contains(head[k].asset_transfer_idx) && spent@.contains(
                            id,
                        );
                    assert(longer[k] == head[k]);
                }
                if colored_by(longer, waiting@, spent@, id) {
                    let k = choose|k: int|
                        0 <= k < longer.len() && (#[trigger] longer[k]).txo_idx == id
                            && waiting@.contains(longer[k].asset_transfer_idx)
                            && spent@.contains(id);
                    if k < i {
                        assert(head[k] == longer[k]);
                    } else {
                        assert(ids@[before.len() as int] == id);
                    }
                }
                assert(longer[i as int] == c);
            }
        }
        i += 1;
    }
    assert(colorings@.take(i as int) =~= colorings@);
    ids
}

/// Gives the outputs whose allocations are shown: the unspent ones, then those
/// that a transfer spent that still waits for its confirmations.
pub fn get_outputs_to_show(records: &Records, unspent_txos: Vec<DbTxo>) -> (r: Vec<DbTxo>)
    ensures
        r@ == outputs_to_show(*records, unspent_txos@),
{
    let ghost p = |t: DbTxo| almost_spent(*records, t);
    let ghost unspent = unspent_txos@;
    let spent: Vec<i64> = spent_txos(&records.txos);
    let waiting: Vec<i64> = asset_transfers_with_status(
        &records.asset_transfers,
        &records.batch_transfers,
        TransferStatus::WaitingConfirmations,
    );
    let ids: Vec<i64> = almost_spent_txos(&records.colorings, &waiting, &spent);
    let mut shown: Vec<DbTxo> = unspent_txos;
    let mut i: usize = 0;
    proof {
        lemma_filter_ends(records.txos@, p);
        assert(unspent + records.txos@.take(0).filter(p) =~= unspent);
    }
    while i < records.txos.len()
        invariant
            i <= records.txos.len(),
            p == (|t: DbTxo| almost_spent(*records, t)),
            forall|id: i64| #[trigger]
                spent@.contains(id) <==> spent_index(records.txos@, id),
            forall|id: i64| #[trigger]
                waiting@.contains(id) <==> in_batch_with_status(
                    records.asset_transfers@,
                    records.batch_transfers@,
                    id,
                    TransferStatus::WaitingConfirmations,
                ),
            forall|id: i64| #[trigger]
                ids@.contains(id) <==> colored_by(
                    records.colorings@,
                    waiting@,
                    spent@,
                    id,
                ),
            shown@ == unspent + records.txos@.take(i as int).filter(p),
        decreases records.txos.len() - i,
    {
        proof {
            lemma_filter_step(records.txos@, p, i as int);
            let t = records.txos@[i as int];
            assert(ids@.contains(t.idx) <==> almost_spent(*records, t)) by {
                if ids@.contains(t.idx) {
                    let k = choose|k: int|
                        0 <= k < records.colorings@.len() && (#[trigger] records.colorings@[k]).txo_idx
                            == t.idx && waiting@.contains(
                            records.colorings@[k].asset_transfer_idx,
                        ) && spent@.contains(t.idx);
                    assert(records.colorings@[k].txo_idx == t.idx);
                }
                if almost_spent(*records, t) {
                    let k = choose|k: int|
                        0 <= k < records.colorings@.len() && (#[trigger] records.colorings@[k]).txo_idx
                            == t.idx && in_batch_with_status(
                            records.asset_transfers@,
                            records.batch_transfers@,
                            records.colorings@[k].asset_transfer_idx,
                            TransferStatus::WaitingConfirmations,
                        ) && spent_index(records.txos@, t.idx);
                    assert(waiting@.contains(records.colorings@[k].asset_transfer_idx));
                    assert(colored_by(records.colorings@, waiting@, spent@, t.idx));
                }
            }
        }
        if has_id(&ids, records.txos[i].idx) {
            shown.push(records.txos[i].clone());
            assert(shown@ =~= unspent + records.txos@.take(i + 1).filter(p));
        }
        i += 1;
    }
    proof {
        lemma_filter_ends(records.txos@, p);
    }
    shown
}

/// A contract that an RGB node knows.
#[derive(Debug, PartialEq, Eq)]
pub struct KnownContract {
    /// ID of the contract
    pub contract_id: String,
    /// The contract itself, which is asked of the node where nothing is stored of it
    pub contract: Option<Vec<u8>>,
    /// The stored balance of its asset
    pub balance: Balance,
}

/// Picks the contract with an ID.
pub open spec fn with_contract_id(contract_id: Seq<char>) -> spec_fn(KnownContract) -> bool {
    |c: KnownContract| c.contract_id@ == contract_id
}

/// The contract with an ID, if an RGB node knows it.
pub open spec fn contract_with(contracts: Seq<KnownContract>, contract_id: Seq<char>) -> Option<
    KnownContract,
> {
    first_where(contracts, with_contract_id(contract_id))
}

/// Picks the stored assets that an RGB node knows.
pub open spec fn known_to(contracts: Seq<KnownContract>) -> spec_fn(DbAsset) -> bool {
    |a: DbAsset| contract_with(contracts, a.asset_id@) is Some
}

/// Picks the contracts of which nothing is stored and which tell an asset: its ticker,
/// its name and its precision.
pub open spec fn tells_foreign(assets: Seq<DbAsset>) -> spec_fn(KnownContract) -> bool {
    |c: KnownContract|
        asset_with(assets, c.contract_id@) is None && (c.contract matches Some(contract)
            && tells_asset(contract@))
}

/// Whether rows describe the assets that an RGB node knows: those that are stored, in the
/// order in which they are, then those that its other contracts tell.
pub open spec fn assets_known(
    known: Seq<DbAsset>,
    assets: Seq<DbAsset>,
    contracts: Seq<KnownContract>,
) -> bool {
    let stored = assets.filter(known_to(contracts));
    let foreign = contracts.filter(tells_foreign(assets));
    &&& known.len() == stored.len() + foreign.len()
    &&& known.take(stored.len() as int) == stored
    &&& forall|i: int|
        0 <= i < foreign.len() ==> describes_asset(
            #[trigger] known.skip(stored.len() as int)[i],
            foreign[i].contract_id@,
            foreign[i].contract->0@,
        )
}

/// What rows of assets show, each with the balance that is told with its contract.
pub open spec fn assets_shown(known: Seq<DbAsset>, contracts: Seq<KnownContract>) -> Seq<Asset> {
    known.map_values(
        |a: DbAsset| Asset::described_by(a, contract_with(contracts, a.asset_id@)->0.balance),
    )
}

fn find_contract<'a>(contracts: &'a Vec<KnownContract>, contract_id: &String) -> (r: Option<
    &'a KnownContract,
>)
    ensures
        r is Some <==> contract_with(contracts@, contract_id@) is Some,
        r matches Some(c) ==> contract_with(contracts@, contract_id@) == Some(*c),
{
    let ghost p = with_contract_id(contract_id@);
    let mut i: usize = 0;
    while i < contracts.len()
        invariant
            i <= contracts.len(),
            p == with_contract_id(contract_id@),
            forall|k: int| 0 <= k < i ==> !p(#[trigger] contracts@[k]),
        decreases contracts.len() - i,
    {
        if contracts[i].contract_id == *contract_id {
            proof {
                lemma_first_at(contracts@, p, i as int);
            }
            return Some(&contracts[i]);
        }
        i += 1;
    }
    proof {
        lemma_no_first(contracts@, p);
    }
    None
}

fn read_foreign(assets: &Vec<DbAsset>, known: &KnownContract) -> (r: Option<DbAsset>)
    ensures
        r is Some <==> tells_foreign(assets@)(*known),
        r matches Some(a) ==> describes_asset(a, known.contract_id@, known.contract->0@),
{
    if get_asset_or_fail(assets, &known.contract_id).is_ok() {
        return None;
    }
    match &known.contract {
        None => None,
        Some(contract) => match read_new_asset(contract, &known.contract_id) {
            Err(_) => None,
            Ok(asset) => Some(asset),
        },
    }
}

/// Describes the assets that an RGB node knows: those that are stored, then those that
/// its other contracts tell.
pub fn get_known_assets(assets: &Vec<DbAsset>, contracts: &Vec<KnownContract>) -> (r: Vec<DbAsset>)
    ensures
        assets_known(r@, assets@, contracts@),
{
    let ghost p = known_to(contracts@);
    let ghost q = tells_foreign(assets@);
    let mut known: Vec<DbAsset> = Vec::new();
    let mut i: usize = 0;
    proof {
        lemma_filter_ends(assets@, p);
        lemma_filter_ends(contracts@, q);
    }
    while i < assets.len()
        invariant
            i <= assets.len(),
            p == known_to(contracts@),
            known@ == assets@.take(i as int).filter(p),
        decreases assets.len() - i,
    {
        proof {
            lemma_filter_step(assets@, p, i as int);
        }
        if find_contract(contracts, &assets[i].asset_id).is_some() {
            known.push(assets[i].clone());
        }
        i += 1;
    }
    let ghost stored = known@;
    let ghost n = stored.len() as int;
    let mut j: usize = 0;
    assert(known@.take(n) =~= stored);
    while j < contracts.len()
        invariant
            j <= contracts.len(),
            q == tells_foreign(assets@),
            n == stored.len(),
            known@.len() == n + contracts@.take(j as int).filter(q).len(),
            known@.take(n) == stored,
            forall|k: int|
                0 <= k < contracts@.take(j as int).filter(q).len() ==> describes_asset(
                    #[trigger] known@.skip(n)[k],
                    contracts@.take(j as int).filter(q)[k].contract_id@,
                    contracts@.take(j as int).filter(q)[k].contract->0@,
                ),
        decreases contracts.len() - j,
    {
        let ghost before = known@;
        let ghost found = contracts@.take(j as int).filter(q);
        proof {
            lemma_filter_step(contracts@, q, j as int);
        }
        match read_foreign(assets, &contracts[j]) {
            None => {},
            Some(asset) => {
                known.push(asset);
                proof {
                    assert(known@.take(n) =~= before.take(n));
                    assert(known@.skip(n) =~= before.skip(n).push(asset));
                    assert forall|k: int| 0 <= k < found.len() + 1 implies describes_asset(
                        #[trigger] known@.skip(n)[k],
                        found.push(contracts@[j as int])[k].contract_id@,
                        found.push(contracts@[j as int])[k].contract->0@,
                    ) by {
                        if k < found.len() {
                            assert(known@.skip(n)[k] == before.skip(n)[k]);
                        }
                    }
                }
            },
        }
        j += 1;
    }
    known
}

/// Whether an asset is listed.
pub open spec fn is_shown(shown: Seq<Asset>, asset_id: Seq<char>) -> bool {
    exists|i: int| 0 <= i < shown.len() && (#[trigger] shown[i]).asset_id@ == asset_id
}

/// Whether no two rows are of one asset.
pub open spec fn assets_distinct(rows: Seq<DbAsset>) -> bool {
    forall|i: int, j: int|
        0 <= i < j < rows.len() ==> (#[trigger] rows[i]).asset_id@ != (
        #[trigger] rows[j]).asset_id@
}

/// Whether no two contracts have one ID.
pub open spec fn contracts_distinct(contracts: Seq<KnownContract>) -> bool {
    forall|i: int, j: int|
        0 <= i < j < contracts.len() ==> (#[trigger] contracts[i]).contract_id@ != (
        #[trigger] contracts[j]).contract_id@
}

/// Whether an RGB node knows an asset: it is that of one of its contracts, of which
/// something is stored or which tells the asset itself.
pub open spec fn node_knows(
    assets: Seq<DbAsset>,
    contracts: Seq<KnownContract>,
    asset_id: Seq<char>,
) -> bool {
    contract_with(contracts, asset_id) matches Some(c) && (asset_with(assets, asset_id) is Some || (
    c.contract matches Some(contract) && tells_asset(contract@)))
}

/// Where no asset is stored twice and no contract told twice, the assets that are listed
/// are exactly those that the RGB node knows, each of them once.
pub proof fn assets_of_the_node_are_listed(
    known: Seq<DbAsset>,
    assets: Seq<DbAsset>,
    contracts: Seq<KnownContract>,
)
    requires
        assets_known(known, assets, contracts),
        assets_distinct(assets),
        contracts_distinct(contracts),
    ensures
        ({
            let shown = assets_shown(known, contracts);
            &&& forall|id: Seq<char>| #[trigger]
                is_shown(shown, id) <==> node_knows(assets, contracts, id)
            &&& forall|i: int, j: int|
                0 <= i < j < shown.len() ==> (#[trigger] shown[i]).asset_id@ != (
                #[trigger] shown[j]).asset_id@
        }),
{
    let shown = assets_shown(known, contracts);
    let p = known_to(contracts);
    let q = tells_foreign(assets);
    let stored = assets.filter(p);
    let foreign = contracts.filter(q);
    let n = stored.len() as int;
    assert forall|i: int| 0 <= i < known.len() implies node_knows(
        assets,
        contracts,
        (#[trigger] known[i]).asset_id@,
    ) && (i >= n ==> asset_with(assets, known[i].asset_id@) is None) by {
        lemma_known_row(known, assets, contracts, i);
    }
    assert forall|id: Seq<char>| #[trigger] is_shown(shown, id) <==> node_knows(
        assets,
        contracts,
        id,
    ) by {
        if is_shown(shown, id) {
            let i = choose|i: int| 0 <= i < shown.len() && (#[trigger] shown[i]).asset_id@ == id;
            assert(node_knows(assets, contracts, known[i].asset_id@));
        }
        if node_knows(assets, contracts, id) {
            let i = lemma_known_found(known, assets, contracts, id);
            assert(shown[i].asset_id@ == id);
        }
    }
    assert forall|i: int, j: int| 0 <= i < j < shown.len() implies (
    #[trigger] shown[i]).asset_id@ != (#[trigger] shown[j]).asset_id@ by {
        assert(node_knows(assets, contracts, known[i].asset_id@));
        assert(node_knows(assets, contracts, known[j].asset_id@));
        if j < n {
            assert(known[i] == known.take(n)[i]);
            assert(known[j] == known.take(n)[j]);
            let (a, b) = lemma_filter_indices(assets, p, i, j);
            assert(assets[a].asset_id@ != assets[b].asset_id@);
        } else if i < n {
            assert(known[i] == known.take(n)[i]);
            assets.lemma_filter_contains_rev(p, stored[i]);
            let a = choose|a: int| 0 <= a < assets.len() && assets[a] == stored[i];
            lemma_row_found(assets, a);
        } else {
            assert(known[i] == known.skip(n)[i - n]);
            assert(known[j] == known.skip(n)[j - n]);
            assert(describes_asset(
                known.skip(n)[i - n],
                foreign[i - n].contract_id@,
                foreign[i - n].contract->0@,
            ));
            assert(describes_asset(
                known.skip(n)[j - n],
                foreign[j - n].contract_id@,
                foreign[j - n].contract->0@,
            ));
            let (a, b) = lemma_filter_indices(contracts, q, i - n, j - n);
            assert(contracts[a].contract_id@ != contracts[b].contract_id@);
        }
    }
}

proof fn lemma_row_found(assets: Seq<DbAsset>, i: int)
    requires
        0 <= i < assets.len(),
    ensures
        asset_with(assets, assets[i].asset_id@) is Some,
{
    let id = assets[i].asset_id@;
    assets.lemma_filter_contains(with_asset_id(id), i);
}

proof fn lemma_known_contract(
    known: Seq<DbAsset>,
    assets: Seq<DbAsset>,
    contracts: Seq<KnownContract>,
    i: int,
)
    requires
        assets_known(known, assets, contracts),
        0 <= i < known.len(),
    ensures
        contract_with(contracts, known[i].asset_id@) is Some,
{
    let p = known_to(contracts);
    let q = tells_foreign(assets);
    let stored = assets.filter(p);
    let foreign = contracts.filter(q);
    let n = stored.len() as int;
    if i < n {
        assert(known[i] == known.take(n)[i]);
        assets.lemma_filter_pred(p, i);
    } else {
        let k = i - n;
        assert(known[i] == known.skip(n)[k]);
        contracts.lemma_filter_contains_rev(q, foreign[k]);
        let c = choose|c: int| 0 <= c < contracts.len() && contracts[c] == foreign[k];
        assert(known[i].asset_id@ == contracts[c].contract_id@);
        contracts.lemma_filter_contains(with_contract_id(known[i].asset_id@), c);
    }
}

proof fn lemma_known_row(
    known: Seq<DbAsset>,
    assets: Seq<DbAsset>,
    contracts: Seq<KnownContract>,
    i: int,
)
    requires
        assets_known(known, assets, contracts),
        contracts_distinct(contracts),
        0 <= i < known.len(),
    ensures
        node_knows(assets, contracts, known[i].asset_id@),
        i >= assets.filter(known_to(contracts)).len() ==> asset_with(
            assets,
            known[i].asset_id@,
        ) is None,
{
    let p = known_to(contracts);
    let q = tells_foreign(assets);
    let stored = assets.filter(p);
    let foreign = contracts.filter(q);
    let n = stored.len() as int;
    if i < n {
        assert(known[i] == known.take(n)[i]);
        assets.lemma_filter_pred(p, i);
        assets.lemma_filter_contains_rev(p, stored[i]);
        let a = choose|a: int| 0 <= a < assets.len() && assets[a] == stored[i];
        lemma_row_found(assets, a);
    } else {
        let k = i - n;
        assert(known[i] == known.skip(n)[k]);
        contracts.lemma_filter_pred(q, k);
        contracts.lemma_filter_contains_rev(q, foreign[k]);
        let c = choose|c: int| 0 <= c < contracts.len() && contracts[c] == foreign[k];
        assert(known[i].asset_id@ == contracts[c].contract_id@);
        lemma_contract_found(contracts, c);
    }
}

proof fn lemma_contract_found(contracts: Seq<KnownContract>, c: int)
    requires
        contracts_distinct(contracts),
        0 <= c < contracts.len(),
    ensures
        contract_with(contracts, contracts[c].contract_id@) == Some(contracts[c]),
{
    let p = with_contract_id(contracts[c].contract_id@);
    assert forall|k: int| 0 <= k < c implies !p(#[trigger] contracts[k]) by {
        assert(contracts[k].contract_id@ != contracts[c].contract_id@);
    }
    lemma_first_at(contracts, p, c);
}

proof fn lemma_known_found(
    known: Seq<DbAsset>,
    assets: Seq<DbAsset>,
    contracts: Seq<KnownContract>,
    id: Seq<char>,
) -> (i: int)
    requires
        assets_known(known, assets, contracts),
        node_knows(assets, contracts, id),
    ensures
        0 <= i < known.len(),
        known[i].asset_id@ == id,
{
    let p = known_to(contracts);
    let q = tells_foreign(assets);
    let stored = assets.filter(p);
    let foreign = contracts.filter(q);
    let n = stored.len() as int;
    if asset_with(assets, id) is Some {
        let of_id = with_asset_id(id);
        let found = assets.filter(of_id);
        assets.lemma_filter_pred(of_id, 0);
        assets.lemma_filter_contains_rev(of_id, found[0]);
        let k = choose|k: int| 0 <= k < assets.len() && assets[k] == found[0];
        assets.lemma_filter_contains(p, k);
        let i = choose|i: int| 0 <= i < stored.len() && stored[i] == assets[k];
        assert(known.take(n)[i] == known[i]);
        i
    } else {
        let of_id = with_contract_id(id);
        let found = contracts.filter(of_id);
        contracts.lemma_filter_pred(of_id, 0);
        contracts.lemma_filter_contains_rev(of_id, found[0]);
        let c = choose|c: int| 0 <= c < contracts.len() && contracts[c] == found[0];
        contracts.lemma_filter_contains(q, c);
        let k = choose|k: int| 0 <= k < foreign.len() && foreign[k] == contracts[c];
        assert(describes_asset(
            known.skip(n)[k],
            foreign[k].contract_id@,
            foreign[k].contract->0@,
        ));
        assert(known.skip(n)[k] == known[n + k]);
        n + k
    }
}

/// The balance of an asset, if rows describe it: that which is stored.
pub open spec fn balance_told(rows: Seq<DbAsset>, asset_id: Seq<char>, stored: Balance) -> Option<
    Balance,
> {
    if asset_with(rows, asset_id) is Some {
        Some(stored)
    } else {
        None
    }
}

/// For every listed asset the balance that is returned is the listed one, for any other
/// there is none.
pub proof fn listed_balances_are_returned(known: Seq<DbAsset>, contracts: Seq<KnownContract>)
    ensures
        ({
            let shown = assets_shown(known, contracts);
            &&& forall|i: int|
                0 <= i < shown.len() ==> balance_told(
                    known,
                    (#[trigger] shown[i]).asset_id@,
                    contract_with(contracts, shown[i].asset_id@)->0.balance,
                ) == Some(shown[i].balance)
            &&& forall|id: Seq<char>, stored: Balance|
                !is_shown(shown, id) ==> #[trigger] balance_told(known, id, stored) is None
        }),
{
    let shown = assets_shown(known, contracts);
    assert forall|i: int| 0 <= i < shown.len() implies balance_told(
        known,
        (#[trigger] shown[i]).asset_id@,
        contract_with(contracts, shown[i].asset_id@)->0.balance,
    ) == Some(shown[i].balance) by {
        assert(shown[i].asset_id == known[i].asset_id);
        lemma_row_found(known, i);
    }
    assert forall|id: Seq<char>, stored: Balance| !is_shown(shown, id) implies #[trigger]
    balance_told(known, id, stored) is None by {
        assert forall|k: int| 0 <= k < known.len() implies (#[trigger] known[k]).asset_id@ != id by {
            assert(shown[k].asset_id == known[k].asset_id);
        }
        lemma_no_first(known, with_asset_id(id));
    }
}

impl Wallet {
    /// Return the balance for the requested asset, which is one of those that are listed
    /// ([`get_known_assets`]): the one that is stored
    pub fn get_asset_balance(
        &self,
        assets: &Vec<DbAsset>,
        asset_id: &String,
        stored_balance: Balance,
    ) -> (r: Result<Balance, WalletError>)
        ensures
            match balance_told(assets@, asset_id@, stored_balance) {
                Some(told) => r matches Ok(balance) && balance == told,
                None => r matches Err(WalletError::AssetNotFound(id)) && id@ == asset_id@,
            },
    {
        match get_asset_or_fail(assets, asset_id) {
            Err(e) => Err(e),
            Ok(_) => Ok(stored_balance),
        }
    }

    /// List the [`Asset`]s known by the underlying RGB node, which tells its contracts:
    /// what is stored of them, in the order in which it is stored, then what the other
    /// contracts tell of their assets
    pub fn list_assets(&self, assets: &Vec<DbAsset>, contracts: &Vec<KnownContract>) -> (r: Vec<
        Asset,
    >)
        ensures
            exists|known: Seq<DbAsset>| #[trigger]
                assets_known(known, assets@, contracts@) && r@ == assets_shown(known, contracts@),
    {
        let known: Vec<DbAsset> = get_known_assets(assets, contracts);
        let ghost rows = known@;
        proof {
            assert forall|k: int| 0 <= k < rows.len() implies contract_with(
                contracts@,
                (#[trigger] rows[k]).asset_id@,
            ) is Some by {
                lemma_known_contract(rows, assets@, contracts@, k);
            }
        }
        let mut shown: Vec<Asset> = Vec::new();
        let mut i: usize = 0;
        while i < known.len()
            invariant
                i <= known.len(),
                known@ == rows,
                assets_known(rows, assets@, contracts@),
                forall|k: int|
                    0 <= k < rows.len() ==> contract_with(
                        contracts@,
                        (#[trigger] rows[k]).asset_id@,
                    ) is Some,
                shown@ == assets_shown(rows.take(i as int), contracts@),
            decreases known.len() - i,
        {
            match find_contract(contracts, &known[i].asset_id) {
                None => {},
                Some(c) => {
                    shown.push(Asset::from_db_asset(known[i].clone(), c.balance));
                },
            }
            i += 1;
            assert(shown@ =~= assets_shown(rows.take(i as int), contracts@));
        }
        assert(rows.take(i as int) =~= rows);
        shown
    }

    /// List the [`Transfer`]s known to the RGB wallet: those to show
    /// ([`get_transfers_to_show`]), with the data of their batch transfers
    pub fn list_transfers(&self, transfers: Vec<DbTransfer>, data: Vec<TransferData>) -> (r: Vec<
        Transfer,
    >)
        requires
            data@.len() == transfers@.len(),
            forall|i: int|
                0 <= i < transfers@.len() ==> Transfer::readable(#[trigger] transfers@[i]),
        ensures
            r@.len() == transfers@.len(),
            forall|i: int|
                0 <= i < r@.len() ==> #[trigger] r@[i] == Transfer::described_by(
                    transfers@[i],
                    data@[i],
                ),
    {
        let mut shown: Vec<Transfer> = Vec::new();
        let mut i: usize = 0;
        let n: usize = transfers.len();
        let ghost all = data@;
        for td in it: data.into_iter()
            invariant
                it.seq() == all,
                i == it.index(),
                n == transfers@.len(),
                all.len() == n,
                forall|k: int|
                    0 <= k < transfers@.len() ==> Transfer::readable(#[trigger] transfers@[k]),
                shown@.len() == i,
                forall|k: int|
                    0 <= k < i ==> #[trigger] shown@[k] == Transfer::described_by(
                        transfers@[k],
                        all[k],
                    ),
        {
            assert(Transfer::readable(transfers@[i as int]));
            shown.push(Transfer::from_db_transfer(transfers[i].clone(), td));
            i += 1;
        }
        shown
    }

    /// List the [`Unspent`]s known to the RGB wallet: the outputs to show
    /// ([`get_outputs_to_show`]), with their settled allocations or with the pending ones too
    pub fn list_unspents(&self, unspents: Vec<LocalUnspent>) -> (r: Vec<Unspent>)
        requires
            forall|i: int| 0 <= i < unspents@.len() ==> (#[trigger] unspents@[i]).utxo.readable(),
        ensures
            r@ == unspents@.map_values(|u: LocalUnspent| Unspent::described_by(u)),
    {
        let ghost all = unspents@;
        let mut shown: Vec<Unspent> = Vec::new();
        for u in it: unspents.into_iter()
            invariant
                it.seq() == all,
                forall|k: int| 0 <= k < all.len() ==> (#[trigger] all[k]).utxo.readable(),
                shown@.len() == it.index(),
                forall|k: int|
                    0 <= k < shown@.len() ==> #[trigger] shown@[k] == Unspent::described_by(
                        all[k],
                    ),
        {
            assert(all[it.index() as int].utxo.readable());
            shown.push(Unspent::from_local_unspent(u));
        }
        assert(shown@ =~= all.map_values(|u: LocalUnspent| Unspent::described_by(u)));
        shown
    }
}

} // verus!
