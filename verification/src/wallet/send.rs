//! Sending assets: which outputs pay, and what is written down of a transfer.

use vstd::prelude::*;

use crate::database::plans::{
    colored_amounts, colored_total, lemma_one_kind, transferred_total, NewAssetTransfer, NewBatchTransfer,
    NewColoring, NewTransfer,
};
use crate::database::{ColoringType, DbTxo, LocalUnspent};
use crate::error::WalletError;
use crate::seqs::{has_id, lemma_filter_ends, lemma_filter_step, lemma_sum_prefix, sum};
use crate::text::{decimal, parsed_u64, rendered_amounts_read_back, u64_to_string};
use crate::wallet::types::{
    opt_text, same_text, Outpoint, Recipient, RgbAllocation, TransferStatus,
};

verus! {

/// How many seconds a sent transfer waits for its recipients.
pub const DURATION_SEND_TRANSFER: i64 = 3600;

/// The outputs that pay for the transfer of an asset.
#[derive(Debug, PartialEq, Eq)]
pub struct AssetSpend {
    /// The indices of the outputs, with the amount of the asset on each
    pub txo_map: Vec<(i64, u64)>,
    /// The outpoints of the outputs
    pub input_outpoints: Vec<Outpoint>,
    /// The amount that comes back to the wallet
    pub change_amount: u64,
}

/// What a transaction transfers of one asset.
#[derive(Debug, PartialEq, Eq)]
pub struct InfoAssetTransfer {
    /// The recipients
    pub recipients: Vec<Recipient>,
    /// The outputs that pay
    pub asset_spend: AssetSpend,
}

/// What a transaction transfers besides.
#[derive(Debug, PartialEq, Eq)]
pub struct InfoBatchTransfer {
    /// Index of the output that receives the change
    pub change_utxo_idx: i64,
    /// The amounts of other assets that move to the change, by the IDs of the
    /// assets
    pub blank_allocations: Vec<(String, u64)>,
    /// Whether the transaction is broadcast without waiting for the recipients
    pub donation: bool,
}

/// The amounts of an asset among allocations.
pub open spec fn asset_amounts(allocations: Seq<RgbAllocation>, asset_id: Seq<char>) -> Seq<u64> {
    allocations.filter(|a: RgbAllocation| opt_text(a.asset_id) == Some(asset_id)).map_values(
        |a: RgbAllocation| a.amount,
    )
}

/// The amount of an asset on an output.
pub open spec fn asset_amount(u: LocalUnspent, asset_id: Seq<char>) -> nat {
    sum(asset_amounts(u.rgb_allocations@, asset_id))
}

/// The amount of an asset on outputs.
pub open spec fn amount_on(unspents: Seq<LocalUnspent>, asset_id: Seq<char>) -> nat
    decreases unspents.len(),
{
    if unspents.len() == 0 {
        0
    } else {
        amount_on(unspents.drop_last(), asset_id) + asset_amount(unspents.last(), asset_id)
    }
}

/// Whether all allocations on an output are settled.
pub open spec fn all_settled(u: LocalUnspent) -> bool {
    forall|i: int|
        0 <= i < u.rgb_allocations@.len() ==> (#[trigger] u.rgb_allocations@[i]).settled
}

/// The outputs whose allocations are all settled, in their order.
pub open spec fn settled(unspents: Seq<LocalUnspent>) -> Seq<LocalUnspent> {
    unspents.filter(|u: LocalUnspent| all_settled(u))
}

/// How many of the first outputs pay for an amount: one after the other until it
/// is reached, at least one where there is one.
pub open spec fn inputs_used(
    unspents: Seq<LocalUnspent>,
    asset_id: Seq<char>,
    amount_needed: int,
) -> nat
    decreases unspents.len(),
{
    if unspents.len() == 0 {
        0
    } else if asset_amount(unspents[0], asset_id) >= amount_needed {
        1
    } else {
        1 + inputs_used(
            unspents.drop_first(),
            asset_id,
            amount_needed - asset_amount(unspents[0], asset_id),
        )
    }
}

/// The outputs that pay for an amount.
pub open spec fn payers(
    unspents: Seq<LocalUnspent>,
    asset_id: Seq<char>,
    amount_needed: u64,
) -> Seq<LocalUnspent> {
    settled(unspents).take(inputs_used(settled(unspents), asset_id, amount_needed as int) as int)
}

/// No more outputs pay than there are, and none only where there is none.
pub proof fn lemma_inputs_used_bound(unspents: Seq<LocalUnspent>, asset_id: Seq<char>, needed: int)
    ensures
        inputs_used(unspents, asset_id, needed) <= unspents.len(),
        unspents.len() > 0 ==> inputs_used(unspents, asset_id, needed) > 0,
    decreases unspents.len(),
{
    if unspents.len() > 0 && asset_amount(unspents[0], asset_id) < needed {
        lemma_inputs_used_bound(
            unspents.drop_first(),
            asset_id,
            needed - asset_amount(unspents[0], asset_id),
        );
    }
}

proof fn lemma_amount_step(unspents: Seq<LocalUnspent>, asset_id: Seq<char>, i: int)
    requires
        0 <= i < unspents.len(),
    ensures
        amount_on(unspents.take(i + 1), asset_id) == amount_on(unspents.take(i), asset_id)
            + asset_amount(unspents[i], asset_id),
{
    assert(unspents.take(i + 1).drop_last() =~= unspents.take(i));
}

proof fn lemma_amount_prefix(unspents: Seq<LocalUnspent>, asset_id: Seq<char>, i: int, n: int)
    requires
        0 <= i <= n <= unspents.len(),
    ensures
        amount_on(unspents.take(i), asset_id) <= amount_on(unspents.take(n), asset_id),
    decreases n - i,
{
    if i < n {
        lemma_amount_step(unspents, asset_id, i);
        lemma_amount_prefix(unspents, asset_id, i + 1, n);
    }
}

fn has_only_settled(allocations: &Vec<RgbAllocation>) -> (r: bool)
    ensures
        r == forall|i: int| 0 <= i < allocations@.len() ==> (#[trigger] allocations@[i]).settled,
{
    let mut i: usize = 0;
    while i < allocations.len()
        invariant
            i <= allocations.len(),
            forall|k: int| 0 <= k < i ==> (#[trigger] allocations@[k]).settled,
        decreases allocations.len() - i,
    {
        if !allocations[i].settled {
            return false;
        }
        i += 1;
    }
    true
}

fn get_asset_amount(u: &LocalUnspent, asset_id: &String) -> (r: u64)
    requires
        asset_amount(*u, asset_id@) <= u64::MAX,
    ensures
        r == asset_amount(*u, asset_id@),
{
    let ghost p = |a: RgbAllocation| opt_text(a.asset_id) == Some(asset_id@);
    let ghost f = |a: RgbAllocation| a.amount;
    let ghost all = u.rgb_allocations@;
    let wanted: Option<String> = Some(asset_id.clone());
    let mut acc: u64 = 0;
    let mut i: usize = 0;
    proof {
        lemma_filter_ends(all, p);
        assert(all.take(0).filter(p).map_values(f) =~= Seq::<u64>::empty());
    }
    while i < u.rgb_allocations.len()
        invariant
            i <= u.rgb_allocations.len(),
            all == u.rgb_allocations@,
            opt_text(wanted) == Some(asset_id@),
            p == (|a: RgbAllocation| opt_text(a.asset_id) == Some(asset_id@)),
            f == (|a: RgbAllocation| a.amount),
            sum(all.filter(p).map_values(f)) <= u64::MAX,
            acc == sum(all.take(i as int).filter(p).map_values(f)),
        decreases u.rgb_allocations.len() - i,
    {
        proof {
            lemma_filter_step(all, p, i as int);
            let head = all.take(i + 1);
            assert(all =~= head + all.skip(i + 1));
            Seq::filter_distributes_over_add(head, all.skip(i + 1), p);
            let whole = all.filter(p).map_values(f);
            let part = head.filter(p).map_values(f);
            assert(whole.take(part.len() as int) =~= part);
            lemma_sum_prefix(whole, part.len() as int);
            if p(all[i as int]) {
                assert(part.drop_last() =~= all.take(i as int).filter(p).map_values(f));
            }
        }
        if same_text(&u.rgb_allocations[i].asset_id, &wanted) {
            acc = acc + u.rgb_allocations[i].amount;
        }
        i += 1;
    }
    proof {
        lemma_filter_ends(all, p);
    }
    acc
}

/// Gives the outputs with an asset that no other transfer has as an input.
pub fn spendable_asset_txos(asset_txos: &Vec<DbTxo>, unspendable_txo_ids: &Vec<i64>) -> (r: Vec<
    DbTxo,
>)
    ensures
        r@ == asset_txos@.filter(|t: DbTxo| !unspendable_txo_ids@.contains(t.idx)),
{
    let ghost p = |t: DbTxo| !unspendable_txo_ids@.contains(t.idx);
    let mut kept: Vec<DbTxo> = Vec::new();
    let mut i: usize = 0;
    proof {
        lemma_filter_ends(asset_txos@, p);
    }
    while i < asset_txos.len()
        invariant
            i <= asset_txos.len(),
            p == (|t: DbTxo| !unspendable_txo_ids@.contains(t.idx)),
            kept@ == asset_txos@.take(i as int).filter(p),
        decreases asset_txos.len() - i,
    {
        proof {
            lemma_filter_step(asset_txos@, p, i as int);
        }
        if !has_id(unspendable_txo_ids, asset_txos[i].idx) {
            kept.push(asset_txos[i].clone());
        }
        i += 1;
    }
    proof {
        lemma_filter_ends(asset_txos@, p);
    }
    kept
}

/// Whether a spend is made of given outputs, for a given amount.
pub open spec fn spends(
    spend: AssetSpend,
    payers: Seq<LocalUnspent>,
    asset_id: Seq<char>,
    amount_needed: u64,
) -> bool {
    &&& spend.txo_map@ == payers.map_values(
        |u: LocalUnspent| (u.utxo.idx, asset_amount(u, asset_id) as u64),
    )
    &&& spend.input_outpoints@ == payers.map_values(|u: LocalUnspent| u.utxo.outpoint_spec())
    &&& spend.change_amount == amount_on(payers, asset_id) - amount_needed
}

/// Chooses the outputs that pay for an amount of an asset.
///
/// Outputs with allocations that are not settled are passed over. The others
/// pay in their order, until the amount is reached.
pub fn select_rgb_inputs(unspents: &Vec<LocalUnspent>, asset_id: &String, amount_needed: u64) -> (r:
    Result<AssetSpend, WalletError>)
    requires
        amount_on(payers(unspents@, asset_id@, amount_needed), asset_id@) <= u64::MAX,
    ensures
        ({
            let paying = payers(unspents@, asset_id@, amount_needed);
            &&& r is Ok <==> amount_on(paying, asset_id@) >= amount_needed
            &&& r is Err ==> (r matches Err(WalletError::InsufficientAssets))
            &&& r matches Ok(spend) ==> spends(spend, paying, asset_id@, amount_needed)
        }),
{
    let ghost p = |u: LocalUnspent| all_settled(u);
    let ghost id = asset_id@;
    let ghost all = settled(unspents@);
    let ghost used = inputs_used(all, id, amount_needed as int) as int;
    let mut txo_map: Vec<(i64, u64)> = Vec::new();
    let mut input_outpoints: Vec<Outpoint> = Vec::new();
    let mut amount_input_asset: u64 = 0;
    let mut i: usize = 0;
    let mut done: bool = false;
    proof {
        lemma_filter_ends(unspents@, p);
        lemma_inputs_used_bound(all, id, amount_needed as int);
        assert(all.skip(0) =~= all);
        assert(amount_on(all.take(0), id) == 0);
    }
    while i < unspents.len() && !done
        invariant
            i <= unspents.len(),
            p == (|u: LocalUnspent| all_settled(u)),
            id == asset_id@,
            all == unspents@.filter(p),
            used == inputs_used(all, id, amount_needed as int),
            used <= all.len(),
            amount_on(all.take(used), id) <= u64::MAX,
            txo_map@.len() <= all.len(),
            !done ==> txo_map@.len() == unspents@.take(i as int).filter(p).len(),
            txo_map@.len() <= used,
            amount_input_asset == amount_on(all.take(txo_map@.len() as int), id),
            txo_map@ == all.take(txo_map@.len() as int).map_values(
                |u: LocalUnspent| (u.utxo.idx, asset_amount(u, id) as u64),
            ),
            input_outpoints@ == all.take(txo_map@.len() as int).map_values(
                |u: LocalUnspent| u.utxo.outpoint_spec(),
            ),
            done ==> txo_map@.len() == used && amount_input_asset >= amount_needed,
            !done ==> used == txo_map@.len() + inputs_used(
                all.skip(txo_map@.len() as int),
                id,
                amount_needed - amount_input_asset,
            ),
        decreases unspents.len() - i,
    {
        let ghost k = txo_map@.len() as int;
        proof {
            lemma_filter_step(unspents@, p, i as int);
            let head = unspents@.take(i + 1);
            assert(unspents@ =~= head + unspents@.skip(i + 1));
            Seq::filter_distributes_over_add(head, unspents@.skip(i + 1), p);
        }
        if has_only_settled(&unspents[i].rgb_allocations) {
            proof {
                assert(p(unspents@[i as int]));
                assert(all[k] == unspents@[i as int]);
                assert(all.skip(k)[0] == all[k]);
                assert(all.skip(k).drop_first() =~= all.skip(k + 1));
                assert(k < used);
                lemma_amount_step(all, id, k);
                lemma_amount_prefix(all, id, k + 1, used);
            }
            let amount_allocation: u64 = get_asset_amount(&unspents[i], asset_id);
            txo_map.push((unspents[i].utxo.idx, amount_allocation));
            input_outpoints.push(unspents[i].utxo.outpoint());
            amount_input_asset = amount_input_asset + amount_allocation;
            assert(txo_map@ =~= all.take(k + 1).map_values(
                |u: LocalUnspent| (u.utxo.idx, asset_amount(u, id) as u64),
            ));
            assert(input_outpoints@ =~= all.take(k + 1).map_values(
                |u: LocalUnspent| u.utxo.outpoint_spec(),
            ));
            if amount_input_asset >= amount_needed {
                done = true;
            }
        }
        i += 1;
    }
    proof {
        lemma_filter_ends(unspents@, p);
        if !done {
            assert(all.skip(all.len() as int).len() == 0);
        }
    }
    if amount_input_asset < amount_needed {
        return Err(WalletError::InsufficientAssets);
    }
    Ok(AssetSpend { txo_map, input_outpoints, change_amount: amount_input_asset - amount_needed })
}

/// The amounts of a spend.
pub open spec fn spent_amounts(spend: AssetSpend) -> Seq<u64> {
    spend.txo_map@.map_values(|e: (i64, u64)| e.1)
}

proof fn lemma_payers_sum(payers: Seq<LocalUnspent>, asset_id: Seq<char>)
    requires
        amount_on(payers, asset_id) <= u64::MAX,
    ensures
        sum(payers.map_values(|u: LocalUnspent| asset_amount(u, asset_id) as u64)) == amount_on(
            payers,
            asset_id,
        ),
    decreases payers.len(),
{
    let f = |u: LocalUnspent| asset_amount(u, asset_id) as u64;
    let amounts = payers.map_values(f);
    if payers.len() > 0 {
        lemma_payers_sum(payers.drop_last(), asset_id);
        assert(amounts.drop_last() =~= payers.drop_last().map_values(f));
        assert(amounts.last() == asset_amount(payers.last(), asset_id) as u64);
    }
}

/// The inputs of a transfer hold what is sent and the change, and nothing else.
pub proof fn inputs_are_payment_and_change(
    spend: AssetSpend,
    unspents: Seq<LocalUnspent>,
    asset_id: Seq<char>,
    amount_needed: u64,
)
    requires
        amount_on(payers(unspents, asset_id, amount_needed), asset_id) <= u64::MAX,
        spends(spend, payers(unspents, asset_id, amount_needed), asset_id, amount_needed),
    ensures
        sum(spent_amounts(spend)) == amount_needed + spend.change_amount,
{
    let paying = payers(unspents, asset_id, amount_needed);
    lemma_payers_sum(paying, asset_id);
    assert(spent_amounts(spend) =~= paying.map_values(
        |u: LocalUnspent| asset_amount(u, asset_id) as u64,
    ));
}

proof fn lemma_one_less_is_short(unspents: Seq<LocalUnspent>, asset_id: Seq<char>, needed: int)
    ensures
        ({
            let n = inputs_used(unspents, asset_id, needed) as int;
            n > 1 ==> amount_on(unspents.take(n - 1), asset_id) < needed
        }),
    decreases unspents.len(),
{
    let n = inputs_used(unspents, asset_id, needed) as int;
    if n > 1 {
        let rest = unspents.drop_first();
        let left = needed - asset_amount(unspents[0], asset_id);
        lemma_one_less_is_short(rest, asset_id, left);
        lemma_inputs_used_bound(unspents, asset_id, needed);
        lemma_amount_front(unspents.take(n - 1), asset_id);
        assert(unspents.take(n - 1).drop_first() =~= rest.take(n - 2));
        if n == 2 {
            assert(rest.take(0) =~= Seq::<LocalUnspent>::empty());
        }
    }
}

proof fn lemma_amount_front(unspents: Seq<LocalUnspent>, asset_id: Seq<char>)
    requires
        unspents.len() > 0,
    ensures
        amount_on(unspents, asset_id) == asset_amount(unspents[0], asset_id) + amount_on(
            unspents.drop_first(),
            asset_id,
        ),
    decreases unspents.len(),
{
    if unspents.len() == 1 {
        assert(unspents.drop_last() =~= Seq::<LocalUnspent>::empty());
        assert(unspents.drop_first() =~= Seq::<LocalUnspent>::empty());
    } else {
        lemma_amount_front(unspents.drop_last(), asset_id);
        assert(unspents.drop_last().drop_first() =~= unspents.drop_first().drop_last());
    }
}

/// No output is spent that is not needed: without the last one the amount is not
/// reached. Only settled outputs that were offered are spent.
pub proof fn no_input_is_superfluous(
    unspents: Seq<LocalUnspent>,
    asset_id: Seq<char>,
    amount_needed: u64,
)
    ensures
        ({
            let paying = payers(unspents, asset_id, amount_needed);
            &&& paying.len() > 1 ==> amount_on(paying.drop_last(), asset_id) < amount_needed
            &&& forall|i: int|
                0 <= i < paying.len() ==> all_settled(#[trigger] paying[i]) && unspents.contains(
                    paying[i],
                )
        }),
{
    let p = |u: LocalUnspent| all_settled(u);
    let all = settled(unspents);
    let n = inputs_used(all, asset_id, amount_needed as int) as int;
    let paying = payers(unspents, asset_id, amount_needed);
    lemma_inputs_used_bound(all, asset_id, amount_needed as int);
    lemma_one_less_is_short(all, asset_id, amount_needed as int);
    if n > 1 {
        assert(paying.drop_last() =~= all.take(n - 1));
    }
    assert forall|i: int| 0 <= i < paying.len() implies all_settled(#[trigger] paying[i])
        && unspents.contains(paying[i]) by {
        assert(paying[i] == all[i]);
        unspents.lemma_filter_pred(p, i);
        unspents.lemma_filter_contains_rev(p, all[i]);
    }
}

/// Success is owed wherever the settled outputs hold the amount.
pub proof fn enough_assets_are_found(
    unspents: Seq<LocalUnspent>,
    asset_id: Seq<char>,
    amount_needed: u64,
)
    ensures
        amount_on(payers(unspents, asset_id, amount_needed), asset_id) >= amount_needed
            <==> amount_on(settled(unspents), asset_id) >= amount_needed,
{
    let all = settled(unspents);
    let n = inputs_used(all, asset_id, amount_needed as int) as int;
    lemma_inputs_used_bound(all, asset_id, amount_needed as int);
    lemma_amount_prefix(all, asset_id, n, all.len() as int);
    assert(all.take(all.len() as int) =~= all);
    lemma_used_or_all(all, asset_id, amount_needed as int);
}

proof fn lemma_used_or_all(unspents: Seq<LocalUnspent>, asset_id: Seq<char>, needed: int)
    ensures
        ({
            let n = inputs_used(unspents, asset_id, needed) as int;
            amount_on(unspents.take(n), asset_id) >= needed || n == unspents.len()
        }),
    decreases unspents.len(),
{
    let n = inputs_used(unspents, asset_id, needed) as int;
    if unspents.len() > 0 {
        lemma_inputs_used_bound(unspents, asset_id, needed);
        lemma_amount_front(unspents.take(n), asset_id);
        if asset_amount(unspents[0], asset_id) < needed {
            let rest = unspents.drop_first();
            lemma_used_or_all(rest, asset_id, needed - asset_amount(unspents[0], asset_id));
            assert(unspents.take(n).drop_first() =~= rest.take(n - 1));
        }
    }
}

/// Whether a coloring is the given one.
pub open spec fn is_coloring(c: NewColoring, txo_idx: i64, kind: ColoringType, amount: u64) -> bool {
    &&& c.txo_idx == txo_idx
    &&& c.coloring_type == kind
    &&& c.amount@ == decimal(amount as nat)
}

/// Whether an asset transfer is the one that is stored of what the user sends of
/// an asset: its inputs and the change as colorings, a transfer for each
/// recipient.
pub open spec fn records_transfer(
    a: NewAssetTransfer,
    asset_id: Seq<char>,
    info: InfoAssetTransfer,
    change_utxo_idx: i64,
) -> bool {
    let inputs = info.asset_spend.txo_map@;
    let recipients = info.recipients@;
    &&& a.user_driven
    &&& opt_text(a.asset_id) == Some(asset_id)
    &&& a.colorings@.len() == inputs.len() + 1
    &&& forall|i: int|
        0 <= i < inputs.len() ==> is_coloring(
            #[trigger] a.colorings@[i],
            inputs[i].0,
            ColoringType::Input,
            inputs[i].1,
        )
    &&& is_coloring(
        a.colorings@[inputs.len() as int],
        change_utxo_idx,
        ColoringType::Change,
        info.asset_spend.change_amount,
    )
    &&& a.transfers@.len() == recipients.len()
    &&& forall|i: int|
        0 <= i < recipients.len() ==> {
            &&& (#[trigger] a.transfers@[i]).amount@ == decimal(recipients[i].amount as nat)
            &&& opt_text(a.transfers@[i].blinded_utxo) == Some(recipients[i].blinded_utxo@)
            &&& a.transfers@[i].blinding_secret is None
        }
}

/// Whether an asset transfer is the one that is stored of an asset that moves to
/// the change along with others.
pub open spec fn records_blank(
    a: NewAssetTransfer,
    asset_id: Seq<char>,
    amount: u64,
    change_utxo_idx: i64,
) -> bool {
    &&& !a.user_driven
    &&& opt_text(a.asset_id) == Some(asset_id)
    &&& a.transfers@.len() == 0
    &&& a.colorings@.len() == 1
    &&& is_coloring(a.colorings@[0], change_utxo_idx, ColoringType::Change, amount)
}

fn record_transfer(asset_id: &String, info: &InfoAssetTransfer, change_utxo_idx: i64) -> (r:
    NewAssetTransfer)
    ensures
        records_transfer(r, asset_id@, *info, change_utxo_idx),
{
    let inputs: &Vec<(i64, u64)> = &info.asset_spend.txo_map;
    let mut colorings: Vec<NewColoring> = Vec::new();
    let mut i: usize = 0;
    while i < inputs.len()
        invariant
            i <= inputs.len(),
            colorings@.len() == i,
            forall|k: int|
                0 <= k < i ==> is_coloring(
                    #[trigger] colorings@[k],
                    inputs@[k].0,
                    ColoringType::Input,
                    inputs@[k].1,
                ),
        decreases inputs.len() - i,
    {
        colorings.push(
            NewColoring {
                txo_idx: inputs[i].0,
                coloring_type: ColoringType::Input,
                amount: u64_to_string(inputs[i].1),
            },
        );
        i += 1;
    }
    colorings.push(
        NewColoring {
            txo_idx: change_utxo_idx,
            coloring_type: ColoringType::Change,
            amount: u64_to_string(info.asset_spend.change_amount),
        },
    );
    let recipients: &Vec<Recipient> = &info.recipients;
    let mut transfers: Vec<NewTransfer> = Vec::new();
    let mut j: usize = 0;
    while j < recipients.len()
        invariant
            j <= recipients.len(),
            transfers@.len() == j,
            forall|k: int|
                0 <= k < j ==> {
                    &&& (#[trigger] transfers@[k]).amount@ == decimal(
                        recipients@[k].amount as nat,
                    )
                    &&& opt_text(transfers@[k].blinded_utxo) == Some(
                        recipients@[k].blinded_utxo@,
                    )
                    &&& transfers@[k].blinding_secret is None
                },
        decreases recipients.len() - j,
    {
        transfers.push(
            NewTransfer {
                amount: u64_to_string(recipients[j].amount),
                blinded_utxo: Some(recipients[j].blinded_utxo.clone()),
                blinding_secret: None,
            },
        );
        j += 1;
    }
    NewAssetTransfer { user_driven: true, asset_id: Some(asset_id.clone()), transfers, colorings }
}

fn record_blank(asset_id: &String, amount: u64, change_utxo_idx: i64) -> (r: NewAssetTransfer)
    ensures
        records_blank(r, asset_id@, amount, change_utxo_idx),
{
    let mut colorings: Vec<NewColoring> = Vec::new();
    colorings.push(
        NewColoring {
            txo_idx: change_utxo_idx,
            coloring_type: ColoringType::Change,
            amount: u64_to_string(amount),
        },
    );
    NewAssetTransfer {
        user_driven: false,
        asset_id: Some(asset_id.clone()),
        transfers: Vec::new(),
        colorings,
    }
}

/// Whether a batch transfer is the one that is stored of a transaction: what the
/// user sends of each asset, then what moves to the change along with it.
pub open spec fn records_batch(
    b: NewBatchTransfer,
    txid: Seq<char>,
    transfers: Seq<(String, InfoAssetTransfer)>,
    blank_allocations: Seq<(String, u64)>,
    change_utxo_idx: i64,
    status: TransferStatus,
    now: i64,
) -> bool {
    &&& opt_text(b.txid) == Some(txid)
    &&& b.status == status
    &&& b.expiration == Some((now + DURATION_SEND_TRANSFER) as i64)
    &&& b.asset_transfers@.len() == transfers.len() + blank_allocations.len()
    &&& forall|i: int|
        0 <= i < transfers.len() ==> records_transfer(
            #[trigger] b.asset_transfers@[i],
            transfers[i].0@,
            transfers[i].1,
            change_utxo_idx,
        )
    &&& forall|i: int|
        transfers.len() <= i < b.asset_transfers@.len() ==> records_blank(
            #[trigger] b.asset_transfers@[i],
            blank_allocations[i - transfers.len()].0@,
            blank_allocations[i - transfers.len()].1,
            change_utxo_idx,
        )
}

/// Gives the rows to store of a transaction that transfers assets.
pub fn save_transfers(
    txid: &String,
    transfer_info_map: &Vec<(String, InfoAssetTransfer)>,
    blank_allocations: &Vec<(String, u64)>,
    change_utxo_idx: i64,
    status: TransferStatus,
    now: i64,
) -> (r: NewBatchTransfer)
    requires
        now + DURATION_SEND_TRANSFER <= i64::MAX,
    ensures
        records_batch(
            r,
            txid@,
            transfer_info_map@,
            blank_allocations@,
            change_utxo_idx,
            status,
            now,
        ),
{
    let mut asset_transfers: Vec<NewAssetTransfer> = Vec::new();
    let mut i: usize = 0;
    while i < transfer_info_map.len()
        invariant
            i <= transfer_info_map.len(),
            asset_transfers@.len() == i,
            forall|k: int|
                0 <= k < i ==> records_transfer(
                    #[trigger] asset_transfers@[k],
                    transfer_info_map@[k].0@,
                    transfer_info_map@[k].1,
                    change_utxo_idx,
                ),
        decreases transfer_info_map.len() - i,
    {
        asset_transfers.push(
            record_transfer(&transfer_info_map[i].0, &transfer_info_map[i].1, change_utxo_idx),
        );
        i += 1;
    }
    let mut j: usize = 0;
    while j < blank_allocations.len()
        invariant
            j <= blank_allocations.len(),
            asset_transfers@.len() == transfer_info_map@.len() + j,
            forall|k: int|
                0 <= k < transfer_info_map@.len() ==> records_transfer(
                    #[trigger] asset_transfers@[k],
                    transfer_info_map@[k].0@,
                    transfer_info_map@[k].1,
                    change_utxo_idx,
                ),
            forall|k: int|
                transfer_info_map@.len() <= k < asset_transfers@.len() ==> records_blank(
                    #[trigger] asset_transfers@[k],
                    blank_allocations@[k - transfer_info_map@.len()].0@,
                    blank_allocations@[k - transfer_info_map@.len()].1,
                    change_utxo_idx,
                ),
        decreases blank_allocations.len() - j,
    {
        asset_transfers.push(
            record_blank(&blank_allocations[j].0, blank_allocations[j].1, change_utxo_idx),
        );
        j += 1;
    }
    NewBatchTransfer {
        txid: Some(txid.clone()),
        status,
        expiration: Some(now + DURATION_SEND_TRANSFER),
        asset_transfers,
    }
}

/// The amounts of recipients.
pub open spec fn recipient_amounts(recipients: Seq<Recipient>) -> Seq<u64> {
    recipients.map_values(|r: Recipient| r.amount)
}

/// What is stored of a transfer adds up: the inputs of an asset are what its
/// recipients get and the change.
pub proof fn stored_amounts_add_up(
    a: NewAssetTransfer,
    asset_id: Seq<char>,
    info: InfoAssetTransfer,
    change_utxo_idx: i64,
)
    requires
        records_transfer(a, asset_id, info, change_utxo_idx),
        sum(spent_amounts(info.asset_spend)) == sum(recipient_amounts(info.recipients@))
            + info.asset_spend.change_amount,
    ensures
        colored_total(a.colorings@, ColoringType::Input) == transferred_total(a.transfers@)
            + colored_total(a.colorings@, ColoringType::Change),
{
    let inputs = info.asset_spend.txo_map@;
    let n = inputs.len() as int;
    let head = a.colorings@.take(n);
    let change = a.colorings@[n];
    let is_input = |c: NewColoring| c.coloring_type == ColoringType::Input;
    let is_change = |c: NewColoring| c.coloring_type == ColoringType::Change;
    assert(a.colorings@ =~= head.push(change));
    lemma_one_kind(head, ColoringType::Input);
    head.lemma_filter_push(change, is_input);
    head.lemma_filter_push(change, is_change);
    crate::seqs::lemma_no_first(head, is_change);
    assert(colored_amounts(a.colorings@, ColoringType::Input) =~= spent_amounts(
        info.asset_spend,
    )) by {
        assert forall|i: int| 0 <= i < n implies parsed_u64(
            (#[trigger] head[i]).amount@,
        )->0 == inputs[i].1 by {
            assert(is_coloring(a.colorings@[i], inputs[i].0, ColoringType::Input, inputs[i].1));
            rendered_amounts_read_back(inputs[i].1);
        }
    }
    rendered_amounts_read_back(info.asset_spend.change_amount);
    let changed = colored_amounts(a.colorings@, ColoringType::Change);
    assert(changed =~= seq![info.asset_spend.change_amount]);
    assert(changed.drop_last() =~= Seq::<u64>::empty());
    assert(sum(changed.drop_last()) == 0);
    assert(sum(changed) == info.asset_spend.change_amount);
    assert(a.transfers@.map_values(|t: NewTransfer| parsed_u64(t.amount@)->0)
        =~= recipient_amounts(info.recipients@)) by {
        assert forall|i: int| 0 <= i < a.transfers@.len() implies parsed_u64(
            (#[trigger] a.transfers@[i]).amount@,
        )->0 == info.recipients@[i].amount by {
            rendered_amounts_read_back(info.recipients@[i].amount);
        }
    }
}

} // verus!
