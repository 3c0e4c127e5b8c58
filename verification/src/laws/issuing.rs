//! Issuing assets.

use vstd::prelude::*;

use crate::chain::canonical;
use crate::database::{DbTxo, LocalUnspent};
use crate::error::{InternalError, WalletError};
use crate::laws::sending::is_text;
use crate::laws::transfers::is_connected;
use crate::rgb_data::{
    allocation_views, alone_on_output, ascii_error, coin_amounts, coins_on, consignment_parts,
    field_values, genesis_network, holds_coin, is_ascii_text, is_rgb20, known_coins,
};
use crate::seqs::{lemma_first_index, sum};
use crate::text::decimal;
use crate::wallet::issue::{
    check_registered, get_contract_network, get_known_coins, outpoints_of_txos, Issuance,
    IssuanceRecord, IssuedContract,
};
use crate::wallet::outputs::{allocatable, get_spendable_bitcoins, next_utxo};
use crate::wallet::types::{listed, BitcoinNetwork, Online, Outpoint};
use crate::wallet::Wallet;

verus! {

/// Whether an output can take an amount of an issuance: it is made for allocations, holds
/// fewer than five of them, and no earlier amount went to it.
pub open spec fn is_free(u: LocalUnspent, taken: Seq<DbTxo>) -> bool {
    &&& u.utxo.colorable
    &&& u.rgb_allocations@.len() < 5
    &&& forall|k: int|
        0 <= k < taken.len() ==> (#[trigger] taken[k]).txid@ != u.utxo.txid@ || taken[k].vout
            != u.utxo.vout
}

/// Whether an output is the first one of a list that can take an amount.
pub open spec fn is_first_free(
    utxo: DbTxo,
    unspents: Seq<LocalUnspent>,
    taken: Seq<DbTxo>,
) -> bool {
    exists|i: int|
        {
            &&& 0 <= i < unspents.len()
            &&& (#[trigger] unspents[i]).utxo == utxo
            &&& is_free(unspents[i], taken)
            &&& forall|j: int| 0 <= j < i ==> !is_free(#[trigger] unspents[j], taken)
        }
}

/// Whether no output of a list can take an amount.
pub open spec fn none_is_free(unspents: Seq<LocalUnspent>, taken: Seq<DbTxo>) -> bool {
    forall|i: int| 0 <= i < unspents.len() ==> !is_free(#[trigger] unspents[i], taken)
}

/// The next output is the first one that can take an amount, and there is one unless none
/// can.
pub proof fn lemma_next_free(unspents: Seq<LocalUnspent>, taken: Seq<DbTxo>)
    ensures
        match next_utxo(unspents, outpoints_of_txos(taken)) {
            Some(utxo) => is_first_free(utxo, unspents, taken) && !none_is_free(unspents, taken),
            None => none_is_free(unspents, taken),
        },
{
    let outpoints = outpoints_of_txos(taken);
    let p = |u: LocalUnspent| allocatable(u, outpoints);
    lemma_first_index(unspents, p);
    assert forall|i: int| 0 <= i < unspents.len() implies p(#[trigger] unspents[i]) == is_free(
        unspents[i],
        taken,
    ) by {
        let o = unspents[i].utxo.outpoint_spec()@;
        assert forall|k: int| 0 <= k < taken.len() implies (outpoints[k]@ == o) == ((
        #[trigger] taken[k]).txid@ == unspents[i].utxo.txid@ && taken[k].vout
            == unspents[i].utxo.vout) by {
            assert(outpoints[k] == taken[k].outpoint_spec());
            assert(outpoints[k]@.0 == taken[k].txid@ && o.0 == unspents[i].utxo.txid@);
            if taken[k].txid@ == unspents[i].utxo.txid@ && taken[k].vout
                == unspents[i].utxo.vout {
                assert(outpoints[k]@ == o);
            }
        }
        if listed(outpoints, o) {
            let k = choose|k: int| 0 <= k < outpoints.len() && (#[trigger] outpoints[k])@ == o;
            assert(taken[k].txid@ == unspents[i].utxo.txid@);
        }
        if !is_free(unspents[i], taken) && unspents[i].utxo.colorable
            && unspents[i].rgb_allocations@.len() < 5 {
            let k = choose|k: int|
                0 <= k < taken.len() && !((#[trigger] taken[k]).txid@ != unspents[i].utxo.txid@
                    || taken[k].vout != unspents[i].utxo.vout);
            assert(outpoints[k]@ == o);
        }
    }
    if next_utxo(unspents, outpoints) is Some {
        let i = choose|i: int|
            0 <= i < unspents.len() && p(#[trigger] unspents[i]) && unspents[i]
                == unspents.filter(p)[0] && forall|k: int|
                0 <= k < i ==> !p(#[trigger] unspents[k]);
        assert(is_free(unspents[i], taken));
        assert(unspents[i].utxo == unspents.filter(p)[0].utxo);
    }
}

/// An issuance needs amounts and a wallet that is online. It starts with the amounts that
/// are given and with no output.
pub proof fn issuances_start_with_their_amounts(
    wallet: Wallet,
    online: Online,
    amounts: Vec<u64>,
    r: Result<Issuance, WalletError>,
)
    requires
        call_ensures(Wallet::issue_asset, (&wallet, &online, amounts), r),
    ensures
        amounts@.len() == 0 ==> (r matches Err(WalletError::NoIssuanceAmounts)),
        amounts@.len() > 0 && !is_connected(wallet, online) ==> (r matches Err(
            WalletError::InvalidOnline,
        )),
        amounts@.len() > 0 && is_connected(wallet, online) ==> (r matches Ok(issuance)
            && issuance.amounts() == amounts@ && issuance.outputs().len() == 0),
{
}

/// Whether a text has a character that is not ASCII.
pub open spec fn has_other_characters(s: Seq<char>) -> bool {
    exists|i: int| 0 <= i < s.len() && (#[trigger] s[i]) as u32 >= 128
}

/// Whether no other output of an issuance is the same as one of them.
pub open spec fn is_only_output(outputs: Seq<DbTxo>, i: int) -> bool {
    forall|j: int|
        0 <= j < outputs.len() && j != i ==> canonical(
            ((#[trigger] outputs[j]).txid@, outputs[j].vout),
        ) != canonical((outputs[i].txid@, outputs[i].vout))
}

/// The contract of an issuance has the ticker, the name, the precision and the network that
/// are asked for, and knows each amount on the output that it goes to. That fails exactly
/// where the ticker or the name is not made of ASCII characters.
pub proof fn contracts_are_made_as_asked(
    issuance: Issuance,
    network: BitcoinNetwork,
    ticker: &str,
    name: &str,
    precision: u8,
    r: Result<IssuedContract, WalletError>,
)
    requires
        issuance.wf(),
        issuance.complete(),
        call_ensures(Issuance::create, (&issuance, network, ticker, name, precision), r),
    ensures
        has_other_characters(ticker@) ==> (r matches Err(WalletError::InvalidTicker(details))
            && details@ == ascii_error(ticker@)),
        !has_other_characters(ticker@) && has_other_characters(name@) ==> (r matches Err(
            WalletError::InvalidName(details),
        ) && details@ == ascii_error(name@)),
        !has_other_characters(ticker@) && !has_other_characters(name@) ==> r is Ok,
        r matches Ok(issued) ==> {
            &&& consignment_parts(issued.contract@) matches Some(parts) && parts.0
                == issued.asset_id@
            &&& genesis_network(issued.contract@) == Some(network)
            &&& field_values(issued.contract@) matches Some(f) && f.0.len() > 0 && f.0[0]
                == ticker@ && f.1.len() > 0 && f.1[0] == name@ && f.2.len() > 0 && f.2[0]
                == precision
            &&& forall|i: int|
                0 <= i < issuance.outputs().len() && is_only_output(issuance.outputs(), i)
                    ==> is_only_coin(
                    issued.contract@,
                    #[trigger] issuance.outputs()[i],
                    issuance.amounts()[i],
                )
        },
{
    lemma_ascii(ticker@);
    lemma_ascii(name@);
    if r is Ok {
        let contract = r->Ok_0.contract@;
        let outputs = issuance.outputs();
        let allocations = issuance.allocations();
        assert forall|i: int|
            0 <= i < outputs.len() && is_only_output(outputs, i) implies is_only_coin(
            contract,
            #[trigger] outputs[i],
            issuance.amounts()[i],
        ) by {
            assert(allocations[i].0@ == (outputs[i].txid@, outputs[i].vout));
            assert forall|j: int| 0 <= j < allocations.len() && j != i implies canonical(
                (#[trigger] allocations[j]).0@,
            ) != canonical(allocations[i].0@) by {
                assert(allocations[j].0@ == (outputs[j].txid@, outputs[j].vout));
            }
            assert(alone_on_output(allocations, i));
            assert(holds_coin(contract, allocations[i].0@, allocations[i].1));
            let coins = coins_on(contract, canonical((outputs[i].txid@, outputs[i].vout)));
            assert(coin_amounts(coins).len() == coins.len());
            assert(coin_amounts(coins)[0] == coins[0].0);
        }
    }
}

/// Whether a contract knows one coin on an output, of an amount.
pub open spec fn is_only_coin(contract: Seq<u8>, t: DbTxo, amount: u64) -> bool {
    let coins = coins_on(contract, canonical((t.txid@, t.vout)));
    coins.len() == 1 && coins[0].0 == amount
}

proof fn lemma_ascii(s: Seq<char>)
    ensures
        is_ascii_text(s) <==> !has_other_characters(s),
{
    if !has_other_characters(s) {
        assert forall|i: int| 0 <= i < s.len() implies (#[trigger] s[i]) as u32 <= 127 by {
            assert(!(s[i] as u32 >= 128));
        }
    }
}

/// What amounts make together.
pub open spec fn together(amounts: Seq<u64>) -> int
    decreases amounts.len(),
{
    if amounts.len() == 0 {
        0
    } else {
        together(amounts.drop_last()) + amounts.last()
    }
}

/// Amounts make together what they add up to.
pub proof fn lemma_together(amounts: Seq<u64>)
    ensures
        together(amounts) == sum(amounts),
    decreases amounts.len(),
{
    if amounts.len() > 0 {
        lemma_together(amounts.drop_last());
    }
}

/// What is stored of an issuance is the asset, and one settled transfer of all amounts that
/// puts each of them on its output. All of it is owned at once.
pub proof fn issued_amounts_are_settled(
    issuance: Issuance,
    asset_id: String,
    ticker: String,
    name: String,
    precision: u8,
    r: IssuanceRecord,
)
    requires
        together(issuance.amounts()) <= u64::MAX,
        call_ensures(Issuance::record, (&issuance, asset_id, ticker, name, precision), r),
    ensures
        r.db_asset.idx == 0,
        r.db_asset.asset_id@ == asset_id@,
        r.db_asset.ticker@ == ticker@,
        r.db_asset.name@ == name@,
        r.db_asset.precision == precision,
        r.asset.asset_id@ == asset_id@,
        r.asset.ticker@ == ticker@,
        r.asset.name@ == name@,
        r.asset.precision == precision,
        r.asset.balance.settled == together(issuance.amounts()),
        r.asset.balance.future == together(issuance.amounts()),
        r.batch_transfer.txid is None,
        r.batch_transfer.status is Settled,
        r.batch_transfer.expiration is None,
        r.batch_transfer.asset_transfers@.len() == 1,
        ({
            let a = r.batch_transfer.asset_transfers@[0];
            &&& a.user_driven
            &&& is_text(a.asset_id, asset_id@)
            &&& a.transfers@.len() == 1
            &&& a.transfers@[0].amount@ == decimal(together(issuance.amounts()) as nat)
            &&& a.transfers@[0].blinded_utxo is None
            &&& a.transfers@[0].blinding_secret is None
            &&& a.colorings@.len() == issuance.outputs().len()
            &&& forall|i: int|
                0 <= i < a.colorings@.len() ==> {
                    &&& (#[trigger] a.colorings@[i]).txo_idx == issuance.outputs()[i].idx
                    &&& a.colorings@[i].coloring_type is Issue
                    &&& a.colorings@[i].amount@ == decimal(issuance.amounts()[i] as nat)
                }
        }),
{
    lemma_together(issuance.amounts());
}

/// A contract that the RGB node refuses fails with what the node says of it. The network of
/// a contract is the one that it names.
pub proof fn refused_contracts_fail(
    refusal: Option<String>,
    r: Result<(), WalletError>,
    contract: Vec<u8>,
    network: Option<BitcoinNetwork>,
)
    requires
        call_ensures(check_registered, (refusal,), r),
        call_ensures(get_contract_network, (&contract,), network),
    ensures
        refusal is None ==> r is Ok,
        refusal matches Some(details) ==> (r matches Err(WalletError::FailedIssuance(told))
            && told@ == details@),
        network == genesis_network(contract@),
{
}

/// An issuance is complete once there is an output for each amount, and shows the outpoints
/// of its outputs in their order.
pub proof fn issuances_show_their_outputs(issuance: Issuance, complete: bool, r: Vec<Outpoint>)
    requires
        call_ensures(Issuance::is_complete, (&issuance,), complete),
        call_ensures(Issuance::get_outpoints, (&issuance,), r),
    ensures
        complete <==> issuance.outputs().len() == issuance.amounts().len(),
        r@.len() == issuance.outputs().len(),
        forall|i: int|
            0 <= i < r@.len() ==> (#[trigger] r@[i]).txid@ == issuance.outputs()[i].txid@
                && r@[i].vout == issuance.outputs()[i].vout,
{
}

/// The coins of an asset are those that its contract or consignment knows. Other bytes have
/// none.
pub proof fn coins_are_read_from_contracts(
    consignment: Vec<u8>,
    r: Result<Vec<(Outpoint, u64)>, WalletError>,
)
    requires
        call_ensures(get_known_coins, (&consignment,), r),
    ensures
        is_rgb20(consignment@) ==> (r matches Ok(coins) && Seq::new(
            coins@.len(),
            |i: int| (canonical((coins@[i].0.txid@, coins@[i].0.vout)), coins@[i].1),
        ).to_multiset() == known_coins(consignment@)),
        !is_rgb20(consignment@) ==> (r matches Err(
            WalletError::Internal(InternalError::InvalidConsignment),
        )),
{
    if r is Ok {
        let coins = r->Ok_0@;
        assert(allocation_views(coins) =~= Seq::new(
            coins.len(),
            |i: int| (canonical((coins[i].0.txid@, coins[i].0.vout)), coins[i].1),
        ));
    }
}

/// The next amount of an issuance goes to the first output that can take it. Where there is
/// none, nothing changes, and the wallet lacks bitcoins for a new output or only the output.
pub proof fn amounts_get_their_outputs(
    issuance: &mut Issuance,
    unspents: Vec<LocalUnspent>,
    bitcoins: u64,
    r: Result<(), WalletError>,
)
    requires
        call_ensures(get_spendable_bitcoins, (&unspents,), bitcoins),
        call_ensures(Issuance::next_output, (issuance, &unspents), r),
    ensures
        final(issuance).amounts() == old(issuance).amounts(),
        none_is_free(unspents@, old(issuance).outputs()) ==> {
            &&& final(issuance).outputs() == old(issuance).outputs()
            &&& bitcoins < 2000 ==> (r matches Err(WalletError::InsufficientFunds))
            &&& bitcoins >= 2000 ==> (r matches Err(WalletError::InsufficientAllocationSlots))
        },
        !none_is_free(unspents@, old(issuance).outputs()) ==> {
            &&& r is Ok
            &&& final(issuance).outputs().len() == old(issuance).outputs().len() + 1
            &&& final(issuance).outputs().drop_last() == old(issuance).outputs()
            &&& is_first_free(
                final(issuance).outputs().last(),
                unspents@,
                old(issuance).outputs(),
            )
        },
{
    lemma_next_free(unspents@, old(issuance).outputs());
}

} // verus!
