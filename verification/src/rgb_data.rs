//! RGB data: seals, transitions, consignments and what a PSBT carries of them.

use std::collections::{BTreeMap, BTreeSet};
use std::str::FromStr;

use bitcoin::blockdata::constants::genesis_block;
use bitcoin::consensus::deserialize;
use bitcoin::hashes::hex::{FromHex, ToHex};
use bitcoin::psbt::serialize::{Deserialize, Serialize};
use bitcoin::util::psbt::PartiallySignedTransaction;
use bitcoin::util::taproot::TaprootBuilder;
use bitcoin::{Network, OutPoint};
use bp::seals::txout::blind::ConcealedSeal;
use bp::seals::txout::{CloseMethod, ExplicitSeal, TxoSeal};
use lnpbp::chain::Chain;
use psbt::Psbt;
use rgb::blank::BlankBundle;
use rgb::fungible::allocation::OutpointValue;
use rgb::psbt::{RgbExt, RgbInExt};
use rgb::{
    seal, Assignment, Consignment, Contract, ContractId, Node, OutpointState, OwnedValue,
    StateAtom, StateTransfer, Transition, TransitionBundle,
};
use rgb20::schema::{FieldType, OwnedRightType};
use rgb20::Rgb20;
use stens::AsciiString;
use strict_encoding::{strict_deserialize, strict_serialize};
use vstd::multiset::Multiset;
use vstd::prelude::*;

use crate::chain::{all_valid, canonical, canonical_views, is_txid, strictly_ordered, views};
use crate::scalars::{group_order, is_scalar, scalar_of};
use crate::seqs::sum;
use crate::text::text_before;
use crate::wallet::types::{opt_text, outpoint_text, BitcoinNetwork, Outpoint};

verus! {

/// The blinded form of an outpoint under a secret.
pub uninterp spec fn concealed_seal(outpoint: (Seq<char>, u32), blinding: u64) -> Seq<char>;

/// The bytes of the seal, in hexadecimal, that a blinded UTXO stands for, if the text
/// is one.
pub uninterp spec fn seal_of_text(blinded_utxo: Seq<char>) -> Option<Seq<char>>;

/// Calls `seal::Revealed::new` for the close method of OP_RETURN commitments,
/// which draws a random secret, and `to_concealed_seal` on what it gives. The
/// blinded form is fixed by the outpoint and the secret, and its text can be
/// read.
#[verifier::external_body]
pub(crate) fn new_seal(outpoint: &Outpoint) -> (r: (u64, String))
    requires
        is_txid(outpoint.txid@),
    ensures
        r.1@ == concealed_seal(outpoint@, r.0),
        seal_of_text(r.1@) is Some,
{
    let outpoint = OutPoint::new(outpoint.txid.parse().unwrap(), outpoint.vout);
    let seal = seal::Revealed::new(CloseMethod::OpretFirst, outpoint);
    (seal.blinding, seal.to_concealed_seal().to_string())
}

/// Whether a text holds the 32 bytes of a seal, in lower case hexadecimal.
pub open spec fn is_seal(s: Seq<char>) -> bool {
    s.len() == 64 && forall|i: int|
        0 <= i < 64 ==> ('0' <= #[trigger] s[i] && s[i] <= '9') || ('a' <= s[i] && s[i] <= 'f')
}

/// Calls `ConcealedSeal::from_str` and gives the bytes of the seal, from the first to
/// the last, in lower case hexadecimal. They are fixed by the text.
#[verifier::external_body]
pub(crate) fn read_seal(blinded_utxo: &str) -> (r: Result<
    String,
    bp::seals::txout::blind::ParseError,
>)
    ensures
        r matches Ok(seal) ==> seal_of_text(blinded_utxo@) == Some(seal@) && is_seal(seal@),
        r is Err ==> seal_of_text(blinded_utxo@) is None,
{
    ConcealedSeal::from_str(blinded_utxo).map(|seal| seal[..].to_hex())
}

/// Whether a text is the ID of a contract.
pub uninterp spec fn is_contract_id(text: Seq<char>) -> bool;

/// Calls `ContractId::from_str`. Whether the text is read is fixed by it.
#[verifier::external_body]
pub(crate) fn check_contract_id(text: &str) -> (r: bool)
    ensures
        r == is_contract_id(text@),
{
    ContractId::from_str(text).is_ok()
}

/// An assignment of an amount: the bytes of the seal, in hexadecimal, where it is
/// concealed, its outpoint where it is known, and the amount where it is known.
pub type ValueAssignment = (Option<String>, Option<String>, Option<u64>);

/// The characters of an assignment of an amount.
pub type AssignmentView = (Option<Seq<char>>, Option<Seq<char>>, Option<u64>);

/// The characters of an assignment of an amount.
pub open spec fn assignment_view(a: ValueAssignment) -> AssignmentView {
    (opt_text(a.0), opt_text(a.1), a.2)
}

/// The characters of a list of assignments.
pub open spec fn assignment_views(list: Seq<ValueAssignment>) -> Seq<AssignmentView> {
    list.map_values(|a: ValueAssignment| assignment_view(a))
}

/// The value assignments of a transition, in their order: the seal where it is
/// concealed, its outpoint where it is known, and the amount where it is known.
/// Nothing where the bytes are no transition.
pub uninterp spec fn value_assignments(transition: Seq<u8>) -> Option<
    Seq<(Option<Seq<char>>, Option<Seq<char>>, Option<u64>)>,
>;

/// Reads a transition and calls `to_value_assignments` on its owned rights. What
/// they are is fixed by the bytes.
#[verifier::external_body]
pub(crate) fn read_assignments(transition: &Vec<u8>) -> (r: Option<Vec<ValueAssignment>>)
    ensures
        r matches Some(list) ==> value_assignments(transition@) == Some(assignment_views(list@)),
        r is None ==> value_assignments(transition@) is None,
{
    let transition: Transition = strict_deserialize(transition).ok()?;
    let rights = transition.owned_rights().iter();
    let list = rights.flat_map(|(_, a)| a.to_value_assignments()).map(|a| match a {
        Assignment::Confidential { seal, .. } => (Some(seal[..].to_hex()), None, None),
        Assignment::ConfidentialSeal { seal, state } =>
            (Some(seal[..].to_hex()), None, Some(state.value)),
        Assignment::ConfidentialState { seal, .. } =>
            (None, seal.outpoint().map(|o| o.to_string()), None),
        Assignment::Revealed { seal, state } =>
            (None, seal.outpoint().map(|o| o.to_string()), Some(state.value)),
    });
    Some(list.collect())
}

/// The characters of a list of texts, each where there is one.
pub open spec fn opt_texts(list: Seq<Option<String>>) -> Seq<Option<Seq<char>>> {
    list.map_values(|t: Option<String>| opt_text(t))
}

/// The transaction IDs of the seals of a transition, in their order and each where the
/// seal names one. Nothing where the bytes are no transition or a seal is concealed.
pub uninterp spec fn seal_txids(transition: Seq<u8>) -> Option<Seq<Option<Seq<char>>>>;

/// Reads a transition and calls `revealed_seals` on it. The transaction IDs of the seals
/// are fixed by the bytes.
#[verifier::external_body]
fn read_seal_txids(transition: &Vec<u8>) -> (r: Option<Vec<Option<String>>>)
    ensures
        r matches Some(list) ==> seal_txids(transition@) == Some(opt_texts(list@)),
        r is None ==> seal_txids(transition@) is None,
{
    let transition: Transition = strict_deserialize(transition).ok()?;
    let seals = transition.revealed_seals().ok()?;
    Some(seals.iter().map(|seal| seal.txid.map(|txid| txid.to_string())).collect())
}

/// The transaction ID of the last seal of a transition. Nothing where the bytes
/// are no transition or a seal is concealed, no ID where there is no seal or it
/// names no transaction.
pub open spec fn last_seal_txid(transition: Seq<u8>) -> Option<Option<Seq<char>>> {
    match seal_txids(transition) {
        None => None,
        Some(list) => Some(
            if list.len() > 0 {
                list.last()
            } else {
                None
            },
        ),
    }
}

/// Gives the transaction ID of the last seal of a transition.
pub(crate) fn read_last_seal(transition: &Vec<u8>) -> (r: Option<Option<String>>)
    ensures
        r matches Some(txid) ==> last_seal_txid(transition@) == Some(opt_text(txid)),
        r is None ==> last_seal_txid(transition@) is None,
{
    match read_seal_txids(transition) {
        None => None,
        Some(mut list) => match list.pop() {
            None => Some(None),
            Some(txid) => Some(txid),
        },
    }
}

/// The amounts of payments, in their order.
pub open spec fn payment_amounts(payments: Seq<(String, u64)>) -> Seq<u64> {
    payments.map_values(|p: (String, u64)| p.1)
}

/// Whether payments go to seals and are ordered by their bytes, and each seal occurs
/// once.
pub open spec fn payments_ordered(payments: Seq<(String, u64)>) -> bool {
    &&& forall|i: int| 0 <= i < payments.len() ==> is_seal((#[trigger] payments[i]).0@)
    &&& forall|i: int, j: int|
        0 <= i < j < payments.len() ==> text_before(
            (#[trigger] payments[i]).0@,
            (#[trigger] payments[j]).0@,
        )
}

/// The value assignments of a transfer: the change on a known outpoint, then the
/// payments on concealed seals.
pub open spec fn transfer_assignments(
    payments: Seq<(String, u64)>,
    change: (Seq<char>, u32),
    change_amount: u64,
) -> Seq<AssignmentView> {
    seq![(None::<Seq<char>>, Some(outpoint_text(canonical(change))), Some(change_amount))]
        + payments.map_values(
        |p: (String, u64)| (Some(p.0@), None::<Seq<char>>, Some(p.1)),
    )
}

/// A right that a contract assigns: the ID of the node that assigns it, its type and
/// its number.
pub type Right = (String, u16, u16);

/// The characters of a right.
pub type RightView = (Seq<char>, u16, u16);

/// The characters of a list of rights.
pub open spec fn right_views(rights: Seq<Right>) -> Seq<RightView> {
    rights.map_values(|r: Right| (r.0@, r.1, r.2))
}

/// The rights that a transition consumes. Nothing where the bytes are no transition.
pub uninterp spec fn consumed_rights(transition: Seq<u8>) -> Option<
    Multiset<(Seq<char>, u16, u16)>,
>;

/// Reads a transition and calls `parent_owned_rights` on it. The rights are fixed by
/// the bytes.
#[verifier::external_body]
pub(crate) fn read_rights(transition: &Vec<u8>) -> (r: Option<Vec<Right>>)
    ensures
        r matches Some(list) ==> consumed_rights(transition@) == Some(
            right_views(list@).to_multiset(),
        ),
        r is None ==> consumed_rights(transition@) is None,
{
    let transition: Transition = strict_deserialize(transition).ok()?;
    let parents = transition.parent_owned_rights().iter();
    let typed = parents.flat_map(|(id, types)| types.iter().map(move |(ty, nos)| (id, ty, nos)));
    let rights = typed.flat_map(|(id, ty, nos)|
        nos.iter().map(move |no| (id.to_string(), *ty, *no)));
    Some(rights.collect())
}

/// A coin of an asset: its amount, its blinding factor, and the right to it: the ID of
/// the node that assigns it and its number.
pub type Coin = (u64, Vec<u8>, (String, u16));

/// What a coin holds.
pub type CoinView = (u64, Seq<u8>, (Seq<char>, u16));

/// Whether bytes hold a consignment of an RGB20 asset.
pub uninterp spec fn is_rgb20(consignment: Seq<u8>) -> bool;

/// Reads a consignment and calls `Asset::try_from`. Whether there is an RGB20 asset in
/// it is fixed by the bytes.
#[verifier::external_body]
pub(crate) fn check_rgb20(consignment: &Vec<u8>) -> (r: bool)
    ensures
        r == is_rgb20(consignment@),
{
    let consignment = strict_deserialize::<StateTransfer>(consignment);
    consignment.map(|c| rgb20::Asset::try_from(&c).is_ok()).unwrap_or_default()
}

/// The coins of an asset that a consignment knows on an outpoint, whose transaction ID
/// is in lower case: their amounts, their blinding factors and the rights to them.
pub uninterp spec fn coins_on(consignment: Seq<u8>, outpoint: (Seq<char>, u32)) -> Seq<
    (u64, Seq<u8>, (Seq<char>, u16)),
>;

/// What coins hold.
pub open spec fn coin_views(coins: Seq<Coin>) -> Seq<CoinView> {
    coins.map_values(|c: Coin| (c.0, c.1@, (c.2.0@, c.2.1)))
}

/// What each of a list of groups of coins holds.
pub open spec fn coin_group_views(groups: Seq<Vec<Coin>>) -> Seq<Seq<CoinView>> {
    groups.map_values(|v: Vec<Coin>| coin_views(v@))
}

/// Reads a consignment and calls `Asset::outpoint_coins` on the asset in it. The coins
/// are fixed by the bytes and the outpoint, whatever the case of the digits of its
/// transaction ID.
#[verifier::external_body]
pub(crate) fn read_coins(consignment: &Vec<u8>, outpoint: &Outpoint) -> (r: Vec<Coin>)
    requires
        is_rgb20(consignment@),
        is_txid(outpoint.txid@),
    ensures
        coin_views(r@) == coins_on(consignment@, canonical(outpoint@)),
{
    let consignment: StateTransfer = strict_deserialize(consignment).unwrap();
    let asset = rgb20::Asset::try_from(&consignment).unwrap();
    let outpoint = OutPoint::new(outpoint.txid.parse().unwrap(), outpoint.vout);
    let read = |coin: &OwnedValue| {
        let blinding: &[u8] = coin.state.blinding.as_ref();
        let right = (coin.outpoint.node_id.to_string(), coin.outpoint.no);
        (coin.state.value, blinding.to_vec(), right)
    };
    asset.outpoint_coins(outpoint).iter().map(read).collect()
}

/// The coins of an asset that a consignment knows on each of a list of outpoints.
pub open spec fn asset_coins(consignment: Seq<u8>, outpoints: Seq<(Seq<char>, u32)>) -> Seq<
    Seq<CoinView>,
> {
    outpoints.map_values(|o: (Seq<char>, u32)| coins_on(consignment, o))
}

/// The rights to coins, which are rights to own an RGB20 asset.
pub open spec fn rights_to(coins: Seq<CoinView>) -> Multiset<RightView> {
    coins.map_values(|c: CoinView| (c.2.0, RIGHT_ASSETS, c.2.1)).to_multiset()
}

/// The coins of all groups, one after the other.
pub open spec fn all_coins(groups: Seq<Seq<CoinView>>) -> Seq<CoinView>
    decreases groups.len(),
{
    if groups.len() == 0 {
        Seq::empty()
    } else {
        all_coins(groups.drop_last()) + groups.last()
    }
}

/// The amounts of coins.
pub open spec fn coin_amounts(coins: Seq<CoinView>) -> Seq<u64> {
    coins.map_values(|c: CoinView| c.0)
}

/// What the coins of all groups are worth.
pub open spec fn coin_total(groups: Seq<Seq<CoinView>>) -> nat {
    sum(coin_amounts(all_coins(groups)))
}

/// Whether coins, of which some have to be in each of their groups, are worth an
/// amount.
pub open spec fn coins_worth(groups: Seq<Seq<CoinView>>, amount: int) -> bool {
    &&& forall|i: int| 0 <= i < groups.len() ==> (#[trigger] groups[i]).len() > 0
    &&& coin_total(groups) == amount
}

/// The sum of the blinding factors of coins.
pub open spec fn blinding_sum(coins: Seq<CoinView>) -> int
    decreases coins.len(),
{
    if coins.len() == 0 {
        0
    } else {
        blinding_sum(coins.drop_last()) + scalar_of(coins.last().1)
    }
}

/// Whether the blinding factors of a transition that spends coins can be balanced:
/// those of the coins are scalars and, where the change is all that is assigned, do
/// not add up to nothing.
pub open spec fn can_balance(coins: Seq<CoinView>, only_change: bool) -> bool {
    &&& forall|i: int| 0 <= i < coins.len() ==> is_scalar((#[trigger] coins[i]).1)
    &&& only_change && coins.len() > 0 ==> blinding_sum(coins) % group_order() != 0
}

/// Reads a consignment and calls `Asset::transfer` on the asset in it, with the
/// payments and with the change on a seal that `ExplicitSeal::from_str` reads. A
/// transition comes back where there are coins on each of the inputs and they are
/// worth the payments and the change. It consumes the rights to these coins, and
/// assigns the amounts to the seals: the change first, then the payments in the order
/// of the bytes of their seals. What else is in it depends on random blinding factors.
/// That the last of these vanishes has a negligible probability, and is left out.
#[verifier::external_body]
pub(crate) fn compose_transition(
    consignment: &Vec<u8>,
    inputs: &Vec<Outpoint>,
    payments: &Vec<(String, u64)>,
    change: &Outpoint,
    change_amount: u64,
) -> (r: Option<Vec<u8>>)
    requires
        is_rgb20(consignment@),
        all_valid(inputs@),
        strictly_ordered(inputs@),
        is_txid(change.txid@),
        payments_ordered(payments@),
        payments@.len() < u16::MAX,
        sum(payment_amounts(payments@)) + change_amount <= u64::MAX,
        ({
            let coins = asset_coins(consignment@, canonical_views(inputs@));
            &&& coin_total(coins) <= u64::MAX
            &&& all_coins(coins).len() <= u16::MAX
            &&& can_balance(all_coins(coins), payments@.len() == 0)
        }),
    ensures
        r is Some <==> coins_worth(
            asset_coins(consignment@, canonical_views(inputs@)),
            sum(payment_amounts(payments@)) + change_amount,
        ),
        r matches Some(transition) ==> value_assignments(transition@) == Some(
            transfer_assignments(payments@, change@, change_amount),
        ),
        r matches Some(transition) ==> consumed_rights(transition@) == Some(
            rights_to(all_coins(asset_coins(consignment@, canonical_views(inputs@)))),
        ),
{
    let asset = rgb20::Asset::try_from(&strict_deserialize::<StateTransfer>(consignment).ok()?);
    let inputs = inputs.iter().map(|o| OutPoint::new(o.txid.parse().unwrap(), o.vout));
    let payments = payments.iter().map(|(hex, amount)|
        (strict_deserialize::<ConcealedSeal>(Vec::from_hex(hex).unwrap()).unwrap().into(), *amount));
    let seal = ExplicitSeal::from_str(&format!("opret1st:{}:{}", change.txid, change.vout));
    let change = [(seal::Revealed::from(seal.unwrap()), change_amount)].into();
    strict_serialize(&asset.ok()?.transfer(inputs.collect(), payments.collect(), change).ok()?).ok()
}

/// A state on an outpoint: the right to it and the amount, where it is one.
pub type OwnedState = (Right, Option<u64>);

/// What a state on an outpoint holds.
pub type OwnedStateView = (RightView, Option<u64>);

/// What a list of states holds.
pub open spec fn state_views(list: Seq<OwnedState>) -> Seq<OwnedStateView> {
    list.map_values(|s: OwnedState| ((s.0.0@, s.0.1, s.0.2), s.1))
}

/// The states on an outpoint, in their order: the right to each and the amount, where
/// it is one. Nothing where the bytes are no states.
pub uninterp spec fn states_on(states: Seq<u8>) -> Option<
    Seq<((Seq<char>, u16, u16), Option<u64>)>,
>;

/// Reads the states on an outpoint. They are fixed by the bytes.
#[verifier::external_body]
pub(crate) fn read_states(states: &Vec<u8>) -> (r: Option<Vec<OwnedState>>)
    ensures
        r matches Some(list) ==> states_on(states@) == Some(state_views(list@)),
        r is None ==> states_on(states@) is None,
{
    let states: BTreeSet<OutpointState> = strict_deserialize(states).ok()?;
    let list = states.iter().map(|s| {
        let right = s.node_outpoint;
        let right = (right.node_id.to_string(), right.ty, right.no);
        match &s.state {
            StateAtom::Value(value) => (right, Some(value.value)),
            StateAtom::Void => (right, None),
            StateAtom::Data(_) => (right, None),
            StateAtom::Attachment(_) => (right, None),
        }
    });
    Some(list.collect())
}

/// Type of the right to own an RGB20 asset.
pub const RIGHT_ASSETS: u16 = 0xA1;

/// Whether the states on an outpoint can be read, and are all of the right to own an
/// RGB20 asset.
pub open spec fn movable(states: Option<Seq<OwnedStateView>>) -> bool {
    states matches Some(list) && forall|k: int|
        0 <= k < list.len() ==> (#[trigger] list[k]).0.1 == RIGHT_ASSETS
}

/// The rights to states.
pub open spec fn state_rights(list: Seq<OwnedStateView>) -> Multiset<RightView> {
    list.map_values(|s: OwnedStateView| s.0).to_multiset()
}

/// The amount that moves away from an outpoint with states: that of the last one, if
/// it is an amount.
pub open spec fn amount_moved(list: Seq<OwnedStateView>) -> Option<u64> {
    if list.len() > 0 {
        list.last().1
    } else {
        None
    }
}

/// Whether a transition, which consumes outputs, consumes the rights to the states on
/// an outpoint and moves the last of these states to another outpoint.
pub open spec fn moves(
    transition: Seq<u8>,
    outputs: Seq<u16>,
    from: (Seq<char>, u32),
    list: Seq<OwnedStateView>,
    target: (Seq<char>, u32),
) -> bool {
    &&& outputs == seq![from.1 as u16]
    &&& consumed_rights(transition) == Some(state_rights(list))
    &&& seal_txids(transition) == Some(
        if list.len() > 0 {
            seq![Some(target.0)]
        } else {
            Seq::empty()
        },
    )
    &&& value_assignments(transition) == Some(
        match amount_moved(list) {
            Some(amount) => seq![(None::<Seq<char>>, Some(outpoint_text(target)), Some(amount))],
            None => Seq::empty(),
        },
    )
}

/// Whether an outpoint with states is none of the others of a list, and the rights to
/// its states are not those to the states on another one.
pub open spec fn stands_alone(states: Seq<(Outpoint, Vec<u8>)>, j: int) -> bool {
    forall|k: int|
        0 <= k < states.len() && k != j ==> canonical((#[trigger] states[k]).0@) != canonical(
            states[j].0@,
        ) && state_rights(states_on(states[k].1@)->0) != state_rights(states_on(states[j].1@)->0)
}

/// Whether the outpoints of a list and the rights to the states on them all differ.
pub open spec fn all_alone(states: Seq<(Outpoint, Vec<u8>)>) -> bool {
    forall|j: int| 0 <= j < states.len() ==> #[trigger] stands_alone(states, j)
}

/// Calls `TransitionBundle::blank` for the states of one contract on given
/// outpoints, which move to a new outpoint under the close method of OP_RETURN
/// commitments. Gives the transitions, each with the outputs that it consumes. Every
/// transition belongs to one of the outpoints: it consumes the rights to the states on
/// it and moves the last of them. There is at least one transition and at most one for
/// each outpoint. One that differs from all others in itself and in these rights has
/// its transition, and there is one for each where all of them differ. What else is in
/// a transition, and the order of the transitions, depends on random blinding factors.
#[verifier::external_body]
pub(crate) fn compose_blank(states: &Vec<(Outpoint, Vec<u8>)>, new_outpoint: &Outpoint) -> (r: Vec<
    (Vec<u8>, Vec<u16>),
>)
    requires
        is_txid(new_outpoint.txid@),
        states@.len() > 0,
        forall|j: int|
            0 <= j < states@.len() ==> is_txid((#[trigger] states@[j]).0.txid@) && movable(
                states_on(states@[j].1@),
            ),
    ensures
        0 < r@.len() <= states@.len(),
        forall|i: int|
            0 <= i < r@.len() ==> exists|j: int|
                0 <= j < states@.len() && moves(
                    (#[trigger] r@[i]).0@,
                    r@[i].1@,
                    (#[trigger] states@[j]).0@,
                    states_on(states@[j].1@)->0,
                    canonical(new_outpoint@),
                ),
        forall|j: int|
            0 <= j < states@.len() && #[trigger] stands_alone(states@, j) ==> exists|i: int|
                0 <= i < r@.len() && moves(
                    (#[trigger] r@[i]).0@,
                    r@[i].1@,
                    states@[j].0@,
                    states_on(states@[j].1@)->0,
                    canonical(new_outpoint@),
                ),
        all_alone(states@) ==> r@.len() == states@.len(),
{
    let mut prev_state = BTreeMap::new();
    for (o, state) in states {
        let outpoint = OutPoint::new(o.txid.parse().unwrap(), o.vout);
        prev_state.insert(outpoint, strict_deserialize(state).unwrap());
    }
    let outpoint = OutPoint::new(new_outpoint.txid.parse().unwrap(), new_outpoint.vout);
    let target = (outpoint, CloseMethod::OpretFirst);
    let targets = BTreeMap::from([(OwnedRightType::Assets.into(), target)]);
    let bundle = TransitionBundle::blank(&prev_state, &targets).unwrap();
    let list = bundle.revealed_iter();
    list.map(|(t, nos)| (strict_serialize(t).unwrap(), nos.iter().copied().collect())).collect()
}

/// For each output of a PSBT whether its tap tree is finalized, where it has one. Nothing
/// where the bytes hold no PSBT.
pub uninterp spec fn psbt_trees(psbt: Seq<u8>) -> Option<Seq<Option<bool>>>;

/// Calls `Psbt::deserialize` and `TaprootBuilder::is_finalized` on the tap trees of its
/// outputs. What comes out is fixed by the bytes.
#[verifier::external_body]
fn read_trees(psbt: &Vec<u8>) -> (r: Option<Vec<Option<bool>>>)
    ensures
        r matches Some(list) ==> psbt_trees(psbt@) == Some(list@),
        r is None ==> psbt_trees(psbt@) is None,
{
    let psbt = Psbt::deserialize(psbt).ok()?;
    let trees = psbt.outputs.into_iter().map(|output| output.tap_tree);
    Some(trees.map(|tree| tree.map(|t| TaprootBuilder::from(t).is_finalized())).collect())
}

/// Whether bytes hold a PSBT that can be written: all of its tap trees are finalized.
pub open spec fn is_writable(psbt: Seq<u8>) -> bool {
    psbt_trees(psbt) matches Some(trees) && forall|i: int|
        0 <= i < trees.len() ==> #[trigger] trees[i] != Some(false)
}

/// Gives the number of the outputs of a PSBT that can be written.
fn count_outputs(psbt: &Vec<u8>) -> (r: Option<usize>)
    ensures
        r is Some <==> is_writable(psbt@),
        r matches Some(n) ==> n == (psbt_trees(psbt@)->0).len(),
{
    let trees: Vec<Option<bool>> = match read_trees(psbt) {
        None => {
            return None;
        },
        Some(trees) => trees,
    };
    let mut i: usize = 0;
    while i < trees.len()
        invariant
            i <= trees.len(),
            psbt_trees(psbt@) == Some(trees@),
            forall|k: int| 0 <= k < i ==> #[trigger] trees@[k] != Some(false),
        decreases trees.len() - i,
    {
        match trees[i] {
            Some(false) => {
                assert((psbt_trees(psbt@)->0)[i as int] == Some(false));
                return None;
            },
            _ => {},
        }
        i += 1;
    }
    Some(trees.len())
}

/// What `set_rgb_contract` makes of a PSBT and a contract.
pub uninterp spec fn contract_set(psbt: Seq<u8>, contract: Seq<u8>) -> Option<Seq<u8>>;

/// Calls `set_rgb_contract` on a PSBT. What comes out is fixed by the bytes of the
/// PSBT and of the contract.
#[verifier::external_body]
fn put_contract(psbt: &Vec<u8>, contract: &Vec<u8>) -> (r: Option<Vec<u8>>)
    requires
        is_writable(psbt@),
    ensures
        r matches Some(next) ==> contract_set(psbt@, contract@) == Some(next@),
        r is None ==> contract_set(psbt@, contract@) is None,
{
    let mut psbt = Psbt::deserialize(psbt).ok()?;
    let contract: Contract = strict_deserialize(contract).ok()?;
    psbt.set_rgb_contract(contract).ok()?;
    Some(psbt.serialize())
}

/// A PSBT with a contract added to it, if it can be.
pub open spec fn psbt_with_contract(psbt: Seq<u8>, contract: Seq<u8>) -> Option<Seq<u8>> {
    if is_writable(psbt) {
        contract_set(psbt, contract)
    } else {
        None
    }
}

/// Adds a contract to a PSBT.
pub(crate) fn add_contract(psbt: &Vec<u8>, contract: &Vec<u8>) -> (r: Option<Vec<u8>>)
    ensures
        r matches Some(next) ==> psbt_with_contract(psbt@, contract@) == Some(next@),
        r is None ==> psbt_with_contract(psbt@, contract@) is None,
{
    match count_outputs(psbt) {
        None => None,
        Some(_) => put_contract(psbt, contract),
    }
}

/// The types of state that the lists of assignments of a transition hold, in the order of
/// their rights. Nothing where the bytes are no transition.
pub uninterp spec fn list_types(transition: Seq<u8>) -> Option<Seq<u8>>;

/// Reads a transition and calls `TypedAssignments::state_type` on its owned rights. The
/// types are fixed by the bytes.
#[verifier::external_body]
fn read_list_types(transition: &Vec<u8>) -> (r: Option<Vec<u8>>)
    ensures
        r matches Some(list) ==> list_types(transition@) == Some(list@),
        r is None ==> list_types(transition@) is None,
{
    let transition: Transition = strict_deserialize(transition).ok()?;
    Some(transition.owned_rights().iter().map(|(_, list)| list.state_type() as u8).collect())
}

/// The types of state of the transition with the ID of a given one that a PSBT already
/// holds, in the order of their rights. Nothing where it holds none, or the bytes are no
/// PSBT or no transition.
pub uninterp spec fn held_types(psbt: Seq<u8>, transition: Seq<u8>) -> Option<Seq<u8>>;

/// Calls `rgb_transition` on a PSBT, for the ID of a transition, and
/// `TypedAssignments::state_type` on the owned rights of what comes out. The types are
/// fixed by the bytes of the PSBT and of the transition.
#[verifier::external_body]
fn read_held_types(psbt: &Vec<u8>, transition: &Vec<u8>) -> (r: Option<Vec<u8>>)
    ensures
        r matches Some(list) ==> held_types(psbt@, transition@) == Some(list@),
        r is None ==> held_types(psbt@, transition@) is None,
{
    let psbt = Psbt::deserialize(psbt).ok()?;
    let transition: Transition = strict_deserialize(transition).ok()?;
    let held = psbt.rgb_transition(transition.node_id()).ok()??;
    Some(held.owned_rights().iter().map(|(_, list)| list.state_type() as u8).collect())
}

/// Whether two lists agree as far as both go.
pub open spec fn agree(a: Seq<u8>, b: Seq<u8>) -> bool {
    forall|i: int| 0 <= i < a.len() && i < b.len() ==> #[trigger] a[i] == b[i]
}

/// Whether bytes hold a transition that can be merged with the one that a PSBT already
/// holds under its ID, if there is one: their lists hold states of the same types.
pub open spec fn is_mergeable(psbt: Seq<u8>, transition: Seq<u8>) -> bool {
    list_types(transition) matches Some(types) && (held_types(psbt, transition) matches Some(held)
        ==> agree(types, held))
}

fn check_mergeable(psbt: &Vec<u8>, transition: &Vec<u8>) -> (r: bool)
    ensures
        r == is_mergeable(psbt@, transition@),
{
    let types: Vec<u8> = match read_list_types(transition) {
        None => {
            return false;
        },
        Some(types) => types,
    };
    let held: Vec<u8> = match read_held_types(psbt, transition) {
        None => {
            return true;
        },
        Some(held) => held,
    };
    let mut i: usize = 0;
    while i < types.len() && i < held.len()
        invariant
            i <= types.len(),
            i <= held.len(),
            list_types(transition@) == Some(types@),
            held_types(psbt@, transition@) == Some(held@),
            forall|k: int| 0 <= k < i ==> #[trigger] types@[k] == held@[k],
        decreases types.len() - i,
    {
        if types[i] != held[i] {
            assert(!agree(types@, held@)) by {
                assert(types@[i as int] != held@[i as int]);
            }
            return false;
        }
        i += 1;
    }
    true
}

/// What `push_rgb_transition` makes of a PSBT and a transition.
pub uninterp spec fn transition_pushed(psbt: Seq<u8>, transition: Seq<u8>) -> Option<Seq<u8>>;

/// Calls `push_rgb_transition` on a PSBT. What comes out is fixed by the bytes of
/// the PSBT and of the transition.
#[verifier::external_body]
fn push_transition(psbt: &Vec<u8>, transition: &Vec<u8>) -> (r: Option<Vec<u8>>)
    requires
        is_writable(psbt@),
        is_mergeable(psbt@, transition@),
    ensures
        r matches Some(next) ==> transition_pushed(psbt@, transition@) == Some(next@),
        r is None ==> transition_pushed(psbt@, transition@) is None,
{
    let mut psbt = Psbt::deserialize(psbt).ok()?;
    psbt.push_rgb_transition(strict_deserialize(transition).ok()?).ok()?;
    Some(psbt.serialize())
}

/// A PSBT with a transition added to it, if it can be.
pub open spec fn psbt_with_transition(psbt: Seq<u8>, transition: Seq<u8>) -> Option<Seq<u8>> {
    if is_writable(psbt) && is_mergeable(psbt, transition) {
        transition_pushed(psbt, transition)
    } else {
        None
    }
}

/// Adds a transition to a PSBT.
pub(crate) fn add_transition(psbt: &Vec<u8>, transition: &Vec<u8>) -> (r: Option<Vec<u8>>)
    ensures
        r matches Some(next) ==> psbt_with_transition(psbt@, transition@) == Some(next@),
        r is None ==> psbt_with_transition(psbt@, transition@) is None,
{
    if count_outputs(psbt).is_some() && check_mergeable(psbt, transition) {
        push_transition(psbt, transition)
    } else {
        None
    }
}

/// What `set_rgb_consumer` makes of an input of a PSBT, a contract ID and a transition.
pub uninterp spec fn consumer_set(
    psbt: Seq<u8>,
    input: usize,
    contract_id: Seq<char>,
    transition: Seq<u8>,
) -> Option<Seq<u8>>;

/// Calls `set_rgb_consumer` on an input of a PSBT. What comes out is fixed by the
/// arguments.
#[verifier::external_body]
fn put_consumer(
    psbt: &Vec<u8>,
    input: usize,
    contract_id: &String,
    transition: &Vec<u8>,
) -> (r: Option<Vec<u8>>)
    requires
        is_writable(psbt@),
    ensures
        r matches Some(next) ==> consumer_set(psbt@, input, contract_id@, transition@) == Some(
            next@,
        ),
        r is None ==> consumer_set(psbt@, input, contract_id@, transition@) is None,
{
    let mut psbt = Psbt::deserialize(psbt).ok()?;
    let contract_id = ContractId::from_str(contract_id).ok()?;
    let transition: Transition = strict_deserialize(transition).ok()?;
    psbt.inputs.get_mut(input)?.set_rgb_consumer(contract_id, transition.node_id()).ok()?;
    Some(psbt.serialize())
}

/// A PSBT with a transition of a contract noted as the consumer of an input, if it
/// can be.
pub open spec fn psbt_with_consumer(
    psbt: Seq<u8>,
    input: usize,
    contract_id: Seq<char>,
    transition: Seq<u8>,
) -> Option<Seq<u8>> {
    if is_writable(psbt) {
        consumer_set(psbt, input, contract_id, transition)
    } else {
        None
    }
}

/// Notes a transition of a contract as the consumer of an input of a PSBT.
pub(crate) fn add_consumer(
    psbt: &Vec<u8>,
    input: usize,
    contract_id: &String,
    transition: &Vec<u8>,
) -> (r: Option<Vec<u8>>)
    ensures
        r matches Some(next) ==> psbt_with_consumer(psbt@, input, contract_id@, transition@)
            == Some(next@),
        r is None ==> psbt_with_consumer(psbt@, input, contract_id@, transition@) is None,
{
    match count_outputs(psbt) {
        None => None,
        Some(_) => put_consumer(psbt, input, contract_id, transition),
    }
}

/// The outpoints that a PSBT spends, if the bytes hold one.
pub uninterp spec fn psbt_inputs(psbt: Seq<u8>) -> Option<Seq<(Seq<char>, u32)>>;

/// Calls `Psbt::deserialize` and gives the previous outpoints of the inputs. They
/// are fixed by the bytes, and their transaction IDs are valid.
#[verifier::external_body]
pub(crate) fn read_inputs(psbt: &Vec<u8>) -> (r: Option<Vec<Outpoint>>)
    ensures
        r matches Some(inputs) ==> psbt_inputs(psbt@) == Some(views(inputs@)) && all_valid(
            inputs@,
        ),
        r is None ==> psbt_inputs(psbt@) is None,
{
    let psbt = Psbt::deserialize(psbt).ok()?;
    let inputs = psbt.inputs.iter().map(|input| input.previous_outpoint);
    Some(inputs.map(|o| Outpoint { txid: o.txid.to_string(), vout: o.vout }).collect())
}

/// What `rgb_bundle_to_lnpbp4` makes of a PSBT.
pub uninterp spec fn bundles_put(psbt: Seq<u8>) -> Option<Seq<u8>>;

/// Calls `rgb_bundle_to_lnpbp4` on a PSBT. What comes out is fixed by its bytes.
#[verifier::external_body]
fn put_bundles(psbt: &Vec<u8>) -> (r: Option<Vec<u8>>)
    requires
        is_writable(psbt@),
    ensures
        r matches Some(next) ==> bundles_put(psbt@) == Some(next@),
        r is None ==> bundles_put(psbt@) is None,
{
    let mut psbt = Psbt::deserialize(psbt).ok()?;
    psbt.rgb_bundle_to_lnpbp4().ok()?;
    Some(psbt.serialize())
}

/// A PSBT whose transitions are bundled and committed to, if they can be.
pub open spec fn psbt_bundled(psbt: Seq<u8>) -> Option<Seq<u8>> {
    if is_writable(psbt) {
        bundles_put(psbt)
    } else {
        None
    }
}

/// Bundles the transitions of a PSBT and commits to them.
pub(crate) fn bundle_transitions(psbt: &Vec<u8>) -> (r: Option<Vec<u8>>)
    ensures
        r matches Some(next) ==> psbt_bundled(psbt@) == Some(next@),
        r is None ==> psbt_bundled(psbt@) is None,
{
    match count_outputs(psbt) {
        None => None,
        Some(_) => put_bundles(psbt),
    }
}

/// What `set_opret_host` makes of an output of a PSBT.
pub uninterp spec fn host_set(psbt: Seq<u8>, output: usize) -> Option<Seq<u8>>;

/// Calls `set_opret_host` on an output of a PSBT. What comes out is fixed by the
/// arguments.
#[verifier::external_body]
fn put_host(psbt: &Vec<u8>, output: usize) -> (r: Option<Vec<u8>>)
    requires
        is_writable(psbt@),
    ensures
        r matches Some(next) ==> host_set(psbt@, output) == Some(next@),
        r is None ==> host_set(psbt@, output) is None,
{
    let mut psbt = Psbt::deserialize(psbt).ok()?;
    psbt.outputs.get_mut(output)?.set_opret_host().ok()?;
    Some(psbt.serialize())
}

/// A PSBT whose last output hosts an OP_RETURN commitment, if it can.
pub open spec fn psbt_with_host(psbt: Seq<u8>) -> Option<Seq<u8>> {
    let count = (psbt_trees(psbt)->0).len();
    if is_writable(psbt) && count > 0 {
        host_set(psbt, (count - 1) as usize)
    } else {
        None
    }
}

/// Makes the last output of a PSBT the host of an OP_RETURN commitment.
pub(crate) fn set_host(psbt: &Vec<u8>) -> (r: Option<Vec<u8>>)
    ensures
        r matches Some(next) ==> psbt_with_host(psbt@) == Some(next@),
        r is None ==> psbt_with_host(psbt@) is None,
{
    match count_outputs(psbt) {
        None => None,
        Some(count) => if count > 0 {
            put_host(psbt, count - 1)
        } else {
            None
        },
    }
}

/// The text form of the PSBT that bytes hold.
pub uninterp spec fn psbt_shown(psbt: Seq<u8>) -> Option<Seq<char>>;

/// Calls `consensus::deserialize` and gives the text form of the PSBT. It is fixed
/// by the bytes.
#[verifier::external_body]
fn show_psbt(psbt: &Vec<u8>) -> (r: Option<String>)
    requires
        is_writable(psbt@),
    ensures
        r matches Some(text) ==> psbt_shown(psbt@) == Some(text@),
        r is None ==> psbt_shown(psbt@) is None,
{
    let psbt: PartiallySignedTransaction = deserialize(psbt).ok()?;
    Some(psbt.to_string())
}

/// The text of a PSBT, if the bytes hold one that can be written.
pub open spec fn psbt_text(psbt: Seq<u8>) -> Option<Seq<char>> {
    if is_writable(psbt) {
        psbt_shown(psbt)
    } else {
        None
    }
}

/// Gives the text of a PSBT.
pub(crate) fn render_psbt(psbt: &Vec<u8>) -> (r: Option<String>)
    ensures
        r matches Some(text) ==> psbt_text(psbt@) == Some(text@),
        r is None ==> psbt_text(psbt@) is None,
{
    match count_outputs(psbt) {
        None => None,
        Some(_) => show_psbt(psbt),
    }
}

/// The bytes that a base64 text stands for, if it is one.
pub uninterp spec fn base64_bytes(text: Seq<char>) -> Option<Seq<u8>>;

/// Calls `base64::decode`. What comes out is fixed by the text.
#[verifier::external_body]
pub(crate) fn decode_base64(text: &String) -> (r: Result<Vec<u8>, base64::DecodeError>)
    ensures
        r matches Ok(bytes) ==> base64_bytes(text@) == Some(bytes@),
        r is Err ==> base64_bytes(text@) is None,
{
    base64::decode(text)
}

/// The bytes of each of a list of items.
pub open spec fn bytes_of(items: Seq<Vec<u8>>) -> Seq<Seq<u8>> {
    items.map_values(|v: Vec<u8>| v@)
}

/// A bundle of a consignment: the ID of the transaction that it is anchored in, and its
/// known transitions.
pub type AnchoredBundle = (String, Vec<Vec<u8>>);

/// What the bundles of a consignment hold.
pub open spec fn bundle_views(bundles: Seq<AnchoredBundle>) -> Seq<(Seq<char>, Seq<Seq<u8>>)> {
    bundles.map_values(|b: AnchoredBundle| (b.0@, bytes_of(b.1@)))
}

/// The ID of the contract of a consignment and its bundles, in their order: the ID of the
/// transaction that each is anchored in, and its known transitions. Nothing where the
/// bytes are no consignment.
pub uninterp spec fn consignment_parts(consignment: Seq<u8>) -> Option<
    (Seq<char>, Seq<(Seq<char>, Seq<Seq<u8>>)>),
>;

/// Reads a consignment and calls `contract_id`, `anchored_bundles` and, on each bundle,
/// `known_transitions`. What they give is fixed by the bytes.
#[verifier::external_body]
fn read_parts(consignment: &Vec<u8>) -> (r: Result<
    (String, Vec<AnchoredBundle>),
    strict_encoding::Error,
>)
    ensures
        r matches Ok(parts) ==> consignment_parts(consignment@) == Some(
            (parts.0@, bundle_views(parts.1@)),
        ),
        r is Err ==> consignment_parts(consignment@) is None,
{
    let consignment: StateTransfer = strict_deserialize(consignment)?;
    let mut bundles = Vec::new();
    for (anchor, bundle) in consignment.anchored_bundles() {
        let transitions = bundle.known_transitions().map(|t| strict_serialize(t));
        bundles.push((anchor.txid.to_string(), transitions.collect::<Result<_, _>>()?));
    }
    Ok((consignment.contract_id().to_string(), bundles))
}

/// The ID of the contract of a consignment and that of the transaction that its
/// last bundle is anchored in, if it has bundles. Nothing where the bytes are no
/// consignment.
pub open spec fn consignment_ids(consignment: Seq<u8>) -> Option<(Seq<char>, Option<Seq<char>>)> {
    match consignment_parts(consignment) {
        None => None,
        Some(parts) => Some(
            (
                parts.0,
                if parts.1.len() > 0 {
                    Some(parts.1.last().0)
                } else {
                    None
                },
            ),
        ),
    }
}

/// Gives the ID of the contract of a consignment and that of the transaction that its
/// last bundle is anchored in.
pub(crate) fn read_consignment(consignment: &Vec<u8>) -> (r: Result<
    (String, Option<String>),
    strict_encoding::Error,
>)
    ensures
        r matches Ok(ids) ==> consignment_ids(consignment@) == Some((ids.0@, opt_text(ids.1))),
        r is Err ==> consignment_ids(consignment@) is None,
{
    match read_parts(consignment) {
        Err(e) => Err(e),
        Ok((contract_id, mut bundles)) => match bundles.pop() {
            None => Ok((contract_id, None)),
            Some((txid, _)) => Ok((contract_id, Some(txid))),
        },
    }
}

/// The known transitions of the last bundle of a consignment, in their order.
/// Nothing where the bytes are no consignment or it has no bundle.
pub open spec fn last_transitions(consignment: Seq<u8>) -> Option<Seq<Seq<u8>>> {
    match consignment_parts(consignment) {
        None => None,
        Some(parts) => if parts.1.len() > 0 {
            Some(parts.1.last().1)
        } else {
            None
        },
    }
}

/// Gives the known transitions of the last bundle of a consignment.
pub(crate) fn read_last_transitions(consignment: &Vec<u8>) -> (r: Option<Vec<Vec<u8>>>)
    ensures
        r matches Some(list) ==> last_transitions(consignment@) == Some(bytes_of(list@)),
        r is None ==> last_transitions(consignment@) is None,
{
    match read_parts(consignment) {
        Err(_) => None,
        Ok((_, mut bundles)) => match bundles.pop() {
            None => None,
            Some((_, transitions)) => Some(transitions),
        },
    }
}

/// The characters of a list of texts.
pub open spec fn texts_of(list: Seq<String>) -> Seq<Seq<char>> {
    list.map_values(|t: String| t@)
}

/// The tickers, the names and the precisions in the genesis of a consignment, in their
/// order. Nothing where the bytes are no consignment.
pub uninterp spec fn field_values(consignment: Seq<u8>) -> Option<
    (Seq<Seq<char>>, Seq<Seq<char>>, Seq<u8>),
>;

/// Reads a consignment and calls `ascii_string` and `u8` on the metadata of its
/// genesis, for the fields of RGB20 assets. What they give is fixed by the bytes.
#[verifier::external_body]
fn read_field_values(consignment: &Vec<u8>) -> (r: Option<(Vec<String>, Vec<String>, Vec<u8>)>)
    ensures
        r matches Some(f) ==> field_values(consignment@) == Some(
            (texts_of(f.0@), texts_of(f.1@), f.2@),
        ),
        r is None ==> field_values(consignment@) is None,
{
    let consignment: StateTransfer = strict_deserialize(consignment).ok()?;
    let metadata = consignment.genesis().metadata();
    let texts = |field| metadata.ascii_string(field).iter().map(|s| s.to_string()).collect();
    Some((texts(FieldType::Ticker), texts(FieldType::Name), metadata.u8(FieldType::Precision)))
}

/// The first of a list, if there is one.
pub open spec fn first_of<A>(list: Seq<A>) -> Option<A> {
    if list.len() > 0 {
        Some(list[0])
    } else {
        None
    }
}

/// The first ticker, the first name and the first precision in the genesis of a
/// consignment, each if it is there. Nothing where the bytes are no consignment.
pub open spec fn consignment_fields(consignment: Seq<u8>) -> Option<
    (Option<Seq<char>>, Option<Seq<char>>, Option<u8>),
> {
    match field_values(consignment) {
        None => None,
        Some(f) => Some((first_of(f.0), first_of(f.1), first_of(f.2))),
    }
}

fn first_text(list: &Vec<String>) -> (r: Option<String>)
    ensures
        opt_text(r) == first_of(texts_of(list@)),
{
    if list.len() > 0 {
        Some(list[0].clone())
    } else {
        None
    }
}

/// Gives the first ticker, the first name and the first precision in the genesis of a
/// consignment.
pub(crate) fn read_fields(consignment: &Vec<u8>) -> (r: Option<
    (Option<String>, Option<String>, Option<u8>),
>)
    ensures
        r matches Some(f) ==> consignment_fields(consignment@) == Some(
            (opt_text(f.0), opt_text(f.1), f.2),
        ),
        r is None ==> consignment_fields(consignment@) is None,
{
    match read_field_values(consignment) {
        None => None,
        Some((tickers, names, precisions)) => {
            let precision: Option<u8> = if precisions.len() > 0 {
                Some(precisions[0])
            } else {
                None
            };
            Some((first_text(&tickers), first_text(&names), precision))
        },
    }
}

/// Whether a text is made of ASCII characters.
pub open spec fn is_ascii_text(s: Seq<char>) -> bool {
    forall|i: int| 0 <= i < s.len() ==> (#[trigger] s[i]) as u32 <= 127
}

/// What is said of a text that is not made of ASCII characters.
pub uninterp spec fn ascii_error(s: Seq<char>) -> Seq<char>;

/// Calls `AsciiString::from_str`, which reads every text that is made of ASCII
/// characters and no other. What is said of another one is fixed by it.
#[verifier::external_body]
pub(crate) fn check_ascii(s: &str) -> (r: Result<(), String>)
    ensures
        r is Ok <==> is_ascii_text(s@),
        r matches Err(details) ==> details@ == ascii_error(s@),
{
    AsciiString::from_str(s).map(|_| ()).map_err(|e| e.to_string())
}

/// The amounts of allocations, in their order.
pub open spec fn allocated_amounts(allocations: Seq<(Outpoint, u64)>) -> Seq<u64> {
    allocations.map_values(|a: (Outpoint, u64)| a.1)
}

/// The bitcoin network that the genesis of a contract names, if it names one. Nothing
/// where the bytes are no contract.
pub uninterp spec fn genesis_network(contract: Seq<u8>) -> Option<BitcoinNetwork>;

/// Reads a contract, calls `Genesis::chain` on its genesis and `Network::try_from` on
/// what that gives. The network is fixed by the bytes.
#[verifier::external_body]
pub(crate) fn read_network(contract: &Vec<u8>) -> (r: Option<BitcoinNetwork>)
    ensures
        r == genesis_network(contract@),
{
    let contract: Contract = strict_deserialize(contract).ok()?;
    Some(match Network::try_from(contract.genesis().chain()).ok()? {
        Network::Bitcoin => BitcoinNetwork::Mainnet,
        Network::Testnet => BitcoinNetwork::Testnet,
        Network::Signet => BitcoinNetwork::Signet,
        Network::Regtest => BitcoinNetwork::Regtest,
    })
}

/// Whether an amount goes to an output that no other amount goes to.
pub open spec fn alone_on_output(allocations: Seq<(Outpoint, u64)>, i: int) -> bool {
    forall|j: int|
        0 <= j < allocations.len() && j != i ==> canonical((#[trigger] allocations[j]).0@)
            != canonical(allocations[i].0@)
}

/// Whether a consignment knows one coin on an outpoint, of an amount.
pub open spec fn holds_coin(consignment: Seq<u8>, outpoint: (Seq<char>, u32), amount: u64) -> bool {
    coin_amounts(coins_on(consignment, canonical(outpoint))) == seq![amount]
}

/// Whether bytes hold a consignment of an RGB20 asset that knows a coin for each amount
/// that is alone on its output.
pub open spec fn knows_allocations(
    consignment: Seq<u8>,
    allocations: Seq<(Outpoint, u64)>,
) -> bool {
    is_rgb20(consignment) && forall|i: int|
        0 <= i < allocations.len() && alone_on_output(allocations, i) ==> holds_coin(
            consignment,
            (#[trigger] allocations[i]).0@,
            allocations[i].1,
        )
}

/// All coins of an asset that a consignment knows: their outpoints, with transaction IDs
/// in lower case, and their amounts.
pub uninterp spec fn known_coins(consignment: Seq<u8>) -> Multiset<((Seq<char>, u32), u64)>;

/// What allocations hold, with transaction IDs in lower case.
pub open spec fn allocation_views(allocations: Seq<(Outpoint, u64)>) -> Seq<
    ((Seq<char>, u32), u64),
> {
    allocations.map_values(|a: (Outpoint, u64)| (canonical(a.0@), a.1))
}

/// Reads a consignment and calls `Asset::known_coins` on the asset in it. The coins are
/// fixed by the bytes.
#[verifier::external_body]
pub(crate) fn read_known_coins(consignment: &Vec<u8>) -> (r: Vec<(Outpoint, u64)>)
    requires
        is_rgb20(consignment@),
    ensures
        allocation_views(r@).to_multiset() == known_coins(consignment@),
{
    let consignment: StateTransfer = strict_deserialize(consignment).unwrap();
    let asset = rgb20::Asset::try_from(&consignment).unwrap();
    let read = |coin: &OwnedValue| {
        let outpoint = Outpoint { txid: coin.seal.txid.to_string(), vout: coin.seal.vout };
        (outpoint, coin.state.value)
    };
    asset.known_coins().map(read).collect()
}

/// Whether all amounts go to different outputs.
pub open spec fn outputs_differ(allocations: Seq<(Outpoint, u64)>) -> bool {
    forall|i: int| 0 <= i < allocations.len() ==> #[trigger] alone_on_output(allocations, i)
}

/// Calls `Contract::create_rgb20` for the close method of OP_RETURN commitments,
/// and gives the contract that it makes. The contract has an ID and no bundles, it
/// names the network, the ticker, the name and the precision can be read from it, and
/// it knows a coin for each amount that is alone on its output. Where all amounts go to
/// different outputs, it knows no other coins. What else is in it depends on the time and
/// on random blinding factors.
#[verifier::external_body]
pub(crate) fn create_contract(
    network: BitcoinNetwork,
    ticker: &str,
    name: &str,
    precision: u8,
    allocations: &Vec<(Outpoint, u64)>,
) -> (r: Vec<u8>)
    requires
        is_ascii_text(ticker@) && ticker@.len() <= u16::MAX,
        is_ascii_text(name@) && name@.len() <= u16::MAX,
        allocations@.len() <= u16::MAX,
        forall|i: int|
            0 <= i < allocations@.len() ==> is_txid((#[trigger] allocations@[i]).0.txid@),
        sum(allocated_amounts(allocations@)) <= u64::MAX,
    ensures
        consignment_parts(r@) is Some,
        (consignment_parts(r@)->0).1.len() == 0,
        genesis_network(r@) == Some(network),
        field_values(r@) == Some((seq![ticker@], seq![name@], seq![precision])),
        knows_allocations(r@, allocations@),
        outputs_differ(allocations@) ==> known_coins(r@) == allocation_views(
            allocations@,
        ).to_multiset(),
{
    let chain = match network {
        BitcoinNetwork::Mainnet => Chain::Mainnet,
        BitcoinNetwork::Testnet => Chain::Testnet3,
        BitcoinNetwork::Signet => Chain::Signet,
        BitcoinNetwork::Regtest => Chain::Regtest(genesis_block(Network::Regtest).block_hash()),
    };
    let texts = allocations.iter().map(|(o, value)| format!("{}@{}:{}", value, o.txid, o.vout));
    let values = texts.map(|t| OutpointValue::from_str(&t).unwrap()).collect();
    let ticker = AsciiString::from_str(ticker).unwrap();
    let name = AsciiString::from_str(name).unwrap();
    let method = CloseMethod::OpretFirst;
    let none = BTreeMap::new();
    let contract =
        Contract::create_rgb20(chain, ticker, name, precision, values, none, method, None, None);
    strict_serialize(&contract).unwrap()
}

} // verus!
