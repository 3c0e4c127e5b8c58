//! The outputs of the wallet.

use vstd::prelude::*;

use crate::database::{DbTxo, LocalUnspent};
use crate::error::WalletError;
use crate::laws::is_among;
use crate::seqs::{lemma_filter_members, lemma_filter_picks, lemma_first_index};
use crate::text::decimal;
use crate::wallet::outputs::{
    allocatable, get_available_allocations, get_spendable_bitcoins, get_txo, get_utxo,
    is_known_unspent, known_unspent, lemma_stored_txo, spend_inputs, stored_txo, sync_db_txos,
    unknown_outputs, WalletOutput,
};
use crate::wallet::types::Outpoint;

verus! {

/// Whether an output can take one more allocation: it is made for allocations, holds
/// fewer than five of them, settled or not, and is not excluded.
pub open spec fn has_room(u: LocalUnspent, exclude_utxos: Seq<Outpoint>) -> bool {
    &&& u.utxo.colorable
    &&& u.rgb_allocations@.len() < 5
    &&& !is_among(exclude_utxos, u.utxo.txid@, u.utxo.vout)
}

/// Every output with room for one more allocation is offered, and no other.
pub proof fn outputs_with_room_are_offered<'a>(
    unspents: Vec<LocalUnspent>,
    exclude_utxos: Vec<Outpoint>,
    offered: Vec<&'a LocalUnspent>,
)
    requires
        call_ensures(get_available_allocations, (&unspents, &exclude_utxos), offered),
    ensures
        forall|i: int|
            0 <= i < unspents@.len() && has_room(#[trigger] unspents@[i], exclude_utxos@)
                ==> exists|k: int| 0 <= k < offered@.len() && *(#[trigger] offered@[k]) == unspents@[i],
        forall|k: int|
            0 <= k < offered@.len() ==> has_room(*(#[trigger] offered@[k]), exclude_utxos@)
                && unspents@.contains(*offered@[k]),
        offered@.len() <= unspents@.len(),
{
    let p = |u: LocalUnspent| allocatable(u, exclude_utxos@);
    lemma_filter_members(unspents@, p);
    assert forall|i: int|
        0 <= i < unspents@.len() && has_room(
            #[trigger] unspents@[i],
            exclude_utxos@,
        ) implies exists|k: int|
        0 <= k < offered@.len() && *(#[trigger] offered@[k]) == unspents@[i] by {
        assert(unspents@.filter(p).contains(unspents@[i]));
        let k = choose|k: int|
            0 <= k < unspents@.filter(p).len() && unspents@.filter(p)[k] == unspents@[i];
        assert(*offered@[k] == unspents@[i]);
    }
}

/// An allocation goes to the first output that has room for it, and is refused only where
/// no output has.
pub proof fn the_first_output_with_room_is_taken(
    unspents: Vec<LocalUnspent>,
    exclude_utxos: Vec<Outpoint>,
    r: Result<DbTxo, WalletError>,
)
    requires
        call_ensures(get_utxo, (&unspents, &exclude_utxos), r),
    ensures
        r matches Ok(utxo) ==> exists|i: int|
            {
                &&& 0 <= i < unspents@.len()
                &&& (#[trigger] unspents@[i]).utxo == utxo
                &&& has_room(unspents@[i], exclude_utxos@)
                &&& forall|j: int|
                    0 <= j < i ==> !has_room(#[trigger] unspents@[j], exclude_utxos@)
            },
        r is Err ==> forall|i: int|
            0 <= i < unspents@.len() ==> !has_room(#[trigger] unspents@[i], exclude_utxos@),
{
    let p = |u: LocalUnspent| allocatable(u, exclude_utxos@);
    lemma_first_index(unspents@, p);
}

/// Outputs are offered in their order, each of them once.
pub proof fn outputs_are_offered_in_order<'a>(
    unspents: Vec<LocalUnspent>,
    exclude_utxos: Vec<Outpoint>,
    offered: Vec<&'a LocalUnspent>,
) -> (at: Seq<int>)
    requires
        call_ensures(get_available_allocations, (&unspents, &exclude_utxos), offered),
    ensures
        offered@.len() == at.len(),
        forall|k: int|
            0 <= k < at.len() ==> 0 <= #[trigger] at[k] < unspents@.len() && *offered@[k]
                == unspents@[at[k]],
        forall|k: int, l: int| 0 <= k < l < at.len() ==> #[trigger] at[k] < #[trigger] at[l],
        forall|i: int|
            0 <= i < unspents@.len() ==> (at.contains(i) <==> has_room(
                #[trigger] unspents@[i],
                exclude_utxos@,
            )),
{
    let p = |u: LocalUnspent| allocatable(u, exclude_utxos@);
    let at = lemma_filter_picks(unspents@, p);
    assert forall|i: int| 0 <= i < unspents@.len() implies (at.contains(i) <==> has_room(
        #[trigger] unspents@[i],
        exclude_utxos@,
    )) by {
        if at.contains(i) {
            let k = choose|k: int| 0 <= k < at.len() && at[k] == i;
            assert(p(unspents@[at[k]]));
        }
        if has_room(unspents@[i], exclude_utxos@) {
            assert(p(unspents@[i]));
        }
    }
    at
}

/// Where no output has room, bitcoins for a new one are missing below two thousand
/// satoshis. With more, it only has to be created.
pub proof fn new_outputs_need_bitcoins(
    unspents: Vec<LocalUnspent>,
    exclude_utxos: Vec<Outpoint>,
    bitcoins: u64,
    r: Result<DbTxo, WalletError>,
)
    requires
        call_ensures(get_spendable_bitcoins, (&unspents,), bitcoins),
        call_ensures(get_utxo, (&unspents, &exclude_utxos), r),
    ensures
        r is Err && bitcoins < 2000 ==> (r matches Err(WalletError::InsufficientFunds)),
        r is Err && bitcoins >= 2000 ==> (r matches Err(
            WalletError::InsufficientAllocationSlots,
        )),
{
}

/// Whether an output is stored, and not as a spent one.
pub open spec fn is_stored_unspent(txos: Seq<DbTxo>, o: Outpoint) -> bool {
    exists|i: int|
        {
            &&& 0 <= i < txos.len()
            &&& (#[trigger] txos[i]).txid@ == o.txid@
            &&& txos[i].vout == o.vout
            &&& !txos[i].spent
        }
}

/// Whether a row is the first one of an output: it has its outpoint and its satoshis, is
/// not spent and not made for allocations.
pub open spec fn is_first_row(row: DbTxo, u: WalletOutput) -> bool {
    &&& row.idx == 0
    &&& row.txid@ == u.outpoint.txid@
    &&& row.vout == u.outpoint.vout
    &&& row.btc_amount@ == decimal(u.btc_amount as nat)
    &&& !row.spent
    &&& !row.colorable
}

/// An output of the bitcoin wallet gets a row exactly where it is not stored as an unspent
/// one. The rows come in the order of the outputs.
pub proof fn new_outputs_are_stored(
    txos: Vec<DbTxo>,
    unspent: Vec<WalletOutput>,
    r: Vec<DbTxo>,
) -> (at: Seq<int>)
    requires
        call_ensures(sync_db_txos, (&txos, &unspent), r),
    ensures
        r@.len() == at.len(),
        forall|k: int|
            0 <= k < at.len() ==> 0 <= #[trigger] at[k] < unspent@.len() && is_first_row(
                r@[k],
                unspent@[at[k]],
            ),
        forall|k: int, l: int| 0 <= k < l < at.len() ==> #[trigger] at[k] < #[trigger] at[l],
        forall|i: int|
            0 <= i < unspent@.len() ==> (at.contains(i) <==> !is_stored_unspent(
                txos@,
                (#[trigger] unspent@[i]).outpoint,
            )),
{
    let p = |u: WalletOutput| !known_unspent(txos@, u.outpoint@);
    let at = lemma_filter_picks(unspent@, p);
    assert(unknown_outputs(txos@, unspent@) == unspent@.filter(p));
    assert forall|i: int| 0 <= i < unspent@.len() implies (at.contains(i) <==> !is_stored_unspent(
        txos@,
        (#[trigger] unspent@[i]).outpoint,
    )) by {
        lemma_stored_unspent(txos@, unspent@[i].outpoint);
        if at.contains(i) {
            let k = choose|k: int| 0 <= k < at.len() && at[k] == i;
            assert(p(unspent@[at[k]]));
        }
        if !is_stored_unspent(txos@, unspent@[i].outpoint) {
            assert(p(unspent@[i]));
        }
    }
    at
}

proof fn lemma_stored_unspent(txos: Seq<DbTxo>, o: Outpoint)
    ensures
        is_stored_unspent(txos, o) <==> known_unspent(txos, o@),
{
    if known_unspent(txos, o@) {
        let i = choose|i: int|
            0 <= i < txos.len() && !(#[trigger] txos[i]).spent && txos[i].outpoint_spec()@ == o@;
        assert(txos[i].outpoint_spec()@.0 == o.txid@);
        assert(is_stored_unspent(txos, o));
    }
    if is_stored_unspent(txos, o) {
        let i = choose|i: int|
            {
                &&& 0 <= i < txos.len()
                &&& (#[trigger] txos[i]).txid@ == o.txid@
                &&& txos[i].vout == o.vout
                &&& !txos[i].spent
            };
        assert(txos[i].outpoint_spec()@ == o@);
    }
}

/// An outpoint is known as unspent exactly where it is stored so.
pub proof fn unspent_outputs_are_known(txos: Vec<DbTxo>, o: Outpoint, r: bool)
    requires
        call_ensures(is_known_unspent, (&txos, &o), r),
    ensures
        r <==> is_stored_unspent(txos@, o),
{
    lemma_stored_unspent(txos@, o);
}

/// The row that is found for an outpoint is the first one with it. There is none exactly
/// where no row has it.
pub proof fn outputs_are_found_by_their_outpoints(txos: Vec<DbTxo>, o: Outpoint, r: Option<DbTxo>)
    requires
        call_ensures(get_txo, (&txos, &o), r),
    ensures
        r matches Some(t) ==> t.txid@ == o.txid@ && t.vout == o.vout && txos@.contains(t),
        forall|i: int|
            0 <= i < txos@.len() && (#[trigger] txos@[i]).txid@ == o.txid@ && txos@[i].vout
                == o.vout && (forall|k: int|
                0 <= k < i ==> (#[trigger] txos@[k]).txid@ != o.txid@ || txos@[k].vout != o.vout)
                ==> r == Some(txos@[i]),
        (forall|i: int|
            0 <= i < txos@.len() ==> (#[trigger] txos@[i]).txid@ != o.txid@ || txos@[i].vout
                != o.vout) ==> r is None,
{
    lemma_stored_txo(txos@, o@);
    if r is Some {
        let t = r->0;
        let i = choose|i: int|
            {
                &&& 0 <= i < txos@.len()
                &&& #[trigger] txos@[i] == t
                &&& t.outpoint_spec()@ == o@
                &&& forall|k: int|
                    0 <= k < i ==> (#[trigger] txos@[k]).outpoint_spec()@ != o@
            };
        assert(t.outpoint_spec()@.0 == o.txid@);
        assert(txos@.contains(t));
        assert forall|j: int|
            0 <= j < txos@.len() && (#[trigger] txos@[j]).txid@ == o.txid@ && txos@[j].vout
                == o.vout && (forall|k: int|
                0 <= k < j ==> (#[trigger] txos@[k]).txid@ != o.txid@ || txos@[k].vout
                    != o.vout) implies r == Some(txos@[j]) by {
            assert(txos@[j].outpoint_spec()@ == o@);
            assert(txos@[i].txid@ == o.txid@ && txos@[i].vout == o.vout);
            assert(i == j);
        }
    } else {
        assert forall|j: int| 0 <= j < txos@.len() implies (#[trigger] txos@[j]).txid@ != o.txid@
            || txos@[j].vout != o.vout by {
            assert(txos@[j].outpoint_spec()@ != o@);
        }
    }
}

/// Whether a row is that of an outpoint, spent, and the same as a stored one otherwise.
pub open spec fn is_spent_row(row: DbTxo, o: Outpoint, txos: Seq<DbTxo>) -> bool {
    &&& row.txid@ == o.txid@
    &&& row.vout == o.vout
    &&& row.spent
    &&& exists|t: int|
        {
            &&& 0 <= t < txos.len()
            &&& (#[trigger] txos[t]).idx == row.idx
            &&& txos[t].txid == row.txid
            &&& txos[t].vout == row.vout
            &&& txos[t].btc_amount == row.btc_amount
            &&& txos[t].colorable == row.colorable
        }
}

/// Every input of a transaction is spent, and its row changes in nothing else.
pub proof fn inputs_become_spent(txos: Vec<DbTxo>, inputs: Vec<Outpoint>, r: Vec<DbTxo>)
    requires
        forall|i: int|
            0 <= i < inputs@.len() ==> stored_txo(
                txos@,
                (#[trigger] inputs@[i])@,
            ) is Some,
        call_ensures(spend_inputs, (&txos, &inputs), r),
    ensures
        r@.len() == inputs@.len(),
        forall|i: int|
            0 <= i < r@.len() ==> is_spent_row(#[trigger] r@[i], inputs@[i], txos@),
{
    assert forall|i: int| 0 <= i < r@.len() implies is_spent_row(
        #[trigger] r@[i],
        inputs@[i],
        txos@,
    ) by {
        let o = inputs@[i];
        lemma_stored_txo(txos@, o@);
        let row = stored_txo(txos@, o@)->0;
        assert(stored_txo(txos@, o@) is Some);
        let t = choose|t: int| 0 <= t < txos@.len() && #[trigger] txos@[t] == row;
        assert(row.outpoint_spec()@ == o@);
        assert(row.outpoint_spec()@.0 == o.txid@);
    }
}

} // verus!
