//! The outputs of the wallet: which are new, which are spent, which may carry
//! allocations.

use vstd::prelude::*;

use crate::database::{DbTxo, LocalUnspent};
use crate::error::WalletError;
use crate::seqs::{
    first_where, lemma_filter_ends, lemma_filter_step, lemma_first_at, lemma_first_index,
    lemma_no_first, lemma_sum_prefix, sum,
};
use crate::text::{decimal, parse_u64, parsed_u64, u64_to_string};
use crate::wallet::types::{is_listed, listed, Outpoint};

verus! {

/// The satoshis of an output that is created to hold allocations.
pub const UTXO_SIZE: u64 = 1000;

/// How many allocations an output may hold.
pub const MAX_ALLOCATIONS_PER_UTXO: usize = 5;

/// An unspent output as the bitcoin wallet shows it.
#[derive(Debug, PartialEq, Eq)]
pub struct WalletOutput {
    /// The outpoint
    pub outpoint: Outpoint,
    /// Amount held in satoshi
    pub btc_amount: u64,
    /// Whether the output is on the external keychain
    pub external: bool,
}

/// Whether an outpoint is that of a stored output that counts as unspent.
pub open spec fn known_unspent(txos: Seq<DbTxo>, o: (Seq<char>, u32)) -> bool {
    exists|i: int|
        0 <= i < txos.len() && !(#[trigger] txos[i]).spent && txos[i].outpoint_spec()@ == o
}

/// The outputs that are not stored as unspent.
pub open spec fn unknown_outputs(txos: Seq<DbTxo>, unspent: Seq<WalletOutput>) -> Seq<
    WalletOutput,
> {
    unspent.filter(|u: WalletOutput| !known_unspent(txos, u.outpoint@))
}

/// Whether a row is the one under which an output is first stored: unspent and
/// without room for allocations. The database numbers it.
pub open spec fn first_row(row: DbTxo, u: WalletOutput) -> bool {
    &&& row.idx == 0
    &&& row.outpoint_spec()@ == u.outpoint@
    &&& row.btc_amount@ == decimal(u.btc_amount as nat)
    &&& !row.spent
    &&& !row.colorable
}

/// Tells whether an outpoint is that of a stored output that counts as unspent.
pub fn is_known_unspent(txos: &Vec<DbTxo>, o: &Outpoint) -> (r: bool)
    ensures
        r == known_unspent(txos@, o@),
{
    let mut i: usize = 0;
    while i < txos.len()
        invariant
            i <= txos.len(),
            forall|k: int|
                0 <= k < i ==> (#[trigger] txos@[k]).spent || txos@[k].outpoint_spec()@ != o@,
        decreases txos.len() - i,
    {
        if !txos[i].spent && txos[i].outpoint().same(o) {
            return true;
        }
        i += 1;
    }
    false
}

/// Gives the rows for the outputs that the bitcoin wallet knows and that are not
/// stored as unspent.
pub fn sync_db_txos(txos: &Vec<DbTxo>, unspent: &Vec<WalletOutput>) -> (r: Vec<DbTxo>)
    ensures
        r@.len() == unknown_outputs(txos@, unspent@).len(),
        forall|i: int|
            0 <= i < r@.len() ==> first_row(
                #[trigger] r@[i],
                unknown_outputs(txos@, unspent@)[i],
            ),
{
    let ghost p = |u: WalletOutput| !known_unspent(txos@, u.outpoint@);
    let mut rows: Vec<DbTxo> = Vec::new();
    let mut i: usize = 0;
    proof {
        lemma_filter_ends(unspent@, p);
    }
    while i < unspent.len()
        invariant
            i <= unspent.len(),
            p == (|u: WalletOutput| !known_unspent(txos@, u.outpoint@)),
            rows@.len() == unspent@.take(i as int).filter(p).len(),
            forall|k: int|
                0 <= k < rows@.len() ==> first_row(
                    #[trigger] rows@[k],
                    unspent@.take(i as int).filter(p)[k],
                ),
        decreases unspent.len() - i,
    {
        proof {
            lemma_filter_step(unspent@, p, i as int);
        }
        if !is_known_unspent(txos, &unspent[i].outpoint) {
            let row: DbTxo = DbTxo {
                idx: 0,
                txid: unspent[i].outpoint.txid.clone(),
                vout: unspent[i].outpoint.vout,
                btc_amount: u64_to_string(unspent[i].btc_amount),
                spent: false,
                colorable: false,
            };
            rows.push(row);
        }
        i += 1;
    }
    proof {
        lemma_filter_ends(unspent@, p);
    }
    rows
}

/// Once the rows of new outputs are stored, a second look finds nothing new.
pub proof fn syncing_twice_finds_nothing(
    txos: Seq<DbTxo>,
    unspent: Seq<WalletOutput>,
    rows: Seq<DbTxo>,
)
    requires
        rows.len() == unknown_outputs(txos, unspent).len(),
        forall|i: int|
            0 <= i < rows.len() ==> first_row(
                #[trigger] rows[i],
                unknown_outputs(txos, unspent)[i],
            ),
    ensures
        unknown_outputs(txos + rows, unspent) == Seq::<WalletOutput>::empty(),
{
    let all = txos + rows;
    let p = |u: WalletOutput| !known_unspent(txos, u.outpoint@);
    let q = |u: WalletOutput| !known_unspent(all, u.outpoint@);
    assert forall|k: int| 0 <= k < unspent.len() implies !q(#[trigger] unspent[k]) by {
        let u = unspent[k];
        if p(u) {
            unspent.lemma_filter_contains(p, k);
            let j = choose|j: int| 0 <= j < unspent.filter(p).len() && unspent.filter(p)[j] == u;
            assert(first_row(rows[j], u));
            assert(all[txos.len() + j] == rows[j]);
        } else {
            let i = choose|i: int|
                0 <= i < txos.len() && !(#[trigger] txos[i]).spent && txos[i].outpoint_spec()@
                    == u.outpoint@;
            assert(all[i] == txos[i]);
        }
    }
    lemma_no_first(unspent, q);
}

/// Picks the output of an outpoint.
pub open spec fn at_outpoint(o: (Seq<char>, u32)) -> spec_fn(DbTxo) -> bool {
    |t: DbTxo| t.outpoint_spec()@ == o
}

/// The stored output of an outpoint.
pub open spec fn stored_txo(txos: Seq<DbTxo>, o: (Seq<char>, u32)) -> Option<DbTxo> {
    first_where(txos, at_outpoint(o))
}

/// The stored output of an outpoint is the first with it, and there is none only where no
/// stored output has it.
pub proof fn lemma_stored_txo(txos: Seq<DbTxo>, o: (Seq<char>, u32))
    ensures
        stored_txo(txos, o) matches Some(t) ==> exists|i: int|
            {
                &&& 0 <= i < txos.len()
                &&& #[trigger] txos[i] == t
                &&& t.outpoint_spec()@ == o
                &&& forall|k: int|
                    0 <= k < i ==> (#[trigger] txos[k]).outpoint_spec()@ != o
            },
        stored_txo(txos, o) is None <==> forall|i: int|
            0 <= i < txos.len() ==> (#[trigger] txos[i]).outpoint_spec()@ != o,
{
    lemma_first_index(txos, at_outpoint(o));
}

/// Gives the stored output of an outpoint.
pub fn get_txo(txos: &Vec<DbTxo>, o: &Outpoint) -> (r: Option<DbTxo>)
    ensures
        r == stored_txo(txos@, o@),
{
    let ghost p = at_outpoint(o@);
    let mut i: usize = 0;
    while i < txos.len()
        invariant
            i <= txos.len(),
            p == at_outpoint(o@),
            forall|k: int| 0 <= k < i ==> !p(#[trigger] txos@[k]),
        decreases txos.len() - i,
    {
        if txos[i].outpoint().same(o) {
            proof {
                lemma_first_at(txos@, p, i as int);
            }
            return Some(txos[i].clone());
        }
        i += 1;
    }
    proof {
        lemma_no_first(txos@, p);
    }
    None
}

/// The row of an output once it is spent.
pub open spec fn as_spent(t: DbTxo) -> DbTxo {
    DbTxo { spent: true, ..t }
}

/// The row of an output once it can have allocations.
pub open spec fn as_colorable(t: DbTxo) -> DbTxo {
    DbTxo { colorable: true, ..t }
}

/// Whether every input of a transaction is stored.
pub open spec fn inputs_stored(txos: Seq<DbTxo>, inputs: Seq<Outpoint>) -> bool {
    forall|i: int| 0 <= i < inputs.len() ==> stored_txo(txos, (#[trigger] inputs[i])@) is Some
}

/// Gives the updated rows of the outputs that a broadcast transaction spends.
pub fn spend_inputs(txos: &Vec<DbTxo>, inputs: &Vec<Outpoint>) -> (r: Vec<DbTxo>)
    requires
        inputs_stored(txos@, inputs@),
    ensures
        r@.len() == inputs@.len(),
        forall|i: int|
            0 <= i < r@.len() ==> #[trigger] r@[i] == as_spent(
                stored_txo(txos@, inputs@[i]@)->0,
            ),
{
    let mut rows: Vec<DbTxo> = Vec::new();
    let mut i: usize = 0;
    while i < inputs.len()
        invariant
            i <= inputs.len(),
            inputs_stored(txos@, inputs@),
            rows@.len() == i,
            forall|k: int|
                0 <= k < i ==> #[trigger] rows@[k] == as_spent(
                    stored_txo(txos@, inputs@[k]@)->0,
                ),
        decreases inputs.len() - i,
    {
        assert(stored_txo(txos@, inputs@[i as int]@) is Some);
        let found: Option<DbTxo> = get_txo(txos, &inputs[i]);
        let mut row: DbTxo = found.unwrap();
        row.spent = true;
        rows.push(row);
        i += 1;
    }
    rows
}

/// Whether an output may receive one more allocation.
pub open spec fn allocatable(u: LocalUnspent, exclude_utxos: Seq<Outpoint>) -> bool {
    &&& !listed(exclude_utxos, u.utxo.outpoint_spec()@)
    &&& u.rgb_allocations@.len() < MAX_ALLOCATIONS_PER_UTXO
    &&& u.utxo.colorable
}

/// The outputs that may receive one more allocation, in their order.
pub open spec fn available(unspents: Seq<LocalUnspent>, exclude_utxos: Seq<Outpoint>) -> Seq<
    LocalUnspent,
> {
    unspents.filter(|u: LocalUnspent| allocatable(u, exclude_utxos))
}

/// Gives the outputs that may receive one more allocation, in their order.
pub fn get_available_allocations<'a>(
    unspents: &'a Vec<LocalUnspent>,
    exclude_utxos: &Vec<Outpoint>,
) -> (r: Vec<&'a LocalUnspent>)
    ensures
        r@.len() == available(unspents@, exclude_utxos@).len(),
        forall|i: int|
            0 <= i < r@.len() ==> *(#[trigger] r@[i]) == available(
                unspents@,
                exclude_utxos@,
            )[i],
{
    let ghost p = |u: LocalUnspent| allocatable(u, exclude_utxos@);
    let mut kept: Vec<&'a LocalUnspent> = Vec::new();
    let mut i: usize = 0;
    proof {
        lemma_filter_ends(unspents@, p);
    }
    while i < unspents.len()
        invariant
            i <= unspents.len(),
            p == (|u: LocalUnspent| allocatable(u, exclude_utxos@)),
            kept@.len() == unspents@.take(i as int).filter(p).len(),
            forall|k: int|
                0 <= k < kept@.len() ==> *(#[trigger] kept@[k]) == unspents@.take(
                    i as int,
                ).filter(p)[k],
        decreases unspents.len() - i,
    {
        proof {
            lemma_filter_step(unspents@, p, i as int);
        }
        let u: &'a LocalUnspent = &unspents[i];
        let outpoint: Outpoint = u.utxo.outpoint();
        if !is_listed(exclude_utxos, &outpoint) && u.rgb_allocations.len()
            < MAX_ALLOCATIONS_PER_UTXO && u.utxo.colorable {
            kept.push(u);
        }
        i += 1;
    }
    proof {
        lemma_filter_ends(unspents@, p);
    }
    kept
}

/// The outputs whose bitcoins the wallet may spend freely.
pub open spec fn spendable(unspents: Seq<LocalUnspent>) -> Seq<LocalUnspent> {
    unspents.filter(|u: LocalUnspent| !u.utxo.colorable)
}

/// The satoshis of outputs.
pub open spec fn satoshis(unspents: Seq<LocalUnspent>) -> Seq<u64> {
    unspents.map_values(|u: LocalUnspent| parsed_u64(u.utxo.btc_amount@)->0)
}

/// The satoshis that the wallet may spend freely.
pub open spec fn spendable_bitcoins(unspents: Seq<LocalUnspent>) -> nat {
    sum(satoshis(spendable(unspents)))
}

/// Whether the amounts of the outputs that the wallet may spend can be read and
/// added up.
pub open spec fn funds_known(unspents: Seq<LocalUnspent>) -> bool {
    &&& forall|i: int|
        0 <= i < unspents.len() && !(#[trigger] unspents[i]).utxo.colorable
            ==> unspents[i].utxo.readable()
    &&& spendable_bitcoins(unspents) <= u64::MAX
}

/// Adds up the satoshis that the wallet may spend freely.
pub fn get_spendable_bitcoins(unspents: &Vec<LocalUnspent>) -> (r: u64)
    requires
        funds_known(unspents@),
    ensures
        r == spendable_bitcoins(unspents@),
{
    let ghost p = |u: LocalUnspent| !u.utxo.colorable;
    let mut acc: u64 = 0;
    let mut i: usize = 0;
    proof {
        lemma_filter_ends(unspents@, p);
        assert(satoshis(unspents@.take(0).filter(p)) =~= Seq::<u64>::empty());
    }
    while i < unspents.len()
        invariant
            i <= unspents.len(),
            p == (|u: LocalUnspent| !u.utxo.colorable),
            funds_known(unspents@),
            acc == sum(satoshis(unspents@.take(i as int).filter(p))),
        decreases unspents.len() - i,
    {
        proof {
            lemma_filter_step(unspents@, p, i as int);
            lemma_spendable_prefix(unspents@, i + 1);
        }
        if !unspents[i].utxo.colorable {
            assert(unspents@[i as int].utxo.readable());
            let amount: Option<u64> = parse_u64(unspents[i].utxo.btc_amount.as_str());
            let amount: u64 = amount.unwrap();
            proof {
                let before = satoshis(unspents@.take(i as int).filter(p));
                let after = satoshis(unspents@.take(i + 1).filter(p));
                assert(after =~= before.push(amount));
                assert(after.drop_last() =~= before);
            }
            acc = acc + amount;
        }
        i += 1;
    }
    proof {
        lemma_filter_ends(unspents@, p);
    }
    acc
}

/// The bitcoins of the first outputs are at most those of all.
proof fn lemma_spendable_prefix(unspents: Seq<LocalUnspent>, n: int)
    requires
        0 <= n <= unspents.len(),
    ensures
        spendable_bitcoins(unspents.take(n)) <= spendable_bitcoins(unspents),
{
    let p = |u: LocalUnspent| !u.utxo.colorable;
    assert(unspents =~= unspents.take(n) + unspents.skip(n));
    Seq::filter_distributes_over_add(unspents.take(n), unspents.skip(n), p);
    let head = satoshis(unspents.take(n).filter(p));
    let all = satoshis(unspents.filter(p));
    assert(all.take(head.len() as int) =~= head);
    lemma_sum_prefix(all, head.len() as int);
}

/// The output that the next allocation goes to.
pub open spec fn next_utxo(unspents: Seq<LocalUnspent>, exclude_utxos: Seq<Outpoint>) -> Option<
    DbTxo,
> {
    let outputs = available(unspents, exclude_utxos);
    if outputs.len() > 0 {
        Some(outputs[0].utxo)
    } else {
        None
    }
}

/// Gives the output that the next allocation goes to: the first that may receive
/// one and is not excluded.
///
/// Where there is none, either the bitcoins for a new one are missing or it has
/// to be created first.
pub fn get_utxo(unspents: &Vec<LocalUnspent>, exclude_utxos: &Vec<Outpoint>) -> (r: Result<
    DbTxo,
    WalletError,
>)
    requires
        next_utxo(unspents@, exclude_utxos@) is None ==> funds_known(unspents@),
    ensures
        ({
            let next = next_utxo(unspents@, exclude_utxos@);
            let funded = spendable_bitcoins(unspents@) >= UTXO_SIZE * 2;
            &&& r is Ok <==> next is Some
            &&& r matches Ok(utxo) ==> Some(utxo) == next
            &&& (r matches Err(WalletError::InsufficientFunds)) <==> next is None && !funded
            &&& (r matches Err(WalletError::InsufficientAllocationSlots)) <==> next is None
                && funded
        }),
{
    let outputs: Vec<&LocalUnspent> = get_available_allocations(unspents, exclude_utxos);
    if outputs.len() > 0 {
        Ok(outputs[0].utxo.clone())
    } else if get_spendable_bitcoins(unspents) < UTXO_SIZE * 2 {
        Err(WalletError::InsufficientFunds)
    } else {
        Err(WalletError::InsufficientAllocationSlots)
    }
}

/// The output that an allocation goes to is not excluded, can have allocations
/// and has room for one more.
pub proof fn next_utxo_has_room(unspents: Seq<LocalUnspent>, exclude_utxos: Seq<Outpoint>)
    ensures
        next_utxo(unspents, exclude_utxos) matches Some(utxo) ==> {
            &&& utxo.colorable
            &&& !listed(exclude_utxos, utxo.outpoint_spec()@)
            &&& exists|i: int|
                0 <= i < unspents.len() && (#[trigger] unspents[i]).utxo == utxo
                    && unspents[i].rgb_allocations@.len() < MAX_ALLOCATIONS_PER_UTXO
        },
{
    let p = |u: LocalUnspent| allocatable(u, exclude_utxos);
    let kept = unspents.filter(p);
    if kept.len() > 0 {
        unspents.lemma_filter_pred(p, 0);
        unspents.lemma_filter_contains_rev(p, kept[0]);
        let i = choose|i: int| 0 <= i < unspents.len() && unspents[i] == kept[0];
        assert(unspents[i].utxo == kept[0].utxo);
    }
}

} // verus!
