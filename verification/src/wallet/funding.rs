//! Bitcoins: creating outputs that can hold allocations, and sending funds away.

use vstd::prelude::*;

use crate::chain::{psbt_of_text, read_address, read_signed_psbt, script_of_address, PsbtContents};
use crate::database::{DbColoring, DbTxo, LocalUnspent};
use crate::error::WalletError;
use crate::seqs::{has_id, lemma_filter_ends, lemma_filter_step};
use crate::wallet::outputs::{
    as_colorable, available, funds_known, get_available_allocations, get_spendable_bitcoins,
    get_txo, spendable, spendable_bitcoins, stored_txo, WalletOutput, UTXO_SIZE,
};
use crate::wallet::types::{Online, Outpoint};
use crate::wallet::Wallet;

verus! {

/// How many outputs are created where the user asks for no number.
pub const UTXO_NUM: u8 = 5;

/// A transaction that splits bitcoins into outputs that can hold allocations.
#[derive(Debug, PartialEq, Eq)]
pub struct SplitPlan {
    /// The outputs to spend
    pub inputs: Vec<Outpoint>,
    /// How many outputs of [`UTXO_SIZE`] satoshis to create
    pub count: u8,
}

/// How many outputs are asked for.
pub open spec fn requested(num: Option<u8>) -> nat {
    match num {
        Some(n) => n as nat,
        None => UTXO_NUM as nat,
    }
}

/// How many outputs have to be created, where `there` can already hold
/// allocations: all that are asked for or, up to that number, those that are
/// missing. Nothing where none is missing.
pub open spec fn to_create(up_to: bool, num: Option<u8>, there: nat) -> Option<nat> {
    if !up_to {
        Some(requested(num))
    } else if there >= requested(num) {
        None
    } else {
        Some((requested(num) - there) as nat)
    }
}

/// How many outputs a number of satoshis pays for, at most `count`.
pub open spec fn affordable(count: nat, bitcoins: nat) -> nat {
    if count <= bitcoins / (UTXO_SIZE as nat) {
        count
    } else {
        bitcoins / (UTXO_SIZE as nat)
    }
}

/// The outpoints of stored outputs.
pub open spec fn outpoints_of(unspents: Seq<LocalUnspent>) -> Seq<Outpoint> {
    unspents.map_values(|u: LocalUnspent| u.utxo.outpoint_spec())
}

fn spendable_outpoints(unspents: &Vec<LocalUnspent>) -> (r: Vec<Outpoint>)
    ensures
        r@ == outpoints_of(spendable(unspents@)),
{
    let ghost p = |u: LocalUnspent| !u.utxo.colorable;
    let mut inputs: Vec<Outpoint> = Vec::new();
    let mut i: usize = 0;
    proof {
        lemma_filter_ends(unspents@, p);
        assert(outpoints_of(unspents@.take(0).filter(p)) =~= Seq::<Outpoint>::empty());
    }
    while i < unspents.len()
        invariant
            i <= unspents.len(),
            p == (|u: LocalUnspent| !u.utxo.colorable),
            inputs@ == outpoints_of(unspents@.take(i as int).filter(p)),
        decreases unspents.len() - i,
    {
        proof {
            lemma_filter_step(unspents@, p, i as int);
        }
        if !unspents[i].utxo.colorable {
            let ghost head = inputs@;
            inputs.push(unspents[i].utxo.outpoint());
            assert(inputs@ =~= outpoints_of(unspents@.take(i + 1).filter(p)));
        }
        i += 1;
    }
    proof {
        lemma_filter_ends(unspents@, p);
    }
    inputs
}

impl SplitPlan {
    /// Tries one output less after the transaction could not be built.
    ///
    /// If the number reaches zero, an error is returned.
    pub fn one_less(self) -> (r: Result<SplitPlan, WalletError>)
        ensures
            r is Ok <==> fewer(self.count) is Some,
            r is Err ==> (r matches Err(WalletError::InsufficientFunds)),
            r matches Ok(plan) ==> plan.inputs == self.inputs && fewer(self.count) == Some(
                plan.count,
            ),
    {
        if self.count > 1 {
            Ok(SplitPlan { inputs: self.inputs, count: self.count - 1 })
        } else {
            Err(WalletError::InsufficientFunds)
        }
    }
}

/// The number of outputs that is tried after another one. Nothing where it would be
/// zero.
pub open spec fn fewer(count: u8) -> Option<u8> {
    if count > 1 {
        Some((count - 1) as u8)
    } else {
        None
    }
}

/// The first number of outputs with which the transaction can be built, if there is
/// one, where the numbers are tried one after the other.
pub open spec fn settled_on(count: u8, works: spec_fn(u8) -> bool) -> Option<u8>
    decreases count,
{
    if works(count) {
        Some(count)
    } else {
        match fewer(count) {
            None => None,
            Some(n) => settled_on(n, works),
        }
    }
}

/// Decrementing the number by one until the transaction can be built ends at the
/// greatest number that works, or in an error where none does.
pub proof fn as_many_outputs_as_possible(count: u8, works: spec_fn(u8) -> bool)
    requires
        count > 0,
    ensures
        match settled_on(count, works) {
            Some(n) => 0 < n <= count && works(n) && forall|m: u8|
                n < m <= count ==> !#[trigger] works(m),
            None => forall|m: u8| 0 < m <= count ==> !#[trigger] works(m),
        },
    decreases count,
{
    if !works(count) && count > 1 {
        as_many_outputs_as_possible((count - 1) as u8, works);
    }
}

/// With `up_to`, the outputs that are there and those that are created are never
/// more than requested.
pub proof fn up_to_stops_at_the_requested_number(num: Option<u8>, there: nat, bitcoins: nat)
    ensures
        to_create(true, num, there) matches Some(n) ==> there + affordable(n, bitcoins)
            <= requested(num),
        to_create(true, num, there) is None <==> there >= requested(num),
{
}

/// An output of the bitcoin wallet that a transaction created on the external
/// keychain.
pub open spec fn created_by(txid: Seq<char>, u: WalletOutput) -> bool {
    u.outpoint.txid@ == txid && u.external
}

/// The outputs of the bitcoin wallet that a transaction created on the external
/// keychain.
pub open spec fn created(txid: Seq<char>, utxos: Seq<WalletOutput>) -> Seq<WalletOutput> {
    utxos.filter(|u: WalletOutput| created_by(txid, u))
}

/// Whether every output of the bitcoin wallet is stored.
pub open spec fn all_stored(txos: Seq<DbTxo>, utxos: Seq<WalletOutput>) -> bool {
    forall|i: int|
        0 <= i < utxos.len() ==> stored_txo(txos, (#[trigger] utxos[i]).outpoint@) is Some
}

/// Gives the updated rows of the outputs that a broadcast transaction created:
/// they can have allocations from now on. Their number is that of the created
/// UTXOs.
pub fn created_outputs(txid: &String, utxos: &Vec<WalletOutput>, txos: &Vec<DbTxo>) -> (r: (
    Vec<DbTxo>,
    u8,
))
    requires
        all_stored(txos@, utxos@),
        created(txid@, utxos@).len() <= u8::MAX,
    ensures
        r.0@.len() == created(txid@, utxos@).len(),
        forall|i: int|
            0 <= i < r.0@.len() ==> #[trigger] r.0@[i] == as_colorable(
                stored_txo(txos@, created(txid@, utxos@)[i].outpoint@)->0,
            ),
        r.1 == created(txid@, utxos@).len(),
{
    let ghost p = |u: WalletOutput| created_by(txid@, u);
    let mut rows: Vec<DbTxo> = Vec::new();
    let mut count: u8 = 0;
    let mut i: usize = 0;
    proof {
        lemma_filter_ends(utxos@, p);
    }
    while i < utxos.len()
        invariant
            i <= utxos.len(),
            p == (|u: WalletOutput| created_by(txid@, u)),
            all_stored(txos@, utxos@),
            utxos@.filter(p).len() <= u8::MAX,
            count == rows@.len(),
            rows@.len() == utxos@.take(i as int).filter(p).len(),
            forall|k: int|
                0 <= k < rows@.len() ==> #[trigger] rows@[k] == as_colorable(
                    stored_txo(txos@, utxos@.take(i as int).filter(p)[k].outpoint@)->0,
                ),
        decreases utxos.len() - i,
    {
        proof {
            lemma_filter_step(utxos@, p, i as int);
            let head = utxos@.take(i + 1);
            assert(utxos@ =~= head + utxos@.skip(i + 1));
            Seq::filter_distributes_over_add(head, utxos@.skip(i + 1), p);
            assert(stored_txo(txos@, utxos@[i as int].outpoint@) is Some);
        }
        let found: Option<DbTxo> = get_txo(txos, &utxos[i].outpoint);
        let mut row: DbTxo = found.unwrap();
        if utxos[i].outpoint.txid == *txid && utxos[i].external {
            row.colorable = true;
            rows.push(row);
            count += 1;
        }
        i += 1;
    }
    proof {
        lemma_filter_ends(utxos@, p);
    }
    (rows, count)
}

/// A transaction that sends bitcoins away.
#[derive(Debug, PartialEq, Eq)]
pub struct DrainPlan {
    /// The script of the address that receives the bitcoins
    pub script: Vec<u8>,
    /// The outputs that the transaction must not spend
    pub unspendable: Vec<Outpoint>,
}

/// Whether an output is in use for allocations: it can have some, or a coloring
/// is on it.
pub open spec fn in_use(t: DbTxo, colorings: Seq<DbColoring>) -> bool {
    t.colorable || exists|i: int|
        0 <= i < colorings.len() && (#[trigger] colorings[i]).txo_idx == t.idx
}

/// The outpoints of the outputs that are in use for allocations.
pub open spec fn outpoints_in_use(txos: Seq<DbTxo>, colorings: Seq<DbColoring>) -> Seq<
    Outpoint,
> {
    txos.filter(|t: DbTxo| in_use(t, colorings)).map_values(|t: DbTxo| t.outpoint_spec())
}

fn colored_txos(colorings: &Vec<DbColoring>) -> (r: Vec<i64>)
    ensures
        r@ == colorings@.map_values(|c: DbColoring| c.txo_idx),
{
    let mut ids: Vec<i64> = Vec::new();
    let mut i: usize = 0;
    while i < colorings.len()
        invariant
            i <= colorings.len(),
            ids@ == colorings@.take(i as int).map_values(|c: DbColoring| c.txo_idx),
        decreases colorings.len() - i,
    {
        ids.push(colorings[i].txo_idx);
        i += 1;
        assert(ids@ =~= colorings@.take(i as int).map_values(|c: DbColoring| c.txo_idx));
    }
    assert(colorings@.take(i as int) =~= colorings@);
    ids
}

fn get_outpoints_in_use(txos: &Vec<DbTxo>, colorings: &Vec<DbColoring>) -> (r: Vec<Outpoint>)
    ensures
        r@ == outpoints_in_use(txos@, colorings@),
{
    let ghost p = |t: DbTxo| in_use(t, colorings@);
    let ghost f = |t: DbTxo| t.outpoint_spec();
    let ids: Vec<i64> = colored_txos(colorings);
    let mut outpoints: Vec<Outpoint> = Vec::new();
    let mut i: usize = 0;
    proof {
        lemma_filter_ends(txos@, p);
        assert(txos@.take(0).filter(p).map_values(f) =~= Seq::<Outpoint>::empty());
    }
    while i < txos.len()
        invariant
            i <= txos.len(),
            p == (|t: DbTxo| in_use(t, colorings@)),
            f == (|t: DbTxo| t.outpoint_spec()),
            ids@ == colorings@.map_values(|c: DbColoring| c.txo_idx),
            outpoints@ == txos@.take(i as int).filter(p).map_values(f),
        decreases txos.len() - i,
    {
        proof {
            lemma_filter_step(txos@, p, i as int);
            let t = txos@[i as int];
            if ids@.contains(t.idx) {
                let k = choose|k: int| 0 <= k < ids@.len() && ids@[k] == t.idx;
                assert(colorings@[k].txo_idx == t.idx);
            }
            if exists|k: int| 0 <= k < colorings@.len() && (#[trigger] colorings@[k]).txo_idx
                == t.idx {
                let k = choose|k: int|
                    0 <= k < colorings@.len() && (#[trigger] colorings@[k]).txo_idx == t.idx;
                assert(ids@[k] == t.idx);
            }
        }
        if txos[i].colorable || has_id(&ids, txos[i].idx) {
            outpoints.push(txos[i].outpoint());
            assert(outpoints@ =~= txos@.take(i + 1).filter(p).map_values(f));
        }
        i += 1;
    }
    proof {
        lemma_filter_ends(txos@, p);
    }
    outpoints
}

/// Without leave to destroy assets, every stored output that is in use for
/// allocations is kept from being spent.
pub proof fn draining_spares_outputs_in_use(
    txos: Seq<DbTxo>,
    colorings: Seq<DbColoring>,
    i: int,
)
    requires
        0 <= i < txos.len(),
        in_use(txos[i], colorings),
    ensures
        outpoints_in_use(txos, colorings).contains(txos[i].outpoint_spec()),
{
    let p = |t: DbTxo| in_use(t, colorings);
    txos.lemma_filter_contains(p, i);
    let k = choose|k: int| 0 <= k < txos.filter(p).len() && txos.filter(p)[k] == txos[i];
    assert(outpoints_in_use(txos, colorings)[k] == txos[i].outpoint_spec());
}

impl Wallet {
    /// Create new UTXOs. See the [`create_utxos_begin`](Wallet::create_utxos_begin) function for
    /// details.
    ///
    /// This is the full version, requiring a wallet with private keys and [`Online`] data
    pub fn create_utxos(
        &self,
        online: &Online,
        up_to: bool,
        num: Option<u8>,
        unspents: &Vec<LocalUnspent>,
        settled_unspents: &Vec<LocalUnspent>,
    ) -> (r: Result<SplitPlan, WalletError>)
        requires
            self.data().mnemonic is Some && self.is_online_with(*online) && to_create(
                up_to,
                num,
                available(unspents@, Seq::empty()).len(),
            ) is Some ==> funds_known(settled_unspents@),
        ensures
            (r matches Err(WalletError::WatchOnly)) <==> self.data().mnemonic is None,
            (r matches Err(WalletError::InvalidOnline)) <==> self.data().mnemonic is Some
                && !self.is_online_with(*online),
            self.data().mnemonic is Some && self.is_online_with(*online) ==> split_begun(
                r,
                to_create(up_to, num, available(unspents@, Seq::empty()).len()),
                settled_unspents@,
            ),
    {
        match self.check_xprv() {
            Err(e) => {
                return Err(e);
            },
            Ok(()) => {},
        }
        match self.check_online(online) {
            Err(e) => Err(e),
            Ok(()) => self.create_utxos_begin(online, up_to, num, unspents, settled_unspents),
        }
    }

    /// Prepare the PSBT to create new UTXOs to hold RGB allocations.
    ///
    /// If `up_to` is false, just create the required UTXOs.
    /// If `up_to` is true, create as many UTXOs as needed to reach the requested number or return
    /// an error if none need to be created.
    ///
    /// Providing the optional `num` parameter requests that many UTXOs, if it's not specified the
    /// default number is used.
    ///
    /// If not enough bitcoin funds are available to create the requested (or default) number of
    /// UTXOs, the number is decremented by one until it is possible to complete the operation. If
    /// the number reaches zero, an error is returned.
    ///
    /// This is the first half of the partial version, requiring no private keys nor [`Online`] data:
    /// any online data will do.
    ///
    /// Returns the first transaction to try. Where it cannot be built,
    /// [`one_less`](SplitPlan::one_less) gives the next.
    pub fn create_utxos_begin(
        &self,
        _online: &Online,
        up_to: bool,
        num: Option<u8>,
        unspents: &Vec<LocalUnspent>,
        settled_unspents: &Vec<LocalUnspent>,
    ) -> (r: Result<SplitPlan, WalletError>)
        requires
            to_create(up_to, num, available(unspents@, Seq::empty()).len()) is Some
                ==> funds_known(settled_unspents@),
        ensures
            split_begun(
                r,
                to_create(up_to, num, available(unspents@, Seq::empty()).len()),
                settled_unspents@,
            ),
    {
        let no_outpoints: Vec<Outpoint> = Vec::new();
        assert(no_outpoints@ =~= Seq::<Outpoint>::empty());
        let there: usize = get_available_allocations(unspents, &no_outpoints).len();
        let mut utxos_to_create: u8 = match num {
            Some(n) => n,
            None => UTXO_NUM,
        };
        if up_to {
            if there >= utxos_to_create as usize {
                return Err(WalletError::AllocationsAlreadyAvailable);
            } else {
                utxos_to_create = utxos_to_create - there as u8;
            }
        }
        let inputs: Vec<Outpoint> = spendable_outpoints(settled_unspents);
        let max_possible_utxos: u64 = get_spendable_bitcoins(settled_unspents) / UTXO_SIZE;
        let count: u8 = if utxos_to_create as u64 <= max_possible_utxos {
            utxos_to_create
        } else {
            max_possible_utxos as u8
        };
        if count == 0 {
            Err(WalletError::InsufficientFunds)
        } else {
            Ok(SplitPlan { inputs, count })
        }
    }

    /// Broadcast the provided PSBT to create new UTXOs.
    ///
    /// This is the second half of the partial version, requiring [`Online`] data but no private keys.
    /// The provided PSBT, prepared with the [`create_utxos_begin`](Wallet::create_utxos_begin)
    /// function, needs to have already been signed.
    ///
    /// Returns what to broadcast. The inputs are then spent
    /// ([`spend_inputs`](crate::wallet::outputs::spend_inputs)) and the new outputs can have
    /// allocations ([`created_outputs`]).
    pub fn create_utxos_end(&self, online: &Online, signed_psbt: &str) -> (r: Result<
        PsbtContents,
        WalletError,
    >)
        ensures
            signed_psbt_read(r, self.is_online_with(*online), signed_psbt@),
    {
        match self.check_online(online) {
            Err(e) => Err(e),
            Ok(()) => read_signed_psbt(signed_psbt),
        }
    }

    /// Send bitcoin funds to the provided address. See the
    /// [`drain_to_begin`](Wallet::drain_to_begin) function for details.
    ///
    /// This is the full version, requiring a wallet with private keys and [`Online`] data
    pub fn drain_to(
        &self,
        online: &Online,
        address: &str,
        destroy_assets: bool,
        txos: &Vec<DbTxo>,
        colorings: &Vec<DbColoring>,
    ) -> (r: Result<DrainPlan, WalletError>)
        ensures
            (r matches Err(WalletError::WatchOnly)) <==> self.data().mnemonic is None,
            self.data().mnemonic is Some ==> drain_begun(
                r,
                self.is_online_with(*online),
                address@,
                destroy_assets,
                txos@,
                colorings@,
            ),
    {
        match self.check_xprv() {
            Err(e) => Err(e),
            Ok(()) => self.drain_to_begin(online, address, destroy_assets, txos, colorings),
        }
    }

    /// Prepare the PSBT to send bitcoin funds not in use for RGB allocations, or all if
    /// `destroy_assets` is specified, to the provided `address`.
    ///
    /// Warning: setting `destroy_assets` to true is dangerous, only do this if you know what
    /// you're doing!
    ///
    /// Returns the transaction to build
    pub fn drain_to_begin(
        &self,
        online: &Online,
        address: &str,
        destroy_assets: bool,
        txos: &Vec<DbTxo>,
        colorings: &Vec<DbColoring>,
    ) -> (r: Result<DrainPlan, WalletError>)
        ensures
            drain_begun(
                r,
                self.is_online_with(*online),
                address@,
                destroy_assets,
                txos@,
                colorings@,
            ),
    {
        match self.check_online(online) {
            Err(e) => {
                return Err(e);
            },
            Ok(()) => {},
        }
        let script: Vec<u8> = match read_address(address) {
            Err(e) => {
                return Err(WalletError::InvalidAddress(e));
            },
            Ok(script) => script,
        };
        let unspendable: Vec<Outpoint> = if destroy_assets {
            Vec::new()
        } else {
            get_outpoints_in_use(txos, colorings)
        };
        Ok(DrainPlan { script, unspendable })
    }

    /// Broadcast the provided PSBT to send bitcoin funds.
    ///
    /// This is the second half of the partial version, requiring [`Online`] data but no private keys.
    /// The provided PSBT, prepared with the [`drain_to_begin`](Wallet::drain_to_begin) function,
    /// needs to have already been signed.
    ///
    /// Returns what to broadcast, with the txid of the transaction. The inputs are then spent
    /// ([`spend_inputs`](crate::wallet::outputs::spend_inputs)).
    pub fn drain_to_end(&self, online: &Online, signed_psbt: &str) -> (r: Result<
        PsbtContents,
        WalletError,
    >)
        ensures
            signed_psbt_read(r, self.is_online_with(*online), signed_psbt@),
    {
        match self.check_online(online) {
            Err(e) => Err(e),
            Ok(()) => read_signed_psbt(signed_psbt),
        }
    }
}

/// How the first half of creating outputs ends.
pub open spec fn split_begun(
    r: Result<SplitPlan, WalletError>,
    wanted: Option<nat>,
    settled_unspents: Seq<LocalUnspent>,
) -> bool {
    let count = affordable(wanted->0, spendable_bitcoins(settled_unspents));
    &&& (r matches Err(WalletError::AllocationsAlreadyAvailable)) <==> wanted is None
    &&& (r matches Err(WalletError::InsufficientFunds)) <==> wanted is Some && count == 0
    &&& r is Ok <==> wanted is Some && count > 0
    &&& r matches Ok(plan) ==> {
        &&& plan.count == count
        &&& plan.inputs@ == outpoints_of(spendable(settled_unspents))
    }
}

/// How reading a signed PSBT ends.
pub open spec fn signed_psbt_read(
    r: Result<PsbtContents, WalletError>,
    online: bool,
    signed_psbt: Seq<char>,
) -> bool {
    let psbt = psbt_of_text(signed_psbt);
    &&& (r matches Err(WalletError::InvalidOnline)) <==> !online
    &&& (r matches Err(WalletError::InvalidPsbt(_))) <==> online && psbt is None
    &&& r is Ok <==> online && psbt is Some
    &&& r matches Ok(contents) ==> psbt == Some(contents@)
}

/// How the first half of sending bitcoins away ends.
pub open spec fn drain_begun(
    r: Result<DrainPlan, WalletError>,
    online: bool,
    address: Seq<char>,
    destroy_assets: bool,
    txos: Seq<DbTxo>,
    colorings: Seq<DbColoring>,
) -> bool {
    let script = script_of_address(address);
    &&& (r matches Err(WalletError::InvalidOnline)) <==> !online
    &&& (r matches Err(WalletError::InvalidAddress(_))) <==> online && script is None
    &&& r is Ok <==> online && script is Some
    &&& r matches Ok(plan) ==> {
        &&& script == Some(plan.script@)
        &&& destroy_assets ==> plan.unspendable@ == Seq::<Outpoint>::empty()
        &&& !destroy_assets ==> plan.unspendable@ == outpoints_in_use(txos, colorings)
    }
}

} // verus!
