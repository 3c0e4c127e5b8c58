//! Creating outputs and sending bitcoins away.

use vstd::prelude::*;

use crate::chain::{script_of_address, transaction_of_text, PsbtContents};
use crate::database::{DbColoring, DbTxo, LocalUnspent};
use crate::error::WalletError;
use crate::laws::is_among;
use crate::laws::transfers::is_connected;
use crate::seqs::{lemma_filter_members, lemma_filter_picks};
use crate::wallet::funding::{all_stored, created_by, created_outputs, in_use, DrainPlan, SplitPlan};
use crate::wallet::outputs::{
    funds_known, get_available_allocations, get_spendable_bitcoins, lemma_stored_txo, satoshis,
    stored_txo, WalletOutput,
};
use crate::wallet::types::{Online, Outpoint};
use crate::wallet::Wallet;

verus! {

/// Whether a coloring is on an output.
pub open spec fn is_colored(t: DbTxo, colorings: Seq<DbColoring>) -> bool {
    exists|c: int| 0 <= c < colorings.len() && (#[trigger] colorings[c]).txo_idx == t.idx
}

/// Whether an outpoint is that of a stored output that can have allocations or that has a
/// coloring.
pub open spec fn carries_assets(
    o: Outpoint,
    txos: Seq<DbTxo>,
    colorings: Seq<DbColoring>,
) -> bool {
    exists|i: int|
        {
            &&& 0 <= i < txos.len()
            &&& (#[trigger] txos[i]).txid@ == o.txid@
            &&& txos[i].vout == o.vout
            &&& txos[i].colorable || is_colored(txos[i], colorings)
        }
}

/// Without leave to destroy assets, draining spares every stored output that can have
/// allocations and every stored output with a coloring, and no other. With it, none.
pub proof fn draining_spares_assets(
    wallet: Wallet,
    online: Online,
    address: &str,
    destroy_assets: bool,
    txos: Vec<DbTxo>,
    colorings: Vec<DbColoring>,
    r: Result<DrainPlan, WalletError>,
)
    requires
        call_ensures(
            Wallet::drain_to_begin,
            (&wallet, &online, address, destroy_assets, &txos, &colorings),
            r,
        ),
    ensures
        r matches Ok(plan) ==> {
            &&& destroy_assets ==> plan.unspendable@.len() == 0
            &&& !destroy_assets ==> forall|i: int|
                0 <= i < txos@.len() && (#[trigger] txos@[i]).colorable ==> is_among(
                    plan.unspendable@,
                    txos@[i].txid@,
                    txos@[i].vout,
                )
            &&& !destroy_assets ==> forall|i: int|
                0 <= i < txos@.len() && is_colored(#[trigger] txos@[i], colorings@) ==> is_among(
                    plan.unspendable@,
                    txos@[i].txid@,
                    txos@[i].vout,
                )
            &&& forall|k: int|
                0 <= k < plan.unspendable@.len() ==> carries_assets(
                    #[trigger] plan.unspendable@[k],
                    txos@,
                    colorings@,
                )
        },
        r matches Err(e) ==> e is InvalidOnline || e is InvalidAddress,
{
    if r is Ok && !destroy_assets {
        let p = |t: DbTxo| in_use(t, colorings@);
        let kept = txos@.filter(p);
        let spared = r->Ok_0.unspendable@;
        lemma_filter_members(txos@, p);
        assert forall|i: int|
            0 <= i < txos@.len() && ((#[trigger] txos@[i]).colorable || is_colored(
                txos@[i],
                colorings@,
            )) implies is_among(spared, txos@[i].txid@, txos@[i].vout) by {
            assert(kept.contains(txos@[i]));
            let k = choose|k: int| 0 <= k < kept.len() && kept[k] == txos@[i];
            assert(spared[k].txid@ == txos@[i].txid@);
        }
        assert forall|k: int| 0 <= k < spared.len() implies carries_assets(
            #[trigger] spared[k],
            txos@,
            colorings@,
        ) by {
            assert(txos@.contains(kept[k]));
            let i = choose|i: int| 0 <= i < txos@.len() && txos@[i] == kept[k];
            assert(txos@[i].txid@ == spared[k].txid@);
        }
    }
}

/// Draining with the wallet's own keys plans what draining without them does, and needs
/// a mnemonic phrase.
pub proof fn draining_needs_keys(
    wallet: Wallet,
    online: Online,
    address: &str,
    destroy_assets: bool,
    txos: Vec<DbTxo>,
    colorings: Vec<DbColoring>,
    full: Result<DrainPlan, WalletError>,
    half: Result<DrainPlan, WalletError>,
)
    requires
        call_ensures(
            Wallet::drain_to,
            (&wallet, &online, address, destroy_assets, &txos, &colorings),
            full,
        ),
        call_ensures(
            Wallet::drain_to_begin,
            (&wallet, &online, address, destroy_assets, &txos, &colorings),
            half,
        ),
    ensures
        wallet.data().mnemonic is None <==> (full matches Err(WalletError::WatchOnly)),
        wallet.data().mnemonic is Some ==> (full is Ok <==> half is Ok),
        full matches Ok(a) ==> (half matches Ok(b) && a.script@ == b.script@ && a.unspendable@
            == b.unspendable@),
        wallet.data().mnemonic is Some ==> {
            &&& (half matches Err(WalletError::InvalidOnline)) ==> (full matches Err(
                WalletError::InvalidOnline,
            ))
            &&& (half matches Err(WalletError::InvalidAddress(_))) ==> (full matches Err(
                WalletError::InvalidAddress(_),
            ))
        },
{
}

/// The satoshis that may be spent freely are those of the outputs that are not made for
/// allocations: an output adds its satoshis where it is not, and nothing where it is.
pub proof fn spendable_bitcoins_add_up(
    unspents: Vec<LocalUnspent>,
    longer: Vec<LocalUnspent>,
    u: LocalUnspent,
    before: u64,
    after: u64,
)
    requires
        funds_known(unspents@),
        funds_known(longer@),
        longer@ == unspents@.push(u),
        call_ensures(get_spendable_bitcoins, (&unspents,), before),
        call_ensures(get_spendable_bitcoins, (&longer,), after),
    ensures
        unspents@.len() == 0 ==> before == 0,
        u.utxo.colorable ==> after == before,
        !u.utxo.colorable ==> (crate::text::parsed_u64(u.utxo.btc_amount@) matches Some(n)
            && after == before + n),
{
    let p = |u: LocalUnspent| !u.utxo.colorable;
    unspents@.lemma_filter_push(u, p);
    let a = satoshis(unspents@.filter(p));
    let b = satoshis(longer@.filter(p));
    if !u.utxo.colorable {
        assert(longer@[unspents@.len() as int] == u);
        assert(b.drop_last() =~= a);
    }
    if unspents@.len() == 0 {
        assert(unspents@.filter(p).len() == 0) by {
            lemma_filter_members(unspents@, p);
        }
        assert(a.len() == 0);
    }
}

/// Outputs are created as asked: as many as requested or, up to that number, as many as
/// are missing, each of a thousand satoshis, and fewer only where the bitcoins do not
/// suffice. They are paid for by the outputs that are not made for allocations.
pub proof fn outputs_are_created_as_asked<'a>(
    wallet: Wallet,
    online: Online,
    up_to: bool,
    num: Option<u8>,
    unspents: Vec<LocalUnspent>,
    settled_unspents: Vec<LocalUnspent>,
    nothing: Vec<Outpoint>,
    offered: Vec<&'a LocalUnspent>,
    bitcoins: u64,
    r: Result<SplitPlan, WalletError>,
)
    requires
        nothing@.len() == 0,
        funds_known(settled_unspents@),
        call_ensures(get_available_allocations, (&unspents, &nothing), offered),
        call_ensures(get_spendable_bitcoins, (&settled_unspents,), bitcoins),
        call_ensures(
            Wallet::create_utxos_begin,
            (&wallet, &online, up_to, num, &unspents, &settled_unspents),
            r,
        ),
    ensures
        ({
            let asked: int = if num is Some {
                num->0 as int
            } else {
                5
            };
            let there: int = if up_to {
                offered@.len() as int
            } else {
                0
            };
            &&& (r matches Err(WalletError::AllocationsAlreadyAvailable)) <==> up_to && there
                >= asked
            &&& (r matches Err(WalletError::InsufficientFunds)) <==> !(up_to && there >= asked) && (
            asked == 0 || bitcoins < 1000)
            &&& r is Err ==> (r matches Err(WalletError::AllocationsAlreadyAvailable)) || (
            r matches Err(WalletError::InsufficientFunds))
            &&& r matches Ok(plan) ==> {
                &&& plan.count >= 1
                &&& there + plan.count <= asked
                &&& plan.count * 1000 <= bitcoins
                &&& there + plan.count == asked || (plan.count + 1) * 1000 > bitcoins
                &&& forall|i: int|
                    0 <= i < settled_unspents@.len() && !(
                    #[trigger] settled_unspents@[i]).utxo.colorable ==> is_among(
                        plan.inputs@,
                        settled_unspents@[i].utxo.txid@,
                        settled_unspents@[i].utxo.vout,
                    )
                &&& forall|k: int|
                    0 <= k < plan.inputs@.len() ==> pays_freely(
                        #[trigger] plan.inputs@[k],
                        settled_unspents@,
                    )
            }
        }),
{
    assert(nothing@ =~= Seq::empty());
    if r is Ok {
        let p = |u: LocalUnspent| !u.utxo.colorable;
        let kept = settled_unspents@.filter(p);
        let inputs = r->Ok_0.inputs@;
        lemma_filter_members(settled_unspents@, p);
        assert forall|i: int|
            0 <= i < settled_unspents@.len() && !(
            #[trigger] settled_unspents@[i]).utxo.colorable implies is_among(
            inputs,
            settled_unspents@[i].utxo.txid@,
            settled_unspents@[i].utxo.vout,
        ) by {
            assert(kept.contains(settled_unspents@[i]));
            let k = choose|k: int| 0 <= k < kept.len() && kept[k] == settled_unspents@[i];
            assert(inputs[k].txid@ == settled_unspents@[i].utxo.txid@);
        }
        assert forall|k: int| 0 <= k < inputs.len() implies pays_freely(
            #[trigger] inputs[k],
            settled_unspents@,
        ) by {
            assert(settled_unspents@.contains(kept[k]));
            let i = choose|i: int|
                0 <= i < settled_unspents@.len() && settled_unspents@[i] == kept[k];
            assert(settled_unspents@[i].utxo.txid@ == inputs[k].txid@);
        }
    }
}

/// Whether an outpoint is that of an output that is not made for allocations.
pub open spec fn pays_freely(o: Outpoint, unspents: Seq<LocalUnspent>) -> bool {
    exists|i: int|
        {
            &&& 0 <= i < unspents.len()
            &&& (#[trigger] unspents[i]).utxo.txid@ == o.txid@
            &&& unspents[i].utxo.vout == o.vout
            &&& !unspents[i].utxo.colorable
        }
}

/// Creating outputs with the wallet's own keys plans what doing so without them does, and
/// needs a mnemonic phrase and the data of the connection.
pub proof fn creating_needs_keys(
    wallet: Wallet,
    online: Online,
    up_to: bool,
    num: Option<u8>,
    unspents: Vec<LocalUnspent>,
    settled_unspents: Vec<LocalUnspent>,
    full: Result<SplitPlan, WalletError>,
    half: Result<SplitPlan, WalletError>,
)
    requires
        call_ensures(
            Wallet::create_utxos,
            (&wallet, &online, up_to, num, &unspents, &settled_unspents),
            full,
        ),
        call_ensures(
            Wallet::create_utxos_begin,
            (&wallet, &online, up_to, num, &unspents, &settled_unspents),
            half,
        ),
    ensures
        wallet.data().mnemonic is None <==> (full matches Err(WalletError::WatchOnly)),
        full matches Ok(a) ==> (half matches Ok(b) && a.count == b.count && a.inputs@
            == b.inputs@),
        wallet.data().mnemonic is Some && !is_connected(wallet, online) ==> (full matches Err(
            WalletError::InvalidOnline,
        )),
        wallet.data().mnemonic is Some && is_connected(wallet, online) ==> {
            &&& half is Ok ==> full is Ok
            &&& (half matches Err(WalletError::InsufficientFunds)) ==> (full matches Err(
                WalletError::InsufficientFunds,
            ))
            &&& (half matches Err(WalletError::AllocationsAlreadyAvailable)) ==> (full matches Err(
                WalletError::AllocationsAlreadyAvailable,
            ))
        },
{
}

/// After a failed attempt one output less is tried, from the same inputs, and an attempt
/// with a single output is the last.
pub proof fn one_output_less_is_tried(plan: SplitPlan, r: Result<SplitPlan, WalletError>)
    requires
        call_ensures(SplitPlan::one_less, (plan,), r),
    ensures
        plan.count >= 2 ==> (r matches Ok(next) && next.count + 1 == plan.count && next.inputs@
            == plan.inputs@),
        plan.count <= 1 ==> (r matches Err(WalletError::InsufficientFunds)),
{
}

/// Whether an output of the bitcoin wallet was created by a transaction, on the external
/// keychain.
pub open spec fn is_new(u: WalletOutput, txid: Seq<char>) -> bool {
    u.outpoint.txid@ == txid && u.external
}

/// Whether a row is that of an outpoint, and can have allocations.
pub open spec fn is_colorable_row(t: DbTxo, o: Outpoint) -> bool {
    t.txid@ == o.txid@ && t.vout == o.vout && t.colorable
}

/// Every output that a transaction created on the external keychain can have allocations
/// from then on, and no other row changes. A row changes in nothing else.
pub proof fn created_outputs_can_have_allocations(
    txid: String,
    utxos: Vec<WalletOutput>,
    txos: Vec<DbTxo>,
    r: (Vec<DbTxo>, u8),
)
    requires
        call_ensures(created_outputs, (&txid, &utxos, &txos), r),
        forall|i: int|
            0 <= i < utxos@.len() ==> exists|j: int|
                0 <= j < txos@.len() && (#[trigger] txos@[j]).txid@ == (
                #[trigger] utxos@[i]).outpoint.txid@ && txos@[j].vout == utxos@[i].outpoint.vout,
    ensures
        r.1 == r.0@.len(),
        forall|i: int|
            0 <= i < utxos@.len() && is_new(#[trigger] utxos@[i], txid@) ==> exists|k: int|
                0 <= k < r.0@.len() && is_colorable_row(
                    #[trigger] r.0@[k],
                    utxos@[i].outpoint,
                ),
        forall|k: int|
            0 <= k < r.0@.len() ==> (#[trigger] r.0@[k]).colorable && r.0@[k].txid@ == txid@
                && exists|j: int|
                {
                    &&& 0 <= j < txos@.len()
                    &&& #[trigger] txos@[j] == (DbTxo {
                        colorable: txos@[j].colorable,
                        ..r.0@[k]
                    })
                },
{
    let p = |u: WalletOutput| created_by(txid@, u);
    let made = utxos@.filter(p);
    lemma_filter_members(utxos@, p);
    assert forall|i: int| 0 <= i < utxos@.len() implies is_stored_row(
        txos@,
        (#[trigger] utxos@[i]).outpoint,
    ) by {
        lemma_stored_row(txos@, utxos@[i].outpoint);
    }
    assert forall|i: int|
        0 <= i < utxos@.len() && is_new(#[trigger] utxos@[i], txid@) implies exists|k: int|
        0 <= k < r.0@.len() && is_colorable_row(#[trigger] r.0@[k], utxos@[i].outpoint) by {
        assert(made.contains(utxos@[i]));
        let k = choose|k: int| 0 <= k < made.len() && made[k] == utxos@[i];
        assert(is_stored_row(txos@, utxos@[i].outpoint));
        assert(is_colorable_row(r.0@[k], utxos@[i].outpoint));
    }
    assert forall|k: int| 0 <= k < r.0@.len() implies (#[trigger] r.0@[k]).colorable
        && r.0@[k].txid@ == txid@ && exists|j: int|
        {
            &&& 0 <= j < txos@.len()
            &&& #[trigger] txos@[j] == (DbTxo { colorable: txos@[j].colorable, ..r.0@[k] })
        } by {
        assert(utxos@.contains(made[k]));
        let i = choose|i: int| 0 <= i < utxos@.len() && utxos@[i] == made[k];
        assert(is_stored_row(txos@, utxos@[i].outpoint));
        let row = stored_txo(txos@, made[k].outpoint@)->0;
        let j = choose|j: int| 0 <= j < txos@.len() && txos@[j] == row;
        assert(txos@[j] == (DbTxo { colorable: txos@[j].colorable, ..r.0@[k] }));
    }
}

spec fn is_stored_row(txos: Seq<DbTxo>, o: Outpoint) -> bool {
    stored_txo(txos, o@) matches Some(t) && txos.contains(t) && t.txid@ == o.txid@ && t.vout
        == o.vout
}

proof fn lemma_stored_row(txos: Seq<DbTxo>, o: Outpoint)
    requires
        exists|j: int|
            0 <= j < txos.len() && (#[trigger] txos[j]).txid@ == o.txid@ && txos[j].vout == o.vout,
    ensures
        is_stored_row(txos, o),
{
    lemma_stored_txo(txos, o@);
    let j = choose|j: int|
        0 <= j < txos.len() && (#[trigger] txos[j]).txid@ == o.txid@ && txos[j].vout == o.vout;
    assert(txos[j].outpoint_spec()@ == o@);
}

/// Whether a row is the stored one of an outpoint, which can have allocations from now on.
pub open spec fn is_row_of(row: DbTxo, o: Outpoint, txos: Seq<DbTxo>) -> bool {
    &&& is_colorable_row(row, o)
    &&& exists|j: int|
        {
            &&& 0 <= j < txos.len()
            &&& (#[trigger] txos[j]).idx == row.idx
            &&& txos[j].txid == row.txid
            &&& txos[j].vout == row.vout
            &&& txos[j].btc_amount == row.btc_amount
            &&& txos[j].spent == row.spent
        }
}

/// There is one row for each output that a transaction created on the external keychain,
/// in their order, and their number is told.
pub proof fn created_outputs_are_counted(
    txid: String,
    utxos: Vec<WalletOutput>,
    txos: Vec<DbTxo>,
    r: (Vec<DbTxo>, u8),
) -> (at: Seq<int>)
    requires
        all_stored(txos@, utxos@),
        call_ensures(created_outputs, (&txid, &utxos, &txos), r),
    ensures
        r.1 == at.len(),
        r.0@.len() == at.len(),
        forall|k: int|
            0 <= k < at.len() ==> 0 <= #[trigger] at[k] < utxos@.len() && is_row_of(
                r.0@[k],
                utxos@[at[k]].outpoint,
                txos@,
            ),
        forall|k: int, l: int| 0 <= k < l < at.len() ==> #[trigger] at[k] < #[trigger] at[l],
        forall|i: int|
            0 <= i < utxos@.len() ==> (at.contains(i) <==> is_new(#[trigger] utxos@[i], txid@)),
{
    let p = |u: WalletOutput| created_by(txid@, u);
    let at = lemma_filter_picks(utxos@, p);
    assert forall|k: int| 0 <= k < at.len() implies 0 <= #[trigger] at[k] < utxos@.len()
        && is_row_of(r.0@[k], utxos@[at[k]].outpoint, txos@) by {
        let u = utxos@[at[k]];
        lemma_stored_txo(txos@, u.outpoint@);
        assert(stored_txo(txos@, u.outpoint@) is Some);
        let row = stored_txo(txos@, u.outpoint@)->0;
        let j = choose|j: int| 0 <= j < txos@.len() && #[trigger] txos@[j] == row;
        assert(row.outpoint_spec()@ == u.outpoint@);
        assert(row.outpoint_spec()@.0 == u.outpoint.txid@);
        assert(r.0@[k].idx == txos@[j].idx);
    }
    assert forall|i: int| 0 <= i < utxos@.len() implies (at.contains(i) <==> is_new(
        #[trigger] utxos@[i],
        txid@,
    )) by {
        if at.contains(i) {
            let k = choose|k: int| 0 <= k < at.len() && at[k] == i;
            assert(p(utxos@[at[k]]));
        }
        if is_new(utxos@[i], txid@) {
            assert(p(utxos@[i]));
        }
    }
    at
}

/// Bitcoins are sent to the script of the address. That needs a wallet that is online and
/// an address that stands for a script.
pub proof fn bitcoins_go_to_the_address(
    wallet: Wallet,
    online: Online,
    address: &str,
    destroy_assets: bool,
    txos: Vec<DbTxo>,
    colorings: Vec<DbColoring>,
    r: Result<DrainPlan, WalletError>,
)
    requires
        call_ensures(
            Wallet::drain_to_begin,
            (&wallet, &online, address, destroy_assets, &txos, &colorings),
            r,
        ),
    ensures
        !is_connected(wallet, online) ==> (r matches Err(WalletError::InvalidOnline)),
        is_connected(wallet, online) ==> match script_of_address(address@) {
            None => r matches Err(WalletError::InvalidAddress(_)),
            Some(script) => r matches Ok(plan) && plan.script@ == script,
        },
{
}

/// A signed PSBT that creates outputs or sends bitcoins away is read only where the wallet
/// is online, and what it holds is what is broadcast.
pub proof fn signed_psbts_are_read_online(
    wallet: Wallet,
    online: Online,
    signed_psbt: &str,
    created: Result<PsbtContents, WalletError>,
    drained: Result<PsbtContents, WalletError>,
)
    requires
        call_ensures(Wallet::create_utxos_end, (&wallet, &online, signed_psbt), created),
        call_ensures(Wallet::drain_to_end, (&wallet, &online, signed_psbt), drained),
    ensures
        !is_connected(wallet, online) ==> (created matches Err(WalletError::InvalidOnline)) && (
        drained matches Err(WalletError::InvalidOnline)),
        is_connected(wallet, online) ==> match transaction_of_text(signed_psbt@) {
            None => (created matches Err(WalletError::InvalidPsbt(_))) && (drained matches Err(
                WalletError::InvalidPsbt(_),
            )),
            Some(tx) => {
                &&& created matches Ok(psbt) && psbt.text@ == signed_psbt@ && psbt.txid@ == tx.0
                    && psbt.output_values@ == tx.2 && psbt.inputs@.len() == tx.1.len()
                &&& drained matches Ok(psbt) && psbt.text@ == signed_psbt@ && psbt.txid@ == tx.0
                    && psbt.output_values@ == tx.2 && psbt.inputs@.len() == tx.1.len()
            },
        },
{
    if is_connected(wallet, online) && transaction_of_text(signed_psbt@) is Some {
        let tx = transaction_of_text(signed_psbt@)->0;
        let a = created->Ok_0;
        let b = drained->Ok_0;
        assert(a@.2 == tx.1 && b@.2 == tx.1);
        assert(a@.2.len() == a.inputs@.len() && b@.2.len() == b.inputs@.len());
    }
}

/// Whether an outpoint is that of a stored output.
pub open spec fn is_outpoint_of(o: Outpoint, t: DbTxo) -> bool {
    o.txid@ == t.txid@ && o.vout == t.vout
}

/// The outputs that draining spares, and those that pay for new ones, come in their order
/// and each of them once.
pub proof fn outpoints_come_in_order(
    wallet: Wallet,
    online: Online,
    address: &str,
    txos: Vec<DbTxo>,
    colorings: Vec<DbColoring>,
    drain: DrainPlan,
    up_to: bool,
    num: Option<u8>,
    unspents: Vec<LocalUnspent>,
    settled_unspents: Vec<LocalUnspent>,
    split: SplitPlan,
) -> (at: (Seq<int>, Seq<int>))
    requires
        call_ensures(
            Wallet::drain_to_begin,
            (&wallet, &online, address, false, &txos, &colorings),
            Ok::<DrainPlan, WalletError>(drain),
        ),
        call_ensures(
            Wallet::create_utxos_begin,
            (&wallet, &online, up_to, num, &unspents, &settled_unspents),
            Ok::<SplitPlan, WalletError>(split),
        ),
    ensures
        drain.unspendable@.len() == at.0.len(),
        forall|k: int|
            0 <= k < at.0.len() ==> 0 <= #[trigger] at.0[k] < txos@.len() && is_outpoint_of(
                drain.unspendable@[k],
                txos@[at.0[k]],
            ),
        forall|k: int, l: int|
            0 <= k < l < at.0.len() ==> #[trigger] at.0[k] < #[trigger] at.0[l],
        split.inputs@.len() == at.1.len(),
        forall|k: int|
            0 <= k < at.1.len() ==> 0 <= #[trigger] at.1[k] < settled_unspents@.len()
                && is_outpoint_of(split.inputs@[k], settled_unspents@[at.1[k]].utxo),
        forall|k: int, l: int|
            0 <= k < l < at.1.len() ==> #[trigger] at.1[k] < #[trigger] at.1[l],
{
    let p = |t: DbTxo| in_use(t, colorings@);
    let q = |u: LocalUnspent| !u.utxo.colorable;
    let a = lemma_filter_picks(txos@, p);
    let b = lemma_filter_picks(settled_unspents@, q);
    assert forall|k: int| 0 <= k < a.len() implies 0 <= #[trigger] a[k] < txos@.len()
        && is_outpoint_of(drain.unspendable@[k], txos@[a[k]]) by {
        assert(drain.unspendable@[k] == txos@.filter(p)[k].outpoint_spec());
    }
    assert forall|k: int| 0 <= k < b.len() implies 0 <= #[trigger] b[k] < settled_unspents@.len()
        && is_outpoint_of(split.inputs@[k], settled_unspents@[b[k]].utxo) by {
        assert(split.inputs@[k] == settled_unspents@.filter(q)[k].utxo.outpoint_spec());
    }
    (a, b)
}

} // verus!
