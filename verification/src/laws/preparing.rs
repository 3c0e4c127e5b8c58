//! Preparing a PSBT.

use vstd::prelude::*;

use crate::chain::{canonical, canonical_views, ordered_outputs, sort_outpoints};
use crate::database::records::Records;
use crate::database::{DbTxo, LocalUnspent};
use crate::error::{InternalError, WalletError};
use crate::laws::chain::{is_id, lemma_ids};
use crate::laws::composing::{
    are_ids, are_payments, can_be_added, can_be_written, can_get, is_consumed_by, lemma_all_payable,
    lemma_can_be_put, lemma_embedded, lemma_payments,
};
use crate::laws::moving::{
    are_movable, are_moved, are_owned, lemma_are_moved, leaves_in_all, lemma_leaves, lemma_movable,
};
use crate::laws::outputs::has_room;
use crate::rgb_data::{
    all_alone, all_coins, asset_coins, blinding_sum, can_balance, coin_amounts, coins_on,
    consumed_rights, contract_set, is_contract_id, is_rgb20, payment_amounts, psbt_inputs,
    psbt_with_contract, seal_of_text, states_on, transfer_assignments, transition_pushed,
    value_assignments, CoinView, RIGHT_ASSETS,
};
use crate::scalars::{group_order, is_scalar, number_of, scalar_of};
use crate::seqs::{lemma_filter_picks, lemma_first_index, sum};
use crate::wallet::compose::{
    can_move, coins_spendable, commit_transitions, composable, compose_transfer, get_beneficiaries,
    has_work, input_coins, inputs_worth, is_work, of_asset, psbt_with_transfer, seals_of,
    states_moved, transfer_composed, transfers_asset, transition_refused, BlankWork,
    ComposedTransfer, ContractState,
};
use crate::wallet::outputs::{allocatable, get_spendable_bitcoins};
use crate::wallet::prepare::{all_states_moved, of_work, works_done, Preparation};
use crate::wallet::send::{InfoAssetTransfer, InfoBatchTransfer};
use crate::wallet::types::{outpoint_text, Outpoint};

verus! {

/// What payments make together.
pub open spec fn paid_in_all(payments: Seq<(String, u64)>) -> int
    decreases payments.len(),
{
    if payments.len() == 0 {
        0
    } else {
        paid_in_all(payments.drop_last()) + payments.last().1
    }
}

/// What coins are worth.
pub open spec fn worth(coins: Seq<CoinView>) -> int
    decreases coins.len(),
{
    if coins.len() == 0 {
        0
    } else {
        worth(coins.drop_last()) + coins.last().0
    }
}

/// The coins that a consignment knows on inputs, one after the other.
pub open spec fn coins_of(consignment: Seq<u8>, inputs: Seq<Outpoint>) -> Seq<CoinView>
    decreases inputs.len(),
{
    if inputs.len() == 0 {
        Seq::empty()
    } else {
        coins_of(consignment, inputs.drop_last()) + coins_on(
            consignment,
            canonical((inputs.last().txid@, inputs.last().vout)),
        )
    }
}

/// Whether there is a coin on each input.
pub open spec fn all_hold_coins(consignment: Seq<u8>, inputs: Seq<Outpoint>) -> bool {
    forall|i: int|
        0 <= i < inputs.len() ==> coins_on(
            consignment,
            canonical(((#[trigger] inputs[i]).txid@, inputs[i].vout)),
        ).len() > 0
}

/// Whether coins can be spent by one transition, of which only the change may be left.
pub open spec fn are_spendable(coins: Seq<CoinView>, only_change: bool) -> bool {
    &&& worth(coins) <= u64::MAX
    &&& coins.len() <= 65535
    &&& forall|i: int| 0 <= i < coins.len() ==> is_blinding_factor((#[trigger] coins[i]).1)
    &&& only_change && coins.len() > 0 ==> factors_of(coins) % order() != 0
}

/// The number that bytes stand for, the first of which counts most.
pub open spec fn value_of(bytes: Seq<u8>) -> int
    decreases bytes.len(),
{
    if bytes.len() == 0 {
        0
    } else {
        256 * value_of(bytes.drop_last()) + bytes.last()
    }
}

/// The order of the secp256k1 group.
pub open spec fn order() -> int {
    115792089237316195423570985008687907852837564279074904382605163141518161494337int
}

/// Whether bytes are a blinding factor: 32 of them, for a number below the order of the
/// group.
pub open spec fn is_blinding_factor(bytes: Seq<u8>) -> bool {
    bytes.len() == 32 && value_of(bytes) < order()
}

/// The sum of the blinding factors of coins.
pub open spec fn factors_of(coins: Seq<CoinView>) -> int
    decreases coins.len(),
{
    if coins.len() == 0 {
        0
    } else {
        factors_of(coins.drop_last()) + value_of(coins.last().1)
    }
}

spec fn shift(n: nat) -> int
    decreases n,
{
    if n == 0 {
        1
    } else {
        256 * shift((n - 1) as nat)
    }
}

proof fn lemma_value(a: Seq<u8>, b: Seq<u8>)
    ensures
        value_of(a + b) == value_of(a) * shift(b.len()) + number_of(b),
        value_of(b) == number_of(b),
    decreases b.len(),
{
    if b.len() == 0 {
        assert(a + b =~= a);
    } else {
        let head = b.drop_last();
        lemma_value(a, head);
        assert((a + b).drop_last() =~= a + head);
        assert((a + b).last() == b.last());
        let x = value_of(a);
        let p = shift(head.len());
        assert(256 * (x * p) == x * (256 * p)) by (nonlinear_arith);
    }
}

proof fn lemma_factor(bytes: Seq<u8>)
    requires
        bytes.len() == 32,
    ensures
        value_of(bytes) == scalar_of(bytes),
        group_order() == order(),
{
    let a = bytes.subrange(0, 16);
    let b = bytes.subrange(16, 32);
    assert(a + b =~= bytes);
    lemma_value(a, b);
    lemma_value(Seq::empty(), a);
    assert(Seq::<u8>::empty() + a =~= a);
    reveal_with_fuel(shift, 17);
    assert(shift(16) == 0x1_0000_0000_0000_0000_0000_0000_0000_0000);
}

proof fn lemma_order()
    ensures
        group_order() == order(),
{
    lemma_factor(Seq::new(32, |i: int| 0u8));
}

proof fn lemma_factors(coins: Seq<CoinView>)
    requires
        forall|i: int| 0 <= i < coins.len() ==> (#[trigger] coins[i]).1.len() == 32,
    ensures
        factors_of(coins) == blinding_sum(coins),
    decreases coins.len(),
{
    if coins.len() > 0 {
        let head = coins.drop_last();
        assert forall|i: int| 0 <= i < head.len() implies (#[trigger] head[i]).1.len() == 32 by {
            assert(head[i] == coins[i]);
        }
        lemma_factors(head);
        let n = coins.len() - 1;
        assert(coins[n].1.len() == 32);
        lemma_factor(coins.last().1);
    }
}

proof fn lemma_spendable(coins: Seq<CoinView>, only_change: bool)
    ensures
        are_spendable(coins, only_change) <==> worth(coins) <= u64::MAX && coins.len() <= u16::MAX
            && can_balance(coins, only_change),
{
    lemma_order();
    assert forall|i: int| 0 <= i < coins.len() implies is_blinding_factor(
        (#[trigger] coins[i]).1,
    ) == is_scalar(coins[i].1) by {
        if coins[i].1.len() == 32 {
            lemma_factor(coins[i].1);
        }
    }
    if can_balance(coins, only_change) {
        assert forall|i: int| 0 <= i < coins.len() implies is_blinding_factor(
            (#[trigger] coins[i]).1,
        ) by {
            assert(is_scalar(coins[i].1));
        }
        lemma_factors(coins);
    }
    if are_spendable(coins, only_change) {
        assert forall|i: int| 0 <= i < coins.len() implies is_scalar((#[trigger] coins[i]).1) by {
            assert(is_blinding_factor(coins[i].1));
        }
        lemma_factors(coins);
    }
}

proof fn lemma_worth(coins: Seq<CoinView>)
    ensures
        worth(coins) == sum(coin_amounts(coins)),
    decreases coins.len(),
{
    if coins.len() > 0 {
        lemma_worth(coins.drop_last());
        assert(coin_amounts(coins).drop_last() =~= coin_amounts(coins.drop_last()));
    }
}

proof fn lemma_paid(payments: Seq<(String, u64)>)
    ensures
        paid_in_all(payments) == sum(payment_amounts(payments)),
    decreases payments.len(),
{
    if payments.len() > 0 {
        lemma_paid(payments.drop_last());
        assert(payment_amounts(payments).drop_last() =~= payment_amounts(payments.drop_last()));
    }
}

proof fn lemma_coins(consignment: Seq<u8>, inputs: Seq<Outpoint>)
    ensures
        coins_of(consignment, inputs) == all_coins(
            asset_coins(consignment, canonical_views(inputs)),
        ),
        all_hold_coins(consignment, inputs) <==> forall|i: int|
            0 <= i < inputs.len() ==> (#[trigger] asset_coins(
                consignment,
                canonical_views(inputs),
            )[i]).len() > 0,
    decreases inputs.len(),
{
    let groups = asset_coins(consignment, canonical_views(inputs));
    if inputs.len() > 0 {
        let head = inputs.drop_last();
        lemma_coins(consignment, head);
        assert(groups.drop_last() =~= asset_coins(consignment, canonical_views(head)));
        assert(inputs.last()@ == (inputs.last().txid@, inputs.last().vout));
        assert(groups.last() == coins_on(consignment, canonical(inputs.last()@)));
    }
    assert forall|i: int| 0 <= i < inputs.len() implies #[trigger] groups[i] == coins_on(
        consignment,
        canonical((inputs[i].txid@, inputs[i].vout)),
    ) by {
        assert(inputs[i]@ == (inputs[i].txid@, inputs[i].vout));
    }
    if all_hold_coins(consignment, inputs) {
        assert forall|i: int| 0 <= i < inputs.len() implies (#[trigger] groups[i]).len() > 0 by {
            assert(coins_on(
                consignment,
                canonical((inputs[i].txid@, inputs[i].vout)),
            ).len() > 0);
        }
    }
    if forall|i: int| 0 <= i < inputs.len() ==> (#[trigger] groups[i]).len() > 0 {
        assert forall|i: int| 0 <= i < inputs.len() implies coins_on(
            consignment,
            canonical(((#[trigger] inputs[i]).txid@, inputs[i].vout)),
        ).len() > 0 by {
            assert(groups[i].len() > 0);
        }
    }
}

/// Whether a transition assigns the change to an outpoint and the payments to their seals,
/// and nothing else.
pub open spec fn assigns(
    transition: Seq<u8>,
    payments: Seq<(String, u64)>,
    change: DbTxo,
    change_amount: u64,
) -> bool {
    &&& value_assignments(transition) matches Some(list)
    &&& list.len() == payments.len() + 1
    &&& list[0].0 is None
    &&& list[0].1 == Some(outpoint_text(canonical((change.txid@, change.vout))))
    &&& list[0].2 == Some(change_amount)
    &&& forall|i: int|
        0 <= i < payments.len() ==> {
            &&& list[i + 1].0 == Some((#[trigger] payments[i]).0@)
            &&& list[i + 1].1 is None
            &&& list[i + 1].2 == Some(payments[i].1)
        }
}

/// Whether a transition consumes the rights to coins, which are of the right to own an
/// asset.
pub open spec fn consumes_coins(transition: Seq<u8>, coins: Seq<CoinView>) -> bool {
    consumed_rights(transition) == Some(
        Seq::new(
            coins.len(),
            |i: int| (coins[i].2.0, 0xA1u16, coins[i].2.1),
        ).to_multiset(),
    )
}

/// Whether a PSBT and seals come from another PSBT by a transition: the contract is set,
/// the transition is added, and is the consumer of the inputs that pay. The seals are those
/// of the payments.
pub open spec fn is_composed(
    before: Seq<u8>,
    contract: Seq<u8>,
    asset_id: Seq<char>,
    paying: Seq<Outpoint>,
    transition: Seq<u8>,
    psbts: Seq<Seq<u8>>,
) -> bool {
    &&& can_be_written(before)
    &&& contract_set(before, contract) matches Some(start)
    &&& can_be_added(start, transition)
    &&& psbts.len() > 0
    &&& transition_pushed(start, transition) == Some(psbts[0])
    &&& psbt_inputs(psbts[0]) matches Some(inputs)
    &&& are_ids(inputs) ==> is_consumed_by(psbts, inputs, paying, asset_id, transition)
}

/// Whether seals are those of payments, in their order.
pub open spec fn are_seals_of(seals: Seq<String>, payments: Seq<(String, u64)>) -> bool {
    seals.len() == payments.len() && forall|i: int|
        0 <= i < seals.len() ==> (#[trigger] seals[i])@ == payments[i].0@
}

/// Whether an asset is transferred by a transition: it pays all recipients and puts the
/// change on its output, and consumes the coins on the inputs.
pub open spec fn is_transferred(
    after: Seq<u8>,
    endseals: Seq<String>,
    psbt: Seq<u8>,
    contract: Seq<u8>,
    asset_id: Seq<char>,
    info: InfoAssetTransfer,
    coins: Seq<CoinView>,
    change: DbTxo,
    transition: Seq<u8>,
) -> bool {
    exists|payments: Seq<(String, u64)>, psbts: Seq<Seq<u8>>|
        {
            &&& #[trigger] are_payments(payments, info.recipients@)
            &&& worth(coins) == paid_in_all(payments) + info.asset_spend.change_amount
            &&& assigns(transition, payments, change, info.asset_spend.change_amount)
            &&& are_seals_of(endseals, payments)
            &&& #[trigger] is_composed(
                psbt,
                contract,
                asset_id,
                info.asset_spend.input_outpoints@,
                transition,
                psbts,
            )
            &&& after == psbts.last()
        }
}

/// The transfer of an asset pays all its recipients from the coins on its inputs, each of
/// them once, and these coins are worth what is paid and the change. It fails where the
/// contract cannot be set, where a recipient cannot be paid, and where the coins are not
/// worth that or cannot be spent.
pub proof fn transfers_pay_from_the_coins_on_their_inputs(
    psbt: Vec<u8>,
    contract: Vec<u8>,
    consignment: Vec<u8>,
    asset_id: String,
    info: InfoAssetTransfer,
    records: Records,
    change: DbTxo,
    inputs: Vec<Outpoint>,
    r: Result<ComposedTransfer, WalletError>,
)
    requires
        forall|i: int|
            0 <= i < info.asset_spend.input_outpoints@.len() ==> is_id(
                (#[trigger] info.asset_spend.input_outpoints@[i]).txid@,
            ),
        call_ensures(sort_outpoints, (&info.asset_spend.input_outpoints,), inputs),
        call_ensures(
            compose_transfer,
            (&psbt, &contract, &consignment, &asset_id, &info, &records, &change),
            r,
        ),
    ensures
        ({
            let coins = coins_of(consignment@, inputs@);
            let set = can_be_written(psbt@) && contract_set(psbt@, contract@) is Some;
            let payable = forall|i: int|
                0 <= i < info.recipients@.len() ==> can_get(
                    records,
                    #[trigger] info.recipients@[i],
                );
            let spendable = is_rgb20(consignment@) && all_hold_coins(consignment@, inputs@)
                && are_spendable(coins, info.recipients@.len() == 0);
            &&& !set ==> (r matches Err(WalletError::Internal(InternalError::RgbData)))
            &&& set && !payable ==> (r matches Err(e) && (e is BlindedUTXOAlreadyUsed
                || e is InvalidBlindedUTXO))
            &&& set && payable && !spendable ==> (r matches Err(
                WalletError::Internal(InternalError::InvalidConsignment),
            ))
            &&& r matches Ok(done) ==> exists|transition: Seq<u8>|
                #[trigger] consumes_coins(transition, coins) && is_transferred(
                    done.psbt@,
                    done.endseals@,
                    psbt@,
                    contract@,
                    asset_id@,
                    info,
                    coins,
                    change,
                    transition,
                )
        }),
{
    let coins = coins_of(consignment@, inputs@);
    let groups = asset_coins(consignment@, canonical_views(inputs@));
    lemma_coins(consignment@, inputs@);
    lemma_worth(coins);
    lemma_all_payable(records, info.recipients@);
    assert(canonical_views(inputs@) == ordered_outputs(info.asset_spend.input_outpoints@));
    assert(groups.len() == inputs@.len());
    lemma_spendable(coins, info.recipients@.len() == 0);
    assert(are_spendable(coins, info.recipients@.len() == 0) <==> coins_spendable(
        groups,
        info.recipients@.len() == 0,
    ));
    if r is Ok {
        assert forall|i: int| 0 <= i < info.recipients@.len() implies seal_of_text(
            (#[trigger] info.recipients@[i]).blinded_utxo@,
        ) is Some by {
            assert(can_get(records, info.recipients@[i]));
        }
        lemma_transferred(
            psbt@,
            contract@,
            consignment@,
            asset_id@,
            info,
            change,
            coins,
            r->Ok_0.psbt@,
            r->Ok_0.endseals@,
        );
    }
}

/// Where the contract can be set, the recipients can be paid and the coins on the inputs
/// can be spent, a transfer fails for its coins exactly where these are not worth what is
/// paid and the change. Where they are, only the PSBT can refuse it.
pub proof fn coins_have_to_be_worth_the_payments(
    psbt: Vec<u8>,
    contract: Vec<u8>,
    consignment: Vec<u8>,
    asset_id: String,
    info: InfoAssetTransfer,
    records: Records,
    change: DbTxo,
    inputs: Vec<Outpoint>,
    payments: Vec<(String, u64)>,
    r: Result<ComposedTransfer, WalletError>,
)
    requires
        can_be_written(psbt@),
        contract_set(psbt@, contract@) is Some,
        is_rgb20(consignment@),
        all_hold_coins(consignment@, inputs@),
        are_spendable(coins_of(consignment@, inputs@), info.recipients@.len() == 0),
        call_ensures(sort_outpoints, (&info.asset_spend.input_outpoints,), inputs),
        call_ensures(
            get_beneficiaries,
            (&records, &info.recipients),
            Ok::<Vec<(String, u64)>, WalletError>(payments),
        ),
        call_ensures(
            compose_transfer,
            (&psbt, &contract, &consignment, &asset_id, &info, &records, &change),
            r,
        ),
    ensures
        worth(coins_of(consignment@, inputs@)) != paid_in_all(payments@)
            + info.asset_spend.change_amount ==> (r matches Err(
            WalletError::Internal(InternalError::InvalidConsignment),
        )),
        worth(coins_of(consignment@, inputs@)) == paid_in_all(payments@)
            + info.asset_spend.change_amount ==> r is Ok || (r matches Err(
            WalletError::Internal(InternalError::RgbData),
        )),
{
    let coins = coins_of(consignment@, inputs@);
    let groups = asset_coins(consignment@, canonical_views(inputs@));
    lemma_coins(consignment@, inputs@);
    lemma_worth(coins);
    lemma_paid(payments@);
    assert(canonical_views(inputs@) == ordered_outputs(info.asset_spend.input_outpoints@));
    assert(groups.len() == inputs@.len());
    lemma_spendable(coins, info.recipients@.len() == 0);
    assert(coins_spendable(groups, info.recipients@.len() == 0));
}

/// Whether a transition can be put into a PSBT whose inputs are outpoints of transactions,
/// once the contract is set: it can be added, and noted as the consumer of all inputs that
/// pay.
pub open spec fn can_be_composed(
    psbt: Seq<u8>,
    contract: Seq<u8>,
    asset_id: Seq<char>,
    paying: Seq<Outpoint>,
    transition: Seq<u8>,
) -> bool {
    exists|psbts: Seq<Seq<u8>>| #[trigger]
        is_composed(psbt, contract, asset_id, paying, transition, psbts) && are_ids(
            psbt_inputs(psbts[0])->0,
        )
}

/// Whether a transition pays recipients and puts the change on its output, and consumes
/// coins, but cannot be put into a PSBT.
pub open spec fn is_refused(
    psbt: Seq<u8>,
    contract: Seq<u8>,
    asset_id: Seq<char>,
    info: InfoAssetTransfer,
    coins: Seq<CoinView>,
    change: DbTxo,
    transition: Seq<u8>,
    payments: Seq<(String, u64)>,
) -> bool {
    &&& consumes_coins(transition, coins)
    &&& are_payments(payments, info.recipients@)
    &&& assigns(transition, payments, change, info.asset_spend.change_amount)
    &&& !can_be_composed(
        psbt,
        contract,
        asset_id,
        info.asset_spend.input_outpoints@,
        transition,
    )
}

/// Where the coins on the inputs can be spent and are worth what is paid and the change, a
/// transfer fails only where the PSBT cannot take a transition that pays all recipients
/// from these coins.
pub proof fn only_the_psbt_refuses_a_transfer(
    psbt: Vec<u8>,
    contract: Vec<u8>,
    consignment: Vec<u8>,
    asset_id: String,
    info: InfoAssetTransfer,
    records: Records,
    change: DbTxo,
    inputs: Vec<Outpoint>,
    payments: Vec<(String, u64)>,
    e: WalletError,
) -> (r: (Seq<u8>, Seq<(String, u64)>))
    requires
        forall|i: int|
            0 <= i < info.asset_spend.input_outpoints@.len() ==> is_id(
                (#[trigger] info.asset_spend.input_outpoints@[i]).txid@,
            ),
        can_be_written(psbt@),
        contract_set(psbt@, contract@) is Some,
        is_rgb20(consignment@),
        all_hold_coins(consignment@, inputs@),
        are_spendable(coins_of(consignment@, inputs@), info.recipients@.len() == 0),
        worth(coins_of(consignment@, inputs@)) == paid_in_all(payments@)
            + info.asset_spend.change_amount,
        call_ensures(sort_outpoints, (&info.asset_spend.input_outpoints,), inputs),
        call_ensures(
            get_beneficiaries,
            (&records, &info.recipients),
            Ok::<Vec<(String, u64)>, WalletError>(payments),
        ),
        call_ensures(
            compose_transfer,
            (&psbt, &contract, &consignment, &asset_id, &info, &records, &change),
            Err::<ComposedTransfer, WalletError>(e),
        ),
    ensures
        is_refused(
            psbt@,
            contract@,
            asset_id@,
            info,
            coins_of(consignment@, inputs@),
            change,
            r.0,
            r.1,
        ),
{
    coins_have_to_be_worth_the_payments(
        psbt,
        contract,
        consignment,
        asset_id,
        info,
        records,
        change,
        inputs,
        payments,
        Err(e),
    );
    let coins = coins_of(consignment@, inputs@);
    let paying = info.asset_spend.input_outpoints@;
    let start = contract_set(psbt@, contract@)->0;
    lemma_coins(consignment@, inputs@);
    lemma_all_payable(records, info.recipients@);
    assert(canonical_views(inputs@) == ordered_outputs(paying));
    assert(transition_refused(psbt@, contract@, consignment@, asset_id@, info, change));
    let (transition, paid) = choose|transition: Seq<u8>, paid: Seq<(String, u64)>|
        {
            &&& #[trigger] transfers_asset(transition, paid, consignment@, info, change)
            &&& psbt_with_transfer(start, paying, asset_id@, transition) is None
        };
    assert forall|i: int| 0 <= i < info.recipients@.len() implies seal_of_text(
        (#[trigger] info.recipients@[i]).blinded_utxo@,
    ) is Some by {
        assert(can_get(records, info.recipients@[i]));
    }
    lemma_payments(paid, info.recipients@);
    lemma_assigns(transition, paid, change, info.asset_spend.change_amount);
    let rights = coins.map_values(|c: CoinView| (c.2.0, RIGHT_ASSETS, c.2.1));
    assert(rights =~= Seq::new(coins.len(), |i: int| (coins[i].2.0, 0xA1u16, coins[i].2.1)));
    if can_be_composed(psbt@, contract@, asset_id@, paying, transition) {
        let psbts = choose|psbts: Seq<Seq<u8>>| #[trigger]
            is_composed(psbt@, contract@, asset_id@, paying, transition, psbts) && are_ids(
                psbt_inputs(psbts[0])->0,
            );
        lemma_can_be_put(
            start,
            paying,
            asset_id@,
            transition,
            psbt_inputs(psbts[0])->0,
            psbts,
        );
    }
    (transition, paid)
}

proof fn lemma_transferred(
    psbt: Seq<u8>,
    contract: Seq<u8>,
    consignment: Seq<u8>,
    asset_id: Seq<char>,
    info: InfoAssetTransfer,
    change: DbTxo,
    coins: Seq<CoinView>,
    after: Seq<u8>,
    endseals: Seq<String>,
)
    requires
        forall|i: int|
            0 <= i < info.asset_spend.input_outpoints@.len() ==> is_id(
                (#[trigger] info.asset_spend.input_outpoints@[i]).txid@,
            ),
        forall|i: int|
            0 <= i < info.recipients@.len() ==> seal_of_text(
                (#[trigger] info.recipients@[i]).blinded_utxo@,
            ) is Some,
        psbt_with_contract(psbt, contract) is Some,
        coins == all_coins(input_coins(consignment, info)),
        inputs_worth(consignment, info),
        transfer_composed(
            psbt,
            contract,
            consignment,
            asset_id,
            info,
            change,
            after,
            endseals,
        ),
    ensures
        exists|transition: Seq<u8>|
            #[trigger] consumes_coins(transition, coins) && is_transferred(
                after,
                endseals,
                psbt,
                contract,
                asset_id,
                info,
                coins,
                change,
                transition,
            ),
{
    let (transition, payments) = choose|transition: Seq<u8>, payments: Seq<(String, u64)>|
        {
            &&& #[trigger] transfers_asset(transition, payments, consignment, info, change)
            &&& endseals == seals_of(payments)
            &&& psbt_with_transfer(
                psbt_with_contract(psbt, contract)->0,
                info.asset_spend.input_outpoints@,
                asset_id,
                transition,
            ) == Some(after)
        };
    lemma_payments(payments, info.recipients@);
    lemma_paid(payments);
    lemma_worth(coins);
    let start = contract_set(psbt, contract)->0;
    let psbts = lemma_embedded(
        start,
        info.asset_spend.input_outpoints@,
        asset_id,
        transition,
        after,
    );
    assert(is_composed(
        psbt,
        contract,
        asset_id,
        info.asset_spend.input_outpoints@,
        transition,
        psbts,
    ));
    lemma_assigns(transition, payments, change, info.asset_spend.change_amount);
    assert(are_seals_of(endseals, payments));
    let rights = coins.map_values(|c: CoinView| (c.2.0, RIGHT_ASSETS, c.2.1));
    assert(rights =~= Seq::new(coins.len(), |i: int| (coins[i].2.0, 0xA1u16, coins[i].2.1)));
    assert(consumes_coins(transition, coins));
    assert(is_transferred(
        after,
        endseals,
        psbt,
        contract,
        asset_id,
        info,
        coins,
        change,
        transition,
    ));
}

proof fn lemma_assigns(
    transition: Seq<u8>,
    payments: Seq<(String, u64)>,
    change: DbTxo,
    change_amount: u64,
)
    requires
        value_assignments(transition) == Some(
            transfer_assignments(payments, change.outpoint_spec()@, change_amount),
        ),
    ensures
        assigns(transition, payments, change, change_amount),
{
    let list = value_assignments(transition)->0;
    assert(change.outpoint_spec()@ == (change.txid@, change.vout));
    assert forall|i: int| 0 <= i < payments.len() implies {
        &&& list[i + 1].0 == Some((#[trigger] payments[i]).0@)
        &&& list[i + 1].1 is None
        &&& list[i + 1].2 == Some(payments[i].1)
    } by {}
}

/// A preparation starts with the PSBT, the transfers and the first output with room for the
/// change, which is none of the inputs. It fails exactly where no output has room.
pub proof fn preparations_find_an_output_for_the_change(
    psbt: Vec<u8>,
    all_inputs: Vec<Outpoint>,
    transfers: Vec<(String, InfoAssetTransfer)>,
    unspents: Vec<LocalUnspent>,
    donation: bool,
    bitcoins: u64,
    r: Result<Preparation, WalletError>,
)
    requires
        call_ensures(get_spendable_bitcoins, (&unspents,), bitcoins),
        call_ensures(
            Preparation::begin,
            (psbt, &all_inputs, transfers, &unspents, donation),
            r,
        ),
    ensures
        ({
            let full = forall|i: int|
                0 <= i < unspents@.len() ==> !has_room(#[trigger] unspents@[i], all_inputs@);
            &&& full && bitcoins < 2000 ==> (r matches Err(WalletError::InsufficientFunds))
            &&& full && bitcoins >= 2000 ==> (r matches Err(
                WalletError::InsufficientAllocationSlots,
            ))
            &&& !full ==> r is Ok
        }),
        r matches Ok(p) ==> {
            &&& p.psbt() == psbt@
            &&& p.transfers() == transfers@
            &&& p.donation() == donation
            &&& p.endseals().len() == 0
            &&& p.blank_allocations().len() == 0
            &&& exists|i: int|
                {
                    &&& 0 <= i < unspents@.len()
                    &&& (#[trigger] unspents@[i]).utxo == p.change_utxo()
                    &&& has_room(unspents@[i], all_inputs@)
                    &&& forall|j: int|
                        0 <= j < i ==> !has_room(#[trigger] unspents@[j], all_inputs@)
                }
        },
{
    let p = |u: LocalUnspent| allocatable(u, all_inputs@);
    lemma_first_index(unspents@, p);
    assert forall|i: int| 0 <= i < unspents@.len() implies p(#[trigger] unspents@[i]) == has_room(
        unspents@[i],
        all_inputs@,
    ) by {}
}

/// The transfers are put into the PSBT in their order, and each has to be of a contract. The
/// second half of the send operation gets what the first one decided.
pub proof fn preparations_go_on_in_order(
    p: Preparation,
    next: Result<Option<(&String, &Vec<Outpoint>)>, WalletError>,
    info: InfoBatchTransfer,
)
    requires
        p.wf(),
        call_ensures(Preparation::next_asset, (&p,), next),
        call_ensures(Preparation::finish, (p,), info),
    ensures
        p.endseals().len() == p.transfers().len() ==> (next matches Ok(None)),
        p.endseals().len() < p.transfers().len() ==> {
            let t = p.transfers()[p.endseals().len() as int];
            if is_contract_id(t.0@) {
                next matches Ok(Some((asset_id, inputs))) && asset_id@ == t.0@ && inputs@
                    == t.1.asset_spend.input_outpoints@
            } else {
                next matches Err(WalletError::Internal(InternalError::RgbData))
            }
        },
        info.change_utxo_idx == p.change_utxo().idx,
        info.blank_allocations@ == p.blank_allocations(),
        info.donation == p.donation(),
{
}

/// Contracts are planned in their order, each as it is planned alone, but for those for
/// which there is nothing to do.
pub proof fn contracts_are_planned_in_order(
    p: Preparation,
    states: Vec<ContractState>,
    r: Vec<BlankWork>,
    i: int,
    alone: Option<BlankWork>,
) -> (at: Seq<int>)
    requires
        0 <= i < states@.len(),
        call_ensures(Preparation::plan_states, (&p, states), r),
        call_ensures(Preparation::plan_state, (&p, states@[i]), alone),
    ensures
        r@.len() == at.len(),
        forall|k: int|
            0 <= k < at.len() ==> 0 <= #[trigger] at[k] < states@.len() && r@[k].contract_id@
                == states@[at[k]].contract_id@,
        forall|k: int, l: int| 0 <= k < l < at.len() ==> #[trigger] at[k] < #[trigger] at[l],
        at.contains(i) <==> alone is Some,
        forall|k: int|
            0 <= k < at.len() && #[trigger] at[k] == i ==> (alone matches Some(work)
                && work.needs_contract == r@[k].needs_contract && work.states@ == r@[k].states@),
        (forall|t: int|
            0 <= t < p.transfers().len() ==> (#[trigger] p.transfers()[t]).0@
                != states@[i].contract_id@) ==> is_moved_whole(r@, at, states@, i),
{
    let q = of_work(p.transfers());
    let at = lemma_filter_picks(states@, q);
    assert forall|k: int| 0 <= k < at.len() implies 0 <= #[trigger] at[k] < states@.len()
        && is_work(r@[k], p.transfers(), states@[at[k]]) by {
        assert(is_work(r@[k], p.transfers(), states@.filter(q)[k]));
    }
    if at.contains(i) {
        let k = choose|k: int| 0 <= k < at.len() && at[k] == i;
        assert(q(states@[at[k]]));
    }
    if alone is Some {
        assert(q(states@[i]));
    }
    if forall|t: int|
        0 <= t < p.transfers().len() ==> (#[trigger] p.transfers()[t]).0@
            != states@[i].contract_id@ {
        let id = states@[i].contract_id@;
        let f = of_asset(id);
        lemma_first_index(p.transfers(), f);
        assert forall|t: int| 0 <= t < p.transfers().len() implies !f(
            #[trigger] p.transfers()[t],
        ) by {}
        assert(has_work(p.transfers(), states@[i]));
        assert(q(states@[i]));
        assert(at.contains(i));
        let k = choose|k: int| 0 <= k < at.len() && at[k] == i;
        assert(is_work(r@[k], p.transfers(), states@[at[k]]));
    }
    at
}

/// Whether all states of a contract move, with the contract.
pub open spec fn is_moved_whole(
    works: Seq<BlankWork>,
    at: Seq<int>,
    states: Seq<ContractState>,
    i: int,
) -> bool {
    exists|k: int|
        {
            &&& 0 <= k < at.len()
            &&& #[trigger] at[k] == i
            &&& works[k].needs_contract
            &&& works[k].states@ == states[i].states@
        }
}

/// Whether amounts are noted for the first of the contracts whose states move, one for each
/// and in their order. Each is all that leaves the outpoints with these states, where these
/// differ.
pub open spec fn are_noted(noted: Seq<(String, u64)>, works: Seq<BlankWork>) -> bool {
    &&& noted.len() <= works.len()
    &&& forall|k: int|
        0 <= k < noted.len() ==> is_noted_for(#[trigger] noted[k], works[k])
}

/// Whether an amount is noted for a contract whose states move.
pub open spec fn is_noted_for(noted: (String, u64), work: BlankWork) -> bool {
    &&& noted.0@ == work.contract_id@
    &&& are_movable(work.states@)
    &&& all_alone(work.states@) ==> noted.1 == leaves_in_all(work.states@)
}

/// An amount that the library notes is the one for its contract.
pub proof fn lemma_noted(
    before: Seq<u8>,
    inputs: Seq<Outpoint>,
    work: BlankWork,
    contract: Option<Vec<u8>>,
    change_utxo: DbTxo,
    after: Seq<u8>,
    noted: (String, u64),
)
    requires
        can_move(work.states@),
        noted.0@ == work.contract_id@,
        states_moved(before, inputs, work, contract, change_utxo, after, noted.1),
    ensures
        is_noted_for(noted, work),
{
    lemma_movable(work.states@);
    if all_alone(work.states@) {
        assert forall|i: int| 0 <= i < work.states@.len() implies states_on(
            (#[trigger] work.states@[i]).1@,
        ) is Some by {
            assert(are_owned(states_on(work.states@[i].1@)));
        }
        lemma_leaves(work.states@);
    }
}

/// Whether two preparations have the same change output, transfers and purpose.
pub open spec fn is_same_send(a: Preparation, b: Preparation) -> bool {
    a.change_utxo() == b.change_utxo() && a.transfers() == b.transfers() && a.donation()
        == b.donation()
}

/// A preparation adds its transfers one by one: each time the first one that is not in the
/// PSBT yet, which pays its recipients from the coins on its inputs. Nothing else changes,
/// and nothing at all where that fails.
pub proof fn transfers_are_added_one_by_one(
    p: &mut Preparation,
    contract: Vec<u8>,
    consignment: Vec<u8>,
    records: Records,
    inputs: Vec<Outpoint>,
    r: Result<(), WalletError>,
)
    requires
        old(p).wf(),
        old(p).endseals().len() < old(p).transfers().len(),
        call_ensures(
            sort_outpoints,
            (&old(p).transfers()[old(p).endseals().len() as int].1.asset_spend.input_outpoints,),
            inputs,
        ),
        call_ensures(Preparation::add_transfer, (p, &contract, &consignment, &records), r),
    ensures
        is_same_send(*final(p), *old(p)),
        final(p).blank_allocations() == old(p).blank_allocations(),
        r is Err ==> final(p).psbt() == old(p).psbt() && final(p).endseals() == old(p).endseals(),
        ({
            let next = old(p).transfers()[old(p).endseals().len() as int];
            let coins = coins_of(consignment@, inputs@);
            let set = can_be_written(old(p).psbt()) && contract_set(
                old(p).psbt(),
                contract@,
            ) is Some;
            let payable = forall|i: int|
                0 <= i < next.1.recipients@.len() ==> can_get(
                    records,
                    #[trigger] next.1.recipients@[i],
                );
            let spendable = is_rgb20(consignment@) && all_hold_coins(consignment@, inputs@)
                && are_spendable(coins, next.1.recipients@.len() == 0);
            &&& !set ==> (r matches Err(WalletError::Internal(InternalError::RgbData)))
            &&& set && !payable ==> (r matches Err(e) && (e is BlindedUTXOAlreadyUsed
                || e is InvalidBlindedUTXO))
            &&& set && payable && !spendable ==> (r matches Err(
                WalletError::Internal(InternalError::InvalidConsignment),
            ))
            &&& r is Ok ==> {
                &&& final(p).endseals().len() == old(p).endseals().len() + 1
                &&& final(p).endseals().drop_last() == old(p).endseals()
                &&& exists|transition: Seq<u8>|
                    #[trigger] consumes_coins(transition, coins) && is_transferred(
                        final(p).psbt(),
                        final(p).endseals().last()@,
                        old(p).psbt(),
                        contract@,
                        next.0@,
                        next.1,
                        coins,
                        old(p).change_utxo(),
                        transition,
                    )
            }
        }),
{
    let next = old(p).transfers()[old(p).endseals().len() as int];
    let coins = coins_of(consignment@, inputs@);
    let groups = asset_coins(consignment@, canonical_views(inputs@));
    lemma_coins(consignment@, inputs@);
    lemma_worth(coins);
    lemma_all_payable(records, next.1.recipients@);
    assert(composable(next.1));
    assert(canonical_views(inputs@) == ordered_outputs(next.1.asset_spend.input_outpoints@));
    assert(groups.len() == inputs@.len());
    lemma_spendable(coins, next.1.recipients@.len() == 0);
    assert(are_spendable(coins, next.1.recipients@.len() == 0) <==> coins_spendable(
        groups,
        next.1.recipients@.len() == 0,
    ));
    if r is Ok {
        assert forall|i: int| 0 <= i < next.1.recipients@.len() implies seal_of_text(
            (#[trigger] next.1.recipients@[i]).blinded_utxo@,
        ) is Some by {
            assert(can_get(records, next.1.recipients@[i]));
        }
        assert forall|i: int| 0 <= i < next.1.asset_spend.input_outpoints@.len() implies is_id(
            (#[trigger] next.1.asset_spend.input_outpoints@[i]).txid@,
        ) by {
            lemma_ids(next.1.asset_spend.input_outpoints@[i].txid@);
        }
        assert(final(p).endseals().drop_last() =~= final(p).endseals().take(
            old(p).endseals().len() as int,
        ));
        lemma_transferred(
            old(p).psbt(),
            contract@,
            consignment@,
            next.0@,
            next.1,
            old(p).change_utxo(),
            coins,
            final(p).psbt(),
            final(p).endseals().last()@,
        );
    }
}

/// A preparation moves the states of a contract to its change and notes how much. Nothing
/// else changes, and nothing at all where that fails.
pub proof fn moved_states_are_noted(
    p: &mut Preparation,
    inputs: Vec<Outpoint>,
    work: BlankWork,
    contract: Option<Vec<u8>>,
    r: Result<(), WalletError>,
)
    requires
        call_ensures(Preparation::add_state, (p, &inputs, &work, &contract), r),
    ensures
        is_same_send(*final(p), *old(p)),
        final(p).endseals() == old(p).endseals(),
        r is Err ==> final(p).psbt() == old(p).psbt() && final(p).blank_allocations()
            == old(p).blank_allocations(),
        r is Ok ==> {
            let noted = final(p).blank_allocations();
            &&& noted.len() == old(p).blank_allocations().len() + 1
            &&& noted.drop_last() == old(p).blank_allocations()
            &&& is_noted_for(noted.last(), work)
            &&& are_moved(
                old(p).psbt(),
                final(p).psbt(),
                inputs@,
                work,
                contract,
                old(p).change_utxo(),
                noted.last().1,
            )
        },
{
    if r is Ok {
        let noted = final(p).blank_allocations();
        assert(noted.drop_last() =~= noted.take(old(p).blank_allocations().len() as int));
        lemma_are_moved(
            old(p).psbt(),
            final(p).psbt(),
            inputs@,
            work,
            contract,
            old(p).change_utxo(),
            noted.last().1,
        );
    }
}

/// A preparation moves the states of contracts in their order, and notes how much for each
/// until one fails. The PSBT changes only where something moves.
pub proof fn contracts_are_moved_in_order(
    p: &mut Preparation,
    inputs: Vec<Outpoint>,
    works: Vec<BlankWork>,
    contracts: Vec<Option<Vec<u8>>>,
    r: Result<(), WalletError>,
)
    requires
        call_ensures(Preparation::add_states, (p, &inputs, &works, &contracts), r),
    ensures
        is_same_send(*final(p), *old(p)),
        final(p).endseals() == old(p).endseals(),
        ({
            let n = old(p).blank_allocations().len() as int;
            let noted = final(p).blank_allocations();
            &&& noted.len() >= n
            &&& noted.take(n) == old(p).blank_allocations()
            &&& are_noted(noted.skip(n), works@)
            &&& r is Ok <==> noted.len() == n + works@.len()
            &&& noted.len() == n ==> final(p).psbt() == old(p).psbt()
        }),
{
    let n = old(p).blank_allocations().len() as int;
    let noted = final(p).blank_allocations();
    if noted.len() == n && r is Err {
        let k = choose|k: int|
            0 <= k < works@.len() && works_done(
                old(p).psbt(),
                inputs@,
                #[trigger] works@.take(k),
                contracts@.take(k),
                old(p).change_utxo(),
                final(p).psbt(),
                noted.skip(n),
            );
        lemma_unmoved(
            old(p).psbt(),
            inputs@,
            works@.take(k),
            contracts@.take(k),
            old(p).change_utxo(),
            final(p).psbt(),
            noted.skip(n),
        );
    }
    if noted.len() == n && r is Ok {
        lemma_unmoved(
            old(p).psbt(),
            inputs@,
            works@,
            contracts@,
            old(p).change_utxo(),
            final(p).psbt(),
            noted.skip(n),
        );
    }
}

proof fn lemma_unmoved(
    before: Seq<u8>,
    inputs: Seq<Outpoint>,
    works: Seq<BlankWork>,
    contracts: Seq<Option<Vec<u8>>>,
    change_utxo: DbTxo,
    after: Seq<u8>,
    noted: Seq<(String, u64)>,
)
    requires
        noted.len() == 0,
        works_done(before, inputs, works, contracts, change_utxo, after, noted),
    ensures
        after == before,
{
    let psbts = choose|psbts: Seq<Seq<u8>>|
        {
            &&& psbts.len() == works.len() + 1
            &&& psbts[0] == before
            &&& psbts.last() == after
            &&& #[trigger] all_states_moved(
                psbts,
                inputs,
                works,
                contracts,
                change_utxo,
                noted,
            )
        };
    assert(works.len() == 0);
}

/// A preparation commits to the transitions of its PSBT, and to nothing else. Where that
/// fails, nothing changes.
pub proof fn preparations_commit_to_their_psbts(
    p: &mut Preparation,
    psbt: Vec<u8>,
    committed: Result<Vec<u8>, WalletError>,
    r: Result<(), WalletError>,
)
    requires
        psbt@ == old(p).psbt(),
        call_ensures(commit_transitions, (&psbt,), committed),
        call_ensures(Preparation::commit, (p,), r),
    ensures
        is_same_send(*final(p), *old(p)),
        final(p).endseals() == old(p).endseals(),
        final(p).blank_allocations() == old(p).blank_allocations(),
        r is Ok <==> committed is Ok,
        committed matches Ok(next) ==> final(p).psbt() == next@,
        committed is Err ==> final(p).psbt() == old(p).psbt(),
        (committed matches Err(WalletError::Internal(InternalError::RgbData))) ==> (r matches Err(
            WalletError::Internal(InternalError::RgbData),
        )),
        (committed matches Err(WalletError::Internal(InternalError::Unexpected))) ==> (
        r matches Err(WalletError::Internal(InternalError::Unexpected))),
{
}

/// A preparation shows its PSBT, and its transfers with their seals.
pub proof fn preparations_are_shown(
    p: Preparation,
    psbt: &Vec<u8>,
    all: (&Vec<(String, InfoAssetTransfer)>, &Vec<Vec<String>>),
)
    requires
        call_ensures(Preparation::get_psbt, (&p,), psbt),
        call_ensures(Preparation::get_transfers, (&p,), all),
    ensures
        psbt@ == p.psbt(),
        all.0@ == p.transfers(),
        all.1@ == p.endseals(),
{
}

} // verus!
