//! Putting the transfer of assets into a PSBT.

use vstd::arithmetic::div_mod::{lemma_add_mod_noop, lemma_mod_bound, lemma_small_mod};
use vstd::prelude::*;

use crate::chain::{
    all_valid, canonical, canonical_views, contains_output, holds_output, is_txid,
    ordered_outputs, sort_outpoints, views,
};
use crate::database::records::{asset_transfers_with_status, in_batch_with_status, Records};
use crate::database::{DbTransfer, DbTxo};
use crate::error::{InternalError, WalletError};
use crate::rgb_data::{
    add_consumer, add_contract, add_transition, all_alone, all_coins, amount_moved, asset_coins,
    assignment_view, assignment_views, blinding_sum, bundle_transitions, can_balance,
    check_contract_id, check_rgb20, coin_amounts, coin_group_views, coin_total, coin_views,
    coins_worth, compose_blank, compose_transition, consumed_rights, is_contract_id,
    is_rgb20, is_seal, last_seal_txid, movable, moves, payment_amounts, payments_ordered,
    psbt_bundled, psbt_inputs, psbt_text, psbt_with_consumer, psbt_with_contract, psbt_with_host,
    psbt_with_transition, read_assignments, read_coins, read_inputs, read_last_seal, read_rights,
    read_seal, read_states, render_psbt, right_views, rights_to, seal_of_text, set_host,
    stands_alone, state_rights, state_views, states_on, transfer_assignments, value_assignments,
    AssignmentView, Coin, CoinView, OwnedState, Right, ValueAssignment, RIGHT_ASSETS,
};
use crate::scalars::{group_order, is_scalar, Scalar};
use crate::seqs::{
    checked_total, has_id, lemma_filter_ends, lemma_filter_prefix, lemma_filter_step,
    lemma_first_at, lemma_no_first, lemma_sum_insert, lemma_sum_prefix, lemma_sum_reordered,
    lemma_sum_update, sum,
};
use crate::text::{
    is_before, lemma_before_irreflexive, lemma_before_total, lemma_before_transitive,
    text_before,
};
use crate::wallet::send::{recipient_amounts, InfoAssetTransfer};
use crate::wallet::types::{
    opt_text, outpoint_text, same_text, Outpoint, Recipient, TransferStatus,
};

verus! {

/// Whether a blinded UTXO belongs to an earlier transfer that has not failed.
pub open spec fn already_used(records: Records, blinded_utxo: Seq<char>) -> bool {
    exists|i: int|
        0 <= i < records.transfers@.len() && opt_text(
            (#[trigger] records.transfers@[i]).blinded_utxo,
        ) == Some(blinded_utxo) && !in_batch_with_status(
            records.asset_transfers@,
            records.batch_transfers@,
            records.transfers@[i].asset_transfer_idx,
            TransferStatus::Failed,
        )
}

fn is_already_used(transfers: &Vec<DbTransfer>, failed: &Vec<i64>, blinded_utxo: &String) -> (r:
    bool)
    ensures
        r == exists|i: int|
            0 <= i < transfers@.len() && opt_text((#[trigger] transfers@[i]).blinded_utxo) == Some(
                blinded_utxo@,
            ) && !failed@.contains(transfers@[i].asset_transfer_idx),
{
    let wanted: Option<String> = Some(blinded_utxo.clone());
    let mut i: usize = 0;
    while i < transfers.len()
        invariant
            i <= transfers.len(),
            opt_text(wanted) == Some(blinded_utxo@),
            forall|k: int|
                0 <= k < i ==> opt_text((#[trigger] transfers@[k]).blinded_utxo) != Some(
                    blinded_utxo@,
                ) || failed@.contains(transfers@[k].asset_transfer_idx),
        decreases transfers.len() - i,
    {
        if !has_id(failed, transfers[i].asset_transfer_idx) && same_text(
            &transfers[i].blinded_utxo,
            &wanted,
        ) {
            return true;
        }
        i += 1;
    }
    false
}

/// Whether payments are those of a map from seals to amounts.
pub open spec fn pays(payments: Seq<(String, u64)>, map: Map<Seq<char>, u64>) -> bool {
    &&& forall|i: int|
        0 <= i < payments.len() ==> map.dom().contains((#[trigger] payments[i]).0@)
            && map[payments[i].0@] == payments[i].1
    &&& forall|seal: Seq<char>| #[trigger]
        map.dom().contains(seal) ==> exists|i: int|
            0 <= i < payments.len() && (#[trigger] payments[i]).0@ == seal
}

/// What recipients get, by the seals of their blinded UTXOs. Where several have one
/// seal, the last one counts.
pub open spec fn payment_map(recipients: Seq<Recipient>) -> Map<Seq<char>, u64>
    decreases recipients.len(),
{
    if recipients.len() == 0 {
        Map::empty()
    } else {
        payment_map(recipients.drop_last()).insert(
            seal_of_text(recipients.last().blinded_utxo@)->0,
            recipients.last().amount,
        )
    }
}

/// What recipients get in all. Where several have one seal, only the last one
/// counts.
pub open spec fn paid_total(recipients: Seq<Recipient>) -> int
    decreases recipients.len(),
{
    if recipients.len() == 0 {
        0
    } else {
        let map = payment_map(recipients.drop_last());
        let seal = seal_of_text(recipients.last().blinded_utxo@)->0;
        paid_total(recipients.drop_last()) - amount_at(map, seal) + recipients.last().amount
    }
}

/// The amount that a map has for a seal, or zero.
pub open spec fn amount_at(map: Map<Seq<char>, u64>, seal: Seq<char>) -> int {
    if map.dom().contains(seal) {
        map[seal] as int
    } else {
        0
    }
}

proof fn lemma_paid_at_most(recipients: Seq<Recipient>)
    ensures
        paid_total(recipients) <= sum(recipient_amounts(recipients)),
    decreases recipients.len(),
{
    if recipients.len() > 0 {
        lemma_paid_at_most(recipients.drop_last());
        assert(recipient_amounts(recipients).drop_last() =~= recipient_amounts(
            recipients.drop_last(),
        ));
    }
}

/// Puts a payment into its place, or changes the amount of its seal.
fn insert_payment(payments: &mut Vec<(String, u64)>, seal: String, amount: u64)
    requires
        payments_ordered(old(payments)@),
        is_seal(seal@),
    ensures
        payments_ordered(final(payments)@),
        forall|map: Map<Seq<char>, u64>| #[trigger]
            pays(old(payments)@, map) ==> pays(final(payments)@, map.insert(seal@, amount)),
        final(payments)@.len() <= old(payments)@.len() + 1,
        forall|map: Map<Seq<char>, u64>| #[trigger]
            pays(old(payments)@, map) ==> sum(payment_amounts(final(payments)@)) + amount_at(
                map,
                seal@,
            ) == sum(payment_amounts(old(payments)@)) + amount,
{
    let ghost before = payments@;
    let mut i: usize = 0;
    while i < payments.len()
        invariant
            i <= payments.len(),
            payments@ == before,
            before == old(payments)@,
            payments_ordered(before),
            is_seal(seal@),
            forall|k: int| 0 <= k < i ==> text_before((#[trigger] before[k]).0@, seal@),
        decreases payments.len() - i,
    {
        if payments[i].0 == seal {
            let key: String = payments[i].0.clone();
            let ghost new = (key, amount);
            payments.set(i, (key, amount));
            proof {
                lemma_payment_changed(before, i as int, new);
                assert forall|map: Map<Seq<char>, u64>| #[trigger] pays(
                    before,
                    map,
                ) implies amount_at(map, new.0@) == before[i as int].1 by {
                    assert(map.dom().contains(before[i as int].0@));
                }
                lemma_sum_update(payment_amounts(before), i as int, amount);
                assert(payment_amounts(payments@) =~= payment_amounts(before).update(
                    i as int,
                    amount,
                ));
            }
            return;
        }
        if is_before(seal.as_str(), payments[i].0.as_str()) {
            let ghost new = (seal, amount);
            payments.insert(i, (seal, amount));
            proof {
                lemma_payment_added(before, i as int, new);
                lemma_seal_absent(before, i as int, new.0@);
                lemma_sum_insert(payment_amounts(before), i as int, amount);
                assert(payment_amounts(payments@) =~= payment_amounts(before).insert(
                    i as int,
                    amount,
                ));
            }
            return;
        }
        proof {
            lemma_before_total(seal@, before[i as int].0@);
        }
        i += 1;
    }
    let ghost new = (seal, amount);
    payments.push((seal, amount));
    proof {
        let n = before.len() as int;
        assert(payments@ =~= before.insert(n, new));
        lemma_payment_added(before, n, new);
        lemma_seal_absent(before, n, new.0@);
        lemma_sum_insert(payment_amounts(before), n, amount);
        assert(payment_amounts(payments@) =~= payment_amounts(before).insert(n, amount));
    }
}

proof fn lemma_seal_absent(payments: Seq<(String, u64)>, at: int, seal: Seq<char>)
    requires
        payments_ordered(payments),
        0 <= at <= payments.len(),
        forall|k: int| 0 <= k < at ==> text_before((#[trigger] payments[k]).0@, seal),
        at < payments.len() ==> text_before(seal, payments[at].0@),
    ensures
        forall|map: Map<Seq<char>, u64>| #[trigger]
            pays(payments, map) ==> amount_at(map, seal) == 0,
{
    lemma_before_irreflexive(seal);
    assert forall|map: Map<Seq<char>, u64>| #[trigger] pays(payments, map) implies amount_at(
        map,
        seal,
    ) == 0 by {
        if map.dom().contains(seal) {
            let i = choose|i: int| 0 <= i < payments.len() && (#[trigger] payments[i]).0@ == seal;
            if i > at {
                lemma_before_transitive(seal, payments[at].0@, payments[i].0@);
            }
        }
    }
}

proof fn lemma_payment_changed(before: Seq<(String, u64)>, at: int, new: (String, u64))
    requires
        payments_ordered(before),
        0 <= at < before.len(),
        new.0@ == before[at].0@,
    ensures
        payments_ordered(before.update(at, new)),
        forall|map: Map<Seq<char>, u64>| #[trigger]
            pays(before, map) ==> pays(before.update(at, new), map.insert(new.0@, new.1)),
{
    let after = before.update(at, new);
    assert forall|i: int| 0 <= i < after.len() implies (#[trigger] after[i]).0@
        == before[i].0@ by {}
    assert(payments_ordered(after)) by {
        assert forall|i: int| 0 <= i < after.len() implies is_seal((#[trigger] after[i]).0@) by {
            assert(is_seal(before[i].0@));
        }
        assert forall|i: int, j: int| 0 <= i < j < after.len() implies text_before(
            (#[trigger] after[i]).0@,
            (#[trigger] after[j]).0@,
        ) by {
            assert(text_before(before[i].0@, before[j].0@));
        }
    }
    assert forall|map: Map<Seq<char>, u64>| #[trigger] pays(before, map) implies pays(
        after,
        map.insert(new.0@, new.1),
    ) by {
        let m = map.insert(new.0@, new.1);
        assert forall|i: int| 0 <= i < after.len() implies m.dom().contains(
            (#[trigger] after[i]).0@,
        ) && m[after[i].0@] == after[i].1 by {
            if i != at {
                assert(before[i].0@ != new.0@) by {
                    lemma_before_irreflexive(new.0@);
                    if i < at {
                        assert(text_before(before[i].0@, before[at].0@));
                    } else {
                        assert(text_before(before[at].0@, before[i].0@));
                    }
                }
                assert(map.dom().contains(before[i].0@));
            }
        }
        assert forall|seal: Seq<char>| #[trigger] m.dom().contains(seal) implies exists|i: int|
            0 <= i < after.len() && (#[trigger] after[i]).0@ == seal by {
            if seal == new.0@ {
                assert(after[at].0@ == seal);
            } else {
                assert(map.dom().contains(seal));
                let i = choose|i: int| 0 <= i < before.len() && (#[trigger] before[i]).0@ == seal;
                assert(after[i].0@ == seal);
            }
        }
    }
}

proof fn lemma_payment_added(before: Seq<(String, u64)>, at: int, new: (String, u64))
    requires
        payments_ordered(before),
        0 <= at <= before.len(),
        is_seal(new.0@),
        forall|k: int| 0 <= k < at ==> text_before((#[trigger] before[k]).0@, new.0@),
        at < before.len() ==> text_before(new.0@, before[at].0@),
    ensures
        payments_ordered(before.insert(at, new)),
        forall|map: Map<Seq<char>, u64>| #[trigger]
            pays(before, map) ==> pays(before.insert(at, new), map.insert(new.0@, new.1)),
{
    let after = before.insert(at, new);
    assert forall|k: int| at <= k < before.len() implies text_before(
        new.0@,
        (#[trigger] before[k]).0@,
    ) by {
        if k > at {
            lemma_before_transitive(new.0@, before[at].0@, before[k].0@);
        }
    }
    lemma_before_irreflexive(new.0@);
    assert(payments_ordered(after)) by {
        assert forall|i: int| 0 <= i < after.len() implies is_seal((#[trigger] after[i]).0@) by {
            if i < at {
                assert(after[i] == before[i]);
            } else if i > at {
                assert(after[i] == before[i - 1]);
            }
        }
        assert forall|i: int, j: int| 0 <= i < j < after.len() implies text_before(
            (#[trigger] after[i]).0@,
            (#[trigger] after[j]).0@,
        ) by {
            if j < at {
                assert(after[i] == before[i] && after[j] == before[j]);
            } else if j == at {
                assert(after[i] == before[i]);
            } else if i < at {
                assert(after[i] == before[i] && after[j] == before[j - 1]);
            } else if i == at {
                assert(after[j] == before[j - 1]);
            } else {
                assert(after[i] == before[i - 1] && after[j] == before[j - 1]);
            }
        }
    }
    assert forall|map: Map<Seq<char>, u64>| #[trigger] pays(before, map) implies pays(
        after,
        map.insert(new.0@, new.1),
    ) by {
        let m = map.insert(new.0@, new.1);
        assert forall|i: int| 0 <= i < after.len() implies m.dom().contains(
            (#[trigger] after[i]).0@,
        ) && m[after[i].0@] == after[i].1 by {
            if i < at {
                assert(after[i] == before[i]);
                assert(map.dom().contains(before[i].0@));
                assert(text_before(before[i].0@, new.0@));
            } else if i > at {
                assert(after[i] == before[i - 1]);
                assert(map.dom().contains(before[i - 1].0@));
                assert(text_before(new.0@, before[i - 1].0@));
            }
        }
        assert forall|seal: Seq<char>| #[trigger] m.dom().contains(seal) implies exists|i: int|
            0 <= i < after.len() && (#[trigger] after[i]).0@ == seal by {
            if seal == new.0@ {
                assert(after[at].0@ == seal);
            } else {
                assert(map.dom().contains(seal));
                let i = choose|i: int| 0 <= i < before.len() && (#[trigger] before[i]).0@ == seal;
                if i < at {
                    assert(after[i].0@ == seal);
                } else {
                    assert(after[i + 1].0@ == seal);
                }
            }
        }
    }
}

/// Whether a recipient can be paid: its blinded UTXO is not used and can be read.
pub open spec fn payable(records: Records, r: Recipient) -> bool {
    !already_used(records, r.blinded_utxo@) && seal_of_text(r.blinded_utxo@) is Some
}

/// Whether a recipient is the first that cannot be paid.
pub open spec fn first_unpayable(records: Records, recipients: Seq<Recipient>, k: int) -> bool {
    &&& 0 <= k < recipients.len()
    &&& !payable(records, recipients[k])
    &&& forall|i: int| 0 <= i < k ==> payable(records, #[trigger] recipients[i])
}

/// Whether an error tells why the first recipient that cannot be paid cannot.
pub open spec fn tells_unpayable(
    e: WalletError,
    records: Records,
    recipients: Seq<Recipient>,
) -> bool {
    exists|k: int| #[trigger]
        first_unpayable(records, recipients, k) && if already_used(
            records,
            recipients[k].blinded_utxo@,
        ) {
            e is BlindedUTXOAlreadyUsed
        } else {
            e is InvalidBlindedUTXO
        }
}

/// Whether all recipients can be paid.
pub open spec fn all_payable(records: Records, recipients: Seq<Recipient>) -> bool {
    forall|i: int| 0 <= i < recipients.len() ==> payable(records, #[trigger] recipients[i])
}

/// Works out the payments to the recipients of an asset, by the seals of their
/// blinded UTXOs.
///
/// A blinded UTXO must not belong to an earlier transfer, unless that failed.
pub fn get_beneficiaries(records: &Records, recipients: &Vec<Recipient>) -> (r: Result<
    Vec<(String, u64)>,
    WalletError,
>)
    ensures
        r is Ok <==> all_payable(*records, recipients@),
        r matches Ok(payments) ==> {
            &&& payments_ordered(payments@)
            &&& pays(payments@, payment_map(recipients@))
            &&& sum(payment_amounts(payments@)) == paid_total(recipients@)
            &&& payments@.len() <= recipients@.len()
        },
        r matches Err(e) ==> tells_unpayable(e, *records, recipients@),
{
    let failed: Vec<i64> = asset_transfers_with_status(
        &records.asset_transfers,
        &records.batch_transfers,
        TransferStatus::Failed,
    );
    let mut payments: Vec<(String, u64)> = Vec::new();
    let mut i: usize = 0;
    proof {
        assert(recipients@.take(0) =~= Seq::<Recipient>::empty());
        assert(payment_amounts(payments@) =~= Seq::<u64>::empty());
    }
    while i < recipients.len()
        invariant
            i <= recipients.len(),
            forall|id: i64| #[trigger]
                failed@.contains(id) <==> in_batch_with_status(
                    records.asset_transfers@,
                    records.batch_transfers@,
                    id,
                    TransferStatus::Failed,
                ),
            forall|k: int| 0 <= k < i ==> payable(*records, #[trigger] recipients@[k]),
            payments_ordered(payments@),
            pays(payments@, payment_map(recipients@.take(i as int))),
            sum(payment_amounts(payments@)) == paid_total(recipients@.take(i as int)),
            payments@.len() <= i,
        decreases recipients.len() - i,
    {
        let recipient: &Recipient = &recipients[i];
        let used: bool = is_already_used(&records.transfers, &failed, &recipient.blinded_utxo);
        proof {
            lemma_used(*records, failed@, recipient.blinded_utxo@);
        }
        if used {
            assert(first_unpayable(*records, recipients@, i as int));
            return Err(WalletError::BlindedUTXOAlreadyUsed);
        }
        match read_seal(recipient.blinded_utxo.as_str()) {
            Err(e) => {
                assert(first_unpayable(*records, recipients@, i as int));
                return Err(WalletError::InvalidBlindedUTXO(e));
            },
            Ok(seal) => {
                let ghost before = payments@;
                let ghost map = payment_map(recipients@.take(i as int));
                insert_payment(&mut payments, seal, recipient.amount);
                proof {
                    let head = recipients@.take(i as int);
                    let longer = recipients@.take(i + 1);
                    assert(longer.drop_last() =~= head);
                    assert(longer.last() == recipients@[i as int]);
                    assert(pays(before, map));
                }
            },
        }
        i += 1;
    }
    assert(recipients@.take(i as int) =~= recipients@);
    Ok(payments)
}

proof fn lemma_used(records: Records, failed: Seq<i64>, blinded_utxo: Seq<char>)
    requires
        forall|id: i64| #[trigger]
            failed.contains(id) <==> in_batch_with_status(
                records.asset_transfers@,
                records.batch_transfers@,
                id,
                TransferStatus::Failed,
            ),
    ensures
        already_used(records, blinded_utxo) <==> exists|i: int|
            0 <= i < records.transfers@.len() && opt_text(
                (#[trigger] records.transfers@[i]).blinded_utxo,
            ) == Some(blinded_utxo) && !failed.contains(records.transfers@[i].asset_transfer_idx),
{
    if already_used(records, blinded_utxo) {
        let i = choose|i: int|
            0 <= i < records.transfers@.len() && opt_text(
                (#[trigger] records.transfers@[i]).blinded_utxo,
            ) == Some(blinded_utxo) && !in_batch_with_status(
                records.asset_transfers@,
                records.batch_transfers@,
                records.transfers@[i].asset_transfer_idx,
                TransferStatus::Failed,
            );
        assert(!failed.contains(records.transfers@[i].asset_transfer_idx));
    }
}

/// Where no two recipients have one seal, each of them gets its amount.
pub proof fn each_recipient_is_paid(
    payments: Seq<(String, u64)>,
    recipients: Seq<Recipient>,
    k: int,
)
    requires
        pays(payments, payment_map(recipients)),
        0 <= k < recipients.len(),
        forall|i: int, j: int|
            0 <= i < j < recipients.len() ==> seal_of_text((#[trigger] recipients[i]).blinded_utxo@)
                != seal_of_text((#[trigger] recipients[j]).blinded_utxo@),
        forall|i: int|
            0 <= i < recipients.len() ==> seal_of_text((#[trigger] recipients[i]).blinded_utxo@) is Some,
    ensures
        exists|i: int|
            0 <= i < payments.len() && Some((#[trigger] payments[i]).0@) == seal_of_text(
                recipients[k].blinded_utxo@,
            ) && payments[i].1 == recipients[k].amount,
{
    lemma_payment_of(recipients, k);
    let seal = seal_of_text(recipients[k].blinded_utxo@)->0;
    assert(payment_map(recipients).dom().contains(seal));
    let i = choose|i: int| 0 <= i < payments.len() && (#[trigger] payments[i]).0@ == seal;
    assert(payments[i].1 == recipients[k].amount);
}

proof fn lemma_payment_of(recipients: Seq<Recipient>, k: int)
    requires
        0 <= k < recipients.len(),
        forall|i: int, j: int|
            0 <= i < j < recipients.len() ==> seal_of_text((#[trigger] recipients[i]).blinded_utxo@)
                != seal_of_text((#[trigger] recipients[j]).blinded_utxo@),
        forall|i: int|
            0 <= i < recipients.len() ==> seal_of_text((#[trigger] recipients[i]).blinded_utxo@) is Some,
    ensures
        ({
            let seal = seal_of_text(recipients[k].blinded_utxo@)->0;
            payment_map(recipients).dom().contains(seal) && payment_map(recipients)[seal]
                == recipients[k].amount
        }),
    decreases recipients.len(),
{
    let n = recipients.len() - 1;
    if k < n {
        let head = recipients.drop_last();
        assert(head[k] == recipients[k]);
        assert forall|i: int, j: int| 0 <= i < j < head.len() implies seal_of_text(
            (#[trigger] head[i]).blinded_utxo@,
        ) != seal_of_text((#[trigger] head[j]).blinded_utxo@) by {
            assert(head[i] == recipients[i] && head[j] == recipients[j]);
        }
        assert forall|i: int| 0 <= i < head.len() implies seal_of_text(
            (#[trigger] head[i]).blinded_utxo@,
        ) is Some by {
            assert(head[i] == recipients[i]);
        }
        lemma_payment_of(head, k);
        assert(seal_of_text(recipients[k].blinded_utxo@) != seal_of_text(
            recipients[n].blinded_utxo@,
        ));
        assert(seal_of_text(recipients[n].blinded_utxo@) is Some);
    }
}

/// A PSBT in which a transition is noted as the consumer of those of its first
/// inputs that `chosen` picks, if it can be.
pub open spec fn consumed(
    psbt: Seq<u8>,
    inputs: Seq<(Seq<char>, u32)>,
    chosen: spec_fn((Seq<char>, u32)) -> bool,
    contract_id: Seq<char>,
    transition: Seq<u8>,
    n: nat,
) -> Option<Seq<u8>>
    decreases n,
{
    if n == 0 {
        Some(psbt)
    } else {
        match consumed(psbt, inputs, chosen, contract_id, transition, (n - 1) as nat) {
            None => None,
            Some(p) => if chosen(inputs[n - 1]) {
                psbt_with_consumer(p, (n - 1) as usize, contract_id, transition)
            } else {
                Some(p)
            },
        }
    }
}

proof fn lemma_consumed_fails(
    psbt: Seq<u8>,
    inputs: Seq<(Seq<char>, u32)>,
    chosen: spec_fn((Seq<char>, u32)) -> bool,
    contract_id: Seq<char>,
    transition: Seq<u8>,
    n: nat,
    m: nat,
)
    requires
        n <= m,
        consumed(psbt, inputs, chosen, contract_id, transition, n) is None,
    ensures
        consumed(psbt, inputs, chosen, contract_id, transition, m) is None,
    decreases m,
{
    if n < m {
        lemma_consumed_fails(
            psbt,
            inputs,
            chosen,
            contract_id,
            transition,
            n,
            (m - 1) as nat,
        );
    }
}

/// A PSBT with the transition of a transfer: added to it, and noted as the consumer
/// of the inputs that pay. Nothing where it cannot be.
pub open spec fn psbt_with_transfer(
    psbt: Seq<u8>,
    paying: Seq<Outpoint>,
    contract_id: Seq<char>,
    transition: Seq<u8>,
) -> Option<Seq<u8>> {
    match psbt_with_transition(psbt, transition) {
        None => None,
        Some(p) => match psbt_inputs(p) {
            None => None,
            Some(inputs) => consumed(
                p,
                inputs,
                |o: (Seq<char>, u32)| holds_output(paying, o),
                contract_id,
                transition,
                inputs.len(),
            ),
        },
    }
}

/// Puts the transition of a transfer into a PSBT.
pub fn embed_transfer(
    psbt: &Vec<u8>,
    paying: &Vec<Outpoint>,
    contract_id: &String,
    transition: &Vec<u8>,
) -> (r: Result<Vec<u8>, WalletError>)
    requires
        all_valid(paying@),
    ensures
        ({
            let done = psbt_with_transfer(psbt@, paying@, contract_id@, transition@);
            &&& r is Ok <==> done is Some
            &&& r matches Ok(next) ==> done == Some(next@)
            &&& r is Err ==> (r matches Err(WalletError::Internal(InternalError::RgbData)))
        }),
{
    let start: Vec<u8> = match add_transition(psbt, transition) {
        None => {
            return Err(WalletError::Internal(InternalError::RgbData));
        },
        Some(next) => next,
    };
    let inputs: Vec<Outpoint> = match read_inputs(&start) {
        None => {
            return Err(WalletError::Internal(InternalError::RgbData));
        },
        Some(inputs) => inputs,
    };
    let ghost chosen = |o: (Seq<char>, u32)| holds_output(paying@, o);
    let ghost first = start@;
    let ghost all = views(inputs@);
    let mut current: Vec<u8> = start;
    let mut i: usize = 0;
    while i < inputs.len()
        invariant
            i <= inputs.len(),
            all_valid(paying@),
            all_valid(inputs@),
            all == views(inputs@),
            chosen == (|o: (Seq<char>, u32)| holds_output(paying@, o)),
            psbt_with_transition(psbt@, transition@) == Some(first),
            psbt_inputs(first) == Some(all),
            consumed(first, all, chosen, contract_id@, transition@, i as nat) == Some(current@),
        decreases inputs.len() - i,
    {
        assert(is_txid(inputs@[i as int].txid@));
        assert(all[i as int] == inputs@[i as int]@);
        if contains_output(paying, &inputs[i]) {
            match add_consumer(&current, i, contract_id, transition) {
                None => {
                    proof {
                        lemma_consumed_fails(
                            first,
                            all,
                            chosen,
                            contract_id@,
                            transition@,
                            (i + 1) as nat,
                            all.len(),
                        );
                    }
                    return Err(WalletError::Internal(InternalError::RgbData));
                },
                Some(next) => {
                    current = next;
                },
            }
        }
        i += 1;
    }
    Ok(current)
}

/// What the transfer of an asset adds to a PSBT.
#[derive(Debug, PartialEq, Eq)]
pub struct ComposedTransfer {
    /// The PSBT
    pub psbt: Vec<u8>,
    /// The bytes of the seals that receive the asset, in hexadecimal and in their order
    pub endseals: Vec<String>,
}

/// The seals of payments.
pub open spec fn seals_of(payments: Seq<(String, u64)>) -> Seq<String> {
    payments.map_values(|p: (String, u64)| p.0)
}

fn get_seals(payments: &Vec<(String, u64)>) -> (r: Vec<String>)
    ensures
        r@ == seals_of(payments@),
{
    let mut seals: Vec<String> = Vec::new();
    let mut i: usize = 0;
    while i < payments.len()
        invariant
            i <= payments.len(),
            seals@ == seals_of(payments@.take(i as int)),
        decreases payments.len() - i,
    {
        seals.push(payments[i].0.clone());
        i += 1;
        assert(seals@ =~= seals_of(payments@.take(i as int)));
    }
    assert(payments@.take(i as int) =~= payments@);
    seals
}

fn flatten_coins(groups: Vec<Vec<Coin>>) -> (r: Vec<Coin>)
    ensures
        coin_views(r@) == all_coins(coin_group_views(groups@)),
{
    let ghost all = groups@;
    let ghost group_views = coin_group_views(groups@);
    let mut coins: Vec<Coin> = Vec::new();
    proof {
        assert(group_views.take(0) =~= Seq::<Seq<CoinView>>::empty());
        assert(coin_views(coins@) =~= all_coins(group_views.take(0)));
    }
    for group in it: groups.into_iter()
        invariant
            it.seq() == all,
            group_views == coin_group_views(all),
            coin_views(coins@) == all_coins(group_views.take(it.index() as int)),
    {
        let ghost n = it.index() as int;
        let ghost start = coins@;
        let ghost own = group@;
        assert(coin_views(start) + coin_views(own.take(0)) =~= coin_views(start));
        for coin in jt: group.into_iter()
            invariant
                jt.seq() == own,
                coin_views(coins@) == coin_views(start) + coin_views(
                    own.take(jt.index() as int),
                ),
        {
            let ghost k = jt.index() as int;
            let ghost before = coins@;
            let ghost held = (coin.0, coin.1@, (coin.2.0@, coin.2.1));
            coins.push(coin);
            assert(coin_views(coins@) =~= coin_views(before).push(held));
            assert(coin_views(own.take(k + 1)) =~= coin_views(own.take(k)).push(held));
        }
        proof {
            assert(own.take(own.len() as int) =~= own);
            assert(group_views.take(n + 1).drop_last() =~= group_views.take(n));
            assert(group_views.take(n + 1).last() == coin_views(own));
        }
    }
    assert(group_views.take(all.len() as int) =~= group_views);
    coins
}

fn checked_coin_total(coins: &Vec<Coin>) -> (r: Option<u64>)
    ensures
        r is Some <==> sum(coin_amounts(coin_views(coins@))) <= u64::MAX,
        r matches Some(total) ==> total == sum(coin_amounts(coin_views(coins@))),
{
    let mut amounts: Vec<u64> = Vec::new();
    let mut i: usize = 0;
    while i < coins.len()
        invariant
            i <= coins.len(),
            amounts@ == coin_amounts(coin_views(coins@)).take(i as int),
        decreases coins.len() - i,
    {
        amounts.push(coins[i].0);
        i += 1;
        assert(amounts@ =~= coin_amounts(coin_views(coins@)).take(i as int));
    }
    assert(amounts@ =~= coin_amounts(coin_views(coins@)));
    checked_total(&amounts)
}

fn check_blinding(coins: &Vec<Coin>, only_change: bool) -> (r: bool)
    ensures
        r == can_balance(coin_views(coins@), only_change),
{
    let ghost all = coin_views(coins@);
    let mut acc: Scalar = Scalar::zero();
    let mut i: usize = 0;
    proof {
        assert(all.take(0) =~= Seq::<CoinView>::empty());
        lemma_small_mod(0, group_order() as nat);
    }
    while i < coins.len()
        invariant
            i <= coins.len(),
            all == coin_views(coins@),
            forall|k: int| 0 <= k < i ==> is_scalar((#[trigger] all[k]).1),
            0 <= acc.value() < group_order(),
            acc.value() == blinding_sum(all.take(i as int)) % group_order(),
        decreases coins.len() - i,
    {
        assert(all[i as int].1 == coins@[i as int].1@);
        match Scalar::read(&coins[i].1) {
            None => {
                return false;
            },
            Some(factor) => {
                proof {
                    let head = all.take(i as int);
                    assert(all.take(i + 1).drop_last() =~= head);
                    lemma_add_mod_noop(blinding_sum(head), factor.value(), group_order());
                    lemma_small_mod(factor.value() as nat, group_order() as nat);
                    lemma_mod_bound(blinding_sum(head) + factor.value(), group_order());
                }
                acc = acc.plus(&factor);
            },
        }
        i += 1;
    }
    assert(all.take(i as int) =~= all);
    !(only_change && coins.len() > 0 && acc.is_zero())
}

/// Whether coins can be spent in one transition: they can be counted, and the
/// blinding factors can be balanced.
pub open spec fn coins_spendable(groups: Seq<Seq<CoinView>>, only_change: bool) -> bool {
    &&& coin_total(groups) <= u64::MAX
    &&& all_coins(groups).len() <= u16::MAX
    &&& can_balance(all_coins(groups), only_change)
}

fn check_coins(groups: Vec<Vec<Coin>>, only_change: bool) -> (r: bool)
    ensures
        r == coins_spendable(coin_group_views(groups@), only_change),
{
    let coins: Vec<Coin> = flatten_coins(groups);
    assert(coin_views(coins@).len() == coins@.len());
    checked_coin_total(&coins).is_some() && coins.len() <= u16::MAX as usize && check_blinding(
        &coins,
        only_change,
    )
}

/// Fails unless the ID of an asset is that of a contract.
pub fn check_asset_id(asset_id: &String) -> (r: Result<(), WalletError>)
    ensures
        r is Ok <==> is_contract_id(asset_id@),
        r is Err ==> (r matches Err(WalletError::Internal(InternalError::RgbData))),
{
    if check_contract_id(asset_id.as_str()) {
        Ok(())
    } else {
        Err(WalletError::Internal(InternalError::RgbData))
    }
}

/// The coins of an asset that a consignment knows on the inputs of a transfer.
pub open spec fn input_coins(consignment: Seq<u8>, info: InfoAssetTransfer) -> Seq<
    Seq<CoinView>,
> {
    asset_coins(consignment, ordered_outputs(info.asset_spend.input_outpoints@))
}

/// Whether the coins on the inputs of a transfer can be spent and are worth the
/// payments and the change.
pub open spec fn inputs_worth(consignment: Seq<u8>, info: InfoAssetTransfer) -> bool {
    let coins = input_coins(consignment, info);
    is_rgb20(consignment) && coins_spendable(coins, info.recipients@.len() == 0) && coins_worth(
        coins,
        paid_total(info.recipients@) + info.asset_spend.change_amount,
    )
}

fn get_coins(consignment: &Vec<u8>, inputs: &Vec<Outpoint>) -> (r: Vec<Vec<Coin>>)
    requires
        is_rgb20(consignment@),
        all_valid(inputs@),
    ensures
        coin_group_views(r@) == asset_coins(consignment@, canonical_views(inputs@)),
{
    let ghost all = asset_coins(consignment@, canonical_views(inputs@));
    let mut groups: Vec<Vec<Coin>> = Vec::new();
    let mut i: usize = 0;
    while i < inputs.len()
        invariant
            i <= inputs.len(),
            is_rgb20(consignment@),
            all_valid(inputs@),
            all == asset_coins(consignment@, canonical_views(inputs@)),
            coin_group_views(groups@) == all.take(i as int),
        decreases inputs.len() - i,
    {
        let ghost before = groups@;
        assert(is_txid(inputs@[i as int].txid@));
        let group: Vec<Coin> = read_coins(consignment, &inputs[i]);
        let ghost held = coin_views(group@);
        groups.push(group);
        proof {
            assert(held == all[i as int]);
            assert(coin_group_views(groups@) =~= coin_group_views(before).push(held));
            assert(all.take(i + 1) =~= all.take(i as int).push(all[i as int]));
        }
        i += 1;
    }
    assert(all.take(i as int) =~= all);
    groups
}

/// Whether a transition transfers an asset by payments: it pays the recipients, with the
/// change on an output, from the coins on the inputs.
pub open spec fn transfers_asset(
    transition: Seq<u8>,
    payments: Seq<(String, u64)>,
    consignment: Seq<u8>,
    info: InfoAssetTransfer,
    change_utxo: DbTxo,
) -> bool {
    &&& payments_ordered(payments)
    &&& pays(payments, payment_map(info.recipients@))
    &&& sum(payment_amounts(payments)) == paid_total(info.recipients@)
    &&& consumed_rights(transition) == Some(
        rights_to(all_coins(input_coins(consignment, info))),
    )
    &&& value_assignments(transition) == Some(
        transfer_assignments(
            payments,
            change_utxo.outpoint_spec()@,
            info.asset_spend.change_amount,
        ),
    )
}

/// Whether a PSBT and seals come from another PSBT by the transfer of an asset: its
/// contract is added, and a transition that transfers it and that consumes the inputs.
pub open spec fn transfer_composed(
    before: Seq<u8>,
    contract: Seq<u8>,
    consignment: Seq<u8>,
    asset_id: Seq<char>,
    info: InfoAssetTransfer,
    change_utxo: DbTxo,
    after: Seq<u8>,
    endseals: Seq<String>,
) -> bool {
    exists|transition: Seq<u8>, payments: Seq<(String, u64)>|
        {
            &&& #[trigger] transfers_asset(transition, payments, consignment, info, change_utxo)
            &&& endseals == seals_of(payments)
            &&& psbt_with_transfer(
                psbt_with_contract(before, contract)->0,
                info.asset_spend.input_outpoints@,
                asset_id,
                transition,
            ) == Some(after)
        }
}

/// Whether a transition that transfers an asset is refused by a PSBT, once the contract
/// is added to it.
pub open spec fn transition_refused(
    psbt: Seq<u8>,
    contract: Seq<u8>,
    consignment: Seq<u8>,
    asset_id: Seq<char>,
    info: InfoAssetTransfer,
    change_utxo: DbTxo,
) -> bool {
    exists|transition: Seq<u8>, payments: Seq<(String, u64)>|
        {
            &&& #[trigger] transfers_asset(transition, payments, consignment, info, change_utxo)
            &&& psbt_with_transfer(
                psbt_with_contract(psbt, contract)->0,
                info.asset_spend.input_outpoints@,
                asset_id,
                transition,
            ) is None
        }
}

/// Whether an error is the one that putting the transfer of an asset into a PSBT
/// ends with. Where nothing else is amiss, the PSBT refuses the transition, which
/// depends on random blinding factors.
pub open spec fn transfer_refused(
    e: WalletError,
    psbt: Seq<u8>,
    contract: Seq<u8>,
    consignment: Seq<u8>,
    asset_id: Seq<char>,
    info: InfoAssetTransfer,
    records: Records,
    change_utxo: DbTxo,
) -> bool {
    if psbt_with_contract(psbt, contract) is None {
        e matches WalletError::Internal(InternalError::RgbData)
    } else if !all_payable(records, info.recipients@) {
        tells_unpayable(e, records, info.recipients@)
    } else if !inputs_worth(consignment, info) {
        e matches WalletError::Internal(InternalError::InvalidConsignment)
    } else {
        &&& e matches WalletError::Internal(InternalError::RgbData)
        &&& transition_refused(psbt, contract, consignment, asset_id, info, change_utxo)
    }
}

/// Whether the transfer of an asset can be composed: its transaction IDs are valid,
/// and its amounts and recipients can be counted.
pub open spec fn composable(info: InfoAssetTransfer) -> bool {
    &&& all_valid(info.asset_spend.input_outpoints@)
    &&& info.recipients@.len() < u16::MAX
    &&& sum(recipient_amounts(info.recipients@)) + info.asset_spend.change_amount <= u64::MAX
}

/// Puts the transfer of an asset into a PSBT: the contract, and a transition that
/// pays the recipients and returns the change.
///
/// The coins of the asset on the inputs have to be worth the payments and the
/// change, and to be fit to be spent. The transition depends on random blinding factors.
pub fn compose_transfer(
    psbt: &Vec<u8>,
    contract: &Vec<u8>,
    consignment: &Vec<u8>,
    asset_id: &String,
    info: &InfoAssetTransfer,
    records: &Records,
    change_utxo: &DbTxo,
) -> (r: Result<ComposedTransfer, WalletError>)
    requires
        composable(*info),
        is_txid(change_utxo.txid@),
    ensures
        r matches Err(e) ==> transfer_refused(
            e,
            psbt@,
            contract@,
            consignment@,
            asset_id@,
            *info,
            *records,
            *change_utxo,
        ),
        r matches Ok(done) ==> {
            &&& psbt_with_contract(psbt@, contract@) is Some
            &&& all_payable(*records, info.recipients@)
            &&& inputs_worth(consignment@, *info)
            &&& transfer_composed(
                psbt@,
                contract@,
                consignment@,
                asset_id@,
                *info,
                *change_utxo,
                done.psbt@,
                done.endseals@,
            )
        },
{
    let with_contract: Vec<u8> = match add_contract(psbt, contract) {
        None => {
            return Err(WalletError::Internal(InternalError::RgbData));
        },
        Some(next) => next,
    };
    let payments: Vec<(String, u64)> = match get_beneficiaries(records, &info.recipients) {
        Err(e) => {
            return Err(e);
        },
        Ok(payments) => payments,
    };
    let inputs: &Vec<Outpoint> = &info.asset_spend.input_outpoints;
    let change_amount: u64 = info.asset_spend.change_amount;
    proof {
        lemma_paid_at_most(info.recipients@);
        if info.recipients@.len() > 0 {
            let seal = seal_of_text(info.recipients@.last().blinded_utxo@)->0;
            assert(payment_map(info.recipients@).dom().contains(seal));
        }
    }
    if !check_rgb20(consignment) {
        return Err(WalletError::Internal(InternalError::InvalidConsignment));
    }
    let ordered_inputs: Vec<Outpoint> = sort_outpoints(inputs);
    let coins: Vec<Vec<Coin>> = get_coins(consignment, &ordered_inputs);
    if !check_coins(coins, payments.len() == 0) {
        return Err(WalletError::Internal(InternalError::InvalidConsignment));
    }
    let transition: Vec<u8> = match compose_transition(
        consignment,
        &ordered_inputs,
        &payments,
        &change_utxo.outpoint(),
        change_amount,
    ) {
        None => {
            return Err(WalletError::Internal(InternalError::InvalidConsignment));
        },
        Some(transition) => transition,
    };
    assert(transfers_asset(transition@, payments@, consignment@, *info, *change_utxo));
    match embed_transfer(&with_contract, inputs, asset_id, &transition) {
        Err(e) => Err(e),
        Ok(next) => Ok(ComposedTransfer { psbt: next, endseals: get_seals(&payments) }),
    }
}

proof fn lemma_payments_known(payments: Seq<(String, u64)>)
    ensures
        ({
            let list = payments.map_values(
                |p: (String, u64)| (Some(p.0@), None::<Seq<char>>, Some(p.1)),
            );
            list.filter(|a: AssignmentView| a.2 is Some) == list
        }),
    decreases payments.len(),
{
    reveal(Seq::filter);
    let f = |p: (String, u64)| (Some(p.0@), None::<Seq<char>>, Some(p.1));
    let list = payments.map_values(f);
    if payments.len() > 0 {
        lemma_payments_known(payments.drop_last());
        assert(list.drop_last() =~= payments.drop_last().map_values(f));
        assert(list =~= list.drop_last().push(list.last()));
    }
}

/// The transition of a transfer creates and destroys nothing: it consumes the rights to
/// the coins on the inputs, and what it assigns is what these coins are worth.
pub proof fn transfers_create_nothing(
    before: Seq<u8>,
    contract: Seq<u8>,
    consignment: Seq<u8>,
    asset_id: Seq<char>,
    info: InfoAssetTransfer,
    change_utxo: DbTxo,
    after: Seq<u8>,
    endseals: Seq<String>,
)
    requires
        inputs_worth(consignment, info),
        transfer_composed(
            before,
            contract,
            consignment,
            asset_id,
            info,
            change_utxo,
            after,
            endseals,
        ),
    ensures
        exists|transition: Seq<u8>|
            {
                &&& psbt_with_transfer(
                    psbt_with_contract(before, contract)->0,
                    info.asset_spend.input_outpoints@,
                    asset_id,
                    transition,
                ) == Some(after)
                &&& consumed_rights(transition) == Some(
                    rights_to(all_coins(input_coins(consignment, info))),
                )
                &&& #[trigger] value_assignments(transition) matches Some(list) && sum(
                    known_amounts(list),
                ) == coin_total(input_coins(consignment, info))
            },
{
    let (transition, payments) = choose|transition: Seq<u8>, payments: Seq<(String, u64)>|
        {
            &&& #[trigger] transfers_asset(transition, payments, consignment, info, change_utxo)
            &&& endseals == seals_of(payments)
            &&& psbt_with_transfer(
                psbt_with_contract(before, contract)->0,
                info.asset_spend.input_outpoints@,
                asset_id,
                transition,
            ) == Some(after)
        };
    let change_amount = info.asset_spend.change_amount;
    let change = (
        None::<Seq<char>>,
        Some(outpoint_text(canonical(change_utxo.outpoint_spec()@))),
        Some(change_amount),
    );
    let p = |a: AssignmentView| a.2 is Some;
    let head: Seq<AssignmentView> = seq![change];
    let tail = payments.map_values(
        |p: (String, u64)| (Some(p.0@), None::<Seq<char>>, Some(p.1)),
    );
    let list = transfer_assignments(
        payments,
        change_utxo.outpoint_spec()@,
        change_amount,
    );
    assert(list =~= head + tail);
    Seq::filter_distributes_over_add(head, tail, p);
    lemma_payments_known(payments);
    assert(head.filter(p) =~= head) by {
        reveal(Seq::filter);
        assert(head.drop_last() =~= Seq::<AssignmentView>::empty());
        assert(head.drop_last().filter(p) =~= Seq::<AssignmentView>::empty());
    }
    assert(known_amounts(list) =~= seq![change_amount] + payment_amounts(payments));
    crate::seqs::lemma_sum_add(seq![change_amount], payment_amounts(payments));
    assert(seq![change_amount].drop_last() =~= Seq::<u64>::empty());
    assert(sum(seq![change_amount].drop_last()) == 0);
    assert(sum(seq![change_amount]) == change_amount);
}

/// What an RGB node tells of the states of a contract on the inputs of a PSBT.
#[derive(Debug, PartialEq, Eq)]
pub struct ContractState {
    /// ID of the contract
    pub contract_id: String,
    /// The outpoints with states, and these states
    pub states: Vec<(Outpoint, Vec<u8>)>,
}

/// The states of a contract that a transaction would lose unless they move to the
/// change.
#[derive(Debug, PartialEq, Eq)]
pub struct BlankWork {
    /// ID of the contract
    pub contract_id: String,
    /// Whether the contract has to be added to the PSBT
    pub needs_contract: bool,
    /// The outpoints with states, and these states
    pub states: Vec<(Outpoint, Vec<u8>)>,
}

/// Picks the transfer of an asset.
pub open spec fn of_asset(asset_id: Seq<char>) -> spec_fn((String, InfoAssetTransfer)) -> bool {
    |t: (String, InfoAssetTransfer)| t.0@ == asset_id
}

/// What is sent of an asset, if something is.
pub open spec fn info_of(
    transfers: Seq<(String, InfoAssetTransfer)>,
    asset_id: Seq<char>,
) -> Option<InfoAssetTransfer> {
    let found = transfers.filter(of_asset(asset_id));
    if found.len() > 0 {
        Some(found[0].1)
    } else {
        None
    }
}

/// The states that are not on outpoints that pay for a transfer.
pub open spec fn left_over(states: Seq<(Outpoint, Vec<u8>)>, paying: Seq<Outpoint>) -> Seq<
    (Outpoint, Vec<u8>),
> {
    states.filter(|s: (Outpoint, Vec<u8>)| !holds_output(paying, s.0@))
}

/// The states of a contract that have to move to the change: those that are not on
/// outpoints that pay for a transfer of its asset.
pub open spec fn states_to_move(
    transfers: Seq<(String, InfoAssetTransfer)>,
    state: ContractState,
) -> Seq<(Outpoint, Vec<u8>)> {
    match info_of(transfers, state.contract_id@) {
        Some(info) => left_over(state.states@, info.asset_spend.input_outpoints@),
        None => state.states@,
    }
}

/// Whether there is something to do for a contract: its asset is not sent, or states
/// are left over.
pub open spec fn has_work(
    transfers: Seq<(String, InfoAssetTransfer)>,
    state: ContractState,
) -> bool {
    info_of(transfers, state.contract_id@) is None || states_to_move(transfers, state).len() > 0
}

/// Whether work is what has to be done for a contract.
pub open spec fn is_work(
    work: BlankWork,
    transfers: Seq<(String, InfoAssetTransfer)>,
    state: ContractState,
) -> bool {
    &&& work.contract_id@ == state.contract_id@
    &&& work.needs_contract == (info_of(transfers, state.contract_id@) is None)
    &&& work.states@ == states_to_move(transfers, state)
}

/// Whether the transaction IDs of all outpoints with states are valid.
pub open spec fn states_valid(states: Seq<(Outpoint, Vec<u8>)>) -> bool {
    forall|i: int| 0 <= i < states.len() ==> is_txid((#[trigger] states[i]).0.txid@)
}

fn find_info(transfers: &Vec<(String, InfoAssetTransfer)>, asset_id: &String) -> (r: Option<usize>)
    ensures
        match r {
            None => info_of(transfers@, asset_id@) is None,
            Some(i) => i < transfers@.len() && transfers@[i as int].0@ == asset_id@ && info_of(
                transfers@,
                asset_id@,
            ) == Some(transfers@[i as int].1),
        },
{
    let ghost p = of_asset(asset_id@);
    let mut i: usize = 0;
    while i < transfers.len()
        invariant
            i <= transfers.len(),
            p == of_asset(asset_id@),
            forall|k: int| 0 <= k < i ==> !p(#[trigger] transfers@[k]),
        decreases transfers.len() - i,
    {
        if transfers[i].0 == *asset_id {
            proof {
                lemma_first_at(transfers@, p, i as int);
            }
            return Some(i);
        }
        i += 1;
    }
    proof {
        lemma_no_first(transfers@, p);
    }
    None
}

fn keep_left_over(states: Vec<(Outpoint, Vec<u8>)>, paying: &Vec<Outpoint>) -> (r: Vec<
    (Outpoint, Vec<u8>),
>)
    requires
        all_valid(paying@),
        states_valid(states@),
    ensures
        r@ == left_over(states@, paying@),
        states_valid(r@),
{
    let ghost all = states@;
    let ghost p = |s: (Outpoint, Vec<u8>)| !holds_output(paying@, s.0@);
    let mut kept: Vec<(Outpoint, Vec<u8>)> = Vec::new();
    proof {
        lemma_filter_ends(all, p);
    }
    for state in it: states.into_iter()
        invariant
            it.seq() == all,
            all_valid(paying@),
            states_valid(all),
            p == (|s: (Outpoint, Vec<u8>)| !holds_output(paying@, s.0@)),
            kept@ == all.take(it.index() as int).filter(p),
            states_valid(kept@),
    {
        proof {
            lemma_filter_step(all, p, it.index() as int);
            assert(is_txid(all[it.index() as int].0.txid@));
        }
        if !contains_output(paying, &state.0) {
            let ghost before = kept@;
            kept.push(state);
            assert forall|k: int| 0 <= k < kept@.len() implies is_txid(
                (#[trigger] kept@[k]).0.txid@,
            ) by {
                if k < before.len() {
                    assert(kept@[k] == before[k]);
                }
            }
        }
    }
    proof {
        lemma_filter_ends(all, p);
    }
    kept
}

/// Tells which states of a contract have to move to the change. Those of an asset
/// that is sent stay out where they are on the outpoints that pay for it, and there
/// is nothing to do where no other is left. The contract of an asset that is sent
/// is already in the PSBT.
pub fn plan_blank(
    transfer_info_map: &Vec<(String, InfoAssetTransfer)>,
    state: ContractState,
) -> (r: Option<BlankWork>)
    requires
        states_valid(state.states@),
        info_of(transfer_info_map@, state.contract_id@) matches Some(info) ==> all_valid(
            info.asset_spend.input_outpoints@,
        ),
    ensures
        r is Some <==> has_work(transfer_info_map@, state),
        r matches Some(work) ==> is_work(work, transfer_info_map@, state) && states_valid(
            work.states@,
        ),
{
    match find_info(transfer_info_map, &state.contract_id) {
        Some(i) => {
            let states: Vec<(Outpoint, Vec<u8>)> = keep_left_over(
                state.states,
                &transfer_info_map[i].1.asset_spend.input_outpoints,
            );
            if states.len() == 0 {
                return None;
            }
            Some(BlankWork { contract_id: state.contract_id, needs_contract: false, states })
        },
        None => Some(
            BlankWork {
                contract_id: state.contract_id,
                needs_contract: true,
                states: state.states,
            },
        ),
    }
}

/// Picks an output of a transaction.
pub open spec fn output_at(txid: Seq<char>, vout: u16) -> spec_fn((Seq<char>, u32)) -> bool {
    |o: (Seq<char>, u32)| o.0 == txid && o.1 == vout
}

/// A PSBT in which a transition is noted as the consumer of the inputs that are
/// one of the first given outputs of a transaction, if it can be.
pub open spec fn outputs_consumed(
    psbt: Seq<u8>,
    inputs: Seq<(Seq<char>, u32)>,
    txid: Seq<char>,
    outputs: Seq<u16>,
    contract_id: Seq<char>,
    transition: Seq<u8>,
    n: nat,
) -> Option<Seq<u8>>
    decreases n,
{
    if n == 0 {
        Some(psbt)
    } else {
        match outputs_consumed(
            psbt,
            inputs,
            txid,
            outputs,
            contract_id,
            transition,
            (n - 1) as nat,
        ) {
            None => None,
            Some(p) => consumed(
                p,
                inputs,
                output_at(txid, outputs[n - 1]),
                contract_id,
                transition,
                inputs.len(),
            ),
        }
    }
}

/// What putting a transition into a PSBT leads to.
pub enum Embedded {
    /// The PSBT
    Done(Seq<u8>),
    /// The data do not fit together
    Refused,
    /// The transition has no seal with a transaction
    NoSeal,
}

/// What putting a blank transition into a PSBT leads to: it is added, and noted as
/// the consumer of the inputs that are its outputs of the transaction of its last
/// seal.
pub open spec fn psbt_with_blank(
    psbt: Seq<u8>,
    inputs: Seq<(Seq<char>, u32)>,
    contract_id: Seq<char>,
    transition: Seq<u8>,
    outputs: Seq<u16>,
) -> Embedded {
    match psbt_with_transition(psbt, transition) {
        None => Embedded::Refused,
        Some(p) => match last_seal_txid(transition) {
            None => Embedded::Refused,
            Some(None) => Embedded::NoSeal,
            Some(Some(txid)) => match outputs_consumed(
                p,
                inputs,
                txid,
                outputs,
                contract_id,
                transition,
                outputs.len(),
            ) {
                None => Embedded::Refused,
                Some(q) => Embedded::Done(q),
            },
        },
    }
}

/// What putting the first of a list of blank transitions into a PSBT leads to.
pub open spec fn psbt_with_blanks(
    psbt: Seq<u8>,
    inputs: Seq<(Seq<char>, u32)>,
    contract_id: Seq<char>,
    blanks: Seq<(Vec<u8>, Vec<u16>)>,
    n: nat,
) -> Embedded
    decreases n,
{
    if n == 0 {
        Embedded::Done(psbt)
    } else {
        match psbt_with_blanks(psbt, inputs, contract_id, blanks, (n - 1) as nat) {
            Embedded::Done(p) => psbt_with_blank(
                p,
                inputs,
                contract_id,
                blanks[n - 1].0@,
                blanks[n - 1].1@,
            ),
            other => other,
        }
    }
}

proof fn lemma_outputs_fail(
    psbt: Seq<u8>,
    inputs: Seq<(Seq<char>, u32)>,
    txid: Seq<char>,
    outputs: Seq<u16>,
    contract_id: Seq<char>,
    transition: Seq<u8>,
    n: nat,
    m: nat,
)
    requires
        n <= m,
        outputs_consumed(psbt, inputs, txid, outputs, contract_id, transition, n) is None,
    ensures
        outputs_consumed(psbt, inputs, txid, outputs, contract_id, transition, m) is None,
    decreases m,
{
    if n < m {
        lemma_outputs_fail(
            psbt,
            inputs,
            txid,
            outputs,
            contract_id,
            transition,
            n,
            (m - 1) as nat,
        );
    }
}

proof fn lemma_blanks_fail(
    psbt: Seq<u8>,
    inputs: Seq<(Seq<char>, u32)>,
    contract_id: Seq<char>,
    blanks: Seq<(Vec<u8>, Vec<u16>)>,
    n: nat,
    m: nat,
)
    requires
        n <= m,
        !(psbt_with_blanks(psbt, inputs, contract_id, blanks, n) is Done),
    ensures
        psbt_with_blanks(psbt, inputs, contract_id, blanks, m) == psbt_with_blanks(
            psbt,
            inputs,
            contract_id,
            blanks,
            n,
        ),
    decreases m,
{
    if n < m {
        lemma_blanks_fail(psbt, inputs, contract_id, blanks, n, (m - 1) as nat);
    }
}

fn consume_output(
    psbt: Vec<u8>,
    inputs: &Vec<Outpoint>,
    txid: &String,
    vout: u16,
    contract_id: &String,
    transition: &Vec<u8>,
) -> (r: Option<Vec<u8>>)
    ensures
        ({
            let all = views(inputs@);
            let done = consumed(
                psbt@,
                all,
                output_at(txid@, vout),
                contract_id@,
                transition@,
                all.len(),
            );
            match r {
                None => done is None,
                Some(next) => done == Some(next@),
            }
        }),
{
    let ghost chosen = output_at(txid@, vout);
    let ghost first = psbt@;
    let ghost all = views(inputs@);
    let mut current: Vec<u8> = psbt;
    let mut i: usize = 0;
    while i < inputs.len()
        invariant
            i <= inputs.len(),
            all == views(inputs@),
            chosen == output_at(txid@, vout),
            first == psbt@,
            consumed(first, all, chosen, contract_id@, transition@, i as nat) == Some(current@),
        decreases inputs.len() - i,
    {
        assert(all[i as int] == inputs@[i as int]@);
        if inputs[i].txid == *txid && inputs[i].vout == vout as u32 {
            match add_consumer(&current, i, contract_id, transition) {
                None => {
                    proof {
                        lemma_consumed_fails(
                            first,
                            all,
                            chosen,
                            contract_id@,
                            transition@,
                            (i + 1) as nat,
                            all.len(),
                        );
                    }
                    return None;
                },
                Some(next) => {
                    current = next;
                },
            }
        }
        i += 1;
    }
    Some(current)
}

fn embed_blank(
    psbt: &Vec<u8>,
    inputs: &Vec<Outpoint>,
    contract_id: &String,
    transition: &Vec<u8>,
    outputs: &Vec<u16>,
) -> (r: Result<Vec<u8>, WalletError>)
    ensures
        embedding_told(
            r,
            psbt_with_blank(psbt@, views(inputs@), contract_id@, transition@, outputs@),
        ),
{
    let start: Vec<u8> = match add_transition(psbt, transition) {
        None => {
            return Err(WalletError::Internal(InternalError::RgbData));
        },
        Some(next) => next,
    };
    let txid: String = match read_last_seal(transition) {
        None => {
            return Err(WalletError::Internal(InternalError::RgbData));
        },
        Some(None) => {
            return Err(WalletError::Internal(InternalError::Unexpected));
        },
        Some(Some(txid)) => txid,
    };
    let ghost first = start@;
    let ghost all = views(inputs@);
    let mut current: Vec<u8> = start;
    let mut i: usize = 0;
    while i < outputs.len()
        invariant
            i <= outputs.len(),
            all == views(inputs@),
            psbt_with_transition(psbt@, transition@) == Some(first),
            last_seal_txid(transition@) == Some(Some(txid@)),
            outputs_consumed(first, all, txid@, outputs@, contract_id@, transition@, i as nat)
                == Some(current@),
        decreases outputs.len() - i,
    {
        let ghost before = current@;
        let vout: u16 = outputs[i];
        match consume_output(current, inputs, &txid, vout, contract_id, transition) {
            None => {
                proof {
                    let n = (i + 1) as nat;
                    assert(outputs@[n - 1] == vout);
                    assert(outputs_consumed(
                        first,
                        all,
                        txid@,
                        outputs@,
                        contract_id@,
                        transition@,
                        n,
                    ) is None);
                    lemma_outputs_fail(
                        first,
                        all,
                        txid@,
                        outputs@,
                        contract_id@,
                        transition@,
                        n,
                        outputs@.len(),
                    );
                }
                return Err(WalletError::Internal(InternalError::RgbData));
            },
            Some(next) => {
                current = next;
                assert(outputs@[(i + 1) - 1] == vout);
            },
        }
        i += 1;
    }
    Ok(current)
}

/// Whether a result tells what putting transitions into a PSBT leads to.
pub open spec fn embedding_told(r: Result<Vec<u8>, WalletError>, done: Embedded) -> bool {
    match done {
        Embedded::Done(psbt) => r matches Ok(next) && next@ == psbt,
        Embedded::Refused => r matches Err(WalletError::Internal(InternalError::RgbData)),
        Embedded::NoSeal => r matches Err(WalletError::Internal(InternalError::Unexpected)),
    }
}

/// Puts blank transitions into a PSBT.
pub fn embed_blanks(
    psbt: &Vec<u8>,
    inputs: &Vec<Outpoint>,
    contract_id: &String,
    blanks: &Vec<(Vec<u8>, Vec<u16>)>,
) -> (r: Result<Vec<u8>, WalletError>)
    ensures
        embedding_told(
            r,
            psbt_with_blanks(psbt@, views(inputs@), contract_id@, blanks@, blanks@.len()),
        ),
{
    let ghost all = views(inputs@);
    let mut current: Vec<u8> = Vec::new();
    let mut i: usize = 0;
    while i < blanks.len()
        invariant
            i <= blanks.len(),
            all == views(inputs@),
            i > 0 ==> psbt_with_blanks(psbt@, all, contract_id@, blanks@, i as nat)
                == Embedded::Done(current@),
        decreases blanks.len() - i,
    {
        let start: &Vec<u8> = if i == 0 {
            psbt
        } else {
            &current
        };
        assert(psbt_with_blanks(psbt@, all, contract_id@, blanks@, i as nat) == Embedded::Done(
            start@,
        ));
        match embed_blank(start, inputs, contract_id, &blanks[i].0, &blanks[i].1) {
            Err(e) => {
                proof {
                    let n = (i + 1) as nat;
                    lemma_blanks_fail(psbt@, all, contract_id@, blanks@, n, blanks@.len());
                }
                return Err(e);
            },
            Ok(next) => {
                current = next;
            },
        }
        i += 1;
    }
    if blanks.len() == 0 {
        Ok(copy_bytes(psbt))
    } else {
        Ok(current)
    }
}

fn copy_bytes(bytes: &Vec<u8>) -> (r: Vec<u8>)
    ensures
        r@ == bytes@,
{
    let r: Vec<u8> = bytes.clone();
    assert(r@ =~= bytes@);
    r
}

/// The known amounts of assignments.
pub open spec fn known_amounts(assignments: Seq<AssignmentView>) -> Seq<u64> {
    assignments.filter(|a: AssignmentView| a.2 is Some).map_values(|a: AssignmentView| a.2->0)
}

/// The amount that the first of a list of blank transitions move. Nothing where one
/// cannot be read.
pub open spec fn moved_amount(blanks: Seq<(Vec<u8>, Vec<u16>)>, n: nat) -> Option<nat>
    decreases n,
{
    if n == 0 {
        Some(0)
    } else {
        match (moved_amount(blanks, (n - 1) as nat), value_assignments(blanks[n - 1].0@)) {
            (Some(before), Some(list)) => Some(before + sum(known_amounts(list))),
            _ => None,
        }
    }
}

fn add_known(start: u64, assignments: &Vec<ValueAssignment>) -> (r: Option<u64>)
    ensures
        r is Some <==> start + sum(known_amounts(assignment_views(assignments@))) <= u64::MAX,
        r matches Some(total) ==> total == start + sum(
            known_amounts(assignment_views(assignments@)),
        ),
{
    let ghost p = |a: AssignmentView| a.2 is Some;
    let ghost f = |a: AssignmentView| a.2->0;
    let ghost all = assignment_views(assignments@);
    let mut acc: u64 = start;
    let mut i: usize = 0;
    proof {
        lemma_filter_ends(all, p);
        assert(all.take(0).filter(p).map_values(f) =~= Seq::<u64>::empty());
    }
    while i < assignments.len()
        invariant
            i <= assignments.len(),
            p == (|a: AssignmentView| a.2 is Some),
            f == (|a: AssignmentView| a.2->0),
            all == assignment_views(assignments@),
            acc == start + sum(all.take(i as int).filter(p).map_values(f)),
        decreases assignments.len() - i,
    {
        proof {
            assert(all[i as int] == assignment_view(assignments@[i as int]));
            lemma_filter_step(all, p, i as int);
            lemma_filter_prefix(all, p, i + 1);
            let whole = all.filter(p).map_values(f);
            let part = all.take(i + 1).filter(p).map_values(f);
            assert(whole.take(part.len() as int) =~= part);
            lemma_sum_prefix(whole, part.len() as int);
            if p(all[i as int]) {
                assert(part.drop_last() =~= all.take(i as int).filter(p).map_values(f));
            }
        }
        match assignments[i].2 {
            Some(a) => match acc.checked_add(a) {
                None => {
                    return None;
                },
                Some(next) => {
                    acc = next;
                },
            },
            None => {},
        }
        i += 1;
    }
    proof {
        lemma_filter_ends(all, p);
    }
    Some(acc)
}

proof fn lemma_moved_grows(blanks: Seq<(Vec<u8>, Vec<u16>)>, n: nat, m: nat)
    requires
        n <= m,
    ensures
        moved_amount(blanks, m) is Some ==> moved_amount(blanks, n) is Some,
        moved_amount(blanks, m) matches Some(total) ==> moved_amount(blanks, n)->0 <= total,
    decreases m,
{
    if n < m {
        lemma_moved_grows(blanks, n, (m - 1) as nat);
    }
}

/// Adds up what blank transitions move, if they can be read and the sum fits.
pub fn get_moved_amount(blanks: &Vec<(Vec<u8>, Vec<u16>)>) -> (r: Option<u64>)
    ensures
        r is Some <==> (moved_amount(blanks@, blanks@.len()) matches Some(n) && n <= u64::MAX),
        r matches Some(total) ==> moved_amount(blanks@, blanks@.len()) == Some(total as nat),
{
    let mut acc: u64 = 0;
    let mut i: usize = 0;
    while i < blanks.len()
        invariant
            i <= blanks.len(),
            moved_amount(blanks@, i as nat) == Some(acc as nat),
        decreases blanks.len() - i,
    {
        proof {
            lemma_moved_grows(blanks@, (i + 1) as nat, blanks@.len());
        }
        match read_assignments(&blanks[i].0) {
            None => {
                return None;
            },
            Some(list) => match add_known(acc, &list) {
                None => {
                    return None;
                },
                Some(next) => {
                    acc = next;
                },
            },
        }
        i += 1;
    }
    Some(acc)
}

/// What moving the states of a contract to the change leads to.
#[derive(Debug, PartialEq, Eq)]
pub struct MovedStates {
    /// The PSBT
    pub psbt: Vec<u8>,
    /// The amount of the asset that moves
    pub amount: u64,
}

/// Puts given blank transitions of a contract into a PSBT and adds up what they
/// move.
pub fn record_blank_moves(
    psbt: &Vec<u8>,
    inputs: &Vec<Outpoint>,
    contract_id: &String,
    blanks: &Vec<(Vec<u8>, Vec<u16>)>,
) -> (r: Result<MovedStates, WalletError>)
    ensures
        ({
            let done = psbt_with_blanks(
                psbt@,
                views(inputs@),
                contract_id@,
                blanks@,
                blanks@.len(),
            );
            let amount = moved_amount(blanks@, blanks@.len());
            let fits = amount is Some && amount->0 <= u64::MAX;
            &&& r is Ok <==> done is Done && fits
            &&& r matches Ok(moved) ==> done == Embedded::Done(moved.psbt@) && amount == Some(
                moved.amount as nat,
            )
            &&& (r matches Err(WalletError::Internal(InternalError::RgbData))) <==> done is Refused
            &&& (r matches Err(WalletError::Internal(InternalError::Unexpected)))
                <==> done is NoSeal || (done is Done && !fits)
        }),
{
    match embed_blanks(psbt, inputs, contract_id, blanks) {
        Err(e) => Err(e),
        Ok(next) => match get_moved_amount(blanks) {
            None => Err(WalletError::Internal(InternalError::Unexpected)),
            Some(amount) => Ok(MovedStates { psbt: next, amount }),
        },
    }
}

/// A PSBT with a contract added to it, where there is one to add.
pub open spec fn psbt_with_optional_contract(psbt: Seq<u8>, contract: Option<Vec<u8>>) -> Option<
    Seq<u8>,
> {
    match contract {
        Some(c) => psbt_with_contract(psbt, c@),
        None => Some(psbt),
    }
}

/// Whether blank transitions move the states of a contract to an output: each of them
/// moves what is on one outpoint. An outpoint that stands alone among them has its
/// transition. Where all of them do, each has one, and what moves is all that leaves them.
pub open spec fn blanks_move(
    blanks: Seq<(Vec<u8>, Vec<u16>)>,
    states: Seq<(Outpoint, Vec<u8>)>,
    target: (Seq<char>, u32),
) -> bool {
    &&& 0 < blanks.len() <= states.len()
    &&& all_move(blanks, states, target)
    &&& all_covered(blanks, states, target)
    &&& all_alone(states) ==> blanks.len() == states.len() && moved_amount(blanks, blanks.len())
        == Some(sum(amounts_leaving(states)))
}

/// Whether a PSBT and an amount come from another PSBT by moving the states of a
/// contract to an output: its contract is added where it has to be, and blank
/// transitions that move them.
pub open spec fn states_moved(
    before: Seq<u8>,
    inputs: Seq<Outpoint>,
    work: BlankWork,
    contract: Option<Vec<u8>>,
    change_utxo: DbTxo,
    after: Seq<u8>,
    amount: u64,
) -> bool {
    exists|blanks: Seq<(Vec<u8>, Vec<u16>)>|
        {
            &&& #[trigger] blanks_move(
                blanks,
                work.states@,
                canonical(change_utxo.outpoint_spec()@),
            )
            &&& psbt_with_blanks(
                psbt_with_optional_contract(before, contract)->0,
                views(inputs),
                work.contract_id@,
                blanks,
                blanks.len(),
            ) == Embedded::Done(after)
            &&& moved_amount(blanks, blanks.len()) == Some(amount as nat)
        }
}

/// Whether an error is the one with which a PSBT, once the contract is added to it where
/// it has to be, refuses blank transitions that move the states of a contract.
pub open spec fn blanks_refused(
    e: WalletError,
    psbt: Seq<u8>,
    inputs: Seq<Outpoint>,
    work: BlankWork,
    contract: Option<Vec<u8>>,
    change_utxo: DbTxo,
) -> bool {
    exists|blanks: Seq<(Vec<u8>, Vec<u16>)>|
        {
            let done = psbt_with_blanks(
                psbt_with_optional_contract(psbt, contract)->0,
                views(inputs),
                work.contract_id@,
                blanks,
                blanks.len(),
            );
            let amount = moved_amount(blanks, blanks.len());
            &&& #[trigger] blanks_move(
                blanks,
                work.states@,
                canonical(change_utxo.outpoint_spec()@),
            )
            &&& match done {
                Embedded::Refused => e matches WalletError::Internal(InternalError::RgbData),
                Embedded::NoSeal => e matches WalletError::Internal(InternalError::Unexpected),
                Embedded::Done(_) => {
                    &&& e matches WalletError::Internal(InternalError::Unexpected)
                    &&& amount is None || amount->0 > u64::MAX
                },
            }
        }
}

/// Whether an error is the one that moving the states of a contract ends with. Where the
/// contract can be added and the states can move, the PSBT refuses the transitions, which
/// depend on random blinding factors, or the amount is too large.
pub open spec fn states_refused(
    e: WalletError,
    psbt: Seq<u8>,
    inputs: Seq<Outpoint>,
    work: BlankWork,
    contract: Option<Vec<u8>>,
    change_utxo: DbTxo,
) -> bool {
    if psbt_with_optional_contract(psbt, contract) is None || !can_move(work.states@) {
        e matches WalletError::Internal(InternalError::RgbData)
    } else {
        blanks_refused(e, psbt, inputs, work, contract, change_utxo)
    }
}

/// Whether a blank transition moves what is on one of the outpoints with states.
pub open spec fn one_moves(
    blank: (Vec<u8>, Vec<u16>),
    state: (Outpoint, Vec<u8>),
    target: (Seq<char>, u32),
) -> bool {
    moves(blank.0@, blank.1@, state.0@, states_on(state.1@)->0, target)
}

/// Whether each of a list of blank transitions moves what is on one of the outpoints
/// with states.
pub open spec fn all_move(
    blanks: Seq<(Vec<u8>, Vec<u16>)>,
    states: Seq<(Outpoint, Vec<u8>)>,
    target: (Seq<char>, u32),
) -> bool {
    forall|i: int|
        0 <= i < blanks.len() ==> exists|j: int|
            0 <= j < states.len() && one_moves(#[trigger] blanks[i], #[trigger] states[j], target)
}

/// Whether a blank transition of a list moves what is on an outpoint with states.
pub open spec fn is_covered(
    blanks: Seq<(Vec<u8>, Vec<u16>)>,
    state: (Outpoint, Vec<u8>),
    target: (Seq<char>, u32),
) -> bool {
    exists|i: int| 0 <= i < blanks.len() && one_moves(#[trigger] blanks[i], state, target)
}

/// Whether what is on each outpoint that stands alone is moved by a blank transition.
pub open spec fn all_covered(
    blanks: Seq<(Vec<u8>, Vec<u16>)>,
    states: Seq<(Outpoint, Vec<u8>)>,
    target: (Seq<char>, u32),
) -> bool {
    forall|j: int|
        0 <= j < states.len() && #[trigger] stands_alone(states, j) ==> is_covered(
            blanks,
            states[j],
            target,
        )
}

/// Whether states can move: there are some, and all of them are of the right to own
/// an RGB20 asset.
pub open spec fn can_move(states: Seq<(Outpoint, Vec<u8>)>) -> bool {
    &&& states.len() > 0
    &&& forall|j: int| 0 <= j < states.len() ==> movable(states_on((#[trigger] states[j]).1@))
}

fn is_movable(states: &Vec<u8>) -> (r: bool)
    ensures
        r == movable(states_on(states@)),
{
    let list: Vec<OwnedState> = match read_states(states) {
        None => {
            return false;
        },
        Some(list) => list,
    };
    let ghost all = state_views(list@);
    let mut k: usize = 0;
    while k < list.len()
        invariant
            k <= list.len(),
            all == state_views(list@),
            states_on(states@) == Some(all),
            forall|m: int| 0 <= m < k ==> (#[trigger] all[m]).0.1 == RIGHT_ASSETS,
        decreases list.len() - k,
    {
        assert(all[k as int].0.1 == list@[k as int].0.1);
        if list[k].0.1 != RIGHT_ASSETS {
            assert((states_on(states@)->0)[k as int].0.1 != RIGHT_ASSETS);
            return false;
        }
        k += 1;
    }
    true
}

fn check_states(states: &Vec<(Outpoint, Vec<u8>)>) -> (r: bool)
    ensures
        r == can_move(states@),
{
    let mut j: usize = 0;
    while j < states.len()
        invariant
            j <= states.len(),
            forall|m: int|
                0 <= m < j ==> movable(states_on((#[trigger] states@[m]).1@)),
        decreases states.len() - j,
    {
        if !is_movable(&states[j].1) {
            assert(!movable(states_on(states@[j as int].1@)));
            return false;
        }
        j += 1;
    }
    states.len() > 0
}

/// Moves the states of a contract to the change: adds the contract where it has to
/// be added, and the blank transitions that an outside library composes.
///
/// The transitions depend on random blinding factors.
pub fn move_states(
    psbt: &Vec<u8>,
    inputs: &Vec<Outpoint>,
    work: &BlankWork,
    contract: &Option<Vec<u8>>,
    change_utxo: &DbTxo,
) -> (r: Result<MovedStates, WalletError>)
    requires
        states_valid(work.states@),
        is_txid(change_utxo.txid@),
        contract is Some <==> work.needs_contract,
    ensures
        r matches Err(e) ==> states_refused(
            e,
            psbt@,
            inputs@,
            *work,
            *contract,
            *change_utxo,
        ),
        r matches Ok(moved) ==> {
            &&& psbt_with_optional_contract(psbt@, *contract) is Some
            &&& can_move(work.states@)
            &&& states_moved(
                psbt@,
                inputs@,
                *work,
                *contract,
                *change_utxo,
                moved.psbt@,
                moved.amount,
            )
        },
{
    let with_contract: Option<Vec<u8>> = match contract {
        Some(c) => match add_contract(psbt, c) {
            None => {
                return Err(WalletError::Internal(InternalError::RgbData));
            },
            Some(next) => Some(next),
        },
        None => None,
    };
    let start: &Vec<u8> = match &with_contract {
        Some(next) => next,
        None => psbt,
    };
    if !check_states(&work.states) {
        return Err(WalletError::Internal(InternalError::RgbData));
    }
    proof {
        assert forall|j: int| 0 <= j < work.states@.len() implies is_txid(
            (#[trigger] work.states@[j]).0.txid@,
        ) && movable(states_on(work.states@[j].1@)) by {}
    }
    let blanks: Vec<(Vec<u8>, Vec<u16>)> = compose_blank(&work.states, &change_utxo.outpoint());
    let r: Result<MovedStates, WalletError> = record_blank_moves(
        start,
        inputs,
        &work.contract_id,
        &blanks,
    );
    proof {
        let first = psbt_with_optional_contract(psbt@, *contract);
        let list = blanks@;
        let target = canonical(change_utxo.outpoint_spec()@);
        assert(first == Some(start@));
        assert(all_move(list, work.states@, target)) by {
            assert forall|i: int| 0 <= i < list.len() implies exists|j: int|
                0 <= j < work.states@.len() && one_moves(
                    #[trigger] list[i],
                    #[trigger] work.states@[j],
                    target,
                ) by {
                let j = choose|j: int|
                    0 <= j < work.states@.len() && moves(
                        list[i].0@,
                        list[i].1@,
                        (#[trigger] work.states@[j]).0@,
                        states_on(work.states@[j].1@)->0,
                        target,
                    );
                assert(one_moves(list[i], work.states@[j], target));
            }
        }
        assert(all_covered(list, work.states@, target)) by {
            assert forall|j: int|
                0 <= j < work.states@.len() && #[trigger] stands_alone(
                    work.states@,
                    j,
                ) implies is_covered(list, work.states@[j], target) by {
                let i = choose|i: int|
                    0 <= i < list.len() && moves(
                        (#[trigger] list[i]).0@,
                        list[i].1@,
                        work.states@[j].0@,
                        states_on(work.states@[j].1@)->0,
                        target,
                    );
                assert(one_moves(list[i], work.states@[j], target));
            }
        }
        if all_alone(work.states@) {
            lemma_all_leaves(list, work.states@, target);
        }
        assert(blanks_move(list, work.states@, target));
    }
    r
}

/// The amount that moves away from an outpoint with states.
pub open spec fn amount_leaving(state: (Outpoint, Vec<u8>)) -> u64 {
    match amount_moved(states_on(state.1@)->0) {
        Some(amount) => amount,
        None => 0,
    }
}

/// The amounts that move away from outpoints with states.
pub open spec fn amounts_leaving(states: Seq<(Outpoint, Vec<u8>)>) -> Seq<u64> {
    states.map_values(|s: (Outpoint, Vec<u8>)| amount_leaving(s))
}

/// The chosen ones of a list of amounts.
pub open spec fn chosen_amounts(amounts: Seq<u64>, chosen: Seq<int>) -> Seq<u64> {
    chosen.map_values(|k: int| amounts[k])
}

proof fn lemma_all_leaves(
    blanks: Seq<(Vec<u8>, Vec<u16>)>,
    states: Seq<(Outpoint, Vec<u8>)>,
    target: (Seq<char>, u32),
)
    requires
        all_alone(states),
        blanks.len() == states.len(),
        all_move(blanks, states, target),
        all_covered(blanks, states, target),
    ensures
        moved_amount(blanks, blanks.len()) == Some(sum(amounts_leaving(states))),
{
    let n = blanks.len();
    let chosen = lemma_leaving(blanks, states, target, n);
    assert forall|j: int| 0 <= j < states.len() implies chosen.contains(j) by {
        assert(stands_alone(states, j));
        assert(is_covered(blanks, states[j], target));
        let i = choose|i: int|
            0 <= i < blanks.len() && one_moves(#[trigger] blanks[i], states[j], target);
        let k = chosen[i];
        assert(one_moves(blanks[i], states[k], target));
        if k != j {
            assert(state_rights(states_on(states[k].1@)->0) != state_rights(
                states_on(states[j].1@)->0,
            ));
        }
        assert(chosen[i] == j);
    }
    lemma_sum_reordered(amounts_leaving(states), chosen);
}

/// What is noted as moved to the change is on the outpoints with states: each blank
/// transition moves what leaves one of them.
pub proof fn moved_amounts_are_on_the_inputs(
    before: Seq<u8>,
    inputs: Seq<Outpoint>,
    work: BlankWork,
    contract: Option<Vec<u8>>,
    change_utxo: DbTxo,
    after: Seq<u8>,
    amount: u64,
)
    requires
        states_moved(before, inputs, work, contract, change_utxo, after, amount),
    ensures
        exists|chosen: Seq<int>|
            {
                &&& 0 < chosen.len() <= work.states@.len()
                &&& forall|k: int|
                    0 <= k < chosen.len() ==> 0 <= #[trigger] chosen[k] < work.states@.len()
                &&& sum(#[trigger] chosen_amounts(amounts_leaving(work.states@), chosen)) == amount
            },
{
    let target = canonical(change_utxo.outpoint_spec()@);
    let blanks = choose|blanks: Seq<(Vec<u8>, Vec<u16>)>|
        {
            &&& #[trigger] blanks_move(blanks, work.states@, target)
            &&& psbt_with_blanks(
                psbt_with_optional_contract(before, contract)->0,
                views(inputs),
                work.contract_id@,
                blanks,
                blanks.len(),
            ) == Embedded::Done(after)
            &&& moved_amount(blanks, blanks.len()) == Some(amount as nat)
        };
    let chosen = lemma_leaving(blanks, work.states@, target, blanks.len());
    assert(sum(chosen_amounts(amounts_leaving(work.states@), chosen)) == amount);
}

proof fn lemma_leaving(
    blanks: Seq<(Vec<u8>, Vec<u16>)>,
    states: Seq<(Outpoint, Vec<u8>)>,
    target: (Seq<char>, u32),
    n: nat,
) -> (chosen: Seq<int>)
    requires
        n <= blanks.len(),
        all_move(blanks, states, target),
    ensures
        chosen.len() == n,
        forall|k: int|
            0 <= k < n ==> 0 <= #[trigger] chosen[k] < states.len() && one_moves(
                blanks[k],
                states[chosen[k]],
                target,
            ),
        moved_amount(blanks, n) == Some(sum(chosen_amounts(amounts_leaving(states), chosen))),
    decreases n,
{
    if n == 0 {
        assert(chosen_amounts(amounts_leaving(states), Seq::empty()) =~= Seq::<u64>::empty());
        Seq::empty()
    } else {
        let head = lemma_leaving(blanks, states, target, (n - 1) as nat);
        let blank = blanks[n - 1];
        let j = choose|j: int|
            0 <= j < states.len() && one_moves(blank, #[trigger] states[j], target);
        let chosen = head.push(j);
        let amounts = amounts_leaving(states);
        assert(chosen_amounts(amounts, chosen).drop_last() =~= chosen_amounts(amounts, head));
        assert(chosen_amounts(amounts, chosen).last() == amount_leaving(states[j]));
        let list = value_assignments(blank.0@)->0;
        assert(sum(known_amounts(list)) == amount_leaving(states[j])) by {
            reveal(Seq::filter);
            let p = |a: AssignmentView| a.2 is Some;
            match amount_moved(states_on(states[j].1@)->0) {
                Some(a) => {
                    assert(list.drop_last() =~= Seq::<AssignmentView>::empty());
                    assert(list.drop_last().filter(p) =~= Seq::<AssignmentView>::empty());
                    assert(known_amounts(list) =~= seq![a]);
                    assert(known_amounts(list).drop_last() =~= Seq::<u64>::empty());
                    assert(sum(known_amounts(list).drop_last()) == 0);
                },
                None => {
                    assert(known_amounts(list) =~= Seq::<u64>::empty());
                },
            }
        }
        chosen
    }
}

/// Gives the rights that a transition consumes.
pub fn get_consumed_rights(transition: &Vec<u8>) -> (r: Result<Vec<Right>, WalletError>)
    ensures
        r is Ok <==> consumed_rights(transition@) is Some,
        r matches Ok(rights) ==> consumed_rights(transition@) == Some(
            right_views(rights@).to_multiset(),
        ),
        r is Err ==> (r matches Err(WalletError::Internal(InternalError::RgbData))),
{
    match read_rights(transition) {
        None => Err(WalletError::Internal(InternalError::RgbData)),
        Some(rights) => Ok(rights),
    }
}

/// Gives the outpoints that a PSBT spends.
pub fn get_inputs(psbt: &Vec<u8>) -> (r: Result<Vec<Outpoint>, WalletError>)
    ensures
        r is Ok <==> psbt_inputs(psbt@) is Some,
        r matches Ok(inputs) ==> psbt_inputs(psbt@) == Some(views(inputs@)),
        r is Err ==> (r matches Err(WalletError::Internal(InternalError::RgbData))),
{
    match read_inputs(psbt) {
        None => Err(WalletError::Internal(InternalError::RgbData)),
        Some(inputs) => Ok(inputs),
    }
}

/// Commits to all transitions of a PSBT, in its last output.
pub fn commit_transitions(psbt: &Vec<u8>) -> (r: Result<Vec<u8>, WalletError>)
    ensures
        ({
            let bundled = psbt_bundled(psbt@);
            let hosted = psbt_with_host(bundled->0);
            &&& (r matches Err(WalletError::Internal(InternalError::RgbData))) <==> bundled is None
            &&& (r matches Err(WalletError::Internal(InternalError::Unexpected)))
                <==> bundled is Some && hosted is None
            &&& r is Ok <==> bundled is Some && hosted is Some
            &&& r matches Ok(next) ==> hosted == Some(next@)
        }),
{
    match bundle_transitions(psbt) {
        None => Err(WalletError::Internal(InternalError::RgbData)),
        Some(bundled) => match set_host(&bundled) {
            None => Err(WalletError::Internal(InternalError::Unexpected)),
            Some(hosted) => Ok(hosted),
        },
    }
}

/// Gives the text of a PSBT.
pub fn get_psbt_text(psbt: &Vec<u8>) -> (r: Result<String, WalletError>)
    ensures
        r is Ok <==> psbt_text(psbt@) is Some,
        r matches Ok(text) ==> psbt_text(psbt@) == Some(text@),
        r is Err ==> (r matches Err(WalletError::Internal(InternalError::RgbData))),
{
    match render_psbt(psbt) {
        None => Err(WalletError::Internal(InternalError::RgbData)),
        Some(text) => Ok(text),
    }
}

} // verus!
