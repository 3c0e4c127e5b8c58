//! Putting transfers into a PSBT.

use vstd::prelude::*;

use crate::chain::{holds_output, same_output, views};
use crate::database::records::{in_batch_with_status, Records};
use crate::error::{InternalError, WalletError};
use crate::laws::chain::{has_same, is_id, is_same, lemma_same, nibble};
use crate::laws::sending::{is_text, lemma_part_of_failed};
use crate::laws::text::{is_ahead, lemma_parts};
use crate::laws::{is_list_of, is_part_of_failed};
use crate::rgb_data::{
    agree, bundles_put, consumed_rights, consumer_set, held_types, host_set, is_contract_id,
    is_mergeable, list_types, payments_ordered, psbt_inputs, psbt_shown, psbt_trees,
    psbt_with_transition, seal_of_text, transition_pushed, Right,
};
use crate::seqs::{lemma_filter_picks, lemma_first_index};
use crate::text::text_before;
use crate::wallet::compose::{
    all_payable, already_used, check_asset_id, commit_transitions, consumed, embed_transfer,
    first_unpayable, get_beneficiaries, get_consumed_rights, get_inputs, get_psbt_text, info_of,
    left_over, of_asset, payable, payment_map, pays, plan_blank, psbt_with_transfer, BlankWork,
    ContractState,
};
use crate::wallet::send::InfoAssetTransfer;
use crate::wallet::types::{opt_text, Outpoint, Recipient, TransferStatus};

verus! {

/// Whether a blinded UTXO is that of a transfer that is part of no failed one.
pub open spec fn is_taken(records: Records, blinded_utxo: Seq<char>) -> bool {
    exists|i: int|
        {
            &&& 0 <= i < records.transfers@.len()
            &&& is_text((#[trigger] records.transfers@[i]).blinded_utxo, blinded_utxo)
            &&& !is_part_of_failed(records, records.transfers@[i].asset_transfer_idx)
        }
}

/// Whether a recipient can get something: its blinded UTXO is not taken, and names a seal.
pub open spec fn can_get(records: Records, r: Recipient) -> bool {
    !is_taken(records, r.blinded_utxo@) && seal_of_text(r.blinded_utxo@) is Some
}

/// Whether a recipient is the last one with its seal.
pub open spec fn is_last_with_seal(recipients: Seq<Recipient>, k: int) -> bool {
    &&& 0 <= k < recipients.len()
    &&& forall|j: int|
        k < j < recipients.len() ==> seal_of_text((#[trigger] recipients[j]).blinded_utxo@)
            != seal_of_text(recipients[k].blinded_utxo@)
}

/// Whether a payment is what a recipient asks for, on its seal.
pub open spec fn is_payment_to(payment: (String, u64), r: Recipient) -> bool {
    Some(payment.0@) == seal_of_text(r.blinded_utxo@) && payment.1 == r.amount
}

/// Whether a recipient is paid.
pub open spec fn is_paid(payments: Seq<(String, u64)>, r: Recipient) -> bool {
    exists|i: int| 0 <= i < payments.len() && is_payment_to(#[trigger] payments[i], r)
}

/// Whether a payment is one to a recipient who is the last one with its seal.
pub open spec fn is_owed(payment: (String, u64), recipients: Seq<Recipient>) -> bool {
    exists|k: int| #[trigger]
        is_last_with_seal(recipients, k) && is_payment_to(payment, recipients[k])
}

/// Whether payments are what recipients ask for: one payment for each seal, to the last
/// recipient with it, in the order of the seals.
pub open spec fn are_payments(payments: Seq<(String, u64)>, recipients: Seq<Recipient>) -> bool {
    &&& forall|k: int| #[trigger]
        is_last_with_seal(recipients, k) ==> is_paid(payments, recipients[k])
    &&& forall|i: int| 0 <= i < payments.len() ==> is_owed(#[trigger] payments[i], recipients)
    &&& forall|i: int, j: int|
        0 <= i < j < payments.len() ==> is_ahead(
            (#[trigger] payments[i]).0@,
            (#[trigger] payments[j]).0@,
        )
}

proof fn lemma_taken(records: Records, blinded_utxo: Seq<char>)
    ensures
        is_taken(records, blinded_utxo) <==> already_used(records, blinded_utxo),
{
    let rows = records.transfers@;
    if is_taken(records, blinded_utxo) {
        let i = choose|i: int|
            {
                &&& 0 <= i < rows.len()
                &&& is_text((#[trigger] rows[i]).blinded_utxo, blinded_utxo)
                &&& !is_part_of_failed(records, rows[i].asset_transfer_idx)
            };
        lemma_part_of_failed(records, rows[i].asset_transfer_idx);
        assert(opt_text(rows[i].blinded_utxo) == Some(blinded_utxo));
    }
    if already_used(records, blinded_utxo) {
        let i = choose|i: int|
            0 <= i < rows.len() && opt_text((#[trigger] rows[i]).blinded_utxo) == Some(
                blinded_utxo,
            ) && !in_batch_with_status(
                records.asset_transfers@,
                records.batch_transfers@,
                rows[i].asset_transfer_idx,
                TransferStatus::Failed,
            );
        lemma_part_of_failed(records, rows[i].asset_transfer_idx);
        assert(is_text(rows[i].blinded_utxo, blinded_utxo));
    }
}

proof fn lemma_last_seals(recipients: Seq<Recipient>)
    requires
        forall|i: int|
            0 <= i < recipients.len() ==> seal_of_text((#[trigger] recipients[i]).blinded_utxo@) is Some,
    ensures
        forall|k: int| #[trigger]
            is_last_with_seal(recipients, k) ==> has_payment(recipients, k),
        forall|seal: Seq<char>| #[trigger]
            payment_map(recipients).dom().contains(seal) ==> is_seal_of(recipients, seal),
    decreases recipients.len(),
{
    if recipients.len() > 0 {
        let n = recipients.len() - 1;
        let head = recipients.drop_last();
        let map = payment_map(head);
        let own = seal_of_text(recipients[n].blinded_utxo@)->0;
        assert(seal_of_text(recipients[n].blinded_utxo@) is Some);
        assert forall|i: int| 0 <= i < head.len() implies seal_of_text(
            (#[trigger] head[i]).blinded_utxo@,
        ) is Some by {
            assert(head[i] == recipients[i]);
        }
        lemma_last_seals(head);
        assert forall|k: int| #[trigger] is_last_with_seal(recipients, k) implies has_payment(
            recipients,
            k,
        ) by {
            if k < n {
                assert(seal_of_text(recipients[n].blinded_utxo@) != seal_of_text(
                    recipients[k].blinded_utxo@,
                ));
                assert forall|j: int| k < j < head.len() implies seal_of_text(
                    (#[trigger] head[j]).blinded_utxo@,
                ) != seal_of_text(head[k].blinded_utxo@) by {
                    assert(head[j] == recipients[j]);
                }
                assert(is_last_with_seal(head, k));
                assert(has_payment(head, k));
                assert(seal_of_text(recipients[k].blinded_utxo@) is Some);
            }
        }
        assert forall|seal: Seq<char>| #[trigger] payment_map(recipients).dom().contains(
            seal,
        ) implies is_seal_of(recipients, seal) by {
            if seal == own {
                assert(is_last_with_seal(recipients, n));
            } else {
                assert(map.dom().contains(seal));
                assert(is_seal_of(head, seal));
                let k = choose|k: int| #[trigger]
                    is_last_with_seal(head, k) && seal_of_text(head[k].blinded_utxo@) == Some(
                        seal,
                    );
                assert forall|j: int| k < j < recipients.len() implies seal_of_text(
                    (#[trigger] recipients[j]).blinded_utxo@,
                ) != seal_of_text(recipients[k].blinded_utxo@) by {
                    if j < n {
                        assert(head[j] == recipients[j]);
                    }
                }
                assert(is_last_with_seal(recipients, k));
            }
        }
    }
}

spec fn has_payment(recipients: Seq<Recipient>, k: int) -> bool {
    let seal = seal_of_text(recipients[k].blinded_utxo@)->0;
    payment_map(recipients).dom().contains(seal) && payment_map(recipients)[seal]
        == recipients[k].amount
}

spec fn is_seal_of(recipients: Seq<Recipient>, seal: Seq<char>) -> bool {
    exists|k: int| #[trigger]
        is_last_with_seal(recipients, k) && seal_of_text(recipients[k].blinded_utxo@) == Some(
            seal,
        )
}

/// Payments that the library makes are what recipients ask for.
pub proof fn lemma_payments(payments: Seq<(String, u64)>, recipients: Seq<Recipient>)
    requires
        forall|i: int|
            0 <= i < recipients.len() ==> seal_of_text((#[trigger] recipients[i]).blinded_utxo@) is Some,
        payments_ordered(payments),
        pays(payments, payment_map(recipients)),
    ensures
        are_payments(payments, recipients),
{
    lemma_last_seals(recipients);
    let map = payment_map(recipients);
    assert forall|k: int| #[trigger] is_last_with_seal(recipients, k) implies is_paid(
        payments,
        recipients[k],
    ) by {
        assert(has_payment(recipients, k));
        assert(seal_of_text(recipients[k].blinded_utxo@) is Some);
        let seal = seal_of_text(recipients[k].blinded_utxo@)->0;
        assert(map.dom().contains(seal));
        let i = choose|i: int| 0 <= i < payments.len() && (#[trigger] payments[i]).0@ == seal;
        assert(is_payment_to(payments[i], recipients[k]));
    }
    assert forall|i: int| 0 <= i < payments.len() implies is_owed(
        #[trigger] payments[i],
        recipients,
    ) by {
        assert(map.dom().contains(payments[i].0@));
        assert(is_seal_of(recipients, payments[i].0@));
        let k = choose|k: int| #[trigger]
            is_last_with_seal(recipients, k) && seal_of_text(recipients[k].blinded_utxo@) == Some(
                payments[i].0@,
            );
        assert(has_payment(recipients, k));
        assert(is_payment_to(payments[i], recipients[k]));
    }
    assert forall|i: int, j: int| 0 <= i < j < payments.len() implies is_ahead(
        (#[trigger] payments[i]).0@,
        (#[trigger] payments[j]).0@,
    ) by {
        assert(text_before(payments[i].0@, payments[j].0@));
        lemma_parts(payments[i].0@, payments[j].0@);
    }
}

/// Every recipient is paid what it asks for. That fails exactly where a blinded UTXO is
/// that of an earlier transfer, unless that failed, or names no seal. The first such
/// recipient is the one that is told of.
pub proof fn recipients_are_paid(
    records: Records,
    recipients: Vec<Recipient>,
    r: Result<Vec<(String, u64)>, WalletError>,
)
    requires
        call_ensures(get_beneficiaries, (&records, &recipients), r),
    ensures
        r is Ok <==> forall|i: int|
            0 <= i < recipients@.len() ==> can_get(records, #[trigger] recipients@[i]),
        r matches Ok(payments) ==> are_payments(payments@, recipients@),
        r matches Err(e) ==> exists|k: int|
            {
                &&& 0 <= k < recipients@.len()
                &&& !can_get(records, #[trigger] recipients@[k])
                &&& forall|i: int|
                    0 <= i < k ==> can_get(records, #[trigger] recipients@[i])
                &&& if is_taken(records, recipients@[k].blinded_utxo@) {
                    e is BlindedUTXOAlreadyUsed
                } else {
                    e is InvalidBlindedUTXO
                }
            },
{
    lemma_all_payable(records, recipients@);
    if r is Ok {
        assert forall|i: int| 0 <= i < recipients@.len() implies seal_of_text(
            (#[trigger] recipients@[i]).blinded_utxo@,
        ) is Some by {
            assert(can_get(records, recipients@[i]));
        }
        lemma_payments(r->Ok_0@, recipients@);
    } else {
        let e = r->Err_0;
        let k = choose|k: int| #[trigger]
            first_unpayable(records, recipients@, k) && if already_used(
                records,
                recipients@[k].blinded_utxo@,
            ) {
                e is BlindedUTXOAlreadyUsed
            } else {
                e is InvalidBlindedUTXO
            };
        lemma_taken(records, recipients@[k].blinded_utxo@);
        assert(!can_get(records, recipients@[k]));
        assert forall|i: int| 0 <= i < k implies can_get(records, #[trigger] recipients@[i]) by {
            assert(payable(records, recipients@[i]));
            lemma_taken(records, recipients@[i].blinded_utxo@);
        }
    }
}

/// Whether bytes hold a PSBT that can be written: all tap trees of its outputs are complete.
pub open spec fn can_be_written(psbt: Seq<u8>) -> bool {
    psbt_trees(psbt) matches Some(trees) && forall|i: int|
        0 <= i < trees.len() ==> !(#[trigger] trees[i] == Some(false))
}

/// Whether a transition can be added to a PSBT: it can be read, and its lists of
/// assignments are of the types of those that the PSBT already holds under its ID.
pub open spec fn can_be_added(psbt: Seq<u8>, transition: Seq<u8>) -> bool {
    &&& can_be_written(psbt)
    &&& list_types(transition) is Some
    &&& held_types(psbt, transition) matches Some(held) ==> forall|i: int|
        0 <= i < held.len() && i < (list_types(transition)->0).len() ==> #[trigger] held[i] == (
        list_types(transition)->0)[i]
}

/// A transition is added exactly where it can be.
pub proof fn lemma_added(psbt: Seq<u8>, transition: Seq<u8>)
    ensures
        psbt_with_transition(psbt, transition) == if can_be_added(psbt, transition) {
            transition_pushed(psbt, transition)
        } else {
            None
        },
{
    if list_types(transition) is Some && held_types(psbt, transition) is Some {
        let types = list_types(transition)->0;
        let held = held_types(psbt, transition)->0;
        if can_be_added(psbt, transition) {
            assert forall|i: int| 0 <= i < types.len() && i < held.len() implies #[trigger] types[i]
                == held[i] by {
                assert(held[i] == types[i]);
            }
            assert(agree(types, held));
        }
        if is_mergeable(psbt, transition) {
            assert forall|i: int| 0 <= i < held.len() && i < types.len() implies #[trigger] held[i]
                == types[i] by {
                assert(types[i] == held[i]);
            }
        }
    }
}

/// Whether a PSBT comes from another one by noting a transition as the consumer of an input
/// if that is chosen, and is the same otherwise.
pub open spec fn is_step(
    before: Seq<u8>,
    after: Seq<u8>,
    input: int,
    chosen: bool,
    contract_id: Seq<char>,
    transition: Seq<u8>,
) -> bool {
    if chosen {
        can_be_written(before) && consumer_set(before, input as usize, contract_id, transition)
            == Some(after)
    } else {
        after == before
    }
}

/// Whether each of a list of PSBTs comes from the one before it by noting a transition as
/// the consumer of the next input, if that is one of the outpoints that pay.
pub open spec fn is_consumed_by(
    psbts: Seq<Seq<u8>>,
    inputs: Seq<(Seq<char>, u32)>,
    paying: Seq<Outpoint>,
    contract_id: Seq<char>,
    transition: Seq<u8>,
) -> bool {
    &&& psbts.len() == inputs.len() + 1
    &&& forall|i: int|
        0 <= i < inputs.len() ==> is_step(
            psbts[i],
            psbts[i + 1],
            i,
            pays_for(paying, #[trigger] inputs[i]),
            contract_id,
            transition,
        )
}

/// Whether an output is that of one of the outpoints that pay, whatever the case of the
/// digits of the transaction IDs.
pub open spec fn pays_for(paying: Seq<Outpoint>, o: (Seq<char>, u32)) -> bool {
    exists|i: int|
        0 <= i < paying.len() && (#[trigger] paying[i]).vout == o.1 && forall|k: int|
            0 <= k < 64 ==> nibble(#[trigger] paying[i].txid@[k]) == nibble(o.0[k])
}

proof fn lemma_pays_for(paying: Seq<Outpoint>, o: (Seq<char>, u32))
    requires
        forall|i: int| 0 <= i < paying.len() ==> is_id((#[trigger] paying[i]).txid@),
        is_id(o.0),
    ensures
        pays_for(paying, o) <==> holds_output(paying, o),
{
    if pays_for(paying, o) {
        let i = choose|i: int|
            0 <= i < paying.len() && (#[trigger] paying[i]).vout == o.1 && forall|k: int|
                0 <= k < 64 ==> nibble(#[trigger] paying[i].txid@[k]) == nibble(o.0[k]);
        lemma_same(paying[i].txid@, o.0);
        assert(same_output(paying[i]@, o));
    }
    if holds_output(paying, o) {
        let i = choose|i: int| 0 <= i < paying.len() && same_output((#[trigger] paying[i])@, o);
        lemma_same(paying[i].txid@, o.0);
        assert(paying[i].vout == o.1);
    }
}

/// What inputs are consumed by can be told step by step.
pub proof fn lemma_consumed(
    psbt: Seq<u8>,
    inputs: Seq<(Seq<char>, u32)>,
    chosen: spec_fn((Seq<char>, u32)) -> bool,
    contract_id: Seq<char>,
    transition: Seq<u8>,
    n: nat,
) -> (psbts: Seq<Seq<u8>>)
    requires
        n <= inputs.len(),
        consumed(psbt, inputs, chosen, contract_id, transition, n) is Some,
    ensures
        psbts.len() == n + 1,
        psbts[0] == psbt,
        consumed(psbt, inputs, chosen, contract_id, transition, n) == Some(psbts.last()),
        forall|i: int|
            0 <= i < n ==> is_step(
                #[trigger] psbts[i],
                psbts[i + 1],
                i,
                chosen(inputs[i]),
                contract_id,
                transition,
            ),
    decreases n,
{
    if n == 0 {
        seq![psbt]
    } else {
        let head = lemma_consumed(
            psbt,
            inputs,
            chosen,
            contract_id,
            transition,
            (n - 1) as nat,
        );
        let psbts = head.push(
            consumed(psbt, inputs, chosen, contract_id, transition, n)->0,
        );
        assert forall|i: int| 0 <= i < n implies is_step(
            #[trigger] psbts[i],
            psbts[i + 1],
            i,
            chosen(inputs[i]),
            contract_id,
            transition,
        ) by {
            assert(psbts[i] == head[i]);
            if i < n - 1 {
                assert(psbts[i + 1] == head[i + 1]);
            }
        }
        psbts
    }
}

/// Steps that note consumers lead to what the library notes.
pub proof fn lemma_steps(
    psbts: Seq<Seq<u8>>,
    inputs: Seq<(Seq<char>, u32)>,
    chosen: spec_fn((Seq<char>, u32)) -> bool,
    contract_id: Seq<char>,
    transition: Seq<u8>,
    n: nat,
)
    requires
        n < psbts.len(),
        n <= inputs.len(),
        forall|i: int|
            0 <= i < n ==> is_step(
                #[trigger] psbts[i],
                psbts[i + 1],
                i,
                chosen(inputs[i]),
                contract_id,
                transition,
            ),
    ensures
        consumed(psbts[0], inputs, chosen, contract_id, transition, n) == Some(psbts[n as int]),
    decreases n,
{
    if n > 0 {
        lemma_steps(psbts, inputs, chosen, contract_id, transition, (n - 1) as nat);
        assert(is_step(
            psbts[n - 1],
            psbts[n - 1 + 1],
            n - 1,
            chosen(inputs[n - 1]),
            contract_id,
            transition,
        ));
    }
}

/// Whether inputs of a PSBT are all outpoints of transactions.
pub open spec fn are_ids(inputs: Seq<(Seq<char>, u32)>) -> bool {
    forall|i: int| 0 <= i < inputs.len() ==> is_id((#[trigger] inputs[i]).0)
}

/// Recipients can all get something exactly where the library can pay them.
pub proof fn lemma_all_payable(records: Records, recipients: Seq<Recipient>)
    ensures
        all_payable(records, recipients) <==> forall|i: int|
            0 <= i < recipients.len() ==> can_get(records, #[trigger] recipients[i]),
{
    assert forall|i: int| 0 <= i < recipients.len() implies can_get(
        records,
        #[trigger] recipients[i],
    ) == payable(records, recipients[i]) by {
        lemma_taken(records, recipients[i].blinded_utxo@);
    }
    if all_payable(records, recipients) {
        assert forall|i: int| 0 <= i < recipients.len() implies can_get(
            records,
            #[trigger] recipients[i],
        ) by {
            assert(payable(records, recipients[i]));
        }
    }
    if forall|i: int| 0 <= i < recipients.len() ==> can_get(records, #[trigger] recipients[i]) {
        assert forall|i: int| 0 <= i < recipients.len() implies payable(
            records,
            #[trigger] recipients[i],
        ) by {
            assert(can_get(records, recipients[i]));
        }
    }
}

/// A transition that the library puts into a PSBT is added, and is the consumer of the
/// inputs that pay.
pub proof fn lemma_embedded(
    psbt: Seq<u8>,
    paying: Seq<Outpoint>,
    contract_id: Seq<char>,
    transition: Seq<u8>,
    after: Seq<u8>,
) -> (psbts: Seq<Seq<u8>>)
    requires
        forall|i: int| 0 <= i < paying.len() ==> is_id((#[trigger] paying[i]).txid@),
        psbt_with_transfer(psbt, paying, contract_id, transition) == Some(after),
    ensures
        can_be_added(psbt, transition),
        psbts.len() > 0,
        transition_pushed(psbt, transition) == Some(psbts[0]),
        psbt_inputs(psbts[0]) matches Some(inputs) && (are_ids(inputs) ==> is_consumed_by(
            psbts,
            inputs,
            paying,
            contract_id,
            transition,
        )),
        after == psbts.last(),
{
    lemma_added(psbt, transition);
    let first = transition_pushed(psbt, transition)->0;
    let inputs = psbt_inputs(first)->0;
    let chosen = |o: (Seq<char>, u32)| holds_output(paying, o);
    assert(psbt_with_transfer(psbt, paying, contract_id, transition) == consumed(
        first,
        inputs,
        chosen,
        contract_id,
        transition,
        inputs.len(),
    ));
    let psbts = lemma_consumed(first, inputs, chosen, contract_id, transition, inputs.len());
    assert forall|i: int| 0 <= i < inputs.len() && are_ids(inputs) implies is_step(
        psbts[i],
        psbts[i + 1],
        i,
        pays_for(paying, #[trigger] inputs[i]),
        contract_id,
        transition,
    ) by {
        lemma_pays_for(paying, inputs[i]);
        assert(chosen(inputs[i]) == holds_output(paying, inputs[i]));
        assert(is_step(psbts[i], psbts[i + 1], i, chosen(inputs[i]), contract_id, transition));
    }
    psbts
}

/// A transition that is put into a PSBT is noted as the consumer of those of its inputs that
/// pay, and of no other.
pub proof fn paying_inputs_are_consumed(
    psbt: Vec<u8>,
    paying: Vec<Outpoint>,
    contract_id: String,
    transition: Vec<u8>,
    r: Result<Vec<u8>, WalletError>,
) -> (psbts: Seq<Seq<u8>>)
    requires
        forall|i: int| 0 <= i < paying@.len() ==> is_id((#[trigger] paying@[i]).txid@),
        call_ensures(embed_transfer, (&psbt, &paying, &contract_id, &transition), r),
    ensures
        r matches Err(e) ==> (e matches WalletError::Internal(InternalError::RgbData)),
        r matches Ok(next) ==> {
            &&& can_be_added(psbt@, transition@)
            &&& psbts.len() > 0
            &&& transition_pushed(psbt@, transition@) == Some(psbts[0])
            &&& psbt_inputs(psbts[0]) matches Some(inputs) && (are_ids(inputs) ==> is_consumed_by(
                psbts,
                inputs,
                paying@,
                contract_id@,
                transition@,
            ))
            &&& next@ == psbts.last()
        },
{
    if r is Ok {
        lemma_embedded(psbt@, paying@, contract_id@, transition@, r->Ok_0@)
    } else {
        Seq::empty()
    }
}

/// A transition is put into a PSBT wherever it can be added and noted as the consumer of all
/// inputs that pay.
pub proof fn transitions_are_put_where_they_can(
    psbt: Vec<u8>,
    paying: Vec<Outpoint>,
    contract_id: String,
    transition: Vec<u8>,
    inputs: Seq<(Seq<char>, u32)>,
    psbts: Seq<Seq<u8>>,
    r: Result<Vec<u8>, WalletError>,
)
    requires
        forall|i: int| 0 <= i < paying@.len() ==> is_id((#[trigger] paying@[i]).txid@),
        are_ids(inputs),
        can_be_added(psbt@, transition@),
        psbts.len() > 0,
        transition_pushed(psbt@, transition@) == Some(psbts[0]),
        psbt_inputs(psbts[0]) == Some(inputs),
        is_consumed_by(psbts, inputs, paying@, contract_id@, transition@),
        call_ensures(embed_transfer, (&psbt, &paying, &contract_id, &transition), r),
    ensures
        r matches Ok(next) && next@ == psbts.last(),
{
    lemma_can_be_put(psbt@, paying@, contract_id@, transition@, inputs, psbts);
}

/// What a transition leads to step by step is what the library puts it into.
pub proof fn lemma_can_be_put(
    psbt: Seq<u8>,
    paying: Seq<Outpoint>,
    contract_id: Seq<char>,
    transition: Seq<u8>,
    inputs: Seq<(Seq<char>, u32)>,
    psbts: Seq<Seq<u8>>,
)
    requires
        forall|i: int| 0 <= i < paying.len() ==> is_id((#[trigger] paying[i]).txid@),
        are_ids(inputs),
        can_be_added(psbt, transition),
        psbts.len() > 0,
        transition_pushed(psbt, transition) == Some(psbts[0]),
        psbt_inputs(psbts[0]) == Some(inputs),
        is_consumed_by(psbts, inputs, paying, contract_id, transition),
    ensures
        psbt_with_transfer(psbt, paying, contract_id, transition) == Some(psbts.last()),
{
    lemma_added(psbt, transition);
    let chosen = |o: (Seq<char>, u32)| holds_output(paying, o);
    assert(psbt_with_transfer(psbt, paying, contract_id, transition) == consumed(
        psbts[0],
        inputs,
        chosen,
        contract_id,
        transition,
        inputs.len(),
    ));
    assert forall|i: int| 0 <= i < inputs.len() implies is_step(
        #[trigger] psbts[i],
        psbts[i + 1],
        i,
        chosen(inputs[i]),
        contract_id,
        transition,
    ) by {
        lemma_pays_for(paying, inputs[i]);
        assert(is_step(
            psbts[i],
            psbts[i + 1],
            i,
            pays_for(paying, inputs[i]),
            contract_id,
            transition,
        ));
    }
    lemma_steps(psbts, inputs, chosen, contract_id, transition, inputs.len());
}

/// All transitions of a PSBT are bundled, and its last output hosts the commitment.
pub proof fn the_last_output_hosts_the_commitment(psbt: Vec<u8>, r: Result<Vec<u8>, WalletError>)
    requires
        call_ensures(commit_transitions, (&psbt,), r),
    ensures
        !can_be_written(psbt@) || bundles_put(psbt@) is None ==> (r matches Err(
            WalletError::Internal(InternalError::RgbData),
        )),
        can_be_written(psbt@) ==> (bundles_put(psbt@) matches Some(bundled) ==> {
            let outputs = (psbt_trees(bundled)->0).len() as int;
            if can_be_written(bundled) && outputs > 0 && host_set(
                bundled,
                (outputs - 1) as usize,
            ) is Some {
                r matches Ok(next) && host_set(bundled, (outputs - 1) as usize) == Some(next@)
            } else {
                r matches Err(WalletError::Internal(InternalError::Unexpected))
            }
        }),
{
}

/// An asset is told by its ID, a PSBT by its inputs and its text, and a transition by the
/// rights that it consumes.
pub proof fn data_are_read_as_they_are(
    asset_id: String,
    checked: Result<(), WalletError>,
    psbt: Vec<u8>,
    inputs: Result<Vec<Outpoint>, WalletError>,
    text: Result<String, WalletError>,
    transition: Vec<u8>,
    rights: Result<Vec<Right>, WalletError>,
)
    requires
        call_ensures(check_asset_id, (&asset_id,), checked),
        call_ensures(get_inputs, (&psbt,), inputs),
        call_ensures(get_psbt_text, (&psbt,), text),
        call_ensures(get_consumed_rights, (&transition,), rights),
    ensures
        is_contract_id(asset_id@) ==> checked is Ok,
        !is_contract_id(asset_id@) ==> (checked matches Err(
            WalletError::Internal(InternalError::RgbData),
        )),
        match psbt_inputs(psbt@) {
            None => inputs matches Err(WalletError::Internal(InternalError::RgbData)),
            Some(all) => {
                &&& inputs matches Ok(list)
                &&& list@.len() == all.len()
                &&& forall|i: int|
                    0 <= i < all.len() ==> (#[trigger] list@[i]).txid@ == all[i].0
                        && list@[i].vout == all[i].1
            },
        },
        can_be_written(psbt@) && psbt_shown(psbt@) is Some ==> (text matches Ok(shown) && Some(
            shown@,
        ) == psbt_shown(psbt@)),
        !can_be_written(psbt@) || psbt_shown(psbt@) is None ==> (text matches Err(
            WalletError::Internal(InternalError::RgbData),
        )),
        consumed_rights(transition@) is None ==> (rights matches Err(
            WalletError::Internal(InternalError::RgbData),
        )),
        consumed_rights(transition@) is Some ==> rights is Ok,
{
    if psbt_inputs(psbt@) is Some {
        let all = psbt_inputs(psbt@)->0;
        let list = inputs->Ok_0@;
        assert(views(list) == all);
        assert forall|i: int| 0 <= i < all.len() implies (#[trigger] list[i]).txid@ == all[i].0
            && list[i].vout == all[i].1 by {
            assert(views(list)[i] == list[i]@);
        }
    }
}

/// Whether an asset is the first one of its ID among transfers.
pub open spec fn is_sent_by(
    transfers: Seq<(String, InfoAssetTransfer)>,
    asset_id: Seq<char>,
    t: int,
) -> bool {
    &&& 0 <= t < transfers.len()
    &&& transfers[t].0@ == asset_id
    &&& forall|k: int| 0 <= k < t ==> (#[trigger] transfers[k]).0@ != asset_id
}

proof fn lemma_sent_by(transfers: Seq<(String, InfoAssetTransfer)>, asset_id: Seq<char>)
    ensures
        info_of(transfers, asset_id) is None <==> forall|t: int|
            !#[trigger] is_sent_by(transfers, asset_id, t),
        forall|t: int| #[trigger]
            is_sent_by(transfers, asset_id, t) ==> info_of(transfers, asset_id) == Some(
                transfers[t].1,
            ),
{
    let p = of_asset(asset_id);
    lemma_first_index(transfers, p);
    if info_of(transfers, asset_id) is Some {
        let t = choose|t: int|
            0 <= t < transfers.len() && p(#[trigger] transfers[t]) && transfers[t]
                == transfers.filter(p)[0] && forall|k: int|
                0 <= k < t ==> !p(#[trigger] transfers[k]);
        assert forall|k: int| 0 <= k < t implies (#[trigger] transfers[k]).0@ != asset_id by {
            assert(!p(transfers[k]));
        }
        assert(is_sent_by(transfers, asset_id, t));
        assert forall|u: int| #[trigger] is_sent_by(transfers, asset_id, u) implies u == t by {
            if u < t {
                assert(!p(transfers[u]));
            }
        }
    } else {
        assert forall|t: int| !#[trigger] is_sent_by(transfers, asset_id, t) by {
            if is_sent_by(transfers, asset_id, t) {
                assert(p(transfers[t]));
            }
        }
    }
}

/// Of an asset that is not sent, all states on the inputs move to the change, and its
/// contract has to be added. Of one that is sent, those move that are not on the outputs
/// that pay for it, if there are any.
pub proof fn states_that_do_not_pay_are_moved(
    transfers: Vec<(String, InfoAssetTransfer)>,
    state: ContractState,
    r: Option<BlankWork>,
) -> (at: Seq<int>)
    requires
        forall|j: int|
            0 <= j < state.states@.len() ==> is_id((#[trigger] state.states@[j]).0.txid@),
        forall|t: int, i: int|
            0 <= t < transfers@.len() && 0 <= i
                < transfers@[t].1.asset_spend.input_outpoints@.len() ==> is_id(
                (#[trigger] transfers@[t].1.asset_spend.input_outpoints@[i]).txid@,
            ),
        call_ensures(plan_blank, (&transfers, state), r),
    ensures
        (forall|t: int| !#[trigger] is_sent_by(transfers@, state.contract_id@, t)) ==> (
        r matches Some(work) && work.contract_id@ == state.contract_id@ && work.needs_contract
            && work.states@ == state.states@),
        forall|t: int| #[trigger]
            is_sent_by(transfers@, state.contract_id@, t) ==> {
                let paying = transfers@[t].1.asset_spend.input_outpoints@;
                &&& r is None <==> at.len() == 0
                &&& r matches Some(work) ==> work.contract_id@ == state.contract_id@
                    && !work.needs_contract && is_list_of(work.states@, state.states@, at)
                &&& forall|j: int|
                    0 <= j < state.states@.len() ==> (at.contains(j) <==> !has_same(
                        paying,
                        (#[trigger] state.states@[j]).0,
                    ))
            },
{
    lemma_sent_by(transfers@, state.contract_id@);
    match info_of(transfers@, state.contract_id@) {
        None => Seq::empty(),
        Some(info) => {
            let paying = info.asset_spend.input_outpoints@;
            let p = |s: (Outpoint, Vec<u8>)| !holds_output(paying, s.0@);
            let at = lemma_filter_picks(state.states@, p);
            assert(left_over(state.states@, paying) == state.states@.filter(p));
            assert forall|t: int| #[trigger] is_sent_by(
                transfers@,
                state.contract_id@,
                t,
            ) implies forall|j: int|
                0 <= j < state.states@.len() ==> (at.contains(j) <==> !has_same(
                    transfers@[t].1.asset_spend.input_outpoints@,
                    (#[trigger] state.states@[j]).0,
                )) by {
                assert(transfers@[t].1 == info);
                assert forall|i: int| 0 <= i < paying.len() implies is_id(
                    (#[trigger] paying[i]).txid@,
                ) by {
                    assert(is_id(transfers@[t].1.asset_spend.input_outpoints@[i].txid@));
                }
                assert forall|j: int| 0 <= j < state.states@.len() implies (at.contains(j)
                    <==> !has_same(paying, (#[trigger] state.states@[j]).0)) by {
                    let o = state.states@[j].0;
                    lemma_has_same(paying, o);
                    if at.contains(j) {
                        let k = choose|k: int| 0 <= k < at.len() && at[k] == j;
                        assert(p(state.states@[at[k]]));
                    }
                    if !has_same(paying, o) {
                        assert(p(state.states@[j]));
                    }
                }
            }
            at
        },
    }
}

proof fn lemma_has_same(paying: Seq<Outpoint>, o: Outpoint)
    requires
        forall|i: int| 0 <= i < paying.len() ==> is_id((#[trigger] paying[i]).txid@),
        is_id(o.txid@),
    ensures
        has_same(paying, o) <==> holds_output(paying, o@),
{
    if has_same(paying, o) {
        let i = choose|i: int| 0 <= i < paying.len() && is_same(#[trigger] paying[i], o);
        lemma_same(paying[i].txid@, o.txid@);
        assert(same_output(paying[i]@, o@));
    }
    if holds_output(paying, o@) {
        let i = choose|i: int|
            0 <= i < paying.len() && same_output((#[trigger] paying[i])@, o@);
        lemma_same(paying[i].txid@, o.txid@);
        assert(is_same(paying[i], o));
    }
}

} // verus!
