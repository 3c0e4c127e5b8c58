//! Moving other assets along with a transfer.

use vstd::prelude::*;

use crate::chain::{canonical, views};
use crate::database::DbTxo;
use crate::error::{InternalError, WalletError};
use crate::laws::composing::{
    can_be_added, can_be_written, is_step, lemma_added, lemma_consumed, lemma_steps,
};
use crate::rgb_data::{
    all_alone, contract_set, movable, moves, psbt_with_transition, seal_txids, stands_alone,
    states_on, transition_pushed, value_assignments, AssignmentView,
};
use crate::seqs::{lemma_filter_ends, lemma_filter_step, sum};
use crate::wallet::compose::{
    amount_leaving, amounts_leaving, blanks_move, blanks_refused, can_move, consumed, embed_blanks,
    get_moved_amount, is_covered, known_amounts, move_states, moved_amount, one_moves, output_at,
    outputs_consumed, psbt_with_blank, psbt_with_blanks, psbt_with_optional_contract,
    record_blank_moves, states_moved, BlankWork, Embedded, MovedStates,
};
use crate::wallet::types::Outpoint;

verus! {

/// A blank transition with the outputs that it consumes.
pub type Blank = (Vec<u8>, Vec<u16>);

/// The amounts of assignments, as far as they are known.
pub open spec fn known(assignments: Seq<AssignmentView>) -> int
    decreases assignments.len(),
{
    if assignments.len() == 0 {
        0
    } else {
        let a = assignments.last();
        known(assignments.drop_last()) + if a.2 is Some {
            a.2->0 as int
        } else {
            0
        }
    }
}

/// What blank transitions move together.
pub open spec fn moved_in_all(blanks: Seq<Blank>) -> int
    decreases blanks.len(),
{
    if blanks.len() == 0 {
        0
    } else {
        moved_in_all(blanks.drop_last()) + known(value_assignments(blanks.last().0@)->0)
    }
}

/// Whether all blank transitions can be read.
pub open spec fn can_be_read(blanks: Seq<Blank>) -> bool {
    forall|i: int|
        0 <= i < blanks.len() ==> value_assignments((#[trigger] blanks[i]).0@) is Some
}

proof fn lemma_known_amounts(assignments: Seq<AssignmentView>)
    ensures
        known(assignments) == sum(known_amounts(assignments)),
    decreases assignments.len(),
{
    let p = |a: AssignmentView| a.2 is Some;
    let f = |a: AssignmentView| a.2->0;
    assert(known_amounts(assignments) == assignments.filter(p).map_values(f));
    lemma_filter_ends(assignments, p);
    if assignments.len() == 0 {
        assert(assignments =~= assignments.take(0));
        assert(assignments.filter(p).map_values(f) =~= Seq::<u64>::empty());
    } else {
        let n = assignments.len() - 1;
        let head = assignments.drop_last();
        lemma_known_amounts(head);
        lemma_filter_step(assignments, p, n);
        assert(assignments.take(n) =~= head);
        if p(assignments[n]) {
            assert(assignments.filter(p).map_values(f).drop_last() =~= head.filter(p).map_values(
                f,
            ));
        }
    }
}

proof fn lemma_moved(blanks: Seq<Blank>, n: int)
    requires
        0 <= n <= blanks.len(),
    ensures
        moved_amount(blanks, n as nat) is Some <==> can_be_read(blanks.take(n)),
        moved_amount(blanks, n as nat) matches Some(m) ==> m == moved_in_all(blanks.take(n)),
    decreases n,
{
    let all = blanks.take(n);
    if n > 0 {
        lemma_moved(blanks, n - 1);
        let head = blanks.take(n - 1);
        assert(all.drop_last() =~= head);
        assert(all[n - 1] == blanks[n - 1]);
        if value_assignments(blanks[n - 1].0@) is Some {
            lemma_known_amounts(value_assignments(blanks[n - 1].0@)->0);
        }
        if can_be_read(all) {
            assert forall|i: int| 0 <= i < head.len() implies value_assignments(
                (#[trigger] head[i]).0@,
            ) is Some by {
                assert(head[i] == all[i]);
            }
        }
        if can_be_read(head) && value_assignments(blanks[n - 1].0@) is Some {
            assert forall|i: int| 0 <= i < all.len() implies value_assignments(
                (#[trigger] all[i]).0@,
            ) is Some by {
                if i < n - 1 {
                    assert(head[i] == all[i]);
                }
            }
        }
    }
}

/// What blank transitions move is all that they assign, where they can be read and it fits.
pub proof fn moved_amounts_are_added_up(blanks: Vec<Blank>, r: Option<u64>)
    requires
        call_ensures(get_moved_amount, (&blanks,), r),
    ensures
        r is Some <==> can_be_read(blanks@) && moved_in_all(blanks@) <= u64::MAX,
        r matches Some(n) ==> n == moved_in_all(blanks@),
{
    lemma_moved(blanks@, blanks@.len() as int);
    assert(blanks@.take(blanks@.len() as int) =~= blanks@);
}

/// Putting blank transitions into a PSBT and adding up what they move is one operation. It
/// fails where one of the two does.
pub proof fn moves_are_put_and_counted(
    psbt: Vec<u8>,
    inputs: Vec<Outpoint>,
    contract_id: String,
    blanks: Vec<Blank>,
    put: Result<Vec<u8>, WalletError>,
    amount: Option<u64>,
    r: Result<MovedStates, WalletError>,
)
    requires
        call_ensures(embed_blanks, (&psbt, &inputs, &contract_id, &blanks), put),
        call_ensures(get_moved_amount, (&blanks,), amount),
        call_ensures(record_blank_moves, (&psbt, &inputs, &contract_id, &blanks), r),
    ensures
        r is Ok <==> put is Ok && amount is Some,
        r matches Ok(moved) ==> (put matches Ok(next) && next@ == moved.psbt@) && amount == Some(
            moved.amount,
        ),
        put is Ok && amount is None ==> (r matches Err(
            WalletError::Internal(InternalError::Unexpected),
        )),
        (put matches Err(WalletError::Internal(InternalError::RgbData))) ==> (r matches Err(
            WalletError::Internal(InternalError::RgbData),
        )),
        (put matches Err(WalletError::Internal(InternalError::Unexpected))) ==> (r matches Err(
            WalletError::Internal(InternalError::Unexpected),
        )),
{
}

/// Blank transitions are put into a PSBT one after the other: the last one into what the
/// others lead to. Where these fail, all fails, and none leaves the PSBT as it is.
pub proof fn blanks_are_put_one_by_one(
    psbt: Vec<u8>,
    inputs: Vec<Outpoint>,
    contract_id: String,
    blanks: Vec<Blank>,
    longer: Vec<Blank>,
    last: Vec<Blank>,
    next: Vec<u8>,
    r: Result<Vec<u8>, WalletError>,
    r_longer: Result<Vec<u8>, WalletError>,
    r_last: Result<Vec<u8>, WalletError>,
)
    requires
        last@.len() == 1,
        longer@ == blanks@.push(last@[0]),
        call_ensures(embed_blanks, (&psbt, &inputs, &contract_id, &blanks), r),
        call_ensures(embed_blanks, (&psbt, &inputs, &contract_id, &longer), r_longer),
        call_ensures(embed_blanks, (&next, &inputs, &contract_id, &last), r_last),
    ensures
        blanks@.len() == 0 ==> (r matches Ok(same) && same@ == psbt@),
        r is Err ==> r_longer is Err,
        r matches Ok(p) ==> p@ == next@ ==> {
            &&& r_longer is Ok <==> r_last is Ok
            &&& r_longer matches Ok(a) ==> (r_last matches Ok(b) && a@ == b@)
        },
{
    let all = views(inputs@);
    let id = contract_id@;
    let n = blanks@.len();
    lemma_prefix(psbt@, all, id, blanks@, longer@, n);
    assert(longer@[n as int] == last@[0]);
    assert(psbt_with_blanks(next@, all, id, last@, 0) == Embedded::Done(next@));
    assert(psbt_with_blanks(next@, all, id, last@, 1) == psbt_with_blank(
        next@,
        all,
        id,
        last@[0].0@,
        last@[0].1@,
    ));
    assert(psbt_with_blanks(psbt@, all, id, longer@, n + 1) == match psbt_with_blanks(
        psbt@,
        all,
        id,
        longer@,
        n,
    ) {
        Embedded::Done(p) => psbt_with_blank(p, all, id, longer@[n as int].0@, longer@[n as int].1@),
        other => other,
    });
}

proof fn lemma_prefix(
    psbt: Seq<u8>,
    inputs: Seq<(Seq<char>, u32)>,
    contract_id: Seq<char>,
    a: Seq<Blank>,
    b: Seq<Blank>,
    n: nat,
)
    requires
        n <= a.len(),
        n <= b.len(),
        forall|i: int| 0 <= i < n ==> a[i] == b[i],
    ensures
        psbt_with_blanks(psbt, inputs, contract_id, a, n) == psbt_with_blanks(
            psbt,
            inputs,
            contract_id,
            b,
            n,
        ),
    decreases n,
{
    if n > 0 {
        lemma_prefix(psbt, inputs, contract_id, a, b, (n - 1) as nat);
        assert(a[n - 1] == b[n - 1]);
    }
}

/// Whether each of a list of PSBTs comes from the one before it by noting a transition as
/// the consumer of the next input, if that is an output of a transaction.
pub open spec fn is_output_consumed(
    psbts: Seq<Seq<u8>>,
    inputs: Seq<Outpoint>,
    txid: Seq<char>,
    vout: u16,
    contract_id: Seq<char>,
    transition: Seq<u8>,
) -> bool {
    &&& psbts.len() == inputs.len() + 1
    &&& forall|i: int|
        0 <= i < inputs.len() ==> is_step(
            psbts[i],
            psbts[i + 1],
            i,
            (#[trigger] inputs[i]).txid@ == txid && inputs[i].vout == vout,
            contract_id,
            transition,
        )
}

/// Whether a PSBT comes from another one by noting a transition as the consumer of the
/// inputs that are an output of a transaction.
pub open spec fn consumes(
    before: Seq<u8>,
    after: Seq<u8>,
    inputs: Seq<Outpoint>,
    txid: Seq<char>,
    vout: u16,
    contract_id: Seq<char>,
    transition: Seq<u8>,
) -> bool {
    exists|psbts: Seq<Seq<u8>>| #[trigger]
        is_output_consumed(psbts, inputs, txid, vout, contract_id, transition) && psbts[0]
            == before && psbts.last() == after
}

proof fn lemma_consumes(
    before: Seq<u8>,
    inputs: Seq<Outpoint>,
    txid: Seq<char>,
    vout: u16,
    contract_id: Seq<char>,
    transition: Seq<u8>,
    after: Seq<u8>,
)
    ensures
        consumes(before, after, inputs, txid, vout, contract_id, transition) <==> consumed(
            before,
            views(inputs),
            output_at(txid, vout),
            contract_id,
            transition,
            inputs.len(),
        ) == Some(after),
{
    let all = views(inputs);
    let chosen = output_at(txid, vout);
    let n = inputs.len();
    assert forall|i: int| 0 <= i < n implies chosen(#[trigger] all[i]) == (inputs[i].txid@ == txid
        && inputs[i].vout == vout) by {
        assert(all[i] == inputs[i]@);
    }
    if consumed(before, all, chosen, contract_id, transition, n) == Some(after) {
        let psbts = lemma_consumed(before, all, chosen, contract_id, transition, n);
        assert forall|i: int| 0 <= i < n implies is_step(
            psbts[i],
            psbts[i + 1],
            i,
            (#[trigger] inputs[i]).txid@ == txid && inputs[i].vout == vout,
            contract_id,
            transition,
        ) by {
            assert(chosen(all[i]) == (inputs[i].txid@ == txid && inputs[i].vout == vout));
            assert(is_step(
                psbts[i],
                psbts[i + 1],
                i,
                chosen(all[i]),
                contract_id,
                transition,
            ));
        }
        assert(is_output_consumed(psbts, inputs, txid, vout, contract_id, transition));
    }
    if consumes(before, after, inputs, txid, vout, contract_id, transition) {
        let psbts = choose|psbts: Seq<Seq<u8>>| #[trigger]
            is_output_consumed(psbts, inputs, txid, vout, contract_id, transition) && psbts[0]
                == before && psbts.last() == after;
        assert forall|i: int| 0 <= i < n implies is_step(
            #[trigger] psbts[i],
            psbts[i + 1],
            i,
            chosen(all[i]),
            contract_id,
            transition,
        ) by {
            assert(chosen(all[i]) == (inputs[i].txid@ == txid && inputs[i].vout == vout));
        }
        lemma_steps(psbts, all, chosen, contract_id, transition, n);
    }
}

/// Whether each of a list of PSBTs comes from the one before it by noting a transition as
/// the consumer of the inputs that are the next of given outputs of a transaction.
pub open spec fn consumes_each(
    psbts: Seq<Seq<u8>>,
    inputs: Seq<Outpoint>,
    txid: Seq<char>,
    outputs: Seq<u16>,
    contract_id: Seq<char>,
    transition: Seq<u8>,
) -> bool {
    &&& psbts.len() == outputs.len() + 1
    &&& forall|k: int|
        0 <= k < outputs.len() ==> consumes(
            psbts[k],
            psbts[k + 1],
            inputs,
            txid,
            #[trigger] outputs[k],
            contract_id,
            transition,
        )
}

/// Whether a PSBT comes from another one by noting a transition as the consumer of the
/// inputs that are given outputs of a transaction.
pub open spec fn consumes_all(
    before: Seq<u8>,
    after: Seq<u8>,
    inputs: Seq<Outpoint>,
    txid: Seq<char>,
    outputs: Seq<u16>,
    contract_id: Seq<char>,
    transition: Seq<u8>,
) -> bool {
    exists|psbts: Seq<Seq<u8>>| #[trigger]
        consumes_each(psbts, inputs, txid, outputs, contract_id, transition) && psbts[0] == before
            && psbts.last() == after
}

proof fn lemma_outputs(
    before: Seq<u8>,
    inputs: Seq<Outpoint>,
    txid: Seq<char>,
    outputs: Seq<u16>,
    contract_id: Seq<char>,
    transition: Seq<u8>,
    n: int,
) -> (psbts: Seq<Seq<u8>>)
    requires
        0 <= n <= outputs.len(),
        outputs_consumed(
            before,
            views(inputs),
            txid,
            outputs,
            contract_id,
            transition,
            n as nat,
        ) is Some,
    ensures
        consumes_each(psbts, inputs, txid, outputs.take(n), contract_id, transition),
        psbts[0] == before,
        outputs_consumed(
            before,
            views(inputs),
            txid,
            outputs,
            contract_id,
            transition,
            n as nat,
        ) == Some(psbts.last()),
    decreases n,
{
    let all = views(inputs);
    if n == 0 {
        seq![before]
    } else {
        let head = lemma_outputs(before, inputs, txid, outputs, contract_id, transition, n - 1);
        let after = outputs_consumed(
            before,
            all,
            txid,
            outputs,
            contract_id,
            transition,
            n as nat,
        )->0;
        assert(all.len() == inputs.len());
        lemma_consumes(
            head.last(),
            inputs,
            txid,
            outputs[n - 1],
            contract_id,
            transition,
            after,
        );
        let psbts = head.push(after);
        let some = outputs.take(n);
        assert forall|k: int| 0 <= k < some.len() implies consumes(
            psbts[k],
            psbts[k + 1],
            inputs,
            txid,
            #[trigger] some[k],
            contract_id,
            transition,
        ) by {
            assert(psbts[k] == head[k]);
            if k < n - 1 {
                assert(psbts[k + 1] == head[k + 1]);
                assert(outputs.take(n - 1)[k] == some[k]);
            }
        }
        psbts
    }
}

proof fn lemma_each(
    psbts: Seq<Seq<u8>>,
    inputs: Seq<Outpoint>,
    txid: Seq<char>,
    outputs: Seq<u16>,
    contract_id: Seq<char>,
    transition: Seq<u8>,
    n: int,
)
    requires
        0 <= n <= outputs.len(),
        consumes_each(psbts, inputs, txid, outputs, contract_id, transition),
    ensures
        outputs_consumed(
            psbts[0],
            views(inputs),
            txid,
            outputs,
            contract_id,
            transition,
            n as nat,
        ) == Some(psbts[n]),
    decreases n,
{
    if n > 0 {
        lemma_each(psbts, inputs, txid, outputs, contract_id, transition, n - 1);
        assert(views(inputs).len() == inputs.len());
        assert(consumes(
            psbts[n - 1],
            psbts[n - 1 + 1],
            inputs,
            txid,
            outputs[n - 1],
            contract_id,
            transition,
        ));
        lemma_consumes(
            psbts[n - 1],
            inputs,
            txid,
            outputs[n - 1],
            contract_id,
            transition,
            psbts[n],
        );
    }
}

/// Whether a blank transition can be put into a PSBT and leads to another one: it is added,
/// and noted as the consumer of its outputs of the transaction of its last seal.
pub open spec fn is_put(
    before: Seq<u8>,
    after: Seq<u8>,
    inputs: Seq<Outpoint>,
    contract_id: Seq<char>,
    blank: Blank,
) -> bool {
    &&& can_be_added(before, blank.0@)
    &&& transition_pushed(before, blank.0@) is Some
    &&& seal_txids(blank.0@) matches Some(seals)
    &&& seals.len() > 0
    &&& seals.last() matches Some(txid)
    &&& consumes_all(
        transition_pushed(before, blank.0@)->0,
        after,
        inputs,
        txid,
        blank.1@,
        contract_id,
        blank.0@,
    )
}

/// A blank transition is put into a PSBT exactly where it can be added, its last seal names
/// a transaction, and it can be noted as the consumer of its outputs of that transaction
/// among the inputs. One without such a seal is unexpected.
pub proof fn blanks_consume_their_outputs(
    psbt: Vec<u8>,
    inputs: Vec<Outpoint>,
    contract_id: String,
    blanks: Vec<Blank>,
    r: Result<Vec<u8>, WalletError>,
    after: Seq<u8>,
)
    requires
        blanks@.len() == 1,
        call_ensures(embed_blanks, (&psbt, &inputs, &contract_id, &blanks), r),
    ensures
        r matches Ok(next) ==> is_put(psbt@, next@, inputs@, contract_id@, blanks@[0]),
        is_put(psbt@, after, inputs@, contract_id@, blanks@[0]) ==> (r matches Ok(next) && next@
            == after),
        can_be_added(psbt@, blanks@[0].0@) && transition_pushed(psbt@, blanks@[0].0@) is Some
            && (seal_txids(blanks@[0].0@) matches Some(seals) && (seals.len() == 0
            || seals.last() is None)) ==> (r matches Err(
            WalletError::Internal(InternalError::Unexpected),
        )),
        r matches Err(e) ==> (e matches WalletError::Internal(InternalError::Unexpected)) || (
        e matches WalletError::Internal(InternalError::RgbData)),
{
    let all = views(inputs@);
    let id = contract_id@;
    let blank = blanks@[0];
    lemma_added(psbt@, blank.0@);
    assert(psbt_with_blanks(psbt@, all, id, blanks@, 0) == Embedded::Done(psbt@));
    assert(psbt_with_blanks(psbt@, all, id, blanks@, 1) == psbt_with_blank(
        psbt@,
        all,
        id,
        blank.0@,
        blank.1@,
    ));
    if r is Ok {
        lemma_put(psbt@, r->Ok_0@, inputs@, id, blank);
    }
    lemma_put(psbt@, after, inputs@, id, blank);
}

proof fn lemma_put(
    before: Seq<u8>,
    after: Seq<u8>,
    inputs: Seq<Outpoint>,
    contract_id: Seq<char>,
    blank: Blank,
)
    ensures
        is_put(before, after, inputs, contract_id, blank) <==> psbt_with_blank(
            before,
            views(inputs),
            contract_id,
            blank.0@,
            blank.1@,
        ) == Embedded::Done(after),
{
    let t = blank.0@;
    let outputs = blank.1@;
    let n = outputs.len() as int;
    lemma_added(before, t);
    if psbt_with_transition(before, t) is Some && seal_txids(t) is Some && (seal_txids(
        t,
    )->0).len() > 0 && (seal_txids(t)->0).last() is Some {
        let p = psbt_with_transition(before, t)->0;
        let txid = (seal_txids(t)->0).last()->0;
        assert(outputs.take(n) =~= outputs);
        if psbt_with_blank(before, views(inputs), contract_id, t, outputs) == Embedded::Done(
            after,
        ) {
            let psbts = lemma_outputs(p, inputs, txid, outputs, contract_id, t, n);
            assert(consumes_each(psbts, inputs, txid, outputs, contract_id, t));
        }
        if consumes_all(p, after, inputs, txid, outputs, contract_id, t) {
            let psbts = choose|psbts: Seq<Seq<u8>>| #[trigger]
                consumes_each(psbts, inputs, txid, outputs, contract_id, t) && psbts[0] == p
                    && psbts.last() == after;
            lemma_each(psbts, inputs, txid, outputs, contract_id, t, n);
        }
    }
}

/// What leaves an outpoint with states: the amount of the last one, if it is one.
pub open spec fn leaves(state: (Outpoint, Vec<u8>)) -> int {
    match states_on(state.1@) {
        Some(list) => if list.len() > 0 && list.last().1 is Some {
            list.last().1->0 as int
        } else {
            0
        },
        None => 0,
    }
}

/// What leaves outpoints with states together.
pub open spec fn leaves_in_all(states: Seq<(Outpoint, Vec<u8>)>) -> int
    decreases states.len(),
{
    if states.len() == 0 {
        0
    } else {
        leaves_in_all(states.drop_last()) + leaves(states.last())
    }
}

/// What leaves outpoints together is the sum of what leaves each.
pub proof fn lemma_leaves(states: Seq<(Outpoint, Vec<u8>)>)
    requires
        forall|i: int| 0 <= i < states.len() ==> states_on((#[trigger] states[i]).1@) is Some,
    ensures
        leaves_in_all(states) == sum(amounts_leaving(states)),
    decreases states.len(),
{
    if states.len() > 0 {
        let head = states.drop_last();
        let n = states.len() - 1;
        assert forall|i: int| 0 <= i < head.len() implies states_on(
            (#[trigger] head[i]).1@,
        ) is Some by {
            assert(head[i] == states[i]);
        }
        lemma_leaves(head);
        assert(amounts_leaving(states).drop_last() =~= amounts_leaving(head));
        assert(states_on(states[n].1@) is Some);
        assert(amounts_leaving(states).last() == amount_leaving(states.last()));
    }
}

/// Whether states can move: there are some, and each can be read and is of the right to own
/// an asset.
pub open spec fn are_movable(states: Seq<(Outpoint, Vec<u8>)>) -> bool {
    &&& states.len() > 0
    &&& forall|j: int| 0 <= j < states.len() ==> are_owned(states_on((#[trigger] states[j]).1@))
}

/// Whether states can be read and are all of the right to own an asset.
pub open spec fn are_owned(list: Option<Seq<((Seq<char>, u16, u16), Option<u64>)>>) -> bool {
    list matches Some(states) && forall|k: int|
        0 <= k < states.len() ==> (#[trigger] states[k]).0.1 == 0xA1
}

/// States can move exactly where the library moves them.
pub proof fn lemma_movable(states: Seq<(Outpoint, Vec<u8>)>)
    ensures
        are_movable(states) <==> can_move(states),
{
    if are_movable(states) {
        assert forall|j: int| 0 <= j < states.len() implies movable(
            states_on((#[trigger] states[j]).1@),
        ) by {
            assert(are_owned(states_on(states[j].1@)));
        }
    }
    if can_move(states) {
        assert forall|j: int| 0 <= j < states.len() implies are_owned(
            states_on((#[trigger] states[j]).1@),
        ) by {
            assert(movable(states_on(states[j].1@)));
        }
    }
}

/// Moving states notes all that leaves the outpoints with them, where these differ. The
/// contract is added to the PSBT first, where it has to be, and states that are not of the
/// right to own an asset are refused.
pub proof fn all_that_leaves_is_moved(
    psbt: Vec<u8>,
    inputs: Vec<Outpoint>,
    work: BlankWork,
    contract: Option<Vec<u8>>,
    change_utxo: DbTxo,
    r: Result<MovedStates, WalletError>,
)
    requires
        call_ensures(move_states, (&psbt, &inputs, &work, &contract, &change_utxo), r),
    ensures
        !are_movable(work.states@) ==> (r matches Err(
            WalletError::Internal(InternalError::RgbData),
        )),
        contract matches Some(c) && (!can_be_written(psbt@) || contract_set(psbt@, c@) is None)
            ==> (r matches Err(WalletError::Internal(InternalError::RgbData))),
        r matches Ok(moved) ==> all_alone(work.states@) ==> moved.amount == leaves_in_all(
            work.states@,
        ),
        r matches Err(e) ==> (e matches WalletError::Internal(InternalError::Unexpected)) || (
        e matches WalletError::Internal(InternalError::RgbData)),
{
    lemma_movable(work.states@);
    if r is Ok && all_alone(work.states@) {
        assert forall|i: int| 0 <= i < work.states@.len() implies states_on(
            (#[trigger] work.states@[i]).1@,
        ) is Some by {
            assert(are_owned(states_on(work.states@[i].1@)));
        }
        lemma_leaves(work.states@);
        assert(states_moved(
            psbt@,
            inputs@,
            work,
            contract,
            change_utxo,
            r->Ok_0.psbt@,
            r->Ok_0.amount,
        ));
    }
}

/// Whether each of a list of PSBTs comes from the one before it by putting the next blank
/// transition into it.
pub open spec fn are_put(
    psbts: Seq<Seq<u8>>,
    inputs: Seq<Outpoint>,
    contract_id: Seq<char>,
    blanks: Seq<Blank>,
) -> bool {
    &&& psbts.len() == blanks.len() + 1
    &&& forall|i: int|
        0 <= i < blanks.len() ==> is_put(
            psbts[i],
            psbts[i + 1],
            inputs,
            contract_id,
            #[trigger] blanks[i],
        )
}

proof fn lemma_all_put(
    before: Seq<u8>,
    inputs: Seq<Outpoint>,
    contract_id: Seq<char>,
    blanks: Seq<Blank>,
    n: int,
) -> (psbts: Seq<Seq<u8>>)
    requires
        0 <= n <= blanks.len(),
        psbt_with_blanks(before, views(inputs), contract_id, blanks, n as nat) is Done,
    ensures
        are_put(psbts, inputs, contract_id, blanks.take(n)),
        psbts[0] == before,
        psbt_with_blanks(before, views(inputs), contract_id, blanks, n as nat) == Embedded::Done(
            psbts.last(),
        ),
    decreases n,
{
    if n == 0 {
        seq![before]
    } else {
        let head = lemma_all_put(before, inputs, contract_id, blanks, n - 1);
        let blank = blanks[n - 1];
        let after = psbt_with_blank(
            head.last(),
            views(inputs),
            contract_id,
            blank.0@,
            blank.1@,
        )->Done_0;
        lemma_put(head.last(), after, inputs, contract_id, blank);
        let psbts = head.push(after);
        let list = blanks.take(n);
        assert forall|i: int| 0 <= i < list.len() implies is_put(
            psbts[i],
            psbts[i + 1],
            inputs,
            contract_id,
            #[trigger] list[i],
        ) by {
            if i < n - 1 {
                assert(blanks.take(n - 1)[i] == list[i]);
            }
        }
        psbts
    }
}

/// Whether blank transitions move states to an output: each of them moves what is on one of
/// the outpoints with them, and each outpoint that stands alone has its own.
pub open spec fn move_all_to(
    blanks: Seq<Blank>,
    states: Seq<(Outpoint, Vec<u8>)>,
    txo: DbTxo,
) -> bool {
    &&& 0 < blanks.len() <= states.len()
    &&& forall|i: int|
        0 <= i < blanks.len() ==> is_moved_by(#[trigger] blanks[i], states, txo)
    &&& forall|j: int|
        0 <= j < states.len() && #[trigger] stands_alone(states, j) ==> has_blank(
            blanks,
            states[j],
            txo,
        )
}

/// Whether a blank transition moves what is on one of the outpoints with states.
pub open spec fn is_moved_by(blank: Blank, states: Seq<(Outpoint, Vec<u8>)>, txo: DbTxo) -> bool {
    exists|j: int|
        0 <= j < states.len() && moves_to(blank, #[trigger] states[j], txo)
}

/// Whether one of the blank transitions moves what is on an outpoint with states.
pub open spec fn has_blank(blanks: Seq<Blank>, state: (Outpoint, Vec<u8>), txo: DbTxo) -> bool {
    exists|i: int| 0 <= i < blanks.len() && moves_to(#[trigger] blanks[i], state, txo)
}

/// Whether a blank transition moves what is on an outpoint with states to an output.
pub open spec fn moves_to(blank: Blank, state: (Outpoint, Vec<u8>), txo: DbTxo) -> bool {
    moves(
        blank.0@,
        blank.1@,
        (state.0.txid@, state.0.vout),
        states_on(state.1@)->0,
        canonical((txo.txid@, txo.vout)),
    )
}

/// Whether a PSBT comes from another one by moving states to the output of the change: by
/// blank transitions from the outpoints with them, which are put into it one by one, once it
/// has the contract where it has to. The amount is all that they move.
pub open spec fn are_moved(
    before: Seq<u8>,
    after: Seq<u8>,
    inputs: Seq<Outpoint>,
    work: BlankWork,
    contract: Option<Vec<u8>>,
    change_utxo: DbTxo,
    amount: u64,
) -> bool {
    exists|blanks: Seq<Blank>, psbts: Seq<Seq<u8>>|
        {
            &&& #[trigger] move_all_to(blanks, work.states@, change_utxo)
            &&& #[trigger] are_put(psbts, inputs, work.contract_id@, blanks)
            &&& contract matches Some(c) ==> contract_set(before, c@) == Some(psbts[0])
            &&& contract is None ==> psbts[0] == before
            &&& psbts.last() == after
            &&& can_be_read(blanks)
            &&& amount == moved_in_all(blanks)
        }
}

/// States that the library moves go to the output of the change.
pub proof fn lemma_are_moved(
    before: Seq<u8>,
    after: Seq<u8>,
    inputs: Seq<Outpoint>,
    work: BlankWork,
    contract: Option<Vec<u8>>,
    change_utxo: DbTxo,
    amount: u64,
)
    requires
        psbt_with_optional_contract(before, contract) is Some,
        states_moved(before, inputs, work, contract, change_utxo, after, amount),
    ensures
        are_moved(before, after, inputs, work, contract, change_utxo, amount),
{
    let target = canonical(change_utxo.outpoint_spec()@);
    let start = psbt_with_optional_contract(before, contract)->0;
    let blanks = choose|blanks: Seq<Blank>|
        {
            &&& #[trigger] blanks_move(blanks, work.states@, target)
            &&& psbt_with_blanks(
                start,
                views(inputs),
                work.contract_id@,
                blanks,
                blanks.len(),
            ) == Embedded::Done(after)
            &&& moved_amount(blanks, blanks.len()) == Some(amount as nat)
        };
    let n = blanks.len() as int;
    assert(blanks.take(n) =~= blanks);
    lemma_moved(blanks, n);
    let psbts = lemma_all_put(start, inputs, work.contract_id@, blanks, n);
    lemma_move_all(blanks, work.states@, change_utxo);
    assert(are_put(psbts, inputs, work.contract_id@, blanks));
}

/// States move to the output of the change.
pub proof fn states_move_to_the_change(
    psbt: Vec<u8>,
    inputs: Vec<Outpoint>,
    work: BlankWork,
    contract: Option<Vec<u8>>,
    change_utxo: DbTxo,
    moved: MovedStates,
)
    requires
        call_ensures(
            move_states,
            (&psbt, &inputs, &work, &contract, &change_utxo),
            Ok::<MovedStates, WalletError>(moved),
        ),
    ensures
        are_moved(
            psbt@,
            moved.psbt@,
            inputs@,
            work,
            contract,
            change_utxo,
            moved.amount,
        ),
{
    lemma_are_moved(
        psbt@,
        moved.psbt@,
        inputs@,
        work,
        contract,
        change_utxo,
        moved.amount,
    );
}

/// Whether blank transitions can be put into a PSBT one by one, and what they move can be
/// told and fits.
pub open spec fn can_be_put(
    psbt: Seq<u8>,
    inputs: Seq<Outpoint>,
    contract_id: Seq<char>,
    blanks: Seq<Blank>,
) -> bool {
    &&& can_be_read(blanks)
    &&& moved_in_all(blanks) <= u64::MAX
    &&& exists|psbts: Seq<Seq<u8>>| #[trigger]
        are_put(psbts, inputs, contract_id, blanks) && psbts[0] == psbt
}

proof fn lemma_chain(
    psbts: Seq<Seq<u8>>,
    inputs: Seq<Outpoint>,
    contract_id: Seq<char>,
    blanks: Seq<Blank>,
    n: int,
)
    requires
        are_put(psbts, inputs, contract_id, blanks),
        0 <= n <= blanks.len(),
    ensures
        psbt_with_blanks(psbts[0], views(inputs), contract_id, blanks, n as nat)
            == Embedded::Done(psbts[n]),
    decreases n,
{
    if n > 0 {
        lemma_chain(psbts, inputs, contract_id, blanks, n - 1);
        assert(is_put(psbts[n - 1], psbts[n - 1 + 1], inputs, contract_id, blanks[n - 1]));
        lemma_put(psbts[n - 1], psbts[n], inputs, contract_id, blanks[n - 1]);
    }
}

/// Where states can move and the contract can be set where it has to, they are refused only
/// where blank transitions that move them to the change cannot be put into the PSBT.
pub proof fn only_the_psbt_refuses_states(
    psbt: Vec<u8>,
    inputs: Vec<Outpoint>,
    work: BlankWork,
    contract: Option<Vec<u8>>,
    change_utxo: DbTxo,
    e: WalletError,
) -> (blanks: Seq<Blank>)
    requires
        are_movable(work.states@),
        contract matches Some(c) ==> can_be_written(psbt@) && contract_set(psbt@, c@) is Some,
        call_ensures(
            move_states,
            (&psbt, &inputs, &work, &contract, &change_utxo),
            Err::<MovedStates, WalletError>(e),
        ),
    ensures
        move_all_to(blanks, work.states@, change_utxo),
        contract matches Some(c) ==> !can_be_put(
            contract_set(psbt@, c@)->0,
            inputs@,
            work.contract_id@,
            blanks,
        ),
        contract is None ==> !can_be_put(psbt@, inputs@, work.contract_id@, blanks),
{
    lemma_movable(work.states@);
    let target = canonical(change_utxo.outpoint_spec()@);
    let start = psbt_with_optional_contract(psbt@, contract)->0;
    assert(blanks_refused(e, psbt@, inputs@, work, contract, change_utxo));
    let blanks = choose|blanks: Seq<Blank>|
        {
            let done = psbt_with_blanks(
                start,
                views(inputs@),
                work.contract_id@,
                blanks,
                blanks.len(),
            );
            let amount = moved_amount(blanks, blanks.len());
            &&& #[trigger] blanks_move(blanks, work.states@, target)
            &&& match done {
                Embedded::Refused => e matches WalletError::Internal(InternalError::RgbData),
                Embedded::NoSeal => e matches WalletError::Internal(InternalError::Unexpected),
                Embedded::Done(_) => {
                    &&& e matches WalletError::Internal(InternalError::Unexpected)
                    &&& amount is None || amount->0 > u64::MAX
                },
            }
        };
    lemma_move_all(blanks, work.states@, change_utxo);
    let n = blanks.len() as int;
    assert(blanks.take(n) =~= blanks);
    lemma_moved(blanks, n);
    if can_be_put(start, inputs@, work.contract_id@, blanks) {
        let psbts = choose|psbts: Seq<Seq<u8>>| #[trigger]
            are_put(psbts, inputs@, work.contract_id@, blanks) && psbts[0] == start;
        lemma_chain(psbts, inputs@, work.contract_id@, blanks, n);
    }
    blanks
}

proof fn lemma_move_all(blanks: Seq<Blank>, states: Seq<(Outpoint, Vec<u8>)>, txo: DbTxo)
    requires
        blanks_move(blanks, states, canonical(txo.outpoint_spec()@)),
    ensures
        move_all_to(blanks, states, txo),
{
    let target = canonical(txo.outpoint_spec()@);
    assert forall|i: int| 0 <= i < blanks.len() implies is_moved_by(
        #[trigger] blanks[i],
        states,
        txo,
    ) by {
        let j = choose|j: int|
            0 <= j < states.len() && one_moves(blanks[i], #[trigger] states[j], target);
        assert(moves_to(blanks[i], states[j], txo));
    }
    assert forall|j: int|
        0 <= j < states.len() && #[trigger] stands_alone(states, j) implies has_blank(
        blanks,
        states[j],
        txo,
    ) by {
        assert(is_covered(blanks, states[j], target));
        let i = choose|i: int|
            0 <= i < blanks.len() && one_moves(#[trigger] blanks[i], states[j], target);
        assert(moves_to(blanks[i], states[j], txo));
    }
}

} // verus!
