//! The preparation of a PSBT that transfers assets, step by step.

use vstd::prelude::*;

use crate::chain::is_txid;
use crate::database::records::Records;
use crate::database::{DbTxo, LocalUnspent};
use crate::error::{InternalError, WalletError};
use crate::laws::preparing::{are_noted, is_noted_for, lemma_noted};
use crate::rgb_data::{
    all_alone, is_contract_id, psbt_bundled, psbt_with_contract, psbt_with_host,
};
use crate::seqs::{lemma_filter_ends, lemma_filter_step, sum};
use crate::wallet::compose::{
    all_payable, amounts_leaving, can_move, check_asset_id, commit_transitions, composable,
    compose_transfer, has_work, inputs_worth, is_work, move_states, of_asset, plan_blank,
    psbt_with_optional_contract, states_moved, states_refused, states_to_move, states_valid,
    transfer_composed, transfer_refused, BlankWork, ComposedTransfer, ContractState, MovedStates,
};
use crate::wallet::outputs::{
    funds_known, get_utxo, next_utxo, spendable_bitcoins, UTXO_SIZE,
};
use crate::wallet::send::{InfoAssetTransfer, InfoBatchTransfer};
use crate::wallet::types::Outpoint;

verus! {

/// A PSBT that is being prepared. First the transfer of each asset is put into it,
/// then the states of other assets on its inputs move to the change, and at last it
/// commits to all of that.
#[derive(Debug)]
pub struct Preparation {
    psbt: Vec<u8>,
    change_utxo: DbTxo,
    transfers: Vec<(String, InfoAssetTransfer)>,
    endseals: Vec<Vec<String>>,
    blank_allocations: Vec<(String, u64)>,
    donation: bool,
}

impl Preparation {
    /// The PSBT as it stands.
    pub closed spec fn psbt(&self) -> Seq<u8> {
        self.psbt@
    }

    /// The output that receives the change.
    pub closed spec fn change_utxo(&self) -> DbTxo {
        self.change_utxo
    }

    /// The transfers to put into the PSBT.
    pub closed spec fn transfers(&self) -> Seq<(String, InfoAssetTransfer)> {
        self.transfers@
    }

    /// The seals of the transfers that are in the PSBT.
    pub closed spec fn endseals(&self) -> Seq<Vec<String>> {
        self.endseals@
    }

    /// The amounts of other assets that move to the change.
    pub closed spec fn blank_allocations(&self) -> Seq<(String, u64)> {
        self.blank_allocations@
    }

    /// Whether the transfer is a donation.
    pub closed spec fn donation(&self) -> bool {
        self.donation
    }

    /// Whether transaction IDs are valid, amounts can be counted, and no transfer is
    /// put into the PSBT twice.
    pub open spec fn wf(&self) -> bool {
        &&& is_txid(self.change_utxo().txid@)
        &&& forall|i: int|
            0 <= i < self.transfers().len() ==> composable((#[trigger] self.transfers()[i]).1)
        &&& self.endseals().len() <= self.transfers().len()
    }

    /// Whether all transfers are in the PSBT.
    pub open spec fn composed(&self) -> bool {
        self.endseals().len() == self.transfers().len()
    }

    /// Whether two preparations agree in what never changes.
    pub open spec fn same_purpose(&self, other: &Preparation) -> bool {
        &&& self.change_utxo() == other.change_utxo()
        &&& self.transfers() == other.transfers()
        &&& self.donation() == other.donation()
    }

    /// Starts with a PSBT that spends the inputs of the transfers: finds the output
    /// for the change, which is none of them.
    pub fn begin(
        psbt: Vec<u8>,
        all_inputs: &Vec<Outpoint>,
        transfers: Vec<(String, InfoAssetTransfer)>,
        unspents: &Vec<LocalUnspent>,
        donation: bool,
    ) -> (r: Result<Preparation, WalletError>)
        requires
            forall|i: int| 0 <= i < transfers@.len() ==> composable((#[trigger] transfers@[i]).1),
            match next_utxo(unspents@, all_inputs@) {
                None => funds_known(unspents@),
                Some(utxo) => is_txid(utxo.txid@),
            },
        ensures
            ({
                let next = next_utxo(unspents@, all_inputs@);
                let funded = spendable_bitcoins(unspents@) >= UTXO_SIZE * 2;
                &&& r is Ok <==> next is Some
                &&& (r matches Err(WalletError::InsufficientFunds)) <==> next is None && !funded
                &&& (r matches Err(WalletError::InsufficientAllocationSlots)) <==> next is None
                    && funded
                &&& r matches Ok(p) ==> {
                    &&& p.wf()
                    &&& p.psbt() == psbt@
                    &&& Some(p.change_utxo()) == next
                    &&& p.transfers() == transfers@
                    &&& p.endseals().len() == 0
                    &&& p.blank_allocations().len() == 0
                    &&& p.donation() == donation
                }
            }),
    {
        match get_utxo(unspents, all_inputs) {
            Err(e) => Err(e),
            Ok(change_utxo) => Ok(
                Preparation {
                    psbt,
                    change_utxo,
                    transfers,
                    endseals: Vec::new(),
                    blank_allocations: Vec::new(),
                    donation,
                },
            ),
        }
    }

    /// Gives the next asset whose transfer is not in the PSBT yet: its ID and the
    /// inputs that the RGB node has to consign. There is none once all are in.
    pub fn next_asset(&self) -> (r: Result<Option<(&String, &Vec<Outpoint>)>, WalletError>)
        requires
            self.wf(),
        ensures
            ({
                let next = self.transfers()[self.endseals().len() as int];
                &&& self.composed() ==> (r matches Ok(None))
                &&& !self.composed() && !is_contract_id(next.0@) ==> (r matches Err(
                    WalletError::Internal(InternalError::RgbData),
                ))
                &&& !self.composed() && is_contract_id(next.0@) ==> (r matches Ok(
                    Some((asset_id, inputs)),
                ) && *asset_id == next.0 && *inputs == next.1.asset_spend.input_outpoints)
            }),
    {
        let i: usize = self.endseals.len();
        if i == self.transfers.len() {
            return Ok(None);
        }
        match check_asset_id(&self.transfers[i].0) {
            Err(e) => Err(e),
            Ok(()) => Ok(
                Some((&self.transfers[i].0, &self.transfers[i].1.asset_spend.input_outpoints)),
            ),
        }
    }

    /// Puts the transfer of the next asset into the PSBT, with its contract and the
    /// consignment of its inputs.
    pub fn add_transfer(&mut self, contract: &Vec<u8>, consignment: &Vec<u8>, records: &Records) -> (r:
        Result<(), WalletError>)
        requires
            old(self).wf(),
            !old(self).composed(),
        ensures
            final(self).wf(),
            final(self).same_purpose(old(self)),
            final(self).blank_allocations() == old(self).blank_allocations(),
            ({
                let n = old(self).endseals().len() as int;
                let next = old(self).transfers()[n];
                match r {
                    Err(e) => {
                        &&& final(self).psbt() == old(self).psbt()
                        &&& final(self).endseals() == old(self).endseals()
                        &&& transfer_refused(
                            e,
                            old(self).psbt(),
                            contract@,
                            consignment@,
                            next.0@,
                            next.1,
                            *records,
                            old(self).change_utxo(),
                        )
                    },
                    Ok(()) => {
                        &&& psbt_with_contract(old(self).psbt(), contract@) is Some
                        &&& all_payable(*records, next.1.recipients@)
                        &&& inputs_worth(consignment@, next.1)
                        &&& final(self).endseals().len() == n + 1
                        &&& final(self).endseals().take(n) == old(self).endseals()
                        &&& transfer_composed(
                            old(self).psbt(),
                            contract@,
                            consignment@,
                            next.0@,
                            next.1,
                            old(self).change_utxo(),
                            final(self).psbt(),
                            final(self).endseals()[n]@,
                        )
                    },
                }
            }),
    {
        let i: usize = self.endseals.len();
        assert(composable(self.transfers()[i as int].1));
        match compose_transfer(
            &self.psbt,
            contract,
            consignment,
            &self.transfers[i].0,
            &self.transfers[i].1,
            records,
            &self.change_utxo,
        ) {
            Err(e) => Err(e),
            Ok(done) => {
                let ghost before = self.endseals@;
                let ComposedTransfer { psbt, endseals } = done;
                self.psbt = psbt;
                self.endseals.push(endseals);
                assert(self.endseals@.take(i as int) =~= before);
                Ok(())
            },
        }
    }

    /// Tells which states of a contract on the inputs of the PSBT have to move to the
    /// change.
    pub fn plan_state(&self, state: ContractState) -> (r: Option<BlankWork>)
        requires
            self.wf(),
            states_valid(state.states@),
        ensures
            r is Some <==> has_work(self.transfers(), state),
            r matches Some(work) ==> is_work(work, self.transfers(), state) && states_valid(
                work.states@,
            ),
    {
        proof {
            let id = state.contract_id@;
            let p = of_asset(id);
            let found = self.transfers().filter(p);
            if found.len() > 0 {
                self.transfers().lemma_filter_contains_rev(p, found[0]);
                let k = choose|k: int|
                    0 <= k < self.transfers().len() && self.transfers()[k] == found[0];
                assert(composable(self.transfers()[k].1));
            }
        }
        plan_blank(&self.transfers, state)
    }

    /// Tells which states on the inputs of the PSBT have to move to the change, for each
    /// contract that has some.
    pub fn plan_states(&self, states: Vec<ContractState>) -> (r: Vec<BlankWork>)
        requires
            self.wf(),
            all_states_valid(states@),
        ensures
            works_planned(r@, self.transfers(), states@),
            forall|i: int| 0 <= i < r@.len() ==> states_valid((#[trigger] r@[i]).states@),
    {
        let ghost all = states@;
        let ghost p = of_work(self.transfers());
        let mut works: Vec<BlankWork> = Vec::new();
        proof {
            lemma_filter_ends(all, p);
        }
        for state in it: states.into_iter()
            invariant
                it.seq() == all,
                self.wf(),
                all_states_valid(all),
                p == of_work(self.transfers()),
                works@.len() == all.take(it.index() as int).filter(p).len(),
                forall|i: int|
                    0 <= i < works@.len() ==> is_work(
                        #[trigger] works@[i],
                        self.transfers(),
                        all.take(it.index() as int).filter(p)[i],
                    ) && states_valid(works@[i].states@),
        {
            let ghost k = it.index() as int;
            proof {
                assert(states_valid(all[k].states@));
                lemma_filter_step(all, p, k);
            }
            match self.plan_state(state) {
                None => {},
                Some(work) => {
                    works.push(work);
                },
            }
        }
        proof {
            lemma_filter_ends(all, p);
        }
        works
    }

    /// Moves states of a contract to the change, and notes the amount.
    pub fn add_state(
        &mut self,
        inputs: &Vec<Outpoint>,
        work: &BlankWork,
        contract: &Option<Vec<u8>>,
    ) -> (r: Result<(), WalletError>)
        requires
            old(self).wf(),
            states_valid(work.states@),
            contract is Some <==> work.needs_contract,
        ensures
            final(self).wf(),
            final(self).same_purpose(old(self)),
            final(self).endseals() == old(self).endseals(),
            r matches Err(e) ==> {
                &&& final(self).psbt() == old(self).psbt()
                &&& final(self).blank_allocations() == old(self).blank_allocations()
                &&& states_refused(
                    e,
                    old(self).psbt(),
                    inputs@,
                    *work,
                    *contract,
                    old(self).change_utxo(),
                )
            },
            r is Ok ==> {
                let n = old(self).blank_allocations().len() as int;
                let noted = final(self).blank_allocations();
                &&& psbt_with_optional_contract(old(self).psbt(), *contract) is Some
                &&& can_move(work.states@)
                &&& noted.len() == n + 1
                &&& noted.take(n) == old(self).blank_allocations()
                &&& noted[n].0@ == work.contract_id@
                &&& states_moved(
                    old(self).psbt(),
                    inputs@,
                    *work,
                    *contract,
                    old(self).change_utxo(),
                    final(self).psbt(),
                    noted[n].1,
                )
                &&& is_noted_for(noted[n], *work)
            },
    {
        match move_states(&self.psbt, inputs, work, contract, &self.change_utxo) {
            Err(e) => Err(e),
            Ok(moved) => {
                let ghost before = self.blank_allocations@;
                let MovedStates { psbt, amount } = moved;
                self.psbt = psbt;
                self.blank_allocations.push((work.contract_id.clone(), amount));
                assert(self.blank_allocations@.take(before.len() as int) =~= before);
                proof {
                    lemma_noted(
                        old(self).psbt(),
                        inputs@,
                        *work,
                        *contract,
                        self.change_utxo,
                        self.psbt@,
                        self.blank_allocations@[before.len() as int],
                    );
                }
                Ok(())
            },
        }
    }

    /// Moves states of contracts to the change, and notes the amount of each. Stops at the
    /// first contract whose states are refused.
    pub fn add_states(
        &mut self,
        inputs: &Vec<Outpoint>,
        works: &Vec<BlankWork>,
        contracts: &Vec<Option<Vec<u8>>>,
    ) -> (r: Result<(), WalletError>)
        requires
            old(self).wf(),
            contracts@.len() == works@.len(),
            forall|i: int|
                0 <= i < works@.len() ==> states_valid((#[trigger] works@[i]).states@) && (
                contracts@[i] is Some <==> works@[i].needs_contract),
        ensures
            final(self).wf(),
            final(self).same_purpose(old(self)),
            final(self).endseals() == old(self).endseals(),
            ({
                let n = old(self).blank_allocations().len() as int;
                let noted = final(self).blank_allocations();
                let change_utxo = old(self).change_utxo();
                &&& noted.len() >= n
                &&& noted.take(n) == old(self).blank_allocations()
                &&& are_noted(noted.skip(n), works@)
                &&& r is Ok <==> noted.len() == n + works@.len()
                &&& r is Ok ==> works_done(
                    old(self).psbt(),
                    inputs@,
                    works@,
                    contracts@,
                    change_utxo,
                    final(self).psbt(),
                    noted.skip(n),
                )
                &&& r matches Err(e) ==> exists|k: int|
                    {
                        &&& 0 <= k < works@.len()
                        &&& works_done(
                            old(self).psbt(),
                            inputs@,
                            #[trigger] works@.take(k),
                            contracts@.take(k),
                            change_utxo,
                            final(self).psbt(),
                            noted.skip(n),
                        )
                        &&& states_refused(
                            e,
                            final(self).psbt(),
                            inputs@,
                            works@[k],
                            contracts@[k],
                            change_utxo,
                        )
                    }
            }),
    {
        let ghost n = self.blank_allocations().len() as int;
        let ghost change_utxo = self.change_utxo();
        let ghost start = self.blank_allocations();
        let ghost mut psbts: Seq<Seq<u8>> = seq![self.psbt()];
        let mut i: usize = 0;
        assert(start.take(n) =~= start);
        while i < works.len()
            invariant
                i <= works.len(),
                contracts@.len() == works@.len(),
                forall|k: int|
                    0 <= k < works@.len() ==> states_valid((#[trigger] works@[k]).states@) && (
                    contracts@[k] is Some <==> works@[k].needs_contract),
                self.wf(),
                self.same_purpose(old(self)),
                self.endseals() == old(self).endseals(),
                start == old(self).blank_allocations(),
                change_utxo == old(self).change_utxo(),
                n == start.len(),
                self.blank_allocations().len() == n + i,
                self.blank_allocations().take(n) == start,
                psbts.len() == i + 1,
                psbts[0] == old(self).psbt(),
                psbts.last() == self.psbt(),
                are_noted(self.blank_allocations().skip(n), works@),
                forall|k: int|
                    0 <= k < i ==> #[trigger] one_moved(
                        psbts,
                        inputs@,
                        works@,
                        contracts@,
                        change_utxo,
                        self.blank_allocations().skip(n),
                        k,
                    ),
            decreases works.len() - i,
        {
            let ghost before = self.blank_allocations();
            let ghost psbts_before = psbts;
            assert(states_valid(works@[i as int].states@));
            match self.add_state(inputs, &works[i], &contracts[i]) {
                Err(e) => {
                    proof {
                        lemma_works_done(
                            psbts,
                            inputs@,
                            works@,
                            contracts@,
                            change_utxo,
                            self.blank_allocations().skip(n),
                            i as int,
                        );
                    }
                    return Err(e);
                },
                Ok(()) => {},
            }
            proof {
                psbts = psbts_before.push(self.psbt());
                let after = self.blank_allocations();
                assert(after.take(n + i) == before);
                assert(after.take(n) =~= before.take(n));
                assert forall|k: int| 0 <= k < after.skip(n).len() implies is_noted_for(
                    #[trigger] after.skip(n)[k],
                    works@[k],
                ) by {
                    if k < i {
                        assert(after.take(n + i)[n + k] == after[n + k]);
                        assert(before.skip(n)[k] == after.skip(n)[k]);
                    }
                }
                assert forall|k: int| 0 <= k < i + 1 implies #[trigger] one_moved(
                    psbts,
                    inputs@,
                    works@,
                    contracts@,
                    change_utxo,
                    after.skip(n),
                    k,
                ) by {
                    assert(psbts[k] == psbts_before[k]);
                    assert(after.skip(n)[k] == after[n + k]);
                    if k < i {
                        assert(psbts[k + 1] == psbts_before[k + 1]);
                        assert(after.take(n + i)[n + k] == after[n + k]);
                        assert(before.skip(n)[k] == before[n + k]);
                        assert(one_moved(
                            psbts_before,
                            inputs@,
                            works@,
                            contracts@,
                            change_utxo,
                            before.skip(n),
                            k,
                        ));
                    }
                }
            }
            i += 1;
        }
        proof {
            assert(works@.take(i as int) =~= works@);
            assert(contracts@.take(i as int) =~= contracts@);
            lemma_works_done(
                psbts,
                inputs@,
                works@,
                contracts@,
                change_utxo,
                self.blank_allocations().skip(n),
                i as int,
            );
        }
        Ok(())
    }

    /// Commits to all transitions in the PSBT.
    pub fn commit(&mut self) -> (r: Result<(), WalletError>)
        requires
            old(self).wf(),
        ensures
            final(self).wf(),
            final(self).same_purpose(old(self)),
            final(self).endseals() == old(self).endseals(),
            final(self).blank_allocations() == old(self).blank_allocations(),
            ({
                let bundled = psbt_bundled(old(self).psbt());
                let hosted = psbt_with_host(bundled->0);
                &&& (r matches Err(WalletError::Internal(InternalError::RgbData))) <==> bundled
                    is None
                &&& (r matches Err(WalletError::Internal(InternalError::Unexpected)))
                    <==> bundled is Some && hosted is None
                &&& r is Ok <==> bundled is Some && hosted is Some
                &&& r is Ok ==> hosted == Some(final(self).psbt())
                &&& r is Err ==> final(self).psbt() == old(self).psbt()
            }),
    {
        match commit_transitions(&self.psbt) {
            Err(e) => Err(e),
            Ok(next) => {
                self.psbt = next;
                Ok(())
            },
        }
    }

    /// Gives the PSBT as it stands.
    pub fn get_psbt(&self) -> (r: &Vec<u8>)
        ensures
            r@ == self.psbt(),
    {
        &self.psbt
    }

    /// Gives the transfers, with the seals that receive each asset, for the RGB node
    /// to finalize.
    pub fn get_transfers(&self) -> (r: (&Vec<(String, InfoAssetTransfer)>, &Vec<Vec<String>>))
        ensures
            r.0@ == self.transfers(),
            r.1@ == self.endseals(),
    {
        (&self.transfers, &self.endseals)
    }

    /// Ends the preparation: gives what has to be kept for the second half of the
    /// send operation.
    pub fn finish(self) -> (r: InfoBatchTransfer)
        ensures
            r.change_utxo_idx == self.change_utxo().idx,
            r.blank_allocations@ == self.blank_allocations(),
            r.donation == self.donation(),
    {
        InfoBatchTransfer {
            change_utxo_idx: self.change_utxo.idx,
            blank_allocations: self.blank_allocations,
            donation: self.donation,
        }
    }
}

/// Whether the transaction IDs of all outpoints with states are valid.
pub open spec fn all_states_valid(states: Seq<ContractState>) -> bool {
    forall|i: int| 0 <= i < states.len() ==> states_valid((#[trigger] states[i]).states@)
}

/// Picks the contracts for which there is something to do.
pub open spec fn of_work(transfers: Seq<(String, InfoAssetTransfer)>) -> spec_fn(
    ContractState,
) -> bool {
    |state: ContractState| has_work(transfers, state)
}

/// Whether works are what has to be done for contracts.
pub open spec fn works_planned(
    works: Seq<BlankWork>,
    transfers: Seq<(String, InfoAssetTransfer)>,
    states: Seq<ContractState>,
) -> bool {
    let left = states.filter(of_work(transfers));
    works.len() == left.len() && forall|i: int|
        0 <= i < works.len() ==> is_work(#[trigger] works[i], transfers, left[i])
}

/// Whether a PSBT comes from the one before it by moving the states of a contract, and
/// the amount is noted under its ID.
pub open spec fn one_moved(
    psbts: Seq<Seq<u8>>,
    inputs: Seq<Outpoint>,
    works: Seq<BlankWork>,
    contracts: Seq<Option<Vec<u8>>>,
    change_utxo: DbTxo,
    noted: Seq<(String, u64)>,
    k: int,
) -> bool {
    &&& noted[k].0@ == works[k].contract_id@
    &&& states_moved(
        psbts[k],
        inputs,
        works[k],
        contracts[k],
        change_utxo,
        psbts[k + 1],
        noted[k].1,
    )
}

/// Whether each PSBT comes from the one before it by moving the states of a contract,
/// and the amounts are noted under the IDs of the contracts.
pub open spec fn all_states_moved(
    psbts: Seq<Seq<u8>>,
    inputs: Seq<Outpoint>,
    works: Seq<BlankWork>,
    contracts: Seq<Option<Vec<u8>>>,
    change_utxo: DbTxo,
    noted: Seq<(String, u64)>,
) -> bool {
    noted.len() == works.len() && forall|k: int|
        0 <= k < works.len() ==> #[trigger] one_moved(
            psbts,
            inputs,
            works,
            contracts,
            change_utxo,
            noted,
            k,
        )
}

/// Whether a PSBT comes from another by moving the states of contracts, one contract
/// after the other, and the amounts are noted.
pub open spec fn works_done(
    before: Seq<u8>,
    inputs: Seq<Outpoint>,
    works: Seq<BlankWork>,
    contracts: Seq<Option<Vec<u8>>>,
    change_utxo: DbTxo,
    after: Seq<u8>,
    noted: Seq<(String, u64)>,
) -> bool {
    exists|psbts: Seq<Seq<u8>>|
        {
            &&& psbts.len() == works.len() + 1
            &&& psbts[0] == before
            &&& psbts.last() == after
            &&& #[trigger] all_states_moved(
                psbts,
                inputs,
                works,
                contracts,
                change_utxo,
                noted,
            )
        }
}

proof fn lemma_works_done(
    psbts: Seq<Seq<u8>>,
    inputs: Seq<Outpoint>,
    works: Seq<BlankWork>,
    contracts: Seq<Option<Vec<u8>>>,
    change_utxo: DbTxo,
    noted: Seq<(String, u64)>,
    n: int,
)
    requires
        0 <= n <= works.len(),
        works.len() == contracts.len(),
        noted.len() == n,
        psbts.len() == n + 1,
        forall|k: int|
            0 <= k < n ==> #[trigger] one_moved(
                psbts,
                inputs,
                works,
                contracts,
                change_utxo,
                noted,
                k,
            ),
    ensures
        works_done(
            psbts[0],
            inputs,
            works.take(n),
            contracts.take(n),
            change_utxo,
            psbts.last(),
            noted,
        ),
{
    assert forall|k: int| 0 <= k < n implies #[trigger] one_moved(
        psbts,
        inputs,
        works.take(n),
        contracts.take(n),
        change_utxo,
        noted,
        k,
    ) by {
        assert(one_moved(psbts, inputs, works, contracts, change_utxo, noted, k));
    }
    assert(all_states_moved(
        psbts,
        inputs,
        works.take(n),
        contracts.take(n),
        change_utxo,
        noted,
    ));
}

/// Whether an amount is noted under the ID of a contract.
pub open spec fn is_noted(noted: Seq<(String, u64)>, contract_id: Seq<char>) -> bool {
    exists|i: int| 0 <= i < noted.len() && (#[trigger] noted[i]).0@ == contract_id
}

/// For every contract with states on the inputs, an amount is noted if and only if
/// states are left over or its asset is not sent, and it is all that is left over: what
/// leaves the outpoints that do not pay for its own transfer.
pub proof fn left_over_assets_are_noted(
    transfers: Seq<(String, InfoAssetTransfer)>,
    states: Seq<ContractState>,
    works: Seq<BlankWork>,
    psbts: Seq<Seq<u8>>,
    inputs: Seq<Outpoint>,
    contracts: Seq<Option<Vec<u8>>>,
    change_utxo: DbTxo,
    noted: Seq<(String, u64)>,
    k: int,
)
    requires
        forall|i: int, j: int|
            0 <= i < j < states.len() ==> (#[trigger] states[i]).contract_id@ != (
            #[trigger] states[j]).contract_id@,
        works_planned(works, transfers, states),
        all_states_moved(psbts, inputs, works, contracts, change_utxo, noted),
        0 <= k < states.len(),
        all_alone(states_to_move(transfers, states[k])),
    ensures
        is_noted(noted, states[k].contract_id@) <==> has_work(transfers, states[k]),
        forall|i: int|
            0 <= i < noted.len() && (#[trigger] noted[i]).0@ == states[k].contract_id@
                ==> noted[i].1 == sum(
                amounts_leaving(states_to_move(transfers, states[k])),
            ),
{
    let p = of_work(transfers);
    let left = states.filter(p);
    let id = states[k].contract_id@;
    assert forall|i: int| 0 <= i < noted.len() && (#[trigger] noted[i]).0@ == id implies has_work(
        transfers,
        states[k],
    ) && noted[i].1 == sum(amounts_leaving(states_to_move(transfers, states[k]))) by {
        assert(one_moved(psbts, inputs, works, contracts, change_utxo, noted, i));
        assert(is_work(works[i], transfers, left[i]));
        states.lemma_filter_contains_rev(p, left[i]);
        states.lemma_filter_pred(p, i);
        let j = choose|j: int| 0 <= j < states.len() && states[j] == left[i];
        assert(states[j].contract_id@ == id);
        assert(j == k);
        assert(works[i].states@ == states_to_move(transfers, states[k]));
    }
    if has_work(transfers, states[k]) {
        states.lemma_filter_contains(p, k);
        let i = choose|i: int| 0 <= i < left.len() && left[i] == states[k];
        assert(is_work(works[i], transfers, left[i]));
        assert(one_moved(psbts, inputs, works, contracts, change_utxo, noted, i));
        assert(noted[i].0@ == id);
    }
}

} // verus!
