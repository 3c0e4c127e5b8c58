//! Issuing assets.

use vstd::prelude::*;

use crate::chain::{canonical, is_txid};
use crate::database::plans::{
    colored_amounts, colored_total, lemma_one_kind, NewAssetTransfer, NewBatchTransfer,
    NewColoring, NewTransfer,
};
use crate::database::{ColoringType, DbAsset, DbTxo, LocalUnspent};
use crate::error::{InternalError, WalletError};
use crate::laws::issuing::{is_first_free, lemma_next_free, none_is_free};
use crate::rgb_data::{
    all_coins, allocated_amounts, allocation_views, alone_on_output, ascii_error, asset_coins,
    check_ascii, check_rgb20, coin_amounts, coins_worth, consignment_fields, consignment_ids,
    create_contract, genesis_network, holds_coin, is_ascii_text, is_rgb20, known_coins,
    knows_allocations, outputs_differ, read_consignment, read_known_coins, read_network, CoinView,
};
use crate::seqs::{sum, total};
use crate::text::{decimal, parsed_u64, rendered_amounts_read_back, u64_to_string};
use crate::wallet::outputs::{
    funds_known, get_utxo, next_utxo, next_utxo_has_room, spendable_bitcoins, UTXO_SIZE,
};
use crate::wallet::types::{
    opt_text, Asset, Balance, BitcoinNetwork, Online, Outpoint, TransferStatus,
};
use crate::wallet::Wallet;

verus! {

/// An issuance that looks for an output for each of its amounts.
#[derive(Debug)]
pub struct Issuance {
    amounts: Vec<u64>,
    outputs: Vec<DbTxo>,
}

/// A contract that was made for an issuance.
#[derive(Debug, PartialEq, Eq)]
pub struct IssuedContract {
    /// ID of the asset
    pub asset_id: String,
    /// The contract
    pub contract: Vec<u8>,
}

/// What to store of an issuance, and the asset to show.
#[derive(Debug, PartialEq, Eq)]
pub struct IssuanceRecord {
    /// The asset to store
    pub db_asset: DbAsset,
    /// The transfer to store
    pub batch_transfer: NewBatchTransfer,
    /// The asset to show
    pub asset: Asset,
}

/// The outpoints of stored outputs.
pub open spec fn outpoints_of_txos(txos: Seq<DbTxo>) -> Seq<Outpoint> {
    txos.map_values(|t: DbTxo| t.outpoint_spec())
}

/// Whether no two stored outputs are the same output.
pub open spec fn different_outputs(txos: Seq<DbTxo>) -> bool {
    forall|i: int, j: int|
        0 <= i < j < txos.len() ==> (#[trigger] txos[i]).outpoint_spec()@ != (
        #[trigger] txos[j]).outpoint_spec()@
}

impl Issuance {
    /// The amounts to issue.
    pub closed spec fn amounts(&self) -> Seq<u64> {
        self.amounts@
    }

    /// The outputs that the first amounts go to.
    pub closed spec fn outputs(&self) -> Seq<DbTxo> {
        self.outputs@
    }

    /// Whether each of the first amounts goes to an output of its own, with a valid
    /// transaction ID.
    pub open spec fn wf(&self) -> bool {
        &&& self.outputs().len() <= self.amounts().len()
        &&& different_outputs(self.outputs())
        &&& forall|i: int|
            0 <= i < self.outputs().len() ==> is_txid((#[trigger] self.outputs()[i]).txid@)
    }

    /// Whether every amount goes to an output.
    pub open spec fn complete(&self) -> bool {
        self.outputs().len() == self.amounts().len()
    }

    /// Tells whether every amount goes to an output.
    pub fn is_complete(&self) -> (r: bool)
        requires
            self.wf(),
        ensures
            r == self.complete(),
    {
        self.outputs.len() == self.amounts.len()
    }

    /// Gives the outputs that the first amounts go to.
    pub fn get_outpoints(&self) -> (r: Vec<Outpoint>)
        ensures
            r@ == outpoints_of_txos(self.outputs()),
    {
        let mut list: Vec<Outpoint> = Vec::new();
        let mut i: usize = 0;
        while i < self.outputs.len()
            invariant
                i <= self.outputs.len(),
                list@ == outpoints_of_txos(self.outputs@.take(i as int)),
            decreases self.outputs.len() - i,
        {
            list.push(self.outputs[i].outpoint());
            i += 1;
            assert(list@ =~= outpoints_of_txos(self.outputs@.take(i as int)));
        }
        assert(self.outputs@.take(i as int) =~= self.outputs@);
        list
    }

    /// Finds the output for the next amount: the first that may receive an
    /// allocation and that no earlier amount goes to.
    pub fn next_output(&mut self, unspents: &Vec<LocalUnspent>) -> (r: Result<(), WalletError>)
        requires
            old(self).wf(),
            !old(self).complete(),
            match next_utxo(unspents@, outpoints_of_txos(old(self).outputs())) {
                None => funds_known(unspents@),
                Some(utxo) => is_txid(utxo.txid@),
            },
        ensures
            ({
                let next = next_utxo(unspents@, outpoints_of_txos(old(self).outputs()));
                let funded = spendable_bitcoins(unspents@) >= UTXO_SIZE * 2;
                &&& final(self).wf()
                &&& final(self).amounts() == old(self).amounts()
                &&& r is Ok <==> next is Some
                &&& r is Ok ==> final(self).outputs() == old(self).outputs().push(next->0)
                &&& r is Err ==> final(self).outputs() == old(self).outputs()
                &&& (r matches Err(WalletError::InsufficientFunds)) <==> next is None && !funded
                &&& (r matches Err(WalletError::InsufficientAllocationSlots)) <==> next is None
                    && funded
            }),
            r is Ok ==> final(self).outputs().len() == old(self).outputs().len() + 1
                && is_first_free(
                final(self).outputs().last(),
                unspents@,
                old(self).outputs(),
            ),
            r is Err <==> none_is_free(unspents@, old(self).outputs()),
    {
        proof {
            lemma_next_free(unspents@, self.outputs@);
        }
        let excluded: Vec<Outpoint> = self.get_outpoints();
        match get_utxo(unspents, &excluded) {
            Err(e) => Err(e),
            Ok(utxo) => {
                let ghost before = self.outputs@;
                proof {
                    next_utxo_has_room(unspents@, excluded@);
                    assert forall|i: int| 0 <= i < before.len() implies (
                    #[trigger] before[i]).outpoint_spec()@ != utxo.outpoint_spec()@ by {
                        assert(excluded@[i]@ == before[i].outpoint_spec()@);
                    }
                }
                self.outputs.push(utxo);
                Ok(())
            },
        }
    }

    /// The outputs with the amounts that go to them.
    pub open spec fn allocations(&self) -> Seq<(Outpoint, u64)> {
        Seq::new(
            self.outputs().len(),
            |i: int| (self.outputs()[i].outpoint_spec(), self.amounts()[i]),
        )
    }

    fn get_allocations(&self) -> (r: Vec<(Outpoint, u64)>)
        requires
            self.wf(),
        ensures
            r@ == self.allocations(),
    {
        let mut list: Vec<(Outpoint, u64)> = Vec::new();
        let mut i: usize = 0;
        while i < self.outputs.len()
            invariant
                i <= self.outputs.len(),
                self.wf(),
                list@ == self.allocations().take(i as int),
            decreases self.outputs.len() - i,
        {
            list.push((self.outputs[i].outpoint(), self.amounts[i]));
            i += 1;
            assert(list@ =~= self.allocations().take(i as int));
        }
        assert(self.allocations().take(i as int) =~= self.allocations());
        list
    }

    /// Makes the contract of the asset.
    ///
    /// Its ID depends on the time and on random blinding factors. It names the network,
    /// has the given ticker, name and precision, and knows each amount on its output and
    /// no other.
    pub fn create(&self, network: BitcoinNetwork, ticker: &str, name: &str, precision: u8) -> (r:
        Result<IssuedContract, WalletError>)
        requires
            self.wf(),
            self.complete(),
            is_ascii_text(ticker@) && is_ascii_text(name@) ==> {
                &&& ticker@.len() <= u16::MAX
                &&& name@.len() <= u16::MAX
                &&& self.amounts().len() <= u16::MAX
                &&& sum(self.amounts()) <= u64::MAX
            },
        ensures
            r is Ok <==> is_ascii_text(ticker@) && is_ascii_text(name@),
            !is_ascii_text(ticker@) ==> (r matches Err(WalletError::InvalidTicker(details))
                && details@ == ascii_error(ticker@)),
            is_ascii_text(ticker@) && !is_ascii_text(name@) ==> (r matches Err(
                WalletError::InvalidName(details),
            ) && details@ == ascii_error(name@)),
            r matches Ok(issued) ==> {
                &&& consignment_ids(issued.contract@) matches Some(ids) && ids.0
                    == issued.asset_id@
                &&& genesis_network(issued.contract@) == Some(network)
                &&& consignment_fields(issued.contract@) == Some(
                    (Some(ticker@), Some(name@), Some(precision)),
                )
                &&& knows_allocations(issued.contract@, self.allocations())
                &&& outputs_differ(self.allocations()) ==> known_coins(issued.contract@)
                    == allocation_views(self.allocations()).to_multiset()
            },
    {
        let allocations: Vec<(Outpoint, u64)> = self.get_allocations();
        proof {
            assert(allocated_amounts(allocations@) =~= self.amounts());
        }
        match check_ascii(ticker) {
            Err(details) => {
                return Err(WalletError::InvalidTicker(details));
            },
            Ok(()) => {},
        }
        match check_ascii(name) {
            Err(details) => {
                return Err(WalletError::InvalidName(details));
            },
            Ok(()) => {},
        }
        proof {
            assert forall|i: int| 0 <= i < allocations@.len() implies is_txid(
                (#[trigger] allocations@[i]).0.txid@,
            ) by {
                assert(is_txid(self.outputs()[i].txid@));
            }
        }
        let contract: Vec<u8> = create_contract(network, ticker, name, precision, &allocations);
        match read_consignment(&contract) {
            Ok((asset_id, _)) => Ok(IssuedContract { asset_id, contract }),
            Err(e) => Err(WalletError::Internal(InternalError::StrictEncode(e))),
        }
    }

    /// Gives what to store of the issuance, and the asset to show.
    pub fn record(&self, asset_id: String, ticker: String, name: String, precision: u8) -> (r:
        IssuanceRecord)
        requires
            self.wf(),
            self.complete(),
            sum(self.amounts()) <= u64::MAX,
        ensures
            records_issuance(
                r,
                self.outputs(),
                self.amounts(),
                asset_id@,
                ticker@,
                name@,
                precision,
            ),
    {
        let mut colorings: Vec<NewColoring> = Vec::new();
        let mut i: usize = 0;
        while i < self.outputs.len()
            invariant
                i <= self.outputs.len(),
                self.outputs@.len() == self.amounts@.len(),
                colorings@.len() == i,
                forall|k: int|
                    0 <= k < i ==> {
                        &&& (#[trigger] colorings@[k]).txo_idx == self.outputs@[k].idx
                        &&& colorings@[k].coloring_type is Issue
                        &&& colorings@[k].amount@ == decimal(self.amounts@[k] as nat)
                    },
            decreases self.outputs.len() - i,
        {
            colorings.push(
                NewColoring {
                    txo_idx: self.outputs[i].idx,
                    coloring_type: ColoringType::Issue,
                    amount: u64_to_string(self.amounts[i]),
                },
            );
            i += 1;
        }
        let settled: u64 = total(&self.amounts);
        let mut transfers: Vec<NewTransfer> = Vec::new();
        transfers.push(
            NewTransfer {
                amount: u64_to_string(settled),
                blinded_utxo: None,
                blinding_secret: None,
            },
        );
        let mut asset_transfers: Vec<NewAssetTransfer> = Vec::new();
        asset_transfers.push(
            NewAssetTransfer {
                user_driven: true,
                asset_id: Some(asset_id.clone()),
                transfers,
                colorings,
            },
        );
        let batch_transfer: NewBatchTransfer = NewBatchTransfer {
            txid: None,
            status: TransferStatus::Settled,
            expiration: None,
            asset_transfers,
        };
        let db_asset: DbAsset = DbAsset { idx: 0, asset_id, ticker, name, precision };
        let asset: Asset = Asset::from_db_asset(
            db_asset.clone(),
            Balance { settled, future: settled },
        );
        IssuanceRecord { db_asset, batch_transfer, asset }
    }
}

/// Whether a record is that of an issuance: a new asset, and a settled transfer of
/// the whole amount whose colorings put each amount on its output. The balance is
/// the whole amount, now and in the future.
pub open spec fn records_issuance(
    r: IssuanceRecord,
    outputs: Seq<DbTxo>,
    amounts: Seq<u64>,
    asset_id: Seq<char>,
    ticker: Seq<char>,
    name: Seq<char>,
    precision: u8,
) -> bool {
    let b = r.batch_transfer;
    &&& r.db_asset.idx == 0
    &&& r.db_asset.asset_id@ == asset_id
    &&& r.db_asset.ticker@ == ticker
    &&& r.db_asset.name@ == name
    &&& r.db_asset.precision == precision
    &&& r.asset == Asset::described_by(
        r.db_asset,
        (Balance { settled: sum(amounts) as u64, future: sum(amounts) as u64 }),
    )
    &&& b.txid is None
    &&& b.status is Settled
    &&& b.expiration is None
    &&& b.asset_transfers@.len() == 1
    &&& b.asset_transfers@[0].user_driven
    &&& opt_text(b.asset_transfers@[0].asset_id) == Some(asset_id)
    &&& b.asset_transfers@[0].transfers@.len() == 1
    &&& b.asset_transfers@[0].transfers@[0].amount@ == decimal(sum(amounts))
    &&& b.asset_transfers@[0].transfers@[0].blinded_utxo is None
    &&& b.asset_transfers@[0].transfers@[0].blinding_secret is None
    &&& b.asset_transfers@[0].colorings@.len() == outputs.len()
    &&& forall|i: int|
        0 <= i < outputs.len() ==> {
            &&& (#[trigger] b.asset_transfers@[0].colorings@[i]).txo_idx == outputs[i].idx
            &&& b.asset_transfers@[0].colorings@[i].coloring_type is Issue
            &&& b.asset_transfers@[0].colorings@[i].amount@ == decimal(amounts[i] as nat)
        }
}

/// Fails with what the RGB node says of a contract that it does not accept.
pub fn check_registered(refusal: Option<String>) -> (r: Result<(), WalletError>)
    ensures
        match refusal {
            None => r is Ok,
            Some(details) => r matches Err(WalletError::FailedIssuance(d)) && d@ == details@,
        },
{
    match refusal {
        None => Ok(()),
        Some(details) => Err(WalletError::FailedIssuance(details)),
    }
}

impl Wallet {
    /// Issue a new RGB [`Asset`] and return it
    ///
    /// Returns the issuance, which finds an output for each amount
    /// ([`next_output`](Issuance::next_output)), makes the contract
    /// ([`create`](Issuance::create)) and tells what to store once the RGB node has accepted it
    /// ([`record`](Issuance::record))
    pub fn issue_asset(&self, online: &Online, amounts: Vec<u64>) -> (r: Result<
        Issuance,
        WalletError,
    >)
        ensures
            (r matches Err(WalletError::NoIssuanceAmounts)) <==> amounts@.len() == 0,
            (r matches Err(WalletError::InvalidOnline)) <==> amounts@.len() > 0
                && !self.is_online_with(*online),
            r is Ok <==> amounts@.len() > 0 && self.is_online_with(*online),
            r matches Ok(issuance) ==> {
                &&& issuance.wf()
                &&& issuance.amounts() == amounts@
                &&& issuance.outputs().len() == 0
            },
    {
        if amounts.len() == 0 {
            return Err(WalletError::NoIssuanceAmounts);
        }
        match self.check_online(online) {
            Err(e) => {
                return Err(e);
            },
            Ok(()) => {},
        }
        Ok(Issuance { amounts, outputs: Vec::new() })
    }
}

/// Gives all coins of the asset in a contract or a consignment: their outpoints and
/// amounts.
pub fn get_known_coins(consignment: &Vec<u8>) -> (r: Result<Vec<(Outpoint, u64)>, WalletError>)
    ensures
        r is Ok <==> is_rgb20(consignment@),
        r matches Ok(coins) ==> allocation_views(coins@).to_multiset() == known_coins(
            consignment@,
        ),
        r is Err ==> (r matches Err(WalletError::Internal(InternalError::InvalidConsignment))),
{
    if check_rgb20(consignment) {
        Ok(read_known_coins(consignment))
    } else {
        Err(WalletError::Internal(InternalError::InvalidConsignment))
    }
}

/// Gives the bitcoin network that a contract is made for, if it is made for one.
pub fn get_contract_network(contract: &Vec<u8>) -> (r: Option<BitcoinNetwork>)
    ensures
        r == genesis_network(contract@),
{
    read_network(contract)
}

/// Where no other amount goes to the output of an issued amount, the contract knows
/// coins on that output that are worth this amount.
pub proof fn issued_coins_are_on_their_outputs(
    contract: Seq<u8>,
    allocations: Seq<(Outpoint, u64)>,
    i: int,
)
    requires
        knows_allocations(contract, allocations),
        0 <= i < allocations.len(),
        alone_on_output(allocations, i),
    ensures
        is_rgb20(contract),
        coins_worth(
            asset_coins(contract, seq![canonical(allocations[i].0@)]),
            allocations[i].1 as int,
        ),
{
    let amount = allocations[i].1;
    assert(holds_coin(contract, allocations[i].0@, amount));
    let groups = asset_coins(contract, seq![canonical(allocations[i].0@)]);
    assert(coin_amounts(groups[0]).len() == 1);
    assert(groups.drop_last() =~= Seq::<Seq<CoinView>>::empty());
    assert(all_coins(groups.drop_last()) =~= Seq::<CoinView>::empty());
    assert(all_coins(groups) =~= groups[0]);
    assert(coin_amounts(groups[0]) =~= seq![amount]);
    assert(seq![amount].drop_last() =~= Seq::<u64>::empty());
    assert(sum(seq![amount].drop_last()) == 0);
}

/// What is stored of an issuance adds up: the colorings put on outputs of their own
/// what the transfer and the balance show.
pub proof fn issued_amounts_add_up(
    r: IssuanceRecord,
    outputs: Seq<DbTxo>,
    amounts: Seq<u64>,
    asset_id: Seq<char>,
    ticker: Seq<char>,
    name: Seq<char>,
    precision: u8,
)
    requires
        outputs.len() == amounts.len(),
        sum(amounts) <= u64::MAX,
        records_issuance(r, outputs, amounts, asset_id, ticker, name, precision),
    ensures
        ({
            let a = r.batch_transfer.asset_transfers@[0];
            &&& colored_total(a.colorings@, ColoringType::Issue) == sum(amounts)
            &&& parsed_u64(a.transfers@[0].amount@) == Some(r.asset.balance.settled)
            &&& r.asset.balance.settled == sum(amounts)
            &&& r.asset.balance.future == sum(amounts)
        }),
{
    let colorings = r.batch_transfer.asset_transfers@[0].colorings@;
    assert forall|i: int| 0 <= i < colorings.len() implies (
    #[trigger] colorings[i]).coloring_type is Issue by {}
    lemma_one_kind(colorings, ColoringType::Issue);
    assert(colored_amounts(colorings, ColoringType::Issue) =~= amounts) by {
        assert forall|i: int| 0 <= i < colorings.len() implies parsed_u64(
            (#[trigger] colorings[i]).amount@,
        )->0 == amounts[i] by {
            rendered_amounts_read_back(amounts[i]);
        }
    }
    rendered_amounts_read_back(sum(amounts) as u64);
}

} // verus!
