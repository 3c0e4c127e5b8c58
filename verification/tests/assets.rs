use std::collections::{BTreeMap, BTreeSet};
use std::str::FromStr;

use bitcoin::psbt::serialize::Deserialize;
use bp::seals::txout::blind::ConcealedSeal;
use rgb::psbt::RgbExt;
use rgb::{Consignment, Node};
use rgb_wallet::chain::read_signed_psbt;
use rgb_wallet::database::plans::NewColoring;
use rgb_wallet::database::records::Records;
use rgb_wallet::database::{
    ColoringType, DbAsset, DbAssetTransfer, DbBatchTransfer, DbColoring, DbTransfer, DbTxo,
    LocalUnspent,
};
use rgb_wallet::error::{InternalError, WalletError};
use rgb_wallet::wallet::compose::{
    check_asset_id, commit_transitions, compose_transfer, embed_blanks, embed_transfer,
    get_beneficiaries, get_consumed_rights, get_inputs, get_moved_amount, get_psbt_text, move_states, plan_blank,
    record_blank_moves, BlankWork, ContractState,
};
use rgb_wallet::wallet::issue::{
    check_registered, get_contract_network, get_known_coins, Issuance, IssuedContract,
};
use rgb_wallet::wallet::listing::{get_known_assets, KnownContract};
use rgb_wallet::wallet::online::GoOnline;
use rgb_wallet::wallet::prepare::Preparation;
use rgb_wallet::wallet::receive::{
    accept_consignment, check_anchored, read_new_asset, read_receipt, receive_consignment, refuse_consignment,
    Validity,
};
use rgb_wallet::wallet::send::{
    select_rgb_inputs, spendable_asset_txos, AssetSpend, InfoAssetTransfer, InfoBatchTransfer,
};
use rgb_wallet::wallet::sending::{
    choose_inputs, finish_send, get_all_inputs, get_postings, insert_transfer, live_inputs, ordered_utxos,
    prepared_send, requested_amount,
};
use rgb_wallet::wallet::types::{
    Balance, BitcoinNetwork, BlindData, DatabaseType, Online, Outpoint, Recipient, RgbAllocation,
    TransferStatus, WalletData,
};
use rgb_wallet::wallet::Wallet;
use strict_encoding::{strict_deserialize, strict_serialize};

const XPUB: &str = "xpub661MyMwAqRbcFkPHucMnrGNzDwb6teAX1RbKQmqtEF8kK3Z7LZ59qafCjB9eCRLiTVG3uxBxgKvRgbubRhqSKXnGGb1aoaqLrpMBDrVxga8";
const PHRASE: &str = "abandon abandon abandon abandon abandon abandon abandon abandon abandon \
                      abandon abandon about";
const TXID: &str = "4a5e1e4baab89f3a32518a88c31bc87f618f76673e2cc77ab2127b7afdeda33b";

fn text(s: &str) -> String {
    s.to_string()
}

fn wallet(mnemonic: Option<&str>) -> (Wallet, Online) {
    let data = WalletData {
        data_dir: text("/data"),
        bitcoin_network: BitcoinNetwork::Regtest,
        database_type: DatabaseType::Sqlite,
        pubkey: text(XPUB),
        mnemonic: mnemonic.map(text),
    };
    let mut wallet = Wallet::new(data, "/data", true).unwrap();
    match wallet.go_online(text("tcp://host:50001"), false, 42) {
        Ok(GoOnline::Start(c)) => (wallet, c.online),
        other => panic!("{:?}", other),
    }
}

fn offline() -> Online {
    Online { id: 0, electrum_url: text("") }
}

fn outpoint(vout: u32) -> Outpoint {
    Outpoint { txid: text(TXID), vout }
}

fn txo(vout: u32) -> DbTxo {
    DbTxo {
        idx: vout as i64,
        txid: text(TXID),
        vout,
        btc_amount: text("1000"),
        spent: false,
        colorable: true,
    }
}

fn unspents(vouts: &[u32]) -> Vec<LocalUnspent> {
    vouts.iter().map(|v| LocalUnspent { utxo: txo(*v), rgb_allocations: vec![] }).collect()
}

fn no_records() -> Records {
    Records {
        assets: vec![],
        txos: vec![],
        batch_transfers: vec![],
        asset_transfers: vec![],
        transfers: vec![],
        colorings: vec![],
    }
}

fn issuance(amounts: &[u64], vouts: &[u32]) -> Issuance {
    let (wallet, online) = wallet(None);
    let mut issuance = wallet.issue_asset(&online, amounts.to_vec()).unwrap();
    while !issuance.is_complete() {
        issuance.next_output(&unspents(vouts)).unwrap();
    }
    issuance
}

fn issue(amounts: &[u64], vouts: &[u32]) -> IssuedContract {
    issuance(amounts, vouts).create(BitcoinNetwork::Regtest, "TICK", "some name", 7).unwrap()
}

fn blinded() -> BlindData {
    let (wallet, _) = wallet(None);
    wallet.blind(&vec![], &unspents(&[9]), None, None, 1000).unwrap().0
}

fn recipient(amount: u64) -> Recipient {
    Recipient { blinded_utxo: blinded().blinded_utxo, amount }
}

fn seal(r: &Recipient) -> ConcealedSeal {
    ConcealedSeal::from_str(&r.blinded_utxo).unwrap()
}

fn hex(bytes: &[u8]) -> String {
    bytes.iter().map(|b| format!("{:02x}", b)).collect()
}

fn transitions_of(psbt: &Vec<u8>, asset_id: &str) -> Vec<rgb::Transition> {
    let psbt = psbt::Psbt::deserialize(psbt).unwrap();
    let id = rgb::ContractId::from_str(asset_id).unwrap();
    let consumers = psbt.rgb_contract_consumers(id).unwrap();
    let nodes: BTreeSet<rgb::NodeId> = consumers.iter().map(|c| c.0).collect();
    nodes.iter().map(|n| psbt.rgb_transition(*n).unwrap().unwrap()).collect()
}

fn rights_on(issued: &IssuedContract, vouts: &[u32]) -> BTreeSet<(String, u16, u16)> {
    let contract: rgb::Contract = strict_deserialize(&issued.contract).unwrap();
    let asset = rgb20::Asset::try_from(&contract).unwrap();
    let coins = vouts
        .iter()
        .flat_map(|v| asset.outpoint_coins(bitcoin::OutPoint::new(TXID.parse().unwrap(), *v)));
    coins.map(|c| (c.outpoint.node_id.to_string(), 0xA1, c.outpoint.no)).collect()
}

fn rights_of(transition: &rgb::Transition) -> BTreeSet<(String, u16, u16)> {
    let bytes = strict_serialize(transition).unwrap();
    get_consumed_rights(&bytes).unwrap().into_iter().collect()
}

fn unsigned_psbt(vouts: &[u32]) -> Vec<u8> {
    let tx = bitcoin::Transaction {
        version: 2,
        lock_time: 0,
        input: vouts
            .iter()
            .map(|v| bitcoin::TxIn {
                previous_output: bitcoin::OutPoint::new(TXID.parse().unwrap(), *v),
                ..Default::default()
            })
            .collect(),
        output: vec![bitcoin::TxOut { value: 700, script_pubkey: bitcoin::Script::new() }],
    };
    let psbt = bitcoin::psbt::PartiallySignedTransaction::from_unsigned_tx(tx).unwrap();
    bitcoin::consensus::serialize(&psbt)
}

fn info(recipients: Vec<Recipient>, vouts: &[u32], change_amount: u64) -> InfoAssetTransfer {
    InfoAssetTransfer {
        recipients,
        asset_spend: AssetSpend {
            txo_map: vouts.iter().map(|v| (*v as i64, 0)).collect(),
            input_outpoints: vouts.iter().map(|v| outpoint(*v)).collect(),
            change_amount,
        },
    }
}

fn states_of(issued: &IssuedContract, vout: u32) -> Vec<u8> {
    let contract: rgb::Contract = strict_deserialize(&issued.contract).unwrap();
    let state = rgb::ContractState::from(&contract);
    let states: BTreeSet<rgb::OutpointState> =
        state.outpoint_state(bitcoin::OutPoint::new(TXID.parse().unwrap(), vout));
    strict_serialize(&states).unwrap()
}

#[test]
fn an_issued_contract_can_be_read() {
    let issued = issue(&[100, 20], &[1, 2, 3]);
    let contract: rgb::Contract = strict_deserialize(&issued.contract).unwrap();
    assert_eq!(contract.contract_id().to_string(), issued.asset_id);
    assert!(check_asset_id(&issued.asset_id).is_ok());
    assert!(matches!(contract.genesis().chain(), lnpbp::chain::Chain::Regtest(_)));
    let asset = read_new_asset(&issued.contract, &text("id")).unwrap();
    assert_eq!(
        asset,
        DbAsset {
            idx: 0,
            asset_id: text("id"),
            ticker: text("TICK"),
            name: text("some name"),
            precision: 7,
        }
    );
    let coins = rgb20::Asset::try_from(&contract).unwrap();
    let amounts = |vout: u32| -> Vec<u64> {
        let o = bitcoin::OutPoint::new(TXID.parse().unwrap(), vout);
        coins.outpoint_coins(o).iter().map(|c| c.state.value).collect()
    };
    assert_eq!((amounts(1), amounts(2), amounts(3)), (vec![100], vec![20], vec![]));
    let mut known = get_known_coins(&issued.contract).unwrap();
    known.sort_by_key(|coin| coin.0.vout);
    assert_eq!(known, vec![(outpoint(1), 100), (outpoint(2), 20)]);
    assert!(matches!(
        get_known_coins(&vec![1]),
        Err(WalletError::Internal(InternalError::InvalidConsignment))
    ));
}

#[test]
fn contracts_name_their_network() {
    let issuance = issuance(&[1], &[1]);
    let chain = |network| {
        let issued = issuance.create(network, "T", "N", 0).unwrap();
        let contract: rgb::Contract = strict_deserialize(&issued.contract).unwrap();
        contract.genesis().chain().clone()
    };
    assert_eq!(chain(BitcoinNetwork::Mainnet), lnpbp::chain::Chain::Mainnet);
    assert_eq!(chain(BitcoinNetwork::Testnet), lnpbp::chain::Chain::Testnet3);
    assert_eq!(chain(BitcoinNetwork::Signet), lnpbp::chain::Chain::Signet);
    for network in [
        BitcoinNetwork::Mainnet,
        BitcoinNetwork::Testnet,
        BitcoinNetwork::Signet,
        BitcoinNetwork::Regtest,
    ] {
        let issued = issuance.create(network, "T", "N", 0).unwrap();
        assert_eq!(get_contract_network(&issued.contract), Some(network));
    }
    assert_eq!(get_contract_network(&vec![1]), None);
}

#[test]
fn an_issuance_checks_its_arguments() {
    let (wallet, online) = wallet(None);
    let refused = wallet.issue_asset(&online, vec![]);
    assert!(matches!(refused, Err(WalletError::NoIssuanceAmounts)));
    let refused = wallet.issue_asset(&offline(), vec![1]);
    assert!(matches!(refused, Err(WalletError::InvalidOnline)));
    let issuance = issuance(&[1], &[1]);
    match issuance.create(BitcoinNetwork::Regtest, "\u{e9}", "N", 0) {
        Err(WalletError::InvalidTicker(details)) => assert!(!details.is_empty()),
        other => panic!("{:?}", other),
    }
    match issuance.create(BitcoinNetwork::Regtest, "T", "n\u{e9}", 0) {
        Err(WalletError::InvalidName(details)) => assert!(details.contains("195")),
        other => panic!("{:?}", other),
    }
    assert!(check_registered(None).is_ok());
    match check_registered(Some(text("Invalid"))) {
        Err(WalletError::FailedIssuance(details)) => assert_eq!(details, "Invalid"),
        other => panic!("{:?}", other),
    }
}

#[test]
fn each_amount_needs_an_output_of_its_own() {
    let (wallet, online) = wallet(None);
    let mut issuance = wallet.issue_asset(&online, vec![1, 2]).unwrap();
    issuance.next_output(&unspents(&[1])).unwrap();
    assert!(!issuance.is_complete());
    let refused = issuance.next_output(&unspents(&[1]));
    assert!(matches!(refused, Err(WalletError::InsufficientFunds)));
    issuance.next_output(&unspents(&[1, 2])).unwrap();
    assert!(issuance.is_complete());
    let vouts: Vec<u32> = issuance.get_outpoints().iter().map(|o| o.vout).collect();
    assert_eq!(vouts, vec![1, 2]);
}

#[test]
fn issued_amounts_add_up() {
    let record = issuance(&[100, 20], &[1, 2]).record(text("id"), text("T"), text("N"), 3);
    assert_eq!(record.asset.balance, Balance { settled: 120, future: 120 });
    assert_eq!(record.asset.asset_id, "id");
    assert_eq!(record.db_asset.precision, 3);
    let b = record.batch_transfer;
    assert_eq!((b.txid, b.status, b.expiration), (None, TransferStatus::Settled, None));
    let a = &b.asset_transfers[0];
    assert_eq!(a.transfers[0].amount, "120");
    let coloring = |txo_idx, amount| NewColoring {
        txo_idx,
        coloring_type: ColoringType::Issue,
        amount: text(amount),
    };
    assert_eq!(a.colorings, vec![coloring(1, "100"), coloring(2, "20")]);
}

#[test]
fn a_blinded_utxo_can_be_revealed() {
    let (wallet, _) = wallet(None);
    let (data, rows) = wallet.blind(&vec![], &unspents(&[9]), None, None, 1000).unwrap();
    assert_eq!(data.expiration_timestamp, Some(87400));
    assert_eq!(rows.status, TransferStatus::WaitingCounterparty);
    let stored = &rows.asset_transfers[0].transfers[0];
    let seal = rgb::seal::Revealed {
        method: bp::seals::txout::CloseMethod::OpretFirst,
        txid: Some(TXID.parse().unwrap()),
        vout: 9,
        blinding: stored.blinding_secret.as_ref().unwrap().parse().unwrap(),
    };
    assert_eq!(stored.blinded_utxo, Some(seal.to_concealed_seal().to_string()));
    assert_eq!(rows.asset_transfers[0].colorings[0].txo_idx, 9);
    assert_eq!(rows.asset_transfers[0].colorings[0].coloring_type, ColoringType::Blind);
}

#[test]
fn blinding_checks_asset_duration_and_outputs() {
    let (wallet, _) = wallet(None);
    let refused = wallet.blind(&vec![], &unspents(&[9]), Some(text("A")), None, 0);
    match refused {
        Err(WalletError::AssetNotFound(id)) => assert_eq!(id, "A"),
        _ => panic!("the asset is not known"),
    }
    let made = wallet.blind(&vec![], &unspents(&[9]), None, Some(0), 5).unwrap();
    assert_eq!(made.0.expiration_timestamp, None);
    let made = wallet.blind(&vec![], &unspents(&[9]), None, Some(10), 5).unwrap();
    assert_eq!(made.0.expiration_timestamp, Some(15));
    let refused = wallet.blind(&vec![], &vec![], None, None, 5);
    assert!(matches!(refused, Err(WalletError::InsufficientFunds)));
    let mut funds = unspents(&[1, 2]);
    funds[0].utxo.colorable = false;
    funds[1].utxo.colorable = false;
    let refused = wallet.blind(&vec![], &funds, None, None, 5);
    assert!(matches!(refused, Err(WalletError::InsufficientAllocationSlots)));
}

#[test]
fn recipients_are_paid_by_their_seals() {
    let (one, two) = (recipient(5), recipient(6));
    let again = Recipient { blinded_utxo: one.blinded_utxo.clone(), amount: 9 };
    let recipients = vec![one.clone(), two.clone()];
    let paid = get_beneficiaries(&no_records(), &recipients).unwrap();
    let mut expected: Vec<(ConcealedSeal, u64)> =
        recipients.iter().map(|r| (seal(r), r.amount)).collect();
    expected.sort();
    let expected: Vec<(String, u64)> =
        expected.iter().map(|(seal, amount)| (hex(&seal[..]), *amount)).collect();
    assert_eq!(paid, expected);
    let paid = get_beneficiaries(&no_records(), &vec![one, again]).unwrap();
    assert_eq!(paid.len(), 1);
    assert_eq!(paid[0].1, 9);
}

#[test]
fn blinded_utxos_are_used_once() {
    let one = recipient(5);
    let mut records = no_records();
    records.batch_transfers = vec![DbBatchTransfer {
        idx: 1,
        txid: None,
        status: TransferStatus::WaitingCounterparty,
        expiration: None,
    }];
    records.asset_transfers = vec![DbAssetTransfer {
        idx: 2,
        batch_transfer_idx: 1,
        user_driven: true,
        asset_id: None,
    }];
    records.transfers = vec![DbTransfer {
        idx: 3,
        asset_transfer_idx: 2,
        amount: text("0"),
        blinded_utxo: Some(one.blinded_utxo.clone()),
        blinding_secret: None,
        ack: None,
    }];
    let refused = get_beneficiaries(&records, &vec![one.clone()]);
    assert!(matches!(refused, Err(WalletError::BlindedUTXOAlreadyUsed)));
    records.batch_transfers[0].status = TransferStatus::Failed;
    assert!(get_beneficiaries(&records, &vec![one]).is_ok());
    let wrong = Recipient { blinded_utxo: text("txob1"), amount: 1 };
    let refused = get_beneficiaries(&records, &vec![wrong]);
    assert!(matches!(refused, Err(WalletError::InvalidBlindedUTXO(_))));
}

#[test]
fn a_transfer_is_put_into_a_psbt() {
    let issued = issue(&[100], &[1]);
    let done = compose_transfer(
        &unsigned_psbt(&[1, 4]),
        &issued.contract,
        &issued.contract,
        &issued.asset_id,
        &info(vec![recipient(70)], &[1], 30),
        &no_records(),
        &txo(5),
    )
    .unwrap();
    assert_eq!(done.endseals.len(), 1);
    let psbt = psbt::Psbt::deserialize(&done.psbt).unwrap();
    let id = rgb::ContractId::from_str(&issued.asset_id).unwrap();
    assert!(psbt.has_rgb_contract(id));
    let consumers: Vec<(rgb::NodeId, u16)> =
        psbt.rgb_contract_consumers(id).unwrap().into_iter().collect();
    assert_eq!(consumers.len(), 1);
    assert_eq!(consumers[0].1, 0);
    let transition = psbt.rgb_transition(consumers[0].0).unwrap().unwrap();
    let bytes = strict_serialize(&transition).unwrap();
    assert_eq!(get_moved_amount(&vec![(bytes, vec![])]), Some(100));
    assert_eq!(get_inputs(&done.psbt).unwrap(), vec![outpoint(1), outpoint(4)]);
}

#[test]
fn several_recipients_are_paid_in_the_order_of_their_seals() {
    let issued = issue(&[100, 20, 3], &[1, 2, 3]);
    let recipients: Vec<Recipient> = (1..=8).map(recipient).collect();
    let mut expected: Vec<(ConcealedSeal, u64)> =
        recipients.iter().map(|r| (seal(r), r.amount)).collect();
    expected.sort();
    let done = compose_transfer(
        &unsigned_psbt(&[2, 1]),
        &issued.contract,
        &issued.contract,
        &issued.asset_id,
        &info(recipients, &[2, 1], 84),
        &no_records(),
        &txo(5),
    )
    .unwrap();
    let seals: Vec<String> = expected.iter().map(|(seal, _)| hex(&seal[..])).collect();
    assert_eq!(done.endseals, seals);

    let transitions = transitions_of(&done.psbt, &issued.asset_id);
    assert_eq!(transitions.len(), 1);
    let (_, assigned) = transitions[0].owned_rights().iter().next().unwrap();
    let mut change = vec![];
    let mut paid = vec![];
    for assignment in assigned.to_value_assignments() {
        match assignment {
            rgb::Assignment::Revealed { seal, state } => change.push((seal.vout, state.value)),
            rgb::Assignment::ConfidentialSeal { seal, state } => paid.push((seal, state.value)),
            other => panic!("{:?}", other),
        }
    }
    assert_eq!(change, vec![(5, 84)]);
    assert_eq!(paid, expected);
    assert_eq!(rights_of(&transitions[0]), rights_on(&issued, &[1, 2]));
    assert!(matches!(
        get_consumed_rights(&vec![1]),
        Err(WalletError::Internal(InternalError::RgbData))
    ));
}

#[test]
fn states_on_several_outpoints_all_move() {
    let issued = issue(&[100, 20, 3], &[1, 2, 3]);
    let psbt = unsigned_psbt(&[1, 2, 3]);
    let inputs = get_inputs(&psbt).unwrap();
    let work = BlankWork {
        contract_id: issued.asset_id.clone(),
        needs_contract: true,
        states: (1..=3).map(|v| (outpoint(v), states_of(&issued, v))).collect(),
    };
    let moved =
        move_states(&psbt, &inputs, &work, &Some(issued.contract.clone()), &txo(5)).unwrap();
    assert_eq!(moved.amount, 123);
    let transitions = transitions_of(&moved.psbt, &issued.asset_id);
    assert_eq!(transitions.len(), 3);
    let consumed: BTreeSet<BTreeSet<(String, u16, u16)>> =
        transitions.iter().map(rights_of).collect();
    let expected = (1..=3).map(|v| rights_on(&issued, &[v])).collect();
    assert_eq!(consumed, expected);
}

#[test]
fn all_assets_that_are_left_over_are_noted() {
    let sent = issue(&[100, 20], &[1, 2]);
    let other = issue(&[40, 5], &[1, 2]);
    let mut preparation = Preparation::begin(
        unsigned_psbt(&[1, 2]),
        &vec![outpoint(1), outpoint(2)],
        vec![(sent.asset_id.clone(), info(vec![recipient(70)], &[1], 30))],
        &unspents(&[1, 2, 5]),
        false,
    )
    .unwrap();
    preparation.add_transfer(&sent.contract, &sent.contract, &no_records()).unwrap();
    let inputs = get_inputs(preparation.get_psbt()).unwrap();
    let state = |issued: &IssuedContract, vouts: &[u32]| ContractState {
        contract_id: issued.asset_id.clone(),
        states: vouts.iter().map(|v| (outpoint(*v), states_of(issued, *v))).collect(),
    };
    assert!(preparation.plan_states(vec![state(&sent, &[1])]).is_empty());
    let works = preparation.plan_states(vec![state(&sent, &[1, 2]), state(&other, &[1, 2])]);
    let planned: Vec<(bool, usize)> =
        works.iter().map(|w| (w.needs_contract, w.states.len())).collect();
    assert_eq!(planned, vec![(false, 1), (true, 2)]);
    let contracts = vec![None, Some(other.contract.clone())];
    preparation.add_states(&inputs, &works, &contracts).unwrap();
    preparation.commit().unwrap();
    let noted = preparation.finish().blank_allocations;
    assert_eq!(noted, vec![(sent.asset_id, 20), (other.asset_id, 45)]);
}

#[test]
fn each_recipient_is_sent_the_consignment_of_its_asset() {
    let to = |name: &str| Recipient { blinded_utxo: text(name), amount: 1 };
    let transfers = vec![
        (text("A"), info(vec![to("a"), to("b")], &[1], 0)),
        (text("B"), info(vec![], &[1], 0)),
        (text("C"), info(vec![to("a")], &[1], 0)),
    ];
    let posting = |name: &str, asset: &str| {
        (text(name), format!("/w/transfers/t/{}/consignment_out", asset))
    };
    assert_eq!(
        get_postings("/w/transfers/t", &transfers),
        vec![posting("a", "A"), posting("b", "A"), posting("a", "C")]
    );
    assert!(get_postings("/w", &vec![]).is_empty());
}

#[test]
fn a_transfer_without_recipients_returns_everything() {
    let issued = issue(&[100], &[1]);
    let done = compose_transfer(
        &unsigned_psbt(&[1]),
        &issued.contract,
        &issued.contract,
        &issued.asset_id,
        &info(vec![], &[1], 100),
        &no_records(),
        &txo(5),
    );
    assert!(done.unwrap().endseals.is_empty());
}

#[test]
fn a_transfer_that_does_not_fit_is_refused() {
    let issued = issue(&[100, 1], &[1, 2]);
    let compose = |psbt: &Vec<u8>, contract: &Vec<u8>, info: InfoAssetTransfer| {
        let id = &issued.asset_id;
        compose_transfer(psbt, contract, &issued.contract, id, &info, &no_records(), &txo(5))
    };
    let psbt = unsigned_psbt(&[1]);
    let worth = || info(vec![recipient(70)], &[1], 30);
    assert!(compose(&psbt, &issued.contract, worth()).is_ok());
    let refused = compose(&psbt, &vec![1, 2, 3], worth());
    assert!(matches!(refused, Err(WalletError::Internal(InternalError::RgbData))));
    let refused = compose(&vec![], &issued.contract, worth());
    assert!(matches!(refused, Err(WalletError::Internal(InternalError::RgbData))));
    let short = info(vec![recipient(70)], &[1], 31);
    let refused = compose(&psbt, &issued.contract, short);
    assert!(matches!(refused, Err(WalletError::Internal(InternalError::InvalidConsignment))));
    let empty_input = info(vec![recipient(70)], &[1, 3], 30);
    let refused = compose(&psbt, &issued.contract, empty_input);
    assert!(matches!(refused, Err(WalletError::Internal(InternalError::InvalidConsignment))));
    let wrong = info(vec![Recipient { blinded_utxo: text("x"), amount: 100 }], &[1], 0);
    let refused = compose(&psbt, &issued.contract, wrong);
    assert!(matches!(refused, Err(WalletError::InvalidBlindedUTXO(_))));
    assert!(matches!(
        check_asset_id(&text("rgb1")),
        Err(WalletError::Internal(InternalError::RgbData))
    ));
}

#[test]
fn a_contract_is_added_once() {
    let issued = issue(&[100], &[1]);
    let compose = |psbt: &Vec<u8>| {
        let info = info(vec![recipient(70)], &[1], 30);
        let (contract, id) = (&issued.contract, &issued.asset_id);
        compose_transfer(psbt, contract, contract, id, &info, &no_records(), &txo(5))
    };
    let done = compose(&unsigned_psbt(&[1])).unwrap();
    let refused = compose(&done.psbt);
    assert!(matches!(refused, Err(WalletError::Internal(InternalError::RgbData))));
}

#[test]
fn transitions_need_a_psbt() {
    let refused = embed_transfer(&vec![], &vec![], &text("rgb1"), &vec![]);
    assert!(matches!(refused, Err(WalletError::Internal(InternalError::RgbData))));
    let psbt = unsigned_psbt(&[1]);
    assert_eq!(embed_blanks(&psbt, &vec![], &text("rgb1"), &vec![]).unwrap(), psbt);
    let refused = embed_blanks(&psbt, &vec![], &text("rgb1"), &vec![(vec![7], vec![])]);
    assert!(matches!(refused, Err(WalletError::Internal(InternalError::RgbData))));
    assert!(matches!(
        get_inputs(&vec![1]),
        Err(WalletError::Internal(InternalError::RgbData))
    ));
    assert!(matches!(
        get_psbt_text(&vec![1]),
        Err(WalletError::Internal(InternalError::RgbData))
    ));
    assert!(matches!(
        commit_transitions(&vec![1]),
        Err(WalletError::Internal(InternalError::RgbData))
    ));
    assert_eq!(get_moved_amount(&vec![(vec![7], vec![])]), None);
    let moved = record_blank_moves(&psbt, &vec![], &text("rgb1"), &vec![]).unwrap();
    assert_eq!((moved.psbt, moved.amount), (psbt, 0));
}

fn with_tap_tree(psbt: &Vec<u8>, tree: &[u8]) -> Vec<u8> {
    // the map of the only output is empty: it ends with the last byte
    let mut bytes = psbt[..psbt.len() - 1].to_vec();
    bytes.extend_from_slice(&[1, 6, tree.len() as u8]);
    bytes.extend_from_slice(tree);
    bytes.push(0);
    bytes
}

#[test]
fn incomplete_tap_trees_are_refused() {
    let issued = issue(&[100], &[1]);
    let compose = |psbt: &Vec<u8>| {
        let info = info(vec![recipient(70)], &[1], 30);
        let (contract, id) = (&issued.contract, &issued.asset_id);
        compose_transfer(psbt, contract, contract, id, &info, &no_records(), &txo(5))
    };
    let psbt = unsigned_psbt(&[1]);
    let complete = with_tap_tree(&psbt, &[0, 0xc0, 1, 0x51]);
    assert!(compose(&complete).is_ok());
    assert_eq!(get_psbt_text(&complete).unwrap(), base64::encode(&complete));
    let bytes = strict_serialize(&transition(&issued, 70)).unwrap();
    for tree in [vec![], vec![1, 0xc0, 1, 0x51]] {
        let incomplete = with_tap_tree(&psbt, &tree);
        assert_eq!(get_inputs(&incomplete).unwrap(), vec![outpoint(1)]);
        let refused = compose(&incomplete);
        assert!(matches!(refused, Err(WalletError::Internal(InternalError::RgbData))));
        let refused = embed_transfer(&incomplete, &vec![], &issued.asset_id, &bytes);
        assert!(matches!(refused, Err(WalletError::Internal(InternalError::RgbData))));
        let refused = commit_transitions(&incomplete);
        assert!(matches!(refused, Err(WalletError::Internal(InternalError::RgbData))));
        let refused = get_psbt_text(&incomplete);
        assert!(matches!(refused, Err(WalletError::Internal(InternalError::RgbData))));

        let signed = read_signed_psbt(&base64::encode(&incomplete)).unwrap();
        assert_eq!(signed.text, base64::encode(&incomplete));
        assert_eq!((signed.inputs, signed.output_values), (vec![outpoint(1)], vec![700]));
    }
}

#[test]
fn transitions_with_other_states_are_not_merged() {
    let issued = issue(&[100], &[1]);
    let with_list = |list: rgb::TypedAssignments| {
        rgb::Transition::with(
            0u16,
            Default::default(),
            Default::default(),
            BTreeMap::from([(1u16, list)]).into(),
            Default::default(),
            Default::default(),
        )
    };
    let holding = |held: &rgb::Transition| {
        let mut psbt = psbt::Psbt::deserialize(&unsigned_psbt(&[1])).unwrap();
        psbt.push_rgb_transition(held.clone()).unwrap();
        bitcoin::psbt::serialize::Serialize::serialize(&psbt)
    };
    let embed = |psbt: &Vec<u8>, transition: &rgb::Transition| {
        let bytes = strict_serialize(transition).unwrap();
        let blanks = vec![(bytes.clone(), vec![])];
        let blank = embed_blanks(psbt, &vec![], &issued.asset_id, &blanks);
        (embed_transfer(psbt, &vec![], &issued.asset_id, &bytes), blank)
    };
    let refused = |(transfer, blank): (
        Result<Vec<u8>, WalletError>,
        Result<Vec<u8>, WalletError>,
    )| {
        matches!(transfer, Err(WalletError::Internal(InternalError::RgbData)))
            && matches!(blank, Err(WalletError::Internal(InternalError::RgbData)))
    };

    // empty lists leave no trace in the ID
    let held = with_list(rgb::TypedAssignments::Value(vec![]));
    let other = with_list(rgb::TypedAssignments::Void(vec![]));
    assert_eq!(held.node_id(), other.node_id());
    assert!(refused(embed(&holding(&held), &other)));
    assert_eq!(embed(&holding(&held), &held).0.unwrap(), holding(&held));

    // concealed data and concealed attachments are of one size
    let seal = seal(&recipient(1));
    let held = with_list(rgb::TypedAssignments::Data(vec![rgb::Assignment::Confidential {
        seal,
        state: Default::default(),
    }]));
    let other = with_list(rgb::TypedAssignments::Attachment(vec![rgb::Assignment::Confidential {
        seal,
        state: Default::default(),
    }]));
    assert_eq!(held.node_id(), other.node_id());
    assert!(refused(embed(&holding(&held), &other)));
    assert_eq!(embed(&holding(&held), &held).0.unwrap(), holding(&held));
    let paying = transition(&issued, 70);
    assert!(embed(&holding(&held), &paying).0.is_ok());
}

#[test]
fn moving_stops_at_the_first_contract_that_is_refused() {
    let issued = issue(&[40], &[1]);
    let begin = || {
        let psbt = unsigned_psbt(&[1]);
        Preparation::begin(psbt, &vec![outpoint(1)], vec![], &unspents(&[1, 5]), false).unwrap()
    };
    let mut preparation = begin();
    let inputs = get_inputs(preparation.get_psbt()).unwrap();
    preparation.add_states(&inputs, &vec![], &vec![]).unwrap();
    assert_eq!(preparation.get_psbt(), &unsigned_psbt(&[1]));
    assert!(preparation.finish().blank_allocations.is_empty());

    let work = |states| BlankWork {
        contract_id: issued.asset_id.clone(),
        needs_contract: false,
        states,
    };
    let works = vec![
        work(vec![(outpoint(1), states_of(&issued, 1))]),
        work(vec![]),
        work(vec![(outpoint(1), states_of(&issued, 1))]),
    ];
    let mut preparation = begin();
    let refused = preparation.add_states(&inputs, &works, &vec![None, None, None]);
    assert!(matches!(refused, Err(WalletError::Internal(InternalError::RgbData))));
    assert_eq!(transitions_of(preparation.get_psbt(), &issued.asset_id).len(), 1);
    assert_eq!(preparation.finish().blank_allocations, vec![(issued.asset_id.clone(), 40)]);
}

#[test]
fn contracts_of_which_nothing_is_stored_tell_their_assets() {
    let (wallet, _) = wallet(None);
    let (stored, foreign) = (issue(&[100], &[1]), issue(&[40], &[1]));
    let assets = vec![DbAsset {
        idx: 3,
        asset_id: stored.asset_id.clone(),
        ticker: text("OWN"),
        name: text("own name"),
        precision: 2,
    }];
    let known = |contract_id: &str, contract: Option<Vec<u8>>, settled| KnownContract {
        contract_id: text(contract_id),
        contract,
        balance: Balance { settled, future: settled },
    };
    let contracts = vec![
        known("unreadable", Some(vec![1]), 1),
        known(&foreign.asset_id, Some(foreign.contract.clone()), 40),
        known("untold", None, 2),
        known(&stored.asset_id, None, 100),
    ];
    let shown = wallet.list_assets(&assets, &contracts);
    let told: Vec<(&str, &str, u8, u64)> = shown
        .iter()
        .map(|a| (a.asset_id.as_str(), a.ticker.as_str(), a.precision, a.balance.settled))
        .collect();
    assert_eq!(
        told,
        vec![(stored.asset_id.as_str(), "OWN", 2, 100), (foreign.asset_id.as_str(), "TICK", 7, 40)]
    );
    let rows = get_known_assets(&assets, &contracts);
    for (asset, contract) in shown.iter().zip([&contracts[3], &contracts[1]]) {
        let balance = wallet.get_asset_balance(&rows, &asset.asset_id, contract.balance).unwrap();
        assert_eq!(balance, asset.balance);
    }
    let refused = wallet.get_asset_balance(&rows, &text("untold"), contracts[2].balance);
    assert!(matches!(refused, Err(WalletError::AssetNotFound(_))));
}

#[test]
fn states_of_other_assets_move() {
    let transfers = vec![(text("A"), info(vec![], &[1], 0))];
    let states = || vec![(outpoint(1), vec![1]), (outpoint(2), vec![2])];
    let state = |id: &str, states| ContractState { contract_id: text(id), states };
    let work = plan_blank(&transfers, state("A", states())).unwrap();
    assert_eq!((work.needs_contract, work.states.len()), (false, 1));
    assert_eq!(work.states[0].0, outpoint(2));
    assert!(plan_blank(&transfers, state("A", vec![(outpoint(1), vec![])])).is_none());
    let work = plan_blank(&transfers, state("B", states())).unwrap();
    assert_eq!((work.needs_contract, work.states.len()), (true, 2));
}

#[test]
fn states_that_cannot_move_are_refused() {
    let issued = issue(&[100], &[1]);
    let psbt = unsigned_psbt(&[1]);
    let inputs = get_inputs(&psbt).unwrap();
    let work = |states| BlankWork {
        contract_id: issued.asset_id.clone(),
        needs_contract: false,
        states,
    };
    let refused = move_states(&psbt, &inputs, &work(vec![]), &None, &txo(5));
    assert!(matches!(refused, Err(WalletError::Internal(InternalError::RgbData))));
    let unreadable = work(vec![(outpoint(1), vec![9])]);
    let refused = move_states(&psbt, &inputs, &unreadable, &None, &txo(5));
    assert!(matches!(refused, Err(WalletError::Internal(InternalError::RgbData))));
    let nothing_there = work(vec![(outpoint(2), states_of(&issued, 2))]);
    let refused = move_states(&psbt, &inputs, &nothing_there, &None, &txo(5));
    assert!(matches!(refused, Err(WalletError::Internal(InternalError::Unexpected))));
    let good = work(vec![(outpoint(1), states_of(&issued, 1))]);
    let moved = move_states(&psbt, &inputs, &good, &None, &txo(5)).unwrap();
    assert_eq!(moved.amount, 100);
}

#[test]
fn a_send_is_prepared_step_by_step() {
    let sent = issue(&[100], &[1]);
    let other = issue(&[40], &[1]);
    let transfers = vec![(sent.asset_id.clone(), info(vec![recipient(70)], &[1], 30))];
    let mut preparation = Preparation::begin(
        unsigned_psbt(&[1]),
        &vec![outpoint(1)],
        transfers,
        &unspents(&[1, 5]),
        true,
    )
    .unwrap();
    let (asset_id, inputs) = preparation.next_asset().unwrap().unwrap();
    assert_eq!((asset_id, inputs), (&sent.asset_id, &vec![outpoint(1)]));
    preparation.add_transfer(&sent.contract, &sent.contract, &no_records()).unwrap();
    assert!(preparation.next_asset().unwrap().is_none());
    let inputs = get_inputs(preparation.get_psbt()).unwrap();
    let own = ContractState {
        contract_id: sent.asset_id.clone(),
        states: vec![(outpoint(1), states_of(&sent, 1))],
    };
    assert!(preparation.plan_state(own).is_none());
    let state = ContractState {
        contract_id: other.asset_id.clone(),
        states: vec![(outpoint(1), states_of(&other, 1))],
    };
    let work = preparation.plan_state(state).unwrap();
    assert!(work.needs_contract);
    preparation.add_state(&inputs, &work, &Some(other.contract.clone())).unwrap();
    preparation.commit().unwrap();
    let psbt = psbt::Psbt::deserialize(preparation.get_psbt()).unwrap();
    assert_eq!(psbt.outputs.len(), 2);
    assert_eq!(psbt.rgb_bundles().unwrap().len(), 2);
    let (transfers, endseals) = preparation.get_transfers();
    assert_eq!((transfers.len(), endseals.len(), endseals[0].len()), (1, 1, 1));

    let prepared = prepared_send("/data/w", preparation.get_psbt()).unwrap();
    let tx = bitcoin::psbt::PartiallySignedTransaction::from_str(&prepared.psbt).unwrap();
    let txid = tx.extract_tx().txid().to_string();
    assert_eq!(prepared.transfer_dir, format!("/data/w/transfers/{}", txid));

    let finished = preparation.finish();
    assert_eq!(finished.change_utxo_idx, 5);
    assert_eq!(finished.blank_allocations, vec![(other.asset_id, 40)]);
    assert!(finished.donation);
}

#[test]
fn the_change_needs_an_output_that_is_not_spent() {
    let refused =
        Preparation::begin(vec![], &vec![outpoint(1)], vec![], &unspents(&[1]), false);
    assert!(matches!(refused, Err(WalletError::InsufficientFunds)));
}

#[test]
fn the_last_output_has_to_host_the_commitment() {
    let issued = issue(&[100], &[1]);
    let compose = |outputs: Vec<bitcoin::TxOut>| {
        let previous_output = bitcoin::OutPoint::new(TXID.parse().unwrap(), 1);
        let input = vec![bitcoin::TxIn { previous_output, ..Default::default() }];
        let tx = bitcoin::Transaction { version: 2, lock_time: 0, input, output: outputs };
        let psbt = bitcoin::psbt::PartiallySignedTransaction::from_unsigned_tx(tx).unwrap();
        let mut psbt = psbt::Psbt::deserialize(&bitcoin::consensus::serialize(&psbt)).unwrap();
        psbt.outputs[0].set_opret_host().unwrap();
        let info = info(vec![recipient(70)], &[1], 30);
        let bytes = bitcoin::psbt::serialize::Serialize::serialize(&psbt);
        let (contract, id) = (&issued.contract, &issued.asset_id);
        compose_transfer(&bytes, contract, contract, id, &info, &no_records(), &txo(5)).unwrap()
    };
    let host = bitcoin::TxOut {
        value: 0,
        script_pubkey: bitcoin::Script::new_op_return(&[0u8; 32]),
    };
    let other = bitcoin::TxOut { value: 5, script_pubkey: bitcoin::Script::new() };
    assert!(commit_transitions(&compose(vec![host.clone()]).psbt).is_ok());
    let refused = commit_transitions(&compose(vec![host, other]).psbt);
    assert!(matches!(refused, Err(WalletError::Internal(InternalError::Unexpected))));
    let refused = prepared_send("/data", &vec![3]);
    assert!(matches!(refused, Err(WalletError::Internal(InternalError::RgbData))));
}

fn with_blinding(issued: &IssuedContract, factor: [u8; 32]) -> Vec<u8> {
    let contract: rgb::Contract = strict_deserialize(&issued.contract).unwrap();
    let coins = rgb20::Asset::try_from(&contract).unwrap();
    let coin = coins.known_coins().next().unwrap().clone();
    let before: &[u8] = coin.state.blinding.as_ref();
    let at = issued.contract.windows(32).position(|w| w == before).unwrap();
    let mut bytes = issued.contract.clone();
    bytes[at..at + 32].copy_from_slice(&factor);
    bytes
}

#[test]
fn blinding_factors_have_to_balance() {
    let issued = issue(&[100], &[1]);
    let compose = |factor, info: InfoAssetTransfer| {
        let consignment = with_blinding(&issued, factor);
        let (contract, id) = (&issued.contract, &issued.asset_id);
        let psbt = unsigned_psbt(&[1]);
        compose_transfer(&psbt, contract, &consignment, id, &info, &no_records(), &txo(5))
    };
    let order: [u8; 32] = [
        0xff, 0xff, 0xff, 0xff, 0xff, 0xff, 0xff, 0xff, 0xff, 0xff, 0xff, 0xff, 0xff, 0xff, 0xff,
        0xfe, 0xba, 0xae, 0xdc, 0xe6, 0xaf, 0x48, 0xa0, 0x3b, 0xbf, 0xd2, 0x5e, 0x8c, 0xd0, 0x36,
        0x41, 0x41,
    ];
    let mut below = order;
    below[31] = 0x40;
    assert!(compose(below, info(vec![], &[1], 100)).is_ok());
    let refused = compose(order, info(vec![recipient(70)], &[1], 30));
    assert!(matches!(refused, Err(WalletError::Internal(InternalError::InvalidConsignment))));
    let refused = compose([0xff; 32], info(vec![], &[1], 100));
    assert!(matches!(refused, Err(WalletError::Internal(InternalError::InvalidConsignment))));
    let refused = compose([0; 32], info(vec![], &[1], 100));
    assert!(matches!(refused, Err(WalletError::Internal(InternalError::InvalidConsignment))));
    assert!(compose([0; 32], info(vec![recipient(70)], &[1], 30)).is_ok());
}

const WITNESS: &str = "ff00000000000000000000000000000000000000000000000000000000000000";

fn transition(issued: &IssuedContract, amount: u64) -> rgb::Transition {
    let contract: rgb::Contract = strict_deserialize(&issued.contract).unwrap();
    let asset = rgb20::Asset::try_from(&contract).unwrap();
    let input = bitcoin::OutPoint::new(TXID.parse().unwrap(), 1);
    let seal = ConcealedSeal::from_str(&blinded().blinded_utxo).unwrap();
    let change = bp::seals::txout::ExplicitSeal::from_str(&format!("opret1st:{}:5", TXID)).unwrap();
    asset
        .transfer(
            BTreeSet::from([input]),
            [(seal.into(), amount)].into(),
            [(rgb::seal::Revealed::from(change), 100 - amount)].into(),
        )
        .unwrap()
}

fn consignment_of(issued: &IssuedContract, bundles: &[(&str, u64)]) -> Vec<u8> {
    let contract: rgb::Contract = strict_deserialize(&issued.contract).unwrap();
    let mut transfer = rgb::StateTransfer::with(
        rgb20::schema(),
        None,
        contract.genesis().clone(),
        vec![],
        Default::default(),
        Default::default(),
    );
    for (txid, amount) in bundles {
        let transitions: BTreeMap<rgb::Transition, BTreeSet<u16>> =
            [(transition(issued, *amount), BTreeSet::from([0u16]))].into();
        let anchor = rgb::Anchor {
            txid: txid.parse().unwrap(),
            lnpbp4_proof: Default::default(),
            dbc_proof: bp::dbc::Proof::OpretFirst,
        };
        let bundle = rgb::TransitionBundle::try_from(transitions).unwrap();
        transfer.push_anchored_bundle(anchor, bundle).unwrap();
    }
    strict_serialize(&transfer).unwrap()
}

fn consignment(issued: &IssuedContract, amount: u64) -> Vec<u8> {
    consignment_of(issued, &[(WITNESS, amount)])
}

#[test]
fn the_last_bundle_counts() {
    let issued = issue(&[100], &[1]);
    let receipt = read_receipt(&consignment_of(&issued, &[(TXID, 30), (WITNESS, 70)])).unwrap();
    assert_eq!((receipt.txid.as_str(), receipt.amount), (WITNESS, 70));
    let receipt = read_receipt(&consignment_of(&issued, &[(WITNESS, 70), (TXID, 30)])).unwrap();
    assert_eq!((receipt.txid.as_str(), receipt.amount), (TXID, 30));
}

#[test]
fn the_first_values_describe_an_asset() {
    let issued = issue(&[100], &[1]);
    let contract: rgb::Contract = strict_deserialize(&issued.contract).unwrap();
    let genesis = contract.genesis();
    let mut fields: BTreeMap<u16, Vec<rgb::data::Revealed>> =
        genesis.metadata().into_iter().map(|(field, values)| (*field, values.clone())).collect();
    let ticker = u16::from(rgb20::schema::FieldType::Ticker);
    let name = u16::from(rgb20::schema::FieldType::Name);
    let precision = u16::from(rgb20::schema::FieldType::Precision);
    let (first_ticker, first_name) = (fields[&ticker][0].clone(), fields[&name][0].clone());
    fields.get_mut(&ticker).unwrap().push(first_name);
    fields.get_mut(&name).unwrap().push(first_ticker);
    fields.get_mut(&precision).unwrap().push(rgb::data::Revealed::U8(1));
    let describe = |fields: BTreeMap<u16, Vec<rgb::data::Revealed>>| {
        let genesis = rgb::Genesis::with(
            genesis.schema_id(),
            genesis.chain().clone(),
            fields.into(),
            Default::default(),
            Default::default(),
        );
        let transfer = rgb::StateTransfer::with(
            rgb20::schema(),
            None,
            genesis,
            vec![],
            Default::default(),
            Default::default(),
        );
        read_new_asset(&strict_serialize(&transfer).unwrap(), &text("id"))
    };
    let asset = describe(fields.clone()).unwrap();
    assert_eq!((asset.ticker.as_str(), asset.name.as_str()), ("TICK", "some name"));
    assert_eq!(asset.precision, 7);
    fields.remove(&name);
    assert!(matches!(
        describe(fields),
        Err(WalletError::Internal(InternalError::InvalidConsignment))
    ));
}

#[test]
fn the_last_seal_tells_the_transaction() {
    let issued = issue(&[100], &[1]);
    let contract: rgb::Contract = strict_deserialize(&issued.contract).unwrap();
    let asset = rgb20::Asset::try_from(&contract).unwrap();
    let seal = |txid: &str| {
        let seal = bp::seals::txout::ExplicitSeal::from_str(&format!("opret1st:{}:5", txid));
        rgb::seal::Revealed::from(seal.unwrap())
    };
    let input = bitcoin::OutPoint::new(TXID.parse().unwrap(), 1);
    let moved = asset
        .transfer(
            BTreeSet::from([input]),
            Default::default(),
            [(seal(TXID), 40), (seal(WITNESS), 60)].into(),
        )
        .unwrap();
    let seals = moved.revealed_seals().unwrap();
    assert_eq!(seals.len(), 2);
    let is_last = seals[1].txid.unwrap().to_string() == TXID;
    let psbt = unsigned_psbt(&[1]);
    let blanks = vec![(strict_serialize(&moved).unwrap(), vec![1])];
    let with_blank =
        embed_blanks(&psbt, &vec![outpoint(1)], &issued.asset_id, &blanks).unwrap();
    assert_eq!(transitions_of(&with_blank, &issued.asset_id).len(), if is_last { 1 } else { 0 });
    let other = Outpoint { txid: text(WITNESS), vout: 1 };
    let with_blank = embed_blanks(&psbt, &vec![other], &issued.asset_id, &blanks).unwrap();
    assert_eq!(transitions_of(&with_blank, &issued.asset_id).len(), if is_last { 0 } else { 1 });
}

fn waiting() -> (DbBatchTransfer, DbAssetTransfer, DbTransfer, DbColoring) {
    let batch = DbBatchTransfer {
        idx: 1,
        txid: None,
        status: TransferStatus::WaitingCounterparty,
        expiration: Some(9),
    };
    let asset_transfer =
        DbAssetTransfer { idx: 2, batch_transfer_idx: 1, user_driven: true, asset_id: None };
    let transfer = DbTransfer {
        idx: 3,
        asset_transfer_idx: 2,
        amount: text("0"),
        blinded_utxo: Some(text("bu")),
        blinding_secret: Some(text("7")),
        ack: None,
    };
    let coloring = DbColoring {
        idx: 4,
        txo_idx: 9,
        asset_transfer_idx: 2,
        coloring_type: ColoringType::Blind,
        amount: text("0"),
    };
    (batch, asset_transfer, transfer, coloring)
}

#[test]
fn a_posted_consignment_is_received() {
    let (_, _, transfer, _) = waiting();
    assert_eq!(receive_consignment("/w", &transfer, &None).unwrap(), None);
    let received = receive_consignment("/w", &transfer, &Some(text("AQID"))).unwrap().unwrap();
    assert_eq!(received.consignment, vec![1, 2, 3]);
    assert_eq!(received.transfer_dir, "/w/transfers/bu");
    assert_eq!(received.consignment_path, "/w/transfers/bu/rcv_compose.rgbc");
    let refused = receive_consignment("/w", &transfer, &Some(text("*")));
    assert!(matches!(
        refused,
        Err(WalletError::Internal(InternalError::Base64Decode(_)))
    ));
}

#[test]
fn an_invalid_consignment_fails_its_transfer() {
    let (batch, _, _, _) = waiting();
    assert_eq!(refuse_consignment(&batch, Validity::Valid), None);
    assert_eq!(refuse_consignment(&batch, Validity::ValidExceptEndpoints), None);
    for validity in [Validity::Invalid, Validity::UnresolvedTransactions] {
        let row = refuse_consignment(&batch, validity).unwrap();
        assert_eq!((row.status, row.expiration), (TransferStatus::Failed, Some(9)));
    }
}

#[test]
fn a_consignment_tells_what_it_brings() {
    let issued = issue(&[100], &[1]);
    let receipt = read_receipt(&consignment(&issued, 70)).unwrap();
    assert!(check_anchored(&consignment(&issued, 70)).is_ok());
    assert!(matches!(
        check_anchored(&issued.contract),
        Err(WalletError::Internal(InternalError::InvalidConsignment))
    ));
    assert!(matches!(
        check_anchored(&vec![1]),
        Err(WalletError::Internal(InternalError::StrictEncode(_)))
    ));
    assert_eq!(receipt.contract_id, issued.asset_id);
    assert_eq!(
        receipt.txid,
        WITNESS
    );
    assert_eq!(receipt.amount, 70);
    let refused = read_receipt(&issued.contract);
    assert!(matches!(
        refused,
        Err(WalletError::Internal(InternalError::InvalidConsignment))
    ));
    let refused = read_receipt(&vec![1, 2]);
    assert!(matches!(
        refused,
        Err(WalletError::Internal(InternalError::StrictEncode(_)))
    ));
    let refused = read_new_asset(&vec![1, 2], &text("id"));
    assert!(matches!(
        refused,
        Err(WalletError::Internal(InternalError::InvalidConsignment))
    ));
}

#[test]
fn an_accepted_consignment_is_stored() {
    let issued = issue(&[100], &[1]);
    let bytes = consignment(&issued, 70);
    let (batch, mut asset_transfer, transfer, coloring) = waiting();
    let mut other = coloring.clone();
    other.asset_transfer_idx = 8;
    let colorings = vec![other, coloring];
    let rows =
        accept_consignment(&vec![], &colorings, &batch, &asset_transfer, &transfer, &bytes).unwrap();
    let asset = rows.asset.unwrap();
    assert_eq!((asset.asset_id.as_str(), asset.precision), (issued.asset_id.as_str(), 7));
    assert_eq!(rows.asset_transfer.unwrap().asset_id, Some(issued.asset_id.clone()));
    assert_eq!((rows.coloring.idx, rows.coloring.amount.as_str()), (4, "70"));
    assert_eq!(rows.transfer.amount, "70");
    assert_eq!(rows.batch_transfer.status, TransferStatus::WaitingConfirmations);
    assert!(rows.batch_transfer.txid.unwrap().starts_with("ff00"));

    let rows = accept_consignment(&vec![asset], &colorings, &batch, &asset_transfer, &transfer, &bytes)
        .unwrap();
    assert_eq!(rows.asset, None);
    assert!(rows.asset_transfer.is_some());
    asset_transfer.asset_id = Some(issued.asset_id.clone());
    let rows =
        accept_consignment(&vec![], &colorings, &batch, &asset_transfer, &transfer, &bytes).unwrap();
    assert_eq!((rows.asset, rows.asset_transfer), (None, None));
    let refused =
        accept_consignment(&vec![], &colorings, &batch, &asset_transfer, &transfer, &vec![]);
    assert!(matches!(
        refused,
        Err(WalletError::Internal(InternalError::StrictEncode(_)))
    ));
}

fn allocated(vout: u32, amounts: &[u64], settled: bool) -> LocalUnspent {
    let allocation = |amount: &u64| RgbAllocation {
        asset_id: Some(text("A")),
        amount: *amount,
        settled,
    };
    let mut rgb_allocations: Vec<RgbAllocation> = amounts.iter().map(allocation).collect();
    rgb_allocations.push(RgbAllocation { asset_id: Some(text("B")), amount: 1000, settled: true });
    LocalUnspent { utxo: txo(vout), rgb_allocations }
}

#[test]
fn settled_outputs_pay_in_their_order() {
    let offered = vec![
        allocated(1, &[50], false),
        allocated(2, &[10, 5], true),
        allocated(3, &[30], true),
        allocated(4, &[99], true),
    ];
    let spend = select_rgb_inputs(&offered, &text("A"), 40).unwrap();
    assert_eq!(spend.txo_map, vec![(2, 15), (3, 30)]);
    assert_eq!(spend.input_outpoints, vec![outpoint(2), outpoint(3)]);
    assert_eq!(spend.change_amount, 5);
    assert_eq!(select_rgb_inputs(&offered, &text("A"), 144).unwrap().change_amount, 0);
    let refused = select_rgb_inputs(&offered, &text("A"), 145);
    assert!(matches!(refused, Err(WalletError::InsufficientAssets)));
    let spend = select_rgb_inputs(&vec![], &text("A"), 0).unwrap();
    assert!(spend.txo_map.is_empty());
}

#[test]
fn inputs_of_other_transfers_do_not_pay() {
    let mut records = no_records();
    records.batch_transfers = vec![
        DbBatchTransfer { idx: 1, txid: None, status: TransferStatus::Failed, expiration: None },
        DbBatchTransfer { idx: 2, txid: None, status: TransferStatus::Settled, expiration: None },
    ];
    let asset_transfer = |idx, batch_transfer_idx| DbAssetTransfer {
        idx,
        batch_transfer_idx,
        user_driven: true,
        asset_id: None,
    };
    records.asset_transfers = vec![asset_transfer(1, 1), asset_transfer(2, 2)];
    let coloring = |txo_idx, asset_transfer_idx, coloring_type| DbColoring {
        idx: 0,
        txo_idx,
        asset_transfer_idx,
        coloring_type,
        amount: text("1"),
    };
    records.colorings = vec![
        coloring(1, 1, ColoringType::Input),
        coloring(2, 2, ColoringType::Input),
        coloring(3, 2, ColoringType::Change),
    ];
    let live = live_inputs(&records);
    assert_eq!(live, vec![2]);
    let kept = spendable_asset_txos(&vec![txo(1), txo(2), txo(3)], &live);
    assert_eq!(kept.iter().map(|t| t.idx).collect::<Vec<i64>>(), vec![1, 3]);
}

#[test]
fn a_send_starts_in_a_directory_of_its_own() {
    let (watch_only, online) = wallet(None);
    let (own, own_online) = wallet(Some(PHRASE));
    let to = |utxos: &[&str]| -> Vec<Recipient> {
        utxos.iter().map(|u| Recipient { blinded_utxo: text(u), amount: 1 }).collect()
    };
    let map = vec![(text("A"), to(&["y", "x"])), (text("B"), to(&["b"]))];
    let swapped = vec![(text("B"), to(&["b"])), (text("A"), to(&["y", "x"]))];
    let other = vec![(text("A"), to(&["x", "y"])), (text("B"), to(&["b"]))];
    assert_eq!(ordered_utxos(&map), vec![text("b"), text("yx")]);
    let start = watch_only.send_begin(&online, &map, true, &no_records()).unwrap();
    assert!(start.donation);
    let dir = start.transfer_dir;
    let name = dir.strip_prefix("/data/73c5da0a/transfers/").unwrap();
    assert!(name.parse::<u64>().is_ok());
    let start = own.send(&own_online, &swapped, false, &no_records()).unwrap();
    assert_eq!(start.transfer_dir, dir);
    let start = own.send(&own_online, &other, false, &no_records()).unwrap();
    assert_ne!(start.transfer_dir, dir);
    let refused = watch_only.send(&online, &map, true, &no_records());
    assert!(matches!(refused, Err(WalletError::WatchOnly)));
    let refused = own.send_begin(&offline(), &map, true, &no_records());
    assert!(matches!(refused, Err(WalletError::InvalidOnline)));
}

#[test]
fn recipients_ask_for_an_amount() {
    let asset = DbAsset {
        idx: 1,
        asset_id: text("A"),
        ticker: text("T"),
        name: text("N"),
        precision: 0,
    };
    let to = |amount| Recipient { blinded_utxo: text("x"), amount };
    let recipients = vec![to(5), to(7)];
    assert_eq!(requested_amount(&vec![asset], &text("A"), &recipients).unwrap(), 12);
    let refused = requested_amount(&vec![], &text("A"), &recipients);
    assert!(matches!(refused, Err(WalletError::AssetNotFound(_))));
}

#[test]
fn inputs_are_chosen_for_each_asset() {
    let asset = |id: &str| DbAsset {
        idx: 1,
        asset_id: text(id),
        ticker: text("T"),
        name: text("N"),
        precision: 0,
    };
    let assets = vec![asset("A"), asset("B")];
    let to = |amount| vec![Recipient { blinded_utxo: text("x"), amount }];
    let map = |b, a| vec![(text("B"), to(b)), (text("A"), to(a))];
    let offered = vec![vec![allocated(1, &[], true)], vec![allocated(2, &[15], true)]];
    let chosen = choose_inputs(&assets, map(400, 10), &offered).unwrap();
    assert_eq!((chosen[0].0.as_str(), chosen[1].0.as_str()), ("A", "B"));
    assert_eq!(chosen[0].1.asset_spend.txo_map, vec![(2, 15)]);
    assert_eq!(chosen[0].1.asset_spend.change_amount, 5);
    assert_eq!(chosen[1].1.recipients, to(400));
    assert_eq!(chosen[1].1.asset_spend.change_amount, 600);
    let refused = choose_inputs(&assets, map(400, 16), &offered);
    assert!(matches!(refused, Err(WalletError::InsufficientAssets)));
    match choose_inputs(&vec![asset("B")], map(400, 16), &offered) {
        Err(WalletError::AssetNotFound(id)) => assert_eq!(id, "A"),
        other => panic!("{:?}", other),
    }
}

#[test]
fn transfers_are_kept_by_their_assets() {
    let mut transfers = vec![];
    insert_transfer(&mut transfers, text("B"), info(vec![], &[2], 1));
    insert_transfer(&mut transfers, text("A"), info(vec![], &[3, 2], 2));
    insert_transfer(&mut transfers, text("C"), info(vec![], &[], 3));
    insert_transfer(&mut transfers, text("B"), info(vec![], &[1, 2], 4));
    let kept: Vec<(String, u64)> =
        transfers.iter().map(|t| (t.0.clone(), t.1.asset_spend.change_amount)).collect();
    assert_eq!(kept, vec![(text("A"), 2), (text("B"), 4), (text("C"), 3)]);
    assert_eq!(get_all_inputs(&transfers), vec![outpoint(1), outpoint(2), outpoint(3)]);
}

#[test]
fn only_donations_are_broadcast_at_once() {
    let transfers = vec![(text("A"), info(vec![recipient(70)], &[1], 30))];
    let batch_info = |donation| InfoBatchTransfer {
        change_utxo_idx: 5,
        blank_allocations: vec![(text("B"), 40)],
        donation,
    };
    let done = finish_send(&text("tx"), &transfers, &batch_info(true), 1000);
    assert!(done.broadcast);
    let b = done.batch_transfer;
    assert_eq!(b.txid, Some(text("tx")));
    assert_eq!((b.status, b.expiration), (TransferStatus::WaitingConfirmations, Some(4600)));
    assert_eq!(b.asset_transfers.len(), 2);
    assert_eq!(b.asset_transfers[0].transfers[0].amount, "70");
    let coloring = |txo_idx, coloring_type, amount| NewColoring {
        txo_idx,
        coloring_type,
        amount: text(amount),
    };
    assert_eq!(
        b.asset_transfers[0].colorings,
        vec![coloring(1, ColoringType::Input, "0"), coloring(5, ColoringType::Change, "30")]
    );
    assert!(!b.asset_transfers[1].user_driven);
    assert_eq!(b.asset_transfers[1].colorings, vec![coloring(5, ColoringType::Change, "40")]);
    let done = finish_send(&text("tx"), &transfers, &batch_info(false), 1000);
    assert!(!done.broadcast);
    assert_eq!(done.batch_transfer.status, TransferStatus::WaitingCounterparty);
}

#[test]
fn a_signed_send_is_found_again() {
    let (wallet, online) = wallet(None);
    let psbt = get_psbt_text(&unsigned_psbt(&[1])).unwrap();
    let prepared = prepared_send("/data/73c5da0a", &unsigned_psbt(&[1])).unwrap();
    let started = wallet.send_end(&online, &psbt).unwrap();
    assert_eq!(started.transfer_dir, prepared.transfer_dir);
    assert_eq!(started.psbt.text, psbt);
    assert_eq!(started.psbt_file, format!("{}/signed.psbt", prepared.transfer_dir));
    assert_eq!(started.info_file, format!("{}/transfer_data.txt", prepared.transfer_dir));
    let refused = wallet.send_end(&online, "x");
    assert!(matches!(refused, Err(WalletError::InvalidPsbt(_))));
    let refused = wallet.send_end(&offline(), &psbt);
    assert!(matches!(refused, Err(WalletError::InvalidOnline)));
}
