use rgb_wallet::chain::{read_own_psbt, read_signed_psbt};
use rgb_wallet::database::{ColoringType, DbColoring, DbTxo, LocalUnspent};
use rgb_wallet::error::{InternalError, WalletError};
use rgb_wallet::wallet::funding::{created_outputs, SplitPlan};
use rgb_wallet::wallet::online::GoOnline;
use rgb_wallet::wallet::outputs::{
    get_available_allocations, get_spendable_bitcoins, get_txo, get_utxo, spend_inputs,
    sync_db_txos, WalletOutput,
};
use rgb_wallet::wallet::types::{
    BitcoinNetwork, DatabaseType, Online, Outpoint, RgbAllocation, WalletData,
};
use rgb_wallet::wallet::Wallet;

const XPUB: &str = "xpub661MyMwAqRbcFkPHucMnrGNzDwb6teAX1RbKQmqtEF8kK3Z7LZ59qafCjB9eCRLiTVG3uxBxgKvRgbubRhqSKXnGGb1aoaqLrpMBDrVxga8";
const PHRASE: &str = "abandon abandon abandon abandon abandon abandon abandon abandon abandon \
                      abandon abandon about";

fn text(s: &str) -> String {
    s.to_string()
}

fn online_wallet(mnemonic: Option<&str>) -> (Wallet, Online) {
    let data = WalletData {
        data_dir: text("/data"),
        bitcoin_network: BitcoinNetwork::Regtest,
        database_type: DatabaseType::Sqlite,
        pubkey: text(XPUB),
        mnemonic: mnemonic.map(text),
    };
    let mut wallet = Wallet::new(data, "/data", true).unwrap();
    match wallet.go_online(text("tcp://host:50001"), false, 42) {
        Ok(GoOnline::Start(c)) => (wallet, c.online),
        other => panic!("{:?}", other),
    }
}

fn offline() -> Online {
    Online { id: 0, electrum_url: text("") }
}

fn outpoint(txid: &str, vout: u32) -> Outpoint {
    Outpoint { txid: text(txid), vout }
}

fn txo(idx: i64, btc: &str, colorable: bool) -> DbTxo {
    DbTxo { idx, txid: format!("t{}", idx), vout: 0, btc_amount: text(btc), spent: false, colorable }
}

fn unspent(idx: i64, btc: &str, colorable: bool, allocations: usize) -> LocalUnspent {
    let allocation = RgbAllocation { asset_id: None, amount: 0, settled: false };
    LocalUnspent {
        utxo: txo(idx, btc, colorable),
        rgb_allocations: (0..allocations).map(|_| allocation.clone()).collect(),
    }
}

#[test]
fn new_outputs_are_stored_once() {
    let mut txos = vec![txo(1, "1000", true)];
    let seen = vec![
        WalletOutput { outpoint: outpoint("t1", 0), btc_amount: 1000, external: true },
        WalletOutput { outpoint: outpoint("new", 3), btc_amount: 250, external: false },
    ];
    let rows = sync_db_txos(&txos, &seen);
    assert_eq!(
        rows,
        vec![DbTxo {
            idx: 0,
            txid: text("new"),
            vout: 3,
            btc_amount: text("250"),
            spent: false,
            colorable: false,
        }]
    );
    txos.extend(rows);
    assert!(sync_db_txos(&txos, &seen).is_empty());
}

#[test]
fn an_output_that_counts_as_spent_is_new_again() {
    let mut known = txo(1, "1000", true);
    known.spent = true;
    let seen = vec![WalletOutput { outpoint: outpoint("t1", 0), btc_amount: 7, external: true }];
    assert_eq!(sync_db_txos(&vec![known], &seen).len(), 1);
}

#[test]
fn broadcasting_spends_the_inputs() {
    let txos = vec![txo(1, "1", true), txo(2, "2", false)];
    let rows = spend_inputs(&txos, &vec![outpoint("t2", 0), outpoint("t1", 0)]);
    assert_eq!(rows.iter().map(|t| t.idx).collect::<Vec<i64>>(), vec![2, 1]);
    assert!(rows.iter().all(|t| t.spent));
    assert!(rows[1].colorable);
    assert_eq!(get_txo(&txos, &outpoint("t1", 1)), None);
}

#[test]
fn outputs_with_room_are_available() {
    let unspents = vec![
        unspent(1, "1000", false, 0),
        unspent(2, "1000", true, 5),
        unspent(3, "1000", true, 4),
        unspent(4, "1000", true, 0),
    ];
    let found = get_available_allocations(&unspents, &vec![]);
    assert_eq!(found.iter().map(|u| u.utxo.idx).collect::<Vec<i64>>(), vec![3, 4]);
    let found = get_available_allocations(&unspents, &vec![outpoint("t3", 0)]);
    assert_eq!(found.iter().map(|u| u.utxo.idx).collect::<Vec<i64>>(), vec![4]);
    assert_eq!(get_utxo(&unspents, &vec![]).unwrap().idx, 3);
    assert_eq!(get_spendable_bitcoins(&unspents), 1000);
}

#[test]
fn a_missing_output_is_told_apart_from_missing_funds() {
    let poor = vec![unspent(1, "1999", false, 0)];
    assert!(matches!(get_utxo(&poor, &vec![]), Err(WalletError::InsufficientFunds)));
    let funded = vec![unspent(1, "1999", false, 0), unspent(2, "1", false, 0)];
    assert!(matches!(get_utxo(&funded, &vec![]), Err(WalletError::InsufficientAllocationSlots)));
}

fn plan(up_to: bool, num: Option<u8>, there: usize, btc: &str) -> Result<SplitPlan, WalletError> {
    let (wallet, online) = online_wallet(None);
    let mut unspents: Vec<LocalUnspent> =
        (0..there).map(|i| unspent(10 + i as i64, "1000", true, 0)).collect();
    unspents.push(unspent(1, btc, false, 0));
    let settled = vec![unspent(1, btc, false, 0), unspent(2, "1000", true, 0)];
    wallet.create_utxos_begin(&online, up_to, num, &unspents, &settled)
}

#[test]
fn the_default_number_of_outputs_is_created() {
    let made = plan(false, None, 3, "100000").unwrap();
    assert_eq!(made.count, 5);
    assert_eq!(made.inputs, vec![outpoint("t1", 0)]);
}

#[test]
fn the_requested_number_of_outputs_is_created() {
    assert_eq!(plan(false, Some(9), 3, "100000").unwrap().count, 9);
    assert_eq!(plan(true, Some(9), 3, "100000").unwrap().count, 6);
    assert!(matches!(
        plan(true, Some(3), 3, "100000"),
        Err(WalletError::AllocationsAlreadyAvailable)
    ));
    assert!(matches!(plan(true, None, 5, "100000"), Err(WalletError::AllocationsAlreadyAvailable)));
}

#[test]
fn many_available_outputs_are_all_counted() {
    assert!(matches!(
        plan(true, Some(200), 256, "100000"),
        Err(WalletError::AllocationsAlreadyAvailable)
    ));
}

#[test]
fn funds_limit_the_number_of_outputs() {
    assert_eq!(plan(false, Some(9), 0, "4999").unwrap().count, 4);
    assert_eq!(plan(false, Some(9), 0, "256000").unwrap().count, 9);
    assert!(matches!(plan(false, Some(9), 0, "999"), Err(WalletError::InsufficientFunds)));
    assert!(matches!(plan(false, Some(0), 0, "9999"), Err(WalletError::InsufficientFunds)));
}

#[test]
fn one_output_less_is_tried_until_none_is_left() {
    let mut made = plan(false, Some(3), 0, "100000").unwrap();
    made = made.one_less().unwrap();
    assert_eq!(made.count, 2);
    assert_eq!(made.inputs, vec![outpoint("t1", 0)]);
    made = made.one_less().unwrap();
    assert_eq!(made.count, 1);
    assert!(matches!(made.one_less(), Err(WalletError::InsufficientFunds)));
}

#[test]
fn only_the_first_half_of_creating_outputs_needs_no_online_data() {
    let (wallet, online) = online_wallet(None);
    let funds = vec![unspent(1, "9000", false, 0)];
    let made = wallet.create_utxos_begin(&offline(), false, None, &funds, &funds);
    assert_eq!(made.unwrap().count, 5);
    let made = wallet.create_utxos_end(&offline(), "");
    assert!(matches!(made, Err(WalletError::InvalidOnline)));
    let made = wallet.create_utxos(&online, false, None, &funds, &funds);
    assert!(matches!(made, Err(WalletError::WatchOnly)));
    let (wallet, online) = online_wallet(Some(PHRASE));
    assert_eq!(wallet.create_utxos(&online, false, None, &funds, &funds).unwrap().count, 5);
    let made = wallet.create_utxos(&offline(), false, None, &funds, &funds);
    assert!(matches!(made, Err(WalletError::InvalidOnline)));
}

#[test]
fn created_outputs_can_have_allocations() {
    let txos = vec![txo(1, "1000", false), txo(2, "1000", false), txo(3, "1000", false)];
    let utxos = vec![
        WalletOutput { outpoint: outpoint("t1", 0), btc_amount: 1000, external: true },
        WalletOutput { outpoint: outpoint("t2", 0), btc_amount: 1000, external: true },
        WalletOutput { outpoint: outpoint("t3", 0), btc_amount: 1000, external: false },
    ];
    let (rows, count) = created_outputs(&text("t2"), &utxos, &txos);
    assert_eq!(count, 1);
    assert_eq!(rows[0].idx, 2);
    assert!(rows[0].colorable);
    let (rows, count) = created_outputs(&text("t3"), &utxos, &txos);
    assert_eq!((rows.len(), count), (0, 0));
}

fn psbt() -> bitcoin::psbt::PartiallySignedTransaction {
    let tx = bitcoin::Transaction {
        version: 2,
        lock_time: 0,
        input: vec![bitcoin::TxIn {
            previous_output: bitcoin::OutPoint::new(
                "4a5e1e4baab89f3a32518a88c31bc87f618f76673e2cc77ab2127b7afdeda33b".parse().unwrap(),
                7,
            ),
            ..Default::default()
        }],
        output: vec![
            bitcoin::TxOut { value: 900, script_pubkey: bitcoin::Script::new() },
            bitcoin::TxOut { value: 0, script_pubkey: bitcoin::Script::new() },
        ],
    };
    bitcoin::psbt::PartiallySignedTransaction::from_unsigned_tx(tx).unwrap()
}

#[test]
fn a_signed_psbt_is_read() {
    let (wallet, online) = online_wallet(None);
    let psbt = psbt();
    let read = wallet.create_utxos_end(&online, &psbt.to_string()).unwrap();
    assert_eq!(read.text, psbt.to_string());
    assert_eq!(read.txid, psbt.clone().extract_tx().txid().to_string());
    assert_eq!(
        read.inputs,
        vec![outpoint("4a5e1e4baab89f3a32518a88c31bc87f618f76673e2cc77ab2127b7afdeda33b", 7)]
    );
    assert_eq!(read.output_values, vec![900, 0]);
    assert_eq!(wallet.drain_to_end(&online, &psbt.to_string()).unwrap().txid, read.txid);
}

#[test]
fn a_text_that_is_no_psbt_is_refused() {
    let (wallet, online) = online_wallet(None);
    let read = wallet.create_utxos_end(&online, "no psbt");
    assert!(matches!(read, Err(WalletError::InvalidPsbt(_))));
    let read = wallet.drain_to_end(&online, "");
    assert!(matches!(read, Err(WalletError::InvalidPsbt(_))));
    let read = wallet.drain_to_end(&offline(), &psbt().to_string());
    assert!(matches!(read, Err(WalletError::InvalidOnline)));
    assert!(matches!(read_signed_psbt("x"), Err(WalletError::InvalidPsbt(_))));
    assert!(matches!(
        read_own_psbt("x"),
        Err(WalletError::Internal(InternalError::PsbtParse(_)))
    ));
}

const ADDRESS: &str = "bc1qw508d6qejxtdg4y5r3zarvary0c5xw7kv8f3t4";

fn coloring(txo_idx: i64) -> DbColoring {
    DbColoring {
        idx: 1,
        txo_idx,
        asset_transfer_idx: 1,
        coloring_type: ColoringType::Issue,
        amount: text("1"),
    }
}

#[test]
fn draining_spares_outputs_in_use() {
    let (wallet, online) = online_wallet(None);
    let txos = vec![txo(1, "1", false), txo(2, "1", true), txo(3, "1", false)];
    let colorings = vec![coloring(3)];
    let plan = wallet.drain_to_begin(&online, ADDRESS, false, &txos, &colorings).unwrap();
    assert_eq!(plan.unspendable, vec![outpoint("t2", 0), outpoint("t3", 0)]);
    assert_eq!(
        plan.script,
        vec![
            0x00, 0x14, 0x75, 0x1e, 0x76, 0xe8, 0x19, 0x91, 0x96, 0xd4, 0x54, 0x94, 0x1c, 0x45, 0xd1,
            0xb3, 0xa3, 0x23, 0xf1, 0x43, 0x3b, 0xd6
        ]
    );
    let plan = wallet.drain_to_begin(&online, ADDRESS, true, &txos, &colorings).unwrap();
    assert!(plan.unspendable.is_empty());
}

#[test]
fn draining_checks_its_arguments() {
    let (wallet, online) = online_wallet(None);
    let made = wallet.drain_to_begin(&offline(), ADDRESS, false, &vec![], &vec![]);
    assert!(matches!(made, Err(WalletError::InvalidOnline)));
    let made = wallet.drain_to_begin(&online, "no address", false, &vec![], &vec![]);
    assert!(matches!(made, Err(WalletError::InvalidAddress(_))));
    let made = wallet.drain_to(&online, ADDRESS, false, &vec![], &vec![]);
    assert!(matches!(made, Err(WalletError::WatchOnly)));
    let (wallet, online) = online_wallet(Some(PHRASE));
    assert!(wallet.drain_to(&online, ADDRESS, false, &vec![], &vec![]).is_ok());
}
