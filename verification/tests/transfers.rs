use rgb_wallet::database::records::{
    asset_transfers_with_status, batch_transfers_of, get_asset_or_fail, get_asset_transfer_at,
    get_batch_transfer, get_batch_transfer_at, get_transfer, iter_batch_asset_transfers, Records,
};
use rgb_wallet::database::{
    ColoringType, DbAsset, DbAssetTransfer, DbBatchTransfer, DbColoring, DbTransfer, DbTxo,
    LocalUnspent, TransferData,
};
use rgb_wallet::error::WalletError;
use rgb_wallet::wallet::listing::{get_outputs_to_show, get_transfers_to_show, KnownContract};
use rgb_wallet::wallet::online::GoOnline;
use rgb_wallet::wallet::transfers::{
    expire_transfer, expired_transfers, fail_batch_transfer, refresh_transfer, RefreshStep,
};
use rgb_wallet::wallet::types::{
    Balance, BitcoinNetwork, DatabaseType, Online, TransferStatus, WalletData,
};
use rgb_wallet::wallet::Wallet;

const XPUB: &str = "xpub661MyMwAqRbcFkPHucMnrGNzDwb6teAX1RbKQmqtEF8kK3Z7LZ59qafCjB9eCRLiTVG3uxBxgKvRgbubRhqSKXnGGb1aoaqLrpMBDrVxga8";

fn text(s: &str) -> String {
    s.to_string()
}

fn online_wallet() -> (Wallet, Online) {
    let data = WalletData {
        data_dir: text("/data"),
        bitcoin_network: BitcoinNetwork::Regtest,
        database_type: DatabaseType::Sqlite,
        pubkey: text(XPUB),
        mnemonic: None,
    };
    let mut wallet = Wallet::new(data, "/data", true).unwrap();
    match wallet.go_online(text("tcp://host:50001"), false, 42) {
        Ok(GoOnline::Start(c)) => (wallet, c.online),
        other => panic!("{:?}", other),
    }
}

fn batch(idx: i64, txid: Option<&str>, status: TransferStatus) -> DbBatchTransfer {
    DbBatchTransfer { idx, txid: txid.map(text), status, expiration: None }
}

fn asset_transfer(idx: i64, batch_transfer_idx: i64, asset_id: &str) -> DbAssetTransfer {
    DbAssetTransfer { idx, batch_transfer_idx, user_driven: true, asset_id: Some(text(asset_id)) }
}

fn transfer(idx: i64, asset_transfer_idx: i64, blinded_utxo: &str) -> DbTransfer {
    DbTransfer {
        idx,
        asset_transfer_idx,
        amount: text("5"),
        blinded_utxo: Some(text(blinded_utxo)),
        blinding_secret: None,
        ack: None,
    }
}

fn txo(idx: i64, spent: bool) -> DbTxo {
    DbTxo {
        idx,
        txid: format!("t{}", idx),
        vout: 0,
        btc_amount: text("1000"),
        spent,
        colorable: true,
    }
}

fn asset(asset_id: &str) -> DbAsset {
    DbAsset { idx: 1, asset_id: text(asset_id), ticker: text("T"), name: text("N"), precision: 2 }
}

fn records() -> Records {
    Records {
        assets: vec![asset("A"), asset("B")],
        txos: vec![txo(1, false), txo(2, true), txo(3, true)],
        batch_transfers: vec![
            batch(1, None, TransferStatus::Failed),
            batch(2, Some("tx2"), TransferStatus::Failed),
            batch(3, None, TransferStatus::WaitingCounterparty),
            batch(4, Some("tx4"), TransferStatus::WaitingConfirmations),
            batch(5, Some("tx5"), TransferStatus::Settled),
        ],
        asset_transfers: vec![
            asset_transfer(11, 1, "A"),
            asset_transfer(21, 2, "A"),
            asset_transfer(22, 2, "B"),
            asset_transfer(31, 3, "A"),
            asset_transfer(41, 4, "B"),
            asset_transfer(51, 5, "A"),
        ],
        transfers: vec![
            transfer(1, 11, "bu1"),
            transfer(2, 21, "bu2"),
            transfer(3, 22, "bu3"),
            transfer(4, 31, "bu4"),
            transfer(5, 41, "bu5"),
            transfer(6, 51, "bu6"),
        ],
        colorings: vec![],
    }
}

#[test]
fn rows_are_looked_up() {
    let r = records();
    assert_eq!(get_asset_or_fail(&r.assets, &text("B")).unwrap(), asset("B"));
    match get_asset_or_fail(&r.assets, &text("C")) {
        Err(WalletError::AssetNotFound(id)) => assert_eq!(id, "C"),
        other => panic!("{:?}", other),
    }
    assert_eq!(get_transfer(&r.transfers, &text("bu3")).unwrap().idx, 3);
    assert_eq!(get_transfer(&r.transfers, &text("bu9")), None);
    assert_eq!(get_batch_transfer(&r.batch_transfers, &text("tx4")).unwrap().idx, 4);
    assert_eq!(get_batch_transfer(&r.batch_transfers, &text("tx9")), None);
    assert_eq!(get_asset_transfer_at(&r.asset_transfers, 22).unwrap().batch_transfer_idx, 2);
    assert_eq!(get_asset_transfer_at(&r.asset_transfers, 99), None);
    assert_eq!(get_batch_transfer_at(&r.batch_transfers, 5).unwrap().txid, Some(text("tx5")));
    assert_eq!(get_batch_transfer_at(&r.batch_transfers, 99), None);
    assert_eq!(iter_batch_asset_transfers(&r.asset_transfers, 2).len(), 2);
    assert_eq!(batch_transfers_of(&r.transfers, &r.asset_transfers, 2).len(), 2);
    assert_eq!(
        asset_transfers_with_status(
            &r.asset_transfers,
            &r.batch_transfers,
            TransferStatus::Failed
        ),
        vec![11, 21, 22]
    );
}

fn deleted(blinded_utxo: Option<&str>, txid: Option<&str>) -> Result<Vec<i64>, WalletError> {
    let (wallet, _) = online_wallet();
    let list = wallet.delete_transfers(&records(), blinded_utxo.map(text), txid.map(text))?;
    Ok(list.iter().map(|d| d.batch_transfer.idx).collect())
}

#[test]
fn all_failed_transfers_are_deleted() {
    let (wallet, _) = online_wallet();
    let list = wallet.delete_transfers(&records(), None, None).unwrap();
    assert_eq!(list.iter().map(|d| d.batch_transfer.idx).collect::<Vec<i64>>(), vec![1, 2]);
    assert_eq!(list[0].asset_transfers, vec![11]);
    assert_eq!(list[1].asset_transfers, vec![21, 22]);
}

#[test]
fn failed_transfers_are_deleted_once() {
    let (wallet, _) = online_wallet();
    let mut r = records();
    for (idx, asset_transfer_idx) in [(1, 11), (2, 22), (3, r.asset_transfers[3].idx)] {
        r.colorings.push(DbColoring {
            idx,
            txo_idx: 1,
            asset_transfer_idx,
            coloring_type: ColoringType::Change,
            amount: text("1"),
        });
    }
    let kept: Vec<DbBatchTransfer> =
        r.batch_transfers.iter().filter(|b| !b.failed()).cloned().collect();
    for deletion in wallet.delete_transfers(&r, None, None).unwrap() {
        r.colorings.retain(|c| !deletion.asset_transfers.contains(&c.asset_transfer_idx));
        r.batch_transfers.retain(|b| b.idx != deletion.batch_transfer.idx);
    }
    assert_eq!(r.batch_transfers, kept);
    assert_eq!(r.colorings.iter().map(|c| c.idx).collect::<Vec<i64>>(), vec![3]);
    r.transfers.clear();
    assert!(wallet.delete_transfers(&r, None, None).unwrap().is_empty());
}

#[test]
fn a_single_failed_transfer_is_deleted() {
    assert_eq!(deleted(Some("bu1"), None).unwrap(), vec![1]);
    assert_eq!(deleted(None, Some("tx2")).unwrap(), vec![2]);
    assert_eq!(deleted(Some("bu2"), Some("tx2")).unwrap(), vec![2]);
}

#[test]
fn a_part_of_a_batch_is_not_deleted() {
    assert!(matches!(deleted(Some("bu2"), None), Err(WalletError::CannotDeleteTransfer)));
    assert!(matches!(deleted(Some("bu2"), Some("tx4")), Err(WalletError::CannotDeleteTransfer)));
    assert!(matches!(deleted(Some("bu1"), Some("tx2")), Err(WalletError::CannotDeleteTransfer)));
}

#[test]
fn other_transfers_are_not_deleted() {
    assert!(matches!(deleted(Some("bu4"), None), Err(WalletError::CannotDeleteTransfer)));
    assert!(matches!(deleted(None, Some("tx4")), Err(WalletError::CannotDeleteTransfer)));
    assert!(matches!(deleted(None, Some("tx5")), Err(WalletError::CannotDeleteTransfer)));
    match deleted(Some("bu9"), None) {
        Err(WalletError::TransferNotFound(bu)) => assert_eq!(bu, "bu9"),
        other => panic!("{:?}", other),
    }
    match deleted(None, Some("tx9")) {
        Err(WalletError::BatchTransferNotFound(txid)) => assert_eq!(txid, "tx9"),
        other => panic!("{:?}", other),
    }
}

fn to_fail(blinded_utxo: Option<&str>, txid: Option<&str>) -> Result<Vec<i64>, WalletError> {
    let (wallet, online) = online_wallet();
    let list =
        wallet.fail_transfers(&records(), &online, blinded_utxo.map(text), txid.map(text))?;
    Ok(list.iter().map(|b| b.idx).collect())
}

#[test]
fn waiting_transfers_can_be_failed() {
    assert_eq!(to_fail(None, None).unwrap(), vec![3]);
    assert_eq!(to_fail(Some("bu4"), None).unwrap(), vec![3]);
    assert!(matches!(to_fail(Some("bu5"), None), Err(WalletError::CannotFailTransfer)));
    assert!(matches!(to_fail(Some("bu4"), Some("tx4")), Err(WalletError::CannotFailTransfer)));
    assert!(matches!(to_fail(None, Some("tx5")), Err(WalletError::CannotFailTransfer)));
    assert!(matches!(to_fail(Some("bu9"), None), Err(WalletError::TransferNotFound(_))));
    assert!(matches!(to_fail(None, Some("tx9")), Err(WalletError::BatchTransferNotFound(_))));
    let (wallet, _) = online_wallet();
    let offline = Online { id: 0, electrum_url: text("") };
    let refused = wallet.fail_transfers(&records(), &offline, None, None);
    assert!(matches!(refused, Err(WalletError::InvalidOnline)));
}

#[test]
fn a_transfer_fails_unless_it_changed() {
    let waiting = batch(3, None, TransferStatus::WaitingCounterparty);
    let moved = Some(batch(3, None, TransferStatus::WaitingConfirmations));
    let row = fail_batch_transfer(&waiting, &None, true, 77).unwrap().unwrap();
    assert_eq!(row.status, TransferStatus::Failed);
    assert_eq!(row.expiration, Some(77));
    assert_eq!(fail_batch_transfer(&waiting, &moved, false, 77).unwrap(), None);
    assert!(matches!(
        fail_batch_transfer(&waiting, &moved, true, 77),
        Err(WalletError::CannotFailTransfer)
    ));
}

#[test]
fn a_failed_transfer_can_be_deleted() {
    let (wallet, _) = online_wallet();
    let mut r = records();
    let row = fail_batch_transfer(&r.batch_transfers[2], &None, true, 77).unwrap().unwrap();
    r.batch_transfers[2] = row;
    let list = wallet.delete_transfers(&r, Some(text("bu4")), None).unwrap();
    assert_eq!(list[0].batch_transfer.idx, 3);
}

#[test]
fn only_waiting_transfers_expire() {
    let mut late = batch(1, None, TransferStatus::WaitingCounterparty);
    late.expiration = Some(99);
    let mut due = batch(2, None, TransferStatus::WaitingCounterparty);
    due.expiration = Some(100);
    let never = batch(3, None, TransferStatus::WaitingCounterparty);
    let mut confirming = batch(4, None, TransferStatus::WaitingConfirmations);
    confirming.expiration = Some(99);
    let all = vec![late.clone(), due, never, confirming];
    assert_eq!(expired_transfers(&all, 100), vec![late.clone()]);
    let row = expire_transfer(&late, &None).unwrap();
    assert_eq!(row.status, TransferStatus::Failed);
    assert_eq!(row.expiration, Some(99));
    assert_eq!(expire_transfer(&late, &Some(late.clone())), None);
}

#[test]
fn pending_transfers_are_refreshed() {
    let (wallet, online) = online_wallet();
    let r = records();
    let ids = |list: Vec<DbBatchTransfer>| list.iter().map(|b| b.idx).collect::<Vec<i64>>();
    assert_eq!(ids(wallet.refresh(&r, &online, None).unwrap()), vec![3, 4]);
    assert_eq!(ids(wallet.refresh(&r, &online, Some(text("A"))).unwrap()), vec![3]);
    assert_eq!(ids(wallet.refresh(&r, &online, Some(text("B"))).unwrap()), vec![4]);
    let offline = Online { id: 0, electrum_url: text("") };
    let unknown = wallet.refresh(&r, &offline, Some(text("C")));
    assert!(matches!(unknown, Err(WalletError::AssetNotFound(_))));
    let refused = wallet.refresh(&r, &offline, Some(text("A")));
    assert!(matches!(refused, Err(WalletError::InvalidOnline)));
}

#[test]
fn a_refresh_depends_on_status_and_side() {
    let step = |status, incoming| refresh_transfer(&batch(1, None, status), incoming);
    assert_eq!(step(TransferStatus::WaitingCounterparty, true), RefreshStep::WaitConsignment);
    assert_eq!(step(TransferStatus::WaitingCounterparty, false), RefreshStep::WaitAck);
    assert_eq!(step(TransferStatus::WaitingConfirmations, true), RefreshStep::WaitConfirmations);
    assert_eq!(step(TransferStatus::WaitingConfirmations, false), RefreshStep::WaitConfirmations);
    assert_eq!(step(TransferStatus::Settled, true), RefreshStep::Nothing);
    assert_eq!(step(TransferStatus::Failed, false), RefreshStep::Nothing);
}

#[test]
fn transfers_of_an_asset_are_shown() {
    let (wallet, _) = online_wallet();
    let mut r = records();
    r.asset_transfers[5].user_driven = false;
    let rows = get_transfers_to_show(&r, &text("A")).unwrap();
    assert_eq!(rows.iter().map(|t| t.idx).collect::<Vec<i64>>(), vec![1, 2, 4]);
    assert!(matches!(get_transfers_to_show(&r, &text("C")), Err(WalletError::AssetNotFound(_))));
    let data: Vec<TransferData> = (0..3)
        .map(|i| TransferData {
            created_at: i,
            updated_at: i,
            status: TransferStatus::Failed,
            incoming: false,
            txid: None,
            unblinded_utxo: None,
            change_utxo: None,
            expiration: None,
        })
        .collect();
    let shown = wallet.list_transfers(rows, data);
    assert_eq!(shown.len(), 3);
    assert_eq!((shown[2].idx, shown[2].created_at, shown[2].amount), (4, 2, 5));
}

#[test]
fn assets_are_shown_with_their_balances() {
    let (wallet, _) = online_wallet();
    let r = records();
    let known = |contract_id: &str, settled| KnownContract {
        contract_id: text(contract_id),
        contract: None,
        balance: Balance { settled, future: settled + 1 },
    };
    let ids = |contracts: &Vec<KnownContract>| -> Vec<String> {
        wallet.list_assets(&r.assets, contracts).into_iter().map(|a| a.asset_id).collect()
    };
    let shown = wallet.list_assets(&r.assets, &vec![known("B", 3), known("A", 1)]);
    assert_eq!(shown.iter().map(|a| a.asset_id.as_str()).collect::<Vec<&str>>(), vec!["A", "B"]);
    assert_eq!(shown[0].balance, Balance { settled: 1, future: 2 });
    assert_eq!(shown[1].balance, Balance { settled: 3, future: 4 });
    assert_eq!(ids(&vec![known("B", 0)]), vec!["B"]);
    assert!(ids(&vec![]).is_empty());
    assert_eq!(ids(&vec![known("A", 0), known("C", 0), known("D", 0)]), vec!["A"]);
    let balance = Balance { settled: 9, future: 9 };
    assert_eq!(wallet.get_asset_balance(&r.assets, &text("A"), balance).unwrap(), balance);
    assert!(matches!(
        wallet.get_asset_balance(&r.assets, &text("C"), balance),
        Err(WalletError::AssetNotFound(_))
    ));
}

#[test]
fn outputs_of_unconfirmed_transfers_are_shown() {
    let (wallet, _) = online_wallet();
    let mut r = records();
    let coloring = |txo_idx, asset_transfer_idx| DbColoring {
        idx: 1,
        txo_idx,
        asset_transfer_idx,
        coloring_type: ColoringType::Input,
        amount: text("1"),
    };
    r.colorings = vec![coloring(2, 41), coloring(3, 51), coloring(1, 41)];
    let shown = get_outputs_to_show(&r, vec![txo(1, false)]);
    assert_eq!(shown.iter().map(|t| t.idx).collect::<Vec<i64>>(), vec![1, 2]);
    let unspents = shown
        .into_iter()
        .map(|utxo| LocalUnspent { utxo, rgb_allocations: vec![] })
        .collect();
    let listed = wallet.list_unspents(unspents);
    assert_eq!(listed[1].utxo.outpoint.txid, "t2");
    assert_eq!(listed[1].utxo.btc_amount, 1000);
}
