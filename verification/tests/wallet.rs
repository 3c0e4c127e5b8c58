use rgb_wallet::database::{DbAsset, DbTxo};
use rgb_wallet::error::{InternalError, WalletError};
use rgb_wallet::wallet::online::{
    after_silence, check_assets, check_bitcoins, GoOnline, RGB_NODE_TRIES,
};
use rgb_wallet::wallet::types::{BitcoinNetwork, DatabaseType, Online, Outpoint, WalletData};
use rgb_wallet::wallet::Wallet;

const PHRASE: &str = "abandon abandon abandon abandon abandon abandon abandon abandon abandon \
                      abandon abandon about";
const XPUB: &str = "xpub661MyMwAqRbcFkPHucMnrGNzDwb6teAX1RbKQmqtEF8kK3Z7LZ59qafCjB9eCRLiTVG3uxBxgKvRgbubRhqSKXnGGb1aoaqLrpMBDrVxga8";

fn text(s: &str) -> String {
    s.to_string()
}

fn data(pubkey: &str, mnemonic: Option<&str>) -> WalletData {
    WalletData {
        data_dir: text("./data"),
        bitcoin_network: BitcoinNetwork::Regtest,
        database_type: DatabaseType::Sqlite,
        pubkey: text(pubkey),
        mnemonic: mnemonic.map(text),
    }
}

fn start(wallet: &mut Wallet, url: &str) -> Online {
    match wallet.go_online(text(url), false, 1_700_000_000_000_000_123) {
        Ok(GoOnline::Start(c)) => c.online,
        other => panic!("{:?}", other),
    }
}

#[test]
fn a_wallet_is_named_by_its_fingerprint() {
    let wallet = Wallet::new(data(XPUB, Some(PHRASE)), "/home/me/data", true).unwrap();
    assert_eq!(wallet.get_wallet_dir(), "/home/me/data/73c5da0a");
    assert_eq!(wallet.get_wallet_data(), data(XPUB, Some(PHRASE)));
    assert!(wallet.check_xprv().is_ok());
    let dir = Wallet::locate(&data(XPUB, None), "/home/me/data", true).unwrap();
    assert_eq!(dir, "/home/me/data/73c5da0a");
}

#[test]
fn a_wallet_without_a_phrase_is_watch_only() {
    let wallet = Wallet::new(data(XPUB, None), "/home/me/data", true).unwrap();
    assert!(matches!(wallet.check_xprv(), Err(WalletError::WatchOnly)));
}

#[test]
fn keys_have_to_belong_together() {
    let other = "legal winner thank year wave sausage worth useful legal winner thank yellow";
    let made = Wallet::new(data(XPUB, Some(other)), "/data", true);
    assert!(matches!(made, Err(WalletError::InvalidBitcoinKeys)));
}

#[test]
fn wrong_wallet_data_are_refused() {
    let made = Wallet::new(data("xpub", Some(PHRASE)), "/data", true);
    assert!(matches!(made, Err(WalletError::InvalidPubkey(_))));
    let made = Wallet::new(data(XPUB, Some("not a phrase")), "/data", true);
    assert!(matches!(made, Err(WalletError::InvalidMnemonic(_))));
    let made = Wallet::new(data(XPUB, Some(PHRASE)), "/data", false);
    assert!(matches!(made, Err(WalletError::InexistentDataDir)));
    let made = Wallet::locate(&data(XPUB, None), "/data", false);
    assert!(matches!(made, Err(WalletError::InexistentDataDir)));
}

#[test]
fn going_online_starts_with_new_data() {
    let mut wallet = Wallet::new(data(XPUB, None), "/data", true).unwrap();
    match wallet.go_online(text("tcp://host:50001"), true, (1i128 << 64) + 77) {
        Ok(GoOnline::Start(c)) => {
            assert_eq!(c.online, Online { id: 77, electrum_url: text("tcp://host:50001") });
            assert!(!c.probe_server);
            assert!(!c.check_consistency);
            assert_eq!(c.electrum.url, "tcp://host:50001");
            assert_eq!(c.electrum.retry, 3);
            assert_eq!(c.electrum.timeout, 5);
            assert_eq!(c.electrum.stop_gap, 20);
            assert_eq!(c.rpc_endpoint, "rpc-endpoint-77");
            assert_eq!(c.ctl_endpoint, "ctl-endpoint-77");
            assert_eq!(c.storm_endpoint, "storm-endpoint-77");
            assert_eq!(c.store_endpoint, "store-endpoint-77");
        }
        other => panic!("{:?}", other),
    }
}

#[test]
fn other_networks_than_regtest_are_probed() {
    let mut wallet_data = data(XPUB, None);
    wallet_data.bitcoin_network = BitcoinNetwork::Testnet;
    let mut wallet = Wallet::new(wallet_data, "/data", true).unwrap();
    match wallet.go_online(text("tcp://host:50001"), false, 5) {
        Ok(GoOnline::Start(c)) => {
            assert!(c.probe_server);
            assert!(c.check_consistency);
        }
        other => panic!("{:?}", other),
    }
}

#[test]
fn online_data_stay_the_same() {
    let mut wallet = Wallet::new(data(XPUB, None), "/data", true).unwrap();
    let online = start(&mut wallet, "tcp://host:50001");
    assert!(wallet.check_online(&online).is_ok());
    match wallet.go_online(text("tcp://host:50001"), false, 9) {
        Ok(GoOnline::Existing(again)) => assert_eq!(again, online),
        other => panic!("{:?}", other),
    }
    let refused = wallet.go_online(text("tcp://other:50001"), false, 9);
    assert!(matches!(refused, Err(WalletError::CannotChangeOnline)));
    assert!(wallet.check_online(&online).is_ok());
}

#[test]
fn only_the_own_online_data_count() {
    let mut wallet = Wallet::new(data(XPUB, None), "/data", true).unwrap();
    let online = Online { id: 1, electrum_url: text("tcp://host:50001") };
    assert!(matches!(wallet.check_online(&online), Err(WalletError::InvalidOnline)));
    let own = start(&mut wallet, "tcp://host:50001");
    assert!(matches!(wallet.check_online(&online), Err(WalletError::InvalidOnline)));
    let other = Online { id: own.id, electrum_url: text("tcp://other:50001") };
    assert!(matches!(wallet.check_online(&other), Err(WalletError::InvalidOnline)));
}

#[test]
fn a_failed_attempt_leaves_the_wallet_offline() {
    let mut wallet = Wallet::new(data(XPUB, None), "/data", true).unwrap();
    let online = start(&mut wallet, "tcp://host:50001");
    let failed = wallet.end_go_online(Err(WalletError::Inconsistency(text("x"))));
    assert!(matches!(failed, Err(WalletError::Inconsistency(_))));
    assert!(wallet.check_online(&online).is_err());
    let online = start(&mut wallet, "tcp://other:50001");
    assert_eq!(wallet.end_go_online(Ok(online.clone())).unwrap(), online);
    assert!(wallet.check_online(&online).is_ok());
}

#[test]
fn a_silent_node_is_asked_a_number_of_times() {
    let mut left = RGB_NODE_TRIES;
    let mut asked = 1;
    while let Ok(next) = after_silence(left) {
        left = next;
        asked += 1;
    }
    assert_eq!(asked, 21);
    assert!(matches!(
        after_silence(0),
        Err(WalletError::Internal(InternalError::CannotQueryRgbNode))
    ));
}

fn txo(txid: &str, vout: u32, spent: bool) -> DbTxo {
    DbTxo { idx: 1, txid: text(txid), vout, btc_amount: text("1"), spent, colorable: false }
}

#[test]
fn bitcoins_spent_elsewhere_are_noticed() {
    let txos = vec![txo("a", 0, false), txo("b", 1, true)];
    let unspent = vec![Outpoint { txid: text("a"), vout: 0 }, Outpoint { txid: text("c"), vout: 0 }];
    assert!(check_bitcoins(&txos, &unspent).is_ok());
    match check_bitcoins(&txos, &vec![]) {
        Err(WalletError::Inconsistency(details)) => {
            assert_eq!(details, "spent bitcoins with another wallet")
        }
        other => panic!("{:?}", other),
    }
}

#[test]
fn assets_that_the_node_lacks_are_noticed() {
    let assets = vec![DbAsset {
        idx: 1,
        asset_id: text("rgb1a"),
        ticker: text("T"),
        name: text("N"),
        precision: 0,
    }];
    assert!(check_assets(&assets, &vec![text("rgb1b"), text("rgb1a")]).is_ok());
    match check_assets(&assets, &vec![text("rgb1b")]) {
        Err(WalletError::Inconsistency(details)) => {
            assert_eq!(details, "DB assets do not match with ones stored in RGB")
        }
        other => panic!("{:?}", other),
    }
}
