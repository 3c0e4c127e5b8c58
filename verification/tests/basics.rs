use rgb_wallet::chain::{check_txid, sort_outpoints};
use rgb_wallet::database::entities::coloring::{
    Column, ColumnKind, Entity, Model, PrimaryKey, Relation,
};
use rgb_wallet::database::{ColoringType, DbAsset, DbColoring, DbTransfer, DbTxo, LocalUnspent, TransferData};
use rgb_wallet::seqs::{checked_total, has_id, total};
use rgb_wallet::text::{
    contains_text, is_before, join_path, joined, parse_u64, u64_to_string,
};
use rgb_wallet::wallet::paths::{
    consignment_file, consignment_rcv_file, signed_psbt_file, transfer_data_file, transfer_dir,
};
use rgb_wallet::wallet::types::{
    is_listed, same_text, Asset, Balance, Outpoint, RgbAllocation, Transfer, TransferStatus,
    Unspent, Utxo,
};

fn text(s: &str) -> String {
    s.to_string()
}

#[test]
fn numbers_are_rendered_in_decimal() {
    assert_eq!(u64_to_string(0), "0");
    assert_eq!(u64_to_string(9), "9");
    assert_eq!(u64_to_string(10), "10");
    assert_eq!(u64_to_string(1000), "1000");
    assert_eq!(u64_to_string(u64::MAX), "18446744073709551615");
}

#[test]
fn numbers_are_read_as_rust_reads_them() {
    let cases = [
        "0", "7", "+7", "007", "18446744073709551615", "18446744073709551616", "", "+", "-1", "1a",
        " 1", "1 ", "++1", "99999999999999999999999",
    ];
    for case in cases {
        assert_eq!(parse_u64(case), case.parse::<u64>().ok(), "{}", case);
    }
}

#[test]
fn rendered_numbers_read_back() {
    for n in [0, 1, 9, 10, 99, 100, 12345, u64::MAX - 1, u64::MAX] {
        assert_eq!(parse_u64(&u64_to_string(n)), Some(n));
    }
}

#[test]
fn texts_are_searched() {
    assert!(contains_text("abcdef", "cde"));
    assert!(contains_text("abc", ""));
    assert!(contains_text("abc", "abc"));
    assert!(!contains_text("abc", "abcd"));
    assert!(!contains_text("abcabd", "abe"));
    assert!(contains_text("aab", "ab"));
}

#[test]
fn texts_are_joined_and_ordered() {
    assert_eq!(joined("ab", "cd"), "abcd");
    let words = ["", "a", "aa", "ab", "b", "Z", "\u{e9}", "\u{1f600}"];
    for a in words {
        for b in words {
            assert_eq!(is_before(a, b), a < b, "{} {}", a, b);
        }
    }
}

#[test]
fn paths_are_joined() {
    assert_eq!(join_path("/data", "x"), "/data/x");
    assert_eq!(join_path("/data/", "x"), "/data/x");
    assert_eq!(join_path("", "x"), "x");
    assert_eq!(join_path("/data", "/x"), "/x");
}

#[test]
fn files_of_a_transfer_have_their_places() {
    let dir = transfer_dir("/data/73c5da0a", "txob1abc");
    assert_eq!(dir, "/data/73c5da0a/transfers/txob1abc");
    assert_eq!(transfer_data_file(&dir), "/data/73c5da0a/transfers/txob1abc/transfer_data.txt");
    assert_eq!(signed_psbt_file(&dir), "/data/73c5da0a/transfers/txob1abc/signed.psbt");
    assert_eq!(consignment_file(&dir), "/data/73c5da0a/transfers/txob1abc/consignment_out");
    assert_eq!(consignment_rcv_file(&dir), "/data/73c5da0a/transfers/txob1abc/rcv_compose.rgbc");
}

#[test]
fn amounts_are_added_up() {
    assert_eq!(total(&vec![]), 0);
    assert_eq!(total(&vec![1, 2, 3]), 6);
    assert_eq!(checked_total(&vec![u64::MAX, 0]), Some(u64::MAX));
    assert_eq!(checked_total(&vec![u64::MAX, 1]), None);
    assert!(has_id(&vec![3, 5], 5));
    assert!(!has_id(&vec![3, 5], 4));
}

#[test]
fn outpoints_are_rendered_and_compared() {
    let a = Outpoint { txid: text("ab"), vout: 7 };
    let b = Outpoint { txid: text("ab"), vout: 70 };
    assert_eq!(a.to_string(), "ab:7");
    assert!(a.same(&a.clone()));
    assert!(!a.same(&b));
    assert!(is_listed(&vec![a.clone(), b.clone()], &b));
    assert!(!is_listed(&vec![a.clone()], &b));
    assert_ne!(a.to_string(), b.to_string());
}

#[test]
fn transaction_ids_are_checked() {
    let good = "4a5e1e4baab89f3a32518a88c31bc87f618f76673e2cc77ab2127b7afdeda33b";
    assert!(check_txid(good));
    assert!(check_txid(&good.to_uppercase()));
    assert!(!check_txid(&good[1..]));
    assert!(!check_txid(&format!("{}0", good)));
    assert!(!check_txid(&good.replace('4', "g")));
    assert!(!check_txid(""));
}

#[test]
fn outpoints_are_sorted_as_bitcoin_sorts_them() {
    let ids = [
        "4a5e1e4baab89f3a32518a88c31bc87f618f76673e2cc77ab2127b7afdeda33b",
        "0000000000000000000000000000000000000000000000000000000000000001",
        "0100000000000000000000000000000000000000000000000000000000000000",
        "ff00000000000000000000000000000000000000000000000000000000000000",
    ];
    let mut outpoints = Vec::new();
    let mut expected: Vec<bitcoin::OutPoint> = Vec::new();
    for id in ids {
        for vout in [2, 0, 1, 2] {
            outpoints.push(Outpoint { txid: text(id), vout });
            expected.push(bitcoin::OutPoint::new(id.parse().unwrap(), vout));
        }
    }
    expected.sort();
    expected.dedup();
    let sorted = sort_outpoints(&outpoints);
    assert_eq!(sorted.len(), 12);
    let texts: Vec<String> = sorted.iter().map(|o| o.to_string()).collect();
    let wanted: Vec<String> = expected.iter().map(|o| o.to_string()).collect();
    assert_eq!(texts, wanted);
}

#[test]
fn one_output_in_two_cases_is_one() {
    let id = "4a5e1e4baab89f3a32518a88c31bc87f618f76673e2cc77ab2127b7afdeda33b";
    let twice = vec![
        Outpoint { txid: text(id), vout: 0 },
        Outpoint { txid: id.to_uppercase(), vout: 0 },
    ];
    assert_eq!(sort_outpoints(&twice).len(), 1);
}

#[test]
fn optional_texts_are_compared() {
    assert!(same_text(&None, &None));
    assert!(same_text(&Some(text("a")), &Some(text("a"))));
    assert!(!same_text(&Some(text("a")), &Some(text("b"))));
    assert!(!same_text(&Some(text("a")), &None));
}

#[test]
fn statuses_have_their_numbers() {
    let all = [
        (TransferStatus::WaitingCounterparty, 1),
        (TransferStatus::WaitingConfirmations, 2),
        (TransferStatus::Settled, 3),
        (TransferStatus::Failed, 4),
    ];
    for (status, code) in all {
        assert_eq!(status.to_code(), code);
        assert_eq!(TransferStatus::from_code(code), Some(status));
    }
    assert_eq!(TransferStatus::from_code(0), None);
    assert_eq!(TransferStatus::from_code(5), None);
}

#[test]
fn stored_assets_are_shown() {
    let row = DbAsset {
        idx: 3,
        asset_id: text("rgb1x"),
        ticker: text("TICK"),
        name: text("a name"),
        precision: 7,
    };
    let asset = Asset::from_db_asset(row, Balance { settled: 5, future: 8 });
    assert_eq!(
        asset,
        Asset {
            asset_id: text("rgb1x"),
            ticker: text("TICK"),
            name: text("a name"),
            precision: 7,
            balance: Balance { settled: 5, future: 8 },
        }
    );
}

#[test]
fn stored_transfers_are_shown() {
    let row = DbTransfer {
        idx: 4,
        asset_transfer_idx: 2,
        amount: text("66"),
        blinded_utxo: Some(text("txob1")),
        blinding_secret: Some(text("18446744073709551615")),
        ack: None,
    };
    let data = TransferData {
        created_at: 10,
        updated_at: 11,
        status: TransferStatus::Settled,
        incoming: true,
        txid: Some(text("t")),
        unblinded_utxo: Some(Outpoint { txid: text("u"), vout: 1 }),
        change_utxo: None,
        expiration: Some(99),
    };
    let transfer = Transfer::from_db_transfer(row, data);
    assert_eq!(transfer.idx, 4);
    assert_eq!(transfer.created_at, 10);
    assert_eq!(transfer.updated_at, 11);
    assert_eq!(transfer.status, TransferStatus::Settled);
    assert_eq!(transfer.amount, 66);
    assert!(transfer.incoming);
    assert_eq!(transfer.txid, Some(text("t")));
    assert_eq!(transfer.blinded_utxo, Some(text("txob1")));
    assert_eq!(transfer.unblinded_utxo, Some(Outpoint { txid: text("u"), vout: 1 }));
    assert_eq!(transfer.change_utxo, None);
    assert_eq!(transfer.blinding_secret, Some(u64::MAX));
    assert_eq!(transfer.expiration, Some(99));
}

#[test]
fn stored_outputs_are_shown() {
    let row = DbTxo {
        idx: 1,
        txid: text("t"),
        vout: 2,
        btc_amount: text("1000"),
        spent: false,
        colorable: true,
    };
    assert_eq!(
        Utxo::from_db_txo(row.clone()),
        Utxo { outpoint: Outpoint { txid: text("t"), vout: 2 }, btc_amount: 1000, colorable: true }
    );
    let allocation = RgbAllocation { asset_id: Some(text("a")), amount: 3, settled: true };
    let unspent =
        Unspent::from_local_unspent(LocalUnspent { utxo: row, rgb_allocations: vec![allocation.clone()] });
    assert_eq!(unspent.utxo.btc_amount, 1000);
    assert_eq!(unspent.rgb_allocations, vec![allocation]);
}

#[test]
fn the_table_of_colorings_is_described() {
    assert_eq!(Entity.table_name(), "coloring");
    assert_eq!(Column::Idx.def(), ColumnKind::BigInteger);
    assert_eq!(Column::TxoIdx.def(), ColumnKind::BigInteger);
    assert_eq!(Column::TransferIdx.def(), ColumnKind::BigInteger);
    assert_eq!(Column::ColoringType.def(), ColumnKind::SmallInteger);
    assert_eq!(Column::Amount.def(), ColumnKind::Text);
    assert!(PrimaryKey::auto_increment());
    assert_eq!(Relation::Transfer.def().from, Column::TransferIdx);
    assert_eq!(Relation::Transfer.def().to_table, "transfer");
    assert_eq!(Relation::Txo.def().from, Column::TxoIdx);
    assert_eq!(Entity::to_txo().to_table, "txo");
    assert_eq!(Entity::to_transfer().to_column, "idx");
}

#[test]
fn rows_of_colorings_hold_colorings() {
    let coloring = DbColoring {
        idx: 1,
        txo_idx: 2,
        asset_transfer_idx: 3,
        coloring_type: ColoringType::Change,
        amount: text("4"),
    };
    let row = Model::from_coloring(coloring.clone());
    assert_eq!(row.transfer_idx, 3);
    assert_eq!(row.into_coloring(), coloring);
}
