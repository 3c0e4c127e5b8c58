use rgb_wallet::chain::PsbtContents;
use rgb_wallet::database::records::Records;
use rgb_wallet::database::{DbAssetTransfer, DbBatchTransfer, DbTransfer, DbTxo};
use rgb_wallet::error::{InternalError, WalletError};
use rgb_wallet::wallet::settle::{
    check_consumed, color_outputs, decide_acks, get_confirmation, plan_settling, record_answer,
    reveal_output, settle_transfer, unanswered, AckOutcome, Confirmation,
};
use rgb_wallet::wallet::types::{Outpoint, Transfer, TransferStatus};

fn text(s: &str) -> String {
    s.to_string()
}

fn batch() -> DbBatchTransfer {
    DbBatchTransfer {
        idx: 1,
        txid: Some(text("tx")),
        status: TransferStatus::WaitingCounterparty,
        expiration: None,
    }
}

fn asset_transfer(idx: i64, user_driven: bool, asset_id: Option<&str>) -> DbAssetTransfer {
    DbAssetTransfer { idx, batch_transfer_idx: 1, user_driven, asset_id: asset_id.map(text) }
}

fn transfer(idx: i64, asset_transfer_idx: i64, ack: Option<bool>) -> DbTransfer {
    DbTransfer {
        idx,
        asset_transfer_idx,
        amount: text("1"),
        blinded_utxo: Some(text("bu")),
        blinding_secret: None,
        ack,
    }
}

fn outcome(acks: [Option<bool>; 2]) -> AckOutcome {
    let records = Records {
        assets: vec![],
        txos: vec![],
        batch_transfers: vec![batch()],
        asset_transfers: vec![asset_transfer(2, true, None), asset_transfer(3, true, None)],
        transfers: vec![
            transfer(1, 2, acks[0]),
            transfer(2, 3, acks[1]),
            transfer(3, 9, Some(false)),
        ],
        colorings: vec![],
    };
    decide_acks("/w", &records, &batch())
}

#[test]
fn recipients_that_have_not_answered_are_asked() {
    let all = vec![transfer(1, 2, None), transfer(2, 2, Some(true)), transfer(3, 4, None)];
    let left = unanswered(&all, 2);
    assert_eq!(left.iter().map(|t| t.idx).collect::<Vec<i64>>(), vec![1]);
}

#[test]
fn answers_are_recorded() {
    let t = transfer(1, 2, None);
    assert_eq!(record_answer(&t, Some(true), Some(true)).unwrap().ack, Some(true));
    assert_eq!(record_answer(&t, Some(false), Some(true)).unwrap().ack, Some(false));
    assert_eq!(record_answer(&t, None, Some(true)).unwrap().ack, Some(false));
    assert_eq!(record_answer(&t, Some(false), None), None);
    assert_eq!(record_answer(&t, None, None), None);
}

#[test]
fn broadcast_only_when_all_accepted() {
    match outcome([Some(true), Some(true)]) {
        AckOutcome::Accepted(path, row) => {
            assert_eq!(path, "/w/transfers/tx/signed.psbt");
            assert_eq!(row.status, TransferStatus::WaitingConfirmations);
        }
        other => panic!("{:?}", other),
    }
    match outcome([Some(false), None]) {
        AckOutcome::Refused(row) => assert_eq!(row.status, TransferStatus::Failed),
        other => panic!("{:?}", other),
    }
    assert_eq!(outcome([Some(true), None]), AckOutcome::Waiting);
}

#[test]
fn confirmations_are_told_by_the_server() {
    assert_eq!(get_confirmation(&Ok(None)), Confirmation::Pending);
    assert_eq!(get_confirmation(&Ok(Some(0))), Confirmation::Pending);
    assert_eq!(get_confirmation(&Ok(Some(1))), Confirmation::Confirmed);
    let unknown = Err(text("error: No such mempool or blockchain transaction. Use x"));
    assert_eq!(get_confirmation(&unknown), Confirmation::Pending);
    assert_eq!(get_confirmation(&Err(text("timeout"))), Confirmation::Failed);
}

#[test]
fn funded_outputs_can_have_allocations() {
    let txo = |idx: i64, vout| DbTxo {
        idx,
        txid: text("tx"),
        vout,
        btc_amount: text("5"),
        spent: false,
        colorable: false,
    };
    let psbt = PsbtContents {
        text: text(""),
        txid: text("tx"),
        inputs: vec![],
        output_values: vec![0, 5, 0, 6],
    };
    let rows = color_outputs(&psbt, &vec![txo(7, 3), txo(8, 1)]);
    assert_eq!(rows.iter().map(|t| t.idx).collect::<Vec<i64>>(), vec![8, 7]);
    assert!(rows.iter().all(|t| t.colorable));
}

#[test]
fn settling_takes_the_consignments() {
    let both = vec![
        asset_transfer(2, true, Some("A")),
        asset_transfer(3, false, Some("B")),
        asset_transfer(4, true, Some("C")),
    ];
    let plan = plan_settling("/w", &batch(), &both, &None);
    assert_eq!(plan.transfer_dir, "/w/transfers/tx");
    assert_eq!(
        plan.consignment_paths,
        vec![
            text("/w/transfers/tx/A/consignment_out"),
            text("/w/transfers/tx/C/consignment_out")
        ]
    );
    assert!(plan.disclosure);
    let received = vec![asset_transfer(2, true, None)];
    let plan = plan_settling("/w", &batch(), &received, &Some(transfer(1, 2, None)));
    assert_eq!(plan.consignment_paths, vec![text("/w/transfers/bu/rcv_compose.rgbc")]);
    assert!(!plan.disclosure);
}

#[test]
fn an_incoming_output_is_revealed() {
    let outpoint = Outpoint { txid: text("t"), vout: 1 };
    let transfer = Transfer {
        idx: 1,
        created_at: 0,
        updated_at: 0,
        status: TransferStatus::WaitingConfirmations,
        amount: 1,
        incoming: true,
        txid: None,
        blinded_utxo: None,
        unblinded_utxo: Some(outpoint.clone()),
        change_utxo: None,
        blinding_secret: Some(77),
        expiration: None,
    };
    let reveal = reveal_output(&transfer);
    assert_eq!((reveal.blinding_factor, reveal.outpoint), (77, outpoint));
}

#[test]
fn consumed_consignments_have_to_be_valid() {
    assert!(check_consumed(true).is_ok());
    assert!(matches!(
        check_consumed(false),
        Err(WalletError::Internal(InternalError::Unexpected))
    ));
}

#[test]
fn a_settled_transfer_keeps_its_transaction() {
    let row = settle_transfer(&batch());
    assert_eq!((row.status, row.txid), (TransferStatus::Settled, Some(text("tx"))));
}
