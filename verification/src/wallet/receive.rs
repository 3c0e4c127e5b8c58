//! Receiving assets: blinding an output and taking in a consignment.

use vstd::prelude::*;

use crate::chain::is_txid;
use crate::database::plans::{NewAssetTransfer, NewBatchTransfer, NewColoring, NewTransfer};
use crate::database::records::{asset_with, get_asset_or_fail};
use crate::database::{
    ColoringType, DbAsset, DbAssetTransfer, DbBatchTransfer, DbColoring, DbTransfer, DbTxo,
    LocalUnspent,
};
use crate::error::{InternalError, WalletError};
use crate::rgb_data::{
    assignment_view, assignment_views, base64_bytes, bytes_of, concealed_seal, consignment_fields,
    consignment_ids, decode_base64, last_transitions, new_seal, read_assignments,
    read_consignment, read_fields, read_last_transitions, seal_of_text, value_assignments,
    AssignmentView, ValueAssignment,
};
use crate::seqs::{
    first_where, lemma_filter_ends, lemma_filter_prefix, lemma_filter_step, lemma_first_at,
    lemma_no_first, lemma_sum_prefix, sum,
};
use crate::text::{decimal, parsed_u64, path_of, rendered_amounts_read_back, u64_to_string};
use crate::wallet::outputs::{
    funds_known, get_utxo, next_utxo, spendable_bitcoins, UTXO_SIZE,
};
use crate::wallet::paths::{consignment_rcv_file, transfer_dir, transfer_dir_of};
use crate::wallet::types::{opt_text, BlindData, Outpoint, TransferStatus};
use crate::wallet::Wallet;

verus! {

/// How many seconds a blinded UTXO is offered where the user asks for no
/// duration.
pub const DURATION_RCV_TRANSFER: u32 = 86400;

/// When a blinded UTXO that is offered now expires: after the requested or the
/// default duration, or never where the duration is zero.
pub open spec fn blind_expiration(duration_seconds: Option<u32>, now: i64) -> Option<int> {
    match duration_seconds {
        Some(d) => if d == 0 {
            None
        } else {
            Some(now + d)
        },
        None => Some(now + DURATION_RCV_TRANSFER),
    }
}

/// Whether rows are those that are stored of a blinded UTXO: a transfer that waits
/// for its counterparty, on an output that receives nothing yet.
pub open spec fn records_blind(
    b: NewBatchTransfer,
    utxo: DbTxo,
    asset_id: Option<Seq<char>>,
    data: BlindData,
) -> bool {
    &&& b.txid is None
    &&& b.status is WaitingCounterparty
    &&& b.expiration == data.expiration_timestamp
    &&& b.asset_transfers@.len() == 1
    &&& b.asset_transfers@[0].user_driven
    &&& opt_text(b.asset_transfers@[0].asset_id) == asset_id
    &&& b.asset_transfers@[0].transfers@.len() == 1
    &&& b.asset_transfers@[0].transfers@[0].amount@ == decimal(0)
    &&& opt_text(b.asset_transfers@[0].transfers@[0].blinded_utxo) == Some(data.blinded_utxo@)
    &&& opt_text(b.asset_transfers@[0].transfers@[0].blinding_secret) == Some(
        decimal(data.blinding_secret as nat),
    )
    &&& b.asset_transfers@[0].colorings@.len() == 1
    &&& b.asset_transfers@[0].colorings@[0].txo_idx == utxo.idx
    &&& b.asset_transfers@[0].colorings@[0].coloring_type is Blind
    &&& b.asset_transfers@[0].colorings@[0].amount@ == decimal(0)
}

/// Gives the blinding data and the rows to store for an output that was blinded.
pub fn record_blind(
    utxo: &DbTxo,
    asset_id: Option<String>,
    blinding_secret: u64,
    blinded_utxo: String,
    duration_seconds: Option<u32>,
    now: i64,
) -> (r: (BlindData, NewBatchTransfer))
    requires
        blind_expiration(duration_seconds, now) matches Some(e) ==> e <= i64::MAX,
    ensures
        r.0.blinding_secret == blinding_secret,
        r.0.blinded_utxo@ == blinded_utxo@,
        r.0.expiration_timestamp is Some <==> blind_expiration(duration_seconds, now) is Some,
        r.0.expiration_timestamp matches Some(e) ==> blind_expiration(duration_seconds, now)
            == Some(e as int),
        records_blind(r.1, *utxo, opt_text(asset_id), r.0),
{
    let expiration: Option<i64> = match duration_seconds {
        Some(d) => if d == 0 {
            None
        } else {
            Some(now + d as i64)
        },
        None => Some(now + DURATION_RCV_TRANSFER as i64),
    };
    let mut transfers: Vec<NewTransfer> = Vec::new();
    transfers.push(
        NewTransfer {
            amount: u64_to_string(0),
            blinded_utxo: Some(blinded_utxo.clone()),
            blinding_secret: Some(u64_to_string(blinding_secret)),
        },
    );
    let mut colorings: Vec<NewColoring> = Vec::new();
    colorings.push(
        NewColoring {
            txo_idx: utxo.idx,
            coloring_type: ColoringType::Blind,
            amount: u64_to_string(0),
        },
    );
    let mut asset_transfers: Vec<NewAssetTransfer> = Vec::new();
    asset_transfers.push(NewAssetTransfer { user_driven: true, asset_id, transfers, colorings });
    let rows: NewBatchTransfer = NewBatchTransfer {
        txid: None,
        status: TransferStatus::WaitingCounterparty,
        expiration,
        asset_transfers,
    };
    (BlindData { blinded_utxo, blinding_secret, expiration_timestamp: expiration }, rows)
}

/// Whether an asset, where one is given, is known.
pub open spec fn known_or_none(assets: Seq<DbAsset>, asset_id: Option<Seq<char>>) -> bool {
    asset_id matches Some(id) ==> asset_with(assets, id) is Some
}

impl Wallet {
    /// Blind an UTXO and return the resulting [`BlindData`]
    ///
    /// Optional [`Asset`] ID and duration (in secods) can be specified
    ///
    /// With the data come the rows to store. The secret is random.
    ///
    /// [`Asset`]: crate::wallet::types::Asset
    pub fn blind(
        &self,
        assets: &Vec<DbAsset>,
        unspents: &Vec<LocalUnspent>,
        asset_id: Option<String>,
        duration_seconds: Option<u32>,
        now: i64,
    ) -> (r: Result<(BlindData, NewBatchTransfer), WalletError>)
        requires
            known_or_none(assets@, opt_text(asset_id)) ==> match next_utxo(
                unspents@,
                Seq::empty(),
            ) {
                None => funds_known(unspents@),
                Some(utxo) => {
                    &&& is_txid(utxo.txid@)
                    &&& blind_expiration(duration_seconds, now) matches Some(e) ==> e <= i64::MAX
                },
            },
        ensures
            ({
                let known = known_or_none(assets@, opt_text(asset_id));
                let next = next_utxo(unspents@, Seq::empty());
                let funded = spendable_bitcoins(unspents@) >= UTXO_SIZE * 2;
                &&& (r matches Err(WalletError::AssetNotFound(_))) <==> !known
                &&& r matches Err(WalletError::AssetNotFound(id)) ==> Some(id@) == opt_text(
                    asset_id,
                )
                &&& (r matches Err(WalletError::InsufficientFunds)) <==> known && next is None
                    && !funded
                &&& (r matches Err(WalletError::InsufficientAllocationSlots)) <==> known
                    && next is None && funded
                &&& r is Ok <==> known && next is Some
                &&& r matches Ok(done) ==> {
                    let data = done.0;
                    let utxo = next->0;
                    &&& data.blinded_utxo@ == concealed_seal(
                        utxo.outpoint_spec()@,
                        data.blinding_secret,
                    )
                    &&& seal_of_text(data.blinded_utxo@) is Some
                    &&& data.expiration_timestamp is Some <==> blind_expiration(
                        duration_seconds,
                        now,
                    ) is Some
                    &&& data.expiration_timestamp matches Some(e) ==> blind_expiration(
                        duration_seconds,
                        now,
                    ) == Some(e as int)
                    &&& records_blind(done.1, utxo, opt_text(asset_id), data)
                }
            }),
    {
        match &asset_id {
            Some(id) => match get_asset_or_fail(assets, id) {
                Err(e) => {
                    return Err(e);
                },
                Ok(_) => {},
            },
            None => {},
        }
        let no_outpoints: Vec<Outpoint> = Vec::new();
        assert(no_outpoints@ =~= Seq::<Outpoint>::empty());
        let utxo: DbTxo = match get_utxo(unspents, &no_outpoints) {
            Err(e) => {
                return Err(e);
            },
            Ok(utxo) => utxo,
        };
        let (secret, blinded_utxo): (u64, String) = new_seal(&utxo.outpoint());
        Ok(record_blind(&utxo, asset_id, secret, blinded_utxo, duration_seconds, now))
    }
}

/// From what is stored of a blinded UTXO, its output and the secret that was drawn
/// can be told again: the stored secret blinds the output to the stored blinded
/// UTXO.
pub proof fn a_blinded_utxo_can_be_revealed(
    b: NewBatchTransfer,
    utxo: DbTxo,
    asset_id: Option<Seq<char>>,
    data: BlindData,
)
    requires
        records_blind(b, utxo, asset_id, data),
        data.blinded_utxo@ == concealed_seal(utxo.outpoint_spec()@, data.blinding_secret),
    ensures
        ({
            let stored = b.asset_transfers@[0].transfers@[0];
            let secret = parsed_u64(stored.blinding_secret->0@);
            &&& secret == Some(data.blinding_secret)
            &&& opt_text(stored.blinded_utxo) == Some(
                concealed_seal(utxo.outpoint_spec()@, secret->0),
            )
        }),
{
    rendered_amounts_read_back(data.blinding_secret);
}

/// A received consignment and where it is kept.
#[derive(Debug, PartialEq, Eq)]
pub struct ReceivedConsignment {
    /// The directory of the transfer
    pub transfer_dir: String,
    /// The file of the consignment
    pub consignment_path: String,
    /// The consignment
    pub consignment: Vec<u8>,
}

/// Whether a received consignment is what a text stands for, and is kept in the
/// directory of a blinded UTXO.
pub open spec fn consignment_received(
    received: ReceivedConsignment,
    wallet_dir: Seq<char>,
    blinded_utxo: Seq<char>,
    text: Seq<char>,
) -> bool {
    &&& base64_bytes(text) == Some(received.consignment@)
    &&& received.transfer_dir@ == transfer_dir_of(wallet_dir, blinded_utxo)
    &&& received.consignment_path@ == path_of(received.transfer_dir@, "rcv_compose.rgbc"@)
}

/// Takes in a consignment that was posted for a transfer, if there is one.
pub fn receive_consignment(
    wallet_dir: &str,
    transfer: &DbTransfer,
    response: &Option<String>,
) -> (r: Result<Option<ReceivedConsignment>, WalletError>)
    requires
        transfer.blinded_utxo is Some,
    ensures
        match *response {
            None => r matches Ok(None),
            Some(text) => {
                let bytes = base64_bytes(text@);
                &&& bytes is None ==> (r matches Err(
                    WalletError::Internal(InternalError::Base64Decode(_)),
                ))
                &&& bytes is Some ==> (r matches Ok(Some(received)) && consignment_received(
                    received,
                    wallet_dir@,
                    transfer.blinded_utxo->0@,
                    text@,
                ))
            },
        },
{
    let text: &String = match response {
        None => {
            return Ok(None);
        },
        Some(text) => text,
    };
    let consignment: Vec<u8> = match decode_base64(text) {
        Err(e) => {
            return Err(WalletError::Internal(InternalError::Base64Decode(e)));
        },
        Ok(bytes) => bytes,
    };
    let blinded_utxo: &String = transfer.blinded_utxo.as_ref().unwrap();
    let transfer_dir: String = transfer_dir(wallet_dir, blinded_utxo.as_str());
    let consignment_path: String = consignment_rcv_file(transfer_dir.as_str());
    Ok(Some(ReceivedConsignment { transfer_dir, consignment_path, consignment }))
}

/// How a consignment fared in validation.
#[derive(Debug, Clone, Copy, PartialEq, Eq, Structural)]
pub enum Validity {
    /// It is valid
    Valid,
    /// It is valid but for transactions that are not mined yet
    ValidExceptEndpoints,
    /// It names transactions that are not known
    UnresolvedTransactions,
    /// It is not valid
    Invalid,
}

/// Whether the wallet accepts a consignment that fared so in validation.
pub open spec fn acceptable(validity: Validity) -> bool {
    validity is Valid || validity is ValidExceptEndpoints
}

/// Refuses a consignment that is not valid: gives the row of its transfer, which
/// failed. There is none for a valid one.
pub fn refuse_consignment(batch: &DbBatchTransfer, validity: Validity) -> (r: Option<
    DbBatchTransfer,
>)
    ensures
        acceptable(validity) ==> r is None,
        !acceptable(validity) ==> r == Some(
            (DbBatchTransfer { status: TransferStatus::Failed, ..*batch }),
        ),
{
    match validity {
        Validity::Valid => None,
        Validity::ValidExceptEndpoints => None,
        Validity::UnresolvedTransactions => {
            let mut row: DbBatchTransfer = batch.clone();
            row.status = TransferStatus::Failed;
            Some(row)
        },
        Validity::Invalid => {
            let mut row: DbBatchTransfer = batch.clone();
            row.status = TransferStatus::Failed;
            Some(row)
        },
    }
}

/// The amounts that assignments put on concealed seals.
pub open spec fn concealed_amounts(assignments: Seq<AssignmentView>) -> Seq<u64> {
    assignments.filter(|a: AssignmentView| a.0 is Some && a.2 is Some).map_values(
        |a: AssignmentView| a.2->0,
    )
}

/// The amount that transitions put on concealed seals. Nothing where one cannot be
/// read.
pub open spec fn received_amount(transitions: Seq<Seq<u8>>) -> Option<nat>
    decreases transitions.len(),
{
    if transitions.len() == 0 {
        Some(0)
    } else {
        match (
            received_amount(transitions.drop_last()),
            value_assignments(transitions.last()),
        ) {
            (Some(before), Some(list)) => Some(before + sum(concealed_amounts(list))),
            _ => None,
        }
    }
}

/// Adds the amounts on concealed seals to a number, if the sum fits.
fn add_concealed(start: u64, assignments: &Vec<ValueAssignment>) -> (r: Option<u64>)
    ensures
        r is Some <==> start + sum(concealed_amounts(assignment_views(assignments@)))
            <= u64::MAX,
        r matches Some(total) ==> total == start + sum(
            concealed_amounts(assignment_views(assignments@)),
        ),
{
    let ghost p = |a: AssignmentView| a.0 is Some && a.2 is Some;
    let ghost f = |a: AssignmentView| a.2->0;
    let ghost all = assignment_views(assignments@);
    let mut acc: u64 = start;
    let mut i: usize = 0;
    proof {
        lemma_filter_ends(all, p);
        assert(all.take(0).filter(p).map_values(f) =~= Seq::<u64>::empty());
    }
    while i < assignments.len()
        invariant
            i <= assignments.len(),
            p == (|a: AssignmentView| a.0 is Some && a.2 is Some),
            f == (|a: AssignmentView| a.2->0),
            all == assignment_views(assignments@),
            acc == start + sum(all.take(i as int).filter(p).map_values(f)),
        decreases assignments.len() - i,
    {
        let assignment: &ValueAssignment = &assignments[i];
        proof {
            assert(all[i as int] == assignment_view(*assignment));
            lemma_filter_step(all, p, i as int);
            lemma_filter_prefix(all, p, i + 1);
            let whole = all.filter(p).map_values(f);
            let part = all.take(i + 1).filter(p).map_values(f);
            assert(whole.take(part.len() as int) =~= part);
            lemma_sum_prefix(whole, part.len() as int);
            if p(all[i as int]) {
                assert(part.drop_last() =~= all.take(i as int).filter(p).map_values(f));
            }
        }
        if assignment.0.is_some() {
            match assignment.2 {
                Some(a) => match acc.checked_add(a) {
                    None => {
                        return None;
                    },
                    Some(next) => {
                        acc = next;
                    },
                },
                None => {},
            }
        }
        i += 1;
    }
    proof {
        lemma_filter_ends(all, p);
    }
    Some(acc)
}

fn get_received_amount(transitions: &Vec<Vec<u8>>) -> (r: Option<u64>)
    ensures
        r is Some <==> (received_amount(bytes_of(transitions@)) matches Some(n) && n <= u64::MAX),
        r matches Some(total) ==> received_amount(bytes_of(transitions@)) == Some(total as nat),
{
    let ghost all = bytes_of(transitions@);
    let mut acc: u64 = 0;
    let mut i: usize = 0;
    assert(all.take(0) =~= Seq::<Seq<u8>>::empty());
    while i < transitions.len()
        invariant
            i <= transitions.len(),
            all == bytes_of(transitions@),
            received_amount(all.take(i as int)) == Some(acc as nat),
        decreases transitions.len() - i,
    {
        proof {
            assert(all.take(i + 1).drop_last() =~= all.take(i as int));
            assert(all.take(i + 1).last() == transitions@[i as int]@);
            lemma_received_prefix(all, i + 1);
        }
        match read_assignments(&transitions[i]) {
            None => {
                return None;
            },
            Some(list) => match add_concealed(acc, &list) {
                None => {
                    return None;
                },
                Some(next) => {
                    acc = next;
                },
            },
        }
        i += 1;
    }
    assert(all.take(i as int) =~= all);
    Some(acc)
}

proof fn lemma_received_prefix(transitions: Seq<Seq<u8>>, n: int)
    requires
        0 <= n <= transitions.len(),
    ensures
        received_amount(transitions) is Some ==> received_amount(transitions.take(n)) is Some,
        received_amount(transitions) matches Some(total) ==> received_amount(transitions.take(n))->0
            <= total,
    decreases transitions.len() - n,
{
    if n == transitions.len() {
        assert(transitions.take(n) =~= transitions);
    } else {
        lemma_received_prefix(transitions, n + 1);
        assert(transitions.take(n + 1).drop_last() =~= transitions.take(n));
    }
}

/// What a consignment brings.
#[derive(Debug, PartialEq, Eq)]
pub struct Receipt {
    /// ID of the contract of the asset
    pub contract_id: String,
    /// ID of the transaction that carries the transfer
    pub txid: String,
    /// RGB amount
    pub amount: u64,
}

/// What a consignment brings: the ID of its contract, that of its last transaction
/// and the amount on concealed seals in its last bundle. Nothing where it lacks one
/// of them or the amount does not fit.
pub open spec fn receipt_of(consignment: Seq<u8>) -> Option<(Seq<char>, Seq<char>, nat)> {
    match (consignment_ids(consignment), last_transitions(consignment)) {
        (Some((contract_id, Some(txid))), Some(transitions)) => match received_amount(transitions) {
            Some(amount) => if amount <= u64::MAX {
                Some((contract_id, txid, amount))
            } else {
                None
            },
            None => None,
        },
        _ => None,
    }
}

/// Fails unless a consignment can be read and has a bundle, which is anchored in a
/// transaction.
pub fn check_anchored(consignment: &Vec<u8>) -> (r: Result<(), WalletError>)
    ensures
        ({
            let ids = consignment_ids(consignment@);
            &&& (r matches Err(WalletError::Internal(InternalError::StrictEncode(_)))) <==> ids is None
            &&& (r matches Err(WalletError::Internal(InternalError::InvalidConsignment)))
                <==> ids is Some && (ids->0).1 is None
            &&& r is Ok <==> ids is Some && (ids->0).1 is Some
        }),
{
    match read_consignment(consignment) {
        Err(e) => Err(WalletError::Internal(InternalError::StrictEncode(e))),
        Ok((_, txid)) => if txid.is_none() {
            Err(WalletError::Internal(InternalError::InvalidConsignment))
        } else {
            Ok(())
        },
    }
}

/// Reads what a consignment brings.
pub fn read_receipt(consignment: &Vec<u8>) -> (r: Result<Receipt, WalletError>)
    ensures
        ({
            let readable = consignment_ids(consignment@) is Some;
            let receipt = receipt_of(consignment@);
            &&& (r matches Err(WalletError::Internal(InternalError::StrictEncode(_))))
                <==> !readable
            &&& (r matches Err(WalletError::Internal(InternalError::InvalidConsignment)))
                <==> readable && receipt is None
            &&& r is Ok <==> receipt is Some
            &&& r matches Ok(got) ==> receipt == Some(
                (got.contract_id@, got.txid@, got.amount as nat),
            )
        }),
{
    let (contract_id, txid): (String, Option<String>) = match read_consignment(consignment) {
        Err(e) => {
            return Err(WalletError::Internal(InternalError::StrictEncode(e)));
        },
        Ok(ids) => ids,
    };
    let txid: String = match txid {
        None => {
            return Err(WalletError::Internal(InternalError::InvalidConsignment));
        },
        Some(txid) => txid,
    };
    let transitions: Vec<Vec<u8>> = match read_last_transitions(consignment) {
        None => {
            return Err(WalletError::Internal(InternalError::InvalidConsignment));
        },
        Some(list) => list,
    };
    match get_received_amount(&transitions) {
        None => Err(WalletError::Internal(InternalError::InvalidConsignment)),
        Some(amount) => Ok(Receipt { contract_id, txid, amount }),
    }
}

/// Whether a row is the one under which the asset of a consignment is first stored:
/// it has the ticker, the name and the precision that the consignment tells.
pub open spec fn describes_asset(a: DbAsset, contract_id: Seq<char>, consignment: Seq<u8>) -> bool {
    &&& a.idx == 0
    &&& a.asset_id@ == contract_id
    &&& consignment_fields(consignment) == Some(
        (Some(a.ticker@), Some(a.name@), Some(a.precision)),
    )
}

/// Whether a consignment tells the ticker, the name and the precision of its asset.
pub open spec fn tells_asset(consignment: Seq<u8>) -> bool {
    consignment_fields(consignment) matches Some(f) && f.0 is Some && f.1 is Some && f.2 is Some
}

/// Reads the row under which the asset of a consignment is first stored.
pub fn read_new_asset(consignment: &Vec<u8>, contract_id: &String) -> (r: Result<
    DbAsset,
    WalletError,
>)
    ensures
        r is Ok <==> tells_asset(consignment@),
        r is Err ==> (r matches Err(WalletError::Internal(InternalError::InvalidConsignment))),
        r matches Ok(asset) ==> describes_asset(asset, contract_id@, consignment@),
{
    match read_fields(consignment) {
        Some((Some(ticker), Some(name), Some(precision))) => Ok(
            DbAsset { idx: 0, asset_id: contract_id.clone(), ticker, name, precision },
        ),
        _ => Err(WalletError::Internal(InternalError::InvalidConsignment)),
    }
}

/// What to store of an accepted consignment.
#[derive(Debug, PartialEq, Eq)]
pub struct AcceptedConsignment {
    /// The asset, where it was not known
    pub asset: Option<DbAsset>,
    /// The updated asset transfer, where it named no asset
    pub asset_transfer: Option<DbAssetTransfer>,
    /// The updated coloring of the output that receives the amount
    pub coloring: DbColoring,
    /// The updated transfer
    pub transfer: DbTransfer,
    /// The updated batch transfer
    pub batch_transfer: DbBatchTransfer,
}

/// The coloring of the output that was blinded for an asset transfer.
pub open spec fn blind_coloring(colorings: Seq<DbColoring>, asset_transfer: i64) -> Option<
    DbColoring,
> {
    first_where(
        colorings,
        |c: DbColoring| c.asset_transfer_idx == asset_transfer && c.coloring_type is Blind,
    )
}

fn get_blind_coloring(colorings: &Vec<DbColoring>, asset_transfer: i64) -> (r: Option<DbColoring>)
    ensures
        r == blind_coloring(colorings@, asset_transfer),
{
    let ghost p = |c: DbColoring|
        c.asset_transfer_idx == asset_transfer && c.coloring_type is Blind;
    let mut i: usize = 0;
    while i < colorings.len()
        invariant
            i <= colorings.len(),
            p == (|c: DbColoring|
                c.asset_transfer_idx == asset_transfer && c.coloring_type is Blind),
            forall|k: int| 0 <= k < i ==> !p(#[trigger] colorings@[k]),
        decreases colorings.len() - i,
    {
        if colorings[i].asset_transfer_idx == asset_transfer && matches!(
            colorings[i].coloring_type,
            ColoringType::Blind
        ) {
            proof {
                lemma_first_at(colorings@, p, i as int);
            }
            return Some(colorings[i].clone());
        }
        i += 1;
    }
    proof {
        lemma_no_first(colorings@, p);
    }
    None
}

/// Whether rows are what is stored when a transfer receives an amount: the amount
/// on the transfer and on the blinded output, the asset where none was named, and
/// the transaction that has to be confirmed.
pub open spec fn records_receipt(
    rows: AcceptedConsignment,
    batch: DbBatchTransfer,
    asset_transfer: DbAssetTransfer,
    transfer: DbTransfer,
    coloring: DbColoring,
    receipt: Receipt,
) -> bool {
    let amount = decimal(receipt.amount as nat);
    &&& rows.asset_transfer is Some <==> asset_transfer.asset_id is None
    &&& rows.asset_transfer matches Some(row) ==> {
        &&& opt_text(row.asset_id) == Some(receipt.contract_id@)
        &&& row == (DbAssetTransfer { asset_id: row.asset_id, ..asset_transfer })
    }
    &&& rows.coloring.amount@ == amount
    &&& rows.coloring == (DbColoring { amount: rows.coloring.amount, ..coloring })
    &&& rows.transfer.amount@ == amount
    &&& rows.transfer == (DbTransfer { amount: rows.transfer.amount, ..transfer })
    &&& opt_text(rows.batch_transfer.txid) == Some(receipt.txid@)
    &&& rows.batch_transfer.status is WaitingConfirmations
    &&& rows.batch_transfer == (DbBatchTransfer {
        txid: rows.batch_transfer.txid,
        status: rows.batch_transfer.status,
        ..batch
    })
}

/// Gives the rows to store when a transfer receives an amount.
pub fn record_receipt(
    batch: &DbBatchTransfer,
    asset_transfer: &DbAssetTransfer,
    transfer: &DbTransfer,
    coloring: &DbColoring,
    receipt: &Receipt,
    asset: Option<DbAsset>,
) -> (r: AcceptedConsignment)
    ensures
        records_receipt(r, *batch, *asset_transfer, *transfer, *coloring, *receipt),
        r.asset == asset,
{
    let updated_asset_transfer: Option<DbAssetTransfer> = if asset_transfer.asset_id.is_none() {
        let mut row: DbAssetTransfer = asset_transfer.clone();
        row.asset_id = Some(receipt.contract_id.clone());
        Some(row)
    } else {
        None
    };
    let mut updated_coloring: DbColoring = coloring.clone();
    updated_coloring.amount = u64_to_string(receipt.amount);
    let mut updated_transfer: DbTransfer = transfer.clone();
    updated_transfer.amount = u64_to_string(receipt.amount);
    let mut updated_batch: DbBatchTransfer = batch.clone();
    updated_batch.txid = Some(receipt.txid.clone());
    updated_batch.status = TransferStatus::WaitingConfirmations;
    AcceptedConsignment {
        asset,
        asset_transfer: updated_asset_transfer,
        coloring: updated_coloring,
        transfer: updated_transfer,
        batch_transfer: updated_batch,
    }
}

/// Accepts a valid consignment: gives the rows to store.
///
/// The asset is read from the consignment only where the transfer named none and
/// the wallet does not know it.
pub fn accept_consignment(
    assets: &Vec<DbAsset>,
    colorings: &Vec<DbColoring>,
    batch: &DbBatchTransfer,
    asset_transfer: &DbAssetTransfer,
    transfer: &DbTransfer,
    consignment: &Vec<u8>,
) -> (r: Result<AcceptedConsignment, WalletError>)
    requires
        blind_coloring(colorings@, asset_transfer.idx) is Some,
    ensures
        ({
            let readable = consignment_ids(consignment@) is Some;
            let receipt = receipt_of(consignment@);
            let is_new = asset_transfer.asset_id is None && asset_with(
                assets@,
                (receipt->0).0,
            ) is None;
            let complete = receipt is Some && (is_new ==> tells_asset(consignment@));
            &&& (r matches Err(WalletError::Internal(InternalError::StrictEncode(_))))
                <==> !readable
            &&& (r matches Err(WalletError::Internal(InternalError::InvalidConsignment)))
                <==> readable && !complete
            &&& r is Ok <==> complete
            &&& r matches Ok(rows) ==> {
                &&& exists|got: Receipt|
                    receipt == Some((got.contract_id@, got.txid@, got.amount as nat))
                        && #[trigger] records_receipt(
                        rows,
                        *batch,
                        *asset_transfer,
                        *transfer,
                        blind_coloring(colorings@, asset_transfer.idx)->0,
                        got,
                    )
                &&& rows.asset is Some <==> is_new
                &&& rows.asset matches Some(asset) ==> describes_asset(
                    asset,
                    (receipt->0).0,
                    consignment@,
                )
            }
        }),
{
    let receipt: Receipt = match read_receipt(consignment) {
        Err(e) => {
            return Err(e);
        },
        Ok(receipt) => receipt,
    };
    let mut asset: Option<DbAsset> = None;
    if asset_transfer.asset_id.is_none() && get_asset_or_fail(
        assets,
        &receipt.contract_id,
    ).is_err() {
        match read_new_asset(consignment, &receipt.contract_id) {
            Err(e) => {
                return Err(e);
            },
            Ok(row) => {
                asset = Some(row);
            },
        }
    }
    let coloring: Option<DbColoring> = get_blind_coloring(colorings, asset_transfer.idx);
    let coloring: DbColoring = coloring.unwrap();
    let rows: AcceptedConsignment = record_receipt(
        batch,
        asset_transfer,
        transfer,
        &coloring,
        &receipt,
        asset,
    );
    proof {
        assert(records_receipt(rows, *batch, *asset_transfer, *transfer, coloring, receipt));
    }
    Ok(rows)
}

} // verus!
