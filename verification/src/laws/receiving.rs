//! Receiving assets.

use vstd::prelude::*;

use crate::database::plans::NewBatchTransfer;
use crate::database::{
    DbAsset, DbAssetTransfer, DbBatchTransfer, DbColoring, DbTransfer, DbTxo, LocalUnspent,
};
use crate::error::{InternalError, WalletError};
use crate::laws::outputs::has_room;
use crate::laws::sending::{is_known, is_text, lemma_known, transfer_at};
use crate::laws::settling::has_new_status;
use crate::laws::text::{below, lemma_below};
use crate::rgb_data::{
    AssignmentView, base64_bytes, concealed_seal, consignment_parts, field_values, seal_of_text,
    value_assignments,
};
use crate::seqs::{lemma_filter_ends, lemma_filter_step, lemma_first_index, sum};
use crate::text::{decimal, digit_char};
use crate::wallet::outputs::{allocatable, get_spendable_bitcoins};
use crate::wallet::receive::{
    accept_consignment, blind_coloring, check_anchored, concealed_amounts, read_new_asset,
    read_receipt, receipt_of, receive_consignment, received_amount, record_blind, record_receipt,
    records_receipt, refuse_consignment, AcceptedConsignment, Receipt, ReceivedConsignment,
    Validity,
};
use crate::wallet::types::{BlindData, Outpoint, TransferStatus};
use crate::wallet::Wallet;

verus! {

/// Whether a blinded UTXO expires after a day where nothing is asked for, after the seconds
/// that are asked for, and never where zero is.
pub open spec fn expires(
    expiration: Option<i64>,
    duration_seconds: Option<u32>,
    now: i64,
) -> bool {
    match duration_seconds {
        None => expiration matches Some(at) && at == now + 24 * 60 * 60,
        Some(seconds) => if seconds == 0 {
            expiration is None
        } else {
            expiration matches Some(at) && at == now + seconds
        },
    }
}

/// Whether two optional texts are the same.
pub open spec fn are_same(a: Option<String>, b: Option<String>) -> bool {
    match (a, b) {
        (Some(x), Some(y)) => x@ == y@,
        (None, None) => true,
        _ => false,
    }
}

/// Whether rows offer a blinded output: one transfer to it, which waits for its
/// counterparty and brings nothing yet.
pub open spec fn offers(
    rows: NewBatchTransfer,
    txo_idx: i64,
    asset_id: Option<String>,
    blinded_utxo: Seq<char>,
    secret: u64,
) -> bool {
    &&& rows.txid is None
    &&& rows.status is WaitingCounterparty
    &&& rows.asset_transfers@.len() == 1
    &&& rows.asset_transfers@[0].user_driven
    &&& are_same(rows.asset_transfers@[0].asset_id, asset_id)
    &&& rows.asset_transfers@[0].transfers@.len() == 1
    &&& rows.asset_transfers@[0].transfers@[0].amount@ == seq!['0']
    &&& is_text(rows.asset_transfers@[0].transfers@[0].blinded_utxo, blinded_utxo)
    &&& is_text(
        rows.asset_transfers@[0].transfers@[0].blinding_secret,
        decimal(secret as nat),
    )
    &&& rows.asset_transfers@[0].colorings@.len() == 1
    &&& rows.asset_transfers@[0].colorings@[0].txo_idx == txo_idx
    &&& rows.asset_transfers@[0].colorings@[0].coloring_type is Blind
    &&& rows.asset_transfers@[0].colorings@[0].amount@ == seq!['0']
}

proof fn lemma_zero()
    ensures
        decimal(0) == seq!['0'],
{
    assert(decimal(0) =~= seq![digit_char(0)]);
}

/// What is stored of a blinded output is the output, its blinded UTXO and the secret, and
/// it is offered until it expires.
pub proof fn blinded_outputs_are_offered(
    utxo: DbTxo,
    asset_id: Option<String>,
    secret: u64,
    blinded_utxo: String,
    duration_seconds: Option<u32>,
    now: i64,
    r: (BlindData, NewBatchTransfer),
)
    requires
        call_ensures(
            record_blind,
            (&utxo, asset_id, secret, blinded_utxo, duration_seconds, now),
            r,
        ),
    ensures
        r.0.blinding_secret == secret,
        r.0.blinded_utxo@ == blinded_utxo@,
        expires(r.0.expiration_timestamp, duration_seconds, now),
        r.1.expiration == r.0.expiration_timestamp,
        offers(r.1, utxo.idx, asset_id, blinded_utxo@, secret),
{
    lemma_zero();
}

/// The output that is blinded is the first one with room for one more allocation, and it
/// can be told from its blinded UTXO with the secret. That fails exactly where an asset is
/// named that is not known, or where no output has room.
pub proof fn the_first_output_with_room_is_blinded(
    wallet: Wallet,
    assets: Vec<DbAsset>,
    unspents: Vec<LocalUnspent>,
    asset_id: Option<String>,
    duration_seconds: Option<u32>,
    now: i64,
    bitcoins: u64,
    r: Result<(BlindData, NewBatchTransfer), WalletError>,
)
    requires
        call_ensures(get_spendable_bitcoins, (&unspents,), bitcoins),
        call_ensures(
            Wallet::blind,
            (&wallet, &assets, &unspents, asset_id, duration_seconds, now),
            r,
        ),
    ensures
        ({
            let known = asset_id matches Some(id) ==> is_known(assets@, id@);
            let full = forall|i: int|
                0 <= i < unspents@.len() ==> !has_room(#[trigger] unspents@[i], Seq::empty());
            &&& !known ==> (r matches Err(WalletError::AssetNotFound(id)) && is_text(
                asset_id,
                id@,
            ))
            &&& known && full && bitcoins < 2000 ==> (r matches Err(
                WalletError::InsufficientFunds,
            ))
            &&& known && full && bitcoins >= 2000 ==> (r matches Err(
                WalletError::InsufficientAllocationSlots,
            ))
            &&& known && !full ==> r is Ok
        }),
        r matches Ok(done) ==> exists|i: int|
            {
                &&& 0 <= i < unspents@.len()
                &&& has_room(#[trigger] unspents@[i], Seq::empty())
                &&& forall|j: int|
                    0 <= j < i ==> !has_room(#[trigger] unspents@[j], Seq::empty())
                &&& done.0.blinded_utxo@ == concealed_seal(
                    (unspents@[i].utxo.txid@, unspents@[i].utxo.vout),
                    done.0.blinding_secret,
                )
                &&& seal_of_text(done.0.blinded_utxo@) is Some
                &&& expires(done.0.expiration_timestamp, duration_seconds, now)
                &&& done.1.expiration == done.0.expiration_timestamp
                &&& offers(
                    done.1,
                    unspents@[i].utxo.idx,
                    asset_id,
                    done.0.blinded_utxo@,
                    done.0.blinding_secret,
                )
            },
{
    lemma_zero();
    if asset_id is Some {
        lemma_known(assets@, asset_id->0@);
    }
    let none = Seq::<Outpoint>::empty();
    let p = |u: LocalUnspent| allocatable(u, none);
    lemma_first_index(unspents@, p);
    assert forall|i: int| 0 <= i < unspents@.len() implies p(#[trigger] unspents@[i]) == has_room(
        unspents@[i],
        none,
    ) by {}
}

/// A consignment is kept below the directory of the blinded UTXO that it is for. As long as
/// there is none, nothing is.
pub proof fn consignments_are_kept_by_blinded_utxo(
    wallet_dir: &str,
    transfer: DbTransfer,
    response: Option<String>,
    r: Result<Option<ReceivedConsignment>, WalletError>,
)
    requires
        call_ensures(receive_consignment, (wallet_dir, &transfer, &response), r),
    ensures
        response is None ==> (r matches Ok(None)),
        response matches Some(text) ==> match base64_bytes(text@) {
            None => r matches Err(WalletError::Internal(InternalError::Base64Decode(_))),
            Some(bytes) => r matches Ok(Some(received)) && received.consignment@ == bytes && (
            transfer.blinded_utxo matches Some(utxo) ==> {
                &&& received.transfer_dir@ == transfer_at(wallet_dir@, utxo@)
                &&& received.consignment_path@ == below(
                    transfer_at(wallet_dir@, utxo@),
                    "rcv_compose.rgbc"@,
                )
            }),
        },
{
    let utxo = transfer.blinded_utxo->0@;
    lemma_below(wallet_dir@, "transfers"@);
    lemma_below(below(wallet_dir@, "transfers"@), utxo);
    lemma_below(transfer_at(wallet_dir@, utxo), "rcv_compose.rgbc"@);
}

/// A transfer fails exactly where its consignment is not valid. That its transactions are
/// not mined yet is no reason, that one of them is not known is.
pub proof fn invalid_consignments_are_refused(
    batch: DbBatchTransfer,
    validity: Validity,
    r: Option<DbBatchTransfer>,
)
    requires
        call_ensures(refuse_consignment, (&batch, validity), r),
    ensures
        match validity {
            Validity::Valid => r is None,
            Validity::ValidExceptEndpoints => r is None,
            Validity::UnresolvedTransactions => r matches Some(row) && has_new_status(
                row,
                batch,
                TransferStatus::Failed,
            ),
            Validity::Invalid => r matches Some(row) && has_new_status(
                row,
                batch,
                TransferStatus::Failed,
            ),
        },
{
}

/// What assignments put on concealed seals, where the amount is known.
pub open spec fn on_concealed_seals(assignments: Seq<AssignmentView>) -> int
    decreases assignments.len(),
{
    if assignments.len() == 0 {
        0
    } else {
        let a = assignments.last();
        on_concealed_seals(assignments.drop_last()) + if a.0 is Some && a.2 is Some {
            a.2->0 as int
        } else {
            0
        }
    }
}

/// What transitions put on concealed seals.
pub open spec fn brought(transitions: Seq<Seq<u8>>) -> int
    decreases transitions.len(),
{
    if transitions.len() == 0 {
        0
    } else {
        brought(transitions.drop_last()) + on_concealed_seals(
            value_assignments(transitions.last())->0,
        )
    }
}

/// Whether all transitions can be read.
pub open spec fn are_readable(transitions: Seq<Seq<u8>>) -> bool {
    forall|i: int|
        0 <= i < transitions.len() ==> value_assignments(#[trigger] transitions[i]) is Some
}

/// Whether a consignment brings an amount: it can be read, and so can the transitions of
/// its last bundle, which together put an amount on concealed seals that fits.
pub open spec fn brings(consignment: Seq<u8>) -> bool {
    consignment_parts(consignment) matches Some(parts) && parts.1.len() > 0 && are_readable(
        parts.1.last().1,
    ) && brought(parts.1.last().1) <= u64::MAX
}

/// Whether a receipt is that of a consignment: its contract, the transaction of its last
/// bundle and what that bundle puts on concealed seals.
pub open spec fn is_receipt_of(receipt: Receipt, consignment: Seq<u8>) -> bool {
    consignment_parts(consignment) matches Some(parts) && {
        &&& receipt.contract_id@ == parts.0
        &&& receipt.txid@ == parts.1.last().0
        &&& receipt.amount == brought(parts.1.last().1)
    }
}

proof fn lemma_concealed(assignments: Seq<AssignmentView>)
    ensures
        on_concealed_seals(assignments) == sum(concealed_amounts(assignments)),
    decreases assignments.len(),
{
    let p = |a: AssignmentView| a.0 is Some && a.2 is Some;
    let f = |a: AssignmentView| a.2->0;
    assert(concealed_amounts(assignments) == assignments.filter(p).map_values(f));
    lemma_filter_ends(assignments, p);
    if assignments.len() == 0 {
        assert(assignments =~= assignments.take(0));
        assert(assignments.filter(p).map_values(f) =~= Seq::<u64>::empty());
    } else {
        let n = assignments.len() - 1;
        let head = assignments.drop_last();
        lemma_concealed(head);
        lemma_filter_step(assignments, p, n);
        assert(assignments.take(n) =~= head);
        if p(assignments[n]) {
            assert(assignments.filter(p).map_values(f).drop_last() =~= head.filter(p).map_values(
                f,
            ));
        }
    }
}

proof fn lemma_brought(transitions: Seq<Seq<u8>>)
    ensures
        received_amount(transitions) is Some <==> are_readable(transitions),
        received_amount(transitions) matches Some(n) ==> n == brought(transitions),
    decreases transitions.len(),
{
    if transitions.len() > 0 {
        let head = transitions.drop_last();
        lemma_brought(head);
        let n = transitions.len() - 1;
        assert(value_assignments(transitions[n]) == value_assignments(transitions.last()));
        if value_assignments(transitions.last()) is Some {
            lemma_concealed(value_assignments(transitions.last())->0);
        }
        if are_readable(head) && value_assignments(transitions[n]) is Some {
            assert forall|i: int| 0 <= i < transitions.len() implies value_assignments(
                #[trigger] transitions[i],
            ) is Some by {
                if i < n {
                    assert(head[i] == transitions[i]);
                }
            }
        }
        if are_readable(transitions) {
            assert forall|i: int| 0 <= i < head.len() implies value_assignments(
                #[trigger] head[i],
            ) is Some by {
                assert(head[i] == transitions[i]);
            }
        }
    }
}

proof fn lemma_brings(consignment: Seq<u8>)
    ensures
        receipt_of(consignment) is Some <==> brings(consignment),
        receipt_of(consignment) matches Some(receipt) ==> {
            &&& consignment_parts(consignment) is Some
            &&& receipt.0 == (consignment_parts(consignment)->0).0
            &&& receipt.1 == (consignment_parts(consignment)->0).1.last().0
            &&& receipt.2 == brought((consignment_parts(consignment)->0).1.last().1)
        },
{
    if consignment_parts(consignment) is Some {
        let parts = consignment_parts(consignment)->0;
        if parts.1.len() > 0 {
            lemma_brought(parts.1.last().1);
        }
    }
}

/// A consignment brings what its last bundle puts on concealed seals, by the transaction
/// that the bundle is anchored in. It has to have a bundle.
pub proof fn the_last_bundle_brings_the_amount(
    consignment: Vec<u8>,
    anchored: Result<(), WalletError>,
    r: Result<Receipt, WalletError>,
)
    requires
        call_ensures(check_anchored, (&consignment,), anchored),
        call_ensures(read_receipt, (&consignment,), r),
    ensures
        match consignment_parts(consignment@) {
            None => {
                &&& anchored matches Err(WalletError::Internal(InternalError::StrictEncode(_)))
                &&& r matches Err(WalletError::Internal(InternalError::StrictEncode(_)))
            },
            Some(parts) => {
                &&& parts.1.len() == 0 ==> (anchored matches Err(
                    WalletError::Internal(InternalError::InvalidConsignment),
                ))
                &&& parts.1.len() > 0 ==> anchored is Ok
                &&& !brings(consignment@) ==> (r matches Err(
                    WalletError::Internal(InternalError::InvalidConsignment),
                ))
                &&& brings(consignment@) ==> (r matches Ok(receipt) && is_receipt_of(
                    receipt,
                    consignment@,
                ))
            },
        },
{
    lemma_brings(consignment@);
}

/// Whether a consignment tells the ticker, the name and the precision of its asset.
pub open spec fn tells_fields(consignment: Seq<u8>) -> bool {
    field_values(consignment) matches Some(f) && f.0.len() > 0 && f.1.len() > 0 && f.2.len() > 0
}

/// Whether a row has the ID of an asset, and the first ticker, name and precision that a
/// consignment tells.
pub open spec fn has_fields(asset: DbAsset, asset_id: Seq<char>, consignment: Seq<u8>) -> bool {
    field_values(consignment) matches Some(f) && {
        &&& asset.idx == 0
        &&& asset.asset_id@ == asset_id
        &&& asset.ticker@ == f.0[0]
        &&& asset.name@ == f.1[0]
        &&& asset.precision == f.2[0]
    }
}

/// A new asset is stored as its consignment describes it.
pub proof fn new_assets_are_described(
    consignment: Vec<u8>,
    contract_id: String,
    r: Result<DbAsset, WalletError>,
)
    requires
        call_ensures(read_new_asset, (&consignment, &contract_id), r),
    ensures
        tells_fields(consignment@) ==> (r matches Ok(asset) && has_fields(
            asset,
            contract_id@,
            consignment@,
        )),
        !tells_fields(consignment@) ==> (r matches Err(
            WalletError::Internal(InternalError::InvalidConsignment),
        )),
{
}

/// Whether rows differ from the stored ones in what a receipt brings, and in nothing else:
/// the amount on the transfer and on the coloring, the asset where the asset transfer named
/// none, and the transaction that now waits for its confirmations.
pub open spec fn is_booked(
    rows: AcceptedConsignment,
    batch: DbBatchTransfer,
    asset_transfer: DbAssetTransfer,
    transfer: DbTransfer,
    coloring: DbColoring,
    receipt: Receipt,
) -> bool {
    let amount = decimal(receipt.amount as nat);
    &&& rows.transfer.amount@ == amount
    &&& rows.transfer.idx == transfer.idx
    &&& rows.transfer.asset_transfer_idx == transfer.asset_transfer_idx
    &&& rows.transfer.blinded_utxo == transfer.blinded_utxo
    &&& rows.transfer.blinding_secret == transfer.blinding_secret
    &&& rows.transfer.ack == transfer.ack
    &&& rows.coloring.amount@ == amount
    &&& rows.coloring.idx == coloring.idx
    &&& rows.coloring.txo_idx == coloring.txo_idx
    &&& rows.coloring.asset_transfer_idx == coloring.asset_transfer_idx
    &&& rows.coloring.coloring_type == coloring.coloring_type
    &&& is_text(rows.batch_transfer.txid, receipt.txid@)
    &&& rows.batch_transfer.status is WaitingConfirmations
    &&& rows.batch_transfer.idx == batch.idx
    &&& rows.batch_transfer.expiration == batch.expiration
    &&& asset_transfer.asset_id is Some ==> rows.asset_transfer is None
    &&& asset_transfer.asset_id is None ==> (rows.asset_transfer matches Some(row) && {
        &&& is_text(row.asset_id, receipt.contract_id@)
        &&& row.idx == asset_transfer.idx
        &&& row.batch_transfer_idx == asset_transfer.batch_transfer_idx
        &&& row.user_driven == asset_transfer.user_driven
    })
}

/// What a receipt brings is booked on the rows of the transfer.
pub proof fn receipts_are_booked(
    batch: DbBatchTransfer,
    asset_transfer: DbAssetTransfer,
    transfer: DbTransfer,
    coloring: DbColoring,
    receipt: Receipt,
    asset: Option<DbAsset>,
    r: AcceptedConsignment,
)
    requires
        call_ensures(
            record_receipt,
            (&batch, &asset_transfer, &transfer, &coloring, &receipt, asset),
            r,
        ),
    ensures
        is_booked(r, batch, asset_transfer, transfer, coloring, receipt),
        r.asset == asset,
{
}

/// Whether a coloring is the one of the output that was blinded for an asset transfer.
pub open spec fn is_blinded_for(
    colorings: Seq<DbColoring>,
    asset_transfer: DbAssetTransfer,
    c: int,
) -> bool {
    &&& 0 <= c < colorings.len()
    &&& colorings[c].asset_transfer_idx == asset_transfer.idx
    &&& colorings[c].coloring_type is Blind
    &&& forall|k: int|
        0 <= k < c ==> (#[trigger] colorings[k]).asset_transfer_idx != asset_transfer.idx || !(
        colorings[k].coloring_type is Blind)
}

/// A consignment that is accepted books what it brings on the output that was blinded for
/// the transfer. Only an asset that the transfer did not name and that is not known is
/// stored.
pub proof fn accepted_consignments_are_booked(
    assets: Vec<DbAsset>,
    colorings: Vec<DbColoring>,
    batch: DbBatchTransfer,
    asset_transfer: DbAssetTransfer,
    transfer: DbTransfer,
    consignment: Vec<u8>,
    c: int,
    r: Result<AcceptedConsignment, WalletError>,
)
    requires
        is_blinded_for(colorings@, asset_transfer, c),
        call_ensures(
            accept_consignment,
            (&assets, &colorings, &batch, &asset_transfer, &transfer, &consignment),
            r,
        ),
    ensures
        match consignment_parts(consignment@) {
            None => r matches Err(WalletError::Internal(InternalError::StrictEncode(_))),
            Some(parts) => {
                let is_new = asset_transfer.asset_id is None && !is_known(assets@, parts.0);
                if brings(consignment@) && (is_new ==> tells_fields(consignment@)) {
                    &&& r matches Ok(rows)
                    &&& exists|receipt: Receipt| #[trigger]
                        is_receipt_of(receipt, consignment@) && is_booked(
                            rows,
                            batch,
                            asset_transfer,
                            transfer,
                            colorings@[c],
                            receipt,
                        )
                    &&& is_new ==> (rows.asset matches Some(asset) && has_fields(
                        asset,
                        parts.0,
                        consignment@,
                    ))
                    &&& !is_new ==> rows.asset is None
                } else {
                    r matches Err(WalletError::Internal(InternalError::InvalidConsignment))
                }
            },
        },
{
    lemma_brings(consignment@);
    let id = asset_transfer.idx;
    let p = |x: DbColoring| x.asset_transfer_idx == id && x.coloring_type is Blind;
    lemma_first_index(colorings@, p);
    assert(p(colorings@[c]));
    assert(blind_coloring(colorings@, id) == Some(colorings@[c])) by {
        let x = blind_coloring(colorings@, id)->0;
        let k = choose|k: int|
            0 <= k < colorings@.len() && #[trigger] colorings@[k] == x && p(x) && forall|j: int|
                0 <= j < k ==> !p(#[trigger] colorings@[j]);
        assert(k == c) by {
            if c < k {
                assert(!p(colorings@[c]));
            }
            if k < c {
                assert(p(colorings@[k]));
            }
        }
    }
    if consignment_parts(consignment@) is Some {
        let parts = consignment_parts(consignment@)->0;
        lemma_known(assets@, parts.0);
        if r is Ok {
            let rows = r->Ok_0;
            let got = choose|got: Receipt|
                receipt_of(consignment@) == Some(
                    (got.contract_id@, got.txid@, got.amount as nat),
                ) && #[trigger] records_receipt(
                    rows,
                    batch,
                    asset_transfer,
                    transfer,
                    blind_coloring(colorings@, id)->0,
                    got,
                );
            assert(is_receipt_of(got, consignment@));
            assert(is_booked(rows, batch, asset_transfer, transfer, colorings@[c], got));
        }
    }
}

} // verus!
