//! Where the wallet keeps the files of its transfers.

use vstd::prelude::*;

use crate::text::{join_path, path_of};

verus! {

/// Where the files of a transfer are: named by the transfer, below a directory of
/// the wallet.
pub open spec fn transfer_dir_of(wallet_dir: Seq<char>, name: Seq<char>) -> Seq<char> {
    path_of(path_of(wallet_dir, "transfers"@), name)
}

/// Gives the directory of a transfer.
pub fn transfer_dir(wallet_dir: &str, name: &str) -> (r: String)
    ensures
        r@ == transfer_dir_of(wallet_dir@, name@),
{
    let transfers: String = join_path(wallet_dir, "transfers");
    join_path(transfers.as_str(), name)
}

/// Gives the file, in the directory of a transfer or of one of its assets, that
/// holds what was decided when the transfer was prepared.
pub fn transfer_data_file(dir: &str) -> (r: String)
    ensures
        r@ == path_of(dir@, "transfer_data.txt"@),
{
    join_path(dir, "transfer_data.txt")
}

/// Gives the file in the directory of a transfer that holds the signed PSBT.
pub fn signed_psbt_file(dir: &str) -> (r: String)
    ensures
        r@ == path_of(dir@, "signed.psbt"@),
{
    join_path(dir, "signed.psbt")
}

/// Gives the file in the directory of an asset that holds the consignment for the
/// recipients.
pub fn consignment_file(dir: &str) -> (r: String)
    ensures
        r@ == path_of(dir@, "consignment_out"@),
{
    join_path(dir, "consignment_out")
}

/// Where the consignment of an asset is kept, below the directory of a transfer.
pub open spec fn consignment_path_of(dir: Seq<char>, asset_id: Seq<char>) -> Seq<char> {
    path_of(path_of(dir, asset_id), "consignment_out"@)
}

/// Gives the file that holds the consignment of an asset, below the directory of a
/// transfer.
pub fn consignment_path(dir: &str, asset_id: &str) -> (r: String)
    ensures
        r@ == consignment_path_of(dir@, asset_id@),
{
    let asset_dir: String = join_path(dir, asset_id);
    consignment_file(asset_dir.as_str())
}

/// Gives the file in the directory of a transfer that holds a received
/// consignment.
pub fn consignment_rcv_file(dir: &str) -> (r: String)
    ensures
        r@ == path_of(dir@, "rcv_compose.rgbc"@),
{
    join_path(dir, "rcv_compose.rgbc")
}

} // verus!
