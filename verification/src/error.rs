//! What can go wrong in the wallet.

use vstd::prelude::*;

verus! {

/// The error of reading an extended key.
#[verifier::external_type_specification]
#[verifier::external_body]
pub struct ExKeyError(bitcoin::util::bip32::Error);

/// The error of reading a mnemonic phrase.
#[verifier::external_type_specification]
#[verifier::external_body]
pub struct ExMnemonicError(bdk::keys::bip39::Error);

/// The error of reading a bitcoin address.
#[verifier::external_type_specification]
#[verifier::external_body]
pub struct ExAddressError(bitcoin::util::address::Error);

/// The error of reading a PSBT from its text.
#[verifier::external_type_specification]
#[verifier::external_body]
pub struct ExPsbtParseError(bitcoin::util::psbt::PsbtParseError);

/// The error of reading a blinded UTXO.
#[verifier::external_type_specification]
#[verifier::external_body]
pub struct ExSealParseError(bp::seals::txout::blind::ParseError);

/// The error of reading base64 text.
#[verifier::external_type_specification]
#[verifier::external_body]
pub struct ExBase64Error(base64::DecodeError);

/// The error of reading strict-encoded data.
#[verifier::external_type_specification]
#[verifier::external_body]
pub struct ExStrictError(strict_encoding::Error);

/// An error inside the wallet that its user cannot act on.
#[derive(Debug)]
pub enum InternalError {
    /// A consignment is not valid base64 text.
    Base64Decode(base64::DecodeError),
    /// The RGB node does not answer.
    CannotQueryRgbNode,
    /// A consignment lacks what a valid one holds, or does not fit the transfer.
    InvalidConsignment,
    /// A PSBT prepared by the wallet cannot be read back.
    PsbtParse(bitcoin::util::psbt::PsbtParseError),
    /// The data of a PSBT or of a contract do not fit together.
    RgbData,
    /// A consignment cannot be decoded.
    StrictEncode(strict_encoding::Error),
    /// Something that should not happen.
    Unexpected,
}

/// An error of a wallet operation.
#[derive(Debug)]
pub enum WalletError {
    /// Enough outputs that can hold allocations are already there.
    AllocationsAlreadyAvailable,
    /// The asset is not known to the wallet.
    AssetNotFound(String),
    /// No batch transfer has the given transaction ID.
    BatchTransferNotFound(String),
    /// The blinded UTXO belongs to an earlier transfer.
    BlindedUTXOAlreadyUsed,
    /// The wallet is online with another server.
    CannotChangeOnline,
    /// The transfer cannot be deleted.
    CannotDeleteTransfer,
    /// The transfer cannot be failed.
    CannotFailTransfer,
    /// The issuance was refused by the RGB node.
    FailedIssuance(String),
    /// The data of the wallet contradict the outside world.
    Inconsistency(String),
    /// The data directory does not exist.
    InexistentDataDir,
    /// No output has room for one more allocation.
    InsufficientAllocationSlots,
    /// The wallet does not hold enough of the asset.
    InsufficientAssets,
    /// The wallet does not hold enough bitcoins.
    InsufficientFunds,
    /// An internal error.
    Internal(InternalError),
    /// The address is not a bitcoin address.
    InvalidAddress(bitcoin::util::address::Error),
    /// The mnemonic phrase and the extended public key do not belong together.
    InvalidBitcoinKeys,
    /// The blinded UTXO cannot be read.
    InvalidBlindedUTXO(bp::seals::txout::blind::ParseError),
    /// The mnemonic phrase cannot be read.
    InvalidMnemonic(bdk::keys::bip39::Error),
    /// The name of the asset is not made of ASCII characters.
    InvalidName(String),
    /// The given online data are not those of the wallet.
    InvalidOnline,
    /// The PSBT cannot be read.
    InvalidPsbt(bitcoin::util::psbt::PsbtParseError),
    /// The extended public key cannot be read.
    InvalidPubkey(bitcoin::util::bip32::Error),
    /// The ticker of the asset is not made of ASCII characters.
    InvalidTicker(String),
    /// An asset cannot be issued without amounts.
    NoIssuanceAmounts,
    /// No transfer has the given blinded UTXO.
    TransferNotFound(String),
    /// The wallet has no private keys.
    WatchOnly,
}

} // verus!
