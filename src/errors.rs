use vstd::prelude::*;
use crate::decode::DecodeError;
use crate::types::{BucketId, ComponentAddress, KeyValueStoreId, PackageAddress, ProofId, VaultId};

verus! {

/// Why a transaction header was rejected.
#[derive(Debug, Clone, Copy, PartialEq, Eq, Structural)]
pub enum HeaderValidationError {
    UnknownVersion(u8),
    InvalidEpochRange,
    EpochRangeTooLarge,
    OutOfEpochRange,
    InvalidNetwork,
    InvalidCostUnitLimit,
    InvalidTipBps,
}

/// Why the signatures of a transaction were rejected.
#[derive(Debug, Clone, Copy, PartialEq, Eq, Structural)]
pub enum SignatureValidationError {
    TooManySignatures,
    InvalidIntentSignature,
    InvalidNotarySignature,
    DuplicateSigner,
}

/// Why a fresh id could not be allocated.
#[derive(Debug, Clone, Copy, PartialEq, Eq, Structural)]
pub enum IdAllocationError {
    OutOfID,
}

/// Why an id named by a manifest instruction is not usable.
#[derive(Debug, Clone, Copy, PartialEq, Eq, Structural)]
pub enum IdValidationError {
    IdAllocationError(IdAllocationError),
    BucketNotFound(BucketId),
    ProofNotFound(ProofId),
    BucketLocked(BucketId),
}

/// Why the arguments of a call were rejected.
#[derive(Debug)]
pub enum CallDataValidationError {
    DecodeError(DecodeError),
    IdValidationError(IdValidationError),
    VaultNotAllowed(VaultId),
    KeyValueStoreNotAllowed(KeyValueStoreId),
}

/// Why a transaction was rejected before execution.
#[derive(Debug)]
pub enum TransactionValidationError {
    TransactionTooLarge,
    DeserializationError(DecodeError),
    IntentHashRejected,
    HeaderValidationError(HeaderValidationError),
    SignatureValidationError(SignatureValidationError),
    IdValidationError(IdValidationError),
    CallDataValidationError(CallDataValidationError),
}

/// Represents an error when parsing arguments; the type of an argument is named by its text.
#[derive(Debug, Clone)]
pub enum BuildArgsError {
    /// The argument is not provided.
    MissingArgument(usize, String),
    /// The argument is of unsupported type.
    UnsupportedType(usize, String),
    UnsupportedRootType(String),
    /// Failure when parsing an argument.
    FailedToParse(usize, String, String),
    /// Failed to interpret this string as a resource specifier.
    InvalidResourceSpecifier(String),
}

/// Represents an error when building a transaction.
#[derive(Debug, Clone)]
pub enum BuildCallWithAbiError {
    /// The given blueprint function does not exist.
    FunctionNotFound(String),
    /// The given component method does not exist.
    MethodNotFound(String),
    /// The provided arguments do not match the interface.
    FailedToBuildArgs(BuildArgsError),
    /// Failed to export the interface of a function.
    FailedToExportFunctionAbi(PackageAddress, String, String),
    /// Failed to export the interface of a method.
    FailedToExportMethodAbi(ComponentAddress, String),
    /// Account is required but not provided.
    AccountNotProvided,
}

} // verus!
