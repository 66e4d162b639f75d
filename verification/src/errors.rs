//! What can go wrong.

use vstd::prelude::*;

verus! {

/// The errors of this crate.
#[derive(Debug, PartialEq, Eq)]
pub enum RolesError {
    /// A byte string is longer or shorter than its Sv2 data type admits.
    BinarySv2Error { max_size: usize, len: usize },
    /// A template's coinbase transaction version does not fit in 31 bits.
    TxVersionTooBig,
    /// A template's coinbase transaction version is below 2.
    TxVersionTooLow,
    /// A template's coinbase prefix is not one push of the length that its first byte says.
    InvalidBip34Bytes(Vec<u8>),
    /// A coinbase cannot be read as a transaction.
    InvalidCoinbase,
    /// A coinbase has no input.
    BadPayloadSize,
    /// A hash of another length than 32 bytes.
    ExpectedLen32(usize),
    /// A target of another length than 32 bytes.
    TargetLength(usize),
    /// A lock is poisoned.
    PoisonLock,
}

} // verus!
