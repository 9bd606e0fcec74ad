//! The ways in which decoding can fail.

use vstd::prelude::*;

verus! {

/// Why a record, or the scan as a whole, could not be decoded.
#[derive(Clone, Copy, Debug, PartialEq, Eq, Structural)]
pub enum DecodeError {
    /// The bytes ended before a field was complete.
    UnexpectedEof,
    /// A variable-length integer does not fit 64 bits.
    MalformedVarInt,
    /// A record value does not hold the fields of an unspent output.
    MalformedUtxoValue,
    /// The scan came to a record that needs the obfuscation key, or to its
    /// end, without having found the key.
    MissingObfuscationKey,
    /// An unspent-output key did not sort after the one before it.
    OutOfOrderKey,
}

} // verus!
