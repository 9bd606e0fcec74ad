//! Decoding of a Bitcoin full node's chainstate records into unspent
//! transaction outputs.
//!
//! The chainstate store is a sorted key-value database. Its values are masked
//! with a repeating XOR key and hold compact encodings: base-128 integers with
//! a continuation bias, and amounts with their trailing decimal zeros factored
//! out. This crate classifies raw keys, removes the mask and parses values
//! into typed records. Every function here is verified against the
//! mathematical model that its contract names.
//!
//! - [`varint`]: reading and writing variable-length integers.
//! - [`amount`]: expanding compact amounts.
//! - [`key`]: classifying raw keys.
//! - [`obfuscation`]: the XOR mask and its key.
//! - [`utxo`]: decoding record values.
//! - [`order`]: the order of unspent-output keys.
//! - [`pipeline`]: the scan over the records of a store.
//! - [`cursor`]: a read position over bytes.
//! - [`estimate`]: a guess at the number of records in a store.
//! - [`error`]: the ways in which decoding can fail.

pub mod amount;
pub mod cursor;
pub mod error;
pub mod estimate;
pub mod key;
pub mod obfuscation;
pub mod order;
pub mod pipeline;
pub mod utxo;
pub mod varint;
