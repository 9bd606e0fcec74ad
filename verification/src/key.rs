//! Classification of raw database keys by their leading tag byte.

use vstd::prelude::*;
use vstd::slice::slice_subrange;
use crate::cursor::ByteCursor;
use crate::error::DecodeError;
use crate::order::bytes_precede;
use crate::order::entry_precedes;
use crate::order::first_difference;
use crate::order::lemma_decided_at;
use crate::order::lemma_first_difference_parts;
use crate::order::part_at;
use crate::varint::lemma_varint_bytes_order;
use crate::varint::lemma_varint_round_trip;
use crate::varint::read_varint;
use crate::varint::varint_bytes;
use crate::varint::varint_prefix;

verus! {

/// The tag byte of the record that holds the obfuscation key.
pub const OBFUSCATION_KEY_TAG: u8 = 0x0e;

/// The tag byte of a record that holds one unspent output.
pub const UTXO_ENTRY_TAG: u8 = 0x43;

/// The length of a transaction id in bytes.
pub const TXID_LEN: usize = 32;

/// The key under which the store holds the obfuscation key: the tag byte,
/// which is also the length of what follows, a zero byte and the ASCII
/// letters of `obfuscate_key`.
pub const OBFUSCATE_KEY_KEY: [u8; 15] = [
    0x0e, 0x00, 0x6f, 0x62, 0x66, 0x75, 0x73, 0x63, 0x61, 0x74, 0x65, 0x5f, 0x6b, 0x65, 0x79,
];

/// What a raw key says about its record.
#[derive(Clone, Copy, Debug, PartialEq, Eq)]
pub enum KeyKind {
    /// The record that holds the obfuscation key.
    ObfuscationKeyRecord,
    /// One unspent output: the transaction id in storage order, which is the
    /// reverse of the order in which it is displayed, and the output index.
    UtxoEntry { txid: [u8; 32], vout: u64 },
    /// Any other record.
    Unknown,
}

/// A `KeyKind` over mathematical values.
pub enum KeyKindModel {
    ObfuscationKeyRecord,
    UtxoEntry { txid: Seq<u8>, vout: u64 },
    Unknown,
}

impl View for KeyKind {
    type V = KeyKindModel;

    open spec fn view(&self) -> KeyKindModel {
        match *self {
            KeyKind::ObfuscationKeyRecord => KeyKindModel::ObfuscationKeyRecord,
            KeyKind::UtxoEntry { txid, vout } => KeyKindModel::UtxoEntry { txid: txid@, vout },
            KeyKind::Unknown => KeyKindModel::Unknown,
        }
    }
}

/// The kind of the record with the raw key `key`.
///
/// The first byte decides. Behind the tag of an unspent output stand the 32
/// bytes of the transaction id and then the output index as a variable-length
/// integer; what follows the integer is not looked at. Such a key is in error
/// when it ends before the id is complete or when the index cannot be read.
/// An empty key has no tag and is unknown.
pub open spec fn key_kind(key: Seq<u8>) -> Result<KeyKindModel, DecodeError> {
    if key.len() == 0 {
        Ok(KeyKindModel::Unknown)
    } else if key[0] == OBFUSCATION_KEY_TAG {
        Ok(KeyKindModel::ObfuscationKeyRecord)
    } else if key[0] == UTXO_ENTRY_TAG {
        if key.len() < 1 + TXID_LEN {
            Err(DecodeError::UnexpectedEof)
        } else {
            match varint_prefix(key.skip(1 + TXID_LEN as int)) {
                Ok((vout, _)) => Ok(
                    KeyKindModel::UtxoEntry { txid: key.subrange(1, 1 + TXID_LEN as int), vout },
                ),
                Err(e) => Err(e),
            }
        }
    } else {
        Ok(KeyKindModel::Unknown)
    }
}

/// A key made of the unspent-output tag, a 32-byte transaction id and a
/// readable output index, with anything behind it, is classified as that
/// output.
pub proof fn lemma_utxo_key_is_entry(txid: Seq<u8>, index: Seq<u8>, vout: u64, len: nat)
    requires
        txid.len() == TXID_LEN,
        varint_prefix(index) == Ok::<(u64, nat), DecodeError>((vout, len)),
    ensures
        key_kind(seq![UTXO_ENTRY_TAG] + txid + index) == Ok::<KeyKindModel, DecodeError>(
            KeyKindModel::UtxoEntry { txid, vout },
        ),
{
    let key = seq![UTXO_ENTRY_TAG] + txid + index;
    assert(key[0] == UTXO_ENTRY_TAG);
    assert(key.skip(1 + TXID_LEN as int) =~= index);
    assert(key.subrange(1, 1 + TXID_LEN as int) =~= txid);
}

/// The key of the obfuscation-key record is classified as that record.
pub proof fn lemma_obfuscate_key_key_kind()
    ensures
        key_kind(OBFUSCATE_KEY_KEY@) == Ok::<KeyKindModel, DecodeError>(
            KeyKindModel::ObfuscationKeyRecord,
        ),
{
    assert(OBFUSCATE_KEY_KEY@[0] == OBFUSCATION_KEY_TAG);
}

/// The raw key of the unspent output `vout` of the transaction `txid`: the
/// tag, the transaction id in storage order and the encoded output index.
pub open spec fn utxo_key_bytes(txid: Seq<u8>, vout: u64) -> Seq<u8> {
    seq![UTXO_ENTRY_TAG] + txid + varint_bytes(vout as nat)
}

/// The raw key of an unspent output is classified as that output.
pub proof fn lemma_utxo_key_bytes_kind(txid: Seq<u8>, vout: u64)
    requires
        txid.len() == TXID_LEN,
    ensures
        key_kind(utxo_key_bytes(txid, vout)) == Ok::<KeyKindModel, DecodeError>(
            KeyKindModel::UtxoEntry { txid, vout },
        ),
{
    let index = varint_bytes(vout as nat);
    lemma_varint_round_trip(vout, Seq::empty());
    assert(index + Seq::<u8>::empty() =~= index);
    lemma_utxo_key_is_entry(txid, index, vout, index.len());
}

/// Whether the encodings of two output indices sort as the indices do:
/// they are equally long, or one of the indices is below 128.
pub open spec fn indices_sort_as_encoded(vout_a: u64, vout_b: u64) -> bool {
    ||| vout_a < 128
    ||| vout_b < 128
    ||| varint_bytes(vout_a as nat).len() == varint_bytes(vout_b as nat).len()
}

/// A store that sorts its raw keys as byte strings sorts unspent outputs by
/// transaction id and then by output index, as far as the encodings of the
/// output indices sort as the indices do.
pub proof fn lemma_raw_key_order(txid_a: Seq<u8>, vout_a: u64, txid_b: Seq<u8>, vout_b: u64)
    requires
        txid_a.len() == txid_b.len(),
        indices_sort_as_encoded(vout_a, vout_b),
    ensures
        bytes_precede(utxo_key_bytes(txid_a, vout_a), utxo_key_bytes(txid_b, vout_b))
            == entry_precedes(txid_a, vout_a, txid_b, vout_b),
{
    let key_a = utxo_key_bytes(txid_a, vout_a);
    let key_b = utxo_key_bytes(txid_b, vout_b);
    let r = first_difference(txid_a, txid_b, 0) as int;
    lemma_first_difference_parts(txid_a, txid_b, 0);
    lemma_decided_at(txid_a, txid_b, r);
    if txid_a != txid_b {
        assert(part_at(key_a, key_b, 1 + r));
        lemma_decided_at(key_a, key_b, 1 + r);
    } else if vout_a == vout_b {
    } else {
        let head = 1 + txid_a.len();
        if vout_a < vout_b {
            let i = lemma_varint_bytes_order(vout_a as nat, vout_b as nat);
            assert(part_at(key_a, key_b, head + i));
            lemma_decided_at(key_a, key_b, head + i);
        } else {
            let i = lemma_varint_bytes_order(vout_b as nat, vout_a as nat);
            assert(part_at(key_a, key_b, head + i));
            lemma_decided_at(key_a, key_b, head + i);
        }
    }
}

/// A key whose first byte is neither of the two tags is unknown.
pub proof fn lemma_other_tag_is_unknown(key: Seq<u8>)
    requires
        key.len() > 0,
        key[0] != UTXO_ENTRY_TAG,
        key[0] != OBFUSCATION_KEY_TAG,
    ensures
        key_kind(key) == Ok::<KeyKindModel, DecodeError>(KeyKindModel::Unknown),
{
}

/// Copies 32 bytes of `bytes`, from index `start` on, into an array.
fn copy_txid(bytes: &[u8], start: usize) -> (txid: [u8; 32])
    requires
        start + TXID_LEN <= bytes@.len(),
    ensures
        txid@ == bytes@.subrange(start as int, start + TXID_LEN as int),
{
    let mut txid: [u8; 32] = [0u8; 32];
    let mut i: usize = 0;
    while i < 32
        invariant
            i <= 32,
            start + TXID_LEN <= bytes@.len() == bytes.len(),
            forall|j: int| 0 <= j < i ==> txid@[j] == bytes@[start + j],
        decreases 32 - i,
    {
        txid[i] = bytes[start + i];
        i = i + 1;
    }
    assert(txid@ =~= bytes@.subrange(start as int, start + TXID_LEN as int));
    txid
}

/// Classifies a raw key.
pub fn classify(key: &[u8]) -> (result: Result<KeyKind, DecodeError>)
    ensures
        match key_kind(key@) {
            Ok(kind) => result.is_ok() && result.unwrap()@ == kind,
            Err(e) => result == Err::<KeyKind, DecodeError>(e),
        },
{
    if key.len() == 0 {
        return Ok(KeyKind::Unknown);
    }
    let tag: u8 = key[0];
    if tag == OBFUSCATION_KEY_TAG {
        Ok(KeyKind::ObfuscationKeyRecord)
    } else if tag == UTXO_ENTRY_TAG {
        if key.len() < 1 + TXID_LEN {
            return Err(DecodeError::UnexpectedEof);
        }
        let txid = copy_txid(key, 1);
        let mut cursor = ByteCursor::new(slice_subrange(key, 1 + TXID_LEN, key.len()));
        assert(cursor.unread() =~= key@.skip(1 + TXID_LEN as int));
        match read_varint(&mut cursor) {
            Ok(vout) => Ok(KeyKind::UtxoEntry { txid, vout }),
            Err(e) => Err(e),
        }
    } else {
        Ok(KeyKind::Unknown)
    }
}

} // verus!
