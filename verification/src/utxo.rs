//! Decoding of deobfuscated record values into unspent outputs.

use vstd::prelude::*;
use vstd::slice::slice_subrange;
use vstd::slice::slice_to_vec;
use crate::amount::decompress_amount;
use crate::amount::decompressed_amount;
use crate::amount::word_range;
use crate::cursor::ByteCursor;
use crate::error::DecodeError;
use crate::varint::lemma_varint_prefix_len;
use crate::varint::read_varint;
use crate::varint::varint_prefix;

verus! {

/// The script type of an output that pays to a version-0 witness program with
/// a 20-byte public-key hash.
pub const WITNESS_V0_KEYHASH: u64 = 28;

/// The number of script bytes that precede the hash in such an output.
pub const WITNESS_PREFIX_LEN: usize = 3;

/// The length of a public-key hash in bytes.
pub const KEYHASH_LEN: usize = 20;

/// One unspent transaction output.
#[derive(Clone, Debug, PartialEq, Eq)]
pub struct UtxoRecord {
    /// The transaction id in the order in which it is displayed.
    pub txid: [u8; 32],
    /// The index of the output in its transaction.
    pub vout: u64,
    /// Whether the transaction is a block reward.
    pub is_coinbase: bool,
    /// The height of the block that holds the transaction.
    pub height: u64,
    /// The amount in satoshis.
    pub amount: u64,
    /// The code of the script's compact form.
    pub script_type: u64,
    /// The script bytes as stored.
    pub script: Vec<u8>,
}

/// A `UtxoRecord` over mathematical values.
pub struct UtxoModel {
    pub txid: Seq<u8>,
    pub vout: u64,
    pub is_coinbase: bool,
    pub height: u64,
    pub amount: u64,
    pub script_type: u64,
    pub script: Seq<u8>,
}

impl View for UtxoRecord {
    type V = UtxoModel;

    open spec fn view(&self) -> UtxoModel {
        UtxoModel {
            txid: self.txid@,
            vout: self.vout,
            is_coinbase: self.is_coinbase,
            height: self.height,
            amount: self.amount,
            script_type: self.script_type,
            script: self.script@,
        }
    }
}

/// The three leading integers of a record value and the number of bytes they
/// take together: the height with the coinbase flag in its lowest bit, the
/// compact amount, and the script type.
pub open spec fn value_header(value: Seq<u8>) -> Option<(u64, u64, u64, nat)> {
    match varint_prefix(value) {
        Ok((code, n1)) => match varint_prefix(value.skip(n1 as int)) {
            Ok((compact, n2)) => match varint_prefix(value.skip((n1 + n2) as int)) {
                Ok((script_type, n3)) => Some((code, compact, script_type, n1 + n2 + n3)),
                Err(_) => None,
            },
            Err(_) => None,
        },
        Err(_) => None,
    }
}

/// The unspent output that the key fields `txid` and `vout` and the
/// deobfuscated value `value` describe, if the value holds its three leading
/// integers.
///
/// The transaction id is turned from storage order into display order. The
/// script is what follows the three integers; for a script type other than
/// zero it starts one byte earlier, on the last byte of the script type.
pub open spec fn utxo_fields(txid: Seq<u8>, vout: u64, value: Seq<u8>) -> Option<UtxoModel> {
    match value_header(value) {
        Some((code, compact, script_type, len)) => Some(
            UtxoModel {
                txid: txid.reverse(),
                vout,
                is_coinbase: code % 2 == 1,
                height: code / 2,
                amount: (decompressed_amount(compact as nat) % word_range()) as u64,
                script_type,
                script: value.skip(
                    if script_type != 0 {
                        len - 1
                    } else {
                        len as int
                    },
                ),
            },
        ),
        None => None,
    }
}

/// The header lies within the value and holds at least three bytes.
pub proof fn lemma_value_header_len(value: Seq<u8>)
    ensures
        value_header(value) matches Some((_, _, _, len)) ==> 3 <= len <= value.len(),
{
    lemma_varint_prefix_len(value);
    if let Ok((_, n1)) = varint_prefix(value) {
        lemma_varint_prefix_len(value.skip(n1 as int));
        if let Ok((_, n2)) = varint_prefix(value.skip(n1 as int)) {
            lemma_varint_prefix_len(value.skip((n1 + n2) as int));
        }
    }
}

/// With a script type other than zero the script keeps the last byte of the
/// script type and every byte behind it: stepping back by one loses nothing
/// of what follows the header.
pub proof fn lemma_script_after_rewind(txid: Seq<u8>, vout: u64, value: Seq<u8>)
    requires
        utxo_fields(txid, vout, value) is Some,
        utxo_fields(txid, vout, value).unwrap().script_type != 0,
    ensures
        ({
            let len = value_header(value).unwrap().3;
            let script = utxo_fields(txid, vout, value).unwrap().script;
            &&& script.len() == value.len() - len + 1
            &&& script[0] == value[len - 1]
            &&& script.skip(1) == value.skip(len as int)
        }),
{
    lemma_value_header_len(value);
    let len = value_header(value).unwrap().3;
    let script = utxo_fields(txid, vout, value).unwrap().script;
    assert(script.skip(1) =~= value.skip(len as int));
}

/// Turns a transaction id around.
fn reversed_txid(txid: &[u8; 32]) -> (out: [u8; 32])
    ensures
        out@ == txid@.reverse(),
{
    let mut out: [u8; 32] = [0u8; 32];
    let mut i: usize = 0;
    while i < 32
        invariant
            i <= 32,
            forall|j: int| 0 <= j < i ==> out@[j] == txid@[31 - j],
        decreases 32 - i,
    {
        out[i] = txid[31 - i];
        i = i + 1;
    }
    assert(out@ =~= txid@.reverse());
    out
}

impl UtxoRecord {
    /// Decodes the deobfuscated value of the record with the key fields
    /// `txid`, in storage order, and `vout`.
    ///
    /// Fails with `MalformedUtxoValue` exactly when one of the three leading
    /// integers cannot be read.
    pub fn decode(txid: &[u8; 32], vout: u64, value: &[u8]) -> (result: Result<
        UtxoRecord,
        DecodeError,
    >)
        ensures
            match utxo_fields(txid@, vout, value@) {
                Some(fields) => result.is_ok() && result.unwrap()@ == fields,
                None => result == Err::<UtxoRecord, DecodeError>(DecodeError::MalformedUtxoValue),
            },
    {
        let mut cursor = ByteCursor::new(value);
        assert(cursor.unread() =~= value@);
        let code: u64 = match read_varint(&mut cursor) {
            Ok(v) => v,
            Err(_) => {
                return Err(DecodeError::MalformedUtxoValue);
            },
        };
        let compact: u64 = match read_varint(&mut cursor) {
            Ok(v) => v,
            Err(_) => {
                return Err(DecodeError::MalformedUtxoValue);
            },
        };
        let script_type: u64 = match read_varint(&mut cursor) {
            Ok(v) => v,
            Err(_) => {
                return Err(DecodeError::MalformedUtxoValue);
            },
        };
        proof {
            lemma_value_header_len(value@);
        }
        if script_type != 0 {
            cursor.rewind(1);
        }
        let script = cursor.read_to_end();
        assert(code >> 1 == code / 2) by (bit_vector);
        assert((code & 1 != 0) == (code % 2 == 1)) by (bit_vector);
        Ok(
            UtxoRecord {
                txid: reversed_txid(txid),
                vout,
                is_coinbase: (code & 1) != 0,
                height: code >> 1,
                amount: decompress_amount(compact),
                script_type,
                script,
            },
        )
    }

    /// Whether the record has the script type of a version-0 witness output
    /// with a 20-byte public-key hash, and a script of the length that goes
    /// with it: the three bytes before the hash and the hash.
    pub open spec fn is_witness_v0_keyhash(&self) -> bool {
        self.script_type == WITNESS_V0_KEYHASH && self.script@.len() == WITNESS_PREFIX_LEN
            + KEYHASH_LEN
    }

    /// The 20-byte public-key hash of a version-0 witness output: the script
    /// without its first three bytes. `None` for every other record.
    pub fn witness_keyhash(&self) -> (hash: Option<Vec<u8>>)
        ensures
            self.is_witness_v0_keyhash() ==> hash.is_some() && hash.unwrap()@
                == self.script@.skip(WITNESS_PREFIX_LEN as int) && hash.unwrap()@.len()
                == KEYHASH_LEN,
            !self.is_witness_v0_keyhash() ==> hash.is_none(),
    {
        if self.script_type == WITNESS_V0_KEYHASH && self.script.len() == WITNESS_PREFIX_LEN
            + KEYHASH_LEN {
            let tail = slice_subrange(
                self.script.as_slice(),
                WITNESS_PREFIX_LEN,
                self.script.len(),
            );
            Some(slice_to_vec(tail))
        } else {
            None
        }
    }
}

} // verus!
