//! The repeating XOR mask over record values.

use vstd::prelude::*;
use vstd::slice::slice_subrange;
use vstd::slice::slice_to_vec;
use crate::error::DecodeError;

verus! {

/// `value` with the key laid over it end to end and combined by XOR, byte by
/// byte.
pub open spec fn deobfuscated(value: Seq<u8>, key: Seq<u8>) -> Seq<u8>
    recommends
        key.len() > 0,
{
    Seq::new(value.len(), |i: int| value[i] ^ key[i % key.len() as int])
}

/// The key held by the stored value of the obfuscation-key record: all of it
/// but the leading length byte, if that leaves anything.
pub open spec fn stored_key(stored: Seq<u8>) -> Option<Seq<u8>> {
    if stored.len() >= 2 {
        Some(stored.skip(1))
    } else {
        None
    }
}

/// XOR with the same byte twice gives the first byte back.
proof fn lemma_xor_twice(a: u8, b: u8)
    ensures
        (a ^ b) ^ b == a,
{
    assert((a ^ b) ^ b == a) by (bit_vector);
}

/// Removing the mask twice with the same key restores the value: the mask is
/// its own inverse.
pub proof fn lemma_deobfuscate_involution(value: Seq<u8>, key: Seq<u8>)
    requires
        key.len() > 0,
    ensures
        deobfuscated(deobfuscated(value, key), key) == value,
{
    let once = deobfuscated(value, key);
    let twice = deobfuscated(once, key);
    assert forall|i: int| 0 <= i < value.len() implies twice[i] == value[i] by {
        lemma_xor_twice(value[i], key[i % key.len() as int]);
    }
    assert(twice =~= value);
}

/// Removes the mask from a record value.
pub fn deobfuscate(value: &[u8], key: &[u8]) -> (plain: Vec<u8>)
    requires
        key@.len() > 0,
    ensures
        plain@ == deobfuscated(value@, key@),
{
    let mut plain: Vec<u8> = Vec::new();
    let mut i: usize = 0;
    while i < value.len()
        invariant
            key@.len() > 0,
            i <= value@.len(),
            plain@.len() == i,
            forall|j: int| 0 <= j < i ==> plain@[j] == value@[j] ^ key@[j % key@.len() as int],
        decreases value@.len() - i,
    {
        let k: u8 = key[i % key.len()];
        plain.push(value[i] ^ k);
        i = i + 1;
    }
    assert(plain@ =~= deobfuscated(value@, key@));
    plain
}

/// Recovers the obfuscation key from the stored value of its record by
/// dropping the leading length byte. A stored value that leaves no key byte
/// gives `MissingObfuscationKey`.
pub fn extract_obfuscation_key(stored: &[u8]) -> (result: Result<Vec<u8>, DecodeError>)
    ensures
        match stored_key(stored@) {
            Some(key) => result.is_ok() && result.unwrap()@ == key && key.len() > 0,
            None => result == Err::<Vec<u8>, DecodeError>(DecodeError::MissingObfuscationKey),
        },
{
    if stored.len() >= 2 {
        let tail = slice_subrange(stored, 1, stored.len());
        Ok(slice_to_vec(tail))
    } else {
        Err(DecodeError::MissingObfuscationKey)
    }
}

/// An obfuscation key, held for the length of a scan.
///
/// The key is never empty.
pub struct Deobfuscator {
    key: Vec<u8>,
}

impl View for Deobfuscator {
    type V = Seq<u8>;

    /// The key bytes.
    closed spec fn view(&self) -> Seq<u8> {
        self.key@
    }
}

impl Deobfuscator {
    #[verifier::type_invariant]
    spec fn has_key(&self) -> bool {
        self.key@.len() > 0
    }

    /// Takes the key from the stored value of the obfuscation-key record.
    /// Fails with `MissingObfuscationKey` when the value holds no key byte
    /// behind its length byte.
    pub fn from_stored(stored: &[u8]) -> (result: Result<Deobfuscator, DecodeError>)
        ensures
            match stored_key(stored@) {
                Some(key) => result.is_ok() && result.unwrap()@ == key,
                None => result == Err::<Deobfuscator, DecodeError>(
                    DecodeError::MissingObfuscationKey,
                ),
            },
    {
        match extract_obfuscation_key(stored) {
            Ok(key) => Ok(Deobfuscator { key }),
            Err(e) => Err(e),
        }
    }

    /// The key bytes, of which there is at least one.
    pub fn key(&self) -> (key: &[u8])
        ensures
            key@ == self@,
            key@.len() > 0,
    {
        proof {
            use_type_invariant(self);
        }
        self.key.as_slice()
    }

    /// Removes the mask from a record value.
    pub fn deobfuscate(&self, value: &[u8]) -> (plain: Vec<u8>)
        ensures
            plain@ == deobfuscated(value@, self@),
    {
        deobfuscate(value, self.key())
    }
}

} // verus!
