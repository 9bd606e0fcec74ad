//! Bitcoin's variable-length integers.
//!
//! An integer is written most significant group first, seven bits to a byte.
//! Every byte but the last has its top bit set, and every such byte adds one
//! to the value carried into the next position, so that no integer has two
//! encodings.

use vstd::prelude::*;
use crate::cursor::ByteCursor;
use crate::error::DecodeError;
use crate::order::bytes_precede;
use crate::order::lemma_decided_at;
use crate::order::part_at;

verus! {

/// The largest value that can still be shifted left by seven bits.
pub const MAX_SHIFTABLE: u64 = 0x01ff_ffff_ffff_ffff;

/// The number of bytes at the start of `s` that have their top bit set.
pub open spec fn continuation_run(s: Seq<u8>) -> nat
    decreases s.len(),
{
    if s.len() == 0 || s[0] < 0x80 {
        0
    } else {
        1 + continuation_run(s.skip(1))
    }
}

/// The value that the continuation bytes `s` carry into the byte after them:
/// each byte appends its low seven bits to what came before and adds one.
pub open spec fn carried(s: Seq<u8>) -> nat
    decreases s.len(),
{
    if s.len() == 0 {
        0
    } else {
        carried(s.drop_last()) * 128 + (s.last() % 128) as nat + 1
    }
}

/// What reading one integer from the start of `s` yields: the value and the
/// number of bytes it takes, or the reason why there is none.
///
/// The integer ends at the first byte whose top bit is clear. It is malformed
/// when the value leaves the 64-bit range, at that byte or at a continuation
/// byte before it; bytes that end before the terminating byte, with the value
/// still in range, are an unexpected end.
pub open spec fn varint_prefix(s: Seq<u8>) -> Result<(u64, nat), DecodeError> {
    let k = continuation_run(s);
    let high = carried(s.take(k as int));
    if high > u64::MAX {
        Err(DecodeError::MalformedVarInt)
    } else if k == s.len() {
        Err(DecodeError::UnexpectedEof)
    } else if high * 128 + s[k as int] > u64::MAX {
        Err(DecodeError::MalformedVarInt)
    } else {
        Ok(((high * 128 + s[k as int]) as u64, k + 1))
    }
}

/// The run of continuation bytes lies within the sequence, holds only bytes
/// with the top bit set, and stops at the end or before a byte without it.
pub proof fn lemma_continuation_run_bounds(s: Seq<u8>)
    ensures
        continuation_run(s) <= s.len(),
        forall|j: int| 0 <= j < continuation_run(s) ==> s[j] >= 0x80,
        continuation_run(s) < s.len() ==> s[continuation_run(s) as int] < 0x80,
    decreases s.len(),
{
    if s.len() == 0 || s[0] < 0x80 {
    } else {
        let t = s.skip(1);
        lemma_continuation_run_bounds(t);
        assert forall|j: int| 0 <= j < continuation_run(s) implies s[j] >= 0x80 by {
            if j > 0 {
                assert(s[j] == t[j - 1]);
            }
        }
        if continuation_run(s) < s.len() {
            assert(s[continuation_run(s) as int] == t[continuation_run(t) as int]);
        }
    }
}

/// Every integer that is read takes at least one byte and no more bytes than
/// there are.
pub proof fn lemma_varint_prefix_len(s: Seq<u8>)
    ensures
        varint_prefix(s) matches Ok((_, len)) ==> 1 <= len <= s.len(),
{
    lemma_continuation_run_bounds(s);
}

/// A prefix of `m` continuation bytes is part of the run, and is the whole run
/// when the sequence ends there or goes on with a byte whose top bit is clear.
pub proof fn lemma_continuation_run_from_prefix(s: Seq<u8>, m: nat)
    requires
        m <= s.len(),
        forall|j: int| 0 <= j < m ==> s[j] >= 0x80,
    ensures
        continuation_run(s) >= m,
        (m == s.len() || s[m as int] < 0x80) ==> continuation_run(s) == m,
    decreases m,
{
    if m > 0 {
        let t = s.skip(1);
        assert forall|j: int| 0 <= j < m - 1 implies t[j] >= 0x80 by {
            assert(t[j] == s[j + 1]);
        }
        lemma_continuation_run_from_prefix(t, (m - 1) as nat);
        if m < s.len() {
            assert(t[m - 1] == s[m as int]);
        }
    }
}

/// The carried value never shrinks as more continuation bytes are taken in.
pub proof fn lemma_carried_monotone(s: Seq<u8>, j: nat, k: nat)
    requires
        j <= k <= s.len(),
    ensures
        carried(s.take(j as int)) <= carried(s.take(k as int)),
    decreases k - j,
{
    if j < k {
        lemma_carried_monotone(s, j, (k - 1) as nat);
        lemma_carried_step(s, k - 1);
    }
}

/// Taking in the byte at index `i` appends its low seven bits and adds one.
pub proof fn lemma_carried_step(s: Seq<u8>, i: int)
    requires
        0 <= i < s.len(),
    ensures
        carried(s.take(i + 1)) == carried(s.take(i)) * 128 + (s[i] % 128) as nat + 1,
{
    assert(s.take(i + 1).drop_last() =~= s.take(i));
    assert(s.take(i + 1).last() == s[i]);
}

/// Reads one variable-length integer at the cursor.
///
/// On success the cursor stands behind the integer's last byte. On failure it
/// stands where it stood before the call.
pub fn read_varint(cursor: &mut ByteCursor) -> (result: Result<u64, DecodeError>)
    ensures
        final(cursor).bytes() == old(cursor).bytes(),
        match varint_prefix(old(cursor).unread()) {
            Ok((value, len)) => result == Ok::<u64, DecodeError>(value) && final(cursor).offset()
                == old(cursor).offset() + len,
            Err(e) => result == Err::<u64, DecodeError>(e) && final(cursor).offset() == old(
                cursor,
            ).offset(),
        },
{
    let ghost s = cursor.unread();
    let mut acc: u64 = 0;
    let mut count: usize = 0;
    proof {
        cursor.lemma_offset_in_bounds();
        assert(s.take(0) =~= Seq::<u8>::empty());
    }
    loop
        invariant
            cursor.bytes() == old(cursor).bytes(),
            cursor.offset() == old(cursor).offset() + count,
            s == old(cursor).unread(),
            old(cursor).offset() + s.len() == old(cursor).bytes().len(),
            s.len() <= usize::MAX,
            count <= s.len(),
            forall|j: int| 0 <= j < count ==> s[j] >= 0x80,
            acc == carried(s.take(count as int)),
        decreases s.len() - count,
    {
        let next = cursor.read_u8();
        let b: u8 = match next {
            None => {
                proof {
                    lemma_continuation_run_from_prefix(s, count as nat);
                    assert(s.take(count as int) =~= s);
                }
                cursor.rewind(count);
                return Err(DecodeError::UnexpectedEof);
            },
            Some(b) => b,
        };
        assert(b == s[count as int]);
        proof {
            lemma_carried_step(s, count as int);
            assert((b & 0x80 != 0) == (b >= 0x80)) by (bit_vector);
            lemma_continuation_run_bounds(s);
            if b >= 0x80 {
                lemma_continuation_run_from_prefix(s, (count + 1) as nat);
                lemma_carried_monotone(s, (count + 1) as nat, continuation_run(s));
            } else {
                lemma_continuation_run_from_prefix(s, count as nat);
            }
        }
        if acc > MAX_SHIFTABLE {
            cursor.rewind(count + 1);
            return Err(DecodeError::MalformedVarInt);
        }
        let n: u64 = (acc << 7) | ((b & 0x7f) as u64);
        assert(n == acc * 128 + b % 128) by (bit_vector)
            requires
                acc <= 0x01ff_ffff_ffff_ffffu64,
                n == (acc << 7) | ((b & 0x7f) as u64),
        ;
        if b & 0x80 != 0 {
            if n == u64::MAX {
                cursor.rewind(count + 1);
                return Err(DecodeError::MalformedVarInt);
            }
            acc = n + 1;
            count = count + 1;
        } else {
            return Ok(n);
        }
    }
}

/// The bytes before the last byte of the encoding of `n`: none for a value
/// below 128, else the continuation bytes of what is left when the low seven
/// bits are taken off and one is subtracted.
pub open spec fn leading_bytes(n: nat) -> Seq<u8>
    decreases n,
{
    if n < 128 {
        Seq::empty()
    } else {
        let m = (n / 128 - 1) as nat;
        leading_bytes(m).push((128 + m % 128) as u8)
    }
}

/// The encoding of `n`: its leading bytes, each with the top bit set, and
/// its low seven bits in a last byte with the top bit clear.
pub open spec fn varint_bytes(n: nat) -> Seq<u8> {
    leading_bytes(n).push((n % 128) as u8)
}

/// The leading bytes of `n` all have the top bit set and carry `n / 128`.
pub proof fn lemma_leading_bytes(n: nat)
    ensures
        forall|j: int| 0 <= j < leading_bytes(n).len() ==> leading_bytes(n)[j] >= 0x80,
        carried(leading_bytes(n)) == n / 128,
    decreases n,
{
    if n >= 128 {
        let m = (n / 128 - 1) as nat;
        lemma_leading_bytes(m);
        let lead = leading_bytes(n);
        assert(lead.drop_last() =~= leading_bytes(m));
        assert(lead.last() == (128 + m % 128) as u8);
        assert(m == (m / 128) * 128 + m % 128);
    }
}

/// Reading the encoding of a 64-bit value gives the value back and takes
/// exactly the bytes of the encoding, whatever stands behind them.
pub proof fn lemma_varint_round_trip(n: u64, rest: Seq<u8>)
    ensures
        varint_prefix(varint_bytes(n as nat) + rest) == Ok::<(u64, nat), DecodeError>(
            (n, varint_bytes(n as nat).len()),
        ),
{
    let lead = leading_bytes(n as nat);
    let s = varint_bytes(n as nat) + rest;
    let k = lead.len();
    lemma_leading_bytes(n as nat);
    assert forall|j: int| 0 <= j < k implies s[j] >= 0x80 by {
        assert(s[j] == lead[j]);
    }
    assert(s[k as int] == (n % 128) as u8);
    lemma_continuation_run_from_prefix(s, k);
    assert(s.take(k as int) =~= lead);
    assert(n as nat == (n as nat / 128) * 128 + n as nat % 128);
}

/// Continuation bytes are the leading bytes of the value that they carry
/// into a last byte.
proof fn lemma_leading_bytes_unique(c: Seq<u8>, low: nat)
    requires
        forall|j: int| 0 <= j < c.len() ==> c[j] >= 0x80,
        low < 128,
    ensures
        leading_bytes(carried(c) * 128 + low) == c,
    decreases c.len(),
{
    let n = carried(c) * 128 + low;
    assert(n / 128 == carried(c) && n % 128 == low) by (nonlinear_arith)
        requires
            n == carried(c) * 128 + low,
            low < 128,
    ;
    if c.len() == 0 {
        assert(leading_bytes(n) =~= c);
    } else {
        let b = c.last();
        let before = c.drop_last();
        let m = (carried(c) - 1) as nat;
        assert(m == carried(before) * 128 + (b % 128) as nat);
        lemma_leading_bytes_unique(before, (b % 128) as nat);
        assert(m % 128 == b % 128 && m / 128 == carried(before)) by (nonlinear_arith)
            requires
                m == carried(before) * 128 + (b % 128) as nat,
        ;
        assert((128 + m % 128) as u8 == b);
        assert(leading_bytes(n) =~= c);
    }
}

/// No value has two encodings: the bytes that an integer is read from are
/// the encoding of that integer.
pub proof fn lemma_varint_encoding_unique(s: Seq<u8>)
    requires
        varint_prefix(s) is Ok,
    ensures
        ({
            let (n, len) = varint_prefix(s).unwrap();
            s.take(len as int) == varint_bytes(n as nat)
        }),
{
    let (n, len) = varint_prefix(s).unwrap();
    let k = continuation_run(s);
    lemma_continuation_run_bounds(s);
    let lead = s.take(k as int);
    lemma_leading_bytes_unique(lead, s[k as int] as nat);
    assert(n as nat % 128 == s[k as int]) by (nonlinear_arith)
        requires
            n as nat == carried(lead) * 128 + s[k as int],
            s[k as int] < 128,
    ;
    assert(s.take(len as int) =~= varint_bytes(n as nat));
}

/// Where `a` is no more than `b` and both have as many leading bytes, the
/// leading bytes are the same, or they part ways at the returned index with
/// the smaller byte on the side of `a`.
proof fn lemma_leading_bytes_order(a: nat, b: nat) -> (r: int)
    requires
        a <= b,
        leading_bytes(a).len() == leading_bytes(b).len(),
    ensures
        leading_bytes(a) == leading_bytes(b) || (part_at(leading_bytes(a), leading_bytes(b), r)
            && r < leading_bytes(a).len() && leading_bytes(a)[r] < leading_bytes(b)[r]),
    decreases a,
{
    if a < 128 {
        assert(leading_bytes(a) =~= leading_bytes(b));
        0
    } else {
        let ma = (a / 128 - 1) as nat;
        let mb = (b / 128 - 1) as nat;
        let inner = lemma_leading_bytes_order(ma, mb);
        if leading_bytes(ma) == leading_bytes(mb) {
            lemma_leading_bytes(ma);
            lemma_leading_bytes(mb);
            leading_bytes(ma).len() as int
        } else {
            inner
        }
    }
}

/// Of two values whose encodings are equally long, or of which the smaller
/// is below 128, the smaller has the encoding that sorts first. The
/// encodings part ways at the returned index, with the smaller byte on the
/// side of the smaller value.
///
/// Between longer encodings of different lengths this is not so: 16512 takes
/// three bytes that start with `0x80`, and sorts before 256 with its two bytes
/// that start with `0x81`.
pub proof fn lemma_varint_bytes_order(a: nat, b: nat) -> (r: int)
    requires
        a < b,
        a < 128 || varint_bytes(a).len() == varint_bytes(b).len(),
    ensures
        part_at(varint_bytes(a), varint_bytes(b), r),
        r < varint_bytes(a).len(),
        r < varint_bytes(b).len(),
        varint_bytes(a)[r] < varint_bytes(b)[r],
        bytes_precede(varint_bytes(a), varint_bytes(b)),
{
    let r = if varint_bytes(a).len() == varint_bytes(b).len() {
        let lead = lemma_leading_bytes_order(a, b);
        if leading_bytes(a) == leading_bytes(b) {
            lemma_leading_bytes(a);
            lemma_leading_bytes(b);
            leading_bytes(a).len() as int
        } else {
            lead
        }
    } else {
        lemma_leading_bytes(b);
        0
    };
    lemma_decided_at(varint_bytes(a), varint_bytes(b), r);
    r
}

/// Writes `n` as a variable-length integer.
pub fn write_varint(n: u64) -> (bytes: Vec<u8>)
    ensures
        bytes@ == varint_bytes(n as nat),
{
    let mut backwards: Vec<u8> = Vec::new();
    let mut m: u64 = n;
    assert((m & 0x7f) as u8 == m % 128) by (bit_vector);
    backwards.push((m & 0x7f) as u8);
    assert(varint_bytes(n as nat) =~= leading_bytes(m as nat) + backwards@.reverse());
    while m > 0x7f
        invariant
            backwards@.len() > 0,
            varint_bytes(n as nat) == leading_bytes(m as nat) + backwards@.reverse(),
        decreases m,
    {
        let ghost old_m = m;
        let ghost old_backwards = backwards@;
        assert((m >> 7) == m / 128) by (bit_vector);
        m = (m >> 7) - 1;
        assert(((m & 0x7f) | 0x80) as u8 == 128 + m % 128) by (bit_vector);
        let b: u8 = ((m & 0x7f) | 0x80) as u8;
        backwards.push(b);
        assert(leading_bytes(old_m as nat) == leading_bytes(m as nat).push(b));
        assert(backwards@.reverse() =~= seq![b] + old_backwards.reverse());
        assert(leading_bytes(m as nat).push(b) + old_backwards.reverse() =~= leading_bytes(
            m as nat,
        ) + backwards@.reverse());
    }
    assert(leading_bytes(m as nat) + backwards@.reverse() =~= backwards@.reverse());
    let mut bytes: Vec<u8> = Vec::new();
    let mut i: usize = backwards.len();
    while i > 0
        invariant
            i <= backwards@.len(),
            bytes@.len() == backwards@.len() - i,
            forall|j: int| 0 <= j < bytes@.len() ==> bytes@[j] == backwards@[backwards@.len() - 1 - j],
        decreases i,
    {
        i = i - 1;
        bytes.push(backwards[i]);
    }
    assert(bytes@ =~= backwards@.reverse());
    bytes
}

} // verus!
