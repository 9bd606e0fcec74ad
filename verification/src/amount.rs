//! The compact encoding of satoshi amounts.

use vstd::prelude::*;
use vstd::arithmetic::div_mod::lemma_mul_mod_noop_left;

verus! {

/// Two to the power 64: the number of values of a 64-bit word.
pub open spec fn word_range() -> nat {
    0x1_0000_0000_0000_0000
}

/// Ten to the power `e`.
pub open spec fn pow10(e: nat) -> nat
    decreases e,
{
    if e == 0 {
        1
    } else {
        10 * pow10((e - 1) as nat)
    }
}

/// The amount that the compact form `x` stands for, as a natural number.
///
/// Zero stands for zero. Otherwise `x - 1` splits into a last decimal digit
/// `e`, the number of trailing zeros that were factored out, and a rest `q`.
/// For `e < 9` the rest holds the last non-zero digit `d = q % 9 + 1` and the
/// digits `q / 9` before it; for `e == 9` no digit was split off and the
/// leading part is `q + 1`.
pub open spec fn decompressed_amount(x: nat) -> nat {
    if x == 0 {
        0
    } else {
        let y = (x - 1) as nat;
        let e = y % 10;
        let q = y / 10;
        if e < 9 {
            ((q / 9) * 10 + q % 9 + 1) * pow10(e)
        } else {
            (q + 1) * pow10(9)
        }
    }
}

/// The number of decimal zeros at the end of `n` that the compact form
/// factors out: as many as there are, but no more than `limit`.
pub open spec fn factored_zeros(n: nat, limit: nat) -> nat
    decreases limit,
{
    if limit == 0 || n % 10 != 0 {
        0
    } else {
        1 + factored_zeros(n / 10, (limit - 1) as nat)
    }
}

/// What is left of `n` without the zeros that are factored out.
pub open spec fn significant_digits(n: nat, limit: nat) -> nat
    decreases limit,
{
    if limit == 0 || n % 10 != 0 {
        n
    } else {
        significant_digits(n / 10, (limit - 1) as nat)
    }
}

/// The compact form of the amount `n`.
///
/// Up to nine trailing zeros are factored out. With fewer than nine, the
/// last digit that is left, which is not zero, is kept in base nine beside
/// the digits before it; with nine, what is left is kept less one.
pub open spec fn compressed_amount(n: nat) -> nat {
    if n == 0 {
        0
    } else {
        let e = factored_zeros(n, 9);
        let m = significant_digits(n, 9);
        if e < 9 {
            (1 + ((m / 10) * 9 + (m % 10 - 1)) * 10 + e) as nat
        } else {
            (1 + (m - 1) * 10 + 9) as nat
        }
    }
}

/// A positive amount is its significant digits times ten to the number of
/// zeros factored out, and where fewer zeros were factored out than the
/// limit allows, the last significant digit is not zero.
pub proof fn lemma_factored_zeros(n: nat, limit: nat)
    requires
        n > 0,
    ensures
        factored_zeros(n, limit) <= limit,
        significant_digits(n, limit) > 0,
        n == significant_digits(n, limit) * pow10(factored_zeros(n, limit)),
        factored_zeros(n, limit) < limit ==> significant_digits(n, limit) % 10 != 0,
    decreases limit,
{
    if limit == 0 || n % 10 != 0 {
        assert(n * pow10(0) == n) by (nonlinear_arith)
            requires
                pow10(0) == 1,
        ;
    } else {
        let k = n / 10;
        lemma_factored_zeros(k, (limit - 1) as nat);
        lemma_pow10_step(
            significant_digits(k, (limit - 1) as nat),
            factored_zeros(k, (limit - 1) as nat),
        );
    }
}

/// Expanding the compact form of an amount gives the amount back, and
/// in 64-bit arithmetic too where the amount fits 64 bits.
pub proof fn lemma_decompress_inverts_compress(n: nat)
    ensures
        decompressed_amount(compressed_amount(n)) == n,
        n <= u64::MAX ==> decompressed_amount(compressed_amount(n)) % word_range() == n,
{
    if n > 0 {
        lemma_factored_zeros(n, 9);
        let e = factored_zeros(n, 9);
        let m = significant_digits(n, 9);
        let x = compressed_amount(n);
        let y = (x - 1) as nat;
        if e < 9 {
            let q = (m / 10) * 9 + (m % 10 - 1);
            assert(y == q * 10 + e);
            assert(y % 10 == e && y / 10 == q);
            assert(q % 9 == m % 10 - 1 && q / 9 == m / 10);
            assert((q / 9) * 10 + q % 9 + 1 == m);
        } else {
            assert(y == (m - 1) * 10 + 9);
            assert(y % 10 == 9 && y / 10 == m - 1);
        }
    }
}

/// One more power of ten is one more factor of ten.
proof fn lemma_pow10_step(base: nat, k: nat)
    ensures
        base * pow10(k + 1) == (base * pow10(k)) * 10,
{
    assert(pow10(k + 1) == 10 * pow10(k));
    assert(base * (10 * pow10(k)) == (base * pow10(k)) * 10) by (nonlinear_arith);
}

/// Expands a compact amount into satoshis.
///
/// The result is `decompressed_amount(x)` in 64-bit unsigned arithmetic: the
/// product with the power of ten is taken modulo two to the 64, so that the
/// function has a value for every `x`. Where the amount fits 64 bits, as it
/// does for the compact form of every 64-bit amount, it is the result.
pub fn decompress_amount(x: u64) -> (amount: u64)
    ensures
        amount == decompressed_amount(x as nat) % word_range(),
        decompressed_amount(x as nat) <= u64::MAX ==> amount == decompressed_amount(x as nat),
        x == 0 ==> amount == 0,
{
    if x == 0 {
        return 0;
    }
    let y: u64 = x - 1;
    let zeros: u64 = y % 10;
    let q: u64 = y / 10;
    let leading: u64 = if zeros < 9 {
        (q / 9) * 10 + (q % 9 + 1)
    } else {
        q + 1
    };
    let mut n: u64 = leading;
    let mut left: u64 = zeros;
    assert(leading as nat * pow10(0) == leading) by (nonlinear_arith)
        requires
            pow10(0) == 1,
    ;
    while left > 0
        invariant
            left <= zeros,
            n == (leading as nat * pow10((zeros - left) as nat)) % word_range(),
        decreases left,
    {
        let ghost done = (zeros - left) as nat;
        proof {
            lemma_pow10_step(leading as nat, done);
            lemma_mul_mod_noop_left(
                (leading as nat * pow10(done)) as int,
                10,
                word_range() as int,
            );
        }
        n = n.wrapping_mul(10);
        left = left - 1;
    }
    n
}

} // verus!
