//! Single-precision binary floating point, held as its 32-bit encoding.
//!
//! A finite encoding stands for `significand * 2^exponent`, negated when the
//! sign bit is set. Everything here is integer arithmetic on that encoding.

use vstd::prelude::*;
use vstd::arithmetic::power2::{pow2, lemma_pow2_pos, lemma_pow2_unfold, lemma_pow2_strictly_increases, lemma2_to64, lemma2_to64_rest};
use vstd::arithmetic::div_mod::{lemma_div_denominator, lemma_basic_div, lemma_fundamental_div_mod};
use crate::error::VmError;

verus! {

/// The sign bit is set.
pub open spec fn is_negative(bits: u32) -> bool {
    bits >= 0x8000_0000
}

/// The eight exponent bits.
pub open spec fn biased_exponent(bits: u32) -> int {
    (bits as int / 0x80_0000) % 0x100
}

/// The twenty-three fraction bits.
pub open spec fn fraction(bits: u32) -> int {
    bits as int % 0x80_0000
}

/// Not a number.
pub open spec fn is_nan(bits: u32) -> bool {
    biased_exponent(bits) == 0xff && fraction(bits) != 0
}

/// Neither an infinity nor a NaN.
pub open spec fn is_finite(bits: u32) -> bool {
    biased_exponent(bits) != 0xff
}

/// The integer significand of a finite encoding, with the hidden bit of a
/// normal number made explicit.
pub open spec fn significand(bits: u32) -> nat {
    if biased_exponent(bits) == 0 {
        fraction(bits) as nat
    } else {
        (fraction(bits) + 0x80_0000) as nat
    }
}

/// The power of two by which the significand of a finite encoding is scaled.
pub open spec fn exponent(bits: u32) -> int {
    if biased_exponent(bits) == 0 {
        -149
    } else {
        biased_exponent(bits) - 150
    }
}

/// The encoding without its sign bit.
pub open spec fn magnitude(bits: u32) -> int {
    bits as int % 0x8000_0000
}

/// An integer that orders the encodings other than NaN as their values are
/// ordered; both zeros map to 0.
pub open spec fn order_key(bits: u32) -> int {
    if is_negative(bits) {
        -magnitude(bits)
    } else {
        magnitude(bits)
    }
}

/// Equality of the values: a NaN equals nothing, the two zeros are equal.
pub open spec fn float_eq(a: u32, b: u32) -> bool {
    !is_nan(a) && !is_nan(b) && order_key(a) == order_key(b)
}

/// Strict order of the values: a NaN is neither below nor above anything.
pub open spec fn float_lt(a: u32, b: u32) -> bool {
    !is_nan(a) && !is_nan(b) && order_key(a) < order_key(b)
}

/// Whether the encoding is a NaN.
pub fn is_not_a_number(bits: u32) -> (r: bool)
    ensures
        r == is_nan(bits),
{
    (bits / 0x80_0000) % 0x100 == 0xff && bits % 0x80_0000 != 0
}

fn key_of(bits: u32) -> (k: i64)
    ensures
        k == order_key(bits),
{
    let m: i64 = (bits % 0x8000_0000) as i64;
    if bits >= 0x8000_0000 {
        -m
    } else {
        m
    }
}

/// Compares two values for equality as the floating-point standard does.
pub fn float_equal(a: u32, b: u32) -> (r: bool)
    ensures
        r == float_eq(a, b),
{
    !is_not_a_number(a) && !is_not_a_number(b) && key_of(a) == key_of(b)
}

/// Whether the first value is strictly below the second.
pub fn float_less(a: u32, b: u32) -> (r: bool)
    ensures
        r == float_lt(a, b),
{
    !is_not_a_number(a) && !is_not_a_number(b) && key_of(a) < key_of(b)
}

/// How many low bits a number has beyond the twenty-four that a significand
/// can hold.
pub open spec fn excess_bits(n: nat) -> nat
    decreases n,
{
    if n < 0x100_0000 {
        0
    } else {
        1 + excess_bits(n / 2)
    }
}

/// `n / 2^s` rounded to the nearest integer, a tie going to the even one.
pub open spec fn round_half_even(n: nat, s: nat) -> nat {
    let unit = pow2(s);
    let q = n / unit;
    let r = n % unit;
    if 2 * r > unit || (2 * r == unit && q % 2 == 1) {
        q + 1
    } else {
        q
    }
}

/// `q * 2^e` with its fractional part cut off.
pub open spec fn scale_truncated(q: nat, e: int) -> nat {
    if e >= 0 {
        q * pow2(e as nat)
    } else {
        q / pow2((-e) as nat)
    }
}

/// The milliseconds in a finite, non-negative number of seconds: the product
/// with 1000 is rounded once to single precision (to nearest, ties to even),
/// as the floating-point multiplication does, and then truncated toward zero.
pub open spec fn seconds_as_millis(bits: u32) -> nat {
    let n = 1000 * significand(bits);
    let s = excess_bits(n);
    scale_truncated(round_half_even(n, s), exponent(bits) + s)
}

/// The encoding is a time that the clock can hold: finite, not below zero,
/// and of at most `u64::MAX` milliseconds.
pub open spec fn is_valid_time(bits: u32) -> bool {
    &&& is_finite(bits)
    &&& (is_negative(bits) ==> significand(bits) == 0)
    &&& seconds_as_millis(bits) <= u64::MAX
}

/// Without its excess bits a number fits the twenty-four bits of a
/// significand, and where bits were taken off it fills them.
pub proof fn lemma_excess_bits(n: nat)
    ensures
        n / pow2(excess_bits(n)) < 0x100_0000,
        excess_bits(n) > 0 ==> n / pow2(excess_bits(n)) >= 0x80_0000,
    decreases n,
{
    lemma2_to64();
    if n >= 0x100_0000 {
        let rest = excess_bits(n / 2);
        lemma_excess_bits(n / 2);
        lemma_pow2_unfold(rest + 1);
        lemma_pow2_pos(rest);
        lemma_div_denominator(n as int, 2, pow2(rest) as int);
        assert(n / pow2(rest + 1) == (n / 2) / pow2(rest));
    }
}

/// Rounding gives the nearest multiple of `2^s`: the rounded number is off
/// by at most half of `2^s`, and where it is off by exactly half, it is the
/// even one of the two nearest.
pub proof fn lemma_round_half_even(n: nat, s: nat)
    ensures
        2 * (round_half_even(n, s) * pow2(s) - n) <= pow2(s),
        2 * (n - round_half_even(n, s) * pow2(s)) <= pow2(s),
        2 * (round_half_even(n, s) * pow2(s) - n) == pow2(s) || 2 * (n - round_half_even(n, s)
            * pow2(s)) == pow2(s) ==> round_half_even(n, s) % 2 == 0,
{
    let unit = pow2(s);
    lemma_pow2_pos(s);
    let q = n / unit;
    let r = n % unit;
    lemma_fundamental_div_mod(n as int, unit as int);
    assert(n == unit * q + r);
    assert(unit * q == q * unit) by (nonlinear_arith);
    assert((q + 1) * unit == q * unit + unit) by (nonlinear_arith);
}

proof fn lemma_pow2_at_most(a: nat, b: nat)
    requires
        a <= b,
    ensures
        pow2(a) <= pow2(b),
{
    if a < b {
        lemma_pow2_strictly_increases(a, b);
    }
}

fn power_of_two(k: u32) -> (p: u128)
    requires
        k <= 64,
    ensures
        p == pow2(k as nat),
{
    let mut p: u128 = 1;
    let mut i: u32 = 0;
    proof {
        lemma2_to64();
    }
    while i < k
        invariant
            i <= k <= 64,
            p == pow2(i as nat),
        decreases k - i,
    {
        proof {
            lemma_pow2_unfold((i + 1) as nat);
            lemma_pow2_at_most(i as nat, 63);
            lemma2_to64_rest();
        }
        p = p * 2;
        i = i + 1;
    }
    p
}

/// Converts seconds to whole milliseconds, refusing what is no valid time.
pub fn seconds_to_millis(bits: u32) -> (r: Result<u64, VmError>)
    ensures
        is_valid_time(bits) ==> r == Ok::<u64, VmError>(seconds_as_millis(bits) as u64),
        !is_valid_time(bits) ==> r == Err::<u64, VmError>(VmError::InvalidTime),
{
    let biased: u32 = (bits / 0x80_0000) % 0x100;
    let frac: u32 = bits % 0x80_0000;
    if biased == 0xff {
        return Err(VmError::InvalidTime);
    }
    let m: u64 = if biased == 0 {
        frac as u64
    } else {
        frac as u64 + 0x80_0000
    };
    if bits >= 0x8000_0000 && m != 0 {
        return Err(VmError::InvalidTime);
    }
    let n: u64 = 1000 * m;
    let mut q: u64 = n;
    let mut unit: u64 = 1;
    let mut s: u32 = 0;
    proof {
        lemma2_to64();
    }
    while q >= 0x100_0000
        invariant
            n < 0x4_0000_0000,
            s <= 10,
            unit == pow2(s as nat),
            unit >= 1,
            q == n / unit,
            excess_bits(n as nat) == s + excess_bits(q as nat),
        decreases q,
    {
        proof {
            lemma2_to64();
            lemma_div_denominator(n as int, unit as int, 2);
            lemma_pow2_unfold((s + 1) as nat);
            lemma_fundamental_div_mod(n as int, unit as int);
            assert(unit < 0x400) by (nonlinear_arith)
                requires
                    q >= 0x100_0000,
                    n == unit * q + (n % unit),
                    n % unit >= 0,
                    n < 0x4_0000_0000,
                    unit >= 1,
            ;
            if s >= 10 {
                lemma_pow2_at_most(10, s as nat);
            }
        }
        q = q / 2;
        unit = unit * 2;
        s = s + 1;
    }
    let rem: u64 = n % unit;
    let rounded: u64 = if 2 * rem > unit || (2 * rem == unit && q % 2 == 1) {
        q + 1
    } else {
        q
    };
    assert(rounded == round_half_even(n as nat, s as nat));
    let exp: i32 = if biased == 0 {
        -149
    } else {
        biased as i32 - 150
    };
    let e: i32 = exp + s as i32;
    assert(e == exponent(bits) + excess_bits(n as nat));
    if rounded == 0 {
        proof {
            if e >= 0 {
                assert(0 * pow2(e as nat) == 0) by (nonlinear_arith);
            } else {
                lemma_pow2_pos((-e) as nat);
            }
        }
        return Ok(0);
    }
    if e >= 64 {
        proof {
            lemma_pow2_at_most(64, e as nat);
            lemma2_to64_rest();
            assert(rounded * pow2(e as nat) >= pow2(64)) by (nonlinear_arith)
                requires
                    rounded >= 1,
                    pow2(e as nat) >= pow2(64),
            ;
        }
        return Err(VmError::InvalidTime);
    }
    if e >= 0 {
        let p: u128 = power_of_two(e as u32);
        proof {
            lemma_pow2_at_most(e as nat, 63);
            lemma2_to64_rest();
            assert(rounded * p <= 0x100_0000 * 0x8000_0000_0000_0000) by (nonlinear_arith)
                requires
                    rounded <= 0x100_0000,
                    p <= 0x8000_0000_0000_0000,
            ;
        }
        let product: u128 = rounded as u128 * p;
        if product > u64::MAX as u128 {
            Err(VmError::InvalidTime)
        } else {
            Ok(product as u64)
        }
    } else {
        let k: u32 = (-e) as u32;
        if k >= 25 {
            proof {
                lemma_pow2_at_most(25, k as nat);
                lemma2_to64();
                lemma_basic_div(rounded as int, pow2(k as nat) as int);
            }
            Ok(0)
        } else {
            let p: u128 = power_of_two(k);
            proof {
                lemma_pow2_pos(k as nat);
                lemma_pow2_at_most(k as nat, 24);
                lemma2_to64();
            }
            Ok((rounded as u128 / p) as u64)
        }
    }
}

} // verus!
