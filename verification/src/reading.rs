//! IEEE-754 single-precision numbers, read as bit patterns.
//!
//! Every finite single-precision number is a whole multiple of 2^-149. The
//! model of a bit pattern is therefore an integer: its value counted in
//! units of 2^-149. Infinities are modelled by the value that their
//! exponent field would give a finite number, which lies beyond every
//! finite one; a NaN has no value.

use vstd::prelude::*;
use vstd::arithmetic::power2::{
    lemma_pow2_pos, lemma_pow2_strictly_increases, lemma_pow2_unfold, pow2,
};
use vstd::arithmetic::mul::{lemma_mul_inequality, lemma_mul_strict_inequality};

verus! {

/// The pattern of the sign bit; patterns from here on are negative.
pub const SIGN_BIT: u32 = 0x8000_0000;

/// Number of patterns that share one exponent field (2^23).
pub const FRACTION_SPAN: u32 = 0x80_0000;

/// The pattern of positive infinity; larger magnitudes are NaN.
pub const INFINITY: u32 = 0x7f80_0000;

/// How many units of 2^-149 make one: 2^149.
pub open spec fn unit() -> int {
    pow2(149) as int
}

/// The pattern without its sign bit.
pub open spec fn magnitude_bits(bits: u32) -> int {
    bits as int % 0x8000_0000
}

/// The sign bit is set.
pub open spec fn is_negative(bits: u32) -> bool {
    bits >= SIGN_BIT
}

/// The pattern of a NaN: a magnitude beyond infinity.
pub open spec fn is_nan(bits: u32) -> bool {
    magnitude_bits(bits) > INFINITY
}

/// The eight exponent bits.
pub open spec fn exponent_field(bits: u32) -> int {
    (bits as int / 0x80_0000) % 256
}

/// The 23 fraction bits.
pub open spec fn fraction_field(bits: u32) -> int {
    bits as int % 0x80_0000
}

/// The absolute value of the number, in units of 2^-149.
pub open spec fn magnitude(bits: u32) -> int {
    let e = exponent_field(bits);
    let f = fraction_field(bits);
    if e == 0 {
        f
    } else {
        (0x80_0000 + f) * pow2((e - 1) as nat)
    }
}

/// The value of the number, in units of 2^-149. Meaningless for a NaN.
pub open spec fn scaled(bits: u32) -> int {
    if is_negative(bits) {
        -magnitude(bits)
    } else {
        magnitude(bits)
    }
}

/// The position of a pattern in the IEEE-754 total order: negative NaNs,
/// negative numbers, -0, +0, positive numbers, positive NaNs.
pub open spec fn total_key(bits: u32) -> int {
    if bits < SIGN_BIT {
        bits as int
    } else {
        0x7fff_ffff - bits as int
    }
}

/// No two patterns share a position in the total order.
pub proof fn lemma_total_key_distinct(a: u32, b: u32)
    ensures
        total_key(a) == total_key(b) <==> a == b,
{
}

/// Numeric comparison: `a > b`, false as soon as either is a NaN; the two
/// zeros are equal.
pub open spec fn exceeds(a: u32, b: u32) -> bool {
    !is_nan(a) && !is_nan(b) && scaled(a) > scaled(b)
}

/// A larger pattern, sign aside, is a larger magnitude.
pub proof fn lemma_magnitude_increases(x: u32, y: u32)
    requires
        magnitude_bits(x) < magnitude_bits(y),
    ensures
        0 <= magnitude(x) < magnitude(y),
{
    let ex = exponent_field(x);
    let fx = fraction_field(x);
    let ey = exponent_field(y);
    let fy = fraction_field(y);
    assert(magnitude_bits(x) == ex * 0x80_0000 + fx);
    assert(magnitude_bits(y) == ey * 0x80_0000 + fy);
    assert(ex <= ey);
    if ex > 0 {
        lemma_pow2_pos((ex - 1) as nat);
    }
    lemma_pow2_pos((ey - 1) as nat);
    let py = pow2((ey - 1) as nat) as int;
    if ex == ey {
        if ex > 0 {
            lemma_mul_strict_inequality(0x80_0000 + fx, 0x80_0000 + fy, py);
            lemma_mul_inequality(0, 0x80_0000 + fx, py);
        }
    } else if ex == 0 {
        lemma_mul_inequality(1, py, 0x80_0000 + fy);
    } else {
        let px = pow2((ex - 1) as nat) as int;
        // (2^23 + fx) * px < 2^24 * px == 2^23 * pow2(ex) <= 2^23 * py
        lemma_mul_strict_inequality(0x80_0000 + fx, 0x100_0000, px);
        lemma_mul_inequality(0, 0x80_0000 + fx, px);
        lemma_pow2_unfold(ex as nat);
        assert(pow2(ex as nat) == 2 * px);
        if ex < ey - 1 {
            lemma_pow2_strictly_increases(ex as nat, (ey - 1) as nat);
        }
        assert(2 * px <= py);
        assert(0x100_0000 * px == 0x80_0000 * (2 * px)) by (nonlinear_arith);
        lemma_mul_inequality(2 * px, py, 0x80_0000);
        lemma_mul_inequality(0x80_0000, 0x80_0000 + fy, py);
        assert(0x80_0000 * (2 * px) == (2 * px) * 0x80_0000) by (nonlinear_arith);
        assert(0x80_0000 * py == py * 0x80_0000) by (nonlinear_arith);
    }
}

/// The magnitude is zero for the two zeros and positive otherwise.
pub proof fn lemma_magnitude_zero(x: u32)
    ensures
        0 <= magnitude(x),
        magnitude(x) == 0 <==> magnitude_bits(x) == 0,
{
    let ex = exponent_field(x);
    let fx = fraction_field(x);
    assert(magnitude_bits(x) == ex * 0x80_0000 + fx);
    if ex > 0 {
        lemma_pow2_pos((ex - 1) as nat);
        lemma_mul_inequality(1, pow2((ex - 1) as nat) as int, 0x80_0000 + fx);
    }
}

/// The key by which `exceeds` is decided: the magnitude pattern, negated
/// for negative numbers, so that both zeros share the key 0.
pub open spec fn numeric_key(bits: u32) -> int {
    if is_negative(bits) {
        -magnitude_bits(bits)
    } else {
        magnitude_bits(bits)
    }
}

/// Numbers compare as their numeric keys do.
pub proof fn lemma_numeric_key_orders(a: u32, b: u32)
    ensures
        scaled(a) > scaled(b) <==> numeric_key(a) > numeric_key(b),
{
    lemma_magnitude_zero(a);
    lemma_magnitude_zero(b);
    if magnitude_bits(a) < magnitude_bits(b) {
        lemma_magnitude_increases(a, b);
    }
    if magnitude_bits(b) < magnitude_bits(a) {
        lemma_magnitude_increases(b, a);
    }
}

/// Whether the pattern is a NaN.
pub fn nan(bits: u32) -> (r: bool)
    ensures
        r == is_nan(bits),
{
    bits % SIGN_BIT > INFINITY
}

/// The position of `bits` in the total order.
pub fn order_key(bits: u32) -> (r: i64)
    ensures
        r == total_key(bits),
{
    if bits < SIGN_BIT {
        bits as i64
    } else {
        0x7fff_ffff - bits as i64
    }
}

/// Whether the number `a` is greater than the number `b`.
pub fn greater(a: u32, b: u32) -> (r: bool)
    ensures
        r == exceeds(a, b),
{
    if nan(a) || nan(b) {
        return false;
    }
    let ka: i64 = if a >= SIGN_BIT { -((a % SIGN_BIT) as i64) } else { a as i64 };
    let kb: i64 = if b >= SIGN_BIT { -((b % SIGN_BIT) as i64) } else { b as i64 };
    proof {
        lemma_numeric_key_orders(a, b);
    }
    ka > kb
}

} // verus!
