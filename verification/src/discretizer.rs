//! Mapping one continuous reading onto a bounded grid.
//!
//! A reading is clamped to its dimension's bounds, normalised by min-max
//! scaling and rounded to the nearest of `buckets` grid positions, halves
//! rounding up. All of it is exact: readings are single-precision bit
//! patterns whose value is an integer number of units of 2^-149.

use vstd::prelude::*;
use vstd::arithmetic::power2::{
    lemma2_to64, lemma_pow2_adds, lemma_pow2_pos, lemma_pow2_strictly_increases,
    lemma_pow2_unfold, pow2,
};
use vstd::arithmetic::div_mod::{
    lemma_div_is_ordered, lemma_div_multiples_vanish, lemma_div_multiples_vanish_quotient,
    lemma_fundamental_div_mod, lemma_fundamental_div_mod_converse, lemma_mod_bound,
};
use vstd::arithmetic::mul::lemma_mul_strictly_positive;
use crate::reading::{
    exponent_field, fraction_field, is_nan, magnitude, nan, scaled, unit, FRACTION_SPAN, SIGN_BIT,
};

verus! {

/// The reading after clamping to `[low, high]`, in units of 2^-149. A NaN
/// is not below the upper bound and so becomes the upper bound.
pub open spec fn clamped(bits: u32, low: int, high: int) -> int {
    if is_nan(bits) || scaled(bits) >= high * unit() {
        high * unit()
    } else if scaled(bits) <= low * unit() {
        low * unit()
    } else {
        scaled(bits)
    }
}

/// The grid position nearest to a value `s` (in units of 2^-149) on an axis
/// from `low` to `high` with `buckets` positions:
/// `(buckets - 1) * (s - low) / (high - low)`, rounded half up.
pub open spec fn grid_position(s: int, low: int, high: int, buckets: int) -> int {
    (2 * (buckets - 1) * (s - low * unit()) + (high - low) * unit()) / (2 * (high - low) * unit())
}

/// The bucket of a reading. A dimension whose bounds coincide has the
/// single bucket 0.
pub open spec fn bucket_index(bits: u32, low: int, high: int, buckets: int) -> int {
    if low >= high {
        0
    } else {
        grid_position(clamped(bits, low, high), low, high, buckets)
    }
}

/// A reading that is a number no greater than `bound`.
pub open spec fn at_or_below(bits: u32, bound: int) -> bool {
    !is_nan(bits) && scaled(bits) <= bound * unit()
}

/// A reading that is a number no less than `bound`.
pub open spec fn at_or_above(bits: u32, bound: int) -> bool {
    !is_nan(bits) && scaled(bits) >= bound * unit()
}

/// Dividing `a * u + t` by `d * u` is dividing `a + t / u` by `d`.
proof fn lemma_div_scaled(a: int, t: int, d: int, u: int)
    requires
        d > 0,
        u > 0,
    ensures
        d * u > 0,
        (a * u + t) / (d * u) == (a + t / u) / d,
{
    lemma_mul_strictly_positive(d, u);
    let q = t / u;
    let r = t % u;
    lemma_fundamental_div_mod(t, u);
    lemma_mod_bound(t, u);
    let big = (a + q) / d;
    let rest = (a + q) % d;
    lemma_fundamental_div_mod(a + q, d);
    lemma_mod_bound(a + q, d);
    assert(a * u + t == big * (d * u) + (rest * u + r)) by (nonlinear_arith)
        requires
            t == u * q + r,
            a + q == d * big + rest,
    ;
    assert(0 <= rest * u + r < d * u) by (nonlinear_arith)
        requires
            0 <= rest < d,
            0 <= r < u,
    ;
    lemma_fundamental_div_mod_converse(a * u + t, d * u, big, rest * u + r);
}

/// A negative number divided by a positive one is negative.
proof fn lemma_div_negative(n: int, d: int)
    requires
        n < 0,
        d > 0,
    ensures
        n / d < 0,
{
    lemma_fundamental_div_mod(n, d);
    lemma_mod_bound(n, d);
    assert(n / d < 0) by (nonlinear_arith)
        requires
            n == d * (n / d) + n % d,
            0 <= n % d,
            n < 0,
            d > 0,
    ;
}

/// The grid position computed from the number of half-steps below the
/// value: `(2 * (buckets - 1) * s) / unit`.
proof fn lemma_position_by_steps(s: int, low: int, high: int, buckets: int)
    requires
        low < high,
    ensures
        grid_position(s, low, high, buckets) == ((high - low) - 2 * (buckets - 1) * low + (2 * (
            buckets - 1) * s) / unit()) / (2 * (high - low)),
{
    let u = unit();
    lemma_pow2_pos(149);
    let a = (high - low) - 2 * (buckets - 1) * low;
    let t = 2 * (buckets - 1) * s;
    let d = 2 * (high - low);
    lemma_div_scaled(a, t, d, u);
    assert(a * u + t == 2 * (buckets - 1) * (s - low * u) + (high - low) * u) by (nonlinear_arith)
        requires
            a == (high - low) - 2 * (buckets - 1) * low,
            t == 2 * (buckets - 1) * s,
    ;
    assert(d * u == 2 * (high - low) * u) by (nonlinear_arith)
        requires
            d == 2 * (high - low),
    ;
}

/// The grid position does not decrease as the value grows.
proof fn lemma_position_monotonic(s1: int, s2: int, low: int, high: int, buckets: int)
    requires
        low < high,
        buckets >= 1,
        s1 <= s2,
    ensures
        grid_position(s1, low, high, buckets) <= grid_position(s2, low, high, buckets),
{
    let u = unit();
    lemma_pow2_pos(149);
    let den = 2 * (high - low) * u;
    assert(den > 0) by (nonlinear_arith)
        requires
            den == 2 * (high - low) * u,
            high - low > 0,
            u > 0,
    ;
    let n1 = 2 * (buckets - 1) * (s1 - low * u) + (high - low) * u;
    let n2 = 2 * (buckets - 1) * (s2 - low * u) + (high - low) * u;
    assert(n1 <= n2) by (nonlinear_arith)
        requires
            n1 == 2 * (buckets - 1) * (s1 - low * u) + (high - low) * u,
            n2 == 2 * (buckets - 1) * (s2 - low * u) + (high - low) * u,
            s1 <= s2,
            buckets >= 1,
    ;
    lemma_div_is_ordered(n1, n2, den);
}

/// The lower bound lies at position 0 and the upper bound at the last
/// position.
proof fn lemma_position_at_bounds(low: int, high: int, buckets: int)
    requires
        low < high,
        buckets >= 1,
    ensures
        grid_position(low * unit(), low, high, buckets) == 0,
        grid_position(high * unit(), low, high, buckets) == buckets - 1,
{
    let u = unit();
    lemma_pow2_pos(149);
    let span = (high - low) * u;
    assert(span > 0) by (nonlinear_arith)
        requires
            span == (high - low) * u,
            high - low > 0,
            u > 0,
    ;
    let den = 2 * (high - low) * u;
    assert(den == 2 * span) by (nonlinear_arith)
        requires
            den == 2 * (high - low) * u,
            span == (high - low) * u,
    ;
    let n_low = 2 * (buckets - 1) * (low * u - low * u) + (high - low) * u;
    assert(n_low == 0 * den + span) by (nonlinear_arith)
        requires
            n_low == 2 * (buckets - 1) * (low * u - low * u) + (high - low) * u,
            span == (high - low) * u,
    ;
    lemma_fundamental_div_mod_converse(n_low, den, 0, span);
    let n_high = 2 * (buckets - 1) * (high * u - low * u) + (high - low) * u;
    assert(n_high == (buckets - 1) * den + span) by (nonlinear_arith)
        requires
            n_high == 2 * (buckets - 1) * (high * u - low * u) + (high - low) * u,
            span == (high - low) * u,
            den == 2 * span,
    ;
    lemma_fundamental_div_mod_converse(n_high, den, buckets - 1, span);
}

/// Clamping the reading before scaling gives what clamping the position
/// after scaling gives.
proof fn lemma_clamp_commutes(bits: u32, low: int, high: int, buckets: int)
    requires
        low < high,
        buckets >= 1,
        !is_nan(bits),
    ensures
        bucket_index(bits, low, high, buckets) == {
            let g = grid_position(scaled(bits), low, high, buckets);
            if g < 0 {
                0
            } else if g > buckets - 1 {
                buckets - 1
            } else {
                g
            }
        },
{
    let u = unit();
    let s = scaled(bits);
    lemma_pow2_pos(149);
    assert(low * u < high * u) by (nonlinear_arith)
        requires
            low < high,
            u > 0,
    ;
    lemma_position_at_bounds(low, high, buckets);
    if s >= high * u {
        lemma_position_monotonic(high * u, s, low, high, buckets);
    } else if s <= low * u {
        lemma_position_monotonic(s, low * u, low, high, buckets);
    } else {
        lemma_position_monotonic(low * u, s, low, high, buckets);
        lemma_position_monotonic(s, high * u, low, high, buckets);
    }
}

/// The number of whole half-steps below a value `doubled * 2^p` units,
/// negated if `negative`: that value divided by the unit, rounded down.
pub open spec fn floor_steps(doubled: int, p: nat, negative: bool) -> int {
    if p >= 149 {
        if negative {
            -(doubled * pow2((p - 149) as nat))
        } else {
            doubled * pow2((p - 149) as nat)
        }
    } else if negative {
        -((doubled + pow2((149 - p) as nat) - 1) / (pow2((149 - p) as nat) as int))
    } else {
        doubled / (pow2((149 - p) as nat) as int)
    }
}

/// `floor_steps` is the floor of the value over the unit.
proof fn lemma_floor_steps(doubled: int, p: nat, negative: bool)
    requires
        doubled >= 0,
    ensures
        (if negative {
            -(doubled * pow2(p))
        } else {
            doubled * pow2(p)
        }) / unit() == floor_steps(doubled, p, negative),
{
    let u = unit();
    lemma_pow2_pos(149);
    lemma_pow2_pos(p);
    let pp = pow2(p) as int;
    if p >= 149 {
        let w = pow2((p - 149) as nat) as int;
        lemma_pow2_adds((p - 149) as nat, 149);
        assert(pp == w * u);
        if negative {
            assert(-(doubled * pp) == u * (-(doubled * w))) by (nonlinear_arith)
                requires
                    pp == w * u,
            ;
            lemma_div_multiples_vanish(-(doubled * w), u);
        } else {
            assert(doubled * pp == u * (doubled * w)) by (nonlinear_arith)
                requires
                    pp == w * u,
            ;
            lemma_div_multiples_vanish(doubled * w, u);
        }
    } else {
        let k = pow2((149 - p) as nat) as int;
        lemma_pow2_pos((149 - p) as nat);
        lemma_pow2_adds(p, (149 - p) as nat);
        assert(u == pp * k);
        if negative {
            let c = (doubled + k - 1) / k;
            let r0 = (doubled + k - 1) % k;
            lemma_fundamental_div_mod(doubled + k - 1, k);
            lemma_mod_bound(doubled + k - 1, k);
            let slack = k - 1 - r0;
            assert(-(doubled * pp) == (-c) * u + slack * pp) by (nonlinear_arith)
                requires
                    doubled + k - 1 == k * c + r0,
                    slack == k - 1 - r0,
                    u == pp * k,
            ;
            assert(0 <= slack * pp < u) by (nonlinear_arith)
                requires
                    0 <= slack < k,
                    pp > 0,
                    u == pp * k,
            ;
            lemma_fundamental_div_mod_converse(-(doubled * pp), u, -c, slack * pp);
        } else {
            lemma_div_multiples_vanish_quotient(pp, doubled, k);
            assert(doubled * pp == pp * doubled) by (nonlinear_arith);
        }
    }
}

/// The powers of two that bound the arithmetic of `bucket`.
proof fn lemma_pow2_values()
    ensures
        pow2(0) == 1,
        pow2(7) == 128,
        pow2(8) == 256,
        pow2(89) == 0x200_0000_0000_0000_0000_0000,
        pow2(96) == 0x1_0000_0000_0000_0000_0000_0000,
{
    lemma2_to64();
    lemma_pow2_adds(64, 25);
    lemma_pow2_adds(64, 32);
}

/// 2^k as a machine integer.
fn power_of_two(k: u32) -> (r: u128)
    requires
        k <= 96,
    ensures
        r == pow2(k as nat),
        1 <= r <= 0x1_0000_0000_0000_0000_0000_0000,
{
    let mut r: u128 = 1;
    let mut i: u32 = 0;
    proof {
        lemma_pow2_values();
    }
    while i < k
        invariant
            i <= k <= 96,
            r == pow2(i as nat),
            r >= 1,
            pow2(96) == 0x1_0000_0000_0000_0000_0000_0000,
        decreases k - i,
    {
        proof {
            lemma_pow2_unfold((i + 1) as nat);
            if i + 1 < 96 {
                lemma_pow2_strictly_increases((i + 1) as nat, 96);
            }
        }
        r = r * 2;
        i = i + 1;
    }
    proof {
        if k < 96 {
            lemma_pow2_strictly_increases(k as nat, 96);
        }
    }
    r
}

/// The bucket of one reading on an axis from `low` to `high` with `buckets`
/// positions.
pub fn bucket(bits: u32, low: i32, high: i32, buckets: usize) -> (r: usize)
    requires
        low <= high,
        buckets >= 1,
    ensures
        r == bucket_index(bits, low as int, high as int, buckets as int),
        r < buckets,
{
    proof {
        lemma_bucket_in_range(bits, low as int, high as int, buckets as int);
    }
    if low >= high {
        return 0;
    }
    let top: usize = buckets - 1;
    if nan(bits) {
        proof {
            lemma_position_at_bounds(low as int, high as int, buckets as int);
        }
        return top;
    }
    let e: u32 = (bits / FRACTION_SPAN) % 256;
    let f: u32 = bits % FRACTION_SPAN;
    let negative: bool = bits >= SIGN_BIT;
    let m: u32 = if e == 0 { f } else { FRACTION_SPAN + f };
    let p: u32 = if e == 0 { 0 } else { e - 1 };
    let ghost u = unit();
    let ghost pp = pow2(p as nat) as int;
    proof {
        lemma_pow2_values();
        lemma_pow2_pos(149);
        lemma_pow2_pos(p as nat);
        assert(e == exponent_field(bits));
        assert(f == fraction_field(bits));
        assert(magnitude(bits) == m * pp);
        lemma_clamp_commutes(bits, low as int, high as int, buckets as int);
        lemma_position_at_bounds(low as int, high as int, buckets as int);
    }
    if p >= 157 {
        proof {
            lemma_pow2_adds(8, 149);
            if p > 157 {
                lemma_pow2_strictly_increases(157, p as nat);
            }
            assert(m * pp >= 0x8000_0000 * u) by (nonlinear_arith)
                requires
                    m >= 0x80_0000,
                    pp >= 256 * u,
                    u > 0,
            ;
            assert(high * u < 0x8000_0000 * u) by (nonlinear_arith)
                requires
                    high < 0x8000_0000,
                    u > 0,
            ;
            assert(low * u >= -0x8000_0000 * u) by (nonlinear_arith)
                requires
                    low >= -0x8000_0000,
                    u > 0,
            ;
            assert(low * u < high * u) by (nonlinear_arith)
                requires
                    low < high,
                    u > 0,
            ;
        }
        return if negative { 0 } else { top };
    }
    assert(2 * top * m < 0x200_0000_0000_0000_0000_0000) by (nonlinear_arith)
        requires
            0 <= top < 0x1_0000_0000_0000_0000,
            0 <= m < 0x100_0000,
    ;
    let doubled: u128 = 2 * (top as u128) * (m as u128);
    let steps: i128 = if p >= 149 {
        let mul: u128 = power_of_two(p - 149);
        proof {
            if p - 149 < 7 {
                lemma_pow2_strictly_increases((p - 149) as nat, 7);
            }
            assert(doubled * mul < 0x1_0000_0000_0000_0000_0000_0000) by (nonlinear_arith)
                requires
                    0 <= doubled < 0x200_0000_0000_0000_0000_0000,
                    0 <= mul <= 128,
            ;
        }
        let whole: u128 = doubled * mul;
        if negative {
            -(whole as i128)
        } else {
            whole as i128
        }
    } else {
        let k: u32 = 149 - p;
        let ghost kk = pow2(k as nat) as int;
        proof {
            lemma_pow2_pos(k as nat);
        }
        let q: u128;
        let partial: bool;
        if k >= 90 {
            q = 0;
            partial = doubled > 0;
            proof {
                lemma_pow2_strictly_increases(89, k as nat);
                lemma_fundamental_div_mod_converse(doubled as int, kk, 0, doubled as int);
                if doubled > 0 {
                    lemma_fundamental_div_mod_converse(doubled + kk - 1, kk, 1, doubled - 1);
                } else {
                    lemma_fundamental_div_mod_converse(doubled + kk - 1, kk, 0, kk - 1);
                }
            }
        } else {
            let den: u128 = power_of_two(k);
            q = doubled / den;
            partial = doubled % den > 0;
            proof {
                lemma_fundamental_div_mod(doubled as int, kk);
                lemma_mod_bound(doubled as int, kk);
                let r0 = doubled as int % kk;
                if r0 > 0 {
                    assert(doubled + kk - 1 == (q + 1) * kk + (r0 - 1)) by (nonlinear_arith)
                        requires
                            doubled == kk * q + r0,
                    ;
                    lemma_fundamental_div_mod_converse(doubled + kk - 1, kk, q + 1, r0 - 1);
                } else {
                    assert(doubled + kk - 1 == q * kk + (kk - 1)) by (nonlinear_arith)
                        requires
                            doubled == kk * q + r0,
                            r0 == 0,
                    ;
                    lemma_fundamental_div_mod_converse(doubled + kk - 1, kk, q as int, kk - 1);
                }
                assert(q <= doubled) by (nonlinear_arith)
                    requires
                        doubled == kk * q + r0,
                        r0 >= 0,
                        kk >= 1,
                        q >= 0,
                ;
            }
        }
        if negative {
            -((q as i128) + (if partial { 1i128 } else { 0i128 }))
        } else {
            q as i128
        }
    };
    assert(steps == floor_steps(doubled as int, p as nat, negative));
    let span: i128 = high as i128 - low as i128;
    assert(-0x1_0000_0000_0000_0000_0000_0000 <= 2 * top * low <= 0x1_0000_0000_0000_0000_0000_0000)
        by (nonlinear_arith)
        requires
            0 <= top < 0x1_0000_0000_0000_0000,
            -0x8000_0000 <= low < 0x8000_0000,
    ;
    let numerator: i128 = span - 2 * (top as i128) * (low as i128) + steps;
    proof {
        let s = scaled(bits);
        lemma_floor_steps(doubled as int, p as nat, negative);
        assert(2 * (buckets - 1) * s == if negative {
            -(doubled * pp)
        } else {
            doubled * pp
        }) by (nonlinear_arith)
            requires
                s == if negative {
                    -(m * pp)
                } else {
                    m * pp
                },
                doubled == 2 * top * m,
                top == buckets - 1,
        ;
        lemma_position_by_steps(s, low as int, high as int, buckets as int);
        assert(grid_position(s, low as int, high as int, buckets as int) == numerator as int / (2
            * span) as int);
        if numerator < 0 {
            lemma_div_negative(numerator as int, (2 * span) as int);
        }
    }
    if numerator < 0 {
        return 0;
    }
    let q: i128 = numerator / (2 * span);
    if q >= top as i128 {
        top
    } else {
        q as usize
    }
}

/// Whatever the reading, its bucket lies on the grid.
pub proof fn lemma_bucket_in_range(bits: u32, low: int, high: int, buckets: int)
    requires
        low <= high,
        buckets >= 1,
    ensures
        0 <= bucket_index(bits, low, high, buckets) < buckets,
{
    if low < high {
        let u = unit();
        lemma_pow2_pos(149);
        let c = clamped(bits, low, high);
        assert(low * u <= high * u) by (nonlinear_arith)
            requires
                low < high,
                u > 0,
        ;
        lemma_position_at_bounds(low, high, buckets);
        lemma_position_monotonic(low * u, c, low, high, buckets);
        lemma_position_monotonic(c, high * u, low, high, buckets);
    }
}

/// A reading at or below the lower bound falls into bucket 0.
pub proof fn lemma_bucket_at_lower_bound(bits: u32, low: int, high: int, buckets: int)
    requires
        low <= high,
        buckets >= 1,
        at_or_below(bits, low),
    ensures
        bucket_index(bits, low, high, buckets) == 0,
{
    if low < high {
        lemma_pow2_pos(149);
        assert(low * unit() < high * unit()) by (nonlinear_arith)
            requires
                low < high,
                unit() > 0,
        ;
        lemma_position_at_bounds(low, high, buckets);
    }
}

/// A reading at or above the upper bound falls into the last bucket,
/// unless the bounds coincide.
pub proof fn lemma_bucket_at_upper_bound(bits: u32, low: int, high: int, buckets: int)
    requires
        low < high,
        buckets >= 1,
        at_or_above(bits, high),
    ensures
        bucket_index(bits, low, high, buckets) == buckets - 1,
{
    lemma_position_at_bounds(low, high, buckets);
}

} // verus!
