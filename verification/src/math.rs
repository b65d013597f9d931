//! Integer approximations of the transcendental functions the stages
//! need: sine, cosine, tangent, exponential, logarithm and the decibel
//! conversions built from them.
//!
//! Arguments and results are micro-unit fixed-point values; the bodies
//! compute on a pico scale (`PICO`) for precision, and every
//! intermediate step is clamped so the range guarantees hold for every
//! input.  Each function carries an exact contract: its result equals
//! a spec-level twin (`sin_q_s`, `exp_q_s`, ...) that restates the same
//! integer computation, so callers' contracts can pin their results to
//! definite values.

use vstd::prelude::*;
use crate::fixed::SCALE;
use crate::fixed::abs_v;
use crate::fixed::clamp_v;
use crate::fixed::tdiv;
use crate::fixed::tdiv128;
use crate::fixed::lemma_tdiv_bound;
use crate::fixed::lemma_tdiv_sign;
use crate::fixed::lemma_prod_bound;
use crate::fixed::lemma_neg_ceil_div;

verus! {

/// The angle pi, in micro-radians.
pub const PI_Q: i64 = 3_141_593;

/// The angle 2*pi, in micro-radians.
pub const TWO_PI_Q: i64 = 6_283_185;

/// The angle pi/2, in micro-radians.
pub const HALF_PI_Q: i64 = 1_570_796;

/// ln 10 in micro-units.
pub const LN10_Q: i64 = 2_302_585;

/// The internal pico scale: 1.0 is one trillion.
const PICO: i128 = 1_000_000_000_000;

/// ln 2 on the pico scale.
const LN2_P: i128 = 693_147_180_560;

/// ln 1_000_000 on the pico scale.
const LN_MEGA_P: i128 = 13_815_510_557_964;

/// The product `a * b / d`, truncated and clamped into
/// `[-limit, limit]`: the one step every series below is built from.
/// Opaque so the deep series terms stay atomic; `muldiv_clamped` is
/// its executable form.
#[verifier::opaque]
pub open spec fn mdc(a: int, b: int, d: int, limit: int) -> int {
    clamp_v(tdiv(a * b, d), limit)
}

/// A clamped product quotient of non-negative factors is non-negative.
pub proof fn lemma_mdc_nonneg(a: int, b: int, d: int, limit: int)
    requires
        d > 0,
        limit >= 0,
        a * b >= 0,
    ensures
        mdc(a, b, d, limit) >= 0,
{
    reveal(mdc);
    lemma_tdiv_sign(a * b, d);
}

/// `a * b / d`, truncated and then clamped into `[-limit, limit]`;
/// the workhorse of the series evaluations below.
fn muldiv_clamped(a: i128, b: i128, d: i128, limit: i128) -> (r: i128)
    requires
        d > 0,
        limit >= 0,
        abs_v(a as int) <= 10_000_000_000_000_000_000,
        abs_v(b as int) <= 10_000_000_000_000_000_000,
    ensures
        r as int == mdc(a as int, b as int, d as int, limit as int),
        -limit <= r <= limit,
{
    proof {
        reveal(mdc);
        lemma_prod_bound(
            a as int,
            b as int,
            10_000_000_000_000_000_000,
            10_000_000_000_000_000_000,
        );
    }
    let q = tdiv128(a * b, d);
    if q < -limit {
        -limit
    } else if q > limit {
        limit
    } else {
        q
    }
}

/// One level of the sine series on the pico scale.
pub open spec fn sin_level_s(u: int, h: int, c: int) -> int {
    1_000_000_000_000 - mdc(u, h, c * 1_000_000_000_000, 1_000_000_000_000)
}

/// One level of the Horner evaluation used by `sin_q`: given the squared
/// angle `u` and the inner value `h`, both on the pico scale, produce
/// `PICO - u * h / (c * PICO)` clamped level by level.
fn sin_level(u: i128, h: i128, c: i128) -> (r: i128)
    requires
        0 < c <= 1_000,
        0 <= u <= 3_000_000_000_000,
        -2_000_000_000_000 <= h <= 2_000_000_000_000,
    ensures
        r as int == sin_level_s(u as int, h as int, c as int),
        -2_000_000_000_000 <= r <= 2_000_000_000_000,
{
    let t = muldiv_clamped(u, h, c * PICO, 1_000_000_000_000);
    1_000_000_000_000 - t
}

/// The sine computation, step for step: range reduction into a
/// quarter turn, the squared angle, five Horner levels, and the final
/// clamp to full scale.
pub open spec fn sin_q_s(x: int) -> int {
    let a0 = if x > 3_141_593 {
        x - 6_283_185
    } else {
        x
    };
    let a1 = if a0 < -3_141_593 {
        a0 + 6_283_185
    } else {
        a0
    };
    let a = if a1 > 1_570_796 {
        3_141_593 - a1
    } else if a1 < -1_570_796 {
        -3_141_593 - a1
    } else {
        a1
    };
    let a12 = a * 1_000_000;
    let u = mdc(a12, a12, 1_000_000_000_000, 3_000_000_000_000);
    let h5 = sin_level_s(u, 1_000_000_000_000, 110);
    let h4 = sin_level_s(u, h5, 72);
    let h3 = sin_level_s(u, h4, 42);
    let h2 = sin_level_s(u, h3, 20);
    let h1 = sin_level_s(u, h2, 6);
    let s12 = mdc(a12, h1, 1_000_000_000_000, 4_000_000_000_000_000_000);
    clamp_v(tdiv(s12, 1_000_000), 1_000_000)
}

/// The cosine as the shifted sine.
pub open spec fn cos_q_s(x: int) -> int {
    sin_q_s(x + 1_570_796)
}

/// Sine of an angle given in micro-radians, within about two
/// micro-units; the result is always inside `[-SCALE, SCALE]` and
/// equals `sin_q_s` exactly.
pub fn sin_q(x: i64) -> (r: i64)
    requires
        -9_000_000 <= x <= 9_000_000,
    ensures
        r as int == sin_q_s(x as int),
        -SCALE <= r <= SCALE,
        x == 0 ==> r == 0,
{
    let mut a: i64 = x;
    if a > PI_Q {
        a = a - TWO_PI_Q;
    }
    if a < -PI_Q {
        a = a + TWO_PI_Q;
    }
    if a > HALF_PI_Q {
        a = PI_Q - a;
    } else if a < -HALF_PI_Q {
        a = -PI_Q - a;
    }
    let a12: i128 = (a as i128) * 1_000_000;
    proof {
        assert((a12 as int) * (a12 as int) >= 0) by (nonlinear_arith);
    }
    let u = muldiv_clamped(a12, a12, PICO, 3_000_000_000_000);
    proof {
        lemma_mdc_nonneg(a12 as int, a12 as int, PICO as int, 3_000_000_000_000int);
    }
    let h5 = sin_level(u, 1_000_000_000_000, 110);
    let h4 = sin_level(u, h5, 72);
    let h3 = sin_level(u, h4, 42);
    let h2 = sin_level(u, h3, 20);
    let h1 = sin_level(u, h2, 6);
    let s12 = muldiv_clamped(a12, h1, PICO, 4_000_000_000_000_000_000);
    let s = tdiv128(s12, 1_000_000);
    proof {
        lemma_tdiv_bound(s12 as int, 1_000_000, 4_000_000_000_000);
        if x == 0 {
            reveal(mdc);
            assert((a12 as int) * (h1 as int) == 0) by (nonlinear_arith)
                requires
                    a12 == 0,
            ;
            lemma_tdiv_sign((a12 as int) * (h1 as int), PICO as int);
            assert(s12 == 0);
            lemma_tdiv_sign(s12 as int, 1_000_000);
        }
    }
    let s64 = s as i64;
    if s64 > SCALE {
        SCALE
    } else if s64 < -SCALE {
        -SCALE
    } else {
        s64
    }
}

/// Cosine of an angle given in micro-radians; equals `cos_q_s` exactly.
pub fn cos_q(x: i64) -> (r: i64)
    requires
        -7_000_000 <= x <= 7_000_000,
    ensures
        r as int == cos_q_s(x as int),
        -SCALE <= r <= SCALE,
{
    sin_q(x + HALF_PI_Q)
}

/// The tangent as the clamped quotient of the sine and cosine, with a
/// saturated value near the pole.
pub open spec fn tan_q_s(x: int) -> int {
    let s = sin_q_s(x);
    let c = cos_q_s(x);
    if c <= 15_625 {
        if s >= 0 {
            64_000_000
        } else {
            -64_000_000
        }
    } else {
        tdiv(s * 1_000_000, c)
    }
}

/// Tangent of an angle in micro-radians, for angles safely below pi/2;
/// saturates at 64 full-scale units near the pole and equals `tan_q_s`
/// exactly.
pub fn tan_q(x: i64) -> (r: i64)
    requires
        -1_540_000 <= x <= 1_540_000,
    ensures
        r as int == tan_q_s(x as int),
        -64_000_000 <= r <= 64_000_000,
{
    let s = sin_q(x);
    let c = cos_q(x);
    if c <= 15_625 {
        // too close to the pole for the quotient to be meaningful
        if s >= 0 {
            64_000_000
        } else {
            -64_000_000
        }
    } else {
        let q = tdiv128((s as i128) * 1_000_000, c as i128);
        proof {
            assert(abs_v((s as int) * 1_000_000) <= 64_000_000 * (c as int))
                by (nonlinear_arith)
                requires
                    -1_000_000 <= s <= 1_000_000,
                    c > 15_625,
            ;
            lemma_tdiv_bound(
                (s as int) * 1_000_000,
                c as int,
                64_000_000,
            );
        }
        q as i64
    }
}

/// One level of the exponential series on the pico scale.
pub open spec fn exp_level_s(r0: int, h: int, c: int) -> int {
    1_000_000_000_000 + mdc(r0, h, c * 1_000_000_000_000, 2_000_000_000_000)
}

/// One level of the Horner evaluation of the exponential series: given
/// the reduced argument `r0` and the inner value `h`, both on the pico
/// scale, produce `PICO + r0 * h / (c * PICO)` clamped level by level.
fn exp_level(r0: i128, h: i128, c: i128) -> (r: i128)
    requires
        0 < c <= 1_000,
        0 <= r0 <= 100_000_000_000_000,
        1_000_000_000_000 <= h <= 3_000_000_000_000,
    ensures
        r as int == exp_level_s(r0 as int, h as int, c as int),
        1_000_000_000_000 <= r <= 3_000_000_000_000,
{
    let t = muldiv_clamped(r0, h, c * PICO, 2_000_000_000_000);
    proof {
        assert((r0 as int) * (h as int) >= 0) by (nonlinear_arith)
            requires
                r0 >= 0,
                h >= 0,
        ;
        lemma_mdc_nonneg(r0 as int, h as int, (c * PICO) as int, 2_000_000_000_000int);
    }
    1_000_000_000_000 + t
}

/// Doubling toward the saturation cap, `k` times.
pub open spec fn exp_up_s(v: int, k: int) -> int
    decreases k,
{
    if k <= 0 {
        v
    } else {
        let d = 2 * exp_up_s(v, k - 1);
        if d > 9_000_000_000_000_000_000 {
            9_000_000_000_000_000_000
        } else {
            d
        }
    }
}

/// Halving `k` times.
pub open spec fn exp_down_s(v: int, k: int) -> int
    decreases k,
{
    if k <= 0 {
        v
    } else {
        exp_down_s(v, k - 1) / 2
    }
}

/// The exponential computation, step for step: split the pico-scale
/// argument into a binary exponent (a floor division by ln 2) and a
/// remainder in `[0, ln 2)`, run thirteen Horner levels on the
/// remainder, then scale by the power of two, with saturation.
pub open spec fn exp_q_s(x: int) -> int {
    if x == 0 {
        1_000_000
    } else if x < -30_000_000 {
        0
    } else {
        let x12 = x * 1_000_000;
        let k = x12 / 693_147_180_560;
        let rem = x12 % 693_147_180_560;
        let r0 = if rem > 100_000_000_000_000 {
            100_000_000_000_000
        } else {
            rem
        };
        let h13 = exp_level_s(r0, 1_000_000_000_000, 13);
        let h12 = exp_level_s(r0, h13, 12);
        let h11 = exp_level_s(r0, h12, 11);
        let h10 = exp_level_s(r0, h11, 10);
        let h9 = exp_level_s(r0, h10, 9);
        let h8 = exp_level_s(r0, h9, 8);
        let h7 = exp_level_s(r0, h8, 7);
        let h6 = exp_level_s(r0, h7, 6);
        let h5 = exp_level_s(r0, h6, 5);
        let h4 = exp_level_s(r0, h5, 4);
        let h3 = exp_level_s(r0, h4, 3);
        let h2 = exp_level_s(r0, h3, 2);
        let h1 = exp_level_s(r0, h2, 1);
        let res = if k >= 0 {
            exp_up_s(h1, k)
        } else {
            exp_down_s(h1, -k)
        };
        let out = tdiv(res, 1_000_000);
        if x <= 0 && out > 1_000_000 {
            1_000_000
        } else {
            out
        }
    }
}

/// Exponential of a micro-unit argument: `e` raised to `x / SCALE`,
/// in micro-units.  The result saturates at nine million full-scale
/// units, never exceeds full scale for non-positive arguments, and
/// equals `exp_q_s` exactly.
pub fn exp_q(x: i64) -> (r: i64)
    requires
        -2_000_000_000_000 <= x <= 16_000_000,
    ensures
        r as int == exp_q_s(x as int),
        0 <= r <= 9_000_000_000_000,
        x == 0 ==> r == SCALE,
        x <= 0 ==> r <= SCALE,
        x >= 0 ==> r >= SCALE,
{
    if x == 0 {
        return SCALE;
    }
    if x < -30_000_000 {
        return 0;
    }
    let x12: i128 = (x as i128) * 1_000_000;
    let k: i128 = if x12 >= 0 {
        x12 / LN2_P
    } else {
        -((-x12 + LN2_P - 1) / LN2_P)
    };
    proof {
        if x12 < 0 {
            lemma_neg_ceil_div((-x12) as int, LN2_P as int);
        }
        assert(k as int == (x12 as int) / (LN2_P as int));
        assert(k >= -45) by {
            vstd::arithmetic::div_mod::lemma_div_is_ordered(
                -30_000_000_000_000,
                x12 as int,
                LN2_P as int,
            );
        }
        assert(k <= 24) by {
            vstd::arithmetic::div_mod::lemma_div_is_ordered(
                x12 as int,
                16_000_000_000_000,
                LN2_P as int,
            );
        }
        vstd::arithmetic::div_mod::lemma_fundamental_div_mod(x12 as int, LN2_P as int);
        vstd::arithmetic::div_mod::lemma_mod_division_less_than_divisor(x12 as int, LN2_P as int);
        vstd::arithmetic::div_mod::lemma_mod_bound(x12 as int, LN2_P as int);
    }
    let rem: i128 = x12 - k * LN2_P;
    proof {
        assert(rem as int == (x12 as int) % (LN2_P as int)) by {
            assert((x12 as int) - (k as int) * (LN2_P as int) == (x12 as int) - (LN2_P as int) * (
            k as int)) by (nonlinear_arith);
        }
        assert(0 <= rem < LN2_P);
    }
    let r0: i128 = if rem > 100_000_000_000_000 {
        100_000_000_000_000
    } else {
        rem
    };
    let h13 = exp_level(r0, 1_000_000_000_000, 13);
    let h12 = exp_level(r0, h13, 12);
    let h11 = exp_level(r0, h12, 11);
    let h10 = exp_level(r0, h11, 10);
    let h9 = exp_level(r0, h10, 9);
    let h8 = exp_level(r0, h9, 8);
    let h7 = exp_level(r0, h8, 7);
    let h6 = exp_level(r0, h7, 6);
    let h5 = exp_level(r0, h6, 5);
    let h4 = exp_level(r0, h5, 4);
    let h3 = exp_level(r0, h4, 3);
    let h2 = exp_level(r0, h3, 2);
    let h1 = exp_level(r0, h2, 1);
    let mut res: i128 = h1;
    if k >= 0 {
        let mut i: i128 = 0;
        while i < k
            invariant
                0 <= i <= k <= 24,
                res as int == exp_up_s(h1 as int, i as int),
                1_000_000_000_000 <= res <= 9_000_000_000_000_000_000,
            decreases k - i,
        {
            res = res * 2;
            if res > 9_000_000_000_000_000_000 {
                res = 9_000_000_000_000_000_000;
            }
            i = i + 1;
        }
    } else {
        let kd: i128 = -k;
        let mut i: i128 = 0;
        while i < kd
            invariant
                0 <= i <= kd <= 45,
                res as int == exp_down_s(h1 as int, i as int),
                0 <= res <= 3_000_000_000_000,
            decreases kd - i,
        {
            res = res / 2;
            i = i + 1;
        }
    }
    let out = tdiv128(res, 1_000_000);
    proof {
        lemma_tdiv_bound(res as int, 1_000_000, 9_000_000_000_000);
        lemma_tdiv_sign(res as int, 1_000_000);
        if x >= 0 {
            vstd::arithmetic::div_mod::lemma_div_is_ordered(
                1_000_000_000_000,
                res as int,
                1_000_000,
            );
            vstd::arithmetic::div_mod::lemma_div_multiples_vanish(1_000_000, 1_000_000);
        }
    }
    let out64 = out as i64;
    if x <= 0 && out64 > SCALE {
        SCALE
    } else {
        out64
    }
}

/// The odd powers of `z` that feed the series: the `n`-th application
/// of the squared-argument product.
pub open spec fn atanh_pow_s(z: int, w: int, n: int) -> int
    decreases n,
{
    if n <= 0 {
        z
    } else {
        mdc(atanh_pow_s(z, w, n - 1), w, 1_000_000_000_000, 1_000_000_000_000)
    }
}

/// The odd-power series for the inverse hyperbolic tangent, term for
/// term.
pub open spec fn atanh_p_s(z: int) -> int {
    let w = mdc(z, z, 1_000_000_000_000, 1_000_000_000_000);
    z + tdiv(atanh_pow_s(z, w, 1), 3) + tdiv(atanh_pow_s(z, w, 2), 5) + tdiv(
        atanh_pow_s(z, w, 3),
        7,
    ) + tdiv(atanh_pow_s(z, w, 4), 9) + tdiv(atanh_pow_s(z, w, 5), 11) + tdiv(
        atanh_pow_s(z, w, 6),
        13,
    ) + tdiv(atanh_pow_s(z, w, 7), 15)
}

/// The first four odd powers of `z` beyond the first, on the pico
/// scale.
#[verifier::rlimit(100)]
fn atanh_powers_low(z: i128, w: i128) -> (r: (i128, i128, i128, i128))
    requires
        -1_000_000_000_000 <= z <= 1_000_000_000_000,
        -1_000_000_000_000 <= w <= 1_000_000_000_000,
        w as int == mdc(z as int, z as int, 1_000_000_000_000, 1_000_000_000_000),
    ensures
        r.0 as int == atanh_pow_s(z as int, w as int, 1),
        r.1 as int == atanh_pow_s(z as int, w as int, 2),
        r.2 as int == atanh_pow_s(z as int, w as int, 3),
        r.3 as int == atanh_pow_s(z as int, w as int, 4),
        -1_000_000_000_000 <= r.0 <= 1_000_000_000_000,
        -1_000_000_000_000 <= r.1 <= 1_000_000_000_000,
        -1_000_000_000_000 <= r.2 <= 1_000_000_000_000,
        -1_000_000_000_000 <= r.3 <= 1_000_000_000_000,
{
    let z3 = muldiv_clamped(z, w, PICO, 1_000_000_000_000);
    let z5 = muldiv_clamped(z3, w, PICO, 1_000_000_000_000);
    let z7 = muldiv_clamped(z5, w, PICO, 1_000_000_000_000);
    let z9 = muldiv_clamped(z7, w, PICO, 1_000_000_000_000);
    proof {
        reveal_with_fuel(atanh_pow_s, 6);
    }
    (z3, z5, z7, z9)
}

/// The next three odd powers, continuing from the fourth.
#[verifier::rlimit(100)]
fn atanh_powers_high(z: i128, w: i128, z9: i128) -> (r: (i128, i128, i128))
    requires
        -1_000_000_000_000 <= z <= 1_000_000_000_000,
        -1_000_000_000_000 <= w <= 1_000_000_000_000,
        -1_000_000_000_000 <= z9 <= 1_000_000_000_000,
        z9 as int == atanh_pow_s(z as int, w as int, 4),
    ensures
        r.0 as int == atanh_pow_s(z as int, w as int, 5),
        r.1 as int == atanh_pow_s(z as int, w as int, 6),
        r.2 as int == atanh_pow_s(z as int, w as int, 7),
        -1_000_000_000_000 <= r.0 <= 1_000_000_000_000,
        -1_000_000_000_000 <= r.1 <= 1_000_000_000_000,
        -1_000_000_000_000 <= r.2 <= 1_000_000_000_000,
{
    let z11 = muldiv_clamped(z9, w, PICO, 1_000_000_000_000);
    let z13 = muldiv_clamped(z11, w, PICO, 1_000_000_000_000);
    let z15 = muldiv_clamped(z13, w, PICO, 1_000_000_000_000);
    proof {
        reveal_with_fuel(atanh_pow_s, 9);
    }
    (z11, z13, z15)
}

/// Sum of the odd-power series for the inverse hyperbolic tangent of
/// `z`, on the pico scale; equals `atanh_p_s` exactly.
#[verifier::rlimit(100)]
#[verifier::spinoff_prover]
fn atanh_p(z: i128) -> (r: i128)
    requires
        -1_000_000_000_000 <= z <= 1_000_000_000_000,
    ensures
        r as int == atanh_p_s(z as int),
        -4_000_000_000_000 <= r <= 4_000_000_000_000,
{
    let w = muldiv_clamped(z, z, PICO, 1_000_000_000_000);
    let (z3, z5, z7, z9) = atanh_powers_low(z, w);
    let (z11, z13, z15) = atanh_powers_high(z, w, z9);
    let t3 = tdiv128(z3, 3);
    let t5 = tdiv128(z5, 5);
    let t7 = tdiv128(z7, 7);
    let t9 = tdiv128(z9, 9);
    let t11 = tdiv128(z11, 11);
    let t13 = tdiv128(z13, 13);
    let t15 = tdiv128(z15, 15);
    proof {
        lemma_tdiv_bound(z3 as int, 3, 400_000_000_000);
        lemma_tdiv_bound(z5 as int, 5, 400_000_000_000);
        lemma_tdiv_bound(z7 as int, 7, 400_000_000_000);
        lemma_tdiv_bound(z9 as int, 9, 400_000_000_000);
        lemma_tdiv_bound(z11 as int, 11, 400_000_000_000);
        lemma_tdiv_bound(z13 as int, 13, 400_000_000_000);
        lemma_tdiv_bound(z15 as int, 15, 400_000_000_000);
    }
    z + t3 + t5 + t7 + t9 + t11 + t13 + t15
}

/// The halving normalization of the logarithm: bring `m` below one
/// mega while counting the shifts.
pub open spec fn ln_norm_down_s(m: int, k: int) -> (int, int)
    decreases m,
{
    if m >= 1_048_576 && k < 45 {
        ln_norm_down_s(m / 2, k + 1)
    } else {
        (m, k)
    }
}

/// The doubling normalization of the logarithm: raise `m` to at least
/// half a mega while counting the shifts.
pub open spec fn ln_norm_up_s(m: int, k: int) -> (int, int)
    decreases k + 25,
{
    if m < 524_288 && k > -25 {
        ln_norm_up_s(2 * m, k - 1)
    } else {
        (m, k)
    }
}

/// The logarithm computation, step for step: normalize into
/// `[2^19, 2^20)`, take the inverse-hyperbolic-tangent series of the
/// centered ratio, and recombine with the binary exponent.
pub open spec fn ln_q_s(x: int) -> int {
    let down = ln_norm_down_s(x, 0);
    let up = ln_norm_up_s(down.0, down.1);
    let m = up.0;
    let k = up.1;
    let z = mdc(m - 524_288, 1_000_000_000_000, m + 524_288, 1_000_000_000_000);
    let acc = atanh_p_s(z);
    tdiv((k + 19) * 693_147_180_560 + 2 * acc - 13_815_510_557_964, 1_000_000)
}

/// Natural logarithm of `x / SCALE`, in micro-units, for positive `x`;
/// equals `ln_q_s` exactly.
pub fn ln_q(x: i64) -> (r: i64)
    requires
        1 <= x <= 2_000_000_000_000_000_000,
    ensures
        r as int == ln_q_s(x as int),
        -70_000_000 <= r <= 70_000_000,
{
    let mut m: i128 = x as i128;
    let mut k: i128 = 0;
    while m >= 1_048_576 && k < 45
        invariant
            1 <= m <= 2_000_000_000_000_000_000,
            0 <= k <= 45,
            ln_norm_down_s(x as int, 0) == ln_norm_down_s(m as int, k as int),
        decreases m,
    {
        m = m / 2;
        k = k + 1;
    }
    proof {
        assert(ln_norm_down_s(m as int, k as int) == (m as int, k as int));
        assert(ln_norm_up_s(x as int, 0int) == ln_norm_up_s(x as int, 0int));
    }
    let ghost m1 = m as int;
    let ghost k1 = k as int;
    while m < 524_288 && k > -25
        invariant
            1 <= m <= 2_000_000_000_000_000_000,
            -25 <= k <= 45,
            ln_norm_up_s(m1, k1) == ln_norm_up_s(m as int, k as int),
        decreases k + 25,
    {
        m = m * 2;
        k = k - 1;
    }
    proof {
        assert(ln_norm_up_s(m as int, k as int) == (m as int, k as int));
    }
    // atanh argument z = (m - c) / (m + c) with c = 2^19, on the pico scale
    let z = muldiv_clamped(m - 524_288, PICO, m + 524_288, 1_000_000_000_000);
    let acc = atanh_p(z);
    let r12: i128 = (k + 19) * LN2_P + 2 * acc - LN_MEGA_P;
    let out = tdiv128(r12, 1_000_000);
    proof {
        lemma_tdiv_bound(r12 as int, 1_000_000, 70_000_000);
    }
    out as i64
}

/// The decibel-to-amplitude conversion: the exponential of
/// `db * ln 10 / 20`.
pub open spec fn db_to_linear_s(db: int) -> int {
    exp_q_s(tdiv(db * 2_302_585, 20_000_000))
}

/// Linear amplitude of a gain given in micro-decibels: ten to the
/// power `db / (20 * SCALE)`, in micro-units; equals `db_to_linear_s`
/// exactly.
pub fn db_to_linear(db: i64) -> (r: i64)
    requires
        -2_000_000_000_000 <= db <= 130_000_000,
    ensures
        r as int == db_to_linear_s(db as int),
        0 <= r <= 9_000_000_000_000,
        db == 0 ==> r == SCALE,
        db <= 0 ==> r <= SCALE,
        db >= 0 ==> r >= SCALE,
{
    let e: i128 = tdiv128((db as i128) * 2_302_585, 20_000_000);
    proof {
        let n = (db as int) * 2_302_585;
        lemma_tdiv_sign(n, 20_000_000int);
        lemma_tdiv_bound(n, 20_000_000int, 240_000_000_000int);
        if db >= 0 {
            lemma_tdiv_bound(n, 20_000_000int, 16_000_000int);
        }
    }
    exp_q(e as i64)
}

/// The hyperbolic tangent as the clamped ratio built from the
/// exponential of the doubled argument.
pub open spec fn tanh_q_s(x: int) -> int {
    if x >= 7_500_000 {
        1_000_000
    } else if x <= -7_500_000 {
        -1_000_000
    } else {
        let e2 = exp_q_s(2 * x);
        tdiv((e2 - 1_000_000) * 1_000_000, e2 + 1_000_000)
    }
}

/// Hyperbolic tangent of a micro-unit argument, within
/// `[-SCALE, SCALE]`; equals `tanh_q_s` exactly.
pub fn tanh_q(x: i64) -> (r: i64)
    ensures
        r as int == tanh_q_s(x as int),
        -SCALE <= r <= SCALE,
        x == 0 ==> r == 0,
        x >= 0 ==> r >= 0,
        x <= 0 ==> r <= 0,
{
    if x >= 7_500_000 {
        return SCALE;
    }
    if x <= -7_500_000 {
        return -SCALE;
    }
    let e2 = exp_q(2 * x);
    let num: i128 = (e2 as i128) - (SCALE as i128);
    let den: i128 = (e2 as i128) + (SCALE as i128);
    let q = tdiv128(num * (SCALE as i128), den);
    proof {
        crate::fixed::lemma_abs_mul(num as int, SCALE as int);
        lemma_tdiv_bound(num as int * (SCALE as int), den as int, SCALE as int);
        assert(abs_v(num as int) * (SCALE as int) <= (SCALE as int) * (den as int))
            by (nonlinear_arith)
            requires
                0 <= e2 <= 9_000_000_000_000,
                num == (e2 as i128) - (SCALE as i128),
                den == (e2 as i128) + (SCALE as i128),
        ;
        lemma_tdiv_sign(num as int * (SCALE as int), den as int);
        assert(num as int * (SCALE as int) >= 0 <==> num >= 0) by (nonlinear_arith);
        assert(num as int * (SCALE as int) <= 0 <==> num <= 0) by (nonlinear_arith);
    }
    q as i64
}

} // verus!
