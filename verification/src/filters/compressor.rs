//! An RMS compressor: a smoothed power envelope with separate attack
//! and release time constants drives a ratio-based gain, and the gain
//! itself is smoothed again to avoid audible stepping.
//!
//! The whole per-sample recursion is stated at the spec level
//! (`comp_state_s`, `comp_out_s`), and both entry points promise their
//! output equals it exactly.  The state-threading entry point lets a
//! caller keep the envelope and gain alive across successive buffers
//! of one stream, as the streaming contract asks.

use vstd::prelude::*;
use crate::fixed::SCALE;
use crate::fixed::AMP_LIMIT;
use crate::fixed::abs_v;
use crate::fixed::qmul;
use crate::fixed::qdiv;
use crate::fixed::tdiv;
use crate::fixed::tdiv128;
use crate::fixed::wf_buf;
use crate::fixed::mul_q;
use crate::fixed::lemma_abs_mul;
use crate::fixed::lemma_prod_bound;
use crate::fixed::lemma_tdiv_bound;
use crate::fixed::lemma_tdiv_sign;
use crate::fixed::lemma_tdiv_exact;
use crate::fixed::lemma_tdiv_sum_le;
use crate::math::LN10_Q;
use crate::math::exp_q;
use crate::math::exp_q_s;
use crate::math::ln_q;
use crate::math::ln_q_s;
use crate::math::db_to_linear;
use crate::math::db_to_linear_s;

verus! {

/// Stands in for a threshold of negative infinity decibels: the
/// declared bypass, on which the compressor returns its input
/// unchanged.
pub const DB_BYPASS: i64 = i64::MIN;

/// One smoothing step: the state moves from `state` toward `target` by
/// the complement of the coefficient `c`.
pub open spec fn smooth_step(state: int, target: int, c: int) -> int {
    qmul(SCALE as int - c, target) + qmul(c, state)
}

/// A smoothing step between two values inside `[0, bound]` stays
/// inside `[0, bound]`.
proof fn lemma_smooth_step_bounds(state: int, target: int, c: int, bound: int)
    requires
        0 <= c <= SCALE,
        0 <= state <= bound,
        0 <= target <= bound,
    ensures
        0 <= smooth_step(state, target, c) <= bound,
{
    let sc = SCALE as int - c;
    let a = sc * target;
    let b = c * state;
    vstd::arithmetic::mul::lemma_mul_nonnegative(sc, target);
    vstd::arithmetic::mul::lemma_mul_nonnegative(c, state);
    vstd::arithmetic::mul::lemma_mul_inequality(target, bound, sc);
    vstd::arithmetic::mul::lemma_mul_inequality(state, bound, c);
    vstd::arithmetic::mul::lemma_mul_is_commutative(sc, target);
    vstd::arithmetic::mul::lemma_mul_is_commutative(c, state);
    vstd::arithmetic::mul::lemma_mul_is_commutative(sc, bound);
    vstd::arithmetic::mul::lemma_mul_is_commutative(c, bound);
    vstd::arithmetic::mul::lemma_mul_is_distributive_add(bound, sc, c);
    lemma_tdiv_sum_le(a, b, SCALE as int, bound);
    lemma_tdiv_sign(a, SCALE as int);
    lemma_tdiv_sign(b, SCALE as int);
}

/// A smoothing step between two values equal to `SCALE` is exactly
/// `SCALE` again.
proof fn lemma_smooth_step_unit(c: int)
    requires
        0 <= c <= SCALE,
    ensures
        smooth_step(SCALE as int, SCALE as int, c) == SCALE as int,
{
    lemma_tdiv_exact(SCALE as int - c, SCALE as int);
    lemma_tdiv_exact(c, SCALE as int);
    assert((SCALE as int - c) * (SCALE as int) == (SCALE as int) * (SCALE as int - c))
        by (nonlinear_arith);
    assert(c * (SCALE as int) == (SCALE as int) * c) by (nonlinear_arith);
}

/// The per-sample smoothing coefficient for a time constant in
/// micro-milliseconds at a sample rate in micro-Hertz:
/// the exponential of `-1000 / (time * rate)`.
pub open spec fn smoothing_coeff_s(time_ms: int, sample_rate: int) -> int {
    let samples = tdiv(tdiv(time_ms * sample_rate, SCALE as int), 1_000);
    let floor = if samples < 1 {
        1
    } else {
        samples
    };
    exp_q_s(-tdiv(1_000_000_000_000int, floor))
}

/// The inverse compression ratio, in micro-units.
pub open spec fn comp_inv_ratio_s(ratio: int) -> int {
    qdiv(SCALE as int, ratio)
}

/// The envelope's target for one sample: the micro-unit square of the
/// sample, floored at one micro-unit so the logarithm stays defined.
pub open spec fn comp_env_target_s(x: int) -> int {
    let sq = tdiv(x * x, SCALE as int);
    if sq < 1 {
        1
    } else {
        sq
    }
}

/// The coefficient one sample selects: attack while the squared sample
/// exceeds the envelope, release otherwise.
pub open spec fn comp_coeff_s(env: int, x: int, ac: int, rc: int) -> int {
    if comp_env_target_s(x) > env {
        ac
    } else {
        rc
    }
}

/// The gain the envelope calls for: unity at or below the threshold,
/// else ten to the power of minus the scaled decibel overage.
pub open spec fn comp_target_gain_s(env: int, threshold: int, inv_ratio: int) -> int {
    let ef = if env < 1 {
        1
    } else {
        env
    };
    let env_db = tdiv(ln_q_s(ef) * 10_000_000, 2_302_585);
    if env_db > threshold {
        db_to_linear_s(-tdiv((env_db - threshold) * (SCALE as int - inv_ratio), SCALE as int))
    } else {
        SCALE as int
    }
}

/// The compressor's state after the first `i` samples: the smoothed
/// power envelope and the smoothed gain, starting from `e0` and `g0`.
pub open spec fn comp_state_s(
    input: Seq<i64>,
    threshold: int,
    inv_ratio: int,
    ac: int,
    rc: int,
    e0: int,
    g0: int,
    i: int,
) -> (int, int)
    decreases i,
{
    if i <= 0 {
        (e0, g0)
    } else {
        let prev = comp_state_s(input, threshold, inv_ratio, ac, rc, e0, g0, i - 1);
        let x = input[i - 1] as int;
        let c = comp_coeff_s(prev.0, x, ac, rc);
        let env2 = smooth_step(prev.0, comp_env_target_s(x), c);
        let tg = comp_target_gain_s(env2, threshold, inv_ratio);
        let g2 = smooth_step(prev.1, tg, c);
        (env2, g2)
    }
}

/// The compressor's output at index `i`: the sample scaled by the gain
/// the state holds after processing it.
pub open spec fn comp_out_s(
    input: Seq<i64>,
    threshold: int,
    inv_ratio: int,
    ac: int,
    rc: int,
    e0: int,
    g0: int,
    i: int,
) -> int {
    qmul(
        input[i] as int,
        comp_state_s(input, threshold, inv_ratio, ac, rc, e0, g0, i + 1).1,
    )
}

/// Applies RMS compression with caller-owned envelope and gain state,
/// so one stream's dynamics carry across successive buffers.
///
/// The threshold is in micro-decibels relative to full scale, the
/// ratio in micro-units (at least one-to-one), the attack and release
/// times in micro-milliseconds, and the sample rate in micro-Hertz.
///
/// A threshold of `DB_BYPASS` is the declared bypass: the input and
/// the state come back unchanged.  Otherwise the output and the final
/// state equal the spec-level recursion `comp_state_s`/`comp_out_s`
/// exactly.  A one-to-one ratio with the gain at unity reproduces the
/// input; no sample ever grows in magnitude or flips its sign.
#[verifier::rlimit(100)]
pub fn compress_rms_with_state(
    input: &Vec<i64>,
    threshold: i64,
    ratio: i64,
    attack_ms: i64,
    release_ms: i64,
    sample_rate: i64,
    envelope: &mut i64,
    gain: &mut i64,
) -> (r: Vec<i64>)
    requires
        wf_buf(input@),
        threshold == DB_BYPASS || -1_000_000_000_000 <= threshold <= 130_000_000,
        SCALE <= ratio <= 1_000_000_000,
        1 <= attack_ms <= 1_000_000_000_000,
        1 <= release_ms <= 1_000_000_000_000,
        SCALE <= sample_rate <= 1_000_000_000_000,
        0 <= *old(envelope) <= 1_000_000_000_000_000_000,
        0 <= *old(gain) <= SCALE,
    ensures
        r@.len() == input@.len(),
        wf_buf(r@),
        0 <= *final(envelope) <= 1_000_000_000_000_000_000,
        0 <= *final(gain) <= SCALE,
        threshold == DB_BYPASS ==> r@ == input@ && *final(envelope) == *old(envelope)
            && *final(gain) == *old(gain),
        threshold != DB_BYPASS ==> (*final(envelope) as int, *final(gain) as int) == comp_state_s(
            input@,
            threshold as int,
            comp_inv_ratio_s(ratio as int),
            smoothing_coeff_s(attack_ms as int, sample_rate as int),
            smoothing_coeff_s(release_ms as int, sample_rate as int),
            *old(envelope) as int,
            *old(gain) as int,
            input@.len() as int,
        ),
        threshold != DB_BYPASS ==> forall|i: int|
            0 <= i < input@.len() ==> #[trigger] r@[i] as int == comp_out_s(
                input@,
                threshold as int,
                comp_inv_ratio_s(ratio as int),
                smoothing_coeff_s(attack_ms as int, sample_rate as int),
                smoothing_coeff_s(release_ms as int, sample_rate as int),
                *old(envelope) as int,
                *old(gain) as int,
                i,
            ),
        ratio == SCALE && *old(gain) == SCALE ==> r@ == input@ && *final(gain) == SCALE,
        forall|i: int|
            0 <= i < input@.len() ==> abs_v(#[trigger] r@[i] as int) <= abs_v(input@[i] as int),
        forall|i: int|
            0 <= i < input@.len() ==> (input@[i] >= 0 ==> #[trigger] r@[i] >= 0) && (input@[i]
                <= 0 ==> r@[i] <= 0),
{
    let ghost e0 = *envelope as int;
    let ghost g0 = *gain as int;
    let mut out: Vec<i64> = Vec::new();
    if threshold == DB_BYPASS {
        let mut i: usize = 0;
        let n = input.len();
        while i < n
            invariant
                0 <= i <= n,
                n == input@.len(),
                out@.len() == i,
                forall|j: int| 0 <= j < i ==> #[trigger] out@[j] == input@[j],
            decreases n - i,
        {
            let x = input[i];
            out.push(x);
            i = i + 1;
        }
        proof {
            assert(out@ =~= input@);
            assert(forall|j: int|
                0 <= j < out@.len() ==> abs_v(#[trigger] out@[j] as int) <= abs_v(
                    input@[j] as int,
                ));
        }
        return out;
    }
    // attack and release coefficients: exp(-1 / (time * sample_rate / 1000))
    let attack_coeff = smoothing_coeff(attack_ms, sample_rate);
    let release_coeff = smoothing_coeff(release_ms, sample_rate);
    // the fraction of the decibel overage that compression removes
    proof {
        lemma_prod_bound(SCALE as int, SCALE as int, SCALE as int, SCALE as int);
        lemma_tdiv_sign((SCALE as int) * (SCALE as int), ratio as int);
        assert((SCALE as int) * (SCALE as int) <= (SCALE as int) * (ratio as int))
            by (nonlinear_arith)
            requires
                ratio >= SCALE,
        ;
        lemma_tdiv_bound((SCALE as int) * (SCALE as int), ratio as int, SCALE as int);
    }
    let inverse_ratio = tdiv128((SCALE as i128) * (SCALE as i128), ratio as i128) as i64;
    proof {
        if ratio == SCALE {
            lemma_tdiv_exact(SCALE as int, SCALE as int);
        }
    }
    let ghost ac = attack_coeff as int;
    let ghost rc = release_coeff as int;
    let ghost ir = inverse_ratio as int;
    let n = input.len();
    let mut i: usize = 0;
    while i < n
        invariant
            0 <= i <= n,
            n == input@.len(),
            out@.len() == i,
            wf_buf(input@),
            0 <= *envelope <= 1_000_000_000_000_000_000,
            0 <= *gain <= SCALE,
            0 <= attack_coeff <= SCALE,
            0 <= release_coeff <= SCALE,
            -1_000_000_000_000 <= threshold <= 130_000_000,
            SCALE <= ratio <= 1_000_000_000,
            0 <= inverse_ratio <= SCALE,
            ac == attack_coeff as int,
            rc == release_coeff as int,
            ir == inverse_ratio as int,
            ratio == SCALE ==> inverse_ratio == SCALE,
            ratio == SCALE && g0 == SCALE ==> *gain == SCALE,
            ratio == SCALE && g0 == SCALE ==> forall|j: int|
                0 <= j < i ==> #[trigger] out@[j] == input@[j],
            (*envelope as int, *gain as int) == comp_state_s(
                input@,
                threshold as int,
                ir,
                ac,
                rc,
                e0,
                g0,
                i as int,
            ),
            forall|j: int|
                0 <= j < i ==> #[trigger] out@[j] as int == comp_out_s(
                    input@,
                    threshold as int,
                    ir,
                    ac,
                    rc,
                    e0,
                    g0,
                    j,
                ),
            forall|j: int|
                0 <= j < i ==> abs_v(#[trigger] out@[j] as int) <= abs_v(input@[j] as int)
                    && -AMP_LIMIT <= out@[j] <= AMP_LIMIT,
            forall|j: int|
                0 <= j < i ==> (input@[j] >= 0 ==> #[trigger] out@[j] >= 0) && (input@[j] <= 0
                    ==> out@[j] <= 0),
        decreases n - i,
    {
        let x = input[i];
        proof {
            assert((x as int) * (x as int) >= 0) by (nonlinear_arith);
            lemma_prod_bound(x as int, x as int, AMP_LIMIT as int, AMP_LIMIT as int);
            lemma_tdiv_sign((x as int) * (x as int), SCALE as int);
            lemma_tdiv_bound(
                (x as int) * (x as int),
                SCALE as int,
                1_000_000_000_000_000_000,
            );
        }
        let sample_sq = tdiv128((x as i128) * (x as i128), SCALE as i128) as i64;
        // floor the envelope target at one micro-unit to keep the
        // logarithm's argument positive
        let target: i64 = if sample_sq < 1 {
            1
        } else {
            sample_sq
        };
        let coeff: i64 = if target > *envelope {
            attack_coeff
        } else {
            release_coeff
        };
        proof {
            lemma_smooth_step_bounds(
                *envelope as int,
                target as int,
                coeff as int,
                1_000_000_000_000_000_000,
            );
            lemma_prod_bound(
                SCALE as int - coeff as int,
                target as int,
                SCALE as int,
                1_000_000_000_000_000_000,
            );
            lemma_prod_bound(
                coeff as int,
                *envelope as int,
                SCALE as int,
                1_000_000_000_000_000_000,
            );
        }
        let env_a = tdiv128(((SCALE - coeff) as i128) * (target as i128), SCALE as i128);
        let env_b = tdiv128((coeff as i128) * (*envelope as i128), SCALE as i128);
        proof {
            lemma_tdiv_bound(
                (SCALE as int - coeff as int) * (target as int),
                SCALE as int,
                1_000_000_000_000_000_000,
            );
            lemma_tdiv_bound(
                (coeff as int) * (*envelope as int),
                SCALE as int,
                1_000_000_000_000_000_000,
            );
        }
        *envelope = (env_a + env_b) as i64;
        // envelope level in micro-decibels: 10 * log10(envelope); the
        // envelope is floored at one micro-unit so the logarithm is
        // defined even on silence
        let env_floor: i64 = if *envelope < 1 {
            1
        } else {
            *envelope
        };
        let lnv = ln_q(env_floor);
        proof {
            lemma_prod_bound(lnv as int, 10_000_000int, 70_000_000int, 10_000_000int);
            lemma_tdiv_bound((lnv as int) * 10_000_000, LN10_Q as int, 400_000_000);
            assert(abs_v((lnv as int) * 10_000_000) <= 400_000_000int * (LN10_Q as int))
                by (nonlinear_arith)
                requires
                    -70_000_000 <= lnv <= 70_000_000,
                    LN10_Q == 2_302_585i64,
            ;
        }
        let env_db = tdiv128((lnv as i128) * 10_000_000, LN10_Q as i128) as i64;
        let target_gain: i64 = if env_db > threshold {
            let over_db = env_db - threshold;
            proof {
                lemma_prod_bound(
                    over_db as int,
                    SCALE as int - inverse_ratio as int,
                    2_000_000_000_000int,
                    SCALE as int,
                );
                lemma_tdiv_sign(
                    (over_db as int) * (SCALE as int - inverse_ratio as int),
                    SCALE as int,
                );
                assert((over_db as int) * (SCALE as int - inverse_ratio as int) >= 0)
                    by (nonlinear_arith)
                    requires
                        over_db >= 0,
                        inverse_ratio <= SCALE,
                ;
                lemma_tdiv_bound(
                    (over_db as int) * (SCALE as int - inverse_ratio as int),
                    SCALE as int,
                    2_000_000_000_000int,
                );
            }
            let reduction = tdiv128(
                (over_db as i128) * ((SCALE - inverse_ratio) as i128),
                SCALE as i128,
            ) as i64;
            proof {
                if ratio == SCALE {
                    assert((over_db as int) * 0 == 0) by (nonlinear_arith);
                    lemma_tdiv_sign(0, SCALE as int);
                }
            }
            db_to_linear(-reduction)
        } else {
            SCALE
        };
        proof {
            assert(target_gain as int == comp_target_gain_s(
                *envelope as int,
                threshold as int,
                ir,
            ));
            lemma_smooth_step_bounds(*gain as int, target_gain as int, coeff as int, SCALE as int);
            if ratio == SCALE && g0 == SCALE {
                lemma_smooth_step_unit(coeff as int);
            }
            lemma_prod_bound(
                SCALE as int - coeff as int,
                target_gain as int,
                SCALE as int,
                SCALE as int,
            );
            lemma_prod_bound(coeff as int, *gain as int, SCALE as int, SCALE as int);
        }
        let gain_a = tdiv128(((SCALE - coeff) as i128) * (target_gain as i128), SCALE as i128);
        let gain_b = tdiv128((coeff as i128) * (*gain as i128), SCALE as i128);
        *gain = (gain_a + gain_b) as i64;
        proof {
            lemma_abs_mul(x as int, *gain as int);
            lemma_prod_bound(x as int, *gain as int, AMP_LIMIT as int, SCALE as int);
            assert(abs_v(x as int) * abs_v(*gain as int) <= abs_v(x as int) * (SCALE as int))
                by (nonlinear_arith)
                requires
                    0 <= *gain <= SCALE,
            ;
            lemma_tdiv_bound((x as int) * (*gain as int), SCALE as int, abs_v(x as int));
            lemma_tdiv_sign((x as int) * (*gain as int), SCALE as int);
            assert(x >= 0 ==> (x as int) * (*gain as int) >= 0) by (nonlinear_arith)
                requires
                    *gain >= 0,
            ;
            assert(x <= 0 ==> (x as int) * (*gain as int) <= 0) by (nonlinear_arith)
                requires
                    *gain >= 0,
            ;
            if ratio == SCALE && g0 == SCALE {
                lemma_tdiv_exact(x as int, SCALE as int);
            }
        }
        let y = mul_q(x, *gain);
        out.push(y);
        i = i + 1;
    }
    proof {
        if ratio == SCALE && g0 == SCALE {
            assert(out@ =~= input@);
        }
    }
    out
}

/// Applies RMS compression from a fresh state and returns a buffer of
/// the input's length; the one-call form of the streaming entry point,
/// with the envelope starting silent and the gain at unity.
///
/// A threshold of `DB_BYPASS` is the declared bypass: the input comes
/// back unchanged.  A ratio of exactly one-to-one also reproduces the
/// input.  Otherwise every output sample equals the spec-level
/// recursion `comp_out_s` from the fresh state; no sample ever grows
/// in magnitude or flips its sign, so silence stays silence.
pub fn compress_rms(
    input: &Vec<i64>,
    threshold: i64,
    ratio: i64,
    attack_ms: i64,
    release_ms: i64,
    sample_rate: i64,
) -> (r: Vec<i64>)
    requires
        wf_buf(input@),
        threshold == DB_BYPASS || -1_000_000_000_000 <= threshold <= 130_000_000,
        SCALE <= ratio <= 1_000_000_000,
        1 <= attack_ms <= 1_000_000_000_000,
        1 <= release_ms <= 1_000_000_000_000,
        SCALE <= sample_rate <= 1_000_000_000_000,
    ensures
        r@.len() == input@.len(),
        wf_buf(r@),
        threshold == DB_BYPASS ==> r@ == input@,
        ratio == SCALE ==> r@ == input@,
        threshold != DB_BYPASS ==> forall|i: int|
            0 <= i < input@.len() ==> #[trigger] r@[i] as int == comp_out_s(
                input@,
                threshold as int,
                comp_inv_ratio_s(ratio as int),
                smoothing_coeff_s(attack_ms as int, sample_rate as int),
                smoothing_coeff_s(release_ms as int, sample_rate as int),
                0,
                SCALE as int,
                i,
            ),
        forall|i: int|
            0 <= i < input@.len() ==> abs_v(#[trigger] r@[i] as int) <= abs_v(input@[i] as int),
        forall|i: int|
            0 <= i < input@.len() ==> (input@[i] >= 0 ==> #[trigger] r@[i] >= 0) && (input@[i]
                <= 0 ==> r@[i] <= 0),
{
    let mut envelope: i64 = 0;
    let mut gain: i64 = SCALE;
    compress_rms_with_state(
        input,
        threshold,
        ratio,
        attack_ms,
        release_ms,
        sample_rate,
        &mut envelope,
        &mut gain,
    )
}

/// The per-sample smoothing coefficient for a time constant given in
/// micro-milliseconds at a sample rate in micro-Hertz:
/// `exp(-1000 / (time * rate))`, always inside `[0, SCALE]` and equal
/// to `smoothing_coeff_s` exactly.
fn smoothing_coeff(time_ms: i64, sample_rate: i64) -> (r: i64)
    requires
        1 <= time_ms <= 1_000_000_000_000,
        SCALE <= sample_rate <= 1_000_000_000_000,
    ensures
        r as int == smoothing_coeff_s(time_ms as int, sample_rate as int),
        0 <= r <= SCALE,
{
    proof {
        lemma_prod_bound(
            time_ms as int,
            sample_rate as int,
            1_000_000_000_000int,
            1_000_000_000_000int,
        );
        lemma_tdiv_sign((time_ms as int) * (sample_rate as int), SCALE as int);
        assert((time_ms as int) * (sample_rate as int) >= 0) by (nonlinear_arith)
            requires
                time_ms >= 1,
                sample_rate >= 1,
        ;
    }
    // samples covered by the time constant: time * rate / 1000, in
    // micro-units
    let samples_wide = tdiv128((time_ms as i128) * (sample_rate as i128), SCALE as i128);
    let denom = tdiv128(samples_wide, 1_000);
    proof {
        lemma_tdiv_sign(samples_wide as int, 1_000);
        lemma_tdiv_bound(samples_wide as int, 1_000, 1_000_000_000_000_000_000);
        lemma_tdiv_bound(
            (time_ms as int) * (sample_rate as int),
            SCALE as int,
            1_000_000_000_000_000_000,
        );
    }
    let floor: i128 = if denom < 1 {
        1
    } else {
        denom
    };
    proof {
        lemma_tdiv_sign((SCALE as int) * (SCALE as int), floor as int);
        lemma_prod_bound(SCALE as int, SCALE as int, SCALE as int, SCALE as int);
        lemma_tdiv_bound((SCALE as int) * (SCALE as int), floor as int, 1_000_000_000_000int);
        assert((SCALE as int) * (SCALE as int) <= 1_000_000_000_000int * (floor as int))
            by (nonlinear_arith)
            requires
                floor >= 1,
                SCALE == 1_000_000i64,
        ;
    }
    let exponent = tdiv128((SCALE as i128) * (SCALE as i128), floor);
    exp_q(-(exponent as i64))
}

} // verus!
