//! A multiband compressor: a crossover bank of second-order bandpass
//! sections splits the signal into frequency bands, each band runs
//! through the RMS compressor independently, and the bands are summed
//! back into one buffer.

use vstd::prelude::*;
use crate::fixed::SCALE;
use crate::fixed::AMP_LIMIT;
use crate::fixed::abs_v;
use crate::fixed::qmul;
use crate::fixed::tdiv;
use crate::fixed::tdiv128;
use crate::fixed::clamp_v;
use crate::fixed::clamp64;
use crate::fixed::wf_buf;
use crate::fixed::isqrt128;
use crate::fixed::mul_q;
use crate::fixed::lemma_abs_mul;
use crate::fixed::lemma_prod_bound;
use crate::fixed::lemma_tdiv_bound;
use crate::fixed::lemma_tdiv_sign;
use crate::math::PI_Q;
use crate::math::TWO_PI_Q;
use crate::math::cos_q;
use crate::math::cos_q_s;
use crate::math::tan_q;
use crate::math::tan_q_s;
use crate::fixed::sqrt_floor;
use crate::fixed::lemma_sqrt_floor_unique;
use crate::filters::compressor::compress_rms_with_state;
use crate::filters::compressor::comp_state_s;
use crate::filters::compressor::comp_out_s;
use crate::filters::compressor::comp_inv_ratio_s;
use crate::filters::compressor::smoothing_coeff_s;
use crate::filters::compressor::DB_BYPASS;

verus! {

/// Largest magnitude a filter coefficient may take, in micro-units.
pub const COEFF_LIMIT: i64 = 256_000_000;

/// Parameters for one band of the multiband compressor.  Frequencies
/// are in micro-Hertz, the threshold in micro-decibels, the ratio in
/// micro-units and the times in micro-milliseconds.
#[derive(Debug, Clone, Copy)]
pub struct BandParams {
    /// Lower frequency edge of the band.
    pub low_freq: i64,
    /// Upper frequency edge of the band.
    pub high_freq: i64,
    /// Compression threshold relative to full scale.
    pub threshold: i64,
    /// Compression ratio, at least one-to-one.
    pub ratio: i64,
    /// Attack time.
    pub attack_ms: i64,
    /// Release time.
    pub release_ms: i64,
}

impl BandParams {
    /// The ranges the band's compressor arithmetic needs.
    pub open spec fn wf(&self) -> bool {
        &&& 0 <= self.low_freq <= 1_000_000_000_000
        &&& 0 <= self.high_freq <= 1_000_000_000_000
        &&& self.threshold == DB_BYPASS || -1_000_000_000_000 <= self.threshold <= 130_000_000
        &&& SCALE <= self.ratio <= 1_000_000_000
        &&& 1 <= self.attack_ms <= 1_000_000_000_000
        &&& 1 <= self.release_ms <= 1_000_000_000_000
    }
}

impl Default for BandParams {
    /// One full-range band: twenty kilohertz wide, compressing above
    /// minus twenty decibels at four to one, with a ten millisecond
    /// attack and a hundred millisecond release.
    fn default() -> (r: BandParams)
        ensures
            r.wf(),
            r.low_freq == 0,
            r.high_freq == 20_000_000_000,
            r.threshold == -20_000_000,
            r.ratio == 4_000_000,
            r.attack_ms == 10_000_000,
            r.release_ms == 100_000_000,
    {
        BandParams {
            low_freq: 0,
            high_freq: 20_000_000_000,
            threshold: -20_000_000,
            ratio: 4_000_000,
            attack_ms: 10_000_000,
            release_ms: 100_000_000,
        }
    }
}

/// The widest gap two adjacent bands may leave between them: one
/// Hertz, in micro-Hertz.
pub const GAP_TOLERANCE: i64 = 1_000_000;

/// The bands are in ascending frequency order, non-overlapping,
/// contiguous within the gap tolerance, each non-empty, and every
/// band's compressor parameters are in range.
pub open spec fn valid_bands(bands: Seq<BandParams>) -> bool {
    &&& forall|i: int| 0 <= i < bands.len() ==> (#[trigger] bands[i]).wf()
    &&& forall|i: int| 0 <= i < bands.len() ==> (#[trigger] bands[i]).low_freq < bands[i].high_freq
    &&& forall|i: int|
        1 <= i < bands.len() ==> bands[i - 1].high_freq <= (#[trigger] bands[i]).low_freq
            <= bands[i - 1].high_freq + GAP_TOLERANCE
}

/// One second-order bandpass section in direct form one, with its
/// coefficients and two samples of input and output history.
#[derive(Clone, Copy)]
pub struct BandFilter {
    /// Leading feed-forward coefficient.
    pub b0: i64,
    /// Middle feed-forward coefficient.
    pub b1: i64,
    /// Trailing feed-forward coefficient.
    pub b2: i64,
    /// First feedback coefficient.
    pub a1: i64,
    /// Second feedback coefficient.
    pub a2: i64,
    /// The previous input sample.
    pub x1: i64,
    /// The input sample before that.
    pub x2: i64,
    /// The previous output sample.
    pub y1: i64,
    /// The output sample before that.
    pub y2: i64,
}

/// One output of the direct-form difference equation, saturated to
/// the representable amplitude range.
pub open spec fn filter_out_sample_s(f: BandFilter, x: int) -> int {
    clamp_v(
        tdiv(
            (f.b0 as int) * x + (f.b1 as int) * (f.x1 as int) + (f.b2 as int) * (f.x2 as int) - (
            f.a1 as int) * (f.y1 as int) - (f.a2 as int) * (f.y2 as int),
            SCALE as int,
        ),
        AMP_LIMIT as int,
    )
}

/// The section after consuming one sample: histories shifted, the
/// coefficients untouched.
pub open spec fn filter_step_s(f: BandFilter, x: i64) -> BandFilter {
    BandFilter {
        b0: f.b0,
        b1: f.b1,
        b2: f.b2,
        a1: f.a1,
        a2: f.a2,
        x1: x,
        x2: f.x1,
        y1: filter_out_sample_s(f, x as int) as i64,
        y2: f.y1,
    }
}

/// The section after consuming the first `i` samples of `xs`.
pub open spec fn band_filter_state_s(f: BandFilter, xs: Seq<i64>, i: int) -> BandFilter
    decreases i,
{
    if i <= 0 {
        f
    } else {
        filter_step_s(band_filter_state_s(f, xs, i - 1), xs[i - 1])
    }
}

/// The section's output at index `i` of `xs`.
pub open spec fn band_filtered_s(f: BandFilter, xs: Seq<i64>, i: int) -> int {
    filter_out_sample_s(band_filter_state_s(f, xs, i), xs[i] as int)
}

/// The whole band-limited buffer the section produces from `xs`.
pub open spec fn band_filtered_seq_s(f: BandFilter, xs: Seq<i64>) -> Seq<i64> {
    Seq::new(xs.len(), |i: int| band_filtered_s(f, xs, i) as i64)
}

impl BandFilter {
    /// Coefficients bounded for the step arithmetic, history within
    /// the representable amplitude range.
    pub open spec fn wf(&self) -> bool {
        &&& -COEFF_LIMIT <= self.b0 <= COEFF_LIMIT
        &&& -COEFF_LIMIT <= self.b1 <= COEFF_LIMIT
        &&& -COEFF_LIMIT <= self.b2 <= COEFF_LIMIT
        &&& -COEFF_LIMIT <= self.a1 <= COEFF_LIMIT
        &&& -COEFF_LIMIT <= self.a2 <= COEFF_LIMIT
        &&& -AMP_LIMIT <= self.x1 <= AMP_LIMIT
        &&& -AMP_LIMIT <= self.x2 <= AMP_LIMIT
        &&& -AMP_LIMIT <= self.y1 <= AMP_LIMIT
        &&& -AMP_LIMIT <= self.y2 <= AMP_LIMIT
    }

    /// Advances the filter by one sample: the direct-form difference
    /// equation, with the output saturated to the representable range
    /// so an unstable parameterization cannot overflow.
    fn step(&mut self, x: i64) -> (y: i64)
        requires
            old(self).wf(),
            -AMP_LIMIT <= x <= AMP_LIMIT,
        ensures
            final(self).wf(),
            -AMP_LIMIT <= y <= AMP_LIMIT,
            y as int == filter_out_sample_s(*old(self), x as int),
            *final(self) == filter_step_s(*old(self), x),
    {
        proof {
            lemma_prod_bound(self.b0 as int, x as int, COEFF_LIMIT as int, AMP_LIMIT as int);
            lemma_prod_bound(self.b1 as int, self.x1 as int, COEFF_LIMIT as int, AMP_LIMIT as int);
            lemma_prod_bound(self.b2 as int, self.x2 as int, COEFF_LIMIT as int, AMP_LIMIT as int);
            lemma_prod_bound(self.a1 as int, self.y1 as int, COEFF_LIMIT as int, AMP_LIMIT as int);
            lemma_prod_bound(self.a2 as int, self.y2 as int, COEFF_LIMIT as int, AMP_LIMIT as int);
        }
        let acc: i128 = (self.b0 as i128) * (x as i128) + (self.b1 as i128) * (self.x1 as i128) + (
        self.b2 as i128) * (self.x2 as i128) - (self.a1 as i128) * (self.y1 as i128) - (
        self.a2 as i128) * (self.y2 as i128);
        let q = tdiv128(acc, SCALE as i128);
        proof {
            lemma_tdiv_bound(acc as int, SCALE as int, 2_000_000_000_000_000_000);
        }
        let y: i64 = if q > AMP_LIMIT as i128 {
            AMP_LIMIT
        } else if q < -(AMP_LIMIT as i128) {
            -AMP_LIMIT
        } else {
            q as i64
        };
        self.x2 = self.x1;
        self.x1 = x;
        self.y2 = self.y1;
        self.y1 = y;
        y
    }
}

/// The prewarped angular frequency, step for step: the pico-scale
/// angle, the small-angle tangent series or the saturated tangent,
/// and the rate scaling.
pub open spec fn prewarp_s(f: int, sr: int) -> int {
    let angle_p = tdiv(3_141_592_653_590 * f, sr);
    let t_p = if angle_p <= 150_000_000_000 {
        let x2 = tdiv(angle_p * angle_p, 1_000_000_000_000);
        let cubic = tdiv(angle_p * x2, 3_000_000_000_000);
        let x4 = tdiv(x2 * x2, 1_000_000_000_000);
        let quintic = tdiv(2 * angle_p * x4, 15_000_000_000_000);
        angle_p + cubic + quintic
    } else {
        let t = tan_q_s(tdiv(angle_p, 1_000_000));
        let t_pos = if t < 0 {
            0
        } else {
            t
        };
        t_pos * 1_000_000
    };
    tdiv(2 * sr * t_p, 1_000_000_000_000)
}

/// A non-negative angle wrapped into one signed turn.
pub open spec fn wrap_angle_s(w: int) -> int {
    let m = w % 6_283_185;
    if m > 3_141_593 {
        m - 6_283_185
    } else {
        m
    }
}

/// `-2 * c / a0` in micro-units.
pub open spec fn neg2_cos_over_s(c: int, a0: int) -> int {
    tdiv(-2 * c * 1_000_000, a0)
}

/// `num / a0` in micro-units.
pub open spec fn ratio_scaled_s(num: int, a0: int) -> int {
    tdiv(num * 1_000_000, a0)
}

/// The unity-gain correction at the center frequency, step for step:
/// the squared response's numerator and denominator, their guarded
/// quotient, and the saturated reciprocal square root.
pub open spec fn center_gain_s(b0: int, a1: int, a2: int, cw: int, c2w: int) -> int {
    let num_wide = (2 * (b0 * b0)) * (1_000_000 - c2w);
    let den_wide = 1_000_000_000_000_000_000 + (a1 * a1) * 1_000_000 + (a2 * a2) * 1_000_000 + 2 * (
    (a1 * 1_000_000 + a1 * a2) * cw) + 2 * ((a2 * 1_000_000) * c2w);
    let den = if den_wide < 1_000_000_000_000 {
        1_000_000_000_000
    } else {
        den_wide
    };
    let num = if num_wide < 0 {
        0
    } else {
        num_wide
    };
    let cg = tdiv(num * 1_000_000, den);
    let cg_floor = if cg < 1 {
        1
    } else {
        cg
    };
    let root = sqrt_floor(cg_floor * 1_000_000);
    let gc = tdiv(1_000_000_000_000, root);
    if gc > 64_000_000 {
        64_000_000
    } else {
        gc
    }
}

/// A numerator coefficient scaled by the correction and saturated to
/// the coefficient range.
pub open spec fn sat_coeff_s(c: int, correction: int) -> int {
    let w = tdiv(c * correction, 1_000_000);
    if w > 256_000_000 {
        256_000_000
    } else if w < -256_000_000 {
        -256_000_000
    } else {
        w
    }
}

/// The whole section design, step for step: clamped edges, prewarped
/// angular frequencies, the quality factor, the raw coefficients and
/// the unity-gain correction.  The result is the triple
/// `(b0, a1, a2)`; the remaining coefficients are `b1 == 0`,
/// `b2 == -b0` and `a0 == SCALE`.
pub open spec fn bw_design_s(low_freq: int, high_freq: int, sr: int) -> (int, int, int) {
    let nyq = qmul(sr, 490_000);
    let lo0 = if low_freq < 20_000_000 {
        20_000_000
    } else {
        low_freq
    };
    let lo = if lo0 > nyq {
        nyq
    } else {
        lo0
    };
    let lo_stretch = qmul(lo, 1_100_000);
    let hi0 = if high_freq < lo_stretch {
        lo_stretch
    } else {
        high_freq
    };
    let hi = if hi0 > nyq {
        nyq
    } else {
        hi0
    };
    let ol = prewarp_s(lo, sr);
    let oh = prewarp_s(hi, sr);
    let bw = if oh - ol < 1 {
        1
    } else {
        oh - ol
    };
    let w0 = sqrt_floor(ol * oh);
    let alpha_wide = tdiv(w0 * 1_000_000, bw);
    let alpha = if alpha_wide > 1_000_000_000 {
        1_000_000_000
    } else {
        alpha_wide
    };
    let a0 = 1_000_000 + alpha;
    let cw = cos_q_s(wrap_angle_s(w0));
    let c2w = cos_q_s(wrap_angle_s(2 * w0));
    let a1 = neg2_cos_over_s(cw, a0);
    let a2 = ratio_scaled_s(1_000_000 - alpha, a0);
    let b0_raw = tdiv(alpha * 1_000_000, a0);
    let b0_pre = qmul(b0_raw, 1_414_214);
    let correction = center_gain_s(b0_pre, a1, a2, cw, c2w);
    let b0 = sat_coeff_s(b0_pre, correction);
    (b0, a1, a2)
}

/// Designs the second-order bandpass section for one band: the edges
/// are clamped away from zero and Nyquist, prewarped through the
/// tangent, and the resulting coefficients are normalized to unity
/// gain at the band's geometric-mean center frequency and saturated to
/// the coefficient range.  The feedback coefficients come back
/// normalized, with the leading one exactly full scale.
pub fn butterworth_bandpass(low_freq: i64, high_freq: i64, sample_rate: i64) -> (r: (
    Vec<i64>,
    Vec<i64>,
))
    requires
        0 <= low_freq <= 1_000_000_000_000,
        0 <= high_freq <= 1_000_000_000_000,
        SCALE <= sample_rate <= 1_000_000_000_000,
    ensures
        r.0@.len() == 3,
        r.1@.len() == 3,
        r.1@[0] == SCALE,
        forall|i: int| 0 <= i < 3 ==> -COEFF_LIMIT <= #[trigger] r.0@[i] <= COEFF_LIMIT,
        forall|i: int| 0 <= i < 3 ==> -COEFF_LIMIT <= #[trigger] r.1@[i] <= COEFF_LIMIT,
        r.0@[0] as int == bw_design_s(low_freq as int, high_freq as int, sample_rate as int).0,
        r.0@[1] == 0i64,
        r.0@[2] as int == -bw_design_s(low_freq as int, high_freq as int, sample_rate as int).0,
        r.1@[1] as int == bw_design_s(low_freq as int, high_freq as int, sample_rate as int).1,
        r.1@[2] as int == bw_design_s(low_freq as int, high_freq as int, sample_rate as int).2,
{
    // clamp the edges into the numerically stable range
    let nyq_guard = mul_q(sample_rate, 490_000);
    proof {
        lemma_tdiv_sign((sample_rate as int) * 490_000, SCALE as int);
        lemma_tdiv_bound((sample_rate as int) * 490_000, SCALE as int, 490_000_000_000int);
    }
    let lo0 = if low_freq < 20_000_000 {
        20_000_000
    } else {
        low_freq
    };
    let lo = if lo0 > nyq_guard {
        nyq_guard
    } else {
        lo0
    };
    proof {
        lemma_tdiv_sign((lo as int) * 1_100_000, SCALE as int);
        lemma_prod_bound(lo as int, 1_100_000int, 1_000_000_000_000int, 1_100_000int);
        lemma_tdiv_bound((lo as int) * 1_100_000, SCALE as int, 1_100_000_000_000int);
    }
    let lo_stretch = mul_q(lo, 1_100_000);
    let hi0 = if high_freq < lo_stretch {
        lo_stretch
    } else {
        high_freq
    };
    let hi = if hi0 > nyq_guard {
        nyq_guard
    } else {
        hi0
    };
    // prewarp: omega = 2 * rate * tan(pi * f / rate)
    let omega_low = prewarp(lo, sample_rate);
    let omega_high = prewarp(hi, sample_rate);
    let bw: i64 = if omega_high - omega_low < 1 {
        1
    } else {
        omega_high - omega_low
    };
    proof {
        lemma_prod_bound(
            omega_low as int,
            omega_high as int,
            130_000_000_000_000int,
            130_000_000_000_000int,
        );
        lemma_tdiv_sign((omega_low as int) * (omega_high as int), 1);
        assert((omega_low as int) * (omega_high as int) >= 0) by (nonlinear_arith)
            requires
                omega_low >= 0,
                omega_high >= 0,
        ;
    }
    let w0_wide = isqrt128((omega_low as i128) * (omega_high as i128));
    proof {
        assert(w0_wide <= 130_000_000_000_000i128) by (nonlinear_arith)
            requires
                0 <= w0_wide,
                w0_wide * w0_wide <= 130_000_000_000_000i128 * 130_000_000_000_000i128,
        ;
        lemma_sqrt_floor_unique(
            w0_wide as int,
            (omega_low as int) * (omega_high as int),
        );
    }
    let w0: i64 = w0_wide as i64;
    // alpha = w0 / bw, saturated
    let alpha_wide = tdiv128((w0 as i128) * (SCALE as i128), bw as i128);
    proof {
        lemma_tdiv_sign((w0 as int) * (SCALE as int), bw as int);
        assert((w0 as int) * (SCALE as int) >= 0) by (nonlinear_arith)
            requires
                w0 >= 0,
        ;
    }
    let alpha: i64 = if alpha_wide > 1_000_000_000 {
        1_000_000_000
    } else {
        alpha_wide as i64
    };
    let a0 = SCALE + alpha;
    // the angle the design formulas take the cosine of, wrapped to one
    // turn
    let cw = cos_q(wrap_angle(w0));
    let c2w = cos_q(wrap_angle(2 * w0));
    let a1 = neg2_cos_over(cw, a0);
    let a2 = ratio_scaled(SCALE - alpha, a0);
    proof {
        lemma_tdiv_sign((alpha as int) * (SCALE as int), a0 as int);
        assert((alpha as int) * (SCALE as int) >= 0 && (alpha as int) * (SCALE as int) <= (
        a0 as int) * (SCALE as int)) by (nonlinear_arith)
            requires
                0 <= alpha < a0,
                SCALE >= 1,
        ;
        lemma_tdiv_bound((alpha as int) * (SCALE as int), a0 as int, SCALE as int);
    }
    let b0_raw = tdiv128((alpha as i128) * (SCALE as i128), a0 as i128) as i64;
    proof {
        lemma_prod_bound(b0_raw as int, 1_414_214int, SCALE as int, 1_414_214int);
        lemma_tdiv_bound((b0_raw as int) * 1_414_214, SCALE as int, 1_414_214_000_000int);
    }
    let b0_pre = mul_q(b0_raw, 1_414_214);
    // unity gain at the center frequency: divide by the square root of
    // the response's squared magnitude there
    let correction = center_gain_correction(b0_pre, a1, a2, cw, c2w);
    let b0 = sat_coeff(b0_pre, correction);
    let mut b: Vec<i64> = Vec::new();
    b.push(b0);
    b.push(0);
    b.push(-b0);
    let mut a: Vec<i64> = Vec::new();
    a.push(SCALE);
    a.push(a1);
    a.push(a2);
    (b, a)
}

/// Pi on the pico scale, for the prewarp angle.
const PI_P: i128 = 3_141_592_653_590;

/// `2 * rate * tan(pi * f / rate)` in micro-units, for a frequency at
/// or below half the rate.  Small angles take a pico-scale series for
/// the tangent so low band edges keep their precision.
fn prewarp(f: i64, sample_rate: i64) -> (r: i64)
    requires
        0 <= f,
        SCALE <= sample_rate <= 1_000_000_000_000,
        f as int <= tdiv((sample_rate as int) * 490_000, SCALE as int),
    ensures
        r as int == prewarp_s(f as int, sample_rate as int),
        0 <= r <= 130_000_000_000_000,
{
    proof {
        lemma_prod_bound(PI_P as int, f as int, 3_141_592_653_590int, 1_000_000_000_000int);
        lemma_tdiv_sign(PI_P as int * (f as int), sample_rate as int);
        assert(PI_P as int * (f as int) >= 0) by (nonlinear_arith)
            requires
                f >= 0,
        ;
        lemma_tdiv_bound(
            (sample_rate as int) * 490_000,
            SCALE as int,
            490_000_000_000int,
        );
        assert(PI_P as int * (f as int) <= 1_540_000_000_000int * (sample_rate as int))
            by (nonlinear_arith)
            requires
                0 <= f,
                f as int * (SCALE as int) <= (sample_rate as int) * 490_000,
                SCALE == 1_000_000i64,
        ;
        lemma_tdiv_bound(PI_P as int * (f as int), sample_rate as int, 1_540_000_000_000int);
    }
    let angle_p = tdiv128(PI_P * (f as i128), sample_rate as i128);
    let t_p: i128 = if angle_p <= 150_000_000_000 {
        // tan x ~ x + x^3 / 3 + 2 x^5 / 15 on the pico scale
        proof {
            lemma_prod_bound(angle_p as int, angle_p as int, 150_000_000_000int, 150_000_000_000int);
            lemma_tdiv_sign(angle_p as int * (angle_p as int), 1_000_000_000_000int);
            assert(angle_p as int * (angle_p as int) >= 0) by (nonlinear_arith);
            lemma_tdiv_bound(
                angle_p as int * (angle_p as int),
                1_000_000_000_000int,
                22_500_000_000int,
            );
        }
        let x2 = tdiv128(angle_p * angle_p, 1_000_000_000_000);
        proof {
            lemma_prod_bound(angle_p as int, x2 as int, 150_000_000_000int, 22_500_000_000int);
            lemma_tdiv_sign(angle_p as int * (x2 as int), 3_000_000_000_000int);
            assert(angle_p as int * (x2 as int) >= 0) by (nonlinear_arith)
                requires
                    angle_p >= 0,
                    x2 >= 0,
            ;
            lemma_tdiv_bound(
                angle_p as int * (x2 as int),
                3_000_000_000_000int,
                1_200_000_000int,
            );
            lemma_prod_bound(x2 as int, x2 as int, 22_500_000_000int, 22_500_000_000int);
            lemma_tdiv_sign(x2 as int * (x2 as int), 1_000_000_000_000int);
            assert(x2 as int * (x2 as int) >= 0) by (nonlinear_arith);
            lemma_tdiv_bound(x2 as int * (x2 as int), 1_000_000_000_000int, 600_000_000int);
        }
        let cubic = tdiv128(angle_p * x2, 3_000_000_000_000);
        let x4 = tdiv128(x2 * x2, 1_000_000_000_000);
        proof {
            lemma_prod_bound(
                (2 * angle_p) as int,
                x4 as int,
                300_000_000_000int,
                600_000_000int,
            );
            lemma_tdiv_sign((2 * angle_p) as int * (x4 as int), 15_000_000_000_000int);
            assert((2 * angle_p) as int * (x4 as int) >= 0) by (nonlinear_arith)
                requires
                    angle_p >= 0,
                    x4 >= 0,
            ;
            lemma_tdiv_bound(
                (2 * angle_p) as int * (x4 as int),
                15_000_000_000_000int,
                12_000_000int,
            );
        }
        let quintic = tdiv128((2 * angle_p) * x4, 15_000_000_000_000);
        angle_p + cubic + quintic
    } else {
        let am = tdiv128(angle_p, 1_000_000);
        proof {
            lemma_tdiv_sign(angle_p as int, 1_000_000);
            lemma_tdiv_bound(angle_p as int, 1_000_000, 1_540_000int);
        }
        let t = tan_q(am as i64);
        let t_pos: i64 = if t < 0 {
            0
        } else {
            t
        };
        (t_pos as i128) * 1_000_000
    };
    proof {
        lemma_prod_bound(
            (2 * sample_rate as int),
            t_p as int,
            2_000_000_000_000int,
            64_000_000_000_000int,
        );
        lemma_tdiv_sign((2 * sample_rate as int) * (t_p as int), 1_000_000_000_000int);
        assert((2 * (sample_rate as int)) * (t_p as int) >= 0) by (nonlinear_arith)
            requires
                sample_rate >= 0,
                t_p >= 0,
        ;
        lemma_tdiv_bound(
            (2 * sample_rate as int) * (t_p as int),
            1_000_000_000_000int,
            128_000_000_000_000int,
        );
    }
    let wide = tdiv128((2 * (sample_rate as i128)) * t_p, 1_000_000_000_000);
    wide as i64
}

/// Wraps a non-negative angle into `[-PI_Q, PI_Q]`.
fn wrap_angle(w: i64) -> (r: i64)
    requires
        0 <= w,
    ensures
        r as int == wrap_angle_s(w as int),
        -PI_Q <= r <= PI_Q,
{
    let m = w % TWO_PI_Q;
    if m > PI_Q {
        m - TWO_PI_Q
    } else {
        m
    }
}

/// `-2 * c / a0` in micro-units, for a cosine `c` and a positive
/// normalizer.
fn neg2_cos_over(c: i64, a0: i64) -> (r: i64)
    requires
        -SCALE <= c <= SCALE,
        SCALE <= a0,
    ensures
        r as int == neg2_cos_over_s(c as int, a0 as int),
        -2_000_000 <= r <= 2_000_000,
{
    proof {
        lemma_abs_mul(-2 * c as int, SCALE as int);
        assert(abs_v(-2 * c as int) * (SCALE as int) <= 2_000_000int * (a0 as int))
            by (nonlinear_arith)
            requires
                -SCALE <= c <= SCALE,
                a0 >= SCALE,
                SCALE == 1_000_000i64,
        ;
        lemma_tdiv_bound((-2 * c as int) * (SCALE as int), a0 as int, 2_000_000int);
    }
    let wide = tdiv128(((-2 * c) as i128) * (SCALE as i128), a0 as i128);
    wide as i64
}

/// `num / a0` in micro-units, for a numerator no larger than the
/// normalizer in magnitude.
fn ratio_scaled(num: i64, a0: i64) -> (r: i64)
    requires
        SCALE <= a0,
        -a0 <= num <= a0,
    ensures
        r as int == ratio_scaled_s(num as int, a0 as int),
        -SCALE <= r <= SCALE,
{
    proof {
        lemma_abs_mul(num as int, SCALE as int);
        assert(abs_v(num as int) * (SCALE as int) <= (SCALE as int) * (a0 as int))
            by (nonlinear_arith)
            requires
                -a0 <= num <= a0,
                SCALE >= 1,
        ;
        lemma_tdiv_bound((num as int) * (SCALE as int), a0 as int, SCALE as int);
    }
    let wide = tdiv128((num as i128) * (SCALE as i128), a0 as i128);
    wide as i64
}

/// The gain correction that normalizes the section to unity at the
/// center frequency: the reciprocal square root of the squared
/// magnitude response there, saturated to a sixty-four-fold boost.
fn center_gain_correction(b0: i64, a1: i64, a2: i64, cw: i64, c2w: i64) -> (r: i64)
    requires
        -2_000_000 <= b0 <= 2_000_000,
        -2_000_000 <= a1 <= 2_000_000,
        -SCALE <= a2 <= SCALE,
        -SCALE <= cw <= SCALE,
        -SCALE <= c2w <= SCALE,
    ensures
        r as int == center_gain_s(b0 as int, a1 as int, a2 as int, cw as int, c2w as int),
        0 <= r <= 64_000_000,
{
    // the bandpass numerator is b * (1, 0, -1): its squared response
    // is 2 b0^2 (1 - cos(2 w0))
    let b0w = b0 as i128;
    let a1w = a1 as i128;
    let a2w = a2 as i128;
    proof {
        lemma_prod_bound(b0w as int, b0w as int, 2_000_000int, 2_000_000int);
    }
    let b0sq: i128 = b0w * b0w;
    proof {
        lemma_prod_bound(
            (2 * b0sq) as int,
            (SCALE as i128 - c2w as i128) as int,
            8_000_000_000_000int,
            2_000_000int,
        );
    }
    let num_wide: i128 = (2 * b0sq) * ((SCALE as i128) - (c2w as i128));
    // denominator: 1 + a1^2 + a2^2 + 2 (a1 + a1 a2) cos(w0) + 2 a2 cos(2 w0)
    proof {
        lemma_prod_bound(a1w as int, a1w as int, 2_000_000int, 2_000_000int);
        lemma_prod_bound(a2w as int, a2w as int, 1_000_000int, 1_000_000int);
        lemma_prod_bound(a1w as int, a2w as int, 2_000_000int, 1_000_000int);
    }
    let a1sq: i128 = a1w * a1w;
    let a2sq: i128 = a2w * a2w;
    let a1a2: i128 = a1w * a2w;
    proof {
        lemma_prod_bound(
            (a1w * (SCALE as i128) + a1a2) as int,
            cw as int,
            4_000_000_000_000int,
            1_000_000int,
        );
        lemma_prod_bound(
            (a2w * (SCALE as i128)) as int,
            c2w as int,
            1_000_000_000_000int,
            1_000_000int,
        );
    }
    let den_mid: i128 = 2 * ((a1w * (SCALE as i128) + a1a2) * (cw as i128));
    let den_last: i128 = 2 * ((a2w * (SCALE as i128)) * (c2w as i128));
    let den_wide: i128 = 1_000_000_000_000_000_000 + a1sq * (SCALE as i128) + a2sq * (
    SCALE as i128) + den_mid + den_last;
    let den: i128 = if den_wide < 1_000_000_000_000 {
        1_000_000_000_000
    } else {
        den_wide
    };
    let num: i128 = if num_wide < 0 {
        0
    } else {
        num_wide
    };
    // squared gain in micro-units
    proof {
        lemma_prod_bound(
            num as int,
            SCALE as int,
            20_000_000_000_000_000_000int,
            SCALE as int,
        );
    }
    let cg = tdiv128(num * (SCALE as i128), den);
    proof {
        lemma_tdiv_sign(num as int * (SCALE as int), den as int);
        lemma_tdiv_bound(num as int * (SCALE as int), den as int, 1_000_000_000_000_000int);
        assert(num as int * (SCALE as int) >= 0) by (nonlinear_arith)
            requires
                num >= 0,
        ;
        assert(num as int * (SCALE as int) <= 1_000_000_000_000_000int * (den as int))
            by (nonlinear_arith)
            requires
                0 <= num <= 20_000_000_000_000_000_000i128,
                den >= 1_000_000_000_000i128,
                SCALE == 1_000_000i64,
        ;
    }
    let cg_floor: i128 = if cg < 1 {
        1
    } else {
        cg
    };
    // reciprocal square root, in micro-units
    let root = isqrt128(cg_floor * (SCALE as i128));
    proof {
        lemma_sqrt_floor_unique(root as int, (cg_floor as int) * (SCALE as int));
        assert(root >= 1) by (nonlinear_arith)
            requires
                0 <= root,
                cg_floor * (SCALE as i128) >= 1,
                (root + 1) * (root + 1) > cg_floor * (SCALE as i128),
        ;
        lemma_tdiv_sign((SCALE as int) * (SCALE as int), root as int);
        lemma_prod_bound(SCALE as int, SCALE as int, SCALE as int, SCALE as int);
        assert((SCALE as int) * (SCALE as int) >= 0) by (nonlinear_arith);
    }
    let gc_wide = tdiv128((SCALE as i128) * (SCALE as i128), root);
    if gc_wide > 64_000_000 {
        64_000_000
    } else {
        gc_wide as i64
    }
}

/// A numerator coefficient scaled by the gain correction and saturated
/// to the coefficient range.
fn sat_coeff(c: i64, correction: i64) -> (r: i64)
    requires
        -2_000_000 <= c <= 2_000_000,
        0 <= correction <= 64_000_000,
    ensures
        r as int == sat_coeff_s(c as int, correction as int),
        -COEFF_LIMIT <= r <= COEFF_LIMIT,
{
    proof {
        lemma_prod_bound(c as int, correction as int, 2_000_000int, 64_000_000int);
        lemma_tdiv_bound((c as int) * (correction as int), SCALE as int, 128_000_000int);
    }
    let wide = tdiv128((c as i128) * (correction as i128), SCALE as i128);
    let w: i64 = wide as i64;
    if w > COEFF_LIMIT {
        COEFF_LIMIT
    } else if w < -COEFF_LIMIT {
        -COEFF_LIMIT
    } else {
        w
    }
}

/// One band's compressed output: the band-limited signal through the
/// RMS compressor with that band's settings, from the given envelope
/// and gain state; a bypass threshold leaves the band-limited signal
/// as it is.
pub open spec fn mb_band_out_s(
    f: BandFilter,
    p: BandParams,
    e0: int,
    g0: int,
    xs: Seq<i64>,
    sr: int,
) -> Seq<i64> {
    let filtered = band_filtered_seq_s(f, xs);
    if p.threshold == DB_BYPASS {
        filtered
    } else {
        Seq::new(
            xs.len(),
            |i: int|
                comp_out_s(
                    filtered,
                    p.threshold as int,
                    comp_inv_ratio_s(p.ratio as int),
                    smoothing_coeff_s(p.attack_ms as int, sr),
                    smoothing_coeff_s(p.release_ms as int, sr),
                    e0,
                    g0,
                    i,
                ) as i64,
        )
    }
}

/// One band's envelope and gain after the buffer: advanced through
/// the compressor recursion, or untouched on a bypass threshold.
pub open spec fn mb_band_comp_state_s(
    f: BandFilter,
    p: BandParams,
    e0: int,
    g0: int,
    xs: Seq<i64>,
    sr: int,
) -> (int, int) {
    if p.threshold == DB_BYPASS {
        (e0, g0)
    } else {
        comp_state_s(
            band_filtered_seq_s(f, xs),
            p.threshold as int,
            comp_inv_ratio_s(p.ratio as int),
            smoothing_coeff_s(p.attack_ms as int, sr),
            smoothing_coeff_s(p.release_ms as int, sr),
            e0,
            g0,
            xs.len() as int,
        )
    }
}

/// One band mixed into the running sum, saturating each sample to the
/// representable range.
pub open spec fn mb_mix_s(acc: Seq<i64>, band: Seq<i64>) -> Seq<i64> {
    Seq::new(acc.len(), |i: int| clamp_v(acc[i] as int + band[i] as int, AMP_LIMIT as int) as i64)
}

/// The running sum after the first `b` bands.
pub open spec fn mb_acc_s(
    filters: Seq<BandFilter>,
    bands: Seq<BandParams>,
    envs: Seq<i64>,
    gains: Seq<i64>,
    xs: Seq<i64>,
    sr: int,
    b: int,
) -> Seq<i64>
    decreases b,
{
    if b <= 0 {
        Seq::new(xs.len(), |i: int| 0i64)
    } else {
        mb_mix_s(
            mb_acc_s(filters, bands, envs, gains, xs, sr, b - 1),
            mb_band_out_s(
                filters[b - 1],
                bands[b - 1],
                envs[b - 1] as int,
                gains[b - 1] as int,
                xs,
                sr,
            ),
        )
    }
}

/// The multiband compressor: per-band bandpass filters with their
/// history, the per-band compressor settings, and each band's
/// envelope and gain, kept alive across calls so one stream's
/// dynamics are continuous from buffer to buffer.
pub struct MultibandCompressor {
    sample_rate: i64,
    bands: Vec<BandParams>,
    filters: Vec<BandFilter>,
    envelopes: Vec<i64>,
    gains: Vec<i64>,
}

impl MultibandCompressor {
    /// One filter and one envelope/gain pair per band, all in range,
    /// and a sample rate the compressor arithmetic accepts.
    pub closed spec fn wf(&self) -> bool {
        &&& self.filters@.len() == self.bands@.len()
        &&& self.envelopes@.len() == self.bands@.len()
        &&& self.gains@.len() == self.bands@.len()
        &&& forall|i: int| 0 <= i < self.filters@.len() ==> (#[trigger] self.filters@[i]).wf()
        &&& forall|i: int| 0 <= i < self.envelopes@.len() ==> 0 <= #[trigger] self.envelopes@[i]
            <= 1_000_000_000_000_000_000
        &&& forall|i: int| 0 <= i < self.gains@.len() ==> 0 <= #[trigger] self.gains@[i] <= SCALE
        &&& valid_bands(self.bands@)
        &&& SCALE <= self.sample_rate <= 1_000_000_000_000
    }

    /// The configured bands.
    pub closed spec fn bands_spec(&self) -> Seq<BandParams> {
        self.bands@
    }

    /// The configured sample rate.
    pub closed spec fn sample_rate_spec(&self) -> int {
        self.sample_rate as int
    }

    /// The per-band filter sections, with their current history.
    pub closed spec fn filters_spec(&self) -> Seq<BandFilter> {
        self.filters@
    }

    /// The per-band compressor envelopes.
    pub closed spec fn envelopes_spec(&self) -> Seq<i64> {
        self.envelopes@
    }

    /// The per-band smoothed compressor gains.
    pub closed spec fn gains_spec(&self) -> Seq<i64> {
        self.gains@
    }

    /// Builds the crossover bank from a band partition sorted by
    /// frequency.  As in the band check the caller must supply bands
    /// in ascending order, non-overlapping and contiguous; each
    /// band's section is designed from the previous band's upper edge
    /// to its own, and every band starts with a silent envelope and a
    /// unity gain.
    pub fn new(bands: Vec<BandParams>, sample_rate: i64) -> (r: MultibandCompressor)
        requires
            valid_bands(bands@),
            SCALE <= sample_rate <= 1_000_000_000_000,
        ensures
            r.wf(),
            r.bands_spec() == bands@,
            r.sample_rate_spec() == sample_rate as int,
            forall|i: int| 0 <= i < bands@.len() ==> #[trigger] r.envelopes_spec()[i] == 0i64,
            forall|i: int| 0 <= i < bands@.len() ==> #[trigger] r.gains_spec()[i] == SCALE,
    {
        let n = bands.len();
        let mut filters: Vec<BandFilter> = Vec::new();
        let mut envelopes: Vec<i64> = Vec::new();
        let mut gains: Vec<i64> = Vec::new();
        let mut i: usize = 0;
        while i < n
            invariant
                0 <= i <= n,
                n == bands@.len(),
                valid_bands(bands@),
                SCALE <= sample_rate <= 1_000_000_000_000,
                filters@.len() == i,
                envelopes@.len() == i,
                gains@.len() == i,
                forall|j: int| 0 <= j < i ==> (#[trigger] filters@[j]).wf(),
                forall|j: int| 0 <= j < i ==> #[trigger] envelopes@[j] == 0i64,
                forall|j: int| 0 <= j < i ==> #[trigger] gains@[j] == SCALE,
            decreases n - i,
        {
            let low: i64 = if i == 0 {
                0
            } else {
                bands[i - 1].high_freq
            };
            let high = bands[i].high_freq;
            proof {
                assert(bands@[i as int].wf());
                if i > 0 {
                    assert(bands@[i as int - 1].wf());
                }
            }
            let (bc, ac) = butterworth_bandpass(low, high, sample_rate);
            let f = BandFilter {
                b0: bc[0],
                b1: bc[1],
                b2: bc[2],
                a1: ac[1],
                a2: ac[2],
                x1: 0,
                x2: 0,
                y1: 0,
                y2: 0,
            };
            filters.push(f);
            envelopes.push(0);
            gains.push(SCALE);
            i = i + 1;
        }
        MultibandCompressor { sample_rate, bands, filters, envelopes, gains }
    }

    /// Splits the input into its bands, compresses each band with its
    /// own settings from that band's persisted envelope and gain, and
    /// sums the bands back together, saturating the sum to the
    /// representable range.
    ///
    /// The output equals the band-by-band composition `mb_acc_s` over
    /// the state held at entry, and the filter histories and the
    /// per-band envelopes and gains advance for the next buffer of
    /// the stream.
    #[verifier::rlimit(100)]
    pub fn process(&mut self, input: &Vec<i64>) -> (r: Vec<i64>)
        requires
            old(self).wf(),
            wf_buf(input@),
        ensures
            final(self).wf(),
            final(self).bands_spec() == old(self).bands_spec(),
            final(self).sample_rate_spec() == old(self).sample_rate_spec(),
            r@.len() == input@.len(),
            wf_buf(r@),
            r@ == mb_acc_s(
                old(self).filters_spec(),
                old(self).bands_spec(),
                old(self).envelopes_spec(),
                old(self).gains_spec(),
                input@,
                old(self).sample_rate_spec(),
                old(self).bands_spec().len() as int,
            ),
            forall|b: int|
                0 <= b < old(self).bands_spec().len() ==> #[trigger] final(self).filters_spec()[b]
                    == band_filter_state_s(
                    old(self).filters_spec()[b],
                    input@,
                    input@.len() as int,
                ),
            forall|b: int|
                0 <= b < old(self).bands_spec().len() ==> (
                #[trigger] final(self).envelopes_spec()[b] as int,
                final(self).gains_spec()[b] as int,
                ) == mb_band_comp_state_s(
                    old(self).filters_spec()[b],
                    old(self).bands_spec()[b],
                    old(self).envelopes_spec()[b] as int,
                    old(self).gains_spec()[b] as int,
                    input@,
                    old(self).sample_rate_spec(),
                ),
    {
        let ghost filters0 = self.filters@;
        let ghost bands0 = self.bands@;
        let ghost envs0 = self.envelopes@;
        let ghost gains0 = self.gains@;
        let ghost sr0 = self.sample_rate as int;
        let n = input.len();
        let mut output: Vec<i64> = Vec::new();
        let mut k: usize = 0;
        while k < n
            invariant
                output@.len() == k,
                0 <= k <= n,
                forall|j: int| 0 <= j < k ==> #[trigger] output@[j] == 0i64,
            decreases n - k,
        {
            output.push(0);
            k = k + 1;
        }
        proof {
            assert(output@ =~= mb_acc_s(filters0, bands0, envs0, gains0, input@, sr0, 0));
        }
        let num_bands = self.bands.len();
        let mut band: usize = 0;
        while band < num_bands
            invariant
                0 <= band <= num_bands,
                num_bands == self.bands@.len(),
                self.wf(),
                self.bands@ == bands0,
                self.sample_rate as int == sr0,
                bands0 == old(self).bands@,
                filters0 == old(self).filters@,
                envs0 == old(self).envelopes@,
                gains0 == old(self).gains@,
                sr0 == old(self).sample_rate as int,
                wf_buf(input@),
                n == input@.len(),
                output@.len() == n,
                wf_buf(output@),
                output@ == mb_acc_s(filters0, bands0, envs0, gains0, input@, sr0, band as int),
                forall|b: int| band <= b < num_bands ==> #[trigger] self.filters@[b] == filters0[b],
                forall|b: int|
                    band <= b < num_bands ==> #[trigger] self.envelopes@[b] == envs0[b],
                forall|b: int| band <= b < num_bands ==> #[trigger] self.gains@[b] == gains0[b],
                forall|b: int|
                    0 <= b < band ==> #[trigger] self.filters@[b] == band_filter_state_s(
                        filters0[b],
                        input@,
                        n as int,
                    ),
                forall|b: int|
                    0 <= b < band ==> (
                    #[trigger] self.envelopes@[b] as int,
                    self.gains@[b] as int,
                    ) == mb_band_comp_state_s(
                        filters0[b],
                        bands0[b],
                        envs0[b] as int,
                        gains0[b] as int,
                        input@,
                        sr0,
                    ),
            decreases num_bands - band,
        {
            // band-limit the signal through this band's filter
            let mut filtered: Vec<i64> = Vec::new();
            let mut i: usize = 0;
            while i < n
                invariant
                    0 <= i <= n,
                    n == input@.len(),
                    wf_buf(input@),
                    filtered@.len() == i,
                    wf_buf(filtered@),
                    0 <= band < self.bands@.len(),
                    num_bands == self.bands@.len(),
                    self.wf(),
                    self.bands@ == bands0,
                    self.sample_rate as int == sr0,
                    self.filters@[band as int] == band_filter_state_s(
                        filters0[band as int],
                        input@,
                        i as int,
                    ),
                    forall|j: int| 0 <= j < i ==> #[trigger] filtered@[j] as int
                        == band_filtered_s(filters0[band as int], input@, j),
                    forall|b: int|
                        band < b < num_bands ==> #[trigger] self.filters@[b] == filters0[b],
                    forall|b: int|
                        band <= b < num_bands ==> #[trigger] self.envelopes@[b] == envs0[b],
                    forall|b: int|
                        band <= b < num_bands ==> #[trigger] self.gains@[b] == gains0[b],
                    forall|b: int|
                        0 <= b < band ==> #[trigger] self.filters@[b] == band_filter_state_s(
                            filters0[b],
                            input@,
                            n as int,
                        ),
                    forall|b: int|
                        0 <= b < band ==> (
                        #[trigger] self.envelopes@[b] as int,
                        self.gains@[b] as int,
                        ) == mb_band_comp_state_s(
                            filters0[b],
                            bands0[b],
                            envs0[b] as int,
                            gains0[b] as int,
                            input@,
                            sr0,
                        ),
                    output@.len() == n,
                    wf_buf(output@),
                    output@ == mb_acc_s(filters0, bands0, envs0, gains0, input@, sr0, band as int),
                decreases n - i,
            {
                let x = input[i];
                proof {
                    assert(-AMP_LIMIT <= input@[i as int] <= AMP_LIMIT);
                    assert(self.filters@[band as int].wf());
                }
                let mut f = self.filters[band];
                let y = f.step(x);
                self.filters.set(band, f);
                proof {
                    assert(forall|m: int|
                        0 <= m < self.filters@.len() ==> (#[trigger] self.filters@[m]).wf());
                    assert(-AMP_LIMIT <= band_filtered_s(filters0[band as int], input@, i as int)
                        <= AMP_LIMIT);
                }
                filtered.push(y);
                i = i + 1;
            }
            proof {
                assert(filtered@ =~= band_filtered_seq_s(filters0[band as int], input@));
                assert(self.bands@[band as int].wf());
            }
            // compress this band with its own settings, carrying its
            // envelope and gain across calls
            let params = self.bands[band];
            let mut env: i64 = self.envelopes[band];
            let mut gn: i64 = self.gains[band];
            let compressed = compress_rms_with_state(
                &filtered,
                params.threshold,
                params.ratio,
                params.attack_ms,
                params.release_ms,
                self.sample_rate,
                &mut env,
                &mut gn,
            );
            self.envelopes.set(band, env);
            self.gains.set(band, gn);
            proof {
                assert((env as int, gn as int) == mb_band_comp_state_s(
                    filters0[band as int],
                    bands0[band as int],
                    envs0[band as int] as int,
                    gains0[band as int] as int,
                    input@,
                    sr0,
                ));
                assert(compressed@ =~= mb_band_out_s(
                    filters0[band as int],
                    bands0[band as int],
                    envs0[band as int] as int,
                    gains0[band as int] as int,
                    input@,
                    sr0,
                ));
            }
            let ghost acc0 = output@;
            // mix the band into the output
            let mut j: usize = 0;
            while j < n
                invariant
                    0 <= j <= n,
                    n == input@.len(),
                    output@.len() == n,
                    acc0.len() == n,
                    wf_buf(acc0),
                    compressed@.len() == n,
                    wf_buf(compressed@),
                    forall|m: int| 0 <= m < j ==> #[trigger] output@[m] as int == clamp_v(
                        acc0[m] as int + compressed@[m] as int,
                        AMP_LIMIT as int,
                    ),
                    forall|m: int| j <= m < n ==> #[trigger] output@[m] == acc0[m],
                decreases n - j,
            {
                let sum = output[j] + compressed[j];
                let clamped = clamp64(sum, AMP_LIMIT);
                output.set(j, clamped);
                j = j + 1;
            }
            proof {
                assert(output@ =~= mb_mix_s(
                    acc0,
                    mb_band_out_s(
                        filters0[band as int],
                        bands0[band as int],
                        envs0[band as int] as int,
                        gains0[band as int] as int,
                        input@,
                        sr0,
                    ),
                ));
                assert(output@ == mb_acc_s(
                    filters0,
                    bands0,
                    envs0,
                    gains0,
                    input@,
                    sr0,
                    band as int + 1,
                ));
                assert(forall|m: int|
                    0 <= m < output@.len() ==> -AMP_LIMIT <= #[trigger] output@[m] <= AMP_LIMIT);
            }
            band = band + 1;
        }
        output
    }
}

} // verus!
