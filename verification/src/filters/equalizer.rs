//! A three-band parametric equalizer: a low shelf, a peaking section
//! and a high shelf in series, each a second-order filter, with a
//! soft clip that keeps every output sample inside full scale.

use vstd::prelude::*;
use crate::fixed::SCALE;
use crate::fixed::AMP_LIMIT;
use crate::fixed::abs_v;
use crate::fixed::abs64;
use crate::fixed::tdiv128;
use crate::fixed::wf_buf;
use crate::fixed::max_abs;
use crate::fixed::peak_abs;
use crate::fixed::isqrt128;
use crate::fixed::mul_q;
use crate::fixed::lemma_abs_mul;
use crate::fixed::lemma_prod_bound;
use crate::fixed::lemma_tdiv_bound;
use crate::fixed::lemma_tdiv_sign;
use crate::fixed::lemma_max_abs_ge_elem;
use crate::math::tanh_q;
use crate::math::db_to_linear;
use crate::utils::hz_to_radians;

verus! {

/// Largest magnitude an equalizer coefficient may take, in micro-units.
const EQ_COEFF_LIMIT: i64 = 64_000_000;

/// The frequency bands of the equalizer.
#[derive(Debug, Clone, Copy, PartialEq)]
pub enum Band {
    /// Below about 250 Hz.
    Low,
    /// The middle of the spectrum.
    Mid,
    /// Above about 2500 Hz.
    High,
}

/// One second-order section in direct form one.
#[derive(Clone, Copy)]
struct Section {
    b0: i64,
    b1: i64,
    b2: i64,
    a1: i64,
    a2: i64,
    x1: i64,
    x2: i64,
    y1: i64,
    y2: i64,
}

impl Section {
    /// Coefficients and history within the step arithmetic's ranges.
    spec fn wf(&self) -> bool {
        &&& -EQ_COEFF_LIMIT <= self.b0 <= EQ_COEFF_LIMIT
        &&& -EQ_COEFF_LIMIT <= self.b1 <= EQ_COEFF_LIMIT
        &&& -EQ_COEFF_LIMIT <= self.b2 <= EQ_COEFF_LIMIT
        &&& -EQ_COEFF_LIMIT <= self.a1 <= EQ_COEFF_LIMIT
        &&& -EQ_COEFF_LIMIT <= self.a2 <= EQ_COEFF_LIMIT
        &&& -AMP_LIMIT <= self.x1 <= AMP_LIMIT
        &&& -AMP_LIMIT <= self.x2 <= AMP_LIMIT
        &&& -AMP_LIMIT <= self.y1 <= AMP_LIMIT
        &&& -AMP_LIMIT <= self.y2 <= AMP_LIMIT
    }

    /// One sample through the section, output saturated to the
    /// representable range.
    fn step(&mut self, x: i64) -> (y: i64)
        requires
            old(self).wf(),
            -AMP_LIMIT <= x <= AMP_LIMIT,
        ensures
            final(self).wf(),
            -AMP_LIMIT <= y <= AMP_LIMIT,
    {
        proof {
            lemma_prod_bound(self.b0 as int, x as int, EQ_COEFF_LIMIT as int, AMP_LIMIT as int);
            lemma_prod_bound(
                self.b1 as int,
                self.x1 as int,
                EQ_COEFF_LIMIT as int,
                AMP_LIMIT as int,
            );
            lemma_prod_bound(
                self.b2 as int,
                self.x2 as int,
                EQ_COEFF_LIMIT as int,
                AMP_LIMIT as int,
            );
            lemma_prod_bound(
                self.a1 as int,
                self.y1 as int,
                EQ_COEFF_LIMIT as int,
                AMP_LIMIT as int,
            );
            lemma_prod_bound(
                self.a2 as int,
                self.y2 as int,
                EQ_COEFF_LIMIT as int,
                AMP_LIMIT as int,
            );
        }
        let acc: i128 = (self.b0 as i128) * (x as i128) + (self.b1 as i128) * (self.x1 as i128) + (
        self.b2 as i128) * (self.x2 as i128) - (self.a1 as i128) * (self.y1 as i128) - (
        self.a2 as i128) * (self.y2 as i128);
        let q = tdiv128(acc, SCALE as i128);
        proof {
            lemma_tdiv_bound(acc as int, SCALE as int, 1_000_000_000_000_000_000);
        }
        let y: i64 = if q > AMP_LIMIT as i128 {
            AMP_LIMIT
        } else if q < -(AMP_LIMIT as i128) {
            -AMP_LIMIT
        } else {
            q as i64
        };
        self.x2 = self.x1;
        self.x1 = x;
        self.y2 = self.y1;
        self.y1 = y;
        y
    }
}

/// Saturates a wide coefficient value into the equalizer's range.
fn sat_eq_coeff(v: i128) -> (r: i64)
    ensures
        -EQ_COEFF_LIMIT <= r <= EQ_COEFF_LIMIT,
{
    if v > EQ_COEFF_LIMIT as i128 {
        EQ_COEFF_LIMIT
    } else if v < -(EQ_COEFF_LIMIT as i128) {
        -EQ_COEFF_LIMIT
    } else {
        v as i64
    }
}

/// `num * SCALE / den` with the divisor floored at one micro-unit and
/// the result saturated to the coefficient range.
fn coeff_div(num: i128, den: i128) -> (r: i64)
    requires
        -1_000_000_000_000_000_000_000 <= num <= 1_000_000_000_000_000_000_000,
    ensures
        -EQ_COEFF_LIMIT <= r <= EQ_COEFF_LIMIT,
{
    let d: i128 = if den < 1 {
        1
    } else {
        den
    };
    proof {
        lemma_prod_bound(
            num as int,
            SCALE as int,
            1_000_000_000_000_000_000_000,
            SCALE as int,
        );
    }
    let q = tdiv128(num * (SCALE as i128), d);
    sat_eq_coeff(q)
}

/// The amplitude ratio of half the gain: ten to the power
/// `gain / (40 * SCALE)`, the quantity the shelf formulas call `A`.
fn half_db_amplitude(gain_db: i64) -> (r: i64)
    requires
        -13_000_000 <= gain_db <= 13_000_000,
    ensures
        1 <= r <= 9_000_000_000_000,
{
    let half = gain_db / 2;
    let a = db_to_linear(half);
    if a < 1 {
        1
    } else {
        a
    }
}

/// Designs one section from the standard second-order filter recipes.
/// The kind selects the shelf or peaking shape; the returned section
/// starts with silent history.
fn design_section(kind: Band, sample_rate: i64, gain_db: i64) -> (r: Section)
    requires
        SCALE <= sample_rate <= 1_000_000_000_000,
        -13_000_000 <= gain_db <= 13_000_000,
    ensures
        r.wf(),
        r.x1 == 0 && r.x2 == 0 && r.y1 == 0 && r.y2 == 0,
{
    // the corner or center frequency of the section
    let freq: i64 = match kind {
        Band::Low => 250_000_000,
        Band::Mid => 774_596_669,
        Band::High => 2_500_000_000,
    };
    let f = if freq > sample_rate {
        sample_rate
    } else {
        freq
    };
    let omega = hz_to_radians(f, sample_rate);
    let half_omega = omega / 2;
    let cs = crate::math::cos_q(if half_omega * 2 > 7_000_000 {
        7_000_000
    } else {
        half_omega * 2
    });
    let sn_raw = crate::math::sin_q(if half_omega * 2 > 7_000_000 {
        7_000_000
    } else {
        half_omega * 2
    });
    let sn: i64 = if sn_raw < 0 {
        0
    } else {
        sn_raw
    };
    let a = half_db_amplitude(gain_db);
    proof {
        lemma_prod_bound(a as int, 1_000_000int, 9_000_000_000_000int, 1_000_000int);
    }
    let root_a_wide = isqrt128((a as i128) * 1_000_000);
    proof {
        assert(root_a_wide <= 3_000_000_000) by (nonlinear_arith)
            requires
                0 <= root_a_wide,
                root_a_wide * root_a_wide <= 9_000_000_000_000_000_000i128,
        ;
    }
    let root_a: i64 = root_a_wide as i64;
    // alpha = sin / (2 q), with the Butterworth quality factor
    proof {
        lemma_prod_bound(sn as int, 1_000_000int, 1_000_000int, 1_000_000int);
        lemma_tdiv_sign((sn as int) * 1_000_000, 1_414_000int);
        assert((sn as int) * 1_000_000 >= 0) by (nonlinear_arith)
            requires
                sn >= 0,
        ;
        lemma_tdiv_bound((sn as int) * 1_000_000, 1_414_000int, 1_000_000int);
    }
    let alpha = tdiv128((sn as i128) * 1_000_000, 1_414_000) as i64;
    let aw = a as i128;
    let rw = root_a as i128;
    let alw = alpha as i128;
    let cw = cs as i128;
    let scale_w = SCALE as i128;
    match kind {
        Band::Mid => {
            // peaking: b = (1 + alpha A, -2 cos, 1 - alpha A),
            //          a = (1 + alpha / A, -2 cos, 1 - alpha / A)
            proof {
                lemma_prod_bound(alw as int, aw as int, 1_000_000int, 9_000_000_000_000int);
                lemma_prod_bound(alw as int, scale_w as int, 1_000_000int, 1_000_000int);
            }
            let al_a = tdiv128(alw * aw, scale_w);
            let al_over_a = tdiv128(alw * scale_w, aw);
            proof {
                lemma_tdiv_bound(alw as int * (aw as int), scale_w as int, 9_000_000_000_000int);
                lemma_tdiv_bound(alw as int * (scale_w as int), aw as int, 1_000_000_000_000int);
                assert(abs_v(alw as int * (scale_w as int)) <= 1_000_000_000_000int * (aw as int))
                    by (nonlinear_arith)
                    requires
                        0 <= alw <= 1_000_000,
                        1 <= aw,
                        scale_w == 1_000_000i128,
                ;
            }
            let a0 = scale_w + al_over_a;
            let minus_two_c: i128 = -2 * cw;
            proof {
                assert(-2_000_000 <= minus_two_c <= 2_000_000);
            }
            let b0 = coeff_div(scale_w + al_a, a0);
            let b1 = coeff_div(minus_two_c, a0);
            let b2 = coeff_div(scale_w - al_a, a0);
            let a1 = coeff_div(minus_two_c, a0);
            let a2 = coeff_div(scale_w - al_over_a, a0);
            Section { b0, b1, b2, a1, a2, x1: 0, x2: 0, y1: 0, y2: 0 }
        },
        Band::Low => {
            let sec = shelf_section(aw, rw, alw, cw, true);
            sec
        },
        Band::High => {
            let sec = shelf_section(aw, rw, alw, cw, false);
            sec
        },
    }
}

/// The common low/high shelf recipe; `low` selects the low shelf's
/// signs on the cosine terms.
fn shelf_section(aw: i128, rw: i128, alw: i128, cw: i128, low: bool) -> (r: Section)
    requires
        1 <= aw <= 9_000_000_000_000,
        0 <= rw <= 3_000_000_000,
        0 <= alw <= 1_000_000,
        -1_000_000 <= cw <= 1_000_000,
    ensures
        r.wf(),
        r.x1 == 0 && r.x2 == 0 && r.y1 == 0 && r.y2 == 0,
{
    let scale_w = SCALE as i128;
    let ap1 = aw + scale_w;
    let am1 = aw - scale_w;
    proof {
        lemma_prod_bound(am1 as int, cw as int, 9_001_000_000_000int, 1_000_000int);
        lemma_prod_bound(rw as int, alw as int, 3_000_000_000int, 1_000_000int);
    }
    // the cosine tilt and the bandwidth term of the recipe
    let tilt = tdiv128(am1 * cw, scale_w);
    let width = 2 * tdiv128(rw * alw, scale_w);
    proof {
        lemma_tdiv_bound(am1 as int * (cw as int), scale_w as int, 9_001_000_000_000int);
        lemma_tdiv_sign(rw as int * (alw as int), scale_w as int);
        assert(rw as int * (alw as int) >= 0) by (nonlinear_arith)
            requires
                rw >= 0,
                alw >= 0,
        ;
        lemma_tdiv_bound(rw as int * (alw as int), scale_w as int, 3_000_000_000int);
    }
    let (b_core, a_core) = if low {
        (ap1 - tilt, ap1 + tilt)
    } else {
        (ap1 + tilt, ap1 - tilt)
    };
    let a0 = a_core + width;
    let a2_raw = a_core - width;
    let sign: i128 = if low {
        1
    } else {
        -1
    };
    proof {
        lemma_prod_bound(
            aw as int,
            (b_core + width) as int,
            9_000_000_000_000int,
            30_000_000_000_000int,
        );
        lemma_prod_bound(
            aw as int,
            (b_core - width) as int,
            9_000_000_000_000int,
            30_000_000_000_000int,
        );
        lemma_prod_bound(ap1 as int, cw as int, 10_000_000_000_000int, 1_000_000int);
        lemma_tdiv_bound(ap1 as int * (cw as int), scale_w as int, 10_000_000_000_000int);
    }
    let shift = tdiv128(ap1 * cw, scale_w);
    let mid_core: i128 = if low {
        am1 - shift
    } else {
        -(am1 + shift)
    };
    proof {
        lemma_prod_bound(aw as int, mid_core as int, 9_000_000_000_000int, 20_000_000_000_000int);
    }
    let b0 = coeff_div(tdiv128(aw * (b_core + width), SCALE as i128), a0);
    let b1 = coeff_div(2 * tdiv128(aw * mid_core, SCALE as i128), a0);
    let b2 = coeff_div(tdiv128(aw * (b_core - width), SCALE as i128), a0);
    proof {
        lemma_tdiv_bound(
            aw as int * ((b_core + width) as int),
            SCALE as int,
            1_000_000_000_000_000_000_000,
        );
        lemma_tdiv_bound(
            aw as int * (mid_core as int),
            SCALE as int,
            400_000_000_000_000_000_000,
        );
        lemma_tdiv_bound(
            aw as int * ((b_core - width) as int),
            SCALE as int,
            1_000_000_000_000_000_000_000,
        );
    }
    let a1_core: i128 = if low {
        -2 * (am1 + shift)
    } else {
        2 * (am1 - shift)
    };
    let a1 = coeff_div(a1_core, a0);
    let a2 = coeff_div(a2_raw, a0);
    Section { b0, b1, b2, a1, a2, x1: 0, x2: 0, y1: 0, y2: 0 }
}

/// The three-band parametric equalizer.
pub struct ParametricEQ {
    sample_rate: i64,
    low_gain: i64,
    mid_gain: i64,
    high_gain: i64,
    low_filter: Section,
    mid_filter: Section,
    high_filter: Section,
}

impl ParametricEQ {
    /// The sections are in range and the sample rate usable.
    pub closed spec fn wf(&self) -> bool {
        &&& SCALE <= self.sample_rate <= 1_000_000_000_000
        &&& self.low_filter.wf()
        &&& self.mid_filter.wf()
        &&& self.high_filter.wf()
    }

    /// The configured sample rate.
    pub closed spec fn sample_rate_spec(&self) -> int {
        self.sample_rate as int
    }

    /// Builds the equalizer for a sample rate, with one gain per band
    /// in micro-decibels.
    pub fn new(sample_rate: i64, low_gain: i64, mid_gain: i64, high_gain: i64) -> (r: ParametricEQ)
        requires
            SCALE <= sample_rate <= 1_000_000_000_000,
            -13_000_000 <= low_gain <= 13_000_000,
            -13_000_000 <= mid_gain <= 13_000_000,
            -13_000_000 <= high_gain <= 13_000_000,
        ensures
            r.wf(),
            r.sample_rate_spec() == sample_rate as int,
    {
        let low_filter = design_section(Band::Low, sample_rate, low_gain);
        let mid_filter = design_section(Band::Mid, sample_rate, mid_gain);
        let high_filter = design_section(Band::High, sample_rate, high_gain);
        ParametricEQ {
            sample_rate,
            low_gain,
            mid_gain,
            high_gain,
            low_filter,
            mid_filter,
            high_filter,
        }
    }

    /// Replaces one band's gain and rebuilds that band's section.
    pub fn set_gain(&mut self, band: Band, gain: i64)
        requires
            old(self).wf(),
            -13_000_000 <= gain <= 13_000_000,
        ensures
            final(self).wf(),
            final(self).sample_rate_spec() == old(self).sample_rate_spec(),
    {
        match band {
            Band::Low => {
                self.low_gain = gain;
                self.low_filter = design_section(Band::Low, self.sample_rate, gain);
            },
            Band::Mid => {
                self.mid_gain = gain;
                self.mid_filter = design_section(Band::Mid, self.sample_rate, gain);
            },
            Band::High => {
                self.high_gain = gain;
                self.high_filter = design_section(Band::High, self.sample_rate, gain);
            },
        }
    }

    /// One sample through the three sections in series, then through
    /// the soft clip: the result never exceeds full scale in
    /// magnitude.
    pub fn process(&mut self, sample: i64) -> (r: i64)
        requires
            old(self).wf(),
            -AMP_LIMIT <= sample <= AMP_LIMIT,
        ensures
            final(self).wf(),
            final(self).sample_rate_spec() == old(self).sample_rate_spec(),
            -SCALE <= r <= SCALE,
    {
        let s1 = self.low_filter.step(sample);
        let s2 = self.mid_filter.step(s1);
        let s3 = self.high_filter.step(s2);
        let a = abs64(s3);
        if a > 900_000 {
            // bend the overshoot through the hyperbolic tangent into
            // the last tenth of the scale
            let over = a - 900_000;
            proof {
                lemma_prod_bound(over as int, 10int, AMP_LIMIT as int, 10int);
            }
            let stretched_wide: i128 = (over as i128) * 10;
            let stretched: i64 = if stretched_wide > 9_000_000_000_000_000_000 {
                9_000_000_000_000_000_000
            } else {
                stretched_wide as i64
            };
            let bent = tanh_q(stretched);
            proof {
                lemma_prod_bound(100_000int, bent as int, 100_000int, SCALE as int);
                lemma_tdiv_sign(100_000int * (bent as int), SCALE as int);
                assert(100_000int * (bent as int) >= 0) by (nonlinear_arith)
                    requires
                        bent >= 0,
                ;
                lemma_tdiv_bound(100_000int * (bent as int), SCALE as int, 100_000int);
            }
            let lift = tdiv128(100_000 * (bent as i128), SCALE as i128) as i64;
            let shaped = 900_000 + lift;
            if s3 >= 0 {
                shaped
            } else {
                -shaped
            }
        } else {
            s3
        }
    }

    /// Every sample of the buffer through the equalizer, in place; no
    /// output exceeds full scale.
    pub fn process_buffer(&mut self, buffer: &mut Vec<i64>)
        requires
            old(self).wf(),
            wf_buf(old(buffer)@),
        ensures
            final(self).wf(),
            final(self).sample_rate_spec() == old(self).sample_rate_spec(),
            final(buffer)@.len() == old(buffer)@.len(),
            forall|i: int|
                0 <= i < final(buffer)@.len() ==> -SCALE <= #[trigger] final(buffer)@[i] <= SCALE,
            wf_buf(final(buffer)@),
    {
        let ghost orig = buffer@;
        let n = buffer.len();
        let mut i: usize = 0;
        while i < n
            invariant
                0 <= i <= n,
                n == orig.len(),
                buffer@.len() == orig.len(),
                wf_buf(orig),
                self.wf(),
                self.sample_rate_spec() == old(self).sample_rate_spec(),
                forall|j: int| i <= j < n ==> buffer@[j] == orig[j],
                forall|j: int| 0 <= j < i ==> -SCALE <= #[trigger] buffer@[j] <= SCALE,
            decreases n - i,
        {
            let x = buffer[i];
            proof {
                assert(buffer@[i as int] == orig[i as int]);
                assert(-AMP_LIMIT <= orig[i as int] <= AMP_LIMIT);
            }
            let y = self.process(x);
            buffer.set(i, y);
            i = i + 1;
        }
    }
}

/// Applies the three-band equalization to a buffer and returns a new
/// buffer of the same length, never exceeding full scale: gains are
/// clamped to twelve decibels, the input is pre-scaled to leave
/// headroom for the largest gain, and the result is scaled back to
/// the input's own peak.
pub fn parametric_eq(
    input: &Vec<i64>,
    sample_rate: i64,
    low_gain: i64,
    mid_gain: i64,
    high_gain: i64,
) -> (r: Vec<i64>)
    requires
        wf_buf(input@),
        SCALE <= sample_rate <= 1_000_000_000_000,
    ensures
        r@.len() == input@.len(),
        forall|i: int| 0 <= i < r@.len() ==> -SCALE <= #[trigger] r@[i] <= SCALE,
        wf_buf(r@),
{
    let lg = clamp_db(low_gain);
    let mg = clamp_db(mid_gain);
    let hg = clamp_db(high_gain);
    let mut eq = ParametricEQ::new(sample_rate, lg, mg, hg);
    let n = input.len();
    if n == 0 {
        return Vec::new();
    }
    let input_peak = peak_abs(input);
    // leave headroom for the largest boost the gains could apply
    let max_gain_db = max3_abs(lg, mg, hg);
    let max_gain = db_to_linear(max_gain_db);
    let gain_floor: i64 = if max_gain < SCALE {
        SCALE
    } else {
        max_gain
    };
    proof {
        lemma_prod_bound(SCALE as int, SCALE as int, SCALE as int, SCALE as int);
        lemma_tdiv_sign((SCALE as int) * (SCALE as int), gain_floor as int);
        assert((SCALE as int) * (SCALE as int) >= 0) by (nonlinear_arith);
        assert((SCALE as int) * (SCALE as int) <= (SCALE as int) * (gain_floor as int))
            by (nonlinear_arith)
            requires
                gain_floor >= SCALE,
        ;
        lemma_tdiv_bound((SCALE as int) * (SCALE as int), gain_floor as int, SCALE as int);
    }
    let scale_factor = tdiv128((SCALE as i128) * (SCALE as i128), gain_floor as i128) as i64;
    let mut work: Vec<i64> = Vec::new();
    let mut i: usize = 0;
    while i < n
        invariant
            0 <= i <= n,
            n == input@.len(),
            wf_buf(input@),
            0 <= scale_factor <= SCALE,
            input_peak >= 0,
            work@.len() == i,
            wf_buf(work@),
        decreases n - i,
    {
        let x = input[i];
        proof {
            assert(-AMP_LIMIT <= input@[i as int] <= AMP_LIMIT);
        }
        let v: i64 = if scale_factor < SCALE && input_peak > 0 {
            proof {
                lemma_abs_mul(x as int, scale_factor as int);
                lemma_prod_bound(x as int, scale_factor as int, AMP_LIMIT as int, SCALE as int);
                lemma_tdiv_bound(
                    (x as int) * (scale_factor as int),
                    SCALE as int,
                    AMP_LIMIT as int,
                );
            }
            mul_q(x, scale_factor)
        } else {
            x
        };
        work.push(v);
        i = i + 1;
    }
    eq.process_buffer(&mut work);
    // bring the level back toward the input's own peak
    if scale_factor < SCALE && input_peak > 0 {
        let out_peak = peak_abs(&work);
        proof {
            crate::fixed::lemma_max_abs_le(work@, SCALE as int);
        }
        if out_peak > 0 {
            let target: i64 = if input_peak > SCALE {
                SCALE
            } else {
                input_peak
            };
            rescale_to_peak(&mut work, target, out_peak);
        }
    }
    work
}

/// Clamps a gain to twelve decibels in magnitude.
fn clamp_db(g: i64) -> (r: i64)
    ensures
        -12_000_000 <= r <= 12_000_000,
{
    if g < -12_000_000 {
        -12_000_000
    } else if g > 12_000_000 {
        12_000_000
    } else {
        g
    }
}

/// The largest magnitude of the three gains.
fn max3_abs(a: i64, b: i64, c: i64) -> (r: i64)
    requires
        -12_000_000 <= a <= 12_000_000,
        -12_000_000 <= b <= 12_000_000,
        -12_000_000 <= c <= 12_000_000,
    ensures
        0 <= r <= 12_000_000,
{
    let aa = abs64(a);
    let ab = abs64(b);
    let ac = abs64(c);
    let m1 = if aa > ab {
        aa
    } else {
        ab
    };
    if m1 > ac {
        m1
    } else {
        ac
    }
}

/// Scales a full-scale-bounded buffer so its peak moves from
/// `out_peak` to `target`, keeping every entry within full scale.
fn rescale_to_peak(buf: &mut Vec<i64>, target: i64, out_peak: i64)
    requires
        0 <= target <= SCALE,
        0 < out_peak <= SCALE,
        old(buf)@.len() >= 0,
        forall|i: int| 0 <= i < old(buf)@.len() ==> -SCALE <= #[trigger] old(buf)@[i] <= SCALE,
        max_abs(old(buf)@) <= out_peak,
    ensures
        final(buf)@.len() == old(buf)@.len(),
        forall|i: int| 0 <= i < final(buf)@.len() ==> -SCALE <= #[trigger] final(buf)@[i] <= SCALE,
{
    let ghost orig = old(buf)@;
    let n = buf.len();
    let mut i: usize = 0;
    while i < n
        invariant
            0 <= i <= n,
            n == orig.len(),
            buf@.len() == orig.len(),
            0 <= target <= SCALE,
            0 < out_peak <= SCALE,
            forall|j: int| 0 <= j < orig.len() ==> -SCALE <= #[trigger] orig[j] <= SCALE,
            max_abs(orig) <= out_peak,
            forall|j: int| i <= j < n ==> buf@[j] == orig[j],
            forall|j: int| 0 <= j < i ==> -SCALE <= #[trigger] buf@[j] <= SCALE,
        decreases n - i,
    {
        let x = buf[i];
        proof {
            assert(buf@[i as int] == orig[i as int]);
            lemma_max_abs_ge_elem(orig, i as int);
            lemma_abs_mul(x as int, target as int);
            assert(abs_v(x as int) * (target as int) <= (SCALE as int) * (out_peak as int))
                by (nonlinear_arith)
                requires
                    abs_v(x as int) <= out_peak as int,
                    0 <= target <= SCALE,
                    out_peak > 0,
            ;
            assert((SCALE as int) * (out_peak as int) <= (out_peak as int) * (i64::MAX as int))
                by (nonlinear_arith)
                requires
                    out_peak > 0,
                    SCALE == 1_000_000i64,
            ;
            lemma_tdiv_bound((x as int) * (target as int), out_peak as int, SCALE as int);
        }
        let y = crate::fixed::scale_div(x, target, out_peak);
        buf.set(i, y);
        i = i + 1;
    }
}

} // verus!
