//! A soft limiter built on a hyperbolic-tangent transfer curve: samples
//! below the threshold pass unchanged, and samples above it are bent
//! smoothly toward full scale instead of being clipped hard.

use vstd::prelude::*;
use crate::fixed::SCALE;
use crate::fixed::AMP_LIMIT;
use crate::fixed::abs_v;
use crate::fixed::abs64;
use crate::fixed::tdiv128;
use crate::fixed::wf_buf;
use crate::fixed::lemma_tdiv_bound;
use crate::fixed::lemma_tdiv_sign;
use crate::fixed::lemma_tdiv_exact;
use crate::fixed::lemma_tdiv_abs_mono;
use crate::math::tanh_q;

verus! {

/// `x` forced into `[lo, hi]`.
pub open spec fn clamp_range(x: int, lo: int, hi: int) -> int {
    if x < lo {
        lo
    } else if x > hi {
        hi
    } else {
        x
    }
}

/// A soft limiter with a configurable threshold and knee.
pub struct SoftLimiter {
    /// Output level where limiting begins, in micro-units (at least
    /// one hundredth of full scale, at most full scale).
    threshold: i64,
    /// Width of the smoothing region, in micro-units.
    knee: i64,
    /// Whether the limiter is applied at all.
    is_active: bool,
}

impl SoftLimiter {
    /// The field ranges every constructor establishes.
    pub closed spec fn wf(&self) -> bool {
        &&& 10_000 <= self.threshold <= SCALE
        &&& 0 <= self.knee <= SCALE
    }

    /// The configured threshold.
    pub closed spec fn threshold_spec(&self) -> int {
        self.threshold as int
    }

    /// The configured knee width.
    pub closed spec fn knee_spec(&self) -> int {
        self.knee as int
    }

    /// Whether the limiter is active.
    pub closed spec fn active_spec(&self) -> bool {
        self.is_active
    }

    /// Creates a limiter; the threshold is clamped into
    /// `[SCALE / 100, SCALE]` and the knee into `[0, SCALE]`.
    pub fn new(threshold: i64, knee: i64) -> (r: SoftLimiter)
        ensures
            r.wf(),
            r.threshold_spec() == clamp_range(threshold as int, 10_000, SCALE as int),
            r.knee_spec() == clamp_range(knee as int, 0, SCALE as int),
            r.active_spec(),
    {
        SoftLimiter {
            threshold: if threshold < 10_000 {
                10_000
            } else if threshold > SCALE {
                SCALE
            } else {
                threshold
            },
            knee: if knee < 0 {
                0
            } else if knee > SCALE {
                SCALE
            } else {
                knee
            },
            is_active: true,
        }
    }

    /// Replaces the threshold, clamped as in `new`.
    pub fn set_threshold(&mut self, threshold: i64)
        ensures
            final(self).threshold_spec() == clamp_range(threshold as int, 10_000, SCALE as int),
            final(self).knee_spec() == old(self).knee_spec(),
            final(self).active_spec() == old(self).active_spec(),
            old(self).wf() ==> final(self).wf(),
    {
        self.threshold = if threshold < 10_000 {
            10_000
        } else if threshold > SCALE {
            SCALE
        } else {
            threshold
        };
    }

    /// Replaces the knee width, clamped as in `new`.
    pub fn set_knee(&mut self, knee: i64)
        ensures
            final(self).knee_spec() == clamp_range(knee as int, 0, SCALE as int),
            final(self).threshold_spec() == old(self).threshold_spec(),
            final(self).active_spec() == old(self).active_spec(),
            old(self).wf() ==> final(self).wf(),
    {
        self.knee = if knee < 0 {
            0
        } else if knee > SCALE {
            SCALE
        } else {
            knee
        };
    }

    /// Switches the limiter on or off.
    pub fn set_active(&mut self, active: bool)
        ensures
            final(self).active_spec() == active,
            final(self).threshold_spec() == old(self).threshold_spec(),
            final(self).knee_spec() == old(self).knee_spec(),
            old(self).wf() ==> final(self).wf(),
    {
        self.is_active = active;
    }

    /// Applies the transfer curve to one sample.
    ///
    /// An inactive limiter, and any sample at or below the threshold,
    /// pass unchanged.  A sample above the threshold keeps its sign,
    /// never grows in magnitude, and once the input reaches full scale
    /// the output is bounded by full scale.
    pub fn apply_limiter(&self, sample: i64) -> (r: i64)
        requires
            self.wf(),
            -AMP_LIMIT <= sample <= AMP_LIMIT,
        ensures
            !self.active_spec() ==> r == sample,
            abs_v(sample as int) <= self.threshold_spec() ==> r == sample,
            abs_v(r as int) <= abs_v(sample as int),
            sample >= 0 ==> r >= 0,
            sample <= 0 ==> r <= 0,
            self.active_spec() && abs_v(sample as int) >= SCALE as int ==> abs_v(r as int)
                <= SCALE as int,
    {
        if !self.is_active {
            return sample;
        }
        let abs_sample = abs64(sample);
        if abs_sample <= self.threshold {
            return sample;
        }
        let over = abs_sample - self.threshold;
        // the smoothed amount added above the threshold
        let bend: i64 = if self.knee == 0 {
            0
        } else {
            proof {
                crate::fixed::lemma_prod_bound(
                    over as int,
                    SCALE as int,
                    2_000_000_000_000int,
                    SCALE as int,
                );
            }
            let t = tdiv128((over as i128) * (SCALE as i128), self.knee as i128);
            proof {
                lemma_tdiv_sign((over as int) * (SCALE as int), self.knee as int);
                assert((over as int) * (SCALE as int) >= 0) by (nonlinear_arith)
                    requires
                        over >= 0,
                ;
            }
            let ratio: i64 = if t > 9_000_000 {
                9_000_000
            } else {
                t as i64
            };
            let th = tanh_q(ratio);
            proof {
                crate::fixed::lemma_prod_bound(
                    self.knee as int,
                    th as int,
                    SCALE as int,
                    SCALE as int,
                );
                assert((self.knee as int) * (th as int) >= 0) by (nonlinear_arith)
                    requires
                        self.knee >= 0,
                        th >= 0,
                ;
            }
            let b = tdiv128((self.knee as i128) * (th as i128), SCALE as i128);
            proof {
                lemma_tdiv_sign((self.knee as int) * (th as int), SCALE as int);
                lemma_tdiv_bound((self.knee as int) * (th as int), SCALE as int, SCALE as int);
            }
            b as i64
        };
        let mut soft: i64 = self.threshold + bend;
        if soft > abs_sample {
            soft = abs_sample;
        }
        let limited: i64 = if soft > SCALE {
            SCALE
        } else {
            soft
        };
        // how much of the limited signal is mixed in, by how far the
        // sample lies between the threshold and full scale
        let head: i64 = SCALE - self.threshold;
        let mix: i64 = if head == 0 {
            SCALE
        } else {
            proof {
                crate::fixed::lemma_prod_bound(
                    over as int,
                    SCALE as int,
                    2_000_000_000_000int,
                    SCALE as int,
                );
            }
            let m = tdiv128((over as i128) * (SCALE as i128), head as i128);
            proof {
                lemma_tdiv_sign((over as int) * (SCALE as int), head as int);
                assert((over as int) * (SCALE as int) >= 0) by (nonlinear_arith)
                    requires
                        over >= 0,
                ;
            }
            if m >= SCALE as i128 {
                SCALE
            } else {
                m as i64
            }
        };
        proof {
            if abs_v(sample as int) >= SCALE as int {
                if head > 0 {
                    assert((over as int) * (SCALE as int) >= (SCALE as int) * (head as int))
                        by (nonlinear_arith)
                        requires
                            over as int >= head as int,
                            SCALE >= 0,
                            head >= 0,
                    ;
                    lemma_tdiv_abs_mono(
                        (SCALE as int) * (head as int),
                        (over as int) * (SCALE as int),
                        head as int,
                    );
                    lemma_tdiv_exact(SCALE as int, head as int);
                    lemma_tdiv_sign((SCALE as int) * (head as int), head as int);
                }
            }
        }
        proof {
            crate::fixed::lemma_prod_bound(
                limited as int,
                mix as int,
                2_000_000_000_000int,
                SCALE as int,
            );
            crate::fixed::lemma_prod_bound(
                abs_sample as int,
                (SCALE - mix) as int,
                2_000_000_000_000int,
                SCALE as int,
            );
        }
        let wet = tdiv128((limited as i128) * (mix as i128), SCALE as i128);
        let dry = tdiv128((abs_sample as i128) * ((SCALE - mix) as i128), SCALE as i128);
        proof {
            lemma_tdiv_sign((limited as int) * (mix as int), SCALE as int);
            lemma_tdiv_sign((abs_sample as int) * ((SCALE - mix) as int), SCALE as int);
            assert((limited as int) * (mix as int) >= 0 && (abs_sample as int) * ((SCALE
                - mix) as int) >= 0) by (nonlinear_arith)
                requires
                    limited >= 0,
                    mix >= 0,
                    abs_sample >= 0,
                    mix <= SCALE,
            ;
            // wet + dry stays within the sample's magnitude
            assert((limited as int) * (mix as int) + (abs_sample as int) * ((SCALE - mix) as int)
                <= (abs_sample as int) * (SCALE as int)) by (nonlinear_arith)
                requires
                    0 <= limited <= abs_sample,
                    0 <= mix <= SCALE,
            ;
            lemma_tdiv_bound(
                (limited as int) * (mix as int),
                SCALE as int,
                abs_sample as int,
            );
            lemma_tdiv_bound(
                (abs_sample as int) * ((SCALE - mix) as int),
                SCALE as int,
                abs_sample as int,
            );
            assert(abs_v((limited as int) * (mix as int)) <= (abs_sample as int) * (
            SCALE as int)) by (nonlinear_arith)
                requires
                    0 <= limited <= abs_sample,
                    0 <= mix <= SCALE,
            ;
            assert(abs_v((abs_sample as int) * ((SCALE - mix) as int)) <= (abs_sample as int) * (
            SCALE as int)) by (nonlinear_arith)
                requires
                    0 <= abs_sample,
                    0 <= mix <= SCALE,
            ;
        }
        let magnitude_wide: i128 = wet + dry;
        proof {
            crate::fixed::lemma_tdiv_sum_le(
                (limited as int) * (mix as int),
                (abs_sample as int) * ((SCALE - mix) as int),
                SCALE as int,
                abs_sample as int,
            );
            if abs_v(sample as int) >= SCALE as int {
                // full mix: the dry term vanishes and the wet term is at
                // most full scale
                assert(mix == SCALE);
                assert((abs_sample as int) * ((SCALE - mix) as int) == 0) by (nonlinear_arith)
                    requires
                        mix == SCALE,
                ;
                lemma_tdiv_sign((abs_sample as int) * ((SCALE - mix) as int), SCALE as int);
                lemma_tdiv_exact(limited as int, SCALE as int);
                assert((limited as int) * (SCALE as int) == (limited as int) * (mix as int));
            }
        }
        let magnitude: i64 = magnitude_wide as i64;
        if sample >= 0 {
            magnitude
        } else {
            -magnitude
        }
    }

    /// Applies the limiter to one sample; the limiter keeps no state,
    /// so this is `apply_limiter` under the streaming interface.
    pub fn process_sample(&mut self, sample: i64) -> (r: i64)
        requires
            old(self).wf(),
            -AMP_LIMIT <= sample <= AMP_LIMIT,
        ensures
            *final(self) == *old(self),
            !old(self).active_spec() ==> r == sample,
            abs_v(sample as int) <= old(self).threshold_spec() ==> r == sample,
            abs_v(r as int) <= abs_v(sample as int),
    {
        self.apply_limiter(sample)
    }

    /// Applies the limiter to every sample of a buffer in place.
    pub fn process_buffer(&mut self, buffer: &mut Vec<i64>)
        requires
            old(self).wf(),
            wf_buf(old(buffer)@),
        ensures
            *final(self) == *old(self),
            final(buffer)@.len() == old(buffer)@.len(),
            wf_buf(final(buffer)@),
            forall|i: int|
                0 <= i < old(buffer)@.len() ==> abs_v(#[trigger] final(buffer)@[i] as int)
                    <= abs_v(old(buffer)@[i] as int),
            !old(self).active_spec() ==> final(buffer)@ == old(buffer)@,
    {
        let ghost orig = buffer@;
        let n = buffer.len();
        let mut i: usize = 0;
        while i < n
            invariant
                0 <= i <= n,
                n == orig.len(),
                buffer@.len() == orig.len(),
                wf_buf(orig),
                self.wf(),
                self == old(self),
                forall|j: int| i <= j < n ==> buffer@[j] == orig[j],
                forall|j: int|
                    0 <= j < i ==> abs_v(#[trigger] buffer@[j] as int) <= abs_v(orig[j] as int),
                !self.active_spec() ==> forall|j: int| 0 <= j < i ==> buffer@[j] == orig[j],
            decreases n - i,
        {
            let x = buffer[i];
            proof {
                assert(buffer@[i as int] == orig[i as int]);
                assert(-AMP_LIMIT <= orig[i as int] <= AMP_LIMIT);
            }
            let y = self.apply_limiter(x);
            buffer.set(i, y);
            i = i + 1;
        }
        proof {
            if !self.active_spec() {
                assert(buffer@ =~= orig);
            }
        }
    }

    /// Clears internal state; this limiter keeps none.
    pub fn reset(&mut self)
        ensures
            *final(self) == *old(self),
    {
    }

    /// The effect's display name.
    pub fn name(&self) -> (r: &'static str)
        ensures
            r@ == "SoftLimiter"@,
    {
        "SoftLimiter"
    }
}

/// Applies a fresh limiter with the given threshold and knee to
/// `input`, writing the results into the front of `output`.
pub fn soft_limit_buffer(input: &Vec<i64>, output: &mut Vec<i64>, threshold: i64, knee: i64)
    requires
        wf_buf(input@),
        old(output)@.len() >= input@.len(),
    ensures
        final(output)@.len() == old(output)@.len(),
        forall|i: int|
            0 <= i < input@.len() ==> abs_v(#[trigger] final(output)@[i] as int) <= abs_v(
                input@[i] as int,
            ),
        forall|i: int|
            input@.len() <= i < old(output)@.len() ==> final(output)@[i] == old(output)@[i],
{
    let limiter = SoftLimiter::new(threshold, knee);
    let n = input.len();
    let mut i: usize = 0;
    while i < n
        invariant
            0 <= i <= n,
            n == input@.len(),
            wf_buf(input@),
            output@.len() == old(output)@.len(),
            old(output)@.len() >= n,
            limiter.wf(),
            forall|j: int| 0 <= j < i ==> abs_v(#[trigger] output@[j] as int) <= abs_v(
                input@[j] as int,
            ),
            forall|j: int| i <= j < output@.len() ==> output@[j] == old(output)@[j],
        decreases n - i,
    {
        let x = input[i];
        let y = limiter.apply_limiter(x);
        output.set(i, y);
        i = i + 1;
    }
}

} // verus!
