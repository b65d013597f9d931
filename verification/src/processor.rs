//! The whole processing chain in one component, applied in the
//! mandated order: spectral noise reduction, then tonal shaping, then
//! compression, then soft limiting, then RMS normalization.  That
//! order is a correctness requirement: normalizing before limiting
//! could push the signal back over the safety bound, and limiting
//! before compression would reintroduce the peaks the compressor is
//! meant to tame.

use vstd::prelude::*;
use crate::fixed::SCALE;
use crate::fixed::AMP_LIMIT;
use crate::fixed::abs_v;
use crate::fixed::abs64;
use crate::fixed::qmul;
use crate::fixed::qdiv;
use crate::fixed::tdiv128;
use crate::fixed::clamp_v;
use crate::fixed::wf_buf;
use crate::fixed::sum_sq_exec;
use crate::fixed::scaled_clamped;
use crate::fixed::isqrt128;
use crate::fixed::mul_q_clamped;
use crate::fixed::lemma_prod_bound;
use crate::fixed::lemma_tdiv_bound;
use crate::fixed::lemma_tdiv_sign;
use crate::math::exp_q;
use crate::math::exp_q_s;
use crate::fixed::sqrt_floor;
use crate::fixed::lemma_sqrt_floor_unique;
use crate::fixed::clamp64;
use crate::filters::compressor::comp_out_s;
use crate::filters::compressor::comp_inv_ratio_s;
use crate::filters::compressor::smoothing_coeff_s;
use crate::effects::normalize::mean_sq;
use crate::fixed::is_floor_sqrt;
use crate::filters::compressor::compress_rms;
use crate::filters::compressor::DB_BYPASS;
use crate::filters::equalizer::parametric_eq;
use crate::filters::wiener_filter::MAX_FFT;
use crate::filters::wiener_filter::reduce_noise_wiener;
use crate::filters::wiener_filter::copy_buffer;
use crate::filters::wiener_filter::wf_profile;

verus! {

/// One sample through the chain's soft clip: at or below the
/// threshold it passes; above it the overage is bent onto an
/// exponential approach; and every sample is then hard-clamped to
/// full scale — the final safety bound that is never skipped.
pub open spec fn proc_limit_sample_s(x: int, thr: int) -> int {
    let a = abs_v(x);
    let shaped = if a > thr {
        let steep0 = (a - thr) * 10;
        let steep = if steep0 > 2_000_000_000_000 {
            2_000_000_000_000
        } else {
            steep0
        };
        let bent = thr + (1_000_000 - exp_q_s(-steep));
        if x >= 0 {
            bent
        } else {
            -bent
        }
    } else {
        x
    };
    clamp_v(shaped, 1_000_000)
}

/// The whole buffer through the chain's soft clip.
pub open spec fn proc_limit_seq_s(s: Seq<i64>, thr: int) -> Seq<i64> {
    Seq::new(s.len(), |i: int| proc_limit_sample_s(s[i] as int, thr) as i64)
}

/// The chain's RMS normalization: silence passes, anything else is
/// scaled by the linear target over the buffer's RMS.
pub open spec fn proc_norm_s(s: Seq<i64>, target: int) -> Seq<i64> {
    if s.len() == 0 || mean_sq(s) * (SCALE as int) < 1 {
        s
    } else {
        scaled_clamped(s, qdiv(target, sqrt_floor(mean_sq(s) * (SCALE as int))))
    }
}

/// The chain's compression stage over a buffer, from a fresh state.
pub open spec fn proc_comp_s(
    s: Seq<i64>,
    thr: int,
    ratio: int,
    atk: int,
    rel: int,
    sr: int,
) -> Seq<i64> {
    if thr == DB_BYPASS {
        s
    } else {
        Seq::new(
            s.len(),
            |i: int|
                comp_out_s(
                    s,
                    thr,
                    comp_inv_ratio_s(ratio),
                    smoothing_coeff_s(atk, sr),
                    smoothing_coeff_s(rel, sr),
                    0,
                    SCALE as int,
                    i,
                ) as i64,
        )
    }
}

/// The chain's verifiable tail, in the mandated order: compression,
/// then the soft clip, then RMS normalization.
pub open spec fn proc_tail_s(
    s: Seq<i64>,
    comp_thr: int,
    ratio: int,
    atk: int,
    rel: int,
    sr: int,
    lim_thr: int,
    target: int,
) -> Seq<i64> {
    proc_norm_s(proc_limit_seq_s(proc_comp_s(s, comp_thr, ratio, atk, rel, sr), lim_thr), target)
}

/// The configurable processing chain.
pub struct ClearCastProcessor {
    sample_rate: i64,
    noise_profile: Vec<i64>,
    fft_size: usize,
    hop_size: usize,
    smoothing: i64,
    eq_low: i64,
    eq_mid: i64,
    eq_high: i64,
    comp_threshold: i64,
    comp_ratio: i64,
    comp_attack: i64,
    comp_release: i64,
    target_rms: i64,
    limiter_threshold: i64,
}

impl ClearCastProcessor {
    /// The ranges every stage's arithmetic needs.
    pub closed spec fn wf(&self) -> bool {
        &&& SCALE <= self.sample_rate <= 1_000_000_000_000
        &&& wf_profile(self.noise_profile@)
        &&& self.fft_size <= MAX_FFT
        &&& 0 <= self.smoothing <= SCALE
        &&& (self.comp_threshold == DB_BYPASS || -1_000_000_000_000 <= self.comp_threshold
            <= 130_000_000)
        &&& SCALE <= self.comp_ratio <= 1_000_000_000
        &&& 1 <= self.comp_attack <= 1_000_000_000_000
        &&& 1 <= self.comp_release <= 1_000_000_000_000
        &&& 0 <= self.target_rms <= SCALE
        &&& 0 <= self.limiter_threshold <= SCALE
    }

    /// The configured target RMS level.
    pub closed spec fn target_rms_spec(&self) -> int {
        self.target_rms as int
    }

    /// The configured limiter threshold.
    pub closed spec fn limiter_threshold_spec(&self) -> int {
        self.limiter_threshold as int
    }

    /// Whether the spectral noise reduction stage has been configured
    /// to run.
    pub closed spec fn noise_configured_spec(&self) -> bool {
        self.fft_size > 0 && self.noise_profile@.len() > 0
    }

    /// Whether all three equalizer gains are flat.
    pub closed spec fn eq_flat_spec(&self) -> bool {
        self.eq_low == 0 && self.eq_mid == 0 && self.eq_high == 0
    }

    /// The configured compressor threshold.
    pub closed spec fn comp_threshold_spec(&self) -> int {
        self.comp_threshold as int
    }

    /// The configured compressor ratio.
    pub closed spec fn comp_ratio_spec(&self) -> int {
        self.comp_ratio as int
    }

    /// The configured compressor attack time.
    pub closed spec fn comp_attack_spec(&self) -> int {
        self.comp_attack as int
    }

    /// The configured compressor release time.
    pub closed spec fn comp_release_spec(&self) -> int {
        self.comp_release as int
    }

    /// The configured sample rate.
    pub closed spec fn sample_rate_spec(&self) -> int {
        self.sample_rate as int
    }

    /// A processor with a flat default configuration: a gentle flat
    /// noise profile that is not yet active, a flat equalizer,
    /// moderate compression, a low target loudness and limiting just
    /// below full scale.
    pub fn new(sample_rate: i64) -> (r: ClearCastProcessor)
        requires
            SCALE <= sample_rate <= 1_000_000_000_000,
        ensures
            r.wf(),
            r.target_rms_spec() == 100_000,
            r.limiter_threshold_spec() == 950_000,
    {
        let mut profile: Vec<i64> = Vec::new();
        let mut i: usize = 0;
        while i < 1024
            invariant
                0 <= i <= 1024,
                profile@.len() == i,
                forall|j: int| 0 <= j < i ==> #[trigger] profile@[j] == 10_000i64,
            decreases 1024 - i,
        {
            profile.push(10_000);
            i = i + 1;
        }
        ClearCastProcessor {
            sample_rate,
            noise_profile: profile,
            fft_size: 0,
            hop_size: 0,
            smoothing: 0,
            eq_low: 0,
            eq_mid: 0,
            eq_high: 0,
            comp_threshold: -20_000_000,
            comp_ratio: 4_000_000,
            comp_attack: 10_000_000,
            comp_release: 100_000_000,
            target_rms: 100_000,
            limiter_threshold: 950_000,
        }
    }

    /// Configures the spectral noise reduction: the per-bin noise
    /// profile, the transform and hop sizes and the smoothing factor.
    pub fn configure_noise_reduction(
        &mut self,
        noise_profile: Vec<i64>,
        fft_size: usize,
        hop_size: usize,
        smoothing: i64,
    )
        requires
            old(self).wf(),
            wf_profile(noise_profile@),
            fft_size <= MAX_FFT,
            0 <= smoothing <= SCALE,
        ensures
            final(self).wf(),
            final(self).target_rms_spec() == old(self).target_rms_spec(),
            final(self).limiter_threshold_spec() == old(self).limiter_threshold_spec(),
    {
        self.noise_profile = noise_profile;
        self.fft_size = fft_size;
        self.hop_size = hop_size;
        self.smoothing = smoothing;
    }

    /// Configures the three equalizer gains, in micro-decibels.
    pub fn configure_eq(&mut self, low_gain: i64, mid_gain: i64, high_gain: i64)
        requires
            old(self).wf(),
        ensures
            final(self).wf(),
            final(self).target_rms_spec() == old(self).target_rms_spec(),
            final(self).limiter_threshold_spec() == old(self).limiter_threshold_spec(),
    {
        self.eq_low = low_gain;
        self.eq_mid = mid_gain;
        self.eq_high = high_gain;
    }

    /// Configures the compressor's threshold, ratio, attack and
    /// release.
    pub fn configure_compressor(&mut self, threshold: i64, ratio: i64, attack_ms: i64, release_ms: i64)
        requires
            old(self).wf(),
            threshold == DB_BYPASS || -1_000_000_000_000 <= threshold <= 130_000_000,
            SCALE <= ratio <= 1_000_000_000,
            1 <= attack_ms <= 1_000_000_000_000,
            1 <= release_ms <= 1_000_000_000_000,
        ensures
            final(self).wf(),
            final(self).target_rms_spec() == old(self).target_rms_spec(),
            final(self).limiter_threshold_spec() == old(self).limiter_threshold_spec(),
    {
        self.comp_threshold = threshold;
        self.comp_ratio = ratio;
        self.comp_attack = attack_ms;
        self.comp_release = release_ms;
    }

    /// Sets the target RMS level, clamped into `[0, SCALE]`.
    pub fn set_target_rms(&mut self, target_rms: i64)
        requires
            old(self).wf(),
        ensures
            final(self).wf(),
            0 <= final(self).target_rms_spec() <= SCALE,
            0 <= target_rms <= SCALE ==> final(self).target_rms_spec() == target_rms as int,
            final(self).limiter_threshold_spec() == old(self).limiter_threshold_spec(),
    {
        self.target_rms = if target_rms < 0 {
            0
        } else if target_rms > SCALE {
            SCALE
        } else {
            target_rms
        };
    }

    /// Sets the limiter threshold, clamped into `[0, SCALE]`.
    pub fn set_limiter_threshold(&mut self, threshold: i64)
        requires
            old(self).wf(),
        ensures
            final(self).wf(),
            0 <= final(self).limiter_threshold_spec() <= SCALE,
            final(self).target_rms_spec() == old(self).target_rms_spec(),
            threshold >= 0 && threshold <= SCALE ==> final(self).limiter_threshold_spec()
                == threshold as int,
    {
        self.limiter_threshold = if threshold < 0 {
            0
        } else if threshold > SCALE {
            SCALE
        } else {
            threshold
        };
    }

    /// Soft-clips the buffer in place: samples at or below the
    /// threshold pass unchanged, louder samples are bent onto a curve
    /// that approaches one unit above the threshold keeping their
    /// sign, and every sample is then hard-clamped to full scale as
    /// the final safety bound.
    fn apply_soft_limiter(&self, samples: &mut Vec<i64>)
        requires
            self.wf(),
            wf_buf(old(samples)@),
        ensures
            final(samples)@.len() == old(samples)@.len(),
            wf_buf(final(samples)@),
            final(samples)@ == proc_limit_seq_s(old(samples)@, self.limiter_threshold_spec()),
            forall|i: int|
                0 <= i < final(samples)@.len() ==> -SCALE <= #[trigger] final(samples)@[i]
                    <= SCALE,
            forall|i: int|
                0 <= i < old(samples)@.len() && abs_v(old(samples)@[i] as int)
                    <= self.limiter_threshold_spec() ==> final(samples)@[i] == old(samples)@[i],
    {
        let ghost orig = old(samples)@;
        let thr = self.limiter_threshold;
        let n = samples.len();
        let mut i: usize = 0;
        while i < n
            invariant
                0 <= i <= n,
                n == orig.len(),
                samples@.len() == orig.len(),
                wf_buf(orig),
                0 <= thr <= SCALE,
                thr as int == self.limiter_threshold_spec(),
                forall|j: int| i <= j < n ==> samples@[j] == orig[j],
                forall|j: int|
                    0 <= j < i ==> #[trigger] samples@[j] as int == proc_limit_sample_s(
                        orig[j] as int,
                        thr as int,
                    ),
                forall|j: int| 0 <= j < i ==> -SCALE <= #[trigger] samples@[j] <= SCALE,
            decreases n - i,
        {
            let x = samples[i];
            proof {
                assert(samples@[i as int] == orig[i as int]);
                assert(-AMP_LIMIT <= orig[i as int] <= AMP_LIMIT);
            }
            let a = abs64(x);
            let shaped: i64 = if a > thr {
                let over = a - thr;
                proof {
                    lemma_prod_bound(over as int, 10int, AMP_LIMIT as int, 10int);
                }
                let steep_wide: i128 = (over as i128) * 10;
                let steep: i64 = if steep_wide > 2_000_000_000_000 {
                    2_000_000_000_000
                } else {
                    steep_wide as i64
                };
                let ex = exp_q(-steep);
                let bent = thr + (SCALE - ex);
                if x >= 0 {
                    bent
                } else {
                    -bent
                }
            } else {
                x
            };
            let y = clamp64(shaped, SCALE);
            samples.set(i, y);
            i = i + 1;
        }
        proof {
            assert(samples@ =~= proc_limit_seq_s(orig, thr as int));
        }
    }

    /// Scales the buffer in place so its RMS level becomes the
    /// configured linear target; an empty or effectively silent
    /// buffer is left unchanged.
    fn normalize_rms(&self, samples: &mut Vec<i64>)
        requires
            self.wf(),
            wf_buf(old(samples)@),
        ensures
            final(samples)@.len() == old(samples)@.len(),
            wf_buf(final(samples)@),
            old(samples)@.len() == 0 ==> final(samples)@ == old(samples)@,
            old(samples)@.len() > 0 && mean_sq(old(samples)@) * (SCALE as int) < 1
                ==> final(samples)@ == old(samples)@,
            final(samples)@ == proc_norm_s(old(samples)@, self.target_rms_spec()),
    {
        let ghost orig = old(samples)@;
        if samples.len() == 0 {
            return ;
        }
        let n = samples.len();
        let ssq = sum_sq_exec(samples);
        let mean = tdiv128(ssq, n as i128);
        proof {
            lemma_tdiv_sign(ssq as int, n as int);
            lemma_tdiv_bound(ssq as int, n as int, 1_000_000_000_000_000_000);
            assert(abs_v(ssq as int) <= 1_000_000_000_000_000_000 * (n as int))
                by (nonlinear_arith)
                requires
                    0 <= ssq,
                    ssq as int <= (n as int) * 1_000_000_000_000_000_000,
            ;
        }
        let rms = isqrt128(mean * 1_000_000);
        proof {
            assert(rms <= 1_000_000_000_000) by (nonlinear_arith)
                requires
                    0 <= rms,
                    rms * rms <= mean * 1_000_000,
                    mean <= 1_000_000_000_000_000_000,
            ;
        }
        if rms == 0 {
            proof {
                assert((rms + 1) * (rms + 1) == 1) by (nonlinear_arith)
                    requires
                        rms == 0,
                ;
                assert(mean_sq(orig) * (SCALE as int) < 1);
            }
            return ;
        }
        let scale = tdiv128((self.target_rms as i128) * 1_000_000, rms);
        proof {
            lemma_tdiv_sign((self.target_rms as int) * 1_000_000, rms as int);
            lemma_tdiv_bound((self.target_rms as int) * 1_000_000, rms as int, 1_000_000_000_000);
        }
        let scale64: i64 = scale as i64;
        let mut i: usize = 0;
        while i < n
            invariant
                0 <= i <= n,
                n == orig.len(),
                samples@.len() == orig.len(),
                wf_buf(orig),
                0 <= scale64 <= AMP_LIMIT,
                forall|j: int| i <= j < n ==> samples@[j] == orig[j],
                forall|j: int|
                    0 <= j < i ==> samples@[j] == clamp_v(
                        qmul(orig[j] as int, scale64 as int),
                        AMP_LIMIT as int,
                    ) && -AMP_LIMIT <= #[trigger] samples@[j] <= AMP_LIMIT,
            decreases n - i,
        {
            let x = samples[i];
            let y = mul_q_clamped(x, scale64, AMP_LIMIT);
            samples.set(i, y);
            i = i + 1;
        }
        proof {
            assert(samples@ =~= scaled_clamped(orig, scale64 as int));
            assert(mean_sq(orig) * (SCALE as int) >= 1) by {
                assert((rms as int) * (rms as int) >= 1) by (nonlinear_arith)
                    requires
                        rms >= 1,
                ;
            }
            let rr = rms as int;
            assert(is_floor_sqrt(rr, mean_sq(orig) * (SCALE as int)));
            lemma_sqrt_floor_unique(rr, mean_sq(orig) * (SCALE as int));
            assert(scale64 as int == qdiv(self.target_rms_spec(), sqrt_floor(
                mean_sq(orig) * (SCALE as int),
            )));
            assert(samples@ == proc_norm_s(orig, self.target_rms_spec()));
        }
    }

    /// Runs the whole chain on one buffer: noise reduction, tonal
    /// shaping, compression, soft limiting, RMS normalization, in
    /// that mandated order.  The output always has the input's
    /// length; an empty input yields an empty output.
    ///
    /// The verifiable tail of the chain is pinned exactly: the output
    /// equals `proc_tail_s` of the buffer the first two stages
    /// produce, and when neither noise reduction nor tonal shaping is
    /// active that buffer is the input itself, so the whole chain is
    /// pinned.
    pub fn process_audio(&mut self, input: &Vec<i64>) -> (r: Vec<i64>)
        requires
            old(self).wf(),
            wf_buf(input@),
        ensures
            final(self).wf(),
            r@.len() == input@.len(),
            wf_buf(r@),
            input@.len() == 0 ==> r@.len() == 0,
            input@.len() > 0 ==> exists|mid: Seq<i64>|
                {
                    &&& #[trigger] wf_buf(mid)
                    &&& mid.len() == input@.len()
                    &&& (!old(self).noise_configured_spec() && old(self).eq_flat_spec() ==> mid
                        == input@)
                    &&& r@ == proc_tail_s(
                        mid,
                        old(self).comp_threshold_spec(),
                        old(self).comp_ratio_spec(),
                        old(self).comp_attack_spec(),
                        old(self).comp_release_spec(),
                        old(self).sample_rate_spec(),
                        old(self).limiter_threshold_spec(),
                        old(self).target_rms_spec(),
                    )
                },
    {
        if input.len() == 0 {
            return Vec::new();
        }
        // 1. spectral noise reduction, once it has been configured
        let mut processed: Vec<i64> = if self.fft_size > 0 && self.noise_profile.len() > 0 {
            reduce_noise_wiener(
                input,
                &self.noise_profile,
                self.fft_size,
                self.hop_size,
                self.smoothing,
            )
        } else {
            copy_buffer(input)
        };
        // 2. tonal shaping, when any band is not flat
        if self.eq_low != 0 || self.eq_mid != 0 || self.eq_high != 0 {
            processed = parametric_eq(
                &processed,
                self.sample_rate,
                self.eq_low,
                self.eq_mid,
                self.eq_high,
            );
        }
        let ghost mid = processed@;
        // 3. compression
        processed = compress_rms(
            &processed,
            self.comp_threshold,
            self.comp_ratio,
            self.comp_attack,
            self.comp_release,
            self.sample_rate,
        );
        proof {
            assert(processed@ =~= proc_comp_s(
                mid,
                self.comp_threshold as int,
                self.comp_ratio as int,
                self.comp_attack as int,
                self.comp_release as int,
                self.sample_rate as int,
            ));
        }
        // 4. soft limiting
        self.apply_soft_limiter(&mut processed);
        // 5. loudness normalization
        self.normalize_rms(&mut processed);
        proof {
            assert(wf_buf(mid));
            assert(processed@ == proc_tail_s(
                mid,
                old(self).comp_threshold_spec(),
                old(self).comp_ratio_spec(),
                old(self).comp_attack_spec(),
                old(self).comp_release_spec(),
                old(self).sample_rate_spec(),
                old(self).limiter_threshold_spec(),
                old(self).target_rms_spec(),
            ));
        }
        processed
    }
}

} // verus!
