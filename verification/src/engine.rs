//! The audio engine: a noise gate, a soft-knee peak limiter and peak
//! normalization, applied in that order.  The limiter's hard clamp to
//! the configured target peak is a guarantee, not a heuristic: no
//! sample it emits ever exceeds that bound in magnitude.

use vstd::prelude::*;
use crate::fixed::SCALE;
use crate::fixed::AMP_LIMIT;
use crate::fixed::abs_v;
use crate::fixed::abs64;
use crate::fixed::qmul;
use crate::fixed::qdiv;
use crate::fixed::clamp_v;
use crate::fixed::clamp64;
use crate::fixed::wf_buf;
use crate::fixed::bounded_by;
use crate::fixed::max_abs;
use crate::fixed::peak_abs;
use crate::fixed::mul_q;
use crate::fixed::scale_div;
use crate::fixed::lemma_abs_mul;
use crate::fixed::lemma_prod_bound;
use crate::fixed::lemma_tdiv_bound;
use crate::fixed::lemma_tdiv_sign;
use crate::fixed::lemma_tdiv_exact;
use crate::math::db_to_linear;
use crate::utils::scaled_by;
use crate::utils::normalize_to_peak;

verus! {

/// Largest compression ratio the fixed-point arithmetic admits
/// (one thousand to one).
pub const RATIO_LIMIT: i64 = 1_000_000_000;

/// Largest make-up gain magnitude the fixed-point arithmetic admits,
/// in micro-decibels (sixty decibels).
pub const MAKE_UP_LIMIT: i64 = 60_000_000;

/// Errors surfaced by the audio engine.
#[derive(Debug)]
pub enum AudioProcessingError {
    /// An empty buffer was handed to an operation that needs samples.
    EmptyBuffer,
    /// A configuration or processing step was invalid.
    ProcessingError(String),
}

impl AudioProcessingError {
    /// A human-readable description of the error.
    pub fn message(&self) -> (r: String)
        ensures
            self is EmptyBuffer ==> r@ == "Empty audio buffer provided"@,
            self is ProcessingError ==> r@ == self->ProcessingError_0@,
    {
        match self {
            AudioProcessingError::EmptyBuffer => "Empty audio buffer provided".to_string(),
            AudioProcessingError::ProcessingError(s) => s.clone(),
        }
    }
}

/// Configuration of the engine's soft limiter.  All levels are
/// micro-unit amplitudes; the make-up gain is in micro-decibels.
#[derive(Debug, Clone, Copy)]
pub struct LimiterConfig {
    /// Level where limiting starts, in `[0, SCALE]`.
    pub threshold: i64,
    /// Relative knee width, in `[0, SCALE]`.
    pub knee_width: i64,
    /// Make-up gain applied after limiting, in micro-decibels.
    pub make_up_gain: i64,
    /// Compression ratio above the knee, at least `SCALE` (1:1).
    pub ratio: i64,
}

impl LimiterConfig {
    /// The ranges the engine's arithmetic needs.
    pub open spec fn wf(&self) -> bool {
        &&& 0 <= self.threshold <= SCALE
        &&& 0 <= self.knee_width <= SCALE
        &&& -MAKE_UP_LIMIT <= self.make_up_gain <= MAKE_UP_LIMIT
        &&& SCALE <= self.ratio <= RATIO_LIMIT
    }
}

impl Default for LimiterConfig {
    /// Limiting from ninety percent of full scale, a ten percent knee,
    /// no make-up gain, and an eight-to-one ratio.
    fn default() -> (r: LimiterConfig)
        ensures
            r.wf(),
            r.threshold == 900_000,
            r.knee_width == 100_000,
            r.make_up_gain == 0,
            r.ratio == 8_000_000,
    {
        LimiterConfig { threshold: 900_000, knee_width: 100_000, make_up_gain: 0, ratio: 8_000_000 }
    }
}

/// The noise-gate cutoff: the configured fraction of the buffer's peak.
pub open spec fn gate_cut(s: Seq<i64>, nrt: int) -> int {
    qmul(max_abs(s), nrt)
}

/// One sample through the noise gate: a non-zero sample strictly more
/// than one micro-unit below the cutoff is silenced; everything else
/// passes.
pub open spec fn gate_sample(x: int, cut: int) -> int {
    if abs_v(x) < cut - 1 && abs_v(x) > 0 {
        0
    } else {
        x
    }
}

/// The whole buffer through the noise gate.
pub open spec fn gate_seq(s: Seq<i64>, nrt: int) -> Seq<i64> {
    Seq::new(s.len(), |i: int| gate_sample(s[i] as int, gate_cut(s, nrt)) as i64)
}

/// One sample through the soft-knee limiter: below the knee only the
/// make-up gain `mug` applies; inside the knee the gain bends along a
/// quadratic; above it the overage is divided by the ratio; and the
/// result is always clamped to the target peak.
pub open spec fn limit_sample(
    x: int,
    thr: int,
    knee: int,
    ratio: int,
    mug: int,
    peak: int,
) -> int {
    let a = abs_v(x);
    let lower = qmul(thr, SCALE as int - knee);
    let upper = qmul(thr, SCALE as int + knee);
    let shaped = if a <= lower {
        qmul(a, mug)
    } else if a < upper {
        let kneew = upper - lower;
        let compression = qdiv(a - lower, kneew);
        let tg = SCALE as int + qmul(ratio - SCALE as int, qmul(compression, compression));
        qmul(lower + qdiv(a - lower, tg), mug)
    } else {
        qmul(thr + qdiv(a - thr, ratio), mug)
    };
    let signed = if x >= 0 {
        shaped
    } else {
        -shaped
    };
    clamp_v(signed, peak)
}

/// The whole buffer through the limiter.
pub open spec fn limit_seq(
    s: Seq<i64>,
    thr: int,
    knee: int,
    ratio: int,
    mug: int,
    peak: int,
) -> Seq<i64> {
    Seq::new(s.len(), |i: int| limit_sample(s[i] as int, thr, knee, ratio, mug, peak) as i64)
}

/// One sample through the limiter, in exec code.
fn limit_one(x: i64, thr: i64, knee: i64, ratio: i64, mug: i64, peak: i64) -> (r: i64)
    requires
        0 <= thr <= SCALE,
        0 <= knee <= SCALE,
        SCALE <= ratio <= RATIO_LIMIT,
        0 <= mug <= 9_000_000_000_000,
        0 <= peak <= SCALE,
        -AMP_LIMIT <= x <= AMP_LIMIT,
    ensures
        r as int == limit_sample(x as int, thr as int, knee as int, ratio as int, mug as int, peak as int),
        -peak <= r <= peak,
{
    let a = abs64(x);
    proof {
        lemma_prod_bound(thr as int, SCALE as int - knee as int, SCALE as int, 2 * SCALE as int);
        lemma_prod_bound(thr as int, SCALE as int + knee as int, SCALE as int, 2 * SCALE as int);
    }
    let lower = mul_q(thr, SCALE - knee);
    let upper = mul_q(thr, SCALE + knee);
    proof {
        lemma_tdiv_sign((thr as int) * (SCALE as int - knee as int), SCALE as int);
        lemma_tdiv_sign((thr as int) * (SCALE as int + knee as int), SCALE as int);
        assert((thr as int) * (SCALE as int - knee as int) >= 0) by (nonlinear_arith)
            requires
                thr >= 0,
                knee <= SCALE,
        ;
        assert((thr as int) * (SCALE as int + knee as int) >= 0) by (nonlinear_arith)
            requires
                thr >= 0,
                knee >= 0,
        ;
        lemma_tdiv_bound(
            (thr as int) * (SCALE as int - knee as int),
            SCALE as int,
            2_000_000int,
        );
        lemma_tdiv_bound(
            (thr as int) * (SCALE as int + knee as int),
            SCALE as int,
            2_000_000int,
        );
    }
    let shaped: i64 = if a <= lower {
        proof {
            lemma_abs_mul(a as int, mug as int);
            lemma_prod_bound(a as int, mug as int, AMP_LIMIT as int, 9_000_000_000_000int);
            lemma_tdiv_sign((a as int) * (mug as int), SCALE as int);
            assert((a as int) * (mug as int) >= 0) by (nonlinear_arith)
                requires
                    a >= 0,
                    mug >= 0,
            ;
        }
        mul_q(a, mug)
    } else if a < upper {
        let kneew = upper - lower;
        proof {
            lemma_abs_mul((a - lower) as int, SCALE as int);
            assert(abs_v((a - lower) as int) * (SCALE as int) <= (kneew as int) * (
            i64::MAX as int)) by (nonlinear_arith)
                requires
                    0 < a - lower,
                    a - lower <= kneew,
                    SCALE == 1_000_000i64,
            ;
        }
        let compression = scale_div(a - lower, SCALE, kneew);
        proof {
            lemma_tdiv_sign((a as int - lower as int) * (SCALE as int), kneew as int);
            assert((a as int - lower as int) * (SCALE as int) <= (SCALE as int) * (
            kneew as int)) by (nonlinear_arith)
                requires
                    a - lower <= kneew,
                    SCALE == 1_000_000i64,
            ;
            lemma_tdiv_bound(
                (a as int - lower as int) * (SCALE as int),
                kneew as int,
                SCALE as int,
            );
            assert((a as int - lower as int) * (SCALE as int) >= 0) by (nonlinear_arith)
                requires
                    a >= lower,
            ;
        }
        proof {
            lemma_prod_bound(compression as int, compression as int, SCALE as int, SCALE as int);
        }
        let c2 = mul_q(compression, compression);
        proof {
            lemma_tdiv_sign((compression as int) * (compression as int), SCALE as int);
            assert((compression as int) * (compression as int) >= 0) by (nonlinear_arith);
            lemma_tdiv_bound(
                (compression as int) * (compression as int),
                SCALE as int,
                SCALE as int,
            );
        }
        proof {
            lemma_prod_bound(
                ratio as int - SCALE as int,
                c2 as int,
                RATIO_LIMIT as int,
                SCALE as int,
            );
        }
        let rc = mul_q(ratio - SCALE, c2);
        proof {
            lemma_tdiv_sign((ratio as int - SCALE as int) * (c2 as int), SCALE as int);
            assert((ratio as int - SCALE as int) * (c2 as int) >= 0) by (nonlinear_arith)
                requires
                    ratio >= SCALE,
                    c2 >= 0,
            ;
            lemma_tdiv_bound(
                (ratio as int - SCALE as int) * (c2 as int),
                SCALE as int,
                RATIO_LIMIT as int,
            );
        }
        let tg = SCALE + rc;
        proof {
            lemma_abs_mul((a - lower) as int, SCALE as int);
            assert(abs_v((a - lower) as int) * (SCALE as int) <= (tg as int) * (i64::MAX as int))
                by (nonlinear_arith)
                requires
                    0 < a - lower <= 2_000_000_000_000i64,
                    tg >= SCALE,
                    SCALE == 1_000_000i64,
            ;
        }
        let bent = scale_div(a - lower, SCALE, tg);
        proof {
            // dividing by at least full scale cannot grow the overage
            lemma_tdiv_sign((a as int - lower as int) * (SCALE as int), tg as int);
            vstd::arithmetic::div_mod::lemma_div_is_ordered_by_denominator(
                (a as int - lower as int) * (SCALE as int),
                SCALE as int,
                tg as int,
            );
            lemma_tdiv_exact(a as int - lower as int, SCALE as int);
            assert((a as int - lower as int) * (SCALE as int) >= 0) by (nonlinear_arith)
                requires
                    a >= lower,
            ;
            assert(bent as int <= a as int - lower as int);
        }
        let inner = lower + bent;
        proof {
            lemma_abs_mul(inner as int, mug as int);
            lemma_prod_bound(inner as int, mug as int, AMP_LIMIT as int, 9_000_000_000_000int);
            lemma_tdiv_sign((inner as int) * (mug as int), SCALE as int);
            assert((inner as int) * (mug as int) >= 0) by (nonlinear_arith)
                requires
                    inner >= 0,
                    mug >= 0,
            ;
        }
        mul_q(inner, mug)
    } else {
        proof {
            // the upper knee edge is at least the threshold, so the
            // overage is non-negative
            lemma_tdiv_exact(thr as int, SCALE as int);
            assert((thr as int) * (SCALE as int) <= (thr as int) * (SCALE as int + knee as int))
                by (nonlinear_arith)
                requires
                    thr >= 0,
                    knee >= 0,
            ;
            vstd::arithmetic::div_mod::lemma_div_is_ordered(
                (thr as int) * (SCALE as int),
                (thr as int) * (SCALE as int + knee as int),
                SCALE as int,
            );
            assert(upper as int >= thr as int);
        }
        let over = a - thr;
        proof {
            lemma_abs_mul(over as int, SCALE as int);
            assert(abs_v(over as int) * (SCALE as int) <= (ratio as int) * (i64::MAX as int))
                by (nonlinear_arith)
                requires
                    0 <= over <= 2_000_000_000_000i64,
                    ratio >= SCALE,
                    SCALE == 1_000_000i64,
            ;
            assert((over as int) * (SCALE as int) >= 0) by (nonlinear_arith)
                requires
                    over >= 0,
            ;
        }
        let reduced = scale_div(over, SCALE, ratio);
        proof {
            lemma_tdiv_sign((over as int) * (SCALE as int), ratio as int);
            vstd::arithmetic::div_mod::lemma_div_is_ordered_by_denominator(
                (over as int) * (SCALE as int),
                SCALE as int,
                ratio as int,
            );
            lemma_tdiv_exact(over as int, SCALE as int);
            assert(reduced as int <= over as int);
        }
        let limited = thr + reduced;
        proof {
            lemma_abs_mul(limited as int, mug as int);
            lemma_prod_bound(limited as int, mug as int, AMP_LIMIT as int, 9_000_000_000_000int);
            lemma_tdiv_sign((limited as int) * (mug as int), SCALE as int);
            assert((limited as int) * (mug as int) >= 0) by (nonlinear_arith)
                requires
                    limited >= 0,
                    mug >= 0,
            ;
        }
        mul_q(limited, mug)
    };
    let signed: i64 = if x >= 0 {
        shaped
    } else {
        -shaped
    };
    clamp64(signed, peak)
}

/// The engine itself: gate and limiter settings plus the target peak.
pub struct AudioEngine {
    /// Fraction of the peak below which samples are gated to silence,
    /// in `[0, SCALE]`.
    pub noise_reduction_threshold: i64,
    /// Peak amplitude the output is normalized to, in `[0, SCALE]`.
    pub target_peak: i64,
    /// The soft limiter's configuration.
    pub limiter: LimiterConfig,
}

impl Default for AudioEngine {
    /// The same settings as `AudioEngine::new`.
    fn default() -> (r: AudioEngine)
        ensures
            r.wf(),
            r.noise_reduction_threshold == 50_000,
            r.target_peak == 950_000,
    {
        AudioEngine::new()
    }
}

impl AudioEngine {
    /// The field ranges every constructor establishes.
    pub open spec fn wf(&self) -> bool {
        &&& 0 <= self.noise_reduction_threshold <= SCALE
        &&& 0 <= self.target_peak <= SCALE
        &&& self.limiter.wf()
    }

    /// An engine gating at five percent of the peak and normalizing to
    /// ninety-five percent of full scale.
    pub fn new() -> (r: AudioEngine)
        ensures
            r.wf(),
            r.noise_reduction_threshold == 50_000,
            r.target_peak == 950_000,
            r.limiter.threshold == 900_000,
            r.limiter.knee_width == 100_000,
            r.limiter.make_up_gain == 0,
            r.limiter.ratio == 8_000_000,
    {
        AudioEngine {
            noise_reduction_threshold: 50_000,
            target_peak: 950_000,
            limiter: LimiterConfig {
                threshold: 900_000,
                knee_width: 100_000,
                make_up_gain: 0,
                ratio: 8_000_000,
            },
        }
    }

    /// An engine with the given noise threshold and target peak and
    /// the default limiter; either outside `[0, SCALE]` is an error.
    pub fn with_settings(noise_reduction_threshold: i64, target_peak: i64) -> (r: Result<
        AudioEngine,
        AudioProcessingError,
    >)
        ensures
            (r is Ok) <==> (0 <= noise_reduction_threshold <= SCALE && 0 <= target_peak <= SCALE),
            r is Ok ==> r->Ok_0.wf() && r->Ok_0.noise_reduction_threshold
                == noise_reduction_threshold && r->Ok_0.target_peak == target_peak
                && r->Ok_0.limiter == (LimiterConfig {
                threshold: 900_000,
                knee_width: 100_000,
                make_up_gain: 0,
                ratio: 8_000_000,
            }),
            r is Err ==> r->Err_0 is ProcessingError,
    {
        AudioEngine::with_limiter(
            noise_reduction_threshold,
            target_peak,
            LimiterConfig { threshold: 900_000, knee_width: 100_000, make_up_gain: 0, ratio: 8_000_000 },
        )
    }

    /// An engine with the given noise threshold, target peak and
    /// limiter settings; an error comes back unless the noise
    /// threshold, target peak, limiter threshold and knee width all
    /// lie in `[0, SCALE]` and the ratio is at least `SCALE`.
    pub fn with_limiter(
        noise_reduction_threshold: i64,
        target_peak: i64,
        limiter: LimiterConfig,
    ) -> (r: Result<AudioEngine, AudioProcessingError>)
        requires
            limiter.ratio <= RATIO_LIMIT,
            -MAKE_UP_LIMIT <= limiter.make_up_gain <= MAKE_UP_LIMIT,
        ensures
            (r is Ok) <==> (0 <= noise_reduction_threshold <= SCALE && 0 <= target_peak <= SCALE
                && 0 <= limiter.threshold <= SCALE && 0 <= limiter.knee_width <= SCALE
                && limiter.ratio >= SCALE),
            r is Ok ==> r->Ok_0.wf() && r->Ok_0 == (AudioEngine {
                noise_reduction_threshold,
                target_peak,
                limiter,
            }),
            r is Err ==> r->Err_0 is ProcessingError,
    {
        if !(0 <= noise_reduction_threshold && noise_reduction_threshold <= SCALE)
            || !(0 <= target_peak && target_peak <= SCALE)
            || !(0 <= limiter.threshold && limiter.threshold <= SCALE)
            || !(0 <= limiter.knee_width && limiter.knee_width <= SCALE)
            || limiter.ratio < SCALE {
            return Err(
                AudioProcessingError::ProcessingError(
                    "Invalid settings: thresholds must be between 0.0 and 1.0, and ratio must be >= 1.0".to_string(),
                ),
            );
        }
        Ok(AudioEngine { noise_reduction_threshold, target_peak, limiter })
    }

    /// Gates the buffer in place: samples whose magnitude falls more
    /// than one micro-unit below the configured fraction of the
    /// buffer's peak are zeroed; every other sample passes untouched.
    pub fn apply_noise_reduction(&self, audio: &mut Vec<i64>) -> (r: Result<
        (),
        AudioProcessingError,
    >)
        requires
            self.wf(),
            wf_buf(old(audio)@),
        ensures
            (r is Err) <==> old(audio)@.len() == 0,
            r is Err ==> r->Err_0 is EmptyBuffer && final(audio)@ == old(audio)@,
            r is Ok ==> final(audio)@ == gate_seq(
                old(audio)@,
                self.noise_reduction_threshold as int,
            ),
            final(audio)@.len() == old(audio)@.len(),
            wf_buf(final(audio)@),
    {
        let ghost orig = old(audio)@;
        if audio.len() == 0 {
            return Err(AudioProcessingError::EmptyBuffer);
        }
        let peak = peak_abs(audio);
        proof {
            lemma_tdiv_sign((peak as int) * (self.noise_reduction_threshold as int), SCALE as int);
            lemma_prod_bound(
                peak as int,
                self.noise_reduction_threshold as int,
                AMP_LIMIT as int,
                SCALE as int,
            );
            assert((peak as int) * (self.noise_reduction_threshold as int) >= 0)
                by (nonlinear_arith)
                requires
                    peak >= 0,
                    self.noise_reduction_threshold >= 0,
            ;
        }
        let cut = mul_q(peak, self.noise_reduction_threshold);
        proof {
            lemma_tdiv_bound(
                (peak as int) * (self.noise_reduction_threshold as int),
                SCALE as int,
                AMP_LIMIT as int,
            );
        }
        let n = audio.len();
        let mut i: usize = 0;
        while i < n
            invariant
                0 <= i <= n,
                n == orig.len(),
                audio@.len() == orig.len(),
                wf_buf(orig),
                cut as int == gate_cut(orig, self.noise_reduction_threshold as int),
                0 <= cut <= AMP_LIMIT,
                forall|j: int| i <= j < n ==> audio@[j] == orig[j],
                forall|j: int|
                    0 <= j < i ==> #[trigger] audio@[j] as int == gate_sample(
                        orig[j] as int,
                        cut as int,
                    ),
            decreases n - i,
        {
            let x = audio[i];
            proof {
                assert(audio@[i as int] == orig[i as int]);
                assert(-AMP_LIMIT <= orig[i as int] <= AMP_LIMIT);
            }
            let ax = abs64(x);
            if ax < cut - 1 && ax > 0 {
                audio.set(i, 0);
            } else {
                audio.set(i, x);
            }
            i = i + 1;
        }
        proof {
            assert(audio@ =~= gate_seq(orig, self.noise_reduction_threshold as int));
            assert(forall|j: int|
                0 <= j < audio@.len() ==> -AMP_LIMIT <= #[trigger] audio@[j] <= AMP_LIMIT);
        }
        Ok(())
    }

    /// Applies the soft-knee limiter in place.  Afterwards no sample
    /// exceeds the configured target peak in magnitude, whatever the
    /// input amplitudes were.
    pub fn apply_soft_limiter(&self, samples: &mut Vec<i64>)
        requires
            self.wf(),
            wf_buf(old(samples)@),
        ensures
            final(samples)@.len() == old(samples)@.len(),
            bounded_by(final(samples)@, self.target_peak as int),
            wf_buf(final(samples)@),
            final(samples)@ == limit_seq(
                old(samples)@,
                self.limiter.threshold as int,
                self.limiter.knee_width as int,
                self.limiter.ratio as int,
                crate::math::db_to_linear_s(self.limiter.make_up_gain as int),
                self.target_peak as int,
            ),
    {
        let ghost orig = old(samples)@;
        let mug = db_to_linear(self.limiter.make_up_gain);
        let n = samples.len();
        let mut i: usize = 0;
        while i < n
            invariant
                0 <= i <= n,
                n == orig.len(),
                samples@.len() == orig.len(),
                wf_buf(orig),
                self.wf(),
                0 <= mug <= 9_000_000_000_000,
                forall|j: int| i <= j < n ==> samples@[j] == orig[j],
                forall|j: int|
                    0 <= j < i ==> #[trigger] samples@[j] as int == limit_sample(
                        orig[j] as int,
                        self.limiter.threshold as int,
                        self.limiter.knee_width as int,
                        self.limiter.ratio as int,
                        mug as int,
                        self.target_peak as int,
                    ) && -self.target_peak <= samples@[j] <= self.target_peak,
            decreases n - i,
        {
            let x = samples[i];
            proof {
                assert(samples@[i as int] == orig[i as int]);
                assert(-AMP_LIMIT <= orig[i as int] <= AMP_LIMIT);
            }
            let y = limit_one(
                x,
                self.limiter.threshold,
                self.limiter.knee_width,
                self.limiter.ratio,
                mug,
                self.target_peak,
            );
            samples.set(i, y);
            i = i + 1;
        }
        proof {
            let m = mug as int;
            assert(samples@ =~= limit_seq(
                orig,
                self.limiter.threshold as int,
                self.limiter.knee_width as int,
                self.limiter.ratio as int,
                m,
                self.target_peak as int,
            ));
            assert(forall|j: int|
                0 <= j < samples@.len() ==> -AMP_LIMIT <= #[trigger] samples@[j] <= AMP_LIMIT);
        }
    }

    /// Scales the buffer in place so that its peak equals the target
    /// peak exactly; a silent buffer is left unchanged.
    pub fn normalize_audio(&self, audio: &mut Vec<i64>) -> (r: Result<(), AudioProcessingError>)
        requires
            self.wf(),
            wf_buf(old(audio)@),
        ensures
            (r is Err) <==> old(audio)@.len() == 0,
            r is Err ==> r->Err_0 is EmptyBuffer && final(audio)@ == old(audio)@,
            final(audio)@.len() == old(audio)@.len(),
            wf_buf(final(audio)@),
            r is Ok && max_abs(old(audio)@) == 0 ==> final(audio)@ == old(audio)@,
            r is Ok && max_abs(old(audio)@) > 0 ==> final(audio)@ == scaled_by(
                old(audio)@,
                self.target_peak as int,
                max_abs(old(audio)@),
            ) && max_abs(final(audio)@) == self.target_peak as int,
    {
        if audio.len() == 0 {
            return Err(AudioProcessingError::EmptyBuffer);
        }
        normalize_to_peak(audio, self.target_peak);
        Ok(())
    }

    /// Runs the engine's chain: noise gate, then the soft limiter, then
    /// peak normalization.  An empty input is rejected; otherwise the
    /// output has the input's length and never exceeds the target peak,
    /// and a non-silent limited signal lands exactly on it.
    pub fn process(&self, input: Vec<i64>) -> (r: Result<Vec<i64>, AudioProcessingError>)
        requires
            self.wf(),
            wf_buf(input@),
        ensures
            (r is Err) <==> input@.len() == 0,
            r is Err ==> r->Err_0 is EmptyBuffer,
            r is Ok ==> r->Ok_0@.len() == input@.len(),
            r is Ok ==> bounded_by(r->Ok_0@, self.target_peak as int),
            r is Ok ==> {
                let gated = gate_seq(input@, self.noise_reduction_threshold as int);
                let limited = limit_seq(
                    gated,
                    self.limiter.threshold as int,
                    self.limiter.knee_width as int,
                    self.limiter.ratio as int,
                    crate::math::db_to_linear_s(self.limiter.make_up_gain as int),
                    self.target_peak as int,
                );
                &&& (max_abs(limited) == 0 ==> r->Ok_0@ == limited)
                &&& (max_abs(limited) > 0 ==> r->Ok_0@ == scaled_by(
                    limited,
                    self.target_peak as int,
                    max_abs(limited),
                ) && max_abs(r->Ok_0@) == self.target_peak as int)
            },
    {
        let mut audio = input;
        if audio.len() == 0 {
            return Err(AudioProcessingError::EmptyBuffer);
        }
        let gate_result = self.apply_noise_reduction(&mut audio);
        proof {
            assert(gate_result is Ok);
        }
        self.apply_soft_limiter(&mut audio);
        let norm_result = self.normalize_audio(&mut audio);
        proof {
            assert(norm_result is Ok);
            let out = audio@;
            assert forall|j: int|
                0 <= j < out.len() implies -self.target_peak <= #[trigger] out[j]
                <= self.target_peak by {
                crate::fixed::lemma_max_abs_ge_elem(out, j);
            }
        }
        Ok(audio)
    }
}

} // verus!
