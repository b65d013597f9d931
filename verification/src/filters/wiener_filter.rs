//! Spectral noise reduction: short-time analysis with a raised-cosine
//! window, a Wiener-style per-bin attenuation against a noise
//! magnitude profile, and overlap-add reconstruction; together with
//! the estimator that builds such a profile from a noise-only
//! recording.
//!
//! Every step of the pipeline is stated at the spec level — the
//! window, the trigonometric tables, the forward and inverse
//! transforms, the per-bin gains, the running spectral estimate and
//! the overlap-add accumulators — and the two public functions
//! promise their outputs equal those definitions exactly.

use vstd::prelude::*;
use crate::fixed::SCALE;
use crate::fixed::AMP_LIMIT;
use crate::fixed::tdiv;
use crate::fixed::tdiv128;
use crate::fixed::clamp_v;
use crate::fixed::wf_buf;
use crate::fixed::isqrt128;
use crate::fixed::sqrt_floor;
use crate::fixed::lemma_sqrt_floor_unique;
use crate::fixed::lemma_ceil_div_unique;
use crate::fixed::lemma_prod_bound;
use crate::fixed::lemma_tdiv_bound;
use crate::fixed::lemma_tdiv_sign;
use crate::math::TWO_PI_Q;
use crate::math::cos_q;
use crate::math::cos_q_s;

verus! {

/// Largest transform size the analysis accepts.
pub const MAX_FFT: usize = 32_768;

/// Largest magnitude a spectral bin can take: the transform size times
/// the amplitude range, with headroom.
pub const BIN_LIMIT: i64 = 33_000_000_000_000_000;

/// Largest magnitude a noise-profile entry may take.
pub const PROFILE_LIMIT: i64 = 50_000_000_000_000_000;

/// Largest magnitude the running spectral estimate may take.
pub const EST_LIMIT: i64 = 50_000_000_000_000_000;

/// Every entry is a magnitude inside `[0, PROFILE_LIMIT]`.
pub open spec fn wf_profile(s: Seq<i64>) -> bool {
    forall|i: int| 0 <= i < s.len() ==> 0 <= #[trigger] s[i] <= PROFILE_LIMIT
}

/// `x` is a power of two.
pub open spec fn is_pow2(x: int) -> bool
    decreases x,
{
    if x <= 0 {
        false
    } else if x == 1 {
        true
    } else {
        x % 2 == 0 && is_pow2(x / 2)
    }
}

/// The doubling search for the next power of two, from `r` upward.
pub open spec fn np2_s(r: int, n: int) -> int
    decreases 32_768 - r,
{
    if r < 1 {
        r
    } else if r >= n {
        r
    } else if r >= 16_384 {
        32_768
    } else {
        np2_s(2 * r, n)
    }
}

/// The smallest power of two at or above `n`, within the transform
/// range.
pub open spec fn next_pow2_s(n: int) -> int {
    np2_s(1, n)
}

/// The transform size the analysis actually uses: the rounded-up
/// power of two, floored at two.
pub open spec fn used_fft_s(fft_size: int) -> int {
    let p = next_pow2_s(fft_size);
    if p < 2 {
        2
    } else {
        p
    }
}

/// The number of half-open analysis windows a buffer of `len` samples
/// yields at hop `hop`.
pub open spec fn win_count_s(len: int, hop: int) -> int {
    (len + hop - 1) / hop
}

/// The smallest power of two at or above `n`, for `n` within the
/// transform range; equals `next_pow2_s` exactly.
pub fn next_pow2(n: usize) -> (r: usize)
    requires
        1 <= n <= MAX_FFT,
    ensures
        r as int == next_pow2_s(n as int),
        is_pow2(r as int),
        n <= r <= MAX_FFT,
{
    let mut r: usize = 1;
    proof {
        assert(is_pow2(1));
    }
    while r < n
        invariant
            1 <= r <= MAX_FFT,
            is_pow2(r as int),
            n <= MAX_FFT,
            np2_s(1, n as int) == np2_s(r as int, n as int),
        decreases MAX_FFT - r,
    {
        if r >= 16_384 {
            proof {
                assert(is_pow2(32_768)) by {
                    reveal_with_fuel(is_pow2, 20);
                }
            }
            r = 32_768;
        } else {
            proof {
                assert(is_pow2(2 * r as int)) by {
                    assert((2 * r as int) % 2 == 0) by (nonlinear_arith);
                    assert((2 * r as int) / 2 == r as int) by (nonlinear_arith);
                }
            }
            r = r * 2;
        }
    }
    proof {
        assert(np2_s(r as int, n as int) == r as int);
    }
    r
}

/// The raised-cosine analysis window at index `i` of an `n`-point
/// frame.
pub open spec fn hann_s(n: int, i: int) -> int {
    if n == 1 {
        0
    } else {
        (1_000_000 - cos_q_s(tdiv(6_283_185 * i, n - 1))) / 2
    }
}

/// The cosine table entry at index `i` for an `n`-point transform.
pub open spec fn cos_tab_s(n: int, i: int) -> int {
    cos_q_s(tdiv(6_283_185 * i, n))
}

/// The sine table entry at index `i`, as the shifted cosine.
pub open spec fn sin_tab_s(n: int, i: int) -> int {
    cos_q_s(tdiv(6_283_185 * i, n) - 1_570_796)
}

/// One windowed frame sample: the signal at `start + j` under the
/// window, zero past the signal's end.
pub open spec fn frame_s(sig: Seq<i64>, n: int, start: int, j: int) -> int {
    if start + j < sig.len() {
        tdiv((sig[start + j] as int) * hann_s(n, j), 1_000_000)
    } else {
        0
    }
}

/// The whole windowed frame starting at `start`.
pub open spec fn frame_seq_s(sig: Seq<i64>, n: int, start: int) -> Seq<i64> {
    Seq::new(n as nat, |j: int| frame_s(sig, n, start, j) as i64)
}

/// The running real part of the forward transform: the first `j`
/// terms of the frame correlated with the cosine at bin `k`.
pub open spec fn dft_re_acc_s(frame: Seq<i64>, n: int, k: int, j: int) -> int
    decreases j,
{
    if j <= 0 {
        0
    } else {
        dft_re_acc_s(frame, n, k, j - 1) + (frame[j - 1] as int) * cos_tab_s(n, ((j - 1) * k) % n)
    }
}

/// The running imaginary part, with the transform's negated sine.
pub open spec fn dft_im_acc_s(frame: Seq<i64>, n: int, k: int, j: int) -> int
    decreases j,
{
    if j <= 0 {
        0
    } else {
        dft_im_acc_s(frame, n, k, j - 1) - (frame[j - 1] as int) * sin_tab_s(n, ((j - 1) * k) % n)
    }
}

/// The real part of bin `k` of the forward transform.
pub open spec fn dft_re_s(frame: Seq<i64>, n: int, k: int) -> int {
    tdiv(dft_re_acc_s(frame, n, k, n), 1_000_000)
}

/// The imaginary part of bin `k` of the forward transform.
pub open spec fn dft_im_s(frame: Seq<i64>, n: int, k: int) -> int {
    tdiv(dft_im_acc_s(frame, n, k, n), 1_000_000)
}

/// The running inverse-transform sum at output index `j`: the first
/// `k` bins, interior bins weighted twice for their mirror images.
pub open spec fn inv_acc_s(re: Seq<i64>, im: Seq<i64>, n: int, j: int, k: int) -> int
    decreases k,
{
    if k <= 0 {
        0
    } else {
        let idx = ((k - 1) * j) % n;
        let term = tdiv((re[k - 1] as int) * cos_tab_s(n, idx), 1_000_000) - tdiv(
            (im[k - 1] as int) * sin_tab_s(n, idx),
            1_000_000,
        );
        let weight: int = if k - 1 == 0 || k - 1 == n / 2 {
            1
        } else {
            2
        };
        inv_acc_s(re, im, n, j, k - 1) + weight * term
    }
}

/// Output sample `j` of the inverse transform, scaled by the
/// transform size.
pub open spec fn inv_dft_s(re: Seq<i64>, im: Seq<i64>, n: int, j: int) -> int {
    tdiv(inv_acc_s(re, im, n, j, n / 2 + 1), n)
}

/// The squared magnitude of one bin, in micro-units.
pub open spec fn bin_power_s(re: int, im: int) -> int {
    tdiv(re * re, 1_000_000) + tdiv(im * im, 1_000_000)
}

/// The squared magnitude of one noise-profile entry.
pub open spec fn noise_power_s(m: int) -> int {
    tdiv(m * m, 1_000_000)
}

/// The Wiener gain: signal power over total power, with one
/// micro-unit of regularization.
pub open spec fn wiener_gain_s(p: int, np: int) -> int {
    tdiv(p * 1_000_000, p + np + 1)
}

/// One smoothing step of the clean-spectrum estimate, saturated to
/// the estimate range.
pub open spec fn estimate_update_s(est: int, sp: int, snr: int, sm: int) -> int {
    let weighted = tdiv(sp * snr, 1_000_000);
    let old_part = tdiv(est * sm, 1_000_000);
    let new_part = tdiv(weighted * (1_000_000 - sm), 1_000_000);
    clamp_v(old_part + new_part, EST_LIMIT as int)
}

/// The profile entry for bin `k`, zero where the profile is short.
pub open spec fn pad_profile_s(prof: Seq<i64>, k: int) -> int {
    if k < prof.len() {
        prof[k] as int
    } else {
        0
    }
}

/// The accumulated (and capped) power of bin `k` after `w` analysis
/// windows of the estimator.
pub open spec fn est_power_acc_s(sig: Seq<i64>, n: int, hop: int, k: int, w: int) -> int
    decreases w,
{
    if w <= 0 {
        0
    } else {
        let prev = est_power_acc_s(sig, n, hop, k, w - 1);
        let frame = frame_seq_s(sig, n, (w - 1) * hop);
        let p = bin_power_s(dft_re_s(frame, n, k), dft_im_s(frame, n, k));
        let updated = prev + p;
        if updated > 1_000_000_000_000_000_000_000_000_000_000_000 {
            1_000_000_000_000_000_000_000_000_000_000_000
        } else {
            updated
        }
    }
}

/// Bin `k` of the estimated noise profile: the floor root of the
/// power spectrum averaged over the half-overlapping windows, with
/// the average capped for the fixed-point range.
pub open spec fn noise_bin_s(sig: Seq<i64>, n: int, hop: int, k: int) -> int {
    let w = win_count_s(sig.len() as int, hop);
    let avg_raw = tdiv(est_power_acc_s(sig, n, hop, k, w), w);
    let avg = if avg_raw > 2_500_000_000_000_000_000_000_000_000 {
        2_500_000_000_000_000_000_000_000_000
    } else {
        avg_raw
    };
    sqrt_floor(avg * 1_000_000)
}

/// The estimator's transform size for a requested size: the
/// rounded-up power of two, floored at two.
pub open spec fn est_n_s(fft_size: int) -> int {
    used_fft_s(fft_size)
}

/// The estimator's hop: half the transform, at least one.
pub open spec fn est_hop_s(n: int) -> int {
    if n / 2 == 0 {
        1
    } else {
        n / 2
    }
}

/// Estimates the per-bin noise magnitude profile from a noise-only
/// buffer: the power spectrum is averaged over half-overlapping
/// windows and its square root taken bin-wise.  An empty buffer or a
/// zero transform size yields an empty profile; otherwise the result
/// has one entry per bin of the rounded-up transform, and each entry
/// equals `noise_bin_s` exactly.
pub fn estimate_noise_profile(noise_signal: &Vec<i64>, fft_size: usize) -> (r: Vec<i64>)
    requires
        wf_buf(noise_signal@),
        fft_size <= MAX_FFT,
    ensures
        noise_signal@.len() == 0 || fft_size == 0 ==> r@.len() == 0,
        noise_signal@.len() > 0 && fft_size > 0 ==> r@.len() == used_fft_s(fft_size as int) / 2
            + 1,
        noise_signal@.len() > 0 && fft_size > 0 ==> forall|k: int|
            0 <= k < r@.len() ==> #[trigger] r@[k] as int == noise_bin_s(
                noise_signal@,
                used_fft_s(fft_size as int),
                est_hop_s(used_fft_s(fft_size as int)),
                k,
            ),
        noise_signal@.len() > 0 && fft_size > 0 ==> r@.len() >= fft_size / 2 + 1,
        wf_profile(r@),
{
    let mut profile: Vec<i64> = Vec::new();
    if noise_signal.len() == 0 || fft_size == 0 {
        return profile;
    }
    let n0 = next_pow2(fft_size);
    let n = if n0 < 2 {
        2
    } else {
        n0
    };
    let bins = n / 2 + 1;
    let window = hann_window(n);
    let (cos_t, sin_t) = trig_tables(n);
    let hop = if n / 2 == 0 {
        1
    } else {
        n / 2
    };
    let len = noise_signal.len();
    let ghost sig = noise_signal@;
    // accumulated power per bin, and the number of windows
    let mut power: Vec<i128> = Vec::new();
    let mut b: usize = 0;
    while b < bins
        invariant
            0 <= b <= bins,
            power@.len() == b,
            forall|i: int| 0 <= i < b ==> #[trigger] power@[i] == 0i128,
        decreases bins - b,
    {
        power.push(0);
        b = b + 1;
    }
    let mut windows: i128 = 0;
    let mut start: usize = 0;
    while start < len
        invariant
            0 <= start,
            1 <= hop,
            2 <= n <= MAX_FFT,
            bins == n / 2 + 1,
            len == sig.len(),
            sig == noise_signal@,
            wf_buf(sig),
            window@.len() == n,
            cos_t@.len() == n,
            sin_t@.len() == n,
            forall|i: int| 0 <= i < n ==> 0 <= #[trigger] window@[i] <= SCALE,
            forall|i: int| 0 <= i < n ==> #[trigger] window@[i] as int == hann_s(n as int, i),
            forall|i: int| 0 <= i < n ==> -SCALE <= #[trigger] cos_t@[i] <= SCALE,
            forall|i: int| 0 <= i < n ==> -SCALE <= #[trigger] sin_t@[i] <= SCALE,
            forall|i: int| 0 <= i < n ==> #[trigger] cos_t@[i] as int == cos_tab_s(n as int, i),
            forall|i: int| 0 <= i < n ==> #[trigger] sin_t@[i] as int == sin_tab_s(n as int, i),
            power@.len() == bins,
            0 <= windows,
            windows >= 1 || start == 0,
            windows <= start as i128 + 1,
            (windows as int) >= 1 ==> ((windows as int) - 1) * (hop as int) < len as int,
            start as int == (if (windows as int) * (hop as int) < len as int {
                (windows as int) * (hop as int)
            } else {
                len as int
            }),
            forall|k: int|
                0 <= k < bins ==> #[trigger] power@[k] as int == est_power_acc_s(
                    sig,
                    n as int,
                    hop as int,
                    k,
                    windows as int,
                ),
            forall|i: int|
                0 <= i < bins ==> 0 <= #[trigger] power@[i]
                    <= 1_000_000_000_000_000_000_000_000_000_000_000,
        decreases len - start,
    {
        let frame = windowed_frame(noise_signal, &window, start, n);
        proof {
            assert(frame@ =~= frame_seq_s(sig, n as int, start as int));
        }
        let (re, im) = dft_forward(&frame, &cos_t, &sin_t);
        let ghost w0 = windows as int;
        let mut kb: usize = 0;
        while kb < bins
            invariant
                0 <= kb <= bins,
                bins == re@.len(),
                bins == im@.len(),
                bins == n / 2 + 1,
                2 <= n <= MAX_FFT,
                1 <= hop,
                len == sig.len(),
                power@.len() == bins,
                w0 == windows as int,
                0 <= w0,
                start as int == w0 * (hop as int),
                forall|i: int| 0 <= i < bins ==> -BIN_LIMIT <= #[trigger] re@[i] <= BIN_LIMIT,
                forall|i: int| 0 <= i < bins ==> -BIN_LIMIT <= #[trigger] im@[i] <= BIN_LIMIT,
                forall|i: int|
                    0 <= i < bins ==> #[trigger] re@[i] as int == dft_re_s(
                        frame_seq_s(sig, n as int, start as int),
                        n as int,
                        i,
                    ),
                forall|i: int|
                    0 <= i < bins ==> #[trigger] im@[i] as int == dft_im_s(
                        frame_seq_s(sig, n as int, start as int),
                        n as int,
                        i,
                    ),
                forall|k: int|
                    0 <= k < kb ==> #[trigger] power@[k] as int == est_power_acc_s(
                        sig,
                        n as int,
                        hop as int,
                        k,
                        w0 + 1,
                    ),
                forall|k: int|
                    kb <= k < bins ==> #[trigger] power@[k] as int == est_power_acc_s(
                        sig,
                        n as int,
                        hop as int,
                        k,
                        w0,
                    ),
                forall|i: int|
                    0 <= i < bins ==> 0 <= #[trigger] power@[i]
                        <= 1_000_000_000_000_000_000_000_000_000_000_000,
            decreases bins - kb,
        {
            let p = bin_power(re[kb], im[kb]);
            proof {
                assert(0 <= power@[kb as int]);
            }
            let updated: i128 = power[kb] + p;
            let capped: i128 = if updated > 1_000_000_000_000_000_000_000_000_000_000_000 {
                1_000_000_000_000_000_000_000_000_000_000_000
            } else {
                updated
            };
            power.set(kb, capped);
            kb = kb + 1;
        }
        windows = windows + 1;
        proof {
            assert((windows as int) * (hop as int) == w0 * (hop as int) + (hop as int))
                by (nonlinear_arith)
                requires
                    windows as int == w0 + 1,
            ;
        }
        if start > usize::MAX - hop {
            start = len;
        } else if start + hop > len {
            start = len;
        } else {
            start = start + hop;
        }
    }
    proof {
        lemma_ceil_div_unique(len as int, hop as int, windows as int);
        assert(windows as int == win_count_s(sig.len() as int, hop as int));
    }
    // average the power and take the bin-wise square root
    let mut k: usize = 0;
    while k < bins
        invariant
            0 <= k <= bins,
            power@.len() == bins,
            1 <= windows,
            len == sig.len(),
            1 <= hop,
            windows as int == win_count_s(sig.len() as int, hop as int),
            forall|kk: int|
                0 <= kk < bins ==> #[trigger] power@[kk] as int == est_power_acc_s(
                    sig,
                    n as int,
                    hop as int,
                    kk,
                    windows as int,
                ),
            forall|i: int|
                0 <= i < bins ==> 0 <= #[trigger] power@[i]
                    <= 1_000_000_000_000_000_000_000_000_000_000_000,
            profile@.len() == k,
            forall|i: int| 0 <= i < k ==> 0 <= #[trigger] profile@[i] <= PROFILE_LIMIT,
            forall|i: int|
                0 <= i < k ==> #[trigger] profile@[i] as int == noise_bin_s(
                    sig,
                    n as int,
                    hop as int,
                    i,
                ),
        decreases bins - k,
    {
        let avg_raw = tdiv128(power[k], windows);
        proof {
            lemma_tdiv_sign(power@[k as int] as int, windows as int);
            lemma_tdiv_bound(
                power@[k as int] as int,
                windows as int,
                1_000_000_000_000_000_000_000_000_000_000_000,
            );
            assert(power@[k as int] as int <= 1_000_000_000_000_000_000_000_000_000_000_000int * (
            windows as int)) by (nonlinear_arith)
                requires
                    power@[k as int] <= 1_000_000_000_000_000_000_000_000_000_000_000i128,
                    windows >= 1,
            ;
        }
        let avg: i128 = if avg_raw > 2_500_000_000_000_000_000_000_000_000 {
            2_500_000_000_000_000_000_000_000_000
        } else {
            avg_raw
        };
        let root = isqrt128(avg * (SCALE as i128));
        proof {
            assert(root <= PROFILE_LIMIT) by (nonlinear_arith)
                requires
                    0 <= root,
                    root * root <= avg * (SCALE as i128),
                    avg <= 2_500_000_000_000_000_000_000_000_000i128,
                    SCALE == 1_000_000i64,
                    PROFILE_LIMIT == 50_000_000_000_000_000i64,
            ;
            lemma_sqrt_floor_unique(root as int, (avg as int) * (SCALE as int));
        }
        profile.push(root as i64);
        k = k + 1;
    }
    proof {
        assert(n as int == used_fft_s(fft_size as int));
        assert(hop as int == est_hop_s(n as int));
        assert(n >= fft_size);
        vstd::arithmetic::div_mod::lemma_div_is_ordered(fft_size as int, n as int, 2);
    }
    profile
}

/// The padded noise spectrum the reducer works against.
pub open spec fn red_noise_s(prof: Seq<i64>, bins: int) -> Seq<i64> {
    Seq::new(bins as nat, |k: int| pad_profile_s(prof, k) as i64)
}

/// The real part of the clean-spectrum estimate after `w` windows:
/// seeded with the noise spectrum, then smoothed toward each window's
/// Wiener-weighted spectrum.
pub open spec fn red_est_re_s(
    sig: Seq<i64>,
    prof: Seq<i64>,
    n: int,
    hop: int,
    sm: int,
    w: int,
) -> Seq<i64>
    decreases w,
{
    let bins = n / 2 + 1;
    if w <= 0 {
        red_noise_s(prof, bins)
    } else {
        let prev = red_est_re_s(sig, prof, n, hop, sm, w - 1);
        let frame = frame_seq_s(sig, n, (w - 1) * hop);
        Seq::new(
            bins as nat,
            |k: int|
                {
                    let re = dft_re_s(frame, n, k);
                    let im = dft_im_s(frame, n, k);
                    let snr = wiener_gain_s(
                        bin_power_s(re, im),
                        noise_power_s(pad_profile_s(prof, k)),
                    );
                    estimate_update_s(prev[k] as int, re, snr, sm) as i64
                },
        )
    }
}

/// The imaginary part of the estimate after `w` windows, seeded
/// silent.
pub open spec fn red_est_im_s(
    sig: Seq<i64>,
    prof: Seq<i64>,
    n: int,
    hop: int,
    sm: int,
    w: int,
) -> Seq<i64>
    decreases w,
{
    let bins = n / 2 + 1;
    if w <= 0 {
        Seq::new(bins as nat, |k: int| 0i64)
    } else {
        let prev = red_est_im_s(sig, prof, n, hop, sm, w - 1);
        let frame = frame_seq_s(sig, n, (w - 1) * hop);
        Seq::new(
            bins as nat,
            |k: int|
                {
                    let re = dft_re_s(frame, n, k);
                    let im = dft_im_s(frame, n, k);
                    let snr = wiener_gain_s(
                        bin_power_s(re, im),
                        noise_power_s(pad_profile_s(prof, k)),
                    );
                    estimate_update_s(prev[k] as int, im, snr, sm) as i64
                },
        )
    }
}

/// The overlap-add output accumulator after `w` windows: each window
/// adds its windowed resynthesis over its span, saturating.
pub open spec fn red_acc_s(
    sig: Seq<i64>,
    prof: Seq<i64>,
    n: int,
    hop: int,
    sm: int,
    w: int,
) -> Seq<int>
    decreases w,
{
    if w <= 0 {
        Seq::new(sig.len(), |i: int| 0int)
    } else {
        let prev = red_acc_s(sig, prof, n, hop, sm, w - 1);
        let re = red_est_re_s(sig, prof, n, hop, sm, w);
        let im = red_est_im_s(sig, prof, n, hop, sm, w);
        let start = (w - 1) * hop;
        Seq::new(
            sig.len(),
            |i: int|
                if start <= i < start + n {
                    clamp_v(
                        prev[i] + tdiv(
                            inv_dft_s(re, im, n, i - start) * hann_s(n, i - start),
                            1_000_000,
                        ),
                        4_000_000_000_000_000_000_000_000_000_000,
                    )
                } else {
                    prev[i]
                },
        )
    }
}

/// The summed squared window after `w` windows, capped from above.
pub open spec fn red_wsum_s(len: int, n: int, hop: int, w: int) -> Seq<int>
    decreases w,
{
    if w <= 0 {
        Seq::new(len as nat, |i: int| 0int)
    } else {
        let prev = red_wsum_s(len, n, hop, w - 1);
        let start = (w - 1) * hop;
        Seq::new(
            len as nat,
            |i: int|
                if start <= i < start + n {
                    let s0 = prev[i] + tdiv(hann_s(n, i - start) * hann_s(n, i - start), 1_000_000);
                    if s0 > 4_000_000_000_000_000_000_000_000_000_000 {
                        4_000_000_000_000_000_000_000_000_000_000
                    } else {
                        s0
                    }
                } else {
                    prev[i]
                },
        )
    }
}

/// Output sample `i` of the noise reducer: the overlap-add
/// accumulator normalized by the summed squared window where that sum
/// is positive, saturated to the amplitude range.
pub open spec fn red_out_s(
    sig: Seq<i64>,
    prof: Seq<i64>,
    fft_size: int,
    hop: int,
    sm: int,
    i: int,
) -> int {
    let n = used_fft_s(fft_size);
    let w = win_count_s(sig.len() as int, hop);
    let a = red_acc_s(sig, prof, n, hop, sm, w)[i];
    let ws = red_wsum_s(sig.len() as int, n, hop, w)[i];
    if ws > 0 {
        clamp_v(tdiv(a * 1_000_000, ws), AMP_LIMIT as int)
    } else {
        clamp_v(a, AMP_LIMIT as int)
    }
}

/// Reduces stationary noise in `signal` against the given per-bin
/// noise magnitude profile, by windowed analysis, a Wiener-style
/// per-bin gain with exponential smoothing of the clean-spectrum
/// estimate, and overlap-add resynthesis.
///
/// An empty signal, an empty profile, a zero transform size or a zero
/// hop size short-circuit to the unchanged input.  Otherwise the
/// output has exactly the input's length and every sample equals
/// `red_out_s`; a profile shorter than the bin count is treated as
/// zero in the missing bins, exactly as `pad_profile_s` states.
pub fn reduce_noise_wiener(
    signal: &Vec<i64>,
    noise_profile: &Vec<i64>,
    fft_size: usize,
    hop_size: usize,
    smoothing: i64,
) -> (r: Vec<i64>)
    requires
        wf_buf(signal@),
        wf_profile(noise_profile@),
        fft_size <= MAX_FFT,
        0 <= smoothing <= SCALE,
    ensures
        signal@.len() == 0 || noise_profile@.len() == 0 || fft_size == 0 || hop_size == 0
            ==> r@ == signal@,
        r@.len() == signal@.len(),
        wf_buf(r@),
        signal@.len() > 0 && noise_profile@.len() > 0 && fft_size > 0 && hop_size > 0
            ==> forall|i: int|
            0 <= i < r@.len() ==> #[trigger] r@[i] as int == red_out_s(
                signal@,
                noise_profile@,
                fft_size as int,
                hop_size as int,
                smoothing as int,
                i,
            ),
{
    if signal.len() == 0 || noise_profile.len() == 0 || fft_size == 0 || hop_size == 0 {
        return copy_buffer(signal);
    }
    let n0 = next_pow2(fft_size);
    let n = if n0 < 2 {
        2
    } else {
        n0
    };
    let bins = n / 2 + 1;
    let window = hann_window(n);
    let (cos_t, sin_t) = trig_tables(n);
    let len = signal.len();
    let ghost sig = signal@;
    let ghost prof = noise_profile@;
    let ghost nn = n as int;
    let ghost hh = hop_size as int;
    let ghost sm = smoothing as int;
    // the noise spectrum, padded with zeros where the profile is short
    let mut noise: Vec<i64> = Vec::new();
    let mut b: usize = 0;
    while b < bins
        invariant
            0 <= b <= bins,
            noise@.len() == b,
            prof == noise_profile@,
            wf_profile(prof),
            forall|i: int| 0 <= i < b ==> #[trigger] noise@[i] as int == pad_profile_s(prof, i),
            forall|i: int| 0 <= i < b ==> 0 <= #[trigger] noise@[i] <= PROFILE_LIMIT,
        decreases bins - b,
    {
        let v: i64 = if b < noise_profile.len() {
            noise_profile[b]
        } else {
            0
        };
        noise.push(v);
        b = b + 1;
    }
    // the running estimate of the clean spectrum, seeded with the
    // noise spectrum
    let mut est_re: Vec<i64> = Vec::new();
    let mut est_im: Vec<i64> = Vec::new();
    let mut e: usize = 0;
    while e < bins
        invariant
            0 <= e <= bins,
            noise@.len() == bins,
            est_re@.len() == e,
            est_im@.len() == e,
            forall|i: int| 0 <= i < bins ==> #[trigger] noise@[i] as int == pad_profile_s(prof, i),
            forall|i: int| 0 <= i < bins ==> 0 <= #[trigger] noise@[i] <= PROFILE_LIMIT,
            forall|i: int| 0 <= i < e ==> #[trigger] est_re@[i] == noise@[i],
            forall|i: int| 0 <= i < e ==> #[trigger] est_im@[i] == 0i64,
            forall|i: int| 0 <= i < e ==> -EST_LIMIT <= #[trigger] est_re@[i] <= EST_LIMIT,
        decreases bins - e,
    {
        est_re.push(noise[e]);
        est_im.push(0);
        e = e + 1;
    }
    proof {
        assert(est_re@ =~= red_est_re_s(sig, prof, nn, hh, sm, 0));
        assert(est_im@ =~= red_est_im_s(sig, prof, nn, hh, sm, 0));
    }
    // overlap-add accumulators for the output and the squared window
    let mut acc: Vec<i128> = Vec::new();
    let mut wsum: Vec<i128> = Vec::new();
    let mut z: usize = 0;
    while z < len
        invariant
            0 <= z <= len,
            acc@.len() == z,
            wsum@.len() == z,
            forall|i: int| 0 <= i < z ==> #[trigger] acc@[i] == 0i128,
            forall|i: int| 0 <= i < z ==> #[trigger] wsum@[i] == 0i128,
        decreases len - z,
    {
        acc.push(0);
        wsum.push(0);
        z = z + 1;
    }
    proof {
        assert(forall|i: int|
            0 <= i < len ==> #[trigger] acc@[i] as int == red_acc_s(sig, prof, nn, hh, sm, 0)[i]);
        assert(forall|i: int|
            0 <= i < len ==> #[trigger] wsum@[i] as int == red_wsum_s(len as int, nn, hh, 0)[i]);
    }
    let mut windows: i128 = 0;
    let mut start: usize = 0;
    while start < len
        invariant
            0 <= start,
            1 <= hop_size,
            2 <= n <= MAX_FFT,
            bins == n / 2 + 1,
            len == sig.len(),
            sig == signal@,
            prof == noise_profile@,
            nn == n as int,
            hh == hop_size as int,
            sm == smoothing as int,
            wf_buf(sig),
            wf_profile(prof),
            window@.len() == n,
            cos_t@.len() == n,
            sin_t@.len() == n,
            noise@.len() == bins,
            est_re@.len() == bins,
            est_im@.len() == bins,
            acc@.len() == len,
            wsum@.len() == len,
            forall|i: int| 0 <= i < n ==> 0 <= #[trigger] window@[i] <= SCALE,
            forall|i: int| 0 <= i < n ==> #[trigger] window@[i] as int == hann_s(nn, i),
            forall|i: int| 0 <= i < n ==> -SCALE <= #[trigger] cos_t@[i] <= SCALE,
            forall|i: int| 0 <= i < n ==> -SCALE <= #[trigger] sin_t@[i] <= SCALE,
            forall|i: int| 0 <= i < n ==> #[trigger] cos_t@[i] as int == cos_tab_s(nn, i),
            forall|i: int| 0 <= i < n ==> #[trigger] sin_t@[i] as int == sin_tab_s(nn, i),
            0 <= smoothing <= SCALE,
            forall|i: int| 0 <= i < bins ==> #[trigger] noise@[i] as int == pad_profile_s(prof, i),
            forall|i: int| 0 <= i < bins ==> 0 <= #[trigger] noise@[i] <= PROFILE_LIMIT,
            0 <= windows,
            windows >= 1 || start == 0,
            windows <= start as i128 + 1,
            (windows as int) >= 1 ==> ((windows as int) - 1) * hh < len as int,
            start as int == (if (windows as int) * hh < len as int {
                (windows as int) * hh
            } else {
                len as int
            }),
            est_re@ == red_est_re_s(sig, prof, nn, hh, sm, windows as int),
            est_im@ == red_est_im_s(sig, prof, nn, hh, sm, windows as int),
            forall|i: int| 0 <= i < bins ==> -EST_LIMIT <= #[trigger] est_re@[i] <= EST_LIMIT,
            forall|i: int| 0 <= i < bins ==> -EST_LIMIT <= #[trigger] est_im@[i] <= EST_LIMIT,
            forall|i: int|
                0 <= i < len ==> #[trigger] acc@[i] as int == red_acc_s(
                    sig,
                    prof,
                    nn,
                    hh,
                    sm,
                    windows as int,
                )[i],
            forall|i: int|
                0 <= i < len ==> #[trigger] wsum@[i] as int == red_wsum_s(
                    len as int,
                    nn,
                    hh,
                    windows as int,
                )[i],
            forall|i: int|
                0 <= i < len ==> -4_000_000_000_000_000_000_000_000_000_000
                    <= #[trigger] acc@[i] as int <= 4_000_000_000_000_000_000_000_000_000_000,
            forall|i: int|
                0 <= i < len ==> 0 <= #[trigger] wsum@[i] as int
                    <= 4_000_000_000_000_000_000_000_000_000_000,
        decreases len - start,
    {
        let ghost w0 = windows as int;
        let frame = windowed_frame(signal, &window, start, n);
        proof {
            assert(frame@ =~= frame_seq_s(sig, nn, start as int));
        }
        let (sre, sim) = dft_forward(&frame, &cos_t, &sin_t);
        let ghost est_re0 = est_re@;
        let ghost est_im0 = est_im@;
        // update the clean-spectrum estimate bin by bin with the
        // Wiener gain
        let mut kb: usize = 0;
        while kb < bins
            invariant
                0 <= kb <= bins,
                bins == sre@.len(),
                bins == sim@.len(),
                bins == n / 2 + 1,
                2 <= n <= MAX_FFT,
                nn == n as int,
                noise@.len() == bins,
                est_re@.len() == bins,
                est_im@.len() == bins,
                0 <= smoothing <= SCALE,
                sm == smoothing as int,
                w0 == windows as int,
                0 <= w0,
                start as int == w0 * hh,
                len == sig.len(),
                forall|i: int| 0 <= i < bins ==> -BIN_LIMIT <= #[trigger] sre@[i] <= BIN_LIMIT,
                forall|i: int| 0 <= i < bins ==> -BIN_LIMIT <= #[trigger] sim@[i] <= BIN_LIMIT,
                forall|i: int|
                    0 <= i < bins ==> #[trigger] sre@[i] as int == dft_re_s(
                        frame_seq_s(sig, nn, start as int),
                        nn,
                        i,
                    ),
                forall|i: int|
                    0 <= i < bins ==> #[trigger] sim@[i] as int == dft_im_s(
                        frame_seq_s(sig, nn, start as int),
                        nn,
                        i,
                    ),
                forall|i: int|
                    0 <= i < bins ==> #[trigger] noise@[i] as int == pad_profile_s(prof, i),
                forall|i: int| 0 <= i < bins ==> 0 <= #[trigger] noise@[i] <= PROFILE_LIMIT,
                est_re0 == red_est_re_s(sig, prof, nn, hh, sm, w0),
                est_im0 == red_est_im_s(sig, prof, nn, hh, sm, w0),
                forall|k: int|
                    0 <= k < kb ==> #[trigger] est_re@[k] == red_est_re_s(
                        sig,
                        prof,
                        nn,
                        hh,
                        sm,
                        w0 + 1,
                    )[k],
                forall|k: int|
                    0 <= k < kb ==> #[trigger] est_im@[k] == red_est_im_s(
                        sig,
                        prof,
                        nn,
                        hh,
                        sm,
                        w0 + 1,
                    )[k],
                forall|k: int| kb <= k < bins ==> #[trigger] est_re@[k] == est_re0[k],
                forall|k: int| kb <= k < bins ==> #[trigger] est_im@[k] == est_im0[k],
                forall|i: int| 0 <= i < bins ==> -EST_LIMIT <= #[trigger] est_re@[i] <= EST_LIMIT,
                forall|i: int| 0 <= i < bins ==> -EST_LIMIT <= #[trigger] est_im@[i] <= EST_LIMIT,
            decreases bins - kb,
        {
            let p = bin_power(sre[kb], sim[kb]);
            let np = noise_power(noise[kb]);
            // the Wiener gain: signal power over total power
            let snr: i64 = wiener_gain(p, np);
            let new_re = estimate_update(est_re[kb], sre[kb], snr, smoothing);
            let new_im = estimate_update(est_im[kb], sim[kb], snr, smoothing);
            est_re.set(kb, new_re);
            est_im.set(kb, new_im);
            kb = kb + 1;
        }
        proof {
            assert(est_re@ =~= red_est_re_s(sig, prof, nn, hh, sm, w0 + 1));
            assert(est_im@ =~= red_est_im_s(sig, prof, nn, hh, sm, w0 + 1));
        }
        // resynthesize the frame from the estimate and overlap-add it
        let frame_out = dft_inverse(&est_re, &est_im, &cos_t, &sin_t, n);
        let ghost acc0 = acc@;
        let ghost wsum0 = wsum@;
        let mut j: usize = 0;
        while j < n
            invariant
                0 <= j <= n,
                2 <= n <= MAX_FFT,
                nn == n as int,
                n == window@.len(),
                n == frame_out@.len(),
                acc@.len() == len,
                wsum@.len() == len,
                len == sig.len(),
                w0 == windows as int,
                0 <= w0,
                start as int == w0 * hh,
                start < len,
                est_re@ == red_est_re_s(sig, prof, nn, hh, sm, w0 + 1),
                est_im@ == red_est_im_s(sig, prof, nn, hh, sm, w0 + 1),
                forall|i: int| 0 <= i < n ==> 0 <= #[trigger] window@[i] <= SCALE,
                forall|i: int| 0 <= i < n ==> #[trigger] window@[i] as int == hann_s(nn, i),
                forall|i: int|
                    0 <= i < n ==> -200_000_000_000_000_000 <= #[trigger] frame_out@[i]
                        <= 200_000_000_000_000_000,
                forall|i: int|
                    0 <= i < n ==> #[trigger] frame_out@[i] as int == inv_dft_s(
                        red_est_re_s(sig, prof, nn, hh, sm, w0 + 1),
                        red_est_im_s(sig, prof, nn, hh, sm, w0 + 1),
                        nn,
                        i,
                    ),
                forall|i: int|
                    0 <= i < len && start as int <= i < start as int + j ==> #[trigger] acc@[i] as int
                        == red_acc_s(sig, prof, nn, hh, sm, w0 + 1)[i],
                forall|i: int|
                    0 <= i < len && !(start as int <= i < start as int + j)
                        ==> #[trigger] acc@[i] == acc0[i],
                forall|i: int|
                    0 <= i < len && start as int <= i < start as int + j
                        ==> #[trigger] wsum@[i] as int == red_wsum_s(len as int, nn, hh, w0 + 1)[i],
                forall|i: int|
                    0 <= i < len && !(start as int <= i < start as int + j)
                        ==> #[trigger] wsum@[i] == wsum0[i],
                forall|i: int|
                    0 <= i < len ==> #[trigger] acc0[i] as int == red_acc_s(
                        sig,
                        prof,
                        nn,
                        hh,
                        sm,
                        w0,
                    )[i],
                forall|i: int|
                    0 <= i < len ==> #[trigger] wsum0[i] as int == red_wsum_s(
                        len as int,
                        nn,
                        hh,
                        w0,
                    )[i],
                forall|i: int|
                    0 <= i < len ==> -4_000_000_000_000_000_000_000_000_000_000
                        <= #[trigger] acc@[i] as int <= 4_000_000_000_000_000_000_000_000_000_000,
                forall|i: int|
                    0 <= i < len ==> 0 <= #[trigger] wsum@[i] as int
                        <= 4_000_000_000_000_000_000_000_000_000_000,
            decreases n - j,
        {
            if start <= usize::MAX - j && start + j < len {
                let idx = start + j;
                let w = window[j];
                proof {
                    lemma_prod_bound(
                        frame_out@[j as int] as int,
                        w as int,
                        200_000_000_000_000_000int,
                        SCALE as int,
                    );
                    lemma_tdiv_bound(
                        (frame_out@[j as int] as int) * (w as int),
                        SCALE as int,
                        200_000_000_000_000_000int,
                    );
                    lemma_prod_bound(w as int, w as int, SCALE as int, SCALE as int);
                    lemma_tdiv_sign((w as int) * (w as int), SCALE as int);
                    assert((w as int) * (w as int) >= 0) by (nonlinear_arith)
                        requires
                            w >= 0,
                    ;
                    lemma_tdiv_bound((w as int) * (w as int), SCALE as int, SCALE as int);
                }
                let wet_part = tdiv128((frame_out[j] as i128) * (w as i128), SCALE as i128);
                let wsq = tdiv128((w as i128) * (w as i128), SCALE as i128);
                let a0 = acc[idx] + wet_part;
                let a1: i128 = if a0 > 4_000_000_000_000_000_000_000_000_000_000 {
                    4_000_000_000_000_000_000_000_000_000_000
                } else if a0 < -4_000_000_000_000_000_000_000_000_000_000 {
                    -4_000_000_000_000_000_000_000_000_000_000
                } else {
                    a0
                };
                acc.set(idx, a1);
                let s0 = wsum[idx] + wsq;
                let s1: i128 = if s0 > 4_000_000_000_000_000_000_000_000_000_000 {
                    4_000_000_000_000_000_000_000_000_000_000
                } else {
                    s0
                };
                wsum.set(idx, s1);
            }
            j = j + 1;
        }
        proof {
            assert(forall|i: int|
                0 <= i < len ==> #[trigger] acc@[i] as int == red_acc_s(
                    sig,
                    prof,
                    nn,
                    hh,
                    sm,
                    w0 + 1,
                )[i]);
            assert(forall|i: int|
                0 <= i < len ==> #[trigger] wsum@[i] as int == red_wsum_s(
                    len as int,
                    nn,
                    hh,
                    w0 + 1,
                )[i]);
        }
        windows = windows + 1;
        proof {
            assert((windows as int) * hh == w0 * hh + hh) by (nonlinear_arith)
                requires
                    windows as int == w0 + 1,
            ;
        }
        if start > usize::MAX - hop_size {
            start = len;
        } else if start + hop_size > len {
            start = len;
        } else {
            start = start + hop_size;
        }
    }
    proof {
        lemma_ceil_div_unique(len as int, hh, windows as int);
        assert(windows as int == win_count_s(sig.len() as int, hh));
        assert(nn == used_fft_s(fft_size as int));
    }
    // normalize each sample by the summed squared window
    let mut out: Vec<i64> = Vec::new();
    let mut i: usize = 0;
    while i < len
        invariant
            0 <= i <= len,
            acc@.len() == len,
            wsum@.len() == len,
            out@.len() == i,
            wf_buf(out@),
            len == sig.len(),
            prof == noise_profile@,
            sig == signal@,
            nn == used_fft_s(fft_size as int),
            hh == hop_size as int,
            sm == smoothing as int,
            windows as int == win_count_s(sig.len() as int, hh),
            forall|j: int|
                0 <= j < len ==> #[trigger] acc@[j] as int == red_acc_s(
                    sig,
                    prof,
                    nn,
                    hh,
                    sm,
                    windows as int,
                )[j],
            forall|j: int|
                0 <= j < len ==> #[trigger] wsum@[j] as int == red_wsum_s(
                    len as int,
                    nn,
                    hh,
                    windows as int,
                )[j],
            forall|j: int|
                0 <= j < len ==> -4_000_000_000_000_000_000_000_000_000_000
                    <= #[trigger] acc@[j] as int <= 4_000_000_000_000_000_000_000_000_000_000,
            forall|j: int|
                0 <= j < len ==> 0 <= #[trigger] wsum@[j] as int
                    <= 4_000_000_000_000_000_000_000_000_000_000,
            forall|j: int|
                0 <= j < i ==> #[trigger] out@[j] as int == red_out_s(
                    sig,
                    prof,
                    fft_size as int,
                    hh,
                    sm,
                    j,
                ),
        decreases len - i,
    {
        let a = acc[i];
        let ws = wsum[i];
        let v: i64 = if ws > 0 {
            normalized_sample(a, ws)
        } else {
            let clamped: i128 = if a > AMP_LIMIT as i128 {
                AMP_LIMIT as i128
            } else if a < -(AMP_LIMIT as i128) {
                -(AMP_LIMIT as i128)
            } else {
                a
            };
            clamped as i64
        };
        out.push(v);
        i = i + 1;
    }
    out
}

/// The Hann window values, exactly `hann_s`.
fn hann_window(n: usize) -> (r: Vec<i64>)
    requires
        1 <= n <= MAX_FFT,
    ensures
        r@.len() == n,
        forall|i: int| 0 <= i < n ==> #[trigger] r@[i] as int == hann_s(n as int, i),
        forall|i: int| 0 <= i < n ==> 0 <= #[trigger] r@[i] <= SCALE,
{
    let mut w: Vec<i64> = Vec::new();
    let mut i: usize = 0;
    while i < n
        invariant
            0 <= i <= n,
            1 <= n <= MAX_FFT,
            w@.len() == i,
            forall|j: int| 0 <= j < i ==> #[trigger] w@[j] as int == hann_s(n as int, j),
            forall|j: int| 0 <= j < i ==> 0 <= #[trigger] w@[j] <= SCALE,
        decreases n - i,
    {
        let v: i64 = if n == 1 {
            0
        } else {
            proof {
                lemma_prod_bound(TWO_PI_Q as int, i as int, 6_283_185int, MAX_FFT as int);
                lemma_tdiv_sign((TWO_PI_Q as int) * (i as int), n as int - 1);
                assert((TWO_PI_Q as int) * (i as int) >= 0) by (nonlinear_arith)
                    requires
                        i >= 0,
                        TWO_PI_Q == 6_283_185i64,
                ;
                assert((TWO_PI_Q as int) * (i as int) <= 6_283_185int * (n as int - 1))
                    by (nonlinear_arith)
                    requires
                        0 <= i <= n - 1,
                        TWO_PI_Q == 6_283_185i64,
                ;
                lemma_tdiv_bound((TWO_PI_Q as int) * (i as int), n as int - 1, 6_283_185int);
            }
            let angle = tdiv128((TWO_PI_Q as i128) * (i as i128), (n - 1) as i128) as i64;
            let c = cos_q(angle);
            (SCALE - c) / 2
        };
        w.push(v);
        i = i + 1;
    }
    w
}

/// Tables of the cosine and sine of `2 pi k / n` for each `k` below
/// `n`, exactly `cos_tab_s` and `sin_tab_s`.
fn trig_tables(n: usize) -> (r: (Vec<i64>, Vec<i64>))
    requires
        1 <= n <= MAX_FFT,
    ensures
        r.0@.len() == n,
        r.1@.len() == n,
        forall|i: int| 0 <= i < n ==> #[trigger] r.0@[i] as int == cos_tab_s(n as int, i),
        forall|i: int| 0 <= i < n ==> #[trigger] r.1@[i] as int == sin_tab_s(n as int, i),
        forall|i: int| 0 <= i < n ==> -SCALE <= #[trigger] r.0@[i] <= SCALE,
        forall|i: int| 0 <= i < n ==> -SCALE <= #[trigger] r.1@[i] <= SCALE,
{
    let mut cos_t: Vec<i64> = Vec::new();
    let mut sin_t: Vec<i64> = Vec::new();
    let mut i: usize = 0;
    while i < n
        invariant
            0 <= i <= n,
            1 <= n <= MAX_FFT,
            cos_t@.len() == i,
            sin_t@.len() == i,
            forall|j: int| 0 <= j < i ==> #[trigger] cos_t@[j] as int == cos_tab_s(n as int, j),
            forall|j: int| 0 <= j < i ==> #[trigger] sin_t@[j] as int == sin_tab_s(n as int, j),
            forall|j: int| 0 <= j < i ==> -SCALE <= #[trigger] cos_t@[j] <= SCALE,
            forall|j: int| 0 <= j < i ==> -SCALE <= #[trigger] sin_t@[j] <= SCALE,
        decreases n - i,
    {
        proof {
            lemma_prod_bound(TWO_PI_Q as int, i as int, 6_283_185int, MAX_FFT as int);
            lemma_tdiv_sign((TWO_PI_Q as int) * (i as int), n as int);
            assert((TWO_PI_Q as int) * (i as int) >= 0) by (nonlinear_arith)
                requires
                    i >= 0,
                    TWO_PI_Q == 6_283_185i64,
            ;
            assert((TWO_PI_Q as int) * (i as int) <= 6_283_185int * (n as int))
                by (nonlinear_arith)
                requires
                    0 <= i <= n,
                    TWO_PI_Q == 6_283_185i64,
            ;
            lemma_tdiv_bound((TWO_PI_Q as int) * (i as int), n as int, 6_283_185int);
        }
        let angle = tdiv128((TWO_PI_Q as i128) * (i as i128), n as i128) as i64;
        let c = cos_q(angle);
        let s = cos_q(angle - HALF_PI_FOR_SIN);
        cos_t.push(c);
        sin_t.push(s);
        i = i + 1;
    }
    (cos_t, sin_t)
}

/// The shift that turns the cosine into the sine:
/// `sin x == cos(x - pi/2)`.
const HALF_PI_FOR_SIN: i64 = 1_570_796;

/// The forward spectral transform of one windowed frame: each of the
/// `n / 2 + 1` bins equals `dft_re_s`/`dft_im_s` exactly.
fn dft_forward(frame: &Vec<i64>, cos_t: &Vec<i64>, sin_t: &Vec<i64>) -> (r: (Vec<i64>, Vec<i64>))
    requires
        1 <= frame@.len() <= MAX_FFT,
        cos_t@.len() == frame@.len(),
        sin_t@.len() == frame@.len(),
        wf_buf(frame@),
        forall|i: int|
            0 <= i < cos_t@.len() ==> #[trigger] cos_t@[i] as int == cos_tab_s(
                frame@.len() as int,
                i,
            ),
        forall|i: int|
            0 <= i < sin_t@.len() ==> #[trigger] sin_t@[i] as int == sin_tab_s(
                frame@.len() as int,
                i,
            ),
        forall|i: int| 0 <= i < cos_t@.len() ==> -SCALE <= #[trigger] cos_t@[i] <= SCALE,
        forall|i: int| 0 <= i < sin_t@.len() ==> -SCALE <= #[trigger] sin_t@[i] <= SCALE,
    ensures
        r.0@.len() == frame@.len() / 2 + 1,
        r.1@.len() == frame@.len() / 2 + 1,
        forall|i: int|
            0 <= i < r.0@.len() ==> #[trigger] r.0@[i] as int == dft_re_s(
                frame@,
                frame@.len() as int,
                i,
            ),
        forall|i: int|
            0 <= i < r.1@.len() ==> #[trigger] r.1@[i] as int == dft_im_s(
                frame@,
                frame@.len() as int,
                i,
            ),
        forall|i: int| 0 <= i < r.0@.len() ==> -BIN_LIMIT <= #[trigger] r.0@[i] <= BIN_LIMIT,
        forall|i: int| 0 <= i < r.1@.len() ==> -BIN_LIMIT <= #[trigger] r.1@[i] <= BIN_LIMIT,
{
    let n = frame.len();
    let bins = n / 2 + 1;
    let mut re: Vec<i64> = Vec::new();
    let mut im: Vec<i64> = Vec::new();
    let mut k: usize = 0;
    while k < bins
        invariant
            0 <= k <= bins,
            bins == n / 2 + 1,
            1 <= n <= MAX_FFT,
            n == frame@.len(),
            cos_t@.len() == n,
            sin_t@.len() == n,
            wf_buf(frame@),
            forall|i: int| 0 <= i < n ==> #[trigger] cos_t@[i] as int == cos_tab_s(n as int, i),
            forall|i: int| 0 <= i < n ==> #[trigger] sin_t@[i] as int == sin_tab_s(n as int, i),
            forall|i: int| 0 <= i < n ==> -SCALE <= #[trigger] cos_t@[i] <= SCALE,
            forall|i: int| 0 <= i < n ==> -SCALE <= #[trigger] sin_t@[i] <= SCALE,
            re@.len() == k,
            im@.len() == k,
            forall|i: int|
                0 <= i < k ==> #[trigger] re@[i] as int == dft_re_s(frame@, n as int, i),
            forall|i: int|
                0 <= i < k ==> #[trigger] im@[i] as int == dft_im_s(frame@, n as int, i),
            forall|i: int| 0 <= i < k ==> -BIN_LIMIT <= #[trigger] re@[i] <= BIN_LIMIT,
            forall|i: int| 0 <= i < k ==> -BIN_LIMIT <= #[trigger] im@[i] <= BIN_LIMIT,
        decreases bins - k,
    {
        let mut acc_re: i128 = 0;
        let mut acc_im: i128 = 0;
        let mut j: usize = 0;
        while j < n
            invariant
                0 <= j <= n,
                1 <= n <= MAX_FFT,
                n == frame@.len(),
                cos_t@.len() == n,
                sin_t@.len() == n,
                wf_buf(frame@),
                k < bins,
                bins == n / 2 + 1,
                forall|i: int|
                    0 <= i < n ==> #[trigger] cos_t@[i] as int == cos_tab_s(n as int, i),
                forall|i: int|
                    0 <= i < n ==> #[trigger] sin_t@[i] as int == sin_tab_s(n as int, i),
                forall|i: int| 0 <= i < n ==> -SCALE <= #[trigger] cos_t@[i] <= SCALE,
                forall|i: int| 0 <= i < n ==> -SCALE <= #[trigger] sin_t@[i] <= SCALE,
                acc_re as int == dft_re_acc_s(frame@, n as int, k as int, j as int),
                acc_im as int == dft_im_acc_s(frame@, n as int, k as int, j as int),
                -(j as i128) * 1_000_000_000_000_000_000 <= acc_re <= (j as i128)
                    * 1_000_000_000_000_000_000,
                -(j as i128) * 1_000_000_000_000_000_000 <= acc_im <= (j as i128)
                    * 1_000_000_000_000_000_000,
            decreases n - j,
        {
            proof {
                assert(j * k >= 0) by (nonlinear_arith);
                assert(j * k <= MAX_FFT * MAX_FFT) by (nonlinear_arith)
                    requires
                        0 <= j <= MAX_FFT,
                        0 <= k <= MAX_FFT,
                ;
            }
            let idx = (j * k) % n;
            proof {
                assert(0 <= ((j * k) as int) % (n as int) < n as int);
                assert(-AMP_LIMIT <= frame@[j as int] <= AMP_LIMIT);
                lemma_prod_bound(
                    frame@[j as int] as int,
                    cos_t@[idx as int] as int,
                    AMP_LIMIT as int,
                    SCALE as int,
                );
                lemma_prod_bound(
                    frame@[j as int] as int,
                    sin_t@[idx as int] as int,
                    AMP_LIMIT as int,
                    SCALE as int,
                );
            }
            let x = frame[j];
            acc_re = acc_re + (x as i128) * (cos_t[idx] as i128);
            acc_im = acc_im - (x as i128) * (sin_t[idx] as i128);
            j = j + 1;
        }
        proof {
            lemma_tdiv_bound(acc_re as int, SCALE as int, BIN_LIMIT as int);
            lemma_tdiv_bound(acc_im as int, SCALE as int, BIN_LIMIT as int);
            assert((n as i128) * 1_000_000_000_000_000_000 <= (BIN_LIMIT as int) * (SCALE as int))
                by (nonlinear_arith)
                requires
                    n <= 32_768,
                    BIN_LIMIT == 33_000_000_000_000_000i64,
                    SCALE == 1_000_000i64,
            ;
        }
        let bre = tdiv128(acc_re, SCALE as i128) as i64;
        let bim = tdiv128(acc_im, SCALE as i128) as i64;
        re.push(bre);
        im.push(bim);
        k = k + 1;
    }
    (re, im)
}

/// The inverse transform of one spectrum: each output sample equals
/// `inv_dft_s` exactly.
fn dft_inverse(re: &Vec<i64>, im: &Vec<i64>, cos_t: &Vec<i64>, sin_t: &Vec<i64>, n: usize) -> (r:
    Vec<i64>)
    requires
        2 <= n <= MAX_FFT,
        re@.len() == n / 2 + 1,
        im@.len() == n / 2 + 1,
        cos_t@.len() == n,
        sin_t@.len() == n,
        forall|i: int| 0 <= i < re@.len() ==> -EST_LIMIT <= #[trigger] re@[i] <= EST_LIMIT,
        forall|i: int| 0 <= i < im@.len() ==> -EST_LIMIT <= #[trigger] im@[i] <= EST_LIMIT,
        forall|i: int| 0 <= i < n ==> #[trigger] cos_t@[i] as int == cos_tab_s(n as int, i),
        forall|i: int| 0 <= i < n ==> #[trigger] sin_t@[i] as int == sin_tab_s(n as int, i),
        forall|i: int| 0 <= i < cos_t@.len() ==> -SCALE <= #[trigger] cos_t@[i] <= SCALE,
        forall|i: int| 0 <= i < sin_t@.len() ==> -SCALE <= #[trigger] sin_t@[i] <= SCALE,
    ensures
        r@.len() == n,
        forall|j: int|
            0 <= j < r@.len() ==> #[trigger] r@[j] as int == inv_dft_s(re@, im@, n as int, j),
        forall|i: int|
            0 <= i < r@.len() ==> -200_000_000_000_000_000 <= #[trigger] r@[i]
                <= 200_000_000_000_000_000,
{
    let bins = n / 2 + 1;
    let mut out: Vec<i64> = Vec::new();
    let mut j: usize = 0;
    while j < n
        invariant
            0 <= j <= n,
            2 <= n <= MAX_FFT,
            bins == n / 2 + 1,
            re@.len() == bins,
            im@.len() == bins,
            cos_t@.len() == n,
            sin_t@.len() == n,
            forall|i: int| 0 <= i < bins ==> -EST_LIMIT <= #[trigger] re@[i] <= EST_LIMIT,
            forall|i: int| 0 <= i < bins ==> -EST_LIMIT <= #[trigger] im@[i] <= EST_LIMIT,
            forall|i: int| 0 <= i < n ==> #[trigger] cos_t@[i] as int == cos_tab_s(n as int, i),
            forall|i: int| 0 <= i < n ==> #[trigger] sin_t@[i] as int == sin_tab_s(n as int, i),
            forall|i: int| 0 <= i < n ==> -SCALE <= #[trigger] cos_t@[i] <= SCALE,
            forall|i: int| 0 <= i < n ==> -SCALE <= #[trigger] sin_t@[i] <= SCALE,
            out@.len() == j,
            forall|i: int|
                0 <= i < j ==> #[trigger] out@[i] as int == inv_dft_s(re@, im@, n as int, i),
            forall|i: int|
                0 <= i < j ==> -200_000_000_000_000_000 <= #[trigger] out@[i]
                    <= 200_000_000_000_000_000,
        decreases n - j,
    {
        let mut acc: i128 = 0;
        let mut k: usize = 0;
        while k < bins
            invariant
                0 <= k <= bins,
                2 <= n <= MAX_FFT,
                bins == n / 2 + 1,
                j < n,
                re@.len() == bins,
                im@.len() == bins,
                cos_t@.len() == n,
                sin_t@.len() == n,
                forall|i: int| 0 <= i < bins ==> -EST_LIMIT <= #[trigger] re@[i] <= EST_LIMIT,
                forall|i: int| 0 <= i < bins ==> -EST_LIMIT <= #[trigger] im@[i] <= EST_LIMIT,
                forall|i: int|
                    0 <= i < n ==> #[trigger] cos_t@[i] as int == cos_tab_s(n as int, i),
                forall|i: int|
                    0 <= i < n ==> #[trigger] sin_t@[i] as int == sin_tab_s(n as int, i),
                forall|i: int| 0 <= i < n ==> -SCALE <= #[trigger] cos_t@[i] <= SCALE,
                forall|i: int| 0 <= i < n ==> -SCALE <= #[trigger] sin_t@[i] <= SCALE,
                acc as int == inv_acc_s(re@, im@, n as int, j as int, k as int),
                -(k as i128) * 200_000_000_000_000_000 <= acc <= (k as i128)
                    * 200_000_000_000_000_000,
            decreases bins - k,
        {
            proof {
                assert(j * k >= 0) by (nonlinear_arith);
                assert(j * k <= MAX_FFT * MAX_FFT) by (nonlinear_arith)
                    requires
                        0 <= j <= MAX_FFT,
                        0 <= k <= MAX_FFT,
                ;
                assert(k * j == j * k) by (nonlinear_arith);
            }
            let idx = (j * k) % n;
            proof {
                assert(0 <= ((j * k) as int) % (n as int) < n as int);
                lemma_prod_bound(
                    re@[k as int] as int,
                    cos_t@[idx as int] as int,
                    EST_LIMIT as int,
                    SCALE as int,
                );
                lemma_prod_bound(
                    im@[k as int] as int,
                    sin_t@[idx as int] as int,
                    EST_LIMIT as int,
                    SCALE as int,
                );
                lemma_tdiv_bound(
                    (re@[k as int] as int) * (cos_t@[idx as int] as int),
                    SCALE as int,
                    EST_LIMIT as int,
                );
                lemma_tdiv_bound(
                    (im@[k as int] as int) * (sin_t@[idx as int] as int),
                    SCALE as int,
                    EST_LIMIT as int,
                );
            }
            let term_re = tdiv128((re[k] as i128) * (cos_t[idx] as i128), SCALE as i128);
            let term_im = tdiv128((im[k] as i128) * (sin_t[idx] as i128), SCALE as i128);
            // interior bins count twice: their mirror images are implicit
            let weight: i128 = if k == 0 || k == bins - 1 {
                1
            } else {
                2
            };
            acc = acc + weight * (term_re - term_im);
            k = k + 1;
        }
        proof {
            assert(bins as int <= n as int) by (nonlinear_arith)
                requires
                    bins == n / 2 + 1,
                    2 <= n,
            ;
            assert((bins as i128) * 200_000_000_000_000_000 <= 200_000_000_000_000_000int * (
            n as int)) by (nonlinear_arith)
                requires
                    bins as int <= n as int,
            ;
            lemma_tdiv_bound(acc as int, n as int, 200_000_000_000_000_000int);
        }
        let v = tdiv128(acc, n as i128) as i64;
        out.push(v);
        j = j + 1;
    }
    out
}

/// The squared magnitude of one bin, exactly `bin_power_s`.
fn bin_power(re: i64, im: i64) -> (r: i128)
    requires
        -BIN_LIMIT <= re <= BIN_LIMIT,
        -BIN_LIMIT <= im <= BIN_LIMIT,
    ensures
        r as int == bin_power_s(re as int, im as int),
        0 <= r <= 2_200_000_000_000_000_000_000_000_000,
{
    proof {
        lemma_prod_bound(re as int, re as int, BIN_LIMIT as int, BIN_LIMIT as int);
        lemma_prod_bound(im as int, im as int, BIN_LIMIT as int, BIN_LIMIT as int);
        assert((re as int) * (re as int) >= 0 && (im as int) * (im as int) >= 0)
            by (nonlinear_arith);
        lemma_tdiv_sign((re as int) * (re as int), SCALE as int);
        lemma_tdiv_sign((im as int) * (im as int), SCALE as int);
        lemma_tdiv_bound(
            (re as int) * (re as int),
            SCALE as int,
            1_100_000_000_000_000_000_000_000_000,
        );
        lemma_tdiv_bound(
            (im as int) * (im as int),
            SCALE as int,
            1_100_000_000_000_000_000_000_000_000,
        );
    }
    let pr = tdiv128((re as i128) * (re as i128), SCALE as i128);
    let pi = tdiv128((im as i128) * (im as i128), SCALE as i128);
    pr + pi
}

/// One windowed analysis frame starting at `start`, exactly
/// `frame_s` at each index.
fn windowed_frame(signal: &Vec<i64>, window: &Vec<i64>, start: usize, n: usize) -> (r: Vec<i64>)
    requires
        wf_buf(signal@),
        window@.len() == n,
        1 <= n <= MAX_FFT,
        forall|i: int| 0 <= i < n ==> #[trigger] window@[i] as int == hann_s(n as int, i),
        forall|i: int| 0 <= i < n ==> 0 <= #[trigger] window@[i] <= SCALE,
    ensures
        r@.len() == n,
        forall|j: int|
            0 <= j < n ==> #[trigger] r@[j] as int == frame_s(signal@, n as int, start as int, j),
        wf_buf(r@),
{
    let mut frame: Vec<i64> = Vec::new();
    let len = signal.len();
    let mut j: usize = 0;
    while j < n
        invariant
            0 <= j <= n,
            n == window@.len(),
            len == signal@.len(),
            wf_buf(signal@),
            forall|i: int| 0 <= i < n ==> #[trigger] window@[i] as int == hann_s(n as int, i),
            forall|i: int| 0 <= i < n ==> 0 <= #[trigger] window@[i] <= SCALE,
            frame@.len() == j,
            forall|i: int|
                0 <= i < j ==> #[trigger] frame@[i] as int == frame_s(
                    signal@,
                    n as int,
                    start as int,
                    i,
                ),
            wf_buf(frame@),
        decreases n - j,
    {
        let v: i64 = if start <= usize::MAX - j && start + j < len {
            let x = signal[start + j];
            proof {
                assert(-AMP_LIMIT <= signal@[start + j] <= AMP_LIMIT);
                lemma_prod_bound(x as int, window@[j as int] as int, AMP_LIMIT as int, SCALE as int);
                lemma_tdiv_bound(
                    (x as int) * (window@[j as int] as int),
                    SCALE as int,
                    AMP_LIMIT as int,
                );
            }
            tdiv128((x as i128) * (window[j] as i128), SCALE as i128) as i64
        } else {
            0
        };
        frame.push(v);
        j = j + 1;
    }
    frame
}

/// The squared magnitude of one noise-profile entry, exactly
/// `noise_power_s`.
fn noise_power(m: i64) -> (r: i128)
    requires
        0 <= m <= PROFILE_LIMIT,
    ensures
        r as int == noise_power_s(m as int),
        0 <= r <= 3_000_000_000_000_000_000_000_000_000,
{
    proof {
        lemma_prod_bound(m as int, m as int, PROFILE_LIMIT as int, PROFILE_LIMIT as int);
        assert((m as int) * (m as int) >= 0) by (nonlinear_arith);
        lemma_tdiv_sign((m as int) * (m as int), SCALE as int);
        lemma_tdiv_bound(
            (m as int) * (m as int),
            SCALE as int,
            3_000_000_000_000_000_000_000_000_000,
        );
    }
    tdiv128((m as i128) * (m as i128), SCALE as i128)
}

/// The Wiener gain in micro-units, exactly `wiener_gain_s`; always
/// inside `[0, SCALE]`.
fn wiener_gain(p: i128, np: i128) -> (r: i64)
    requires
        0 <= p <= 3_000_000_000_000_000_000_000_000_000,
        0 <= np <= 3_000_000_000_000_000_000_000_000_000,
    ensures
        r as int == wiener_gain_s(p as int, np as int),
        0 <= r <= SCALE,
{
    let den = p + np + 1;
    proof {
        lemma_prod_bound(
            p as int,
            SCALE as int,
            3_000_000_000_000_000_000_000_000_000,
            SCALE as int,
        );
        lemma_tdiv_sign(p as int * (SCALE as int), den as int);
        assert(p as int * (SCALE as int) >= 0) by (nonlinear_arith)
            requires
                p >= 0,
        ;
        assert(p as int * (SCALE as int) <= (SCALE as int) * (den as int)) by (nonlinear_arith)
            requires
                0 <= p,
                den >= p + 1,
                SCALE >= 1,
        ;
        lemma_tdiv_bound(p as int * (SCALE as int), den as int, SCALE as int);
    }
    let g = tdiv128(p * (SCALE as i128), den);
    g as i64
}

/// One smoothing step of the clean-spectrum estimate, exactly
/// `estimate_update_s`.
fn estimate_update(est: i64, sp: i64, snr: i64, smoothing: i64) -> (r: i64)
    requires
        -EST_LIMIT <= est <= EST_LIMIT,
        -BIN_LIMIT <= sp <= BIN_LIMIT,
        0 <= snr <= SCALE,
        0 <= smoothing <= SCALE,
    ensures
        r as int == estimate_update_s(est as int, sp as int, snr as int, smoothing as int),
        -EST_LIMIT <= r <= EST_LIMIT,
{
    proof {
        lemma_prod_bound(sp as int, snr as int, BIN_LIMIT as int, SCALE as int);
        lemma_tdiv_bound((sp as int) * (snr as int), SCALE as int, BIN_LIMIT as int);
    }
    let weighted = tdiv128((sp as i128) * (snr as i128), SCALE as i128);
    proof {
        lemma_prod_bound(est as int, smoothing as int, EST_LIMIT as int, SCALE as int);
        lemma_tdiv_bound((est as int) * (smoothing as int), SCALE as int, EST_LIMIT as int);
        lemma_prod_bound(
            weighted as int,
            (SCALE - smoothing) as int,
            BIN_LIMIT as int,
            SCALE as int,
        );
        lemma_tdiv_bound(
            (weighted as int) * ((SCALE - smoothing) as int),
            SCALE as int,
            BIN_LIMIT as int,
        );
    }
    let old_part = tdiv128((est as i128) * (smoothing as i128), SCALE as i128);
    let new_part = tdiv128((weighted as i128) * ((SCALE - smoothing) as i128), SCALE as i128);
    let sum = old_part + new_part;
    if sum > EST_LIMIT as i128 {
        EST_LIMIT
    } else if sum < -(EST_LIMIT as i128) {
        -EST_LIMIT
    } else {
        sum as i64
    }
}

/// One reconstructed sample: the overlap-add accumulator divided by
/// the summed squared window, saturated to the amplitude range.
fn normalized_sample(a: i128, ws: i128) -> (r: i64)
    requires
        ws > 0,
        -4_000_000_000_000_000_000_000_000_000_000 <= a <= 4_000_000_000_000_000_000_000_000_000_000,
        ws <= 4_000_000_000_000_000_000_000_000_000_000,
    ensures
        r as int == clamp_v(tdiv((a as int) * 1_000_000, ws as int), AMP_LIMIT as int),
        -AMP_LIMIT <= r <= AMP_LIMIT,
{
    proof {
        lemma_prod_bound(
            a as int,
            SCALE as int,
            4_000_000_000_000_000_000_000_000_000_000,
            SCALE as int,
        );
    }
    let scaled = a * (SCALE as i128);
    let q = tdiv128(scaled, ws);
    let clamped: i128 = if q > AMP_LIMIT as i128 {
        AMP_LIMIT as i128
    } else if q < -(AMP_LIMIT as i128) {
        -(AMP_LIMIT as i128)
    } else {
        q
    };
    clamped as i64
}

/// A plain copy of a buffer.
pub(crate) fn copy_buffer(v: &Vec<i64>) -> (r: Vec<i64>)
    requires
        wf_buf(v@),
    ensures
        r@ == v@,
        wf_buf(r@),
{
    let mut out: Vec<i64> = Vec::new();
    let n = v.len();
    let mut i: usize = 0;
    while i < n
        invariant
            0 <= i <= n,
            n == v@.len(),
            out@.len() == i,
            forall|j: int| 0 <= j < i ==> #[trigger] out@[j] == v@[j],
        decreases n - i,
    {
        let x = v[i];
        out.push(x);
        i = i + 1;
    }
    proof {
        assert(out@ =~= v@);
    }
    out
}

} // verus!
