//! Utility functions shared by the processing stages.

use vstd::prelude::*;
use crate::fixed::SCALE;
use crate::fixed::AMP_LIMIT;
use crate::fixed::abs_v;
use crate::fixed::tdiv;
use crate::fixed::wf_buf;
use crate::fixed::max_abs;
use crate::fixed::peak_abs;
use crate::fixed::scale_div;
use crate::fixed::lemma_abs_mul;
use crate::fixed::lemma_tdiv_bound;
use crate::fixed::lemma_tdiv_exact;
use crate::fixed::lemma_max_abs_ge_elem;
use crate::fixed::lemma_max_abs_le;
use crate::fixed::lemma_max_abs_witness;
use crate::math::PI_Q;

verus! {

/// Converts a frequency to the angle it advances per sample, in
/// micro-radians: `2 * pi * frequency / sample_rate`.  Frequency and
/// sample rate are micro-Hertz values, with the frequency at or below
/// the sample rate.
pub fn hz_to_radians(frequency: i64, sample_rate: i64) -> (r: i64)
    requires
        1 <= sample_rate,
        0 <= frequency <= sample_rate,
    ensures
        r as int == tdiv(2 * (PI_Q as int) * (frequency as int), sample_rate as int),
        0 <= r <= 2 * (PI_Q as int),
{
    let wide: i128 = 2 * (PI_Q as i128) * (frequency as i128);
    let q = crate::fixed::tdiv128(wide, sample_rate as i128);
    proof {
        crate::fixed::lemma_tdiv_sign(wide as int, sample_rate as int);
        assert(abs_v(wide as int) <= 6_283_186 * (sample_rate as int))
            by (nonlinear_arith)
            requires
                0 <= frequency <= sample_rate,
                wide == 2 * (PI_Q as i128) * (frequency as i128),
                PI_Q == 3_141_593i64,
        ;
        lemma_tdiv_bound(wide as int, sample_rate as int, 6_283_186int);
    }
    q as i64
}

/// The buffer scaled entry-wise by `num / den`, truncating toward zero.
pub open spec fn scaled_by(s: Seq<i64>, num: int, den: int) -> Seq<i64> {
    Seq::new(s.len(), |i: int| tdiv(s[i] * num, den) as i64)
}

/// Scales every entry of `buf` by `num / den`; the scaled entries must
/// stay within the representable range.
pub(crate) fn scale_buffer(buf: &mut Vec<i64>, num: i64, den: i64)
    requires
        wf_buf(old(buf)@),
        den > 0,
        num >= 0,
        max_abs(old(buf)@) * num <= den * AMP_LIMIT,
    ensures
        final(buf)@ == scaled_by(old(buf)@, num as int, den as int),
        wf_buf(final(buf)@),
        final(buf)@.len() == old(buf)@.len(),
{
    let ghost orig = old(buf)@;
    let n = buf.len();
    let mut i: usize = 0;
    while i < n
        invariant
            0 <= i <= n,
            n == orig.len(),
            buf@.len() == orig.len(),
            wf_buf(orig),
            den > 0,
            num >= 0,
            max_abs(orig) * num <= den * (AMP_LIMIT as int),
            forall|j: int| i <= j < n ==> buf@[j] == orig[j],
            forall|j: int|
                0 <= j < i ==> buf@[j] == tdiv(orig[j] * (num as int), den as int)
                    && -AMP_LIMIT <= #[trigger] buf@[j] <= AMP_LIMIT,
        decreases n - i,
    {
        let x = buf[i];
        proof {
            lemma_max_abs_ge_elem(orig, i as int);
            assert(abs_v(x as int) * (num as int) <= max_abs(orig) * (num as int))
                by (nonlinear_arith)
                requires
                    abs_v(x as int) <= max_abs(orig),
                    num >= 0,
            ;
            assert((den as int) * (AMP_LIMIT as int) <= (den as int) * (i64::MAX as int))
                by (nonlinear_arith)
                requires
                    den > 0,
            ;
            lemma_abs_mul(x as int, num as int);
            lemma_tdiv_bound(x as int * (num as int), den as int, AMP_LIMIT as int);
        }
        let y = scale_div(x, num, den);
        buf.set(i, y);
        i = i + 1;
    }
    proof {
        assert(final(buf)@ =~= scaled_by(orig, num as int, den as int));
    }
}

/// The idempotence of peak normalization, as a law: scaling a buffer
/// whose peak magnitude already equals the target by `target / peak`
/// returns the buffer itself.
pub proof fn lemma_normalize_idempotent(s: Seq<i64>, target: int)
    requires
        target > 0,
        max_abs(s) == target,
    ensures
        scaled_by(s, target, target) == s,
{
    assert forall|i: int| 0 <= i < s.len() implies scaled_by(s, target, target)[i] == s[i] by {
        lemma_tdiv_exact(s[i] as int, target);
    }
    assert(scaled_by(s, target, target) =~= s);
}

/// Scales a buffer so that its peak magnitude is exactly `target`
/// (at most full scale); a silent buffer is left unchanged, and a
/// buffer whose peak already equals `target` is unchanged, so the
/// operation is idempotent.
pub fn normalize_to_peak(samples: &mut Vec<i64>, target: i64)
    requires
        wf_buf(old(samples)@),
        0 <= target <= SCALE,
    ensures
        final(samples)@.len() == old(samples)@.len(),
        wf_buf(final(samples)@),
        max_abs(old(samples)@) == 0 ==> final(samples)@ == old(samples)@,
        max_abs(old(samples)@) > 0 ==> final(samples)@ == scaled_by(
            old(samples)@,
            target as int,
            max_abs(old(samples)@),
        ),
        max_abs(old(samples)@) > 0 ==> max_abs(final(samples)@) == target as int,
        max_abs(old(samples)@) == target as int ==> final(samples)@ == old(samples)@,
{
    let ghost orig = old(samples)@;
    let peak = peak_abs(samples);
    if peak > 0 {
        proof {
            assert(max_abs(orig) * (target as int) <= (peak as int) * (AMP_LIMIT as int))
                by (nonlinear_arith)
                requires
                    peak as int == max_abs(orig),
                    0 < peak <= AMP_LIMIT,
                    0 <= target <= SCALE,
                    SCALE == 1_000_000i64,
                    AMP_LIMIT == 1_000_000_000_000i64,
            ;
        }
        scale_buffer(samples, target, peak);
        proof {
            let out = final(samples)@;
            // every scaled entry is bounded by the target
            assert forall|i: int| 0 <= i < out.len() implies abs_v(
                #[trigger] out[i] as int,
            ) <= target as int by {
                lemma_max_abs_ge_elem(orig, i);
                lemma_abs_mul(orig[i] as int, target as int);
                assert(abs_v(orig[i] as int) * (target as int) <= (target as int) * (
                peak as int)) by (nonlinear_arith)
                    requires
                        abs_v(orig[i] as int) <= peak as int,
                        target >= 0,
                ;
                lemma_tdiv_bound(orig[i] as int * (target as int), peak as int, target as int);
            }
            // the loudest entry lands exactly on the target
            let w = lemma_max_abs_witness(orig);
            lemma_abs_mul(orig[w] as int, target as int);
            lemma_tdiv_exact(target as int, peak as int);
            assert(abs_v(orig[w] as int) * (target as int) == (target as int) * (peak as int))
                by (nonlinear_arith)
                requires
                    abs_v(orig[w] as int) == peak as int,
            ;
            assert(abs_v(out[w] as int) == target as int);
            lemma_max_abs_le(out, target as int);
            lemma_max_abs_ge_elem(out, w);
            // a buffer whose peak is already the target is unchanged
            if peak as int == target as int {
                assert forall|i: int| 0 <= i < out.len() implies out[i] == orig[i] by {
                    lemma_tdiv_exact(orig[i] as int, peak as int);
                }
                assert(out =~= orig);
            }
        }
    }
}

/// Scales a buffer so that its peak magnitude is exactly full scale
/// (`SCALE`); a silent buffer is returned unchanged.  A buffer already
/// at full scale is unchanged, so the operation is idempotent.
pub fn normalize_audio(samples: &mut Vec<i64>)
    requires
        wf_buf(old(samples)@),
    ensures
        final(samples)@.len() == old(samples)@.len(),
        wf_buf(final(samples)@),
        max_abs(old(samples)@) == 0 ==> final(samples)@ == old(samples)@,
        max_abs(old(samples)@) > 0 ==> final(samples)@ == scaled_by(
            old(samples)@,
            SCALE as int,
            max_abs(old(samples)@),
        ),
        max_abs(old(samples)@) > 0 ==> max_abs(final(samples)@) == SCALE as int,
        max_abs(old(samples)@) == SCALE as int ==> final(samples)@ == old(samples)@,
{
    normalize_to_peak(samples, SCALE);
}

} // verus!
