//! RMS-based loudness normalization: scales a buffer so that its root
//! mean square level matches a target given in decibels relative to
//! full scale (dBFS).

use vstd::prelude::*;
use crate::fixed::SCALE;
use crate::fixed::AMP_LIMIT;
use crate::fixed::abs_v;
use crate::fixed::qmul;
use crate::fixed::qdiv;
use crate::fixed::tdiv;
use crate::fixed::tdiv128;
use crate::fixed::clamp_v;
use crate::fixed::wf_buf;
use crate::fixed::sum_sq;
use crate::fixed::sum_sq_exec;
use crate::fixed::scaled_clamped;
use crate::fixed::isqrt128;
use crate::fixed::is_floor_sqrt;
use crate::fixed::sqrt_floor;
use crate::fixed::lemma_sqrt_floor_unique;
use crate::fixed::mul_q_clamped;
use crate::fixed::lemma_tdiv_bound;
use crate::fixed::lemma_tdiv_sign;
use crate::math::db_to_linear;
use crate::math::db_to_linear_s;

verus! {

/// The mean of the micro-unit squares of the entries; meaningful for a
/// non-empty buffer.
pub open spec fn mean_sq(s: Seq<i64>) -> int {
    tdiv(sum_sq(s), s.len() as int)
}

/// The exact scaling factor RMS normalization applies: the linear
/// target amplitude over the floor-root of the mean square.
pub open spec fn rms_scale(s: Seq<i64>, target_dbfs: int) -> int {
    qdiv(db_to_linear_s(target_dbfs), sqrt_floor(mean_sq(s) * (SCALE as int)))
}

/// Normalizes the buffer in place so that its RMS level matches
/// `target_dbfs` (micro-decibels relative to full scale, at most 0).
///
/// An empty buffer, and a buffer whose RMS rounds to zero, are left
/// unchanged.  Otherwise every entry is scaled by the single
/// non-negative factor `rms_scale` — the linear target over the
/// buffer's RMS — so the waveform's shape and sign pattern are
/// preserved.
pub fn normalize_rms(buffer: &mut Vec<i64>, target_dbfs: i64)
    requires
        wf_buf(old(buffer)@),
        -1_000_000_000_000 <= target_dbfs <= 0,
    ensures
        final(buffer)@.len() == old(buffer)@.len(),
        wf_buf(final(buffer)@),
        old(buffer)@.len() == 0 ==> final(buffer)@ == old(buffer)@,
        old(buffer)@.len() > 0 && mean_sq(old(buffer)@) * (SCALE as int) < 1
            ==> final(buffer)@ == old(buffer)@,
        old(buffer)@.len() > 0 && mean_sq(old(buffer)@) * (SCALE as int) >= 1
            ==> final(buffer)@ == scaled_clamped(
            old(buffer)@,
            rms_scale(old(buffer)@, target_dbfs as int),
        ),
{
    let ghost orig = old(buffer)@;
    if buffer.len() == 0 {
        return ;
    }
    let n = buffer.len();
    let ssq = sum_sq_exec(buffer);
    let mean = tdiv128(ssq, n as i128);
    proof {
        lemma_tdiv_sign(ssq as int, n as int);
        lemma_tdiv_bound(ssq as int, n as int, 1_000_000_000_000_000_000);
        assert(abs_v(ssq as int) <= 1_000_000_000_000_000_000 * (n as int))
            by (nonlinear_arith)
            requires
                0 <= ssq,
                ssq as int <= (n as int) * 1_000_000_000_000_000_000,
        ;
    }
    let rms = isqrt128(mean * 1_000_000);
    proof {
        assert(rms <= 1_000_000_000_000) by (nonlinear_arith)
            requires
                0 <= rms,
                rms * rms <= mean * 1_000_000,
                mean <= 1_000_000_000_000_000_000,
        ;
    }
    if rms == 0 {
        proof {
            assert((rms + 1) * (rms + 1) == 1) by (nonlinear_arith)
                requires
                    rms == 0,
            ;
            assert(mean_sq(orig) * (SCALE as int) < 1);
        }
        return ;
    }
    let lin = db_to_linear(target_dbfs);
    let scale = tdiv128((lin as i128) * 1_000_000, rms);
    proof {
        lemma_tdiv_sign((lin as int) * 1_000_000, rms as int);
        lemma_tdiv_bound((lin as int) * 1_000_000, rms as int, 1_000_000_000_000);
    }
    let scale64: i64 = scale as i64;
    let mut i: usize = 0;
    while i < n
        invariant
            0 <= i <= n,
            n == orig.len(),
            buffer@.len() == orig.len(),
            wf_buf(orig),
            0 <= scale64 <= AMP_LIMIT,
            forall|j: int| i <= j < n ==> buffer@[j] == orig[j],
            forall|j: int|
                0 <= j < i ==> buffer@[j] == clamp_v(
                    qmul(orig[j] as int, scale64 as int),
                    AMP_LIMIT as int,
                ) && -AMP_LIMIT <= #[trigger] buffer@[j] <= AMP_LIMIT,
        decreases n - i,
    {
        let x = buffer[i];
        let y = mul_q_clamped(x, scale64, AMP_LIMIT);
        buffer.set(i, y);
        i = i + 1;
    }
    proof {
        assert(buffer@ =~= scaled_clamped(orig, scale64 as int));
        assert(mean_sq(orig) * (SCALE as int) >= 1) by {
            assert((rms as int) * (rms as int) >= 1) by (nonlinear_arith)
                requires
                    rms >= 1,
            ;
        }
        let rr = rms as int;
        assert(is_floor_sqrt(rr, mean_sq(orig) * (SCALE as int)));
        lemma_sqrt_floor_unique(rr, mean_sq(orig) * (SCALE as int));
        assert(scale64 as int == rms_scale(orig, target_dbfs as int));
    }
}

} // verus!
