//! Audio filters: gain, a first-order low-pass, the RMS compressor,
//! the parametric equalizer, the multiband compressor and the spectral
//! noise reducer.

pub mod compressor;
pub mod equalizer;
pub mod multiband;
pub mod wiener_filter;

pub use compressor::compress_rms;

use vstd::prelude::*;
use crate::fixed::SCALE;
use crate::fixed::AMP_LIMIT;
use crate::fixed::qmul;
use crate::fixed::clamp_v;
use crate::fixed::wf_buf;
use crate::fixed::scaled_clamped;
use crate::fixed::mul_q;
use crate::fixed::mul_q_clamped;
use crate::fixed::clamp64;
use crate::fixed::lemma_prod_bound;
use crate::fixed::lemma_tdiv_bound;

verus! {

/// Multiplies every sample by the micro-unit factor `gain`, clamping
/// into the representable range.
pub fn apply_gain(input: &Vec<i64>, gain: i64) -> (r: Vec<i64>)
    requires
        wf_buf(input@),
    ensures
        r@ == scaled_clamped(input@, gain as int),
        r@.len() == input@.len(),
        wf_buf(r@),
{
    let mut out: Vec<i64> = Vec::new();
    let n = input.len();
    let mut i: usize = 0;
    while i < n
        invariant
            0 <= i <= n,
            n == input@.len(),
            out@.len() == i,
            wf_buf(input@),
            forall|j: int|
                0 <= j < i ==> out@[j] == clamp_v(
                    qmul(input@[j] as int, gain as int),
                    AMP_LIMIT as int,
                ) && -AMP_LIMIT <= #[trigger] out@[j] <= AMP_LIMIT,
        decreases n - i,
    {
        let y = mul_q_clamped(input[i], gain, AMP_LIMIT);
        out.push(y);
        i = i + 1;
    }
    proof {
        assert(out@ =~= scaled_clamped(input@, gain as int));
    }
    out
}

/// The value of the first-order low-pass at index `i`: the previous
/// output moved toward the input by the fraction `alpha`.
pub open spec fn low_pass_at(s: Seq<i64>, alpha: int, i: int) -> int
    decreases i,
{
    if i <= 0 {
        s[0] as int
    } else {
        let prev = low_pass_at(s, alpha, i - 1);
        clamp_v(prev + qmul(alpha, s[i] as int - prev), AMP_LIMIT as int)
    }
}

/// A first-order low-pass filter: each output moves from the previous
/// output toward the current sample by the smoothing fraction `alpha`.
pub fn low_pass(input: &Vec<i64>, alpha: i64) -> (r: Vec<i64>)
    requires
        wf_buf(input@),
        0 <= alpha <= SCALE,
    ensures
        r@.len() == input@.len(),
        wf_buf(r@),
        forall|i: int| 0 <= i < input@.len() ==> #[trigger] r@[i] as int == low_pass_at(
            input@,
            alpha as int,
            i,
        ),
{
    let mut out: Vec<i64> = Vec::new();
    let n = input.len();
    if n == 0 {
        return out;
    }
    let mut prev: i64 = input[0];
    let mut i: usize = 0;
    while i < n
        invariant
            0 <= i <= n,
            n == input@.len(),
            out@.len() == i,
            wf_buf(input@),
            0 <= alpha <= SCALE,
            -AMP_LIMIT <= prev <= AMP_LIMIT,
            i == 0 ==> prev == input@[0],
            i > 0 ==> prev as int == low_pass_at(input@, alpha as int, i - 1),
            forall|j: int| 0 <= j < i ==> #[trigger] out@[j] as int == low_pass_at(
                input@,
                alpha as int,
                j,
            ) && -AMP_LIMIT <= out@[j] <= AMP_LIMIT,
        decreases n - i,
    {
        let x = input[i];
        proof {
            assert(-AMP_LIMIT <= input@[i as int] <= AMP_LIMIT);
        }
        let d = x - prev;
        proof {
            crate::fixed::lemma_abs_mul(alpha as int, d as int);
            lemma_prod_bound(alpha as int, d as int, SCALE as int, 2 * AMP_LIMIT as int);
            lemma_tdiv_bound(
                (alpha as int) * (d as int),
                SCALE as int,
                2 * AMP_LIMIT as int,
            );
        }
        let step = mul_q(alpha, d);
        let y = clamp64(prev + step, AMP_LIMIT);
        proof {
            if i == 0 {
                assert(qmul(alpha as int, input@[0] as int - prev as int) == qmul(
                    alpha as int,
                    0,
                ));
                assert(low_pass_at(input@, alpha as int, 0) == input@[0]) by {
                    assert((alpha as int) * 0 == 0) by (nonlinear_arith);
                    crate::fixed::lemma_tdiv_sign(0, SCALE as int);
                }
            }
        }
        out.push(y);
        prev = y;
        i = i + 1;
    }
    out
}

} // verus!
