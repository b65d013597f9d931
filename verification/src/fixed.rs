//! Fixed-point amplitude arithmetic.
//!
//! A sample is an `i64` counting micro-units of amplitude: the value
//! `SCALE` stands for full scale (1.0).  All stage arithmetic is done on
//! these integers, widening to `i128` for intermediate products, with
//! division always truncating toward zero.

use vstd::prelude::*;

verus! {

/// Number of micro-units in one unit of amplitude (1.0).
pub const SCALE: i64 = 1_000_000;

/// Largest amplitude magnitude a well-formed buffer entry may carry
/// (one million times full scale).
pub const AMP_LIMIT: i64 = 1_000_000_000_000;

/// Absolute value.
pub open spec fn abs_v(x: int) -> int {
    if x < 0 {
        -x
    } else {
        x
    }
}

/// Division truncating toward zero, for positive divisors.
pub open spec fn tdiv(n: int, d: int) -> int {
    if n >= 0 {
        n / d
    } else {
        -((-n) / d)
    }
}

/// Product of two micro-unit values, rescaled back to micro-units.
pub open spec fn qmul(a: int, b: int) -> int {
    tdiv(a * b, SCALE as int)
}

/// Quotient of two micro-unit values, in micro-units.
pub open spec fn qdiv(a: int, b: int) -> int {
    tdiv(a * (SCALE as int), b)
}

/// `x` forced into `[-limit, limit]`.
pub open spec fn clamp_v(x: int, limit: int) -> int {
    if x < -limit {
        -limit
    } else if x > limit {
        limit
    } else {
        x
    }
}

/// Every entry of `s` lies within `[-bound, bound]`.
pub open spec fn bounded_by(s: Seq<i64>, bound: int) -> bool {
    forall|i: int| 0 <= i < s.len() ==> -bound <= #[trigger] s[i] <= bound
}

/// A well-formed sample buffer: every entry within the representable
/// amplitude range.
pub open spec fn wf_buf(s: Seq<i64>) -> bool {
    bounded_by(s, AMP_LIMIT as int)
}

/// Largest absolute value of any entry (0 for the empty buffer).
pub open spec fn max_abs(s: Seq<i64>) -> int
    decreases s.len(),
{
    if s.len() == 0 {
        0
    } else {
        let rest = max_abs(s.drop_last());
        let last = abs_v(s.last() as int);
        if last > rest {
            last
        } else {
            rest
        }
    }
}

/// Sum over the buffer of the micro-unit squares `qmul(x, x)`.
pub open spec fn sum_sq(s: Seq<i64>) -> int
    decreases s.len(),
{
    if s.len() == 0 {
        0
    } else {
        sum_sq(s.drop_last()) + qmul(s.last() as int, s.last() as int)
    }
}

/// The buffer scaled entry-wise by the micro-unit factor `num`, each
/// entry clamped into the representable amplitude range.
pub open spec fn scaled_clamped(s: Seq<i64>, num: int) -> Seq<i64> {
    Seq::new(s.len(), |i: int| clamp_v(qmul(s[i] as int, num), AMP_LIMIT as int) as i64)
}

/// `r` is the floor of the square root of `x`: the unique non-negative
/// integer whose square is at most `x` while the next square is not.
pub open spec fn is_floor_sqrt(r: int, x: int) -> bool {
    &&& r >= 0
    &&& r * r <= x
    &&& x < (r + 1) * (r + 1)
}

/// The floor of the square root, as a value.
pub open spec fn sqrt_floor(x: int) -> int {
    choose|r: int| is_floor_sqrt(r, x)
}

/// The floor square root is unique, so any witness equals `sqrt_floor`.
pub proof fn lemma_sqrt_floor_unique(r: int, x: int)
    requires
        is_floor_sqrt(r, x),
    ensures
        sqrt_floor(x) == r,
{
    assert(is_floor_sqrt(sqrt_floor(x), x)) by {
        assert(exists|q: int| is_floor_sqrt(q, x));
    }
    let s = sqrt_floor(x);
    assert(r == s) by (nonlinear_arith)
        requires
            is_floor_sqrt(r, x),
            is_floor_sqrt(s, x),
    ;
}

/// The remainder-free form of a rounded-up quotient: negating the
/// ceiling of `m / d` gives the Euclidean quotient of `-m` by `d`.
pub proof fn lemma_neg_ceil_div(m: int, d: int)
    requires
        m >= 0,
        d > 0,
    ensures
        -((m + d - 1) / d) == (-m) / d,
        (-m) % d == d * ((m + d - 1) / d) - m,
{
    let q = (m + d - 1) / d;
    let rr = (m + d - 1) % d;
    vstd::arithmetic::div_mod::lemma_fundamental_div_mod(m + d - 1, d);
    vstd::arithmetic::div_mod::lemma_mod_division_less_than_divisor(m + d - 1, d);
    vstd::arithmetic::div_mod::lemma_div_pos_is_pos(m + d - 1, d);
    assert(m + d - 1 == q * d + rr);
    assert(-m == (-q) * d + (d - 1 - rr)) by (nonlinear_arith)
        requires
            m + d - 1 == q * d + rr,
    ;
    assert(0 <= d - 1 - rr < d);
    vstd::arithmetic::div_mod::lemma_fundamental_div_mod_converse(-m, d, -q, d - 1 - rr);
    assert(d * q - m == d - 1 - rr) by (nonlinear_arith)
        requires
            m + d - 1 == q * d + rr,
    ;
}

/// The rounded-up quotient is pinned by its bracketing multiples:
/// if `(w - 1) * hop < len <= w * hop` then `w` is the ceiling of
/// `len / hop`.
pub proof fn lemma_ceil_div_unique(len: int, hop: int, w: int)
    requires
        hop >= 1,
        len >= 1,
        (w - 1) * hop < len,
        len <= w * hop,
    ensures
        (len + hop - 1) / hop == w,
{
    let rr = len - 1 - (w - 1) * hop;
    assert(len + hop - 1 == w * hop + rr && 0 <= rr && rr < hop) by (nonlinear_arith)
        requires
            rr == len - 1 - (w - 1) * hop,
            (w - 1) * hop < len,
            len <= w * hop,
            hop >= 1,
    ;
    vstd::arithmetic::div_mod::lemma_fundamental_div_mod_converse(len + hop - 1, hop, w, rr);
}

/// Every entry's magnitude is bounded by the buffer's peak.
pub proof fn lemma_max_abs_ge_elem(s: Seq<i64>, i: int)
    requires
        0 <= i < s.len(),
    ensures
        abs_v(s[i] as int) <= max_abs(s),
    decreases s.len(),
{
    if i == s.len() - 1 {
        assert(s.last() == s[i]);
    } else {
        lemma_max_abs_ge_elem(s.drop_last(), i);
        assert(s.drop_last()[i] == s[i]);
    }
}

/// The peak is no more than any bound that holds of every entry.
pub proof fn lemma_max_abs_le(s: Seq<i64>, b: int)
    requires
        b >= 0,
        forall|i: int| 0 <= i < s.len() ==> abs_v(#[trigger] s[i] as int) <= b,
    ensures
        max_abs(s) <= b,
    decreases s.len(),
{
    if s.len() > 0 {
        lemma_max_abs_le(s.drop_last(), b);
        assert(forall|i: int|
            0 <= i < s.drop_last().len() ==> s.drop_last()[i] == s[i]);
        assert(s.last() == s[s.len() - 1]);
    }
}

/// The peak is never negative.
pub proof fn lemma_max_abs_nonneg(s: Seq<i64>)
    ensures
        max_abs(s) >= 0,
    decreases s.len(),
{
    if s.len() > 0 {
        lemma_max_abs_nonneg(s.drop_last());
    }
}

/// A non-empty buffer has an entry whose magnitude is the peak.
pub proof fn lemma_max_abs_witness(s: Seq<i64>) -> (w: int)
    requires
        s.len() > 0,
    ensures
        0 <= w < s.len(),
        abs_v(s[w] as int) == max_abs(s),
    decreases s.len(),
{
    if s.len() == 1 {
        assert(s.drop_last().len() == 0);
        assert(max_abs(s.drop_last()) == 0);
        assert(s.last() == s[0]);
        lemma_max_abs_nonneg(s);
        0
    } else {
        let rest = max_abs(s.drop_last());
        let last = abs_v(s.last() as int);
        if last > rest {
            assert(s.last() == s[s.len() - 1]);
            assert(max_abs(s) == last);
            s.len() - 1
        } else {
            let w = lemma_max_abs_witness(s.drop_last());
            assert(s.drop_last()[w] == s[w]);
            assert(max_abs(s) == rest);
            w
        }
    }
}

/// Magnitudes multiply: `|a * b| == |a| * |b|`.
pub proof fn lemma_abs_mul(a: int, b: int)
    ensures
        abs_v(a * b) == abs_v(a) * abs_v(b),
{
    assert(abs_v(a * b) == abs_v(a) * abs_v(b)) by (nonlinear_arith);
}

/// A product of bounded factors is bounded by the product of the bounds.
pub proof fn lemma_prod_bound(a: int, b: int, ba: int, bb: int)
    requires
        abs_v(a) <= ba,
        abs_v(b) <= bb,
    ensures
        abs_v(a * b) <= ba * bb,
{
    assert(abs_v(a * b) <= ba * bb) by (nonlinear_arith)
        requires
            abs_v(a) <= ba,
            abs_v(b) <= bb,
    ;
}

/// The magnitude of a truncating quotient is bounded by `b` whenever the
/// numerator is at most `b * d` in magnitude.
pub proof fn lemma_tdiv_bound(n: int, d: int, b: int)
    requires
        d > 0,
        b >= 0,
        abs_v(n) <= b * d,
    ensures
        abs_v(tdiv(n, d)) <= b,
{
    let m = abs_v(n);
    assert(m / d <= b) by {
        vstd::arithmetic::div_mod::lemma_div_is_ordered(m, b * d, d);
        vstd::arithmetic::div_mod::lemma_div_multiples_vanish(b, d);
        assert(b * d == d * b) by (nonlinear_arith);
    }
    assert(m / d >= 0) by {
        vstd::arithmetic::div_mod::lemma_div_pos_is_pos(m, d);
    }
    assert(abs_v(tdiv(n, d)) == m / d);
}

/// Exact cancellation: `(x * d) / d == x` for truncating division.
pub proof fn lemma_tdiv_exact(x: int, d: int)
    requires
        d > 0,
    ensures
        tdiv(x * d, d) == x,
{
    if x >= 0 {
        vstd::arithmetic::div_mod::lemma_div_multiples_vanish(x, d);
        assert(x * d == d * x) by (nonlinear_arith);
    } else {
        assert(-(x * d) == (-x) * d) by (nonlinear_arith);
        vstd::arithmetic::div_mod::lemma_div_multiples_vanish(-x, d);
        assert((-x) * d == d * (-x)) by (nonlinear_arith);
    }
}

/// Two truncating quotients of non-negative numerators, over one
/// positive divisor, sum to at most any bound on the combined quotient.
pub proof fn lemma_tdiv_sum_le(a: int, b: int, d: int, bound: int)
    requires
        d > 0,
        a >= 0,
        b >= 0,
        bound >= 0,
        a + b <= bound * d,
    ensures
        tdiv(a, d) + tdiv(b, d) <= bound,
{
    vstd::arithmetic::div_mod::lemma_fundamental_div_mod(a, d);
    vstd::arithmetic::div_mod::lemma_fundamental_div_mod(b, d);
    vstd::arithmetic::div_mod::lemma_mod_division_less_than_divisor(a, d);
    vstd::arithmetic::div_mod::lemma_mod_division_less_than_divisor(b, d);
    vstd::arithmetic::div_mod::lemma_div_pos_is_pos(a, d);
    vstd::arithmetic::div_mod::lemma_div_pos_is_pos(b, d);
    // a + b == d * (a/d + b/d) + (a%d + b%d), with both remainders small
    assert(d * (a / d) + d * (b / d) == d * (a / d + b / d)) by (nonlinear_arith);
    assert(d * (a / d + b / d) <= bound * d) by {
        assert(a % d >= 0 && b % d >= 0);
    }
    assert(a / d + b / d <= bound) by (nonlinear_arith)
        requires
            d > 0,
            d * (a / d + b / d) <= bound * d,
    ;
}

/// Truncating division keeps the sign of the numerator.
pub proof fn lemma_tdiv_sign(n: int, d: int)
    requires
        d > 0,
    ensures
        n >= 0 ==> tdiv(n, d) >= 0,
        n <= 0 ==> tdiv(n, d) <= 0,
{
    if n >= 0 {
        vstd::arithmetic::div_mod::lemma_div_pos_is_pos(n, d);
    }
    if n <= 0 {
        vstd::arithmetic::div_mod::lemma_div_pos_is_pos(-n, d);
    }
}

/// Truncating division is monotone in the magnitude of the numerator.
pub proof fn lemma_tdiv_abs_mono(n1: int, n2: int, d: int)
    requires
        d > 0,
        abs_v(n1) <= abs_v(n2),
    ensures
        abs_v(tdiv(n1, d)) <= abs_v(tdiv(n2, d)),
{
    vstd::arithmetic::div_mod::lemma_div_is_ordered(abs_v(n1), abs_v(n2), d);
    assert(abs_v(n1) / d >= 0) by {
        vstd::arithmetic::div_mod::lemma_div_is_ordered(0, abs_v(n1), d);
    }
    assert(abs_v(tdiv(n1, d)) == abs_v(n1) / d);
    assert(abs_v(tdiv(n2, d)) == abs_v(n2) / d);
}

/// Absolute value, for exec code.
pub fn abs64(x: i64) -> (r: i64)
    requires
        x > i64::MIN,
    ensures
        r == abs_v(x as int),
{
    if x < 0 {
        -x
    } else {
        x
    }
}

/// Truncating division on wide intermediates; divisor must be positive.
pub fn tdiv128(n: i128, d: i128) -> (r: i128)
    requires
        d > 0,
        n > i128::MIN,
    ensures
        r as int == tdiv(n as int, d as int),
{
    if n >= 0 {
        n / d
    } else {
        -((-n) / d)
    }
}

/// `x` forced into `[-limit, limit]`, for exec code.
pub fn clamp64(x: i64, limit: i64) -> (r: i64)
    requires
        limit >= 0,
    ensures
        r == clamp_v(x as int, limit as int),
        -limit <= r <= limit,
{
    if x < -limit {
        -limit
    } else if x > limit {
        limit
    } else {
        x
    }
}

/// `a * b / SCALE`, exact, for arguments whose product stays within range.
pub fn mul_q(a: i64, b: i64) -> (r: i64)
    requires
        abs_v(a as int) * abs_v(b as int) <= (i64::MAX as int) * (SCALE as int),
    ensures
        r == qmul(a as int, b as int),
{
    proof {
        lemma_abs_mul(a as int, b as int);
    }
    let wide: i128 = (a as i128) * (b as i128);
    proof {
        lemma_tdiv_bound(wide as int, SCALE as int, i64::MAX as int);
    }
    let q = tdiv128(wide, SCALE as i128);
    q as i64
}

/// `a * b / SCALE`, clamped into `[-limit, limit]`.
pub fn mul_q_clamped(a: i64, b: i64, limit: i64) -> (r: i64)
    requires
        limit >= 0,
    ensures
        r == clamp_v(qmul(a as int, b as int), limit as int),
        -limit <= r <= limit,
{
    proof {
        lemma_prod_bound(
            a as int,
            b as int,
            0x8000_0000_0000_0000,
            0x8000_0000_0000_0000,
        );
    }
    let wide: i128 = (a as i128) * (b as i128);
    let q = tdiv128(wide, SCALE as i128);
    if q < -(limit as i128) {
        -limit
    } else if q > limit as i128 {
        limit
    } else {
        q as i64
    }
}

/// `x * num / den`, exact; the caller bounds the product against the divisor.
pub fn scale_div(x: i64, num: i64, den: i64) -> (r: i64)
    requires
        den > 0,
        abs_v(x as int) * abs_v(num as int) <= (den as int) * (i64::MAX as int),
    ensures
        r == tdiv((x as int) * (num as int), den as int),
{
    proof {
        lemma_abs_mul(x as int, num as int);
    }
    let wide: i128 = (x as i128) * (num as i128);
    proof {
        assert(abs_v(wide as int) <= (den as int) * (i64::MAX as int));
        lemma_tdiv_bound(wide as int, den as int, i64::MAX as int);
    }
    let q = tdiv128(wide, den as i128);
    q as i64
}

/// Peak magnitude of a buffer, for exec code.
pub fn peak_abs(v: &Vec<i64>) -> (r: i64)
    requires
        wf_buf(v@),
    ensures
        r as int == max_abs(v@),
        0 <= r <= AMP_LIMIT,
{
    let ghost s = v@;
    let mut peak: i64 = 0;
    let mut i: usize = 0;
    while i < v.len()
        invariant
            0 <= i <= v.len(),
            v@ == s,
            wf_buf(s),
            peak as int == max_abs(s.take(i as int)),
            0 <= peak <= AMP_LIMIT,
        decreases v.len() - i,
    {
        let a = abs64(v[i]);
        proof {
            assert(s.take(i as int + 1).drop_last() =~= s.take(i as int));
            assert(s.take(i as int + 1).last() == s[i as int]);
        }
        if a > peak {
            peak = a;
        }
        i = i + 1;
    }
    proof {
        assert(s.take(v@.len() as int) =~= s);
    }
    peak
}

/// Sum of squares of a buffer, in micro-units, for exec code.
pub fn sum_sq_exec(v: &Vec<i64>) -> (r: i128)
    requires
        wf_buf(v@),
    ensures
        r as int == sum_sq(v@),
        0 <= r,
        r as int <= v@.len() * 1_000_000_000_000_000_000,
{
    let ghost s = v@;
    let mut acc: i128 = 0;
    let mut i: usize = 0;
    while i < v.len()
        invariant
            0 <= i <= v.len(),
            v@ == s,
            wf_buf(s),
            acc as int == sum_sq(s.take(i as int)),
            0 <= acc,
            acc as int <= (i as int) * 1_000_000_000_000_000_000,
        decreases v.len() - i,
    {
        let x = v[i];
        proof {
            assert((x as int) * (x as int) >= 0) by (nonlinear_arith);
            lemma_prod_bound(
                x as int,
                x as int,
                AMP_LIMIT as int,
                AMP_LIMIT as int,
            );
            lemma_tdiv_sign((x as int) * (x as int), SCALE as int);
            lemma_tdiv_bound(
                (x as int) * (x as int),
                SCALE as int,
                1_000_000_000_000_000_000,
            );
            assert(s.take(i as int + 1).drop_last() =~= s.take(i as int));
            assert(s.take(i as int + 1).last() == s[i as int]);
        }
        let sq = tdiv128((x as i128) * (x as i128), SCALE as i128);
        acc = acc + sq;
        i = i + 1;
    }
    proof {
        assert(s.take(v@.len() as int) =~= s);
    }
    acc
}

/// Floor of the square root: the unique `r >= 0` with
/// `r * r <= x < (r + 1) * (r + 1)`.
pub fn isqrt128(x: i128) -> (r: i128)
    requires
        0 <= x <= 1_000_000_000_000_000_000_000_000_000_000_000_000,
    ensures
        0 <= r,
        r * r <= x,
        x < (r + 1) * (r + 1),
{
    let mut lo: i128 = 0;
    let mut hi: i128 = 1_152_921_504_606_846_976;
    proof {
        assert((1_152_921_504_606_846_976 + 1) * (1_152_921_504_606_846_976 + 1)
            > 1_000_000_000_000_000_000_000_000_000_000_000_000int) by (nonlinear_arith);
    }
    while lo < hi
        invariant
            0 <= lo <= hi <= 1_152_921_504_606_846_976,
            lo * lo <= x,
            x < (hi + 1) * (hi + 1),
        decreases hi - lo,
    {
        let mid: i128 = lo + (hi - lo + 1) / 2;
        proof {
            assert(lo < mid <= hi);
            assert(mid * mid <= 1_152_921_504_606_846_976 * 1_152_921_504_606_846_976)
                by (nonlinear_arith)
                requires 0 <= mid <= 1_152_921_504_606_846_976,
            ;
        }
        if mid * mid <= x {
            lo = mid;
        } else {
            proof {
                assert(x < ((mid - 1) + 1) * ((mid - 1) + 1));
            }
            hi = mid - 1;
        }
    }
    lo
}

} // verus!
