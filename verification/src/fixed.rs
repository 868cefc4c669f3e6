//! Q16 fixed-point arithmetic for samples and gains.
//!
//! An `i64` sample with value `v` stands for the real number `v / 65536`.
//! Gains (attenuation, interpolation weights, filter coefficients) use the
//! same scale. Scaling a sample by a gain multiplies and divides by `ONE`,
//! truncating toward zero, which never increases a magnitude.

use vstd::prelude::*;

verus! {

/// The fixed-point unit: the representation of the real number 1.
pub const ONE: i64 = 65536;

/// Largest sample magnitude the scaling operations accept. Products with a
/// gain of at most `GAIN_LIMIT` then stay below `i64::MAX`.
pub const SAMPLE_LIMIT: i64 = 0x100_0000_0000;

/// Largest gain magnitude the scaling operations accept (64.0 in Q16).
pub const GAIN_LIMIT: i64 = 0x40_0000;

/// Magnitude of `x`.
pub open spec fn qabs(x: int) -> int {
    if x >= 0 {
        x
    } else {
        -x
    }
}

/// `x` scaled by the fixed-point gain `g`, truncating toward zero:
/// the representation of `(x/ONE) * (g/ONE)`, as a sample.
pub open spec fn scaled(x: int, g: int) -> int {
    let m = (qabs(x) * qabs(g)) / (ONE as int);
    if (x >= 0) == (g >= 0) {
        m
    } else {
        -m
    }
}

/// Scaling never increases `|x| * |g| / ONE`:
/// `|scaled(x, g)| * ONE <= |x| * |g|`.
pub proof fn lemma_scaled_bound(x: int, g: int)
    ensures
        qabs(scaled(x, g)) * ONE <= qabs(x) * qabs(g),
{
    let a = qabs(x);
    let b = qabs(g);
    assert(a * b >= 0) by (nonlinear_arith)
        requires a >= 0 && b >= 0;
    let q = (a * b) / (ONE as int);
    vstd::arithmetic::div_mod::lemma_fundamental_div_mod(a * b, ONE as int);
    vstd::arithmetic::div_mod::lemma_div_pos_is_pos(a * b, ONE as int);
    assert(q * ONE <= a * b);
}

/// The unit sample scaled by `g` is exactly `g`: `scaled(ONE, g) == g`.
pub proof fn lemma_scaled_unit(g: int)
    ensures
        scaled(ONE as int, g) == g,
{
    vstd::arithmetic::div_mod::lemma_div_multiples_vanish(qabs(g), ONE as int);
    assert((ONE as int) * qabs(g) == qabs(ONE as int) * qabs(g));
}

/// Scale the sample `x` by the gain `g`, truncating toward zero.
pub fn scale_q(x: i64, g: i64) -> (r: i64)
    requires
        qabs(x as int) <= SAMPLE_LIMIT,
        qabs(g as int) <= GAIN_LIMIT,
    ensures
        r == scaled(x as int, g as int),
        qabs(r as int) * ONE <= qabs(x as int) * qabs(g as int),
{
    let xm = if x >= 0 { x } else { -x };
    let gm = if g >= 0 { g } else { -g };
    proof {
        assert(xm * gm <= SAMPLE_LIMIT * GAIN_LIMIT && 0 <= xm * gm) by (nonlinear_arith)
            requires 0 <= xm <= SAMPLE_LIMIT && 0 <= gm <= GAIN_LIMIT;
        lemma_scaled_bound(x as int, g as int);
    }
    let m = (xm * gm) / ONE;
    if (x >= 0) == (g >= 0) {
        m
    } else {
        -m
    }
}

/// `r` is the integer square root of `n`: the largest integer whose square
/// does not exceed `n`.
pub open spec fn is_isqrt(n: int, r: int) -> bool {
    &&& r >= 0
    &&& r * r <= n
    &&& (r + 1) * (r + 1) > n
}

/// The integer square root of `n`.
pub open spec fn isqrt(n: nat) -> nat
    decreases n,
{
    if n == 0 {
        0
    } else {
        let r = isqrt((n - 1) as nat);
        if (r + 1) * (r + 1) <= n {
            r + 1
        } else {
            r
        }
    }
}

/// `isqrt` satisfies its characterization.
pub proof fn lemma_isqrt_is_isqrt(n: nat)
    ensures
        is_isqrt(n as int, isqrt(n) as int),
    decreases n,
{
    if n == 0 {
    } else {
        lemma_isqrt_is_isqrt((n - 1) as nat);
        let r = isqrt((n - 1) as nat) as int;
        if (r + 1) * (r + 1) <= n {
            assert((r + 2) * (r + 2) > n) by (nonlinear_arith)
                requires (r + 1) * (r + 1) > n - 1 && (r + 1) * (r + 1) <= n && r >= 0;
        }
    }
}

/// Only one integer satisfies the square-root characterization.
pub proof fn lemma_isqrt_unique(n: int, r1: int, r2: int) by (nonlinear_arith)
    requires
        is_isqrt(n, r1),
        is_isqrt(n, r2),
    ensures
        r1 == r2,
{
}

/// The integer square root, by bisection.
pub fn isqrt_u64(n: u64) -> (r: u64)
    ensures
        r == isqrt(n as nat),
        is_isqrt(n as int, r as int),
{
    let mut lo: u64 = 0;
    let mut hi: u64 = 0x1_0000_0000;
    proof {
        assert((hi as int) * (hi as int) > n as int) by (nonlinear_arith)
            requires hi == 0x1_0000_0000u64 && n <= u64::MAX;
    }
    while lo + 1 < hi
        invariant
            lo < hi <= 0x1_0000_0000u64,
            (lo as int) * (lo as int) <= n as int,
            (hi as int) * (hi as int) > n as int,
        decreases hi - lo,
    {
        let mid = lo + (hi - lo) / 2;
        proof {
            assert(mid * mid <= (0xFFFF_FFFFu64 as int) * (0xFFFF_FFFFu64 as int))
                by (nonlinear_arith)
                requires 0 <= mid <= 0xFFFF_FFFFu64;
        }
        if mid * mid <= n {
            lo = mid;
        } else {
            hi = mid;
        }
    }
    proof {
        lemma_isqrt_is_isqrt(n as nat);
        lemma_isqrt_unique(n as int, lo as int, isqrt(n as nat) as int);
    }
    lo
}

/// One cycle of a sine wave in Q16, sampled at 64 points: entry `i` is
/// `sin(2 pi i / 64)` scaled by `ONE` and rounded. Drives the flange sweep.
pub open spec fn sine_tab_at(i: int) -> i64 {
    if i <= 0 {
        0i64
    } else if i == 1 {
        6424i64
    } else if i == 2 {
        12785i64
    } else if i == 3 {
        19024i64
    } else if i == 4 {
        25080i64
    } else if i == 5 {
        30893i64
    } else if i == 6 {
        36410i64
    } else if i == 7 {
        41576i64
    } else if i == 8 {
        46341i64
    } else if i == 9 {
        50660i64
    } else if i == 10 {
        54491i64
    } else if i == 11 {
        57798i64
    } else if i == 12 {
        60547i64
    } else if i == 13 {
        62714i64
    } else if i == 14 {
        64277i64
    } else if i == 15 {
        65220i64
    } else if i == 16 {
        65536i64
    } else if i == 17 {
        65220i64
    } else if i == 18 {
        64277i64
    } else if i == 19 {
        62714i64
    } else if i == 20 {
        60547i64
    } else if i == 21 {
        57798i64
    } else if i == 22 {
        54491i64
    } else if i == 23 {
        50660i64
    } else if i == 24 {
        46341i64
    } else if i == 25 {
        41576i64
    } else if i == 26 {
        36410i64
    } else if i == 27 {
        30893i64
    } else if i == 28 {
        25080i64
    } else if i == 29 {
        19024i64
    } else if i == 30 {
        12785i64
    } else if i == 31 {
        6424i64
    } else if i == 32 {
        0i64
    } else if i == 33 {
        -6424i64
    } else if i == 34 {
        -12785i64
    } else if i == 35 {
        -19024i64
    } else if i == 36 {
        -25080i64
    } else if i == 37 {
        -30893i64
    } else if i == 38 {
        -36410i64
    } else if i == 39 {
        -41576i64
    } else if i == 40 {
        -46341i64
    } else if i == 41 {
        -50660i64
    } else if i == 42 {
        -54491i64
    } else if i == 43 {
        -57798i64
    } else if i == 44 {
        -60547i64
    } else if i == 45 {
        -62714i64
    } else if i == 46 {
        -64277i64
    } else if i == 47 {
        -65220i64
    } else if i == 48 {
        -65536i64
    } else if i == 49 {
        -65220i64
    } else if i == 50 {
        -64277i64
    } else if i == 51 {
        -62714i64
    } else if i == 52 {
        -60547i64
    } else if i == 53 {
        -57798i64
    } else if i == 54 {
        -54491i64
    } else if i == 55 {
        -50660i64
    } else if i == 56 {
        -46341i64
    } else if i == 57 {
        -41576i64
    } else if i == 58 {
        -36410i64
    } else if i == 59 {
        -30893i64
    } else if i == 60 {
        -25080i64
    } else if i == 61 {
        -19024i64
    } else if i == 62 {
        -12785i64
    } else if i == 63 {
        -6424i64
    } else {
        0i64
    }
}

/// Every sine table entry lies in `[-ONE, ONE]`.
pub proof fn lemma_sine_bounded(i: int)
    ensures
        qabs(sine_tab_at(i) as int) <= ONE,
{
}

/// Table lookup for the sine oscillator.
pub fn sine_entry(i: u64) -> (r: i64)
    requires
        i < 64,
    ensures
        r == sine_tab_at(i as int),
{
    if i == 0 {
        0
    } else if i == 1 {
        6424
    } else if i == 2 {
        12785
    } else if i == 3 {
        19024
    } else if i == 4 {
        25080
    } else if i == 5 {
        30893
    } else if i == 6 {
        36410
    } else if i == 7 {
        41576
    } else if i == 8 {
        46341
    } else if i == 9 {
        50660
    } else if i == 10 {
        54491
    } else if i == 11 {
        57798
    } else if i == 12 {
        60547
    } else if i == 13 {
        62714
    } else if i == 14 {
        64277
    } else if i == 15 {
        65220
    } else if i == 16 {
        65536
    } else if i == 17 {
        65220
    } else if i == 18 {
        64277
    } else if i == 19 {
        62714
    } else if i == 20 {
        60547
    } else if i == 21 {
        57798
    } else if i == 22 {
        54491
    } else if i == 23 {
        50660
    } else if i == 24 {
        46341
    } else if i == 25 {
        41576
    } else if i == 26 {
        36410
    } else if i == 27 {
        30893
    } else if i == 28 {
        25080
    } else if i == 29 {
        19024
    } else if i == 30 {
        12785
    } else if i == 31 {
        6424
    } else if i == 32 {
        0
    } else if i == 33 {
        -6424
    } else if i == 34 {
        -12785
    } else if i == 35 {
        -19024
    } else if i == 36 {
        -25080
    } else if i == 37 {
        -30893
    } else if i == 38 {
        -36410
    } else if i == 39 {
        -41576
    } else if i == 40 {
        -46341
    } else if i == 41 {
        -50660
    } else if i == 42 {
        -54491
    } else if i == 43 {
        -57798
    } else if i == 44 {
        -60547
    } else if i == 45 {
        -62714
    } else if i == 46 {
        -64277
    } else if i == 47 {
        -65220
    } else if i == 48 {
        -65536
    } else if i == 49 {
        -65220
    } else if i == 50 {
        -64277
    } else if i == 51 {
        -62714
    } else if i == 52 {
        -60547
    } else if i == 53 {
        -57798
    } else if i == 54 {
        -54491
    } else if i == 55 {
        -50660
    } else if i == 56 {
        -46341
    } else if i == 57 {
        -41576
    } else if i == 58 {
        -36410
    } else if i == 59 {
        -30893
    } else if i == 60 {
        -25080
    } else if i == 61 {
        -19024
    } else if i == 62 {
        -12785
    } else if i == 63 {
        -6424
    } else {
        0
    }
}

/// Natural log of 2 in Q16: the range-reduction step of `exp_neg_q`.
pub const LN2_Q: u64 = 45426;

/// Degree-four series for `exp(-r/ONE)` on `0 <= r < LN2_Q`, in Q16
/// truncated arithmetic.
pub open spec fn exp_unit_poly(r: int) -> int {
    let r2 = (r * r) / (ONE as int);
    let r3 = (r2 * r) / (ONE as int);
    let r4 = (r3 * r) / (ONE as int);
    ONE - r + r2 / 2 - r3 / 6 + r4 / 24
}

/// `exp(-x/ONE)` in Q16: range-reduce by halvings (`exp(-x) ==
/// 2^-n * exp(-r)` with `x == n ln2 + r`), evaluate the series on the
/// remainder, and clamp so a positive argument always lands strictly
/// below `ONE` and never below zero.
pub open spec fn exp_neg_q16(x: int) -> int {
    let n = x / (LN2_Q as int);
    let r = x % (LN2_Q as int);
    let p0 = exp_unit_poly(r);
    let p = if p0 < 0 {
        0
    } else if x > 0 && p0 >= ONE {
        ONE - 1
    } else if p0 > ONE {
        ONE as int
    } else {
        p0
    };
    if n >= 17 {
        0
    } else {
        p / vstd::arithmetic::power2::pow2(n as nat) as int
    }
}

/// `exp(-x/ONE)` in Q16, for nonnegative `x`: the decay factor of one
/// period. Exactly `exp_neg_q16`; in particular within `[0, ONE]`, equal
/// to `ONE` only at zero.
pub fn exp_neg_q(x: u64) -> (res: i64)
    ensures
        res == exp_neg_q16(x as int),
        0 <= res <= ONE,
        x > 0 ==> res < ONE,
        x == 0 ==> res == ONE,
{
    let n = x / LN2_Q;
    let r = (x % LN2_Q) as i64;
    proof {
        assert(r * r <= 45425 * 45425) by (nonlinear_arith)
            requires 0 <= r <= 45425;
    }
    let r2 = (r * r) / ONE;
    proof {
        vstd::arithmetic::div_mod::lemma_div_nonincreasing(r * r, ONE as int);
        vstd::arithmetic::div_mod::lemma_div_pos_is_pos(r * r, ONE as int);
        assert(r2 * r <= 2063430625 * 45425) by (nonlinear_arith)
            requires 0 <= r2 <= 2063430625i64 && 0 <= r <= 45425;
    }
    let r3 = (r2 * r) / ONE;
    proof {
        vstd::arithmetic::div_mod::lemma_div_is_ordered(r2 * r, (2063430625 * 45425) as int, ONE as int);
        vstd::arithmetic::div_mod::lemma_div_pos_is_pos(r2 * r, ONE as int);
        assert(r3 * r <= 1430233439 * 45425) by (nonlinear_arith)
            requires 0 <= r3 <= 1430233439i64 && 0 <= r <= 45425;
    }
    let r4 = (r3 * r) / ONE;
    proof {
        vstd::arithmetic::div_mod::lemma_div_nonincreasing(r3 * r, ONE as int);
        vstd::arithmetic::div_mod::lemma_div_pos_is_pos(r3 * r, ONE as int);
    }
    let p0 = ONE - r + r2 / 2 - r3 / 6 + r4 / 24;
    let p = if p0 < 0 {
        0
    } else if x > 0 && p0 >= ONE {
        ONE - 1
    } else if p0 > ONE {
        ONE
    } else {
        p0
    };
    if n >= 17 {
        0
    } else {
        let mut divisor: i64 = 1;
        let mut j: u64 = 0;
        proof {
            vstd::arithmetic::power2::lemma2_to64();
        }
        while j < n
            invariant
                j <= n < 17,
                divisor == vstd::arithmetic::power2::pow2(j as nat),
                1 <= divisor < 131072,
            decreases n - j,
        {
            proof {
                vstd::arithmetic::power2::lemma_pow2_unfold((j + 1) as nat);
                vstd::arithmetic::power2::lemma_pow2_strictly_increases((j + 1) as nat, 17);
                assert(vstd::arithmetic::power2::pow2(17) == 131072) by {
                    vstd::arithmetic::power2::lemma2_to64();
                }
            }
            divisor = divisor * 2;
            j = j + 1;
        }
        proof {
            vstd::arithmetic::power2::lemma2_to64();
            if x == 0 {
                assert(exp_unit_poly(0) == ONE as int);
                assert(exp_neg_q16(0) == ONE as int);
            }
            if n >= 1 {
                vstd::arithmetic::power2::lemma_pow2_strictly_increases(0, n as nat);
                vstd::arithmetic::div_mod::lemma_div_is_ordered_by_denominator(p as int, 2,
                    divisor as int);
            }
        }
        p / divisor
    }
}

} // verus!
