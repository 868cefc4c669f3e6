//! Finite impulse response filter: a fixed-length convolution over a
//! delay line used as tapped memory, plus a coefficient sequence in Q16.
//! Coefficient `k` applies to the input `k` ticks back; coefficient 0 to
//! the current input.

use crate::delay_line::DelayLine;
use crate::fixed::{qabs, scale_q, scaled, GAIN_LIMIT, ONE, SAMPLE_LIMIT};
use vstd::prelude::*;

verus! {

/// Largest number of taps a filter accepts; keeps the accumulated
/// convolution sum far below the integer range.
pub const MAX_TAPS: usize = 1024;

/// Magnitude bound of one convolution term:
/// `SAMPLE_LIMIT * GAIN_LIMIT / ONE`.
pub const TERM_LIMIT: i64 = 0x4000_0000_0000;

/// Abstract state of an FIR filter: its coefficients and every input ever
/// fed to it, newest last.
pub struct FirModel {
    pub coeffs: Seq<i64>,
    pub inputs: Seq<i64>,
}

/// The input at time `j`; zero before time 0, the filter memory starting
/// at equilibrium.
pub open spec fn sample_at(h: Seq<i64>, j: int) -> int {
    if 0 <= j < h.len() {
        h[j] as int
    } else {
        0
    }
}

/// The first `k` terms of the convolution at the latest time of `h`:
/// term `k` is coefficient `k` applied to the input `k` steps back from
/// the newest.
pub open spec fn conv(c: Seq<i64>, h: Seq<i64>, k: int) -> int
    decreases k,
{
    if k <= 0 {
        0
    } else {
        conv(c, h, k - 1) + scaled(sample_at(h, h.len() - k), c[k - 1] as int)
    }
}

/// The filter's full output once `h` ends with the newest input.
pub open spec fn fir_out(c: Seq<i64>, h: Seq<i64>) -> int {
    conv(c, h, c.len() as int)
}

/// Sum of the magnitudes of the first `k` coefficients: the filter's gain
/// bound.
pub open spec fn gain_sum(c: Seq<i64>, k: int) -> int
    decreases k,
{
    if k <= 0 {
        0
    } else {
        gain_sum(c, k - 1) + qabs(c[k - 1] as int)
    }
}

/// Law: the output magnitude is bounded by the coefficient magnitude sum
/// times the peak input magnitude: `|out| * ONE <= m * gain_sum`. With a
/// gain sum below `ONE` the filter attenuates, which is what makes a
/// feedback loop around it decay.
pub proof fn lemma_conv_bound(c: Seq<i64>, h: Seq<i64>, k: int, m: int)
    requires
        m >= 0,
        forall|j: int| 0 <= j < h.len() ==> qabs(#[trigger] h[j] as int) <= m,
    ensures
        qabs(conv(c, h, k)) * ONE <= m * gain_sum(c, k),
    decreases k,
{
    if k <= 0 {
    } else {
        lemma_conv_bound(c, h, k - 1, m);
        let x = sample_at(h, h.len() - k);
        let g = c[k - 1] as int;
        crate::fixed::lemma_scaled_bound(x, g);
        vstd::arithmetic::mul::lemma_mul_inequality(qabs(x), m, qabs(g));
        vstd::arithmetic::mul::lemma_mul_is_distributive_add(m, gain_sum(c, k - 1), qabs(g));
        vstd::arithmetic::mul::lemma_mul_is_commutative(m, qabs(g));
    }
}

/// Law: the impulse response is exactly the coefficient sequence. When the
/// inputs so far are the unit sample `ONE` followed by zeroes, the output
/// at time `t` is coefficient `t`.
pub proof fn lemma_fir_impulse_response(c: Seq<i64>, h: Seq<i64>, t: int)
    requires
        h.len() == t + 1,
        0 <= t < c.len(),
        h[0] == ONE,
        forall|j: int| 1 <= j < h.len() ==> h[j] == 0i64,
    ensures
        fir_out(c, h) == c[t] as int,
{
    lemma_conv_impulse(c, h, c.len() as int, t);
}

proof fn lemma_conv_impulse(c: Seq<i64>, h: Seq<i64>, k: int, t: int)
    requires
        h.len() == t + 1,
        0 <= t,
        k <= c.len(),
        h[0] == ONE,
        forall|j: int| 1 <= j < h.len() ==> h[j] == 0i64,
    ensures
        conv(c, h, k) == if k > t {
            c[t] as int
        } else {
            0
        },
    decreases k,
{
    if k <= 0 {
    } else {
        lemma_conv_impulse(c, h, k - 1, t);
        let x = sample_at(h, h.len() - k);
        let g = c[k - 1] as int;
        if k == t + 1 {
            assert(x == ONE as int);
            crate::fixed::lemma_scaled_unit(g);
        } else {
            assert(x == 0);
            assert(qabs(0) * qabs(g) == 0) by (nonlinear_arith);
            vstd::arithmetic::div_mod::lemma_div_of0(ONE as int);
            assert(scaled(0, g) == 0);
        }
    }
}

/// FIR filter over Q16 samples with Q16 coefficients. The memory is a
/// delay line holding the last `numTaps - 1` inputs at equilibrium start.
pub struct FIRFilter {
    memory: DelayLine<i64>,
    coefficients: Vec<i64>,
}

impl View for FIRFilter {
    type V = FirModel;

    closed spec fn view(&self) -> FirModel {
        FirModel { coeffs: self.coefficients@, inputs: self.memory@.hist }
    }
}

impl FIRFilter {
    /// Well-formed: the memory is a delay line of one slot per coefficient
    /// starting at equilibrium, coefficients and stored inputs are bounded.
    pub closed spec fn wf(&self) -> bool {
        &&& self.memory.wf()
        &&& self.memory@.buf_len() == self.coefficients@.len()
        &&& self.memory@.init == Seq::new(self.coefficients@.len(), |i: int| 0i64)
        &&& 2 <= self.coefficients@.len() <= MAX_TAPS
        &&& forall|j: int|
            0 <= j < self.coefficients@.len() ==> qabs(
                #[trigger] self.coefficients@[j] as int,
            ) <= GAIN_LIMIT
        &&& forall|j: int|
            0 <= j < self.memory@.hist.len() ==> qabs(
                #[trigger] self.memory@.hist[j] as int,
            ) <= SAMPLE_LIMIT
    }

    /// A filter with the given coefficients and equilibrium memory.
    pub fn new(coefficients: Vec<i64>) -> (f: FIRFilter)
        requires
            2 <= coefficients@.len() <= MAX_TAPS,
            forall|j: int|
                0 <= j < coefficients@.len() ==> qabs(#[trigger] coefficients@[j] as int)
                    <= GAIN_LIMIT,
        ensures
            f.wf(),
            f@.coeffs == coefficients@,
            f@.inputs == Seq::<i64>::empty(),
    {
        let n = coefficients.len();
        let mut buf: Vec<i64> = Vec::new();
        while buf.len() < n
            invariant
                buf@.len() <= n,
                forall|j: int| 0 <= j < buf@.len() ==> buf@[j] == 0i64,
            decreases n - buf@.len(),
        {
            buf.push(0);
        }
        let memory = DelayLine::new(buf, n - 1);
        proof {
            assert(memory@.init =~= Seq::new(n as nat, |i: int| 0i64));
        }
        FIRFilter { memory, coefficients }
    }

    /// The coefficient sequence, `coefficients[k]` applying to the input
    /// `k` ticks back.
    pub fn get_coefficients(&self) -> (c: &Vec<i64>)
        ensures
            c@ == self@.coeffs,
    {
        &self.coefficients
    }

    /// Replace coefficient `index`; the change takes effect on the next
    /// tick, with no crossfade.
    pub fn set_coefficient(&mut self, index: usize, value: i64)
        requires
            old(self).wf(),
            index < old(self)@.coeffs.len(),
            qabs(value as int) <= GAIN_LIMIT,
        ensures
            final(self).wf(),
            final(self)@.coeffs == old(self)@.coeffs.update(index as int, value),
            final(self)@.inputs == old(self)@.inputs,
    {
        self.coefficients.set(index, value);
    }

    /// One convolution step: the output sums coefficient `k` times the
    /// input `k` ticks back (coefficient 0 times `input` itself), computed
    /// before the memory advances; then the memory takes `input`.
    #[verifier::loop_isolation(false)]
    pub fn tick(&mut self, input: i64) -> (out: i64)
        requires
            old(self).wf(),
            qabs(input as int) <= SAMPLE_LIMIT,
        ensures
            final(self).wf(),
            final(self)@.coeffs == old(self)@.coeffs,
            final(self)@.inputs == old(self)@.inputs.push(input),
            out == fir_out(old(self)@.coeffs, old(self)@.inputs.push(input)),
    {
        let ghost c = self.coefficients@;
        let ghost h = self.memory@.hist.push(input);
        let ghost t = h.len() - 1;
        let n = self.coefficients.len();
        let mut output = scale_q(input, self.coefficients[0]);
        proof {
            assert(sample_at(h, t) == input as int);
            assert(conv(c, h, 0) == 0);
            assert(conv(c, h, 1) == scaled(sample_at(h, h.len() - 1), c[0] as int));
            lemma_term_limit(output as int, input as int, self.coefficients@[0] as int);
        }
        let mut i: usize = 1;
        while i < n
            invariant
                1 <= i <= n,
                output == conv(c, h, i as int),
                qabs(output as int) <= i * TERM_LIMIT,
            decreases n - i,
        {
            let tap_val = self.memory.tap(i - 1);
            proof {
                let j = t - i;
                assert(tap_val == self.memory@.tap_at(i - 1));
                if j < 0 {
                    let l = self.memory@.buf_len() as int;
                    vstd::arithmetic::div_mod::lemma_mod_division_less_than_divisor(j, l);
                    vstd::arithmetic::div_mod::lemma_mod_bound(j, l);
                    assert(tap_val == 0i64);
                }
                assert(tap_val as int == sample_at(h, j));
                assert(qabs(tap_val as int) <= SAMPLE_LIMIT);
            }
            let term = scale_q(tap_val, self.coefficients[i]);
            proof {
                lemma_term_limit(term as int, tap_val as int, self.coefficients@[i as int] as int);
            }
            output = output + term;
            i = i + 1;
        }
        self.memory.tick(input);
        output
    }
}

/// A convolution term scaled down by `ONE` stays below `TERM_LIMIT`.
proof fn lemma_term_limit(r: int, x: int, g: int)
    requires
        qabs(r) * ONE <= qabs(x) * qabs(g),
        qabs(x) <= SAMPLE_LIMIT,
        qabs(g) <= GAIN_LIMIT,
    ensures
        qabs(r) <= TERM_LIMIT,
{
    vstd::arithmetic::mul::lemma_mul_upper_bound(qabs(x), SAMPLE_LIMIT as int, qabs(g),
        GAIN_LIMIT as int);
}

} // verus!
