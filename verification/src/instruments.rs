//! Karplus-Strong plucked-string synthesis: a fractional delay line as the
//! string, a three-tap FIR loop filter shaping decay and timbre, and a
//! noise burst as the pick. The feedback loop is the physical model; decay
//! is implicit in the loop gain, so no note-off is needed.

use crate::delay_line::{model_bounded, DelayLineFracLin, FracDelayModel};
use crate::filter::{fir_out, gain_sum, lemma_conv_bound, FIRFilter, FirModel};
use crate::fixed::{exp_neg_q, exp_neg_q16, qabs, scale_q, scaled, ONE};
use vstd::prelude::*;

verus! {

/// One xorshift step: the next state of the noise generator.
pub open spec fn noise_step(s: u64) -> u64 {
    let a = s ^ (s << 13);
    let b = a ^ (a >> 7);
    b ^ (b << 17)
}

/// The sample a state yields: spread over `[-ONE, ONE]`.
pub open spec fn noise_sample_of(s: u64) -> int {
    (s % 131073) - 65536
}

/// The state after `k` steps.
pub open spec fn noise_states(s: u64, k: nat) -> u64
    decreases k,
{
    if k == 0 {
        s
    } else {
        noise_step(noise_states(s, (k - 1) as nat))
    }
}

/// The first `k` samples drawn from state `s`.
pub open spec fn noise_stream(s: u64, k: nat) -> Seq<i64>
    decreases k,
{
    if k == 0 {
        Seq::empty()
    } else {
        noise_stream(s, (k - 1) as nat).push(noise_sample_of(noise_states(s, k)) as i64)
    }
}

/// The stream of `k` samples has length `k`.
pub proof fn lemma_noise_stream_len(s: u64, k: nat)
    ensures
        noise_stream(s, k).len() == k,
    decreases k,
{
    if k > 0 {
        lemma_noise_stream_len(s, (k - 1) as nat);
    }
}

/// Deterministic band-limited noise for the pick: an xorshift generator
/// whose view is its state.
pub struct Noise {
    state: u64,
}

impl View for Noise {
    type V = u64;

    closed spec fn view(&self) -> u64 {
        self.state
    }
}

/// The constant folded into the seed so that a seed of zero still excites
/// the generator (xorshift fixes the all-zero state).
pub const NOISE_SALT: u64 = 0x9E3779B97F4A7C15;

impl Noise {
    /// A generator seeded deterministically: equal seeds give equal streams.
    pub fn new(seed: u64) -> (n: Noise)
        ensures
            n@ == seed ^ NOISE_SALT,
    {
        Noise { state: seed ^ NOISE_SALT }
    }

    /// Draw one sample in `[-ONE, ONE]` and advance the state.
    pub fn next(&mut self) -> (v: i64)
        ensures
            final(self)@ == noise_step(old(self)@),
            v as int == noise_sample_of(final(self)@),
            qabs(v as int) <= ONE,
    {
        let a = self.state ^ (self.state << 13);
        let b = a ^ (a >> 7);
        self.state = b ^ (b << 17);
        (self.state % 131073) as i64 - 65536
    }
}

/// The string's round-trip delay for a note, in Q16 frames: one period at
/// a 48000 Hz frame rate, less one frame to offset the loop filter's own
/// group delay.
pub open spec fn note_delay_q(frequency: int) -> int {
    (48000 * ONE * ONE) / frequency - ONE
}

/// How many frames of pick noise a note loads: the period, rounded up.
pub open spec fn pick_frames(frequency: int) -> int {
    ((48000 * ONE * ONE) / frequency + ONE - 1) / (ONE as int)
}

/// The per-period decay factor: `exp(-6.91 * period / sustain)` in Q16,
/// with the period in Q16 seconds. An energy drop to a thousandth
/// (`ln 1000 == 6.91`) over `sustain` seconds.
pub open spec fn ks_rho(frequency: int, sustain: int) -> int {
    exp_neg_q16(452854 * ((ONE * ONE) / frequency) / sustain)
}

/// Middle loop-filter coefficient: `rho * (1 + brightness) / 2`.
pub open spec fn ks_g0(frequency: int, sustain: int, brightness: int) -> int {
    scaled(ks_rho(frequency, sustain), (ONE + brightness) / 2)
}

/// Outer loop-filter coefficient: `rho * (1 - brightness) / 4`.
pub open spec fn ks_g1(frequency: int, sustain: int, brightness: int) -> int {
    scaled(ks_rho(frequency, sustain), (ONE - brightness) / 4)
}

/// Lowest accepted note frequency, Q16 Hz (1 Hz).
pub const FREQ_MIN: u64 = 65536;

/// Highest accepted note frequency, Q16 Hz (24 kHz).
pub const FREQ_MAX: u64 = 1572864000;

/// Abstract state of a plucked string.
pub struct PluckModel {
    pub string: FracDelayModel,
    pub filter: FirModel,
    pub noise: u64,
    pub brightness: int,
    pub sustain: int,
}

/// A Karplus-Strong plucked string: `note_on` loads the string with noise
/// and tunes the loop; each `tick` circulates the string through the loop
/// filter and returns the filtered sample.
pub struct PluckedString {
    string_delay: DelayLineFracLin,
    string_filter: FIRFilter,
    pick_noise: Noise,
    /// Spectral tilt of the loop filter, Q16 in `[0, ONE]`.
    pub brightness: i64,
    /// Decay time to a thousandth of the energy, Q16 seconds (at least 1).
    pub sustain: i64,
}

impl View for PluckedString {
    type V = PluckModel;

    closed spec fn view(&self) -> PluckModel {
        PluckModel {
            string: self.string_delay@,
            filter: self.string_filter@,
            noise: self.pick_noise@,
            brightness: self.brightness as int,
            sustain: self.sustain as int,
        }
    }
}

impl PluckedString {
    /// Well-formed: both units are, the loop filter has three nonnegative
    /// taps whose gains sum below unity, and everything circulating in the
    /// loop stays within `[-ONE, ONE]`.
    pub closed spec fn wf(&self) -> bool {
        &&& self.string_delay.wf()
        &&& self.string_filter.wf()
        &&& self@.string.line.buf_len() == 100000
        &&& model_bounded(self@.string.line, ONE as int)
        &&& self@.filter.coeffs.len() == 3
        &&& forall|j: int| 0 <= j < 3 ==> 0 <= #[trigger] self@.filter.coeffs[j]
        &&& gain_sum(self@.filter.coeffs, 3) <= ONE
        &&& forall|j: int|
            0 <= j < self@.filter.inputs.len() ==> qabs(
                #[trigger] self@.filter.inputs[j] as int,
            ) <= ONE
        &&& 0 <= self@.brightness <= ONE
        &&& 1 <= self@.sustain
    }

    /// An idle string: silent line of fixed capacity, a zeroed loop filter,
    /// full sustain and a soft brightness.
    pub fn new() -> (p: PluckedString)
        ensures
            p.wf(),
            p@.string.line.hist == Seq::<i64>::empty(),
            p@.filter.coeffs == seq![0i64, 0i64, 0i64],
            p@.filter.inputs == Seq::<i64>::empty(),
            p@.brightness == 6554,
            p@.sustain == ONE,
    {
        let mut buf: Vec<i64> = Vec::new();
        while buf.len() < 100000
            invariant
                buf@.len() <= 100000,
                forall|j: int| 0 <= j < buf@.len() ==> buf@[j] == 0i64,
            decreases 100000 - buf@.len(),
        {
            buf.push(0);
        }
        let mut coefs: Vec<i64> = Vec::new();
        coefs.push(0);
        coefs.push(0);
        coefs.push(0);
        proof {
            assert(coefs@ =~= seq![0i64, 0i64, 0i64]);
            let z = seq![0i64, 0i64, 0i64];
            assert(gain_sum(z, 0) == 0);
            assert(gain_sum(z, 1) == 0);
            assert(gain_sum(z, 2) == 0);
            assert(gain_sum(z, 3) == 0);
        }
        PluckedString {
            // A little over 109 frames: the default tuning before any note.
            string_delay: DelayLineFracLin::new(buf, 7149322),
            string_filter: FIRFilter::new(coefs),
            pick_noise: Noise::new(0),
            sustain: ONE,
            brightness: 6554,
        }
    }

    /// Start a note: retune the string to the note's period, derive the
    /// loop-filter coefficients from the decay physics, and load the string
    /// with one period of pick noise.
    pub fn note_on(&mut self, frequency: u64)
        requires
            old(self).wf(),
            FREQ_MIN <= frequency <= FREQ_MAX,
        ensures
            final(self).wf(),
            final(self)@.string.line.hist == old(self)@.string.line.hist + noise_stream(
                old(self)@.noise,
                pick_frames(frequency as int) as nat,
            ),
            final(self)@.string.line.delay == note_delay_q(frequency as int) / (ONE as int),
            final(self)@.string.frac == note_delay_q(frequency as int) % (ONE as int),
            final(self)@.filter.coeffs == seq![
                ks_g1(frequency as int, old(self)@.sustain, old(self)@.brightness) as i64,
                ks_g0(frequency as int, old(self)@.sustain, old(self)@.brightness) as i64,
                ks_g1(frequency as int, old(self)@.sustain, old(self)@.brightness) as i64,
            ],
            final(self)@.filter.inputs == old(self)@.filter.inputs,
            final(self)@.noise == noise_states(old(self)@.noise, pick_frames(
                frequency as int,
            ) as nat),
            final(self)@.brightness == old(self)@.brightness,
            final(self)@.sustain == old(self)@.sustain,
    {
        let ghost s0 = self.pick_noise@;
        let delay_q = (48000u64 * 65536 * 65536) / frequency;
        proof {
            // 1 Hz to 24 kHz keeps the delay between two frames and the
            // whole capacity.
            assert(delay_q <= 48000 * 65536) by {
                vstd::arithmetic::div_mod::lemma_div_is_ordered_by_denominator(
                    206158430208000,
                    FREQ_MIN as int,
                    frequency as int,
                );
            }
            assert(delay_q >= 2 * 65536) by {
                vstd::arithmetic::div_mod::lemma_div_is_ordered_by_denominator(
                    206158430208000,
                    frequency as int,
                    FREQ_MAX as int,
                );
            }
        }
        self.string_delay.set_delay(delay_q - 65536);

        let period = (65536u64 * 65536) / frequency;
        proof {
            vstd::arithmetic::div_mod::lemma_div_is_ordered_by_denominator(
                (ONE * ONE) as int,
                FREQ_MIN as int,
                frequency as int,
            );
            assert(period <= 65536);
            assert(452854u64 * period <= 452854 * 65536) by (nonlinear_arith)
                requires 0 <= period <= 65536u64;
            vstd::arithmetic::div_mod::lemma_div_is_ordered(
                (452854 * (period as int)) as int,
                (452854 * 65536) as int,
                self.sustain as int,
            );
            vstd::arithmetic::div_mod::lemma_div_pos_is_pos(452854 * (period as int),
                self.sustain as int);
        }
        let x = 452854u64 * period / (self.sustain as u64);
        let rho = exp_neg_q(x);
        let g0 = scale_q(rho, (ONE + self.brightness) / 2);
        let g1 = scale_q(rho, (ONE - self.brightness) / 4);
        proof {
            lemma_ks_gains(rho as int, self.brightness as int, g0 as int, g1 as int);
        }
        self.string_filter.set_coefficient(0, g1);
        self.string_filter.set_coefficient(1, g0);
        self.string_filter.set_coefficient(2, g1);
        proof {
            assert(self.string_filter@.coeffs =~= seq![g1, g0, g1]);
            let gs = seq![g1, g0, g1];
            assert(gain_sum(gs, 0) == 0);
            assert(gain_sum(gs, 1) == qabs(g1 as int));
            assert(gain_sum(gs, 2) == qabs(g1 as int) + qabs(g0 as int));
            assert(gain_sum(gs, 3) == qabs(g1 as int) + qabs(g0 as int) + qabs(g1 as int));
        }

        proof {
            vstd::arithmetic::div_mod::lemma_div_is_ordered(
                delay_q + 65535,
                3145793535,
                65536,
            );
            vstd::arithmetic::div_mod::lemma_div_pos_is_pos(delay_q + 65535, 65536);
        }
        let k = ((delay_q + 65536 - 1) / 65536) as usize;
        let ghost string0 = self.string_delay@;
        let ghost filter_after = self.string_filter;
        let mut i: usize = 0;
        proof {
            lemma_noise_stream_len(s0, 0);
            assert(string0.line.hist + noise_stream(s0, 0) =~= string0.line.hist);
        }
        while i < k
            invariant
                i <= k,
                self.string_delay.wf(),
                model_bounded(self.string_delay@.line, ONE as int),
                self.string_delay@.line.hist == string0.line.hist + noise_stream(s0, i as nat),
                self.string_delay@.line.init == string0.line.init,
                self.string_delay@.line.delay == string0.line.delay,
                self.string_delay@.frac == string0.frac,
                self.pick_noise@ == noise_states(s0, i as nat),
                self.string_filter == filter_after,
                self.brightness == old(self).brightness,
                self.sustain == old(self).sustain,
            decreases k - i,
        {
            let v = self.pick_noise.next();
            proof {
                lemma_noise_stream_len(s0, i as nat);
                assert(noise_states(s0, (i + 1) as nat) == noise_step(noise_states(s0, i as nat)));
                assert(noise_stream(s0, (i + 1) as nat) == noise_stream(s0, i as nat).push(
                    noise_sample_of(noise_states(s0, (i + 1) as nat)) as i64,
                ));
                assert((string0.line.hist + noise_stream(s0, i as nat)).push(v) =~= string0.line.hist
                    + noise_stream(s0, (i + 1) as nat));
            }
            self.string_delay.tick(v);
            i = i + 1;
        }
    }

    /// One sample of the vibrating string: read the string's delayed
    /// output, pass it through the loop filter, feed the filtered sample
    /// back into the string, and return it. The loop gain (at most `rho`)
    /// makes the energy decay geometrically per round trip.
    pub fn tick(&mut self) -> (out: i64)
        requires
            old(self).wf(),
        ensures
            final(self).wf(),
            out == fir_out(
                old(self)@.filter.coeffs,
                old(self)@.filter.inputs.push(old(self)@.string.line.tap_output_at(0)),
            ),
            final(self)@.filter.coeffs == old(self)@.filter.coeffs,
            final(self)@.filter.inputs == old(self)@.filter.inputs.push(
                old(self)@.string.line.tap_output_at(0),
            ),
            final(self)@.string == old(self)@.string.ticked(out),
            final(self)@.noise == old(self)@.noise,
            final(self)@.brightness == old(self)@.brightness,
            final(self)@.sustain == old(self)@.sustain,
            qabs(out as int) <= ONE,
    {
        let ghost m0 = old(self)@;
        proof {
            crate::delay_line::lemma_past_bounded(
                m0.string.line,
                ONE as int,
                m0.string.line.hist.len() as int - 1 - m0.string.line.delay,
            );
        }
        let tap = self.string_delay.tap_output();
        let out = self.string_filter.tick(tap);
        proof {
            let h = m0.filter.inputs.push(tap);
            lemma_conv_bound(m0.filter.coeffs, h, 3, ONE as int);
            vstd::arithmetic::mul::lemma_mul_inequality(gain_sum(m0.filter.coeffs, 3), ONE as int,
                ONE as int);
        }
        self.string_delay.tick(out);
        out
    }
}

/// Law: the string's envelope decays geometrically. When every sample the
/// loop filter can see has magnitude at most `m` and its gains sum to at
/// most `rho`, the sample it feeds back obeys `|out| * ONE <= rho * m`:
/// with `rho < ONE` (any positive decay) the peak shrinks by the factor
/// `rho / ONE` every round trip, monotonically, at the rate `sustain` sets
/// through `ks_rho`.
pub proof fn lemma_string_decay(c: Seq<i64>, h: Seq<i64>, rho: int, m: int)
    requires
        m >= 0,
        gain_sum(c, c.len() as int) <= rho,
        forall|j: int| 0 <= j < h.len() ==> qabs(#[trigger] h[j] as int) <= m,
    ensures
        qabs(fir_out(c, h)) * ONE <= rho * m,
{
    lemma_conv_bound(c, h, c.len() as int, m);
    vstd::arithmetic::mul::lemma_mul_inequality(gain_sum(c, c.len() as int), rho, m);
    vstd::arithmetic::mul::lemma_mul_is_commutative(m, gain_sum(c, c.len() as int));
    vstd::arithmetic::mul::lemma_mul_is_commutative(rho, m);
}

/// The loop-filter gains derived from a decay factor `rho` within
/// `[0, ONE]` are nonnegative and their sum `g0 + 2 g1` stays below `rho`:
/// the loop attenuates.
proof fn lemma_ks_gains(rho: int, b: int, g0: int, g1: int)
    requires
        0 <= rho <= ONE,
        0 <= b <= ONE,
        g0 == scaled(rho, (ONE + b) / 2),
        g1 == scaled(rho, (ONE - b) / 4),
        qabs(g0) * ONE <= qabs(rho) * qabs((ONE + b) / 2),
        qabs(g1) * ONE <= qabs(rho) * qabs((ONE - b) / 4),
    ensures
        0 <= g0 <= ONE,
        0 <= g1 <= ONE,
        g0 + 2 * g1 <= rho,
{
    let ha = (ONE + b) / 2;
    let hb = (ONE - b) / 4;
    assert(g0 >= 0 && g1 >= 0) by {
        vstd::arithmetic::div_mod::lemma_div_pos_is_pos(qabs(rho) * qabs(ha), ONE as int);
        vstd::arithmetic::div_mod::lemma_div_pos_is_pos(qabs(rho) * qabs(hb), ONE as int);
        assert(qabs(rho) * qabs(ha) >= 0 && qabs(rho) * qabs(hb) >= 0) by (nonlinear_arith)
            requires qabs(rho) >= 0 && qabs(ha) >= 0 && qabs(hb) >= 0;
    }
    assert(rho * ha <= rho * ONE && rho * hb <= rho * ONE && rho * ONE <= ONE * ONE && 2 * (rho
        * hb) + rho * ha <= rho * (2 * hb + ha) && rho * (2 * hb + ha) <= rho * ONE)
        by (nonlinear_arith)
        requires
            0 <= rho <= ONE,
            0 <= ha <= ONE,
            0 <= hb <= ONE,
            2 * hb + ha <= ONE,
            ONE == 65536i64,
    ;
}

} // verus!
