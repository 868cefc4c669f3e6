//! Delay-based effects: a single-tap echo whose parameters come from a
//! geometric single-reflection model, and a flange whose short fractional
//! delay is swept by a sine oscillator.

use crate::delay_line::{model_bounded, DelayLine, DelayLineFracLin, DelayModel, FracDelayModel};
use crate::fixed::{
    isqrt, lemma_isqrt_is_isqrt, lemma_isqrt_unique, lemma_sine_bounded, qabs, scale_q, scaled,
    sine_entry, sine_tab_at, isqrt_u64, ONE, SAMPLE_LIMIT,
};
use vstd::prelude::*;

verus! {

/// Largest distance (Q16 length units) the echo geometry accepts; keeps
/// the squared terms within the integer range.
pub const DIST_LIMIT: u64 = 0x8000_0000;

/// Largest sample rate the effects accept.
pub const RATE_LIMIT: usize = 1_000_000;

/// Distance from source to reflector apex: `sqrt(h^2 + d^2/4)`, in Q16.
pub open spec fn echo_radius(d: int, h: int) -> int {
    isqrt((h * h + (d * d) / 4) as nat) as int
}

/// The echo gain `d / (2 r)` in Q16, clamped to unity: the reflected path
/// is longer, so the image source is heard no louder than the direct one.
pub open spec fn echo_attenuation_q(d: int, h: int) -> int {
    let g = (d * ONE) / (2 * echo_radius(d, h));
    if g > ONE {
        ONE as int
    } else {
        g
    }
}

/// The echo delay in whole frames: the path difference `2 r - d` over the
/// speed of sound (343 length units per second), times the sample rate,
/// rounded to the nearest frame.
pub open spec fn echo_length_frames(d: int, h: int, sr: int) -> int {
    let r = echo_radius(d, h);
    let diff = if 2 * r >= d {
        2 * r - d
    } else {
        0
    };
    (sr * diff + (343 * ONE) / 2) / (343 * ONE)
}

/// A single reflection: how loud the echo is and how many frames late it
/// arrives.
#[derive(Clone, Copy)]
pub struct EchoParameters {
    /// Echo gain in Q16, within `[0, ONE]`.
    pub attenuation: i64,
    /// Echo delay in whole frames.
    pub length: usize,
}

impl EchoParameters {
    /// Parameters of the echo heard `d` length units from a source, off a
    /// reflector `h` units overhead at the midpoint (both Q16): an
    /// image-source model of one reflection.
    pub fn from_distances(d: u64, h: u64, sample_rate: usize) -> (p: EchoParameters)
        requires
            2 <= d <= DIST_LIMIT,
            h <= DIST_LIMIT,
            sample_rate <= RATE_LIMIT,
        ensures
            p.attenuation == echo_attenuation_q(d as int, h as int),
            0 <= p.attenuation <= ONE,
            p.length == echo_length_frames(d as int, h as int, sample_rate as int),
    {
        proof {
            assert(d * d <= DIST_LIMIT * DIST_LIMIT && h * h <= DIST_LIMIT * DIST_LIMIT)
                by (nonlinear_arith)
                requires 0 <= d <= DIST_LIMIT && 0 <= h <= DIST_LIMIT;
        }
        let rr = h * h + (d * d) / 4;
        let r = isqrt_u64(rr);
        proof {
            // d >= 2 makes d*d/4 >= 1, so the radius is at least 1.
            assert(d * d >= 4) by (nonlinear_arith)
                requires d >= 2;
            if r == 0 {
                assert((r + 1) * (r + 1) > rr);
            }
            assert(r >= 1);
        }
        proof {
            assert(r * r <= rr) by {
                assert(crate::fixed::is_isqrt(rr as int, r as int)) by {
                    lemma_isqrt_is_isqrt(rr as nat);
                    lemma_isqrt_unique(rr as int, r as int, isqrt(rr as nat) as int);
                }
            }
            assert(r <= 0x1_0000_0000u64) by (nonlinear_arith)
                requires r * r <= rr && rr <= u64::MAX && r >= 0;
        }
        let g0 = (d * 65536) / (2 * r);
        let g = if g0 > 65536 {
            65536u64
        } else {
            g0
        };
        let two_r = 2 * r;
        let diff = if two_r >= d {
            two_r - d
        } else {
            0
        };
        proof {
            assert((sample_rate as u64) * diff <= (RATE_LIMIT as u64) * 0x2_0000_0004u64)
                by (nonlinear_arith)
                requires
                    0 <= sample_rate <= RATE_LIMIT,
                    0 <= diff <= 0x2_0000_0004u64,
            ;
            vstd::arithmetic::div_mod::lemma_div_is_ordered(
                (sample_rate as int) * (diff as int) + 11239424,
                (RATE_LIMIT as int) * 0x2_0000_0004 + 11239424,
                22478848,
            );
            vstd::arithmetic::div_mod::lemma_div_pos_is_pos(
                (sample_rate as int) * (diff as int) + 11239424,
                22478848,
            );
        }
        let m = ((sample_rate as u64) * diff + 11239424) / 22478848;
        EchoParameters { attenuation: g as i64, length: m as usize }
    }
}

/// Abstract state of an echo: its parameters and the delay line replaying
/// the reflected path.
pub struct EchoModel {
    pub params: EchoParameters,
    pub line: DelayModel<i64>,
}

/// Single delay tap with attenuation over a unity-gain dry path.
pub struct Echo {
    delay_line: DelayLine<i64>,
    params: EchoParameters,
}

impl View for Echo {
    type V = EchoModel;

    closed spec fn view(&self) -> EchoModel {
        EchoModel { params: self.params, line: self.delay_line@ }
    }
}

impl Echo {
    /// Well-formed: the line is, it is retuned to the echo length, the gain
    /// is a proper attenuation, and all stored samples are bounded.
    pub closed spec fn wf(&self) -> bool {
        &&& self.delay_line.wf()
        &&& self.delay_line@.delay == self.params.length
        &&& 0 <= self.params.attenuation <= ONE
        &&& model_bounded(self.delay_line@, SAMPLE_LIMIT as int)
    }

    /// An echo provisioned for delays below `capacity` frames, tuned to the
    /// single reflection that `d`, `h` and the sample rate describe.
    pub fn new(d: u64, h: u64, sample_rate: usize, capacity: usize) -> (e: Echo)
        requires
            2 <= d <= DIST_LIMIT,
            h <= DIST_LIMIT,
            sample_rate <= RATE_LIMIT,
            2 <= capacity,
            echo_length_frames(d as int, h as int, sample_rate as int) < capacity,
        ensures
            e.wf(),
            e@.params.attenuation == echo_attenuation_q(d as int, h as int),
            e@.params.length == echo_length_frames(d as int, h as int, sample_rate as int),
            e@.line.hist == Seq::<i64>::empty(),
            e@.line.buf_len() == capacity,
            forall|j: int| 0 <= j < e@.line.init.len() ==> e@.line.init[j] == 0i64,
    {
        let params = EchoParameters::from_distances(d, h, sample_rate);
        let mut buf: Vec<i64> = Vec::new();
        while buf.len() < capacity
            invariant
                buf@.len() <= capacity,
                forall|j: int| 0 <= j < buf@.len() ==> buf@[j] == 0i64,
            decreases capacity - buf@.len(),
        {
            buf.push(0);
        }
        Echo { delay_line: DelayLine::new(buf, params.length), params }
    }

    /// Swap parameters and retune the delay at once; the buffer contents
    /// stay, so a momentary discontinuity at the boundary is accepted.
    pub fn set_params(&mut self, params: EchoParameters)
        requires
            old(self).wf(),
            0 <= params.attenuation <= ONE,
            params.length <= old(self)@.line.capacity(),
        ensures
            final(self).wf(),
            final(self)@.params == params,
            final(self)@.line == old(self)@.line.with_delay(params.length as nat),
    {
        self.params = params;
        self.delay_line.set_delay(params.length);
    }

    /// Apply a parameter update only if it fits this echo: the delay must
    /// lie within the provisioned capacity and the gain must be a proper
    /// attenuation. Reports whether the update took; a dropped update
    /// leaves the effect as it was. This is the decision a control thread's
    /// handoff needs before touching the hot path.
    pub fn try_set_params(&mut self, params: EchoParameters) -> (applied: bool)
        requires
            old(self).wf(),
        ensures
            final(self).wf(),
            applied == (0 <= params.attenuation <= ONE && params.length <= old(
                self,
            )@.line.capacity()),
            applied ==> final(self)@.params == params && final(self)@.line == old(
                self,
            )@.line.with_delay(params.length as nat),
            !applied ==> final(self)@ == old(self)@,
    {
        if 0 <= params.attenuation && params.attenuation <= ONE && params.length
            <= self.delay_line.capacity() {
            self.set_params(params);
            true
        } else {
            false
        }
    }

    /// The input plus the delayed signal scaled by the attenuation: a
    /// unity-gain dry path under the reflected one.
    pub fn tick(&mut self, in_frame: i64) -> (out: i64)
        requires
            old(self).wf(),
            qabs(in_frame as int) <= SAMPLE_LIMIT,
        ensures
            final(self).wf(),
            final(self)@.params == old(self)@.params,
            final(self)@.line == old(self)@.line.ticked(in_frame),
            out == scaled(
                old(self)@.line.tick_out(in_frame) as int,
                old(self)@.params.attenuation as int,
            ) + in_frame,
            qabs(out as int) <= 2 * SAMPLE_LIMIT,
    {
        proof {
            self.delay_line.lemma_wf_model();
        }
        let delayed = self.delay_line.tick(in_frame);
        proof {
            crate::delay_line::lemma_past_bounded(
                old(self)@.line.ticked(in_frame),
                SAMPLE_LIMIT as int,
                old(self)@.line.hist.len() as int - old(self)@.line.delay,
            );
        }
        let wet = scale_q(delayed, self.params.attenuation);
        proof {
            vstd::arithmetic::mul::lemma_mul_inequality(
                qabs(delayed as int),
                SAMPLE_LIMIT as int,
                self.params.attenuation as int,
            );
            vstd::arithmetic::mul::lemma_mul_inequality(
                self.params.attenuation as int,
                ONE as int,
                SAMPLE_LIMIT as int,
            );
        }
        wet + in_frame
    }
}

/// Length of the buffer behind every flange: bounds the maximum sweep.
pub const FLANGE_BUF: usize = 100000;

/// Floor added to the swept delay so it never reaches exactly zero
/// (about half a millisample in Q16).
pub const FLANGE_EPS: u64 = 33;

/// One full oscillator cycle: phase is kept in `[0, CYCLE)` by modular
/// reduction, so long runs lose no precision.
pub const CYCLE: u64 = 0x1_0000_0000;

/// Which sine table entry a Q32 phase selects.
pub open spec fn lfo_index(phase: int) -> int {
    phase / 0x400_0000
}

/// The swept delay in Q16 frames at a given phase: the sine lifted to
/// `[0, 2]`, scaled by the sweep amount, plus the floor `FLANGE_EPS`.
pub open spec fn flange_delay_q(amount: int, phase: int) -> int {
    (amount * (sine_tab_at(lfo_index(phase)) + ONE)) / (ONE as int) + FLANGE_EPS
}

/// Sweep settings of a flange.
pub struct FlangeParameters {
    /// Oscillator rate in Q16 Hz.
    rate: u64,
    /// Sweep amplitude in Q16 frames.
    amount: u64,
    /// Wet gain in Q16, within `[0, ONE]`.
    depth: i64,
    /// Phase advance per frame, in Q32 cycles.
    phase_inc: u64,
    /// Frames per second, fixed at construction.
    sample_rate: usize,
}

/// Abstract state of a flange: its settings, the oscillator phase and the
/// fractional line it sweeps.
pub struct FlangeModel {
    pub rate: int,
    pub amount: int,
    pub depth: int,
    pub phase_inc: int,
    pub sample_rate: int,
    pub phase: int,
    pub line: FracDelayModel,
}

/// A fractional delay line swept sinusoidally: a time-varying short delay
/// mixed under the dry signal.
pub struct Flange {
    params: FlangeParameters,
    delay_line: DelayLineFracLin,
    phase: u64,
}

impl View for Flange {
    type V = FlangeModel;

    closed spec fn view(&self) -> FlangeModel {
        FlangeModel {
            rate: self.params.rate as int,
            amount: self.params.amount as int,
            depth: self.params.depth as int,
            phase_inc: self.params.phase_inc as int,
            sample_rate: self.params.sample_rate as int,
            phase: self.phase as int,
            line: self.delay_line@,
        }
    }
}

impl Flange {
    /// Well-formed: the line is, the phase is a proper cycle fraction, the
    /// wet gain is an attenuation, and the whole sweep fits the capacity.
    pub closed spec fn wf(&self) -> bool {
        &&& self.delay_line.wf()
        &&& self@.line.line.buf_len() == FLANGE_BUF
        &&& self@.phase < CYCLE
        &&& self@.phase_inc <= CYCLE
        &&& 1 <= self@.sample_rate <= RATE_LIMIT
        &&& self@.rate <= self@.sample_rate * ONE
        &&& self@.phase_inc == self@.rate * ONE / self@.sample_rate
        &&& 0 <= self@.depth <= ONE
        &&& 2 * self@.amount + FLANGE_EPS <= (FLANGE_BUF - 1) * ONE
    }

    /// A flange sweeping at `rate` Q16 Hz over `amount` Q16 seconds of
    /// delay, mixing the swept signal at gain `depth`.
    pub fn new(rate: u64, amount: u64, depth: i64, sample_rate: usize) -> (f: Flange)
        requires
            1 <= sample_rate <= RATE_LIMIT,
            rate <= (sample_rate as u64) * ONE,
            amount * sample_rate <= 49999 * ONE,
            0 <= depth <= ONE,
        ensures
            f.wf(),
            f@.rate == rate,
            f@.amount == amount * sample_rate,
            f@.depth == depth,
            f@.phase_inc == (rate as int) * ONE / (sample_rate as int),
            f@.phase == 0,
            f@.line.line.hist == Seq::<i64>::empty(),
            f@.line.line.delay == 1000,
            f@.line.frac == 0,
    {
        proof {
            assert(amount * sample_rate >= 0) by (nonlinear_arith)
                requires amount >= 0 && sample_rate >= 0;
            assert(rate * ONE <= ((sample_rate as u64) * ONE) * ONE) by (nonlinear_arith)
                requires rate <= (sample_rate as u64) * ONE && ONE == 65536i64;
            vstd::arithmetic::mul::lemma_mul_is_associative(
                sample_rate as int,
                ONE as int,
                ONE as int,
            );
            vstd::arithmetic::mul::lemma_mul_is_commutative(sample_rate as int, 0x1_0000_0000);
            vstd::arithmetic::div_mod::lemma_div_is_ordered(
                (rate as int) * ONE,
                (sample_rate as int) * 0x1_0000_0000,
                sample_rate as int,
            );
            vstd::arithmetic::div_mod::lemma_div_by_multiple(0x1_0000_0000, sample_rate as int);
            vstd::arithmetic::div_mod::lemma_div_pos_is_pos((rate as int) * ONE,
                sample_rate as int);
        }
        let phase_inc = rate * (ONE as u64) / (sample_rate as u64);
        let mut buf: Vec<i64> = Vec::new();
        while buf.len() < FLANGE_BUF
            invariant
                buf@.len() <= FLANGE_BUF,
                forall|j: int| 0 <= j < buf@.len() ==> buf@[j] == 0i64,
            decreases FLANGE_BUF - buf@.len(),
        {
            buf.push(0);
        }
        Flange {
            params: FlangeParameters {
                rate,
                amount: amount * (sample_rate as u64),
                depth,
                phase_inc,
                sample_rate,
            },
            delay_line: DelayLineFracLin::new(buf, 1000 * (ONE as u64)),
            phase: 0,
        }
    }

    /// Retune the sweep oscillator to `rate` Q16 Hz; the next tick advances
    /// the phase at the new rate, with no smoothing.
    pub fn set_rate(&mut self, rate: u64)
        requires
            old(self).wf(),
            rate <= old(self)@.sample_rate * ONE,
        ensures
            final(self).wf(),
            final(self)@.rate == rate,
            final(self)@.phase_inc == (rate as int) * ONE / old(self)@.sample_rate,
            final(self)@ == (FlangeModel {
                rate: rate as int,
                phase_inc: final(self)@.phase_inc,
                ..old(self)@
            }),
    {
        let sample_rate = self.params.sample_rate;
        proof {
            assert(rate * ONE <= ((sample_rate as u64) * ONE) * ONE) by (nonlinear_arith)
                requires rate <= (sample_rate as u64) * ONE && ONE == 65536i64;
            vstd::arithmetic::mul::lemma_mul_is_associative(
                sample_rate as int,
                ONE as int,
                ONE as int,
            );
            vstd::arithmetic::mul::lemma_mul_is_commutative(sample_rate as int, 0x1_0000_0000);
            vstd::arithmetic::div_mod::lemma_div_is_ordered(
                (rate as int) * ONE,
                (sample_rate as int) * 0x1_0000_0000,
                sample_rate as int,
            );
            vstd::arithmetic::div_mod::lemma_div_by_multiple(0x1_0000_0000, sample_rate as int);
            vstd::arithmetic::div_mod::lemma_div_pos_is_pos((rate as int) * ONE,
                sample_rate as int);
        }
        self.params.rate = rate;
        self.params.phase_inc = rate * (ONE as u64) / (sample_rate as u64);
    }

    /// Resize the sweep to `amount` Q16 seconds of delay; the next tick
    /// sweeps over the new range, with no smoothing.
    pub fn set_amount(&mut self, amount: u64)
        requires
            old(self).wf(),
            amount * old(self)@.sample_rate <= 49999 * ONE,
        ensures
            final(self).wf(),
            final(self)@ == (FlangeModel {
                amount: old(self)@.sample_rate * amount,
                ..old(self)@
            }),
    {
        proof {
            assert(amount * (self.params.sample_rate as u64) >= 0) by (nonlinear_arith)
                requires amount >= 0 && self.params.sample_rate >= 0;
            vstd::arithmetic::mul::lemma_mul_is_commutative(
                amount as int,
                self.params.sample_rate as int,
            );
        }
        self.params.amount = amount * (self.params.sample_rate as u64);
    }

    /// Set the wet gain; the next tick mixes at the new depth.
    pub fn set_depth(&mut self, depth: i64)
        requires
            old(self).wf(),
            0 <= depth <= ONE,
        ensures
            final(self).wf(),
            final(self)@ == (FlangeModel { depth: depth as int, ..old(self)@ }),
    {
        self.params.depth = depth;
    }

    /// Advance the oscillator one frame, retune the line to the swept
    /// delay, and mix the interpolated output under the dry signal.
    pub fn tick(&mut self, in_frame: i64) -> (out: i64)
        requires
            old(self).wf(),
            qabs(in_frame as int) <= SAMPLE_LIMIT,
        ensures
            final(self).wf(),
            final(self)@.rate == old(self)@.rate,
            final(self)@.amount == old(self)@.amount,
            final(self)@.depth == old(self)@.depth,
            final(self)@.phase_inc == old(self)@.phase_inc,
            final(self)@.phase == (old(self)@.phase + old(self)@.phase_inc) % (CYCLE as int),
            final(self)@.line == old(self)@.line.retuned(
                flange_delay_q(old(self)@.amount, final(self)@.phase),
            ).ticked(in_frame),
            out == scaled(
                old(self)@.line.retuned(
                    flange_delay_q(old(self)@.amount, final(self)@.phase),
                ).tick_out(in_frame) as int,
                old(self)@.depth,
            ) + in_frame,
            qabs(out as int) <= 2 * SAMPLE_LIMIT,
    {
        self.phase = (self.phase + self.params.phase_inc) % CYCLE;
        let idx = self.phase / 0x400_0000;
        let s = sine_entry(idx);
        proof {
            lemma_sine_bounded(idx as int);
            let a = self.params.amount as int;
            assert(0 <= a * ((s as int) + ONE) && a * ((s as int) + ONE) <= (2 * a) * ONE)
                by (nonlinear_arith)
                requires
                    0 <= a,
                    0 <= (s as int) + ONE <= 2 * ONE,
                    ONE == 65536i64,
            ;
            vstd::arithmetic::div_mod::lemma_div_is_ordered(
                a * ((s as int) + ONE),
                (2 * a) * ONE,
                ONE as int,
            );
            vstd::arithmetic::div_mod::lemma_div_by_multiple(2 * a, ONE as int);
            vstd::arithmetic::div_mod::lemma_div_pos_is_pos(a * ((s as int) + ONE), ONE as int);
        }
        let dq = (self.params.amount * ((s + ONE) as u64)) / (ONE as u64) + FLANGE_EPS;
        self.delay_line.set_delay(dq);
        let wet = self.delay_line.tick(in_frame);
        let mixed = scale_q(wet, self.params.depth);
        proof {
            vstd::arithmetic::mul::lemma_mul_inequality(
                qabs(wet as int),
                SAMPLE_LIMIT as int,
                self.params.depth as int,
            );
            vstd::arithmetic::mul::lemma_mul_inequality(
                self.params.depth as int,
                ONE as int,
                SAMPLE_LIMIT as int,
            );
        }
        mixed + in_frame
    }
}

} // verus!
