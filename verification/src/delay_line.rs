//! Circular delay lines: an integer delay line over arbitrary frame types,
//! and a fractional delay line over Q16 samples that interpolates linearly
//! between the two nearest integer taps.
//!
//! Convention: a buffer of length `L` gives a capacity (maximum delay) of
//! `L - 1`, one slot being reserved so that writing before reading makes a
//! delay of zero return the value just written.

use crate::fixed::{qabs, scale_q, scaled, ONE, SAMPLE_LIMIT};
use vstd::prelude::*;

verus! {

/// Abstract state of a delay line: the full sequence of frames ever written
/// (`hist`), the initial buffer contents (`init`, read before enough frames
/// have been written), and the current delay in frames.
pub struct DelayModel<T> {
    pub hist: Seq<T>,
    pub init: Seq<T>,
    pub delay: nat,
}

impl<T> DelayModel<T> {
    /// Length of the underlying buffer.
    pub open spec fn buf_len(self) -> nat {
        self.init.len()
    }

    /// Maximum delay: one less than the buffer length.
    pub open spec fn capacity(self) -> int {
        self.buf_len() - 1
    }

    /// The frame written at time `j`, counting the first `tick` as time 0;
    /// negative times read the initial buffer contents, which the buffer
    /// still holds at the position those times would have written.
    pub open spec fn past(self, j: int) -> T
        recommends
            j < self.hist.len(),
            self.buf_len() > 0,
    {
        if j >= 0 {
            self.hist[j]
        } else {
            self.init[j % (self.buf_len() as int)]
        }
    }

    /// The model after one `tick` with input `x`.
    pub open spec fn ticked(self, x: T) -> DelayModel<T> {
        DelayModel { hist: self.hist.push(x), ..self }
    }

    /// What that `tick` returns: the frame `delay` positions behind the
    /// input just written.
    pub open spec fn tick_out(self, x: T) -> T {
        self.ticked(x).past(self.hist.len() - self.delay)
    }

    /// The model after retuning to `delay` frames.
    pub open spec fn with_delay(self, delay: nat) -> DelayModel<T> {
        DelayModel { delay, ..self }
    }

    /// What `tap(i)` reads: the frame `i + 1` positions behind the input
    /// cursor, `tap(0)` being the most recent write.
    pub open spec fn tap_at(self, i: int) -> T {
        self.past(self.hist.len() - 1 - i)
    }

    /// What `tap_output(i)` reads: the frame `i + 1` positions behind the
    /// output cursor, `tap_output(0)` being `tap(delay)`.
    pub open spec fn tap_output_at(self, i: int) -> T {
        self.past(self.hist.len() - 1 - self.delay - i)
    }
}

/// Fixed-capacity circular delay buffer. One slot of the buffer is reserved:
/// `capacity() == data.len() - 1`. Writing advances `in_point`, reading
/// advances `out_point`, and the delay is their distance mod the length.
pub struct DelayLine<T> {
    data: Vec<T>,
    in_point: usize,
    out_point: usize,
    hist: Ghost<Seq<T>>,
    init: Ghost<Seq<T>>,
}

/// Buffer slot holding the frame written `i + 1` steps before the cursor
/// `p` last advanced (all mod `len`, without calling `%`).
pub open spec fn slot_back(p: int, i: int, len: int) -> int {
    if p - 1 - i >= 0 {
        p - 1 - i
    } else {
        p - 1 - i + len
    }
}

/// `slot_back(p, i, len)` is the in-range representative of `x - 1 - i`
/// modulo `len`, whenever `p` is the one of `x`.
pub proof fn lemma_slot_back_mod(p: int, i: int, len: int, x: int)
    requires
        0 <= p < len,
        0 <= i < len,
        p == x % len,
    ensures
        slot_back(p, i, len) == (x - 1 - i) % len,
{
    vstd::arithmetic::div_mod::lemma_fundamental_div_mod(x, len);
    let q = x / len;
    let s = slot_back(p, i, len);
    if p - 1 - i >= 0 {
        assert(x - 1 - i == len * q + s);
        vstd::arithmetic::div_mod::lemma_mod_multiples_vanish(q, s, len);
    } else {
        vstd::arithmetic::mul::lemma_mul_is_distributive_sub(len, q, 1);
        assert(x - 1 - i == len * (q - 1) + s);
        vstd::arithmetic::div_mod::lemma_mod_multiples_vanish(q - 1, s, len);
    }
    vstd::arithmetic::div_mod::lemma_small_mod(s as nat, len as nat);
}

impl<T: Copy> View for DelayLine<T> {
    type V = DelayModel<T>;

    closed spec fn view(&self) -> DelayModel<T> {
        DelayModel {
            hist: self.hist@,
            init: self.init@,
            delay: ((self.in_point - self.out_point) % (self.data@.len() as int)) as nat,
        }
    }
}

impl<T: Copy> DelayLine<T> {
    /// Structural invariant tying the buffer and cursors to the model: the
    /// buffer holds the last `data.len()` frames of the padded history.
    pub closed spec fn wf(&self) -> bool {
        let len = self.data@.len() as int;
        let n = self.hist@.len() as int;
        &&& self.init@.len() == self.data@.len()
        &&& self.data@.len() >= 2
        &&& self.in_point < self.data@.len()
        &&& self.out_point < self.data@.len()
        &&& self.in_point == n % len
        &&& forall|i: int|
            0 <= i < len ==> self.data@[slot_back(self.in_point as int, i, len)] == (if i
                < n {
                self.hist@[n - 1 - i]
            } else {
                self.init@[slot_back(self.in_point as int, i, len)]
            })
    }

    /// A well-formed line has at least two buffer slots and its delay never
    /// exceeds the capacity.
    pub proof fn lemma_wf_model(&self)
        requires
            self.wf(),
        ensures
            self@.buf_len() >= 2,
            0 <= self@.delay < self@.buf_len(),
    {
    }

    /// The capacity of the delay line (maximum possible delay).
    pub fn capacity(&self) -> (c: usize)
        requires
            self.wf(),
        ensures
            c == self@.capacity(),
    {
        self.data.len() - 1
    }

    /// A delay line over the given buffer, whose contents are read out until
    /// `data.len()` frames have been written; an all-equilibrium buffer makes
    /// the initial reads silence.
    pub fn new(data: Vec<T>, delay: usize) -> (line: DelayLine<T>)
        requires
            data@.len() >= 2,
            delay <= data@.len() - 1,
        ensures
            line.wf(),
            line@.hist == Seq::<T>::empty(),
            line@.init == data@,
            line@.delay == delay,
    {
        let len = data.len();
        let line = DelayLine {
            in_point: 0,
            out_point: (len - delay) % len,
            hist: Ghost(Seq::empty()),
            init: Ghost(data@),
            data,
        };
        proof {
            let l = len as int;
            vstd::arithmetic::div_mod::lemma_mod_self_0(l);
            if delay == 0 {
                assert(line.out_point == 0);
                vstd::arithmetic::div_mod::lemma_small_mod(0, len as nat);
            } else {
                vstd::arithmetic::div_mod::lemma_small_mod((len - delay) as nat, len as nat);
                assert(line.out_point == l - delay);
                assert((0 - (l - delay)) % l == (delay - l) % l);
                vstd::arithmetic::div_mod::lemma_mod_add_multiples_vanish(delay - l, l);
                vstd::arithmetic::div_mod::lemma_small_mod(delay as nat, len as nat);
            }
            vstd::arithmetic::div_mod::lemma_small_mod(0, len as nat);
        }
        line
    }

    /// Write `item` at the input cursor, then read at the output cursor,
    /// advancing both: the returned frame is the input `delay` ticks ago.
    /// Writing before reading makes a delay of zero return `item` itself.
    pub fn tick(&mut self, item: T) -> (out: T)
        requires
            old(self).wf(),
        ensures
            final(self).wf(),
            final(self)@ == old(self)@.ticked(item),
            out == old(self)@.tick_out(item),
    {
        let ghost m0 = *old(self);
        let ghost l = self.data@.len() as int;
        let ghost n = self.hist@.len() as int;
        let ghost in0 = self.in_point as int;
        let ghost out0 = self.out_point as int;
        let ghost d = self@.delay as int;
        let len = self.data.len();

        self.data.set(self.in_point, item);
        self.in_point = (self.in_point + 1) % len;
        self.hist = Ghost(self.hist@.push(item));

        let out = self.data[self.out_point];
        self.out_point = (self.out_point + 1) % len;

        proof {
            let in1 = self.in_point as int;
            let out1 = self.out_point as int;
            let n1 = n + 1;
            // The advanced cursors wrap by exactly one buffer length.
            assert(in1 == if in0 + 1 < l { in0 + 1 } else { in0 + 1 - l }) by {
                if in0 + 1 < l {
                    vstd::arithmetic::div_mod::lemma_small_mod((in0 + 1) as nat, l as nat);
                } else {
                    vstd::arithmetic::div_mod::lemma_mod_self_0(l);
                }
            }
            assert(out1 == if out0 + 1 < l { out0 + 1 } else { out0 + 1 - l }) by {
                if out0 + 1 < l {
                    vstd::arithmetic::div_mod::lemma_small_mod((out0 + 1) as nat, l as nat);
                } else {
                    vstd::arithmetic::div_mod::lemma_mod_self_0(l);
                }
            }
            // in1 tracks the new history length mod the buffer length.
            assert(in1 == n1 % l) by {
                vstd::arithmetic::div_mod::lemma_fundamental_div_mod(n, l);
                if in0 + 1 < l {
                    vstd::arithmetic::div_mod::lemma_mod_multiples_vanish(n / l, in0 + 1, l);
                    vstd::arithmetic::div_mod::lemma_small_mod((in0 + 1) as nat, l as nat);
                } else {
                    vstd::arithmetic::mul::lemma_mul_is_distributive_add(l, n / l, 1);
                    assert(n1 == l * (n / l + 1) + 0);
                    vstd::arithmetic::div_mod::lemma_mod_multiples_vanish(n / l + 1, 0, l);
                    vstd::arithmetic::div_mod::lemma_small_mod(0, l as nat);
                }
            }
            // Advancing both cursors preserves the delay.
            assert((in1 - out1) % l == d) by {
                assert((in0 - out0) % l == d);
                if in0 + 1 == l && out0 + 1 < l {
                    assert(in1 - out1 == -l + (in0 - out0));
                    vstd::arithmetic::div_mod::lemma_mod_sub_multiples_vanish(in0 - out0, l);
                } else if in0 + 1 < l && out0 + 1 == l {
                    assert(in1 - out1 == l + (in0 - out0));
                    vstd::arithmetic::div_mod::lemma_mod_add_multiples_vanish(in0 - out0, l);
                } else {
                    assert(in1 - out1 == in0 - out0);
                }
            }
            // Each retained slot keeps its meaning, shifted by one tick.
            assert forall|i: int| 0 <= i < l implies self.data@[slot_back(in1, i, l)] == (if i < n1 {
                self.hist@[n1 - 1 - i]
            } else {
                self.init@[slot_back(in1, i, l)]
            }) by {
                if i == 0 {
                    assert(slot_back(in1, 0, l) == in0);
                } else {
                    assert(slot_back(in1, i, l) == slot_back(in0, i - 1, l));
                    assert(slot_back(in0, i - 1, l) != in0);
                    assert(m0.data@[slot_back(in0, i - 1, l)] == (if i - 1 < n {
                        m0.hist@[n - 1 - (i - 1)]
                    } else {
                        m0.init@[slot_back(in0, i - 1, l)]
                    }));
                }
            }
            // The frame read out is the one `delay` ticks back.
            assert(out == self@.past(n - d)) by {
                assert(0 <= d < l);
                assert(out0 == if in0 - d >= 0 { in0 - d } else { in0 - d + l }) by {
                    if in0 >= out0 {
                        vstd::arithmetic::div_mod::lemma_small_mod((in0 - out0) as nat, l as nat);
                    } else {
                        vstd::arithmetic::div_mod::lemma_mod_add_multiples_vanish(in0 - out0, l);
                        vstd::arithmetic::div_mod::lemma_small_mod((in0 - out0 + l) as nat, l as nat);
                    }
                }
                assert(out0 == slot_back(in1, d, l));
                assert(out == self.data@[slot_back(in1, d, l)]);
                if d < n1 {
                    assert(out == self.hist@[n - d]);
                } else {
                    lemma_slot_back_mod(in1, d, l, n1);
                    assert(out == self.init@[(n - d) % l]);
                }
            }
        }
        out
    }

    /// The frame at `index + 1` positions behind the input cursor
    /// (`tap(0)` is the most recent input). Does not advance any cursor.
    pub fn tap(&self, index: usize) -> (t: T)
        requires
            self.wf(),
            index + 1 < self@.buf_len(),
        ensures
            t == self@.tap_at(index as int),
    {
        let len = self.data.len();
        let wrapped_index: usize;
        if index + 1 > self.in_point {
            wrapped_index = len - (index + 1 - self.in_point);
        } else {
            wrapped_index = self.in_point - (index + 1);
        }
        proof {
            let l = self.data@.len() as int;
            let n = self.hist@.len() as int;
            assert(wrapped_index == slot_back(self.in_point as int, index as int, l));
            if index >= n {
                lemma_slot_back_mod(self.in_point as int, index as int, l, n);
            }
        }
        self.data[wrapped_index]
    }

    /// The frame at `index + 1` positions behind the output cursor
    /// (`tap_output(0)` is `tap(delay)`, the frame the current delay is
    /// about to replay). The slot read is offset `delay + index` behind the
    /// input cursor; once that offset wraps past the buffer length the slot
    /// has been overwritten, so the meaningful reads are those with
    /// `delay + index < buf_len`.
    pub fn tap_output(&self, index: usize) -> (t: T)
        requires
            self.wf(),
            index + 1 < self@.buf_len(),
        ensures
            t == self@.past(
                self@.hist.len() - 1 - (self@.delay + index) % (self@.buf_len() as int),
            ),
            self@.delay + index < self@.buf_len() ==> t == self@.tap_output_at(index as int),
    {
        let len = self.data.len();
        let wrapped_index: usize;
        if index + 1 > self.out_point {
            wrapped_index = len - (index + 1 - self.out_point);
        } else {
            wrapped_index = self.out_point - (index + 1);
        }
        proof {
            let l = self.data@.len() as int;
            let n = self.hist@.len() as int;
            let d = self@.delay as int;
            let in0 = self.in_point as int;
            let out0 = self.out_point as int;
            let i = (d + index) % l;
            assert(wrapped_index == slot_back(out0, index as int, l));
            // The output cursor stands `delay` behind the input cursor,
            // so this slot is offset `(delay + index) mod len` behind it.
            assert(out0 == (n - d) % l) by {
                vstd::arithmetic::div_mod::lemma_fundamental_div_mod(n, l);
                vstd::arithmetic::div_mod::lemma_fundamental_div_mod(in0 - out0, l);
                let q1 = n / l;
                let q2 = (in0 - out0) / l;
                assert(n - d == l * q1 + l * q2 + out0);
                vstd::arithmetic::mul::lemma_mul_is_distributive_add(l, q1, q2);
                assert(n - d == l * (q1 + q2) + out0);
                vstd::arithmetic::div_mod::lemma_mod_multiples_vanish(q1 + q2, out0, l);
                vstd::arithmetic::div_mod::lemma_small_mod(out0 as nat, l as nat);
            }
            lemma_slot_back_mod(out0, index as int, l, n - d);
            assert(0 <= i < l) by {
                vstd::arithmetic::div_mod::lemma_mod_division_less_than_divisor(d + index, l);
                vstd::arithmetic::div_mod::lemma_mod_bound(d + index, l);
            }
            assert((n - 1 - i) % l == (n - d - 1 - index) % l) by {
                vstd::arithmetic::div_mod::lemma_fundamental_div_mod(d + index, l);
                let q = (d + index) / l;
                assert(n - 1 - i == l * q + (n - d - 1 - index));
                vstd::arithmetic::div_mod::lemma_mod_multiples_vanish(q, n - d - 1 - index, l);
            }
            lemma_slot_back_mod(in0, i, l, n);
            assert(wrapped_index == slot_back(in0, i, l));
            if d + index < l {
                vstd::arithmetic::div_mod::lemma_small_mod((d + index) as nat, l as nat);
            }
        }
        self.data[wrapped_index]
    }

    /// Retune to `delay` frames by repositioning the output cursor. Takes
    /// effect from the very next `tick`; the buffer contents are untouched.
    pub fn set_delay(&mut self, delay: usize)
        requires
            old(self).wf(),
            delay <= old(self)@.capacity(),
        ensures
            final(self).wf(),
            final(self)@ == old(self)@.with_delay(delay as nat),
    {
        if delay > self.in_point {
            self.out_point = self.data.len() - (delay - self.in_point);
        } else {
            self.out_point = self.in_point - delay;
        }
        proof {
            let l = self.data@.len() as int;
            let in0 = self.in_point as int;
            let out1 = self.out_point as int;
            if delay > self.in_point {
                assert(in0 - out1 == delay - l);
                vstd::arithmetic::div_mod::lemma_mod_add_multiples_vanish(delay - l, l);
            }
            vstd::arithmetic::div_mod::lemma_small_mod(delay as nat, l as nat);
        }
    }

    /// The current delay: the distance from the output cursor to the input
    /// cursor, always reflecting the most recent retune.
    pub fn get_delay(&self) -> (d: usize)
        requires
            self.wf(),
        ensures
            d == self@.delay,
    {
        proof {
            let len = self.data@.len() as int;
            let diff = self.in_point - self.out_point;
            if self.in_point >= self.out_point {
                vstd::arithmetic::div_mod::lemma_small_mod(diff as nat, len as nat);
            } else {
                vstd::arithmetic::div_mod::lemma_mod_add_multiples_vanish(diff, len);
                vstd::arithmetic::div_mod::lemma_small_mod((diff + len) as nat, len as nat);
            }
        }
        if self.in_point >= self.out_point {
            self.in_point - self.out_point
        } else {
            self.data.len() - (self.out_point - self.in_point)
        }
    }
}

/// Every frame a model can replay (written or initial) has magnitude at
/// most `b`.
pub open spec fn model_bounded(m: DelayModel<i64>, b: int) -> bool {
    &&& forall|j: int| 0 <= j < m.hist.len() ==> qabs(#[trigger] m.hist[j] as int) <= b
    &&& forall|j: int| 0 <= j < m.init.len() ==> qabs(#[trigger] m.init[j] as int) <= b
}

/// A bounded model only ever replays bounded frames.
pub proof fn lemma_past_bounded(m: DelayModel<i64>, b: int, j: int)
    requires
        model_bounded(m, b),
        m.buf_len() > 0,
        j < m.hist.len(),
    ensures
        qabs(m.past(j) as int) <= b,
{
    if j < 0 {
        let l = m.buf_len() as int;
        vstd::arithmetic::div_mod::lemma_mod_division_less_than_divisor(j, l);
        vstd::arithmetic::div_mod::lemma_mod_bound(j, l);
    }
}

/// Law: with a delay of zero, a tick returns exactly the frame it writes.
pub proof fn lemma_zero_delay_identity<T>(m: DelayModel<T>, x: T)
    requires
        m.delay == 0,
    ensures
        m.tick_out(x) == x,
{
}

/// Law: at a fixed delay `k` over an all-`z` initial buffer, the tick that
/// writes the `n`-th frame returns the frame written at time `n - k` once
/// `n >= k`, and `z` (silence) before that.
pub proof fn lemma_fixed_delay_output<T>(m: DelayModel<T>, x: T, z: T)
    requires
        m.buf_len() > 0,
        forall|j: int| 0 <= j < m.init.len() ==> m.init[j] == z,
    ensures
        m.delay <= m.hist.len() ==> m.tick_out(x) == m.ticked(x).hist[m.hist.len() - m.delay],
        m.delay > m.hist.len() ==> m.tick_out(x) == z,
{
    let n = m.hist.len() as int;
    let d = m.delay as int;
    if d > n {
        let l = m.buf_len() as int;
        vstd::arithmetic::div_mod::lemma_mod_division_less_than_divisor(n - d, l);
        vstd::arithmetic::div_mod::lemma_mod_bound(n - d, l);
    }
}

/// Law: retuning is instantaneous and leaves no transient. The output of the
/// tick right after `set_delay` depends only on the frames already stored
/// and the new delay, not on the delay in force before the retune.
pub proof fn lemma_retune_immediate<T>(m1: DelayModel<T>, m2: DelayModel<T>, x: T, d: nat)
    requires
        m1.hist == m2.hist,
        m1.init == m2.init,
    ensures
        m1.with_delay(d).tick_out(x) == m2.with_delay(d).tick_out(x),
{
}

/// Law: right after `tick(x)`, `tap(0)` reads back `x`.
pub proof fn lemma_tap_zero_after_tick<T>(m: DelayModel<T>, x: T)
    ensures
        m.ticked(x).tap_at(0) == x,
{
}

/// Law: the two tap coordinate spaces agree at all times: `tap_output(i)`
/// and `tap(delay + i)` read the same frame, `tap_output(0)` being
/// `tap(delay)`. The output-relative read needs no synchronization beyond
/// the delay itself.
pub proof fn lemma_tap_output_is_tap_at_delay<T>(m: DelayModel<T>, i: int)
    ensures
        m.tap_output_at(i) == m.tap_at(m.delay + i),
{
}

/// Abstract state of a fractional delay line: the wrapped integer line plus
/// the fractional part of the requested delay, in Q16 (`0 <= frac < ONE`).
pub struct FracDelayModel {
    pub line: DelayModel<i64>,
    pub frac: int,
}

impl FracDelayModel {
    /// The model after one `tick` with input `x`.
    pub open spec fn ticked(self, x: i64) -> FracDelayModel {
        FracDelayModel { line: self.line.ticked(x), frac: self.frac }
    }

    /// The model after retuning to `dq` Q16 frames: the integer part drives
    /// the wrapped line, the remainder becomes the interpolation weight.
    pub open spec fn retuned(self, dq: int) -> FracDelayModel {
        FracDelayModel {
            line: self.line.with_delay((dq / (ONE as int)) as nat),
            frac: dq % (ONE as int),
        }
    }

    /// The requested delay is `line.delay + frac / ONE` frames.
    /// What a tick returns: the two integer taps around that real-valued
    /// delay, blended linearly; an exactly integer delay reads one tap only.
    pub open spec fn tick_out(self, x: i64) -> int {
        let a = self.line.tick_out(x);
        if self.frac == 0 {
            a as int
        } else {
            let b = self.line.ticked(x).past(self.line.hist.len() - self.line.delay - 1);
            scaled(a as int, ONE - self.frac) + scaled(b as int, self.frac)
        }
    }
}

/// Law: in steady state (at least `delay + 1` frames written) a fractional
/// delay of `delay + frac/ONE` interpolates linearly: the tick that writes
/// frame number `n` returns the frame written at `n - delay` weighted by
/// `ONE - frac`, plus the one written at `n - delay - 1` weighted by `frac`.
pub proof fn lemma_frac_interpolation(m: FracDelayModel, x: i64)
    requires
        0 < m.frac < ONE,
        m.line.hist.len() >= m.line.delay + 1,
    ensures
        m.tick_out(x) == scaled(
            m.line.ticked(x).hist[m.line.hist.len() - m.line.delay] as int,
            ONE - m.frac,
        ) + scaled(m.line.ticked(x).hist[m.line.hist.len() - m.line.delay - 1] as int, m.frac),
{
}

/// Delay line over Q16 samples whose delay may have a fractional part:
/// output interpolates linearly between the two integer taps around the
/// requested delay. Delays are given in Q16 frames (`delay == q / ONE`).
pub struct DelayLineFracLin {
    delay_line: DelayLine<i64>,
    fractional_delay_part: u64,
}

impl View for DelayLineFracLin {
    type V = FracDelayModel;

    closed spec fn view(&self) -> FracDelayModel {
        FracDelayModel { line: self.delay_line@, frac: self.fractional_delay_part as int }
    }
}

impl DelayLineFracLin {
    /// Well-formed: the wrapped line is, the fractional part is a proper
    /// fraction, the requested delay fits the capacity, the buffer has at
    /// least two distinct taps, and all stored samples are bounded.
    pub closed spec fn wf(&self) -> bool {
        &&& self.delay_line.wf()
        &&& self@.line.buf_len() >= 3
        &&& 0 <= self@.frac < ONE
        &&& self@.line.delay * ONE + self@.frac <= self@.line.capacity() * ONE
        &&& model_bounded(self@.line, SAMPLE_LIMIT as int)
    }

    /// A fractional delay line over the given buffer; `delay` is the
    /// requested delay in Q16 frames, split into an integer part (which
    /// seeds the wrapped line) and a fractional part.
    pub fn new(data: Vec<i64>, delay: u64) -> (line: DelayLineFracLin)
        requires
            data@.len() >= 3,
            delay <= (data@.len() - 1) * ONE,
            forall|j: int| 0 <= j < data@.len() ==> qabs(#[trigger] data@[j] as int) <= SAMPLE_LIMIT,
        ensures
            line.wf(),
            line@.line.hist == Seq::<i64>::empty(),
            line@.line.init == data@,
            line@.line.delay == delay / (ONE as u64),
            line@.frac == delay % (ONE as u64),
    {
        let cap = data.len() - 1;
        let integer_part = delay / (ONE as u64);
        let fractional_part = delay % (ONE as u64);
        proof {
            vstd::arithmetic::div_mod::lemma_div_is_ordered(delay as int, cap * ONE, ONE as int);
            vstd::arithmetic::div_mod::lemma_div_by_multiple(cap as int, ONE as int);
            assert(integer_part <= cap);
            vstd::arithmetic::div_mod::lemma_fundamental_div_mod(delay as int, ONE as int);
        }
        DelayLineFracLin {
            delay_line: DelayLine::new(data, integer_part as usize),
            fractional_delay_part: fractional_part,
        }
    }

    /// Write `item` and read the interpolated output: the integer tap at the
    /// current delay, blended with the next older tap by the fractional
    /// weight. A weight of exactly zero reads one tap only, which also
    /// covers a delay equal to the full capacity, where no older tap exists.
    pub fn tick(&mut self, item: i64) -> (out: i64)
        requires
            old(self).wf(),
            qabs(item as int) <= SAMPLE_LIMIT,
        ensures
            final(self).wf(),
            final(self)@ == old(self)@.ticked(item),
            out == old(self)@.tick_out(item),
            qabs(out as int) <= SAMPLE_LIMIT,
    {
        let ghost m0 = old(self)@;
        let out_integer = self.delay_line.tick(item);
        proof {
            lemma_past_bounded(m0.line.ticked(item), SAMPLE_LIMIT as int, m0.line.hist.len() as int
                - m0.line.delay);
        }
        if self.fractional_delay_part == 0 {
            out_integer
        } else {
            let out_frac = self.delay_line.tap_output(1);
            proof {
                // frac > 0 forces delay < capacity, so the older tap at
                // delay + 1 is still within the buffer.
                assert(m0.line.delay * ONE + ONE <= m0.line.capacity() * ONE) by (nonlinear_arith)
                    requires
                        m0.line.delay * ONE + m0.frac <= m0.line.capacity() * ONE,
                        0 < m0.frac < ONE,
                        ONE == 65536int,
                ;
                assert(m0.line.delay + 1 <= m0.line.capacity()) by (nonlinear_arith)
                    requires
                        m0.line.delay * ONE + ONE <= m0.line.capacity() * ONE,
                        ONE == 65536int,
                ;
                lemma_past_bounded(m0.line.ticked(item), SAMPLE_LIMIT as int,
                    m0.line.hist.len() as int - m0.line.delay - 1);
            }
            let w = ONE - (self.fractional_delay_part as i64);
            let part_a = scale_q(out_integer, w);
            let part_b = scale_q(out_frac, self.fractional_delay_part as i64);
            proof {
                let f = m0.frac;
                let la = qabs(out_integer as int);
                let lb = qabs(out_frac as int);
                vstd::arithmetic::mul::lemma_mul_inequality(la, SAMPLE_LIMIT as int, ONE - f);
                vstd::arithmetic::mul::lemma_mul_inequality(lb, SAMPLE_LIMIT as int, f);
                vstd::arithmetic::mul::lemma_mul_is_distributive_add(SAMPLE_LIMIT as int, ONE - f,
                    f);
            }
            part_a + part_b
        }
    }

    /// The frame the current integer delay is about to replay:
    /// `tap_output(0)` of the wrapped line.
    pub fn tap_output(&self) -> (t: i64)
        requires
            self.wf(),
        ensures
            t == self@.line.tap_output_at(0),
            qabs(t as int) <= SAMPLE_LIMIT,
    {
        proof {
            assert(self@.line.delay * ONE <= self@.line.capacity() * ONE);
            assert(self@.line.delay <= self@.line.capacity()) by (nonlinear_arith)
                requires
                    self@.line.delay * ONE <= self@.line.capacity() * ONE,
                    ONE == 65536int,
            ;
            lemma_past_bounded(self@.line, SAMPLE_LIMIT as int, self@.line.hist.len() as int - 1
                - self@.line.delay);
        }
        self.delay_line.tap_output(0)
    }

    /// Retune to `delay` Q16 frames: re-derive the integer/fractional split
    /// and reposition the wrapped line at once; only future reads change.
    pub fn set_delay(&mut self, delay: u64)
        requires
            old(self).wf(),
            delay <= old(self)@.line.capacity() * ONE,
        ensures
            final(self).wf(),
            final(self)@ == old(self)@.retuned(delay as int),
    {
        let cap = self.delay_line.capacity();
        let integer_part = delay / (ONE as u64);
        let fractional_part = delay % (ONE as u64);
        proof {
            vstd::arithmetic::div_mod::lemma_div_is_ordered(delay as int, cap * ONE, ONE as int);
            vstd::arithmetic::div_mod::lemma_div_by_multiple(cap as int, ONE as int);
            assert(integer_part <= cap);
            vstd::arithmetic::div_mod::lemma_fundamental_div_mod(delay as int, ONE as int);
        }
        self.delay_line.set_delay(integer_part as usize);
        self.fractional_delay_part = fractional_part;
    }
}

} // verus!
