//! Delay-line behavior: write-before-read identity, fixed and retuned
//! integer delays, tap coordinates, and fractional interpolation.

use dws::delay_line::{DelayLine, DelayLineFracLin};
use rand::RngExt;

const ONE: i64 = 65536;

/// Reference for the library's truncating Q16 scaling.
fn scaled_ref(x: i64, g: i64) -> i64 {
    let m = (x.abs() * g.abs()) / ONE;
    if (x >= 0) == (g >= 0) {
        m
    } else {
        -m
    }
}

#[test]
pub fn zero_integer_delay() {
    let mut d = DelayLine::new(vec![0; 100], 0);

    for n in 0..1000 {
        let v = d.tick(n);

        assert_eq!(v, n);
    }
}

#[test]
pub fn fixed_integer_delay() {
    let delay = 5;

    let mut d = DelayLine::new(vec![0; 100], delay);

    for n in 0..12345 {
        let v = d.tick(n);

        if n >= delay {
            // after the transient phase we expect values we previously put in
            assert_eq!(v, n - delay);
        } else {
            // before it we expect 0, which is what the delay line is initialized with
            assert_eq!(v, 0);
        }
    }
}

#[test]
pub fn variable_integer_delay() {
    let mut delay = 5;

    let mut d = DelayLine::new(vec![0; 100], delay);

    for n in 0..123456 {
        if n % 12 == 0 {
            // Every 12th iteration we change the delay
            delay = (delay + 3) % 13;
            d.set_delay(delay);
        }

        let v = d.tick(n);

        if n >= delay {
            // after the transient phase we expect values we previously put in
            assert_eq!(v, n - delay);
        } else {
            // before it we expect 0, which is what the delay line is initialized with
            assert_eq!(v, 0);
        }
    }
}

#[test]
pub fn fixed_integer_taps() {
    let delay = 5;
    let mut d = DelayLine::new(vec![0; 100], delay);

    for n in 0..12345 {
        d.tick(n);

        let taps = std::cmp::min(n + 1, delay);
        for i in 0..taps {
            let t = d.tap(i);
            assert_eq!(t, n - i);
        }
    }
}

#[test]
pub fn integer_max_delay1() {
    DelayLine::new(vec![0; 100], 99);
}

#[test]
pub fn integer_max_delay2() {
    let mut d = DelayLine::new(vec![0; 100], 95);
    d.set_delay(99);
    d.tick(0);
}

#[test]
pub fn tap_output_matches_tap_at_delay() {
    let mut d = DelayLine::new(vec![0i64; 100], 7);

    for n in 0..500i64 {
        let v = d.tick(n);
        // tap(0) reads back what was just written.
        assert_eq!(d.tap(0), n);
        // tap_output(0) and tap(delay) read the same frame: the value the
        // delay just replayed.
        assert_eq!(d.tap_output(0), d.tap(d.get_delay()));
        assert_eq!(d.tap_output(0), v);
    }
}

#[test]
pub fn retune_has_no_transient() {
    let mut d = DelayLine::new(vec![0i64; 100], 50);
    for n in 0..200i64 {
        d.tick(n);
    }
    // Retune mid-stream: the very next tick reflects the new delay.
    d.set_delay(3);
    assert_eq!(d.get_delay(), 3);
    let v = d.tick(200);
    assert_eq!(v, 200 - 3);
}

#[test]
pub fn zero_frac_delay() {
    let mut d = DelayLineFracLin::new(vec![0; 100], 0);

    for n in 0..1000 {
        let v = d.tick(n);

        assert_eq!(v, n);
    }
}

#[test]
pub fn fixed_frac_delay() {
    // A delay of 9.4 frames in Q16.
    let delay_q = (9.4_f64 * 65536.0) as u64;
    let k = (delay_q / 65536) as i64;
    let f = (delay_q % 65536) as i64;
    let ceil = ((delay_q + 65535) / 65536) as i64;

    let mut d = DelayLineFracLin::new(vec![0; 100], delay_q);

    for n in 0..12345i64 {
        let v = d.tick(n);

        if n >= ceil {
            // after the transient phase we expect values interpolated
            // between values we previously put in
            let out_a = n - k;
            let out_b = n - k - 1;

            let expected_out = scaled_ref(out_a, ONE - f) + scaled_ref(out_b, f);

            assert_eq!(v, expected_out);
        } else if n <= k {
            // At the beginning we should see zeroes
            assert_eq!(v, 0);
        }
        // In between these two cases we are interpolating between initial
        // values and values we entered; not checking these for now.
    }
}

#[test]
pub fn variable_frac_delay() {
    // Start at 90 frames; retune at random within [0, 99) frames.
    let mut delay_q: u64 = 90 * 65536;

    let mut d = DelayLineFracLin::new(vec![0; 100], delay_q);
    let mut rng = rand::rng();

    for n in 0..12345i64 {
        if n % 17 == 0 {
            // change the delay sometimes
            delay_q = rng.random_range(0..99 * 65536u64);
            d.set_delay(delay_q);
        }

        let v = d.tick(n);

        let k = (delay_q / 65536) as i64;
        let f = (delay_q % 65536) as i64;
        let ceil = ((delay_q + 65535) / 65536) as i64;

        if n >= ceil {
            // after the transient phase we expect values interpolated
            // between values we previously put in
            let expected_out = if f == 0 {
                n - k
            } else {
                scaled_ref(n - k, ONE - f) + scaled_ref(n - k - 1, f)
            };

            assert_eq!(v, expected_out);
        } else if n <= k {
            // At the beginning we should see zeroes
            assert_eq!(v, 0);
        }
        // In between these two cases we are interpolating between initial
        // values and values we entered; not checking these for now.
    }
}

#[test]
pub fn frac_max_delay1() {
    let mut d = DelayLineFracLin::new(vec![0; 100], 99 * 65536);
    d.tick(0);
}

#[test]
pub fn frac_max_delay2() {
    let mut d = DelayLineFracLin::new(vec![0; 100], 95 * 65536);
    d.set_delay(99 * 65536);
    d.tick(0);
}

#[test]
pub fn frac_tap_output_is_integer_tap() {
    // tap_output() of the fractional line exposes the wrapped line's
    // tap_output(0): the frame at the integer part of the delay.
    let delay_q = 4 * 65536 + 100;
    let mut d = DelayLineFracLin::new(vec![0; 100], delay_q);
    for n in 0..50i64 {
        d.tick(n);
        let expect = if n >= 4 { n - 4 } else { 0 };
        assert_eq!(d.tap_output(), expect);
    }
}
