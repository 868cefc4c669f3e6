//! Echo and flange behavior: the geometric parameter derivation against an
//! independent recomputation, the echo mix, and the flange's dry start.

use dws::effects::{Echo, EchoParameters, Flange};

#[test]
pub fn echo_geometry_from_distances() {
    // d = 100, h = 200 length units (Q16), at 48000 frames per second.
    let p = EchoParameters::from_distances(100 * 65536, 200 * 65536, 48000);

    // Recomputed independently: r = sqrt(200^2 + 100^2/4) = 206.155...,
    // attenuation = 100 / (2 r) = 0.24253... -> 15894 in Q16 (truncated),
    // length = round(48000 * (2 r - 100) / 343) = 43705 frames.
    let r = ((200.0_f64 * 200.0 + 100.0 * 100.0 / 4.0) as f64).sqrt();
    let att = 100.0 / (2.0 * r);
    let len = (48000.0 * (2.0 * r - 100.0) / 343.0).round() as usize;
    assert!((p.attenuation as f64 / 65536.0 - att).abs() < 0.0001);
    assert_eq!(p.attenuation, 15894);
    assert_eq!(p.length, len);
    assert_eq!(p.length, 43705);
}

#[test]
pub fn echo_zero_height_reflector() {
    // With the reflector on the line between source and listener the
    // reflected path equals the direct one: full gain, no delay.
    let p = EchoParameters::from_distances(2 * 65536, 0, 48000);
    assert_eq!(p.attenuation, 65536);
    assert_eq!(p.length, 0);
}

#[test]
pub fn echo_mixes_delayed_tap() {
    let mut e = Echo::new(2 * 65536, 0, 48000, 100);
    // Delay 0 and unit attenuation: the echo doubles the input.
    assert_eq!(e.tick(1000), 2000);

    // Retune to 3 frames at half gain and feed a unit impulse.
    let mut e2 = Echo::new(2 * 65536, 0, 48000, 100);
    e2.set_params(EchoParameters { attenuation: 32768, length: 3 });
    assert_eq!(e2.tick(65536), 65536);
    assert_eq!(e2.tick(0), 0);
    assert_eq!(e2.tick(0), 0);
    assert_eq!(e2.tick(0), 32768);
    assert_eq!(e2.tick(0), 0);
}

#[test]
pub fn flange_starts_dry() {
    // 2 Hz sweep over 5 ms (0.005 * 65536 = 327) at depth 0.8.
    let mut f = Flange::new(2 * 65536, 327, 52429, 48000);
    // The swept delay starts around 327 * 48000 / 65536 = 239 frames, so
    // the wet path replays silence at first: output equals input.
    for _ in 0..100 {
        assert_eq!(f.tick(1000), 1000);
    }
}

#[test]
pub fn flange_sweeps_wet_signal_in() {
    let mut f = Flange::new(2 * 65536, 327, 52429, 48000);
    // After the longest possible sweep (2 * 239 + 1 frames) of a constant
    // signal, the wet path replays that constant: output leaves the dry
    // value and gains depth * input.
    let mut saw_wet = false;
    for n in 0..2000 {
        let out = f.tick(1000);
        if n > 480 {
            // The interpolation truncates, so the wet tap reads the
            // constant less at most one unit.
            assert!(out == 1800 || out == 1799);
        }
        if out != 1000 {
            saw_wet = true;
        }
    }
    assert!(saw_wet);
}

#[test]
pub fn echo_rejects_unfit_params() {
    let mut e = Echo::new(2 * 65536, 0, 48000, 100);
    // The capacity is 99 frames: a longer delay is refused ...
    assert!(!e.try_set_params(EchoParameters { attenuation: 32768, length: 100 }));
    // ... as is a gain above unity or below zero ...
    assert!(!e.try_set_params(EchoParameters { attenuation: 65537, length: 10 }));
    assert!(!e.try_set_params(EchoParameters { attenuation: -1, length: 10 }));
    // ... and the echo still behaves as built (delay 0, unit gain).
    assert_eq!(e.tick(1000), 2000);
    // A fitting update takes effect.
    assert!(e.try_set_params(EchoParameters { attenuation: 32768, length: 99 }));
}

#[test]
pub fn flange_setters_take_effect_next_tick() {
    // Depth zero: the wet path is muted, whatever the sweep does.
    let mut f = Flange::new(2 * 65536, 327, 0, 48000);
    for _ in 0..600 {
        assert_eq!(f.tick(1000), 1000);
    }
    // Raise the depth mid-stream: the very next tick mixes the wet tap,
    // which in steady state replays the constant less at most one unit.
    f.set_depth(65536);
    for _ in 0..100 {
        let out = f.tick(1000);
        assert!(out == 2000 || out == 1999);
    }
    // Shrink the sweep to nothing: the delay collapses towards zero and
    // the wet tap still replays the constant.
    f.set_amount(0);
    f.set_rate(65536);
    for _ in 0..100 {
        let out = f.tick(1000);
        assert!(out == 2000 || out == 1999);
    }
}
