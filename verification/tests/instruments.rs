//! Plucked-string behavior: deterministic pick noise, a silent idle
//! instrument, and a note whose envelope decays monotonically.

use dws::instruments::{Noise, PluckedString};

#[test]
pub fn noise_is_deterministic_and_bounded() {
    let mut n1 = Noise::new(0);
    let mut n2 = Noise::new(0);
    assert_eq!(n1.next(), 2588);
    assert_eq!(n1.next(), -61873);
    assert_eq!(n1.next(), 21170);
    assert_eq!(n1.next(), 27749);
    for _ in 0..1000 {
        let v = n2.next();
        assert!(-65536 <= v && v <= 65536);
    }
}

#[test]
pub fn idle_string_is_silent() {
    let mut p = PluckedString::new();
    for _ in 0..100 {
        assert_eq!(p.tick(), 0);
    }
}

#[test]
pub fn plucked_note_sounds_then_decays() {
    let mut p = PluckedString::new();
    p.note_on(440 * 65536);

    // One period at 48 kHz is about 110 frames; watch peaks per period.
    let period = 110;
    let mut peaks: Vec<i64> = Vec::new();
    for _ in 0..200 {
        let mut peak: i64 = 0;
        for _ in 0..period {
            let v = p.tick();
            assert!(-65536 <= v && v <= 65536);
            peak = peak.max(v.abs());
        }
        peaks.push(peak);
    }

    // The pick noise must actually sound.
    assert!(peaks[0] > 0);
    // The envelope decays monotonically from the second period on.
    for i in 1..peaks.len() - 1 {
        assert!(peaks[i + 1] <= peaks[i]);
    }
    // And the decay rate set by `sustain` (one second to a thousandth of
    // the energy) visibly shrinks the envelope over 200 periods.
    assert!(peaks[peaks.len() - 1] < peaks[1] / 2);
}

#[test]
pub fn sustain_slows_decay() {
    let mut fast = PluckedString::new();
    let mut slow = PluckedString::new();
    slow.sustain = 4 * 65536;
    fast.note_on(440 * 65536);
    slow.note_on(440 * 65536);

    let mut peak_fast: i64 = 0;
    let mut peak_slow: i64 = 0;
    // Skip ten periods, then compare one period's envelope.
    for _ in 0..1100 {
        fast.tick();
        slow.tick();
    }
    for _ in 0..110 {
        peak_fast = peak_fast.max(fast.tick().abs());
        peak_slow = peak_slow.max(slow.tick().abs());
    }
    assert!(peak_slow >= peak_fast);
}
