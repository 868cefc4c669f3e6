//! FIR filter behavior: the impulse response equals the coefficients, and
//! coefficient edits take effect on the next tick.

use dws::filter::FIRFilter;

#[test]
pub fn fir_impulse_response() {
    // For a fir filter the impulse response should equal the coefficients.
    // 0.1, 0.2, 0.0 and 2.1 in Q16.
    let coefs = vec![6554i64, 13107, 0, 137626];
    let mut filter = FIRFilter::new(coefs.clone());

    let mut impulse = vec![0i64; coefs.len()];
    impulse[0] = 65536;
    for (c, i) in coefs.iter().zip(impulse) {
        let o = filter.tick(i);
        assert_eq!(*c, o);
    }
}

#[test]
pub fn fir_coefficient_edit_applies_next_tick() {
    let mut filter = FIRFilter::new(vec![65536i64, 0, 0]);
    // Unit passthrough at first.
    assert_eq!(filter.tick(1000), 1000);
    assert_eq!(filter.tick(0), 0);
    // Move the unit gain to the second tap: output becomes the previous
    // input from the next tick on, with no crossfade.
    filter.set_coefficient(0, 0);
    filter.set_coefficient(1, 65536);
    assert_eq!(filter.tick(500), 0);
    assert_eq!(filter.tick(0), 500);
    assert_eq!(filter.get_coefficients()[1], 65536);
}

#[test]
pub fn fir_sums_scaled_taps() {
    // Half gain on the input plus quarter gain two taps back.
    let mut filter = FIRFilter::new(vec![32768i64, 0, 16384]);
    assert_eq!(filter.tick(40000), 20000);
    assert_eq!(filter.tick(0), 0);
    assert_eq!(filter.tick(0), 10000);
    assert_eq!(filter.tick(0), 0);
}
