//! Fixed-point numerics: truncating scaling, the integer square root, the
//! exponential decay helper, and the sine table.

use dws::fixed::{exp_neg_q, isqrt_u64, scale_q, sine_entry};

#[test]
pub fn scaling_truncates_toward_zero() {
    assert_eq!(scale_q(65536, 32768), 32768);
    assert_eq!(scale_q(-65536, 32768), -32768);
    assert_eq!(scale_q(3, 32768), 1);
    assert_eq!(scale_q(-3, 32768), -1);
    assert_eq!(scale_q(1000, 65536), 1000);
    assert_eq!(scale_q(1000, 0), 0);
    assert_eq!(scale_q(1000, -65536), -1000);
}

#[test]
pub fn integer_square_roots() {
    assert_eq!(isqrt_u64(0), 0);
    assert_eq!(isqrt_u64(1), 1);
    assert_eq!(isqrt_u64(3), 1);
    assert_eq!(isqrt_u64(4), 2);
    assert_eq!(isqrt_u64(1 << 40), 1 << 20);
    assert_eq!(isqrt_u64(u64::MAX), 4294967295);
    let r = isqrt_u64(123456789);
    assert!(r * r <= 123456789 && (r + 1) * (r + 1) > 123456789);
}

#[test]
pub fn exponential_decay_factors() {
    // exp(0) is exactly one; any positive argument decays strictly.
    assert_eq!(exp_neg_q(0), 65536);
    // exp(-ln 2) halves, up to the truncation of the series.
    assert_eq!(exp_neg_q(45426), 32767);
    // exp(-1) = 0.36788: 24110/65536 = 0.36789.
    assert_eq!(exp_neg_q(65536), 24110);
    // exp(-2) = 0.13534: 8880/65536 = 0.13550.
    assert_eq!(exp_neg_q(2 * 65536), 8880);
    // Far down the curve everything flushes to zero.
    assert_eq!(exp_neg_q(20 * 65536), 0);
    for x in 1..2000u64 {
        let v = exp_neg_q(x * 997);
        assert!(0 <= v && v < 65536);
    }
}

#[test]
pub fn sine_table_quadrants() {
    assert_eq!(sine_entry(0), 0);
    assert_eq!(sine_entry(16), 65536);
    assert_eq!(sine_entry(32), 0);
    assert_eq!(sine_entry(48), -65536);
    for i in 0..64 {
        let v = sine_entry(i);
        assert!(-65536 <= v && v <= 65536);
        // Odd symmetry: sin(x + pi) == -sin(x).
        assert_eq!(sine_entry((i + 32) % 64), -v);
    }
}
