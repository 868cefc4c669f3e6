//! Deterministic, allocation-free signal primitives for real-time audio:
//! a circular delay line with exact tap semantics, a fractional
//! (interpolated) delay line, an FIR filter, and effect/instrument units
//! (echo, flange, plucked string) composed from them.
//!
//! Samples and gains are Q16 fixed-point integers: the value `v` stands
//! for the real number `v / 65536`. All per-sample operations are O(1),
//! never allocate, and are verified not to panic or overflow.

pub mod fixed;

pub mod delay_line;

pub mod effects;

pub mod filter;

pub mod instruments;
