//! One emitted measurement: the three weighted SPL values of a one-second
//! window and the wall-clock second it ended.
//!
//! The dB values are floating-point results of the unverified signal chain
//! and are carried here as their IEEE-754 single-precision bit patterns. A
//! degenerate window (an all-zero frame has no defined level) produces a
//! non-finite value; a reading flags that state so a caller can never
//! mistake it for a measurement.

use vstd::prelude::*;

verus! {

/// Whether a single-precision bit pattern denotes a finite number: the
/// exponent field of an IEEE-754 single is all ones exactly for infinities
/// and NaNs.
pub open spec fn spec_f32_bits_finite(b: u32) -> bool {
    (b >> 23) & 0xFF != 0xFF
}

/// Finiteness of a single-precision value, read off its bit pattern.
pub fn f32_bits_finite(bits: u32) -> (r: bool)
    ensures
        r == spec_f32_bits_finite(bits),
{
    ((bits >> 23) & 0xFF) != 0xFF
}

/// Three weighted SPL readings (Z, A, C, as single-precision bit patterns)
/// at the wall-clock second their window ended.
#[derive(Clone, Copy, Debug, PartialEq, Eq, Structural)]
pub struct SplReading {
    pub z_bits: u32,
    pub a_bits: u32,
    pub c_bits: u32,
    pub unix_seconds: u64,
}

impl SplReading {
    /// All three channels hold finite dB values.
    pub open spec fn spec_is_valid(self) -> bool {
        &&& spec_f32_bits_finite(self.z_bits)
        &&& spec_f32_bits_finite(self.a_bits)
        &&& spec_f32_bits_finite(self.c_bits)
    }

    pub fn new(z_bits: u32, a_bits: u32, c_bits: u32, unix_seconds: u64) -> (r: SplReading)
        ensures
            r == (SplReading { z_bits, a_bits, c_bits, unix_seconds }),
    {
        SplReading { z_bits, a_bits, c_bits, unix_seconds }
    }

    /// A degenerate reading — some channel is not a finite number — must be
    /// flagged, never reported as a measurement.
    pub fn is_degenerate(&self) -> (r: bool)
        ensures
            r == !self.spec_is_valid(),
    {
        !f32_bits_finite(self.z_bits) || !f32_bits_finite(self.a_bits) || !f32_bits_finite(
            self.c_bits,
        )
    }
}

} // verus!
