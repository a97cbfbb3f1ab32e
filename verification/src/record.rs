//! The telemetry record and the decimal-literal number model.
//!
//! Wire payloads carry numbers as JSON decimal literals. The library keeps
//! each such number exactly as it was written: sign, decimal mantissa and
//! power-of-ten exponent. The value denoted is `(-1)^neg * mant * 10^exp`.
//! Converting to a machine float is left to the unverified rim of the
//! application; the verified core never rounds.

use vstd::prelude::*;

verus! {

/// A decimal number literal: the value `(-1)^neg * mant * 10^exp`.
#[derive(Clone, Copy, Debug, PartialEq, Eq, Structural)]
pub struct Dec64 {
    pub neg: bool,
    pub mant: u64,
    pub exp: i64,
}

impl Dec64 {
    /// The decimal literal a whole number turns into: `n * 10^0`.
    pub fn from_u64(n: u64) -> (d: Dec64)
        ensures
            d == (Dec64 { neg: false, mant: n, exp: 0 }),
    {
        Dec64 { neg: false, mant: n, exp: 0 }
    }
}

/// One ranging measurement, as decoded from a payload. Four range and
/// signal-strength readings plus a clock correction stay decimal literals;
/// the two protocol durations are whole numbers on the wire.
#[derive(Clone, Copy, Debug, PartialEq, Eq, Structural)]
pub struct TelemetryRecord {
    pub distance: Dec64,
    pub raw: Dec64,
    pub rssi: Dec64,
    pub fp_rssi: Dec64,
    pub round_time: u64,
    pub reply_time: u64,
    pub clock_offset: Dec64,
}

} // verus!
