//! Physical constants and the pure arithmetic that turns a link's
//! length and bandwidth into delays.
//!
//! Fractional constants are held as integer numerators over a named
//! power-of-ten denominator: the fiber refractive index 1.47 as 147
//! hundredths, the path-inefficiency multiplier 1.3 as 13 tenths.

use vstd::prelude::*;

verus! {

/// Speed of light in vacuum, meters per second.
pub const SPEED_OF_LIGHT_M_PER_S: u64 = 299_792_458;

/// Refractive index of optical fiber, in hundredths (1.47).
pub const FIBER_REFRACTIVE_INDEX_CENTI: u64 = 147;

/// Cables follow roads and sea beds, not great circles: real cable
/// length is the surface distance times this factor, in tenths (1.3).
pub const PATH_INEFFICIENCY_DECI: u64 = 13;

/// Nanoseconds in one second.
pub const NANOS_PER_SEC: u64 = 1_000_000_000;

/// Nanoseconds a signal needs per meter of fiber, as a fraction:
/// this numerator over `SPEED_OF_LIGHT_M_PER_S`.  It equals
/// `FIBER_REFRACTIVE_INDEX_CENTI * NANOS_PER_SEC / 100` exactly
/// (the division by 100 is exact), so
/// `d * FIBER_DELAY_NUMER / SPEED_OF_LIGHT_M_PER_S` is the travel
/// time in nanoseconds over `d` meters of fiber.
pub const FIBER_DELAY_NUMER: u64 = FIBER_REFRACTIVE_INDEX_CENTI * NANOS_PER_SEC / 100;

/// Largest straight-line distance, in meters, a link may be built
/// over.  Generous for a planetary network (25 times Earth's
/// circumference); it keeps every delay product inside `u64`.
pub const MAX_LINK_DISTANCE_M: u64 = 1_000_000_000;

/// Largest packet size, in bytes, the engine accepts; keeps the
/// serialization-delay product inside `u64`.
pub const MAX_PACKET_BYTES: usize = 2_000_000_000;

/// Real-world cable length of a link whose endpoints are
/// `surface_m` meters apart: the path-inefficiency multiplier
/// applied, rounded down to whole meters.
pub open spec fn spec_cable_length_m(surface_m: nat) -> nat {
    surface_m * PATH_INEFFICIENCY_DECI as nat / 10
}

/// Time, in whole nanoseconds, a signal needs to traverse
/// `cable_m` meters of fiber.
pub open spec fn spec_propagation_ns(cable_m: nat) -> nat {
    cable_m * FIBER_DELAY_NUMER as nat / SPEED_OF_LIGHT_M_PER_S as nat
}

/// Time, in whole nanoseconds, needed to push `size_bytes` onto a
/// link of `bandwidth_bps` bits per second.
pub open spec fn spec_transmission_ns(size_bytes: nat, bandwidth_bps: nat) -> nat
    recommends
        bandwidth_bps >= 1,
{
    size_bytes * 8 * NANOS_PER_SEC as nat / bandwidth_bps
}

/// Applies the path-inefficiency multiplier to a straight-line
/// surface distance.
pub fn cable_length_m(surface_m: u64) -> (r: u64)
    requires
        surface_m <= MAX_LINK_DISTANCE_M,
    ensures
        r == spec_cable_length_m(surface_m as nat),
        r <= 2 * MAX_LINK_DISTANCE_M,
{
    surface_m * PATH_INEFFICIENCY_DECI / 10
}

/// One-way propagation latency over `cable_m` meters of fiber.
pub fn propagation_ns(cable_m: u64) -> (r: u64)
    requires
        cable_m <= 2 * MAX_LINK_DISTANCE_M,
    ensures
        r == spec_propagation_ns(cable_m as nat),
{
    proof {
        assert(FIBER_DELAY_NUMER == 1_470_000_000);
    }
    cable_m * FIBER_DELAY_NUMER / SPEED_OF_LIGHT_M_PER_S
}

/// Serialization delay of a packet of `size_bytes` on a link of
/// `bandwidth_bps` bits per second.
pub fn transmission_ns(size_bytes: usize, bandwidth_bps: u64) -> (r: u64)
    requires
        size_bytes <= MAX_PACKET_BYTES,
        bandwidth_bps >= 1,
    ensures
        r == spec_transmission_ns(size_bytes as nat, bandwidth_bps as nat),
{
    (size_bytes as u64) * 8 * NANOS_PER_SEC / bandwidth_bps
}

} // verus!
