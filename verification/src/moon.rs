//! The Earth-to-Moon link scenario: one-way light times, round
//! trips, and connection-handshake readiness windows at perigee,
//! mean distance and apogee.  A reporting layer formats the numbers;
//! nothing here touches the event engine.

use vstd::prelude::*;

use crate::extensions::{
    one_way_us, spec_one_way_us, spec_surface_distance_hm, surface_distance_hm,
    EARTH_MOON_APOGEE_HM, EARTH_MOON_AVG_HM, EARTH_MOON_PERIGEE_HM, EARTH_RADIUS_HM,
    MOON_RADIUS_HM,
};
use crate::physics::SPEED_OF_LIGHT_M_PER_S;

verus! {

/// Light times and handshake windows for one Earth–Moon center
/// distance, all in microseconds (distances in hectometers).
pub struct MoonLinkFigures {
    pub surface_hm: u64,
    pub one_way_us: u64,
    pub rtt_us: u64,
    /// The client can send payload after one round trip.
    pub client_ready_us: u64,
    /// The opening side's peer is established after one and a half
    /// round trips: three one-way crossings.
    pub server_ready_us: u64,
}

/// The figures derive from the center distance alone.
pub open spec fn moon_figures_ok(f: MoonLinkFigures, center_hm: nat) -> bool {
    let surface = spec_surface_distance_hm(center_hm);
    let ow = spec_one_way_us(surface);
    &&& f.surface_hm == surface
    &&& f.one_way_us == ow
    &&& f.rtt_us == 2 * ow
    &&& f.client_ready_us == 2 * ow
    &&& f.server_ready_us == 3 * ow
}

/// The Earth–Moon link at its nearest, mean and farthest separation.
pub struct EarthMoonScenarioReport {
    pub perigee: MoonLinkFigures,
    pub average: MoonLinkFigures,
    pub apogee: MoonLinkFigures,
}

/// Light-time figures for one center distance.
fn moon_link_figures(center_hm: u64) -> (f: MoonLinkFigures)
    requires
        EARTH_RADIUS_HM + MOON_RADIUS_HM <= center_hm <= 10_000_000,
    ensures
        moon_figures_ok(f, center_hm as nat),
{
    let surface = surface_distance_hm(center_hm);
    let ow = one_way_us(surface);
    proof {
        vstd::arithmetic::div_mod::lemma_div_is_ordered(
            surface as int * 100_000_000,
            10_000_000int * 100_000_000,
            SPEED_OF_LIGHT_M_PER_S as int,
        );
    }
    MoonLinkFigures {
        surface_hm: surface,
        one_way_us: ow,
        rtt_us: 2 * ow,
        client_ready_us: 2 * ow,
        server_ready_us: 3 * ow,
    }
}

/// Computes the Earth–Moon link figures at perigee, mean distance
/// and apogee: even in vacuum the separation prices every round trip
/// in seconds, which is what pushes compute and caching to the far
/// end.
pub fn print_earth_moon_scenario() -> (r: EarthMoonScenarioReport)
    ensures
        moon_figures_ok(r.perigee, EARTH_MOON_PERIGEE_HM as nat),
        moon_figures_ok(r.average, EARTH_MOON_AVG_HM as nat),
        moon_figures_ok(r.apogee, EARTH_MOON_APOGEE_HM as nat),
{
    EarthMoonScenarioReport {
        perigee: moon_link_figures(EARTH_MOON_PERIGEE_HM),
        average: moon_link_figures(EARTH_MOON_AVG_HM),
        apogee: moon_link_figures(EARTH_MOON_APOGEE_HM),
    }
}

} // verus!
