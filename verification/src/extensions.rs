//! Standalone what-if analyses of an Earth–Moon link: orbital
//! distance variation over a month, line-of-sight outages for a
//! far-side site with and without a relay, and protocol startup
//! costs over the resulting round trip.  These read no simulation
//! state; they are fixed-input tables a reporting layer formats.
//!
//! All arithmetic is integral: distances in hectometers (tenths of a
//! kilometer), times in microseconds, days in millionths of a day,
//! angles in thousandths of a degree, and the trigonometric factors
//! in millionths, computed by a rational approximation of the sine on
//! a half turn.

use vstd::prelude::*;

use vstd::arithmetic::div_mod::{lemma_div_is_ordered, lemma_div_multiples_vanish};

use crate::physics::SPEED_OF_LIGHT_M_PER_S;

verus! {

/// Earth's mean radius, hectometers.
pub const EARTH_RADIUS_HM: u64 = 63_710;

/// The Moon's mean radius, hectometers.
pub const MOON_RADIUS_HM: u64 = 17_374;

/// Mean Earth–Moon center distance, hectometers.
pub const EARTH_MOON_AVG_HM: u64 = 3_844_000;

/// Earth–Moon center distance at perigee, hectometers.
pub const EARTH_MOON_PERIGEE_HM: u64 = 3_633_000;

/// Earth–Moon center distance at apogee, hectometers.
pub const EARTH_MOON_APOGEE_HM: u64 = 4_055_000;

/// Anomalistic month (perigee to perigee), millionths of a day.
pub const ANOMALISTIC_MONTH_UDAY: u64 = 27_554_550;

/// Sidereal month, millionths of a day.
pub const SIDEREAL_MONTH_UDAY: u64 = 27_321_661;

/// Amplitude of the longitude libration, thousandths of a degree.
pub const LIBRATION_AMPLITUDE_MILLIDEG: u64 = 7_900;

/// Longitude of the modeled lunar site, thousandths of a degree:
/// near the far-side limb.
pub const LUNAR_SITE_LONGITUDE_MILLIDEG: u64 = 95_000;

/// Extra path length through the relay, hectometers.
pub const RELAY_EXTRA_PATH_HM: u64 = 120_000;

/// The relay's assumed availability, per mille.
pub const RELAY_ASSUMED_UPTIME_PERMILLE: u64 = 998;

/// Scale of the trigonometric factors: they range over
/// [-SCALE, SCALE] for [-1, 1].
pub const TRIG_SCALE: u64 = 1_000_000;

/// Rational approximation of `sin` on a half turn, scaled by
/// `TRIG_SCALE`: for an angle of `x` thousandths of a degree in
/// [0, 180000], the value `4 p / (40500e6 - p)` with
/// `p = x (180000 - x)`, never exceeding the scale.
pub open spec fn spec_sin_half_turn(x: nat) -> nat
    recommends
        x <= 180_000,
{
    ((4 * TRIG_SCALE as int * (x * (180_000 - x))) / (40_500_000_000 - x * (180_000 - x))) as nat
}

/// Cosine of a turn fraction given in millionths, scaled by
/// `TRIG_SCALE`: shifts by a quarter turn and applies the half-turn
/// sine with sign.
pub open spec fn spec_cos_turn(f: nat) -> int
    recommends
        f < 1_000_000,
{
    let g = (f + 250_000) % 1_000_000;
    if g < 500_000 {
        spec_sin_half_turn(g * 9 / 25) as int
    } else {
        -(spec_sin_half_turn(((g - 500_000) * 9 / 25) as nat) as int)
    }
}

/// Sine of a turn fraction in millionths: the cosine a quarter turn
/// earlier.
pub open spec fn spec_sin_turn(f: nat) -> int
    recommends
        f < 1_000_000,
{
    spec_cos_turn((f + 750_000) % 1_000_000)
}

/// The half-turn sine approximation, with its range bound.
fn sin_half_turn(x_millideg: u64) -> (r: u64)
    requires
        x_millideg <= 180_000,
    ensures
        r == spec_sin_half_turn(x_millideg as nat),
        r <= TRIG_SCALE,
{
    proof {
        assert((x_millideg as int) * (180_000 - x_millideg as int) <= 8_100_000_000)
            by (nonlinear_arith)
            requires
                0 <= x_millideg <= 180_000,
        ;
    }
    let p = x_millideg * (180_000 - x_millideg);
    proof {
        let d = 40_500_000_000 - p as int;
        assert(TRIG_SCALE == 1_000_000);
        assert(4 * (TRIG_SCALE as int) * (p as int) <= (TRIG_SCALE as int) * d) by (nonlinear_arith)
            requires
                TRIG_SCALE == 1_000_000,
                0 <= p <= 8_100_000_000,
                d == 40_500_000_000 - p as int,
        ;
        lemma_div_is_ordered(4 * (TRIG_SCALE as int) * (p as int), (TRIG_SCALE as int) * d, d);
        lemma_div_multiples_vanish(TRIG_SCALE as int, d);
    }
    4 * TRIG_SCALE * p / (40_500_000_000 - p)
}

/// Scaled cosine of a turn fraction given in millionths.
fn cos_turn(f_millionths: u64) -> (r: i64)
    requires
        f_millionths < 1_000_000,
    ensures
        r == spec_cos_turn(f_millionths as nat),
        -(TRIG_SCALE as i64) <= r <= TRIG_SCALE as i64,
{
    let g = (f_millionths + 250_000) % 1_000_000;
    if g < 500_000 {
        sin_half_turn(g * 9 / 25) as i64
    } else {
        -(sin_half_turn((g - 500_000) * 9 / 25) as i64)
    }
}

/// Scaled sine of a turn fraction given in millionths.
fn sin_turn(f_millionths: u64) -> (r: i64)
    requires
        f_millionths < 1_000_000,
    ensures
        r == spec_sin_turn(f_millionths as nat),
        -(TRIG_SCALE as i64) <= r <= TRIG_SCALE as i64,
{
    cos_turn((f_millionths + 750_000) % 1_000_000)
}

/// Earth–Moon center distance at a moment of the anomalistic cycle:
/// the mean of perigee and apogee, swung by their half-spread times
/// the cosine of the cycle fraction (the swing's magnitude rounded
/// down to whole hectometers).
pub open spec fn spec_center_distance_hm(t_uday: nat) -> int {
    let avg = ((EARTH_MOON_APOGEE_HM + EARTH_MOON_PERIGEE_HM) / 2) as int;
    let amp = ((EARTH_MOON_APOGEE_HM - EARTH_MOON_PERIGEE_HM) / 2) as int;
    let frac = (t_uday * 1_000_000 / ANOMALISTIC_MONTH_UDAY as nat) % 1_000_000;
    let c = spec_cos_turn(frac);
    if c >= 0 {
        avg - amp * c / TRIG_SCALE as int
    } else {
        avg + amp * (-c) / TRIG_SCALE as int
    }
}

/// Earth–Moon center distance `t_uday` millionths of a day into the
/// cycle, in hectometers; always between perigee and apogee.
pub fn orbital_center_distance_hm(t_uday: u64) -> (r: u64)
    requires
        t_uday <= 100_000_000,
    ensures
        r == spec_center_distance_hm(t_uday as nat),
        EARTH_MOON_PERIGEE_HM <= r <= EARTH_MOON_APOGEE_HM,
{
    let frac = (t_uday * 1_000_000 / ANOMALISTIC_MONTH_UDAY) % 1_000_000;
    let c = cos_turn(frac);
    let avg = (EARTH_MOON_APOGEE_HM + EARTH_MOON_PERIGEE_HM) / 2;
    let amp = (EARTH_MOON_APOGEE_HM - EARTH_MOON_PERIGEE_HM) / 2;
    proof {
        assert(avg == 3_844_000 && amp == 211_000 && TRIG_SCALE == 1_000_000);
    }
    if c >= 0 {
        let swing = amp * (c as u64) / TRIG_SCALE;
        proof {
            lemma_div_is_ordered(
                amp as int * (c as int),
                amp as int * TRIG_SCALE as int,
                TRIG_SCALE as int,
            );
            lemma_div_multiples_vanish(amp as int, TRIG_SCALE as int);
        }
        avg - swing
    } else {
        let swing = amp * ((-c) as u64) / TRIG_SCALE;
        proof {
            lemma_div_is_ordered(
                amp as int * ((-c) as int),
                amp as int * TRIG_SCALE as int,
                TRIG_SCALE as int,
            );
            lemma_div_multiples_vanish(amp as int, TRIG_SCALE as int);
        }
        avg + swing
    }
}

/// Surface-to-surface distance for a given center distance: both
/// bodies' radii subtracted, hectometers.
pub open spec fn spec_surface_distance_hm(center_hm: nat) -> nat
    recommends
        center_hm >= EARTH_RADIUS_HM + MOON_RADIUS_HM,
{
    (center_hm - EARTH_RADIUS_HM as nat - MOON_RADIUS_HM as nat) as nat
}

/// Surface-to-surface distance between Earth and Moon for a given
/// center distance.
pub fn surface_distance_hm(center_hm: u64) -> (r: u64)
    requires
        center_hm >= EARTH_RADIUS_HM + MOON_RADIUS_HM,
    ensures
        r == spec_surface_distance_hm(center_hm as nat),
{
    center_hm - EARTH_RADIUS_HM - MOON_RADIUS_HM
}

/// One-way light time over `d` hectometers of free space, in whole
/// microseconds.
pub open spec fn spec_one_way_us(d_hm: nat) -> nat {
    d_hm * 100_000_000 / SPEED_OF_LIGHT_M_PER_S as nat
}

/// One-way light time over a free-space distance in hectometers,
/// in microseconds.
pub fn one_way_us(d_hm: u64) -> (r: u64)
    requires
        d_hm <= 100_000_000,
    ensures
        r == spec_one_way_us(d_hm as nat),
{
    d_hm * 100_000_000 / SPEED_OF_LIGHT_M_PER_S
}

/// One-way light time, a moment `t_uday` into the anomalistic
/// cycle, over the Earth–Moon surface gap of that moment.
pub open spec fn spec_free_space_one_way_us(t_uday: nat) -> nat {
    spec_one_way_us(spec_surface_distance_hm(spec_center_distance_hm(t_uday) as nat))
}

/// Surface gap and one-way light time at a moment of the cycle.
fn free_space_sample(t_uday: u64) -> (r: (u64, u64))
    requires
        t_uday <= 100_000_000,
    ensures
        r.0 == spec_surface_distance_hm(spec_center_distance_hm(t_uday as nat) as nat),
        r.1 == spec_free_space_one_way_us(t_uday as nat),
        EARTH_MOON_PERIGEE_HM - EARTH_RADIUS_HM - MOON_RADIUS_HM <= r.0
            <= EARTH_MOON_APOGEE_HM - EARTH_RADIUS_HM - MOON_RADIUS_HM,
        r.1 <= 1_400_000,
{
    let center = orbital_center_distance_hm(t_uday);
    let surface = surface_distance_hm(center);
    let ow = one_way_us(surface);
    proof {
        lemma_div_is_ordered(
            surface as int * 100_000_000,
            3_973_916int * 100_000_000,
            SPEED_OF_LIGHT_M_PER_S as int,
        );
    }
    (surface, ow)
}

/// One row of the orbital-dynamics table: the state at the start of
/// day `3 i` of the cycle.
#[derive(Clone, Copy, Debug, PartialEq, Eq, Structural)]
pub struct OrbitalSample {
    pub day: u64,
    pub surface_hm: u64,
    pub one_way_us: u64,
    pub rtt_us: u64,
}

/// The orbital-dynamics table row for index `i`: day `3 i`.
pub open spec fn spec_orbital_sample(i: nat) -> OrbitalSample {
    let t = 3 * i * 1_000_000;
    let surface = spec_surface_distance_hm(spec_center_distance_hm(t) as nat);
    let ow = spec_one_way_us(surface);
    OrbitalSample {
        day: (3 * i) as u64,
        surface_hm: surface as u64,
        one_way_us: ow as u64,
        rtt_us: (2 * ow) as u64,
    }
}

/// Monthly Earth–Moon distance variation, sampled every third day,
/// with the round-trip swing over the cycle.
pub struct OrbitalDynamicsReport {
    pub samples: Vec<OrbitalSample>,
    pub min_rtt_us: u64,
    pub max_rtt_us: u64,
}

/// The orbital report holds exactly the ten three-day samples, and
/// its extremes are attained over them.
pub open spec fn orbital_report_ok(r: OrbitalDynamicsReport) -> bool {
    &&& r.samples@.len() == 10
    &&& forall|i: int| 0 <= i < 10 ==> #[trigger] r.samples@[i] == spec_orbital_sample(i as nat)
    &&& exists|i: int| 0 <= i < 10 && #[trigger] r.samples@[i].rtt_us == r.min_rtt_us
    &&& exists|i: int| 0 <= i < 10 && #[trigger] r.samples@[i].rtt_us == r.max_rtt_us
    &&& forall|i: int| 0 <= i < 10 ==> r.min_rtt_us <= #[trigger] r.samples@[i].rtt_us
    &&& forall|i: int| 0 <= i < 10 ==> r.max_rtt_us >= #[trigger] r.samples@[i].rtt_us
}

/// Tabulates the Earth–Moon distance, one-way time and round trip
/// at the start of every third day of one anomalistic cycle.
pub fn orbital_dynamics_extension() -> (r: OrbitalDynamicsReport)
    ensures
        orbital_report_ok(r),
{
    let mut samples: Vec<OrbitalSample> = Vec::new();
    let mut min_rtt_us: u64 = 0;
    let mut max_rtt_us: u64 = 0;
    let mut i: usize = 0;
    while i < 10
        invariant
            0 <= i <= 10,
            samples@.len() == i,
            forall|j: int| 0 <= j < i ==> #[trigger] samples@[j] == spec_orbital_sample(j as nat),
            i > 0 ==> exists|j: int| 0 <= j < i && #[trigger] samples@[j].rtt_us == min_rtt_us,
            i > 0 ==> exists|j: int| 0 <= j < i && #[trigger] samples@[j].rtt_us == max_rtt_us,
            forall|j: int| 0 <= j < i ==> min_rtt_us <= #[trigger] samples@[j].rtt_us,
            forall|j: int| 0 <= j < i ==> max_rtt_us >= #[trigger] samples@[j].rtt_us,
        decreases 10 - i,
    {
        let day = 3 * (i as u64);
        let t_uday = day * 1_000_000;
        let (surface_hm, one_way) = free_space_sample(t_uday);
        let rtt_us = 2 * one_way;
        let sample = OrbitalSample { day, surface_hm, one_way_us: one_way, rtt_us };
        proof {
            assert(sample == spec_orbital_sample(i as nat));
        }
        if i == 0 {
            min_rtt_us = rtt_us;
            max_rtt_us = rtt_us;
        } else {
            if rtt_us < min_rtt_us {
                min_rtt_us = rtt_us;
            }
            if rtt_us > max_rtt_us {
                max_rtt_us = rtt_us;
            }
        }
        let ghost old_samples = samples@;
        samples.push(sample);
        proof {
            let n = i as int;
            assert(samples@[n] == sample);
            if min_rtt_us == rtt_us {
                assert(samples@[n].rtt_us == min_rtt_us);
            } else {
                let j = choose|j: int| 0 <= j < n && old_samples[j].rtt_us == min_rtt_us;
                assert(samples@[j].rtt_us == min_rtt_us);
            }
            if max_rtt_us == rtt_us {
                assert(samples@[n].rtt_us == max_rtt_us);
            } else {
                let j = choose|j: int| 0 <= j < n && old_samples[j].rtt_us == max_rtt_us;
                assert(samples@[j].rtt_us == max_rtt_us);
            }
        }
        i += 1;
    }
    OrbitalDynamicsReport { samples, min_rtt_us, max_rtt_us }
}

/// Fraction of the anomalistic cycle `hour` hours in, in millionths
/// of a day.
pub open spec fn spec_hour_uday(hour: nat) -> nat {
    hour * 1_000_000 / 24
}

/// Sub-Earth longitude at that hour, thousandths of a degree: the
/// longitude libration swings it sinusoidally over the sidereal
/// month (the swing's magnitude rounded down).
pub open spec fn spec_sub_earth_millideg(hour: nat) -> int {
    let frac = (spec_hour_uday(hour) * 1_000_000 / SIDEREAL_MONTH_UDAY as nat) % 1_000_000;
    let sn = spec_sin_turn(frac);
    if sn >= 0 {
        LIBRATION_AMPLITUDE_MILLIDEG as int * sn / TRIG_SCALE as int
    } else {
        -(LIBRATION_AMPLITUDE_MILLIDEG as int * (-sn) / TRIG_SCALE as int)
    }
}

/// The lunar site sees Earth at that hour: its angular separation
/// from the sub-Earth point stays within a quarter turn.
///
/// The separation is tested one-sidedly, with no wrap-around or
/// absolute value: the sub-Earth longitude swings only within the
/// libration amplitude, so the difference below always lies between
/// zero and a half turn.  That holds for any site longitude between
/// the amplitude and 180 degrees minus it; a site constant outside
/// that band would need the general normalize-and-take-magnitude
/// test instead.
pub open spec fn spec_hour_visible(hour: nat) -> bool {
    LUNAR_SITE_LONGITUDE_MILLIDEG as int - spec_sub_earth_millideg(hour) <= 90_000
}

/// One-way light time at that hour.
pub open spec fn spec_hour_one_way_us(hour: nat) -> nat {
    spec_free_space_one_way_us(spec_hour_uday(hour))
}

/// Hours visible among the first `n` hourly samples.
pub open spec fn spec_visible_hours(n: nat) -> nat
    decreases n,
{
    if n == 0 {
        0
    } else {
        spec_visible_hours((n - 1) as nat) + if spec_hour_visible((n - 1) as nat) {
            1nat
        } else {
            0nat
        }
    }
}

/// Summed one-way times over the visible hours among the first `n`.
pub open spec fn spec_direct_sum_us(n: nat) -> nat
    decreases n,
{
    if n == 0 {
        0
    } else {
        spec_direct_sum_us((n - 1) as nat) + if spec_hour_visible((n - 1) as nat) {
            spec_hour_one_way_us((n - 1) as nat)
        } else {
            0
        }
    }
}

/// Summed one-way times through the relay over the first `n` hours:
/// every hour is served, at the direct time plus the relay detour.
pub open spec fn spec_relay_sum_us(n: nat) -> nat
    decreases n,
{
    if n == 0 {
        0
    } else {
        spec_relay_sum_us((n - 1) as nat) + spec_hour_one_way_us((n - 1) as nat) + spec_one_way_us(
            RELAY_EXTRA_PATH_HM as nat,
        )
    }
}

/// Line-of-sight outages for the far-side site over 28 days sampled
/// hourly, and what the relay trades: coverage recovered for a fixed
/// extra one-way delay.
pub struct LineOfSightReport {
    pub total_hours: u64,
    pub visible_hours: u64,
    pub direct_uptime_permille: u64,
    pub direct_avg_one_way_us: u64,
    pub relay_avg_one_way_us: u64,
    pub relay_penalty_one_way_us: u64,
    pub relay_uptime_permille: u64,
}

/// The line-of-sight report aggregates exactly the 672 hourly
/// samples.
pub open spec fn line_of_sight_report_ok(r: LineOfSightReport) -> bool {
    &&& r.total_hours == 672
    &&& r.visible_hours == spec_visible_hours(672)
    &&& r.direct_uptime_permille == spec_visible_hours(672) * 1000 / 672
    &&& r.direct_avg_one_way_us == (if spec_visible_hours(672) > 0 {
        spec_direct_sum_us(672) / spec_visible_hours(672)
    } else {
        0
    })
    &&& r.relay_avg_one_way_us == spec_relay_sum_us(672) / 672
    &&& r.relay_penalty_one_way_us == spec_one_way_us(RELAY_EXTRA_PATH_HM as nat)
    &&& r.relay_uptime_permille == RELAY_ASSUMED_UPTIME_PERMILLE
}

/// The visibility and one-way time of one hourly sample.
fn hour_sample(hour: u64) -> (r: (u64, bool))
    requires
        hour < 672,
    ensures
        r.0 == spec_hour_one_way_us(hour as nat),
        r.1 == spec_hour_visible(hour as nat),
        r.0 <= 1_400_000,
{
    let t_uday = hour * 1_000_000 / 24;
    let (_surface, ow) = free_space_sample(t_uday);
    let frac = (t_uday * 1_000_000 / SIDEREAL_MONTH_UDAY) % 1_000_000;
    let sn = sin_turn(frac);
    let sub_millideg: i64 = if sn >= 0 {
        (LIBRATION_AMPLITUDE_MILLIDEG * (sn as u64) / TRIG_SCALE) as i64
    } else {
        proof {
            lemma_div_is_ordered(
                LIBRATION_AMPLITUDE_MILLIDEG as int * (-sn) as int,
                LIBRATION_AMPLITUDE_MILLIDEG as int * TRIG_SCALE as int,
                TRIG_SCALE as int,
            );
            lemma_div_multiples_vanish(LIBRATION_AMPLITUDE_MILLIDEG as int, TRIG_SCALE as int);
        }
        -((LIBRATION_AMPLITUDE_MILLIDEG * ((-sn) as u64) / TRIG_SCALE) as i64)
    };
    let visible = (LUNAR_SITE_LONGITUDE_MILLIDEG as i64) - sub_millideg <= 90_000;
    (ow, visible)
}

/// Samples 28 days hourly: how often the far-side site sees Earth
/// directly, its average one-way time when it does, and the relay's
/// averages and fixed detour cost.
pub fn line_of_sight_extension() -> (r: LineOfSightReport)
    ensures
        line_of_sight_report_ok(r),
{
    let mut visible_hours: u64 = 0;
    let mut direct_sum_us: u64 = 0;
    let mut relay_sum_us: u64 = 0;
    let relay_penalty_us = one_way_us(RELAY_EXTRA_PATH_HM);
    proof {
        lemma_div_is_ordered(
            RELAY_EXTRA_PATH_HM as int * 100_000_000,
            120_000int * 100_000_000,
            SPEED_OF_LIGHT_M_PER_S as int,
        );
    }
    let mut hour: u64 = 0;
    while hour < 672
        invariant
            0 <= hour <= 672,
            visible_hours == spec_visible_hours(hour as nat),
            visible_hours <= hour,
            direct_sum_us == spec_direct_sum_us(hour as nat),
            direct_sum_us <= hour * 1_400_000,
            relay_sum_us == spec_relay_sum_us(hour as nat),
            relay_sum_us <= hour * 1_450_000,
            relay_penalty_us == spec_one_way_us(RELAY_EXTRA_PATH_HM as nat),
            relay_penalty_us <= 41_000,
        decreases 672 - hour,
    {
        let (ow, visible) = hour_sample(hour);
        if visible {
            visible_hours = visible_hours + 1;
            direct_sum_us = direct_sum_us + ow;
        }
        relay_sum_us = relay_sum_us + ow + relay_penalty_us;
        hour = hour + 1;
    }
    let direct_avg = if visible_hours > 0 {
        direct_sum_us / visible_hours
    } else {
        0
    };
    LineOfSightReport {
        total_hours: 672,
        visible_hours,
        direct_uptime_permille: visible_hours * 1000 / 672,
        direct_avg_one_way_us: direct_avg,
        relay_avg_one_way_us: relay_sum_us / 672,
        relay_penalty_one_way_us: relay_penalty_us,
        relay_uptime_permille: RELAY_ASSUMED_UPTIME_PERMILLE,
    }
}

/// Average contact wait assumed for scheduled store-and-forward
/// transfer, microseconds: seven and a half minutes.
pub const SCHEDULED_CONTACT_WAIT_US: u64 = 450_000_000;

/// Protocol startup costs over the mean Earth–Moon round trip.
pub struct ProtocolComparisonReport {
    pub baseline_surface_hm: u64,
    pub one_way_us: u64,
    pub rtt_us: u64,
    pub tls12_startup_us: u64,
    pub tls13_startup_us: u64,
    pub quic_1rtt_startup_us: u64,
    pub quic_0rtt_startup_us: u64,
    pub scheduled_transfer_total_us: u64,
}

/// The protocol report derives every figure from the mean surface
/// gap: startups of four, three, two and one round trips, and the
/// scheduled transfer's wait plus one-way delivery.
pub open spec fn protocol_report_ok(r: ProtocolComparisonReport) -> bool {
    let surface = spec_surface_distance_hm(EARTH_MOON_AVG_HM as nat);
    let ow = spec_one_way_us(surface);
    &&& r.baseline_surface_hm == surface
    &&& r.one_way_us == ow
    &&& r.rtt_us == 2 * ow
    &&& r.tls12_startup_us == 4 * (2 * ow)
    &&& r.tls13_startup_us == 3 * (2 * ow)
    &&& r.quic_1rtt_startup_us == 2 * (2 * ow)
    &&& r.quic_0rtt_startup_us == 2 * ow
    &&& r.scheduled_transfer_total_us == SCHEDULED_CONTACT_WAIT_US + ow
}

/// Compares protocol startup costs to first response byte over the
/// mean Earth–Moon separation.
pub fn protocol_comparison_extension() -> (r: ProtocolComparisonReport)
    ensures
        protocol_report_ok(r),
{
    let surface = surface_distance_hm(EARTH_MOON_AVG_HM);
    let ow = one_way_us(surface);
    proof {
        lemma_div_is_ordered(
            surface as int * 100_000_000,
            3_762_916int * 100_000_000,
            SPEED_OF_LIGHT_M_PER_S as int,
        );
    }
    let rtt = 2 * ow;
    ProtocolComparisonReport {
        baseline_surface_hm: surface,
        one_way_us: ow,
        rtt_us: rtt,
        tls12_startup_us: 4 * rtt,
        tls13_startup_us: 3 * rtt,
        quic_1rtt_startup_us: 2 * rtt,
        quic_0rtt_startup_us: rtt,
        scheduled_transfer_total_us: SCHEDULED_CONTACT_WAIT_US + ow,
    }
}

/// The three Earth–Moon analyses together, ready for a reporting
/// layer to format.
pub struct ExtensionsReport {
    pub orbital: OrbitalDynamicsReport,
    pub line_of_sight: LineOfSightReport,
    pub protocols: ProtocolComparisonReport,
}

/// Computes the three Earth–Moon what-if tables — orbital dynamics,
/// line-of-sight outages with and without a relay, and protocol
/// startup comparison — whose printable content a reporting layer
/// writes out.
pub fn print_top_three_extensions() -> (r: ExtensionsReport)
    ensures
        orbital_report_ok(r.orbital),
        line_of_sight_report_ok(r.line_of_sight),
        protocol_report_ok(r.protocols),
{
    ExtensionsReport {
        orbital: orbital_dynamics_extension(),
        line_of_sight: line_of_sight_extension(),
        protocols: protocol_comparison_extension(),
    }
}

} // verus!
