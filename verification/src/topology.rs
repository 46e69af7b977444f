//! Nodes, directed links, and the per-link serialization queue.
//!
//! A link carries a fixed one-way propagation latency derived from its
//! cable length, a bandwidth, and a mutable queue horizon: the
//! simulated time at which the link is free to start its next
//! transmission.  The horizon never moves backwards within a run.

use vstd::prelude::*;

use crate::physics::{
    spec_cable_length_m, spec_propagation_ns, spec_transmission_ns, cable_length_m,
    propagation_ns, transmission_ns, MAX_LINK_DISTANCE_M, MAX_PACKET_BYTES,
};

verus! {

/// A point on the surface, in millionths of a degree, with a display
/// name.  Held as setup data only: the engine never does spherical
/// trigonometry, it takes surface distances in meters from its caller.
pub struct GeoLocation {
    pub lat_microdeg: i64,
    pub lon_microdeg: i64,
    pub name: String,
}

/// A forwarding node with a fixed per-hop processing delay and an
/// egress bandwidth.
pub struct Server {
    pub id: usize,
    pub location: GeoLocation,
    pub processing_delay_ns: u64,
    pub bandwidth_bps: u64,
}

/// An endpoint node; forwards with no processing delay.
pub struct Client {
    pub id: usize,
    pub location: GeoLocation,
}

/// A caller error surfaced as a value rather than a panic.
#[derive(Clone, Copy, Debug, PartialEq, Eq, Structural)]
pub enum SimError {
    /// A node id referenced by a topology or injection call is absent.
    NodeNotFound(usize),
    /// A node id offered to `add_server` or `add_client` is already
    /// taken by some node.
    DuplicateNodeId(usize),
}

/// A directed edge of the network.
#[derive(Clone, Copy, Debug, PartialEq, Eq, Structural)]
pub struct NetworkLink {
    pub from: usize,
    pub to: usize,
    /// Real-world cable length in meters: the straight-line surface
    /// distance with the path-inefficiency multiplier applied.
    pub distance_m: u64,
    /// Fixed one-way propagation latency in nanoseconds, derived from
    /// `distance_m` and the signal speed in fiber.
    pub latency_ns: u64,
    /// Bits per second; always at least 1.
    pub bandwidth_bps: u64,
    /// Simulated time, in nanoseconds, at which the link becomes free
    /// to start serializing its next transmission.
    pub queue_horizon_ns: u64,
}

impl NetworkLink {
    /// The static part of a link's well-formedness: a positive
    /// bandwidth, and a cable short enough that every delay product
    /// stays inside `u64`.
    pub open spec fn wf(self) -> bool {
        &&& self.bandwidth_bps >= 1
        &&& self.distance_m <= 2 * MAX_LINK_DISTANCE_M
    }

    /// Builds a link from a straight-line surface distance: inflates
    /// the distance by the path-inefficiency multiplier, derives the
    /// propagation latency, and starts with a free queue.
    pub fn new(from_id: usize, to_id: usize, distance_m: u64, bandwidth_bps: u64) -> (r:
        NetworkLink)
        requires
            distance_m <= MAX_LINK_DISTANCE_M,
            bandwidth_bps >= 1,
        ensures
            r.wf(),
            r.from == from_id,
            r.to == to_id,
            r.distance_m == spec_cable_length_m(distance_m as nat),
            r.latency_ns == spec_propagation_ns(spec_cable_length_m(distance_m as nat)),
            r.bandwidth_bps == bandwidth_bps,
            r.queue_horizon_ns == 0,
    {
        let cable_m = cable_length_m(distance_m);
        let latency_ns = propagation_ns(cable_m);
        NetworkLink {
            from: from_id,
            to: to_id,
            distance_m: cable_m,
            latency_ns,
            bandwidth_bps,
            queue_horizon_ns: 0,
        }
    }

    /// Serialization delay of a packet of `size_bytes` on this link.
    pub fn transmission_time(&self, size_bytes: usize) -> (r: u64)
        requires
            self.wf(),
            size_bytes <= MAX_PACKET_BYTES,
        ensures
            r == spec_transmission_ns(size_bytes as nat, self.bandwidth_bps as nat),
    {
        transmission_ns(size_bytes, self.bandwidth_bps)
    }

    /// Reserves the link's next transmission slot for a packet of
    /// `size_bytes` requested at `request_time_ns`.
    ///
    /// The slot starts at `max(request_time_ns, queue_horizon_ns)`:
    /// a transmission never begins while an earlier one is still
    /// being serialized.  On success the result is the arrival time
    /// at the far end (slot start + propagation + serialization) and
    /// the serialization delay, and the queue horizon advances to the
    /// end of the slot (propagation occupies the medium, not the
    /// transmitter).  When the arrival time would exceed the
    /// representable range of simulated time, nothing is reserved and
    /// the link is unchanged.
    ///
    /// The queue horizon never decreases, whichever way the call ends.
    pub fn reserve_transmission(&mut self, request_time_ns: u64, size_bytes: usize) -> (r: Option<
        (u64, u64),
    >)
        requires
            old(self).wf(),
            size_bytes <= MAX_PACKET_BYTES,
        ensures
            final(self).wf(),
            final(self).from == old(self).from,
            final(self).to == old(self).to,
            final(self).distance_m == old(self).distance_m,
            final(self).latency_ns == old(self).latency_ns,
            final(self).bandwidth_bps == old(self).bandwidth_bps,
            final(self).queue_horizon_ns >= old(self).queue_horizon_ns,
            ({
                let start = if request_time_ns >= old(self).queue_horizon_ns {
                    request_time_ns as nat
                } else {
                    old(self).queue_horizon_ns as nat
                };
                let duration = spec_transmission_ns(
                    size_bytes as nat,
                    old(self).bandwidth_bps as nat,
                );
                match r {
                    Some((arrival_ns, duration_ns)) => {
                        &&& duration_ns == duration
                        &&& arrival_ns == start + old(self).latency_ns + duration
                        &&& final(self).queue_horizon_ns == start + duration
                    },
                    None => {
                        &&& start + old(self).latency_ns + duration > u64::MAX
                        &&& final(self).queue_horizon_ns == old(self).queue_horizon_ns
                    },
                }
            }),
    {
        let duration_ns = self.transmission_time(size_bytes);
        let start_ns = if request_time_ns >= self.queue_horizon_ns {
            request_time_ns
        } else {
            self.queue_horizon_ns
        };
        if start_ns <= u64::MAX - duration_ns {
            let slot_end_ns = start_ns + duration_ns;
            if slot_end_ns <= u64::MAX - self.latency_ns {
                let arrival_ns = slot_end_ns + self.latency_ns;
                self.queue_horizon_ns = slot_end_ns;
                return Some((arrival_ns, duration_ns));
            }
        }
        None
    }
}

} // verus!
