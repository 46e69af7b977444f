//! Scripted demonstrations of three networking effects the engine
//! reproduces: bufferbloat on a shared link, the round-trip cost of a
//! connection handshake, and the gain from serving content at a
//! nearby edge instead of a distant origin.  Each one only injects
//! traffic; the caller then runs the simulation and reads the results.

use vstd::prelude::*;

use crate::packet::PacketType;
use crate::replay::{lemma_inject_matches, sim_v, spec_inject_v, SimV};
use crate::sim::{horizons_advanced, inject_post, links_statics_match, NetworkSimulation};

verus! {

/// The burst size `demonstrate_bufferbloat` sends, in bytes.
pub const BUFFERBLOAT_PACKET_BYTES: usize = 10_000_000;

/// How many packets `demonstrate_bufferbloat` sends.
pub const BUFFERBLOAT_PACKET_COUNT: usize = 10;

/// The state after `n` burst injections back to back: the n-fold
/// iterate of the injection relation with the burst's fixed size and
/// tag.  `demonstrate_bufferbloat` ends in exactly this state.
pub open spec fn inject_n_v(s: SimV, source: usize, destination: usize, n: nat) -> SimV
    decreases n,
{
    if n == 0 {
        s
    } else {
        spec_inject_v(
            inject_n_v(s, source, destination, (n - 1) as nat),
            source,
            destination,
            BUFFERBLOAT_PACKET_BYTES,
            PacketType::Standard,
        )
    }
}

pub struct TheoryTests;

impl TheoryTests {
    /// Queuing theory: a burst of large packets injected at one
    /// instant serializes on the first link, so completion latencies
    /// grow with injection order even though bandwidth elsewhere is
    /// unlimited.  Injects ten 10-megabyte packets back to back.
    pub fn demonstrate_bufferbloat(sim: &mut NetworkSimulation, source: usize, destination: usize)
        requires
            old(sim).wf(),
        ensures
            final(sim).wf(),
            final(sim).servers@ == old(sim).servers@,
            final(sim).clients@ == old(sim).clients@,
            final(sim).completed_packets@ == old(sim).completed_packets@,
            final(sim).current_time_ns == old(sim).current_time_ns,
            links_statics_match(old(sim).links@, final(sim).links@),
            horizons_advanced(old(sim).links@, final(sim).links@),
            final(sim).event_queue@.len() >= old(sim).event_queue@.len(),
            final(sim).event_queue@.len() <= old(sim).event_queue@.len()
                + BUFFERBLOAT_PACKET_COUNT,
            forall|i: int|
                0 <= i < old(sim).event_queue@.len() ==> #[trigger] final(sim).event_queue@[i]
                    == old(sim).event_queue@[i],
            forall|i: int|
                old(sim).event_queue@.len() <= i < final(sim).event_queue@.len() ==> {
                    let e = #[trigger] final(sim).event_queue@[i];
                    &&& e.packet.size_bytes == BUFFERBLOAT_PACKET_BYTES
                    &&& e.packet.packet_type == PacketType::Standard
                    &&& e.packet.source_id == source
                    &&& e.packet.destination_id == destination
                    &&& e.packet.created_at_ns == old(sim).current_time_ns
                },
            sim_v(*final(sim)) == inject_n_v(
                sim_v(*old(sim)),
                source,
                destination,
                BUFFERBLOAT_PACKET_COUNT as nat,
            ),
    {
        let mut sent: usize = 0;
        while sent < BUFFERBLOAT_PACKET_COUNT
            invariant
                0 <= sent <= BUFFERBLOAT_PACKET_COUNT,
                sim.wf(),
                sim.servers@ == old(sim).servers@,
                sim.clients@ == old(sim).clients@,
                sim.completed_packets@ == old(sim).completed_packets@,
                sim.current_time_ns == old(sim).current_time_ns,
                links_statics_match(old(sim).links@, sim.links@),
                horizons_advanced(old(sim).links@, sim.links@),
                sim.event_queue@.len() >= old(sim).event_queue@.len(),
                sim.event_queue@.len() <= old(sim).event_queue@.len() + sent,
                forall|i: int|
                    0 <= i < old(sim).event_queue@.len() ==> #[trigger] sim.event_queue@[i]
                        == old(sim).event_queue@[i],
                forall|i: int|
                    old(sim).event_queue@.len() <= i < sim.event_queue@.len() ==> {
                        let e = #[trigger] sim.event_queue@[i];
                        &&& e.packet.size_bytes == BUFFERBLOAT_PACKET_BYTES
                        &&& e.packet.packet_type == PacketType::Standard
                        &&& e.packet.source_id == source
                        &&& e.packet.destination_id == destination
                        &&& e.packet.created_at_ns == old(sim).current_time_ns
                    },
                sim_v(*sim) == inject_n_v(sim_v(*old(sim)), source, destination, sent as nat),
            decreases BUFFERBLOAT_PACKET_COUNT - sent,
        {
            let ghost qpre = sim.event_queue@;
            let ghost before = *sim;
            sim.send_packet_ex(
                source,
                destination,
                BUFFERBLOAT_PACKET_BYTES,
                PacketType::Standard,
            );
            proof {
                if sim.event_queue@ != qpre {
                    assert(sim.event_queue@.drop_last() == qpre);
                    assert forall|i: int|
                        0 <= i < qpre.len() implies #[trigger] sim.event_queue@[i] == qpre[i] by {
                        assert(sim.event_queue@.drop_last()[i] == qpre[i]);
                    }
                }
                lemma_inject_matches(
                    before,
                    *sim,
                    source,
                    destination,
                    BUFFERBLOAT_PACKET_BYTES,
                    PacketType::Standard,
                );
                assert(inject_n_v(sim_v(*old(sim)), source, destination, (sent + 1) as nat)
                    == spec_inject_v(
                    inject_n_v(sim_v(*old(sim)), source, destination, sent as nat),
                    source,
                    destination,
                    BUFFERBLOAT_PACKET_BYTES,
                    PacketType::Standard,
                ));
                assert(sim_v(*sim) == inject_n_v(
                    sim_v(*old(sim)),
                    source,
                    destination,
                    (sent + 1) as nat,
                ));
            }
            sent += 1;
        }
    }

    /// The round-trip tax: establishing a connection costs whole
    /// round trips before any payload moves.  Injects one 64-byte
    /// handshake-open packet; the engine's protocol hooks script the
    /// two replies that complete the exchange.
    pub fn demonstrate_tcp_handshake(
        sim: &mut NetworkSimulation,
        client_id: usize,
        server_id: usize,
    )
        requires
            old(sim).wf(),
        ensures
            final(sim).wf(),
            inject_post(*old(sim), *final(sim), client_id, server_id, 64, PacketType::TcpSyn),
    {
        sim.send_packet_ex(client_id, server_id, 64, PacketType::TcpSyn);
    }

    /// Edge placement: the same cache request is sent to a distant
    /// origin and to a nearby edge node; each destination replies
    /// automatically, and the completion times show the gap physics
    /// imposes on the distant one.
    pub fn demonstrate_cdn_solution(
        sim: &mut NetworkSimulation,
        client_id: usize,
        origin_id: usize,
        edge_id: usize,
    )
        requires
            old(sim).wf(),
        ensures
            final(sim).wf(),
            exists|mid: NetworkSimulation|
                #![trigger inject_post(*old(sim), mid, client_id, origin_id, 512, PacketType::CdnRequest)]
                inject_post(*old(sim), mid, client_id, origin_id, 512, PacketType::CdnRequest)
                    && inject_post(
                    mid,
                    *final(sim),
                    client_id,
                    edge_id,
                    512,
                    PacketType::CdnRequest,
                ),
    {
        sim.send_packet_ex(client_id, origin_id, 512, PacketType::CdnRequest);
        let ghost mid = *sim;
        sim.send_packet_ex(client_id, edge_id, 512, PacketType::CdnRequest);
        proof {
            assert(inject_post(*old(sim), mid, client_id, origin_id, 512, PacketType::CdnRequest));
        }
    }
}

} // verus!
