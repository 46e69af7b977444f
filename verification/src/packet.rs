//! Packets, scheduled events, and the protocol reply table.
//!
//! A packet is immutable; it travels by being wrapped in successive
//! events.  Each event carries, besides its timestamp and payload, a
//! ghost record of the hops the packet has taken so far, which is what
//! lets the engine prove that a recorded latency dominates the summed
//! propagation latencies of the links actually traversed.

use vstd::prelude::*;

use crate::topology::NetworkLink;

verus! {

/// Protocol tag of a packet; decides the automatic reply sent when it
/// reaches its destination.
#[derive(Clone, Copy, Debug, PartialEq, Eq, Structural)]
pub enum PacketType {
    Standard,
    TcpSyn,
    TcpSynAck,
    TcpAck,
    CdnRequest,
    CdnResponse,
}

/// One unit of traffic.  Immutable once injected.
#[derive(Clone, Copy, Debug, PartialEq, Eq, Structural)]
pub struct DataPacket {
    pub id: usize,
    pub source_id: usize,
    pub destination_id: usize,
    pub size_bytes: usize,
    pub created_at_ns: u64,
    pub packet_type: PacketType,
}

/// What a scheduled occurrence means for the packet it carries.
#[derive(Clone, Copy, Debug, PartialEq, Eq, Structural)]
pub enum EventType {
    /// The packet reaches the node: either its destination, or an
    /// intermediate hop that will process and forward it.
    PacketArrival(usize),
    /// The node has finished local processing and is ready to hand
    /// the packet to the next link.
    PacketTransmissionComplete(usize),
}

/// One traversed link, as recorded in an event's ghost hop log.
#[derive(Clone, Copy, Debug, PartialEq, Eq, Structural)]
pub struct Hop {
    pub from: usize,
    pub to: usize,
    pub latency_ns: u64,
}

/// A scheduled occurrence.  Events are ordered by timestamp; equal
/// timestamps are broken by `seq`, the order of scheduling, so the
/// engine is deterministic.
pub struct Event {
    pub time_ns: u64,
    /// Scheduling order, unique among pending events; the documented
    /// first-in-first-out tie-break for equal timestamps.
    pub seq: u64,
    pub packet: DataPacket,
    pub event_type: EventType,
    /// The links the packet has traversed so far, oldest first.
    pub hops: Ghost<Seq<Hop>>,
}

/// The node an event happens at.
pub open spec fn event_node(et: EventType) -> usize {
    match et {
        EventType::PacketArrival(n) => n,
        EventType::PacketTransmissionComplete(n) => n,
    }
}

/// The fixed one-level request/reply automaton: the tag of an arriving
/// packet determines at most one scripted reply and its size in bytes.
pub open spec fn spec_auto_reply(t: PacketType) -> Option<(PacketType, usize)> {
    match t {
        PacketType::TcpSyn => Some((PacketType::TcpSynAck, 64)),
        PacketType::TcpSynAck => Some((PacketType::TcpAck, 64)),
        PacketType::CdnRequest => Some((PacketType::CdnResponse, 1024)),
        _ => None,
    }
}

/// How many further packets a packet of tag `t` can still give rise
/// to, counting itself: each scripted reply strictly lowers it, which
/// bounds every reply chain.
pub open spec fn reply_chain(t: PacketType) -> nat {
    match t {
        PacketType::TcpSyn => 2,
        PacketType::TcpSynAck => 1,
        PacketType::CdnRequest => 1,
        _ => 0,
    }
}

/// The automatic reply owed when a packet of tag `t` is finalized at
/// its destination, per the fixed protocol table.
pub fn auto_reply(t: PacketType) -> (r: Option<(PacketType, usize)>)
    ensures
        r == spec_auto_reply(t),
{
    match t {
        PacketType::TcpSyn => Some((PacketType::TcpSynAck, 64)),
        PacketType::TcpSynAck => Some((PacketType::TcpAck, 64)),
        PacketType::CdnRequest => Some((PacketType::CdnResponse, 1024)),
        _ => None,
    }
}

/// A hop is real: some link of the topology has its endpoints and its
/// propagation latency.
pub open spec fn hop_in_links(links: Seq<NetworkLink>, h: Hop) -> bool {
    exists|k: int|
        0 <= k < links.len() && links[k].from == h.from && links[k].to == h.to
            && links[k].latency_ns == h.latency_ns
}

/// The hop log is a connected chain of real links from `source` to
/// `node` (or empty, with the packet still at its source).
pub open spec fn hops_ok(hops: Seq<Hop>, source: usize, node: usize, links: Seq<NetworkLink>) -> bool {
    &&& if hops.len() == 0 {
        node == source
    } else {
        hops[0].from == source && hops[hops.len() - 1].to == node
    }
    &&& forall|i: int| 0 <= i < hops.len() - 1 ==> #[trigger] hops[i].to == hops[i + 1].from
    &&& forall|i: int| 0 <= i < hops.len() ==> hop_in_links(links, #[trigger] hops[i])
}

/// Summed propagation latency of a hop log.
pub open spec fn hops_latency_sum(hops: Seq<Hop>) -> nat
    decreases hops.len(),
{
    if hops.len() == 0 {
        0
    } else {
        hops_latency_sum(hops.drop_last()) + hops.last().latency_ns as nat
    }
}

/// Appending links to the topology never invalidates a hop log.
pub proof fn lemma_hops_ok_extend(
    hops: Seq<Hop>,
    source: usize,
    node: usize,
    links: Seq<NetworkLink>,
    more: Seq<NetworkLink>,
)
    requires
        hops_ok(hops, source, node, links),
        links.is_prefix_of(more),
    ensures
        hops_ok(hops, source, node, more),
{
    assert forall|i: int| 0 <= i < hops.len() implies hop_in_links(more, #[trigger] hops[i]) by {
        let k = choose|k: int|
            0 <= k < links.len() && links[k].from == hops[i].from && links[k].to == hops[i].to
                && links[k].latency_ns == hops[i].latency_ns;
        assert(more[k] == links[k]);
    }
}

/// A hop log stays valid when the topology's links only change in
/// their queue horizons.
pub proof fn lemma_hops_ok_same_edges(
    hops: Seq<Hop>,
    source: usize,
    node: usize,
    links: Seq<NetworkLink>,
    other: Seq<NetworkLink>,
)
    requires
        hops_ok(hops, source, node, links),
        other.len() == links.len(),
        forall|k: int|
            0 <= k < links.len() ==> (#[trigger] other[k]).from == links[k].from && other[k].to
                == links[k].to && other[k].latency_ns == links[k].latency_ns,
    ensures
        hops_ok(hops, source, node, other),
{
    assert forall|i: int| 0 <= i < hops.len() implies hop_in_links(other, #[trigger] hops[i]) by {
        let k = choose|k: int|
            0 <= k < links.len() && links[k].from == hops[i].from && links[k].to == hops[i].to
                && links[k].latency_ns == hops[i].latency_ns;
        assert(other[k].from == hops[i].from && other[k].to == hops[i].to && other[k].latency_ns
            == hops[i].latency_ns);
    }
}

} // verus!
