//! A ghost-level replay of the engine.
//!
//! `spec_step_v` is a mathematical function from an abstract
//! simulation state to the next one: it pops the unique earliest
//! event and dispatches it exactly as the engine does.  The engine's
//! run loop provably follows `run_n_v` of it, so two runs over
//! identical topology and injection order produce identical states —
//! the core holds no randomness and no arbitrary choice.

use vstd::prelude::*;

use crate::packet::{spec_auto_reply, DataPacket, EventType, Hop};
use crate::physics::spec_transmission_ns;
use crate::routing::{spec_first_link, spec_next_hop};
use crate::sim::{spec_server_delay_of, NetworkSimulation};
use crate::topology::{Client, NetworkLink, Server};

verus! {

/// A pending event, with its hop log as plain ghost data.
#[verifier::ext_equal]
pub ghost struct EventV {
    pub time_ns: u64,
    pub seq: u64,
    pub packet: DataPacket,
    pub event_type: EventType,
    pub hops: Seq<Hop>,
}

/// A completed record, with its hop log as plain ghost data.
#[verifier::ext_equal]
pub ghost struct CompletedV {
    pub packet: DataPacket,
    pub latency_ns: u64,
    pub hops: Seq<Hop>,
}

/// The whole engine state as mathematical data.
#[verifier::ext_equal]
pub ghost struct SimV {
    pub servers: Seq<Server>,
    pub clients: Seq<Client>,
    pub links: Seq<NetworkLink>,
    pub queue: Seq<EventV>,
    pub current_time_ns: u64,
    pub completed: Seq<CompletedV>,
    pub next_packet_id: usize,
    pub next_event_seq: u64,
}

/// Abstraction of one pending event.
pub open spec fn event_v(e: crate::packet::Event) -> EventV {
    EventV {
        time_ns: e.time_ns,
        seq: e.seq,
        packet: e.packet,
        event_type: e.event_type,
        hops: e.hops@,
    }
}

/// Abstraction of one completed record.
pub open spec fn completed_v(c: crate::sim::CompletedPacket) -> CompletedV {
    CompletedV { packet: c.packet, latency_ns: c.latency_ns, hops: c.hops@ }
}

/// Abstraction of the engine state.
pub open spec fn sim_v(s: NetworkSimulation) -> SimV {
    SimV {
        servers: s.servers@,
        clients: s.clients@,
        links: s.links@,
        queue: s.event_queue@.map_values(|e: crate::packet::Event| event_v(e)),
        current_time_ns: s.current_time_ns,
        completed: s.completed_packets@.map_values(
            |c: crate::sim::CompletedPacket| completed_v(c),
        ),
        next_packet_id: s.next_packet_id,
        next_event_seq: s.next_event_seq,
    }
}

/// The processing order on abstract events: earlier timestamp first,
/// earlier scheduling order among equals.
pub open spec fn event_le_v(a: EventV, b: EventV) -> bool {
    a.time_ns < b.time_ns || (a.time_ns == b.time_ns && a.seq <= b.seq)
}

/// Index of the earliest pending event.
/// `i` indexes an earliest event of `q`.
pub open spec fn is_earliest_index_v(q: Seq<EventV>, i: int) -> bool {
    0 <= i < q.len() && forall|j: int| 0 <= j < q.len() ==> event_le_v(q[i], #[trigger] q[j])
}

/// Index of the earliest pending event.
pub open spec fn earliest_index_v(q: Seq<EventV>) -> int {
    choose|i: int| is_earliest_index_v(q, i)
}

/// One injection, as a function of the state: exactly the relation
/// `inject_post`, in functional form.
pub open spec fn spec_inject_v(
    s: SimV,
    from: usize,
    to: usize,
    size_bytes: usize,
    p_type: crate::packet::PacketType,
) -> SimV {
    if s.next_packet_id == usize::MAX || s.next_event_seq == u64::MAX {
        s
    } else {
        match spec_next_hop(s.links, from, to) {
            None => s,
            Some(h) => {
                let j = spec_first_link(s.links, from, h);
                let start: nat = if s.current_time_ns >= s.links[j].queue_horizon_ns {
                    s.current_time_ns as nat
                } else {
                    s.links[j].queue_horizon_ns as nat
                };
                let dur = spec_transmission_ns(size_bytes as nat, s.links[j].bandwidth_bps as nat);
                let arrival = start + s.links[j].latency_ns as nat + dur;
                if arrival <= u64::MAX {
                    SimV {
                        links: s.links.update(
                            j,
                            NetworkLink {
                                queue_horizon_ns: (start + dur) as u64,
                                ..s.links[j]
                            },
                        ),
                        queue: s.queue.push(
                            EventV {
                                time_ns: arrival as u64,
                                seq: s.next_event_seq,
                                packet: DataPacket {
                                    id: s.next_packet_id,
                                    source_id: from,
                                    destination_id: to,
                                    size_bytes,
                                    created_at_ns: s.current_time_ns,
                                    packet_type: p_type,
                                },
                                event_type: EventType::PacketArrival(h),
                                hops: seq![
                                    Hop { from, to: h, latency_ns: s.links[j].latency_ns },
                                ],
                            },
                        ),
                        next_packet_id: (s.next_packet_id + 1) as usize,
                        next_event_seq: (s.next_event_seq + 1) as u64,
                        ..s
                    }
                } else {
                    s
                }
            },
        }
    }
}

/// One dispatch of an already-popped event `e`: the clock advances
/// to its timestamp, then the packet is finalized (with its scripted
/// reply), queued for local processing, or forwarded.
pub open spec fn spec_dispatch_v(s: SimV, e: EventV) -> SimV {
    let s1 = SimV { current_time_ns: e.time_ns, ..s };
    match e.event_type {
        EventType::PacketArrival(node_id) => {
            if node_id == e.packet.destination_id {
                let rec = CompletedV {
                    packet: e.packet,
                    latency_ns: (e.time_ns - e.packet.created_at_ns) as u64,
                    hops: e.hops,
                };
                let s2 = SimV { completed: s1.completed.push(rec), ..s1 };
                match spec_auto_reply(e.packet.packet_type) {
                    Some((reply_type, reply_size)) => spec_inject_v(
                        s2,
                        node_id,
                        e.packet.source_id,
                        reply_size,
                        reply_type,
                    ),
                    None => s2,
                }
            } else {
                let delay = spec_server_delay_of(s.servers, node_id);
                if s.next_event_seq < u64::MAX && delay <= u64::MAX - e.time_ns {
                    SimV {
                        queue: s1.queue.push(
                            EventV {
                                time_ns: (e.time_ns + delay) as u64,
                                seq: s.next_event_seq,
                                packet: e.packet,
                                event_type: EventType::PacketTransmissionComplete(node_id),
                                hops: e.hops,
                            },
                        ),
                        next_event_seq: (s.next_event_seq + 1) as u64,
                        ..s1
                    }
                } else {
                    s1
                }
            }
        },
        EventType::PacketTransmissionComplete(node_id) => {
            match spec_next_hop(s.links, node_id, e.packet.destination_id) {
                None => s1,
                Some(h) => {
                    if s.next_event_seq == u64::MAX {
                        s1
                    } else {
                        let j = spec_first_link(s.links, node_id, h);
                        let link = s.links[j];
                        let start: nat = if e.time_ns >= link.queue_horizon_ns {
                            e.time_ns as nat
                        } else {
                            link.queue_horizon_ns as nat
                        };
                        let dur = spec_transmission_ns(
                            e.packet.size_bytes as nat,
                            link.bandwidth_bps as nat,
                        );
                        let arrival = start + link.latency_ns as nat + dur;
                        if arrival <= u64::MAX {
                            SimV {
                                links: s.links.update(
                                    j,
                                    NetworkLink { queue_horizon_ns: (start + dur) as u64, ..link },
                                ),
                                queue: s1.queue.push(
                                    EventV {
                                        time_ns: arrival as u64,
                                        seq: s.next_event_seq,
                                        packet: e.packet,
                                        event_type: EventType::PacketArrival(h),
                                        hops: e.hops.push(
                                            Hop {
                                                from: node_id,
                                                to: h,
                                                latency_ns: link.latency_ns,
                                            },
                                        ),
                                    },
                                ),
                                next_event_seq: (s.next_event_seq + 1) as u64,
                                ..s1
                            }
                        } else {
                            s1
                        }
                    }
                },
            }
        },
    }
}

/// One scheduler step bounded by the horizon: `None` when the queue
/// is empty or its earliest event lies beyond it.
pub open spec fn spec_step_v(s: SimV, horizon_ns: u64) -> Option<SimV> {
    if s.queue.len() == 0 {
        None
    } else {
        let i = earliest_index_v(s.queue);
        if s.queue[i].time_ns > horizon_ns {
            None
        } else {
            Some(spec_dispatch_v(SimV { queue: s.queue.remove(i), ..s }, s.queue[i]))
        }
    }
}

/// The state `n` steps into a run; it stays put once stopped.
pub open spec fn run_n_v(s: SimV, horizon_ns: u64, n: nat) -> SimV
    decreases n,
{
    if n == 0 {
        s
    } else {
        let prev = run_n_v(s, horizon_ns, (n - 1) as nat);
        match spec_step_v(prev, horizon_ns) {
            None => prev,
            Some(next) => next,
        }
    }
}

/// The run has nothing left to do before the horizon.
pub open spec fn stopped_v(s: SimV, horizon_ns: u64) -> bool {
    spec_step_v(s, horizon_ns) is None
}

/// Abstracting a queue commutes with appending an event.
pub proof fn lemma_queue_v_push(q: Seq<crate::packet::Event>, e: crate::packet::Event)
    ensures
        q.push(e).map_values(|x: crate::packet::Event| event_v(x)) == q.map_values(
            |x: crate::packet::Event| event_v(x),
        ).push(event_v(e)),
{
    assert(q.push(e).map_values(|x: crate::packet::Event| event_v(x)) =~= q.map_values(
        |x: crate::packet::Event| event_v(x),
    ).push(event_v(e)));
}

/// Abstracting a queue commutes with removing an event.
pub proof fn lemma_queue_v_remove(q: Seq<crate::packet::Event>, i: int)
    requires
        0 <= i < q.len(),
    ensures
        q.remove(i).map_values(|x: crate::packet::Event| event_v(x)) == q.map_values(
            |x: crate::packet::Event| event_v(x),
        ).remove(i),
{
    assert(q.remove(i).map_values(|x: crate::packet::Event| event_v(x)) =~= q.map_values(
        |x: crate::packet::Event| event_v(x),
    ).remove(i));
}

/// Abstracting the completion log commutes with appending a record.
pub proof fn lemma_completed_v_push(
    c: Seq<crate::sim::CompletedPacket>,
    r: crate::sim::CompletedPacket,
)
    ensures
        c.push(r).map_values(|x: crate::sim::CompletedPacket| completed_v(x)) == c.map_values(
            |x: crate::sim::CompletedPacket| completed_v(x),
        ).push(completed_v(r)),
{
    assert(c.push(r).map_values(|x: crate::sim::CompletedPacket| completed_v(x)) =~= c.map_values(
        |x: crate::sim::CompletedPacket| completed_v(x),
    ).push(completed_v(r)));
}

/// Equal engine states abstract to one value.
pub proof fn lemma_sim_eq_v(a: NetworkSimulation, b: NetworkSimulation)
    requires
        crate::sim::sim_eq(a, b),
    ensures
        sim_v(a) == sim_v(b),
{
    assert(sim_v(a) =~= sim_v(b));
}

/// With pairwise distinct sequence numbers, the earliest pending
/// event is unique.
pub proof fn lemma_earliest_unique_v(q: Seq<EventV>, i1: int, i2: int)
    requires
        forall|i: int, j: int| 0 <= i < j < q.len() ==> q[i].seq != q[j].seq,
        is_earliest_index_v(q, i1),
        is_earliest_index_v(q, i2),
    ensures
        i1 == i2,
{
    assert(event_le_v(q[i1], q[i2]));
    assert(event_le_v(q[i2], q[i1]));
    if i1 < i2 {
        assert(q[i1].seq != q[i2].seq);
    } else if i2 < i1 {
        assert(q[i2].seq != q[i1].seq);
    }
}

/// The injection relation `inject_post`, which `send_packet_ex`
/// guarantees, determines the abstract state after an injection:
/// it is exactly `spec_inject_v` of the abstract state before.
pub proof fn lemma_inject_matches(
    pre: NetworkSimulation,
    post: NetworkSimulation,
    from: usize,
    to: usize,
    size_bytes: usize,
    p_type: crate::packet::PacketType,
)
    requires
        crate::sim::inject_post(pre, post, from, to, size_bytes, p_type),
    ensures
        sim_v(post) == spec_inject_v(sim_v(pre), from, to, size_bytes, p_type),
{
    let s = sim_v(pre);
    if pre.next_packet_id == usize::MAX || pre.next_event_seq == u64::MAX {
        lemma_sim_eq_v(post, pre);
    } else {
        match spec_next_hop(pre.links@, from, to) {
            None => {
                lemma_sim_eq_v(post, pre);
            },
            Some(h) => {
                let j = spec_first_link(pre.links@, from, h);
                let start: nat = if pre.current_time_ns >= pre.links@[j].queue_horizon_ns {
                    pre.current_time_ns as nat
                } else {
                    pre.links@[j].queue_horizon_ns as nat
                };
                let dur = spec_transmission_ns(
                    size_bytes as nat,
                    pre.links@[j].bandwidth_bps as nat,
                );
                let arrival = start + pre.links@[j].latency_ns as nat + dur;
                if arrival <= u64::MAX {
                    let e = post.event_queue@.last();
                    assert(post.event_queue@ =~= pre.event_queue@.push(e));
                    lemma_queue_v_push(pre.event_queue@, e);
                    assert(sim_v(post).queue =~= s.queue.push(event_v(e)));
                    assert(event_v(e) =~= spec_inject_v(s, from, to, size_bytes, p_type).queue.last());
                    assert(sim_v(post) =~= spec_inject_v(s, from, to, size_bytes, p_type));
                } else {
                    lemma_sim_eq_v(post, pre);
                }
            },
        }
    }
}

/// A stopped state stays stopped: later steps change nothing.
pub proof fn lemma_stopped_stays(s: SimV, horizon_ns: u64, n: nat, m: nat)
    requires
        stopped_v(run_n_v(s, horizon_ns, n), horizon_ns),
        n <= m,
    ensures
        run_n_v(s, horizon_ns, m) == run_n_v(s, horizon_ns, n),
    decreases m - n,
{
    if n < m {
        lemma_stopped_stays(s, horizon_ns, n, (m - 1) as nat);
    }
}

/// Law: the run is deterministic.  `run_n_v` is a mathematical
/// function of the starting state and the horizon alone, and every
/// stopping point yields the same final state: two runs over
/// identical topology and injection order over the same horizon end
/// in identical states — identical completed packets, timestamps and
/// latencies included.
pub proof fn lemma_run_deterministic(s: SimV, horizon_ns: u64, n1: nat, n2: nat)
    requires
        stopped_v(run_n_v(s, horizon_ns, n1), horizon_ns),
        stopped_v(run_n_v(s, horizon_ns, n2), horizon_ns),
    ensures
        run_n_v(s, horizon_ns, n1) == run_n_v(s, horizon_ns, n2),
{
    if n1 <= n2 {
        lemma_stopped_stays(s, horizon_ns, n1, n2);
    } else {
        lemma_stopped_stays(s, horizon_ns, n2, n1);
    }
}

/// Corollary for two whole runs: starting from identical states and
/// running to a stop under one horizon — however many steps each
/// takes — the final states are identical.
pub proof fn lemma_identical_runs_agree(
    start: SimV,
    end1: SimV,
    end2: SimV,
    horizon_ns: u64,
    n1: nat,
    n2: nat,
)
    requires
        end1 == run_n_v(start, horizon_ns, n1),
        end2 == run_n_v(start, horizon_ns, n2),
        stopped_v(end1, horizon_ns),
        stopped_v(end2, horizon_ns),
    ensures
        end1 == end2,
{
    lemma_run_deterministic(start, horizon_ns, n1, n2);
}

} // verus!
