//! The simulation engine: topology mutation, packet injection, and
//! the run-to-completion event loop.
//!
//! All mutable state lives in one `NetworkSimulation` value.  Its
//! well-formedness invariant ties every pending event to the packet
//! it carries: the event may not be scheduled before the packet's
//! creation time plus the summed propagation latency of the hops the
//! packet has already taken, and the ghost hop log must be a real
//! chain of links from the packet's source to the event's node.
//! Finalized packets inherit both facts, which is what makes recorded
//! latencies physically grounded.

use vstd::prelude::*;

use crate::packet::{
    auto_reply, event_node, hop_in_links, hops_latency_sum, hops_ok, lemma_hops_ok_extend,
    lemma_hops_ok_same_edges, reply_chain, DataPacket, Event, EventType, Hop, PacketType,
};
use crate::physics::{spec_transmission_ns, MAX_LINK_DISTANCE_M, MAX_PACKET_BYTES};
use crate::routing::{
    find_first_link, is_first_link, is_first_shortest_link, is_min_dist,
    lemma_first_link_unique, lemma_min_dist_same_edges, lemma_min_exists, lemma_next_hop_fun,
    lemma_spec_min_dist, link_matches, next_hop_in_links, next_hop_post, reach_in, same_edges,
    spec_first_link, spec_min_dist, spec_next_hop, spec_reachable,
};
use crate::replay::{
    event_v, is_earliest_index_v, lemma_completed_v_push, lemma_earliest_unique_v,
    lemma_inject_matches, lemma_queue_v_remove, run_n_v, sim_v, spec_dispatch_v, spec_step_v,
    stopped_v, CompletedV, SimV,
};
use crate::topology::{Client, GeoLocation, NetworkLink, Server, SimError};

verus! {

/// A delivered packet together with its end-to-end latency and the
/// ghost record of the link chain it traversed.
pub struct CompletedPacket {
    pub packet: DataPacket,
    pub latency_ns: u64,
    /// The links the packet traversed, oldest first.
    pub hops: Ghost<Seq<Hop>>,
}

/// The engine.  One value owns all mutable simulation state; several
/// independent values never share anything.
pub struct NetworkSimulation {
    pub servers: Vec<Server>,
    pub clients: Vec<Client>,
    pub links: Vec<NetworkLink>,
    /// Pending events; the earliest (by time, then scheduling order)
    /// is processed first.
    pub event_queue: Vec<Event>,
    pub current_time_ns: u64,
    pub completed_packets: Vec<CompletedPacket>,
    /// Next fresh packet id; ids are unique within a run.
    pub next_packet_id: usize,
    /// Next fresh event sequence number, the timestamp tie-break.
    pub next_event_seq: u64,
}

impl NetworkSimulation {
    /// All node ids, servers first, in insertion order.
    pub open spec fn node_ids(self) -> Seq<usize> {
        self.servers@.map_values(|s: Server| s.id) + self.clients@.map_values(|c: Client| c.id)
    }

    /// Some node (server or client) carries this id.
    pub open spec fn spec_has_node(self, id: usize) -> bool {
        self.node_ids().contains(id)
    }

    /// One pending event's obligations toward the state around it.
    pub open spec fn event_wf(self, e: Event) -> bool {
        &&& e.seq < self.next_event_seq
        &&& e.time_ns >= self.current_time_ns
        &&& e.packet.id < self.next_packet_id
        &&& e.packet.size_bytes <= MAX_PACKET_BYTES
        &&& e.packet.created_at_ns + hops_latency_sum(e.hops@) <= e.time_ns
        &&& hops_ok(e.hops@, e.packet.source_id, event_node(e.event_type), self.links@)
        &&& (e.event_type is PacketTransmissionComplete ==> event_node(e.event_type)
            != e.packet.destination_id)
    }

    /// One completed record's obligations: its latency dominates the
    /// summed propagation latency of a real link chain from the
    /// packet's source to its destination.
    pub open spec fn completed_wf(self, c: CompletedPacket) -> bool {
        &&& c.latency_ns >= hops_latency_sum(c.hops@)
        &&& hops_ok(c.hops@, c.packet.source_id, c.packet.destination_id, self.links@)
        &&& c.packet.id < self.next_packet_id
    }

    /// The engine's invariant: unique node ids, well-formed links,
    /// and the per-event and per-record obligations above, with
    /// pairwise-distinct event sequence numbers.
    pub open spec fn wf(self) -> bool {
        &&& self.node_ids().no_duplicates()
        &&& forall|i: int| 0 <= i < self.links@.len() ==> (#[trigger] self.links@[i]).wf()
        &&& forall|i: int|
            0 <= i < self.event_queue@.len() ==> self.event_wf(#[trigger] self.event_queue@[i])
        &&& forall|i: int, j: int|
            0 <= i < j < self.event_queue@.len() ==> self.event_queue@[i].seq
                != self.event_queue@[j].seq
        &&& forall|i: int|
            0 <= i < self.completed_packets@.len() ==> self.completed_wf(
                #[trigger] self.completed_packets@[i],
            )
    }

    /// An empty simulation at time zero.
    pub fn new() -> (r: NetworkSimulation)
        ensures
            r.wf(),
            r.servers@.len() == 0,
            r.clients@.len() == 0,
            r.links@.len() == 0,
            r.event_queue@.len() == 0,
            r.completed_packets@.len() == 0,
            r.current_time_ns == 0,
            r.next_packet_id == 0,
            r.next_event_seq == 0,
    {
        let r = NetworkSimulation {
            servers: Vec::new(),
            clients: Vec::new(),
            links: Vec::new(),
            event_queue: Vec::new(),
            current_time_ns: 0,
            completed_packets: Vec::new(),
            next_packet_id: 0,
            next_event_seq: 0,
        };
        proof {
            assert(r.node_ids() =~= Seq::<usize>::empty());
        }
        r
    }

    /// Whether any node carries `id`, by linear scan.
    fn has_node(&self, id: usize) -> (r: bool)
        ensures
            r == self.spec_has_node(id),
    {
        let ghost ids = self.node_ids();
        let mut i: usize = 0;
        while i < self.servers.len()
            invariant
                0 <= i <= self.servers@.len(),
                ids == self.node_ids(),
                forall|k: int| 0 <= k < i ==> (#[trigger] self.servers@[k]).id != id,
            decreases self.servers@.len() - i,
        {
            if self.servers[i].id == id {
                proof {
                    assert(ids[i as int] == id);
                }
                return true;
            }
            i += 1;
        }
        let mut j: usize = 0;
        while j < self.clients.len()
            invariant
                0 <= j <= self.clients@.len(),
                ids == self.node_ids(),
                forall|k: int| 0 <= k < self.servers@.len() ==> (#[trigger] self.servers@[k]).id
                    != id,
                forall|k: int| 0 <= k < j ==> (#[trigger] self.clients@[k]).id != id,
            decreases self.clients@.len() - j,
        {
            if self.clients[j].id == id {
                proof {
                    assert(ids[self.servers@.len() + j as int] == id);
                }
                return true;
            }
            j += 1;
        }
        proof {
            assert(!ids.contains(id)) by {
                if ids.contains(id) {
                    let p = choose|p: int| 0 <= p < ids.len() && ids[p] == id;
                    if p < self.servers@.len() {
                        assert(self.servers@[p].id == id);
                    } else {
                        assert(self.clients@[p - self.servers@.len()].id == id);
                    }
                }
            }
        }
        false
    }

    /// Registers a server node.  Fails, changing nothing, when the id
    /// is already taken.
    pub fn add_server(&mut self, server: Server) -> (r: Result<(), SimError>)
        requires
            old(self).wf(),
        ensures
            final(self).wf(),
            match r {
                Ok(()) => {
                    &&& !old(self).spec_has_node(server.id)
                    &&& final(self).servers@ == old(self).servers@.push(server)
                    &&& final(self).clients@ == old(self).clients@
                },
                Err(e) => {
                    &&& e == SimError::DuplicateNodeId(server.id)
                    &&& old(self).spec_has_node(server.id)
                    &&& final(self).servers@ == old(self).servers@
                    &&& final(self).clients@ == old(self).clients@
                },
            },
            final(self).links@ == old(self).links@,
            final(self).event_queue@ == old(self).event_queue@,
            final(self).completed_packets@ == old(self).completed_packets@,
            final(self).current_time_ns == old(self).current_time_ns,
            final(self).next_packet_id == old(self).next_packet_id,
            final(self).next_event_seq == old(self).next_event_seq,
    {
        if self.has_node(server.id) {
            return Err(SimError::DuplicateNodeId(server.id));
        }
        let ghost pre = *self;
        let ghost sid = server.id;
        self.servers.push(server);
        proof {
            let ids0 = pre.node_ids();
            let ids1 = self.node_ids();
            let ns = pre.servers@.len() as int;
            assert(ids1 =~= ids0.insert(ns, sid)) by {
                assert(self.servers@.map_values(|s: Server| s.id) =~= pre.servers@.map_values(
                    |s: Server| s.id,
                ).push(sid));
            }
            assert(ids1.no_duplicates()) by {
                assert forall|p: int, q: int| 0 <= p < q < ids1.len() implies ids1[p] != ids1[q] by {
                    if ids1[p] == ids1[q] {
                        if p == ns {
                            assert(ids0.contains(ids1[q]));
                        } else if q == ns {
                            assert(ids0.contains(ids1[p]));
                        } else {
                            let p0: int = if p < ns { p } else { p - 1 };
                            let q0: int = if q < ns { q } else { q - 1 };
                            assert(ids0[p0] == ids1[p] && ids0[q0] == ids1[q]);
                        }
                    }
                }
            }
            assert(forall|i: int|
                0 <= i < self.event_queue@.len() ==> self.event_wf(
                    #[trigger] self.event_queue@[i],
                )) by {
                assert(forall|i: int|
                    0 <= i < self.event_queue@.len() ==> pre.event_wf(
                        #[trigger] pre.event_queue@[i],
                    ));
            }
        }
        Ok(())
    }

    /// Registers a client node.  Fails, changing nothing, when the id
    /// is already taken.
    pub fn add_client(&mut self, client: Client) -> (r: Result<(), SimError>)
        requires
            old(self).wf(),
        ensures
            final(self).wf(),
            match r {
                Ok(()) => {
                    &&& !old(self).spec_has_node(client.id)
                    &&& final(self).clients@ == old(self).clients@.push(client)
                    &&& final(self).servers@ == old(self).servers@
                },
                Err(e) => {
                    &&& e == SimError::DuplicateNodeId(client.id)
                    &&& old(self).spec_has_node(client.id)
                    &&& final(self).clients@ == old(self).clients@
                    &&& final(self).servers@ == old(self).servers@
                },
            },
            final(self).links@ == old(self).links@,
            final(self).event_queue@ == old(self).event_queue@,
            final(self).completed_packets@ == old(self).completed_packets@,
            final(self).current_time_ns == old(self).current_time_ns,
            final(self).next_packet_id == old(self).next_packet_id,
            final(self).next_event_seq == old(self).next_event_seq,
    {
        if self.has_node(client.id) {
            return Err(SimError::DuplicateNodeId(client.id));
        }
        let ghost pre = *self;
        let ghost cid = client.id;
        self.clients.push(client);
        proof {
            let ids0 = pre.node_ids();
            let ids1 = self.node_ids();
            assert(ids1 =~= ids0.push(cid)) by {
                assert(self.clients@.map_values(|c: Client| c.id) =~= pre.clients@.map_values(
                    |c: Client| c.id,
                ).push(cid));
            }
            assert(ids1.no_duplicates()) by {
                assert forall|p: int, q: int| 0 <= p < q < ids1.len() implies ids1[p] != ids1[q] by {
                    if ids1[p] == ids1[q] {
                        if q == ids1.len() - 1 {
                            assert(ids0.contains(ids1[p]));
                        }
                    }
                }
            }
        }
        Ok(())
    }

    /// Per-hop processing delay of the node: a server's configured
    /// delay, zero for clients and unknown ids.
    pub open spec fn spec_server_delay(self, id: usize) -> u64 {
        spec_server_delay_of(self.servers@, id)
    }

    /// Looks up the processing delay applied when a packet transits
    /// this node: a server's fixed delay, zero otherwise.
    fn server_processing_delay(&self, id: usize) -> (r: u64)
        requires
            self.wf(),
        ensures
            r == self.spec_server_delay(id),
    {
        let mut i: usize = 0;
        while i < self.servers.len()
            invariant
                self.wf(),
                0 <= i <= self.servers@.len(),
                forall|k: int| 0 <= k < i ==> (#[trigger] self.servers@[k]).id != id,
            decreases self.servers@.len() - i,
        {
            if self.servers[i].id == id {
                proof {
                    let j = choose|j: int|
                        0 <= j < self.servers@.len() && (#[trigger] self.servers@[j]).id == id;
                    if j != i {
                        let ids = self.node_ids();
                        assert(ids[j] == id && ids[i as int] == id);
                    }
                }
                return self.servers[i].processing_delay_ns;
            }
            i += 1;
        }
        0
    }

    /// Display name of the node with this id; `NodeNotFound` when no
    /// node carries it.
    pub fn get_node_name(&self, id: usize) -> (r: Result<String, SimError>)
        requires
            self.wf(),
        ensures
            match r {
                Ok(name) => self.spec_has_node(id) && (exists|i: int|
                    0 <= i < self.servers@.len() && (#[trigger] self.servers@[i]).id == id
                        && name@ == self.servers@[i].location.name@) || (exists|i: int|
                    0 <= i < self.clients@.len() && (#[trigger] self.clients@[i]).id == id && name@
                        == self.clients@[i].location.name@),
                Err(e) => e == SimError::NodeNotFound(id) && !self.spec_has_node(id),
            },
    {
        match self.get_node_location(id) {
            Ok(loc) => Ok(loc.name.clone()),
            Err(e) => Err(e),
        }
    }

    /// Coordinates and display name of the node with this id;
    /// `NodeNotFound` when no node carries it.
    pub fn get_node_location(&self, id: usize) -> (r: Result<&GeoLocation, SimError>)
        requires
            self.wf(),
        ensures
            match r {
                Ok(loc) => self.spec_has_node(id) && (exists|i: int|
                    0 <= i < self.servers@.len() && (#[trigger] self.servers@[i]).id == id && loc
                        == self.servers@[i].location) || (exists|i: int|
                    0 <= i < self.clients@.len() && (#[trigger] self.clients@[i]).id == id && loc
                        == self.clients@[i].location),
                Err(e) => e == SimError::NodeNotFound(id) && !self.spec_has_node(id),
            },
    {
        let ghost ids = self.node_ids();
        let mut i: usize = 0;
        while i < self.servers.len()
            invariant
                0 <= i <= self.servers@.len(),
                ids == self.node_ids(),
                forall|k: int| 0 <= k < i ==> (#[trigger] self.servers@[k]).id != id,
            decreases self.servers@.len() - i,
        {
            if self.servers[i].id == id {
                proof {
                    assert(ids[i as int] == id);
                }
                return Ok(&self.servers[i].location);
            }
            i += 1;
        }
        let mut j: usize = 0;
        while j < self.clients.len()
            invariant
                0 <= j <= self.clients@.len(),
                ids == self.node_ids(),
                forall|k: int| 0 <= k < self.servers@.len() ==> (#[trigger] self.servers@[k]).id
                    != id,
                forall|k: int| 0 <= k < j ==> (#[trigger] self.clients@[k]).id != id,
            decreases self.clients@.len() - j,
        {
            if self.clients[j].id == id {
                proof {
                    assert(ids[self.servers@.len() + j as int] == id);
                }
                return Ok(&self.clients[j].location);
            }
            j += 1;
        }
        proof {
            assert(!ids.contains(id)) by {
                if ids.contains(id) {
                    let p = choose|p: int| 0 <= p < ids.len() && ids[p] == id;
                    if p < self.servers@.len() {
                        assert(self.servers@[p].id == id);
                    } else {
                        assert(self.clients@[p - self.servers@.len()].id == id);
                    }
                }
            }
        }
        Err(SimError::NodeNotFound(id))
    }

    /// Connects two existing nodes with a new directed link built
    /// from their straight-line surface distance: the
    /// path-inefficiency multiplier and the fiber signal speed give
    /// the link's cable length and propagation latency.
    pub fn connect_nodes(
        &mut self,
        from_id: usize,
        to_id: usize,
        distance_m: u64,
        bandwidth_bps: u64,
    ) -> (r: Result<(), SimError>)
        requires
            old(self).wf(),
            distance_m <= MAX_LINK_DISTANCE_M,
            bandwidth_bps >= 1,
        ensures
            final(self).wf(),
            final(self).servers@ == old(self).servers@,
            final(self).clients@ == old(self).clients@,
            final(self).event_queue@ == old(self).event_queue@,
            final(self).completed_packets@ == old(self).completed_packets@,
            final(self).current_time_ns == old(self).current_time_ns,
            final(self).next_packet_id == old(self).next_packet_id,
            final(self).next_event_seq == old(self).next_event_seq,
            match r {
                Ok(()) => {
                    &&& old(self).spec_has_node(from_id)
                    &&& old(self).spec_has_node(to_id)
                    &&& final(self).links@.len() == old(self).links@.len() + 1
                    &&& final(self).links@.drop_last() == old(self).links@
                    &&& ({
                        let l = final(self).links@.last();
                        &&& l.from == from_id
                        &&& l.to == to_id
                        &&& l.distance_m == crate::physics::spec_cable_length_m(distance_m as nat)
                        &&& l.latency_ns == crate::physics::spec_propagation_ns(
                            crate::physics::spec_cable_length_m(distance_m as nat),
                        )
                        &&& l.bandwidth_bps == bandwidth_bps
                        &&& l.queue_horizon_ns == old(self).current_time_ns
                    })
                },
                Err(e) => {
                    &&& final(self).links@ == old(self).links@
                    &&& (e == SimError::NodeNotFound(from_id) && !old(self).spec_has_node(from_id)
                        || e == SimError::NodeNotFound(to_id) && old(self).spec_has_node(from_id)
                        && !old(self).spec_has_node(to_id))
                },
            },
    {
        if !self.has_node(from_id) {
            return Err(SimError::NodeNotFound(from_id));
        }
        if !self.has_node(to_id) {
            return Err(SimError::NodeNotFound(to_id));
        }
        let ghost pre = *self;
        let built = NetworkLink::new(from_id, to_id, distance_m, bandwidth_bps);
        // A link starts free at the moment of its creation: its queue
        // horizon is the current simulated time.
        let link = NetworkLink { queue_horizon_ns: self.current_time_ns, ..built };
        self.links.push(link);
        proof {
            assert(pre.links@.is_prefix_of(self.links@)) by {
                assert(self.links@.take(pre.links@.len() as int) =~= pre.links@);
            }
            assert forall|i: int|
                0 <= i < self.event_queue@.len() implies self.event_wf(
                #[trigger] self.event_queue@[i],
            ) by {
                let e = self.event_queue@[i];
                assert(pre.event_wf(e));
                lemma_hops_ok_extend(
                    e.hops@,
                    e.packet.source_id,
                    event_node(e.event_type),
                    pre.links@,
                    self.links@,
                );
            }
            assert forall|i: int|
                0 <= i < self.completed_packets@.len() implies self.completed_wf(
                #[trigger] self.completed_packets@[i],
            ) by {
                let c = self.completed_packets@[i];
                assert(pre.completed_wf(c));
                lemma_hops_ok_extend(
                    c.hops@,
                    c.packet.source_id,
                    c.packet.destination_id,
                    pre.links@,
                    self.links@,
                );
            }
        }
        Ok(())
    }

    /// Resolves the next hop from `from` toward `to` along a
    /// shortest hop-count path, recomputed from the live topology;
    /// ties among equal-length paths go to the earliest-inserted
    /// link.
    pub fn find_next_hop(&self, from: usize, to: usize) -> (r: Option<usize>)
        ensures
            next_hop_post(self.links@, from, to, r),
            r == spec_next_hop(self.links@, from, to),
    {
        let r = next_hop_in_links(&self.links, from, to);
        proof {
            lemma_next_hop_fun(self.links@, from, to, r);
        }
        r
    }
}

/// Per-hop processing delay of node `id` among `servers`: the
/// server's configured delay, zero for clients and unknown ids.
pub open spec fn spec_server_delay_of(servers: Seq<Server>, id: usize) -> u64 {
    if exists|i: int| 0 <= i < servers.len() && (#[trigger] servers[i]).id == id {
        let i = choose|i: int| 0 <= i < servers.len() && (#[trigger] servers[i]).id == id;
        servers[i].processing_delay_ns
    } else {
        0
    }
}

/// Two states hold the same simulation value.
pub open spec fn sim_eq(a: NetworkSimulation, b: NetworkSimulation) -> bool {
    &&& a.servers@ == b.servers@
    &&& a.clients@ == b.clients@
    &&& a.links@ == b.links@
    &&& a.event_queue@ == b.event_queue@
    &&& a.current_time_ns == b.current_time_ns
    &&& a.completed_packets@ == b.completed_packets@
    &&& a.next_packet_id == b.next_packet_id
    &&& a.next_event_seq == b.next_event_seq
}

/// The links agree in everything but their queue horizons.
pub open spec fn links_statics_match(a: Seq<NetworkLink>, b: Seq<NetworkLink>) -> bool {
    &&& a.len() == b.len()
    &&& forall|i: int|
        0 <= i < a.len() ==> (#[trigger] b[i]).from == a[i].from && b[i].to == a[i].to
            && b[i].distance_m == a[i].distance_m && b[i].latency_ns == a[i].latency_ns
            && b[i].bandwidth_bps == a[i].bandwidth_bps
}

/// No link's queue horizon has moved backwards.
pub open spec fn horizons_advanced(a: Seq<NetworkLink>, b: Seq<NetworkLink>) -> bool {
    &&& a.len() == b.len()
    &&& forall|i: int|
        0 <= i < a.len() ==> (#[trigger] b[i]).queue_horizon_ns >= a[i].queue_horizon_ns
}

/// Exactly what one injection does to the engine, as a relation
/// between the state before and after.
///
/// When the router finds no path the injection is a no-op: the packet
/// is dropped without a trace and no id is consumed.  The same holds
/// in two boundary situations that whole-number time forces: when the
/// computed arrival time will not fit in simulated time, or when the
/// id or sequence counters are exhausted.  Otherwise the first link
/// of a shortest path is reserved and one arrival event is scheduled.
pub open spec fn inject_post(
    pre: NetworkSimulation,
    post: NetworkSimulation,
    from: usize,
    to: usize,
    size_bytes: usize,
    p_type: PacketType,
) -> bool {
    if pre.next_packet_id == usize::MAX || pre.next_event_seq == u64::MAX {
        sim_eq(post, pre)
    } else {
        let links0 = pre.links@;
        match spec_next_hop(links0, from, to) {
            None => sim_eq(post, pre),
            Some(h) => {
                let j = spec_first_link(links0, from, h);
                let start: nat = if pre.current_time_ns >= links0[j].queue_horizon_ns {
                    pre.current_time_ns as nat
                } else {
                    links0[j].queue_horizon_ns as nat
                };
                let dur = spec_transmission_ns(size_bytes as nat, links0[j].bandwidth_bps as nat);
                let arrival = start + links0[j].latency_ns as nat + dur;
                if arrival <= u64::MAX {
                    &&& post.servers@ == pre.servers@
                    &&& post.clients@ == pre.clients@
                    &&& post.current_time_ns == pre.current_time_ns
                    &&& post.completed_packets@ == pre.completed_packets@
                    &&& post.links@ == links0.update(
                        j,
                        NetworkLink {
                            from: links0[j].from,
                            to: links0[j].to,
                            distance_m: links0[j].distance_m,
                            latency_ns: links0[j].latency_ns,
                            bandwidth_bps: links0[j].bandwidth_bps,
                            queue_horizon_ns: (start + dur) as u64,
                        },
                    )
                    &&& post.event_queue@.len() == pre.event_queue@.len() + 1
                    &&& post.event_queue@.drop_last() == pre.event_queue@
                    &&& ({
                        let e = post.event_queue@.last();
                        &&& e.time_ns == arrival
                        &&& e.seq == pre.next_event_seq
                        &&& e.packet == (DataPacket {
                            id: pre.next_packet_id,
                            source_id: from,
                            destination_id: to,
                            size_bytes,
                            created_at_ns: pre.current_time_ns,
                            packet_type: p_type,
                        })
                        &&& e.event_type == EventType::PacketArrival(h)
                        &&& e.hops@ == seq![
                            Hop { from, to: h, latency_ns: links0[j].latency_ns },
                        ]
                    })
                    &&& post.next_packet_id == pre.next_packet_id + 1
                    &&& post.next_event_seq == pre.next_event_seq + 1
                } else {
                    sim_eq(post, pre)
                }
            },
        }
    }
}

/// Aggregated results of a run, all in whole units.
pub struct SimulationReport {
    pub delivered: usize,
    pub total_latency_ns: u128,
    pub avg_latency_ns: u128,
    pub min_latency_ns: u64,
    pub max_latency_ns: u64,
    pub total_capacity_bps: u128,
    pub total_fiber_m: u128,
}

/// Summed end-to-end latency over the completed records.
pub open spec fn completed_latency_total(c: Seq<CompletedPacket>) -> nat
    decreases c.len(),
{
    if c.len() == 0 {
        0
    } else {
        completed_latency_total(c.drop_last()) + c.last().latency_ns as nat
    }
}

/// Least end-to-end latency over the completed records.
pub open spec fn completed_latency_min(c: Seq<CompletedPacket>) -> u64
    decreases c.len(),
{
    if c.len() == 0 {
        0
    } else if c.len() == 1 {
        c.last().latency_ns
    } else if c.last().latency_ns < completed_latency_min(c.drop_last()) {
        c.last().latency_ns
    } else {
        completed_latency_min(c.drop_last())
    }
}

/// Greatest end-to-end latency over the completed records.
pub open spec fn completed_latency_max(c: Seq<CompletedPacket>) -> u64
    decreases c.len(),
{
    if c.len() == 0 {
        0
    } else if c.last().latency_ns > completed_latency_max(c.drop_last()) {
        c.last().latency_ns
    } else {
        completed_latency_max(c.drop_last())
    }
}

/// Summed egress bandwidth of the servers.
pub open spec fn servers_bandwidth_total(s: Seq<Server>) -> nat
    decreases s.len(),
{
    if s.len() == 0 {
        0
    } else {
        servers_bandwidth_total(s.drop_last()) + s.last().bandwidth_bps as nat
    }
}

/// Summed cable length of the links, in meters.
pub open spec fn links_distance_total(l: Seq<NetworkLink>) -> nat
    decreases l.len(),
{
    if l.len() == 0 {
        0
    } else {
        links_distance_total(l.drop_last()) + l.last().distance_m as nat
    }
}

/// Shortest hop count where one exists, zero otherwise; a total
/// stand-in for the hop distance, used by the termination measure.
pub open spec fn dist_or(links: Seq<NetworkLink>, a: usize, b: usize) -> nat {
    if spec_reachable(links, a, b) {
        spec_min_dist(links, a, b)
    } else {
        0
    }
}

/// How many further scheduler steps this event's packet can cost
/// before it is finalized or dropped: every dispatch strictly lowers
/// it, except when a finalization spawns a reply, which instead
/// lowers the queue's summed reply potential.
pub open spec fn event_steps(links: Seq<NetworkLink>, e: Event) -> nat {
    match e.event_type {
        EventType::PacketArrival(n) => {
            if n == e.packet.destination_id {
                1
            } else {
                2 * dist_or(links, n, e.packet.destination_id) + 2
            }
        },
        EventType::PacketTransmissionComplete(n) => 2 * dist_or(
            links,
            n,
            e.packet.destination_id,
        ) + 1,
    }
}

/// Summed reply potential of the pending events.
pub open spec fn queue_chain_sum(q: Seq<Event>) -> nat
    decreases q.len(),
{
    if q.len() == 0 {
        0
    } else {
        queue_chain_sum(q.drop_last()) + reply_chain(q.last().packet.packet_type)
    }
}

/// Summed remaining scheduler steps of the pending events.
pub open spec fn queue_steps_sum(links: Seq<NetworkLink>, q: Seq<Event>) -> nat
    decreases q.len(),
{
    if q.len() == 0 {
        0
    } else {
        queue_steps_sum(links, q.drop_last()) + event_steps(links, q.last())
    }
}

pub proof fn lemma_chain_sum_push(q: Seq<Event>, e: Event)
    ensures
        queue_chain_sum(q.push(e)) == queue_chain_sum(q) + reply_chain(e.packet.packet_type),
{
    assert(q.push(e).drop_last() =~= q);
    assert(q.push(e).last() == e);
}

pub proof fn lemma_steps_sum_push(links: Seq<NetworkLink>, q: Seq<Event>, e: Event)
    ensures
        queue_steps_sum(links, q.push(e)) == queue_steps_sum(links, q) + event_steps(links, e),
{
    assert(q.push(e).drop_last() =~= q);
    assert(q.push(e).last() == e);
}

pub proof fn lemma_chain_sum_remove(q: Seq<Event>, i: int)
    requires
        0 <= i < q.len(),
    ensures
        queue_chain_sum(q.remove(i)) + reply_chain(q[i].packet.packet_type) == queue_chain_sum(q),
    decreases q.len(),
{
    if i == q.len() - 1 {
        assert(q.remove(i) =~= q.drop_last());
    } else {
        let q2 = q.remove(i);
        assert(q2.last() == q.last());
        assert(q2.drop_last() =~= q.drop_last().remove(i));
        lemma_chain_sum_remove(q.drop_last(), i);
    }
}

pub proof fn lemma_steps_sum_remove(links: Seq<NetworkLink>, q: Seq<Event>, i: int)
    requires
        0 <= i < q.len(),
    ensures
        queue_steps_sum(links, q.remove(i)) + event_steps(links, q[i]) == queue_steps_sum(
            links,
            q,
        ),
    decreases q.len(),
{
    if i == q.len() - 1 {
        assert(q.remove(i) =~= q.drop_last());
    } else {
        let q2 = q.remove(i);
        assert(q2.last() == q.last());
        assert(q2.drop_last() =~= q.drop_last().remove(i));
        lemma_steps_sum_remove(links, q.drop_last(), i);
    }
}

/// Hop distances ignore everything about a link but its endpoints.
pub proof fn lemma_dist_or_same_edges(
    a: Seq<NetworkLink>,
    b: Seq<NetworkLink>,
    x: usize,
    y: usize,
)
    requires
        same_edges(a, b),
    ensures
        dist_or(a, x, y) == dist_or(b, x, y),
        spec_reachable(a, x, y) == spec_reachable(b, x, y),
{
    assert(same_edges(b, a));
    if spec_reachable(a, x, y) {
        let n = choose|n: nat| reach_in(a, x, y, n);
        crate::routing::lemma_reach_same_edges(a, b, x, y, n);
        assert(spec_reachable(b, x, y));
        lemma_min_exists(a, x, y, n);
        let m = choose|m: nat| m <= n && is_min_dist(a, x, y, m);
        lemma_min_dist_same_edges(a, b, x, y, m);
        lemma_spec_min_dist(a, x, y, m);
        lemma_spec_min_dist(b, x, y, m);
    } else {
        if spec_reachable(b, x, y) {
            let n = choose|n: nat| reach_in(b, x, y, n);
            crate::routing::lemma_reach_same_edges(b, a, x, y, n);
        }
    }
}

/// The steps measure transfers between link states that differ only
/// in their queue horizons.
pub proof fn lemma_steps_sum_same_edges(a: Seq<NetworkLink>, b: Seq<NetworkLink>, q: Seq<Event>)
    requires
        same_edges(a, b),
    ensures
        queue_steps_sum(a, q) == queue_steps_sum(b, q),
    decreases q.len(),
{
    if q.len() > 0 {
        lemma_steps_sum_same_edges(a, b, q.drop_last());
        let e = q.last();
        lemma_dist_or_same_edges(a, b, event_node(e.event_type), e.packet.destination_id);
    }
}

/// The scheduler's processing order: earlier timestamp first, and
/// among equal timestamps the earlier-scheduled event.
pub open spec fn event_le(a: Event, b: Event) -> bool {
    a.time_ns < b.time_ns || (a.time_ns == b.time_ns && a.seq <= b.seq)
}

/// Index of the earliest pending event under `event_le`; `None`
/// exactly on an empty queue.
fn min_event_index(q: &Vec<Event>) -> (r: Option<usize>)
    ensures
        match r {
            None => q@.len() == 0,
            Some(i) => 0 <= i < q@.len() && forall|j: int|
                0 <= j < q@.len() ==> event_le(q@[i as int], #[trigger] q@[j]),
        },
{
    if q.len() == 0 {
        return None;
    }
    let mut best: usize = 0;
    let mut k: usize = 1;
    while k < q.len()
        invariant
            0 < k <= q@.len(),
            0 <= best < k,
            forall|j: int| 0 <= j < k ==> event_le(q@[best as int], #[trigger] q@[j]),
        decreases q@.len() - k,
    {
        if q[k].time_ns < q[best].time_ns || (q[k].time_ns == q[best].time_ns && q[k].seq
            < q[best].seq) {
            best = k;
        }
        k += 1;
    }
    Some(best)
}

impl NetworkSimulation {
    /// Injects a packet: stamps it with a fresh id and the current
    /// time, resolves the first hop, reserves the link's next
    /// transmission slot and schedules the arrival at the far end.
    /// With no route to the destination the injection is a no-op and
    /// the packet is dropped.
    pub fn send_packet_ex(&mut self, from: usize, to: usize, size_bytes: usize, p_type: PacketType)
        requires
            old(self).wf(),
            size_bytes <= MAX_PACKET_BYTES,
        ensures
            final(self).wf(),
            inject_post(*old(self), *final(self), from, to, size_bytes, p_type),
            final(self).servers@ == old(self).servers@,
            final(self).clients@ == old(self).clients@,
            final(self).current_time_ns == old(self).current_time_ns,
            final(self).completed_packets@ == old(self).completed_packets@,
            links_statics_match(old(self).links@, final(self).links@),
            horizons_advanced(old(self).links@, final(self).links@),
            final(self).event_queue@ == old(self).event_queue@ || (final(self).event_queue@.len()
                == old(self).event_queue@.len() + 1 && final(self).event_queue@.drop_last()
                == old(self).event_queue@ && final(self).event_queue@.last().packet.packet_type
                == p_type),
    {
        let ghost pre = *self;
        if self.next_packet_id == usize::MAX || self.next_event_seq == u64::MAX {
            return ;
        }
        let hop = self.find_next_hop(from, to);
        let h = match hop {
            None => {
                return ;
            },
            Some(h) => h,
        };
        let jopt = find_first_link(&self.links, from, h);
        let j = match jopt {
            None => {
                proof {
                    let i = choose|i: int| #[trigger]
                        is_first_shortest_link(pre.links@, from, to, i) && pre.links@[i].to == h;
                    assert(link_matches(pre.links@, i, from, h));
                    assert(false);
                }
                return ;
            },
            Some(j) => j,
        };
        proof {
            let j2 = spec_first_link(pre.links@, from, h);
            assert(is_first_link(pre.links@, from, h, j2)) by {
                assert(is_first_link(pre.links@, from, h, j as int));
            }
            lemma_first_link_unique(pre.links@, from, h, j as int, j2);
        }
        let mut link = self.links[j];
        let res = link.reserve_transmission(self.current_time_ns, size_bytes);
        match res {
            None => {
                return ;
            },
            Some((arrival_ns, _duration_ns)) => {
                self.links.remove(j);
                self.links.insert(j, link);
                proof {
                    assert(self.links@ =~= pre.links@.update(j as int, link));
                }
                let packet = DataPacket {
                    id: self.next_packet_id,
                    source_id: from,
                    destination_id: to,
                    size_bytes,
                    created_at_ns: self.current_time_ns,
                    packet_type: p_type,
                };
                let ghost hops = seq![Hop { from, to: h, latency_ns: link.latency_ns }];
                let ev = Event {
                    time_ns: arrival_ns,
                    seq: self.next_event_seq,
                    packet,
                    event_type: EventType::PacketArrival(h),
                    hops: Ghost(hops),
                };
                self.event_queue.push(ev);
                self.next_packet_id = self.next_packet_id + 1;
                self.next_event_seq = self.next_event_seq + 1;
                proof {
                    assert(self.event_queue@.drop_last() =~= pre.event_queue@);
                    assert(hops.drop_last() =~= Seq::<Hop>::empty());
                    assert(hops_latency_sum(Seq::<Hop>::empty()) == 0);
                    assert(hops.len() == 1 && hops.last().latency_ns == link.latency_ns);
                    assert(hops_latency_sum(hops) == hops_latency_sum(hops.drop_last())
                        + hops.last().latency_ns as nat);
                    assert(hops_latency_sum(hops) == link.latency_ns);
                    assert(links_statics_match(pre.links@, self.links@));
                    assert(horizons_advanced(pre.links@, self.links@));
                    assert(self.wf()) by {
                        assert forall|i: int|
                            0 <= i < self.event_queue@.len() implies self.event_wf(
                            #[trigger] self.event_queue@[i],
                        ) by {
                            let e = self.event_queue@[i];
                            if i < pre.event_queue@.len() {
                                assert(e == pre.event_queue@[i]);
                                assert(pre.event_wf(e));
                                lemma_hops_ok_same_edges(
                                    e.hops@,
                                    e.packet.source_id,
                                    event_node(e.event_type),
                                    pre.links@,
                                    self.links@,
                                );
                            } else {
                                assert(e == ev);
                                assert(hops_ok(hops, from, h, self.links@)) by {
                                    assert(self.links@[j as int].from == from
                                        && self.links@[j as int].to == h
                                        && self.links@[j as int].latency_ns == link.latency_ns);
                                    assert(hop_in_links(self.links@, hops[0]));
                                }
                            }
                        }
                        assert forall|i: int|
                            0 <= i < self.completed_packets@.len() implies self.completed_wf(
                            #[trigger] self.completed_packets@[i],
                        ) by {
                            let c = self.completed_packets@[i];
                            assert(pre.completed_wf(c));
                            lemma_hops_ok_same_edges(
                                c.hops@,
                                c.packet.source_id,
                                c.packet.destination_id,
                                pre.links@,
                                self.links@,
                            );
                        }
                        assert forall|i: int, k: int|
                            0 <= i < k < self.event_queue@.len() implies self.event_queue@[i].seq
                            != self.event_queue@[k].seq by {
                            if k < pre.event_queue@.len() {
                                assert(pre.event_queue@[i].seq != pre.event_queue@[k].seq);
                            } else {
                                assert(pre.event_wf(pre.event_queue@[i]));
                            }
                        }
                    }
                }
            },
        }
    }

    /// Dispatches one event already removed from the queue: advances
    /// the clock to its timestamp, then finalizes the packet at its
    /// destination (firing the protocol reply), schedules local
    /// processing at an intermediate node, or forwards the packet
    /// over the next link of a shortest path.
    fn process_event(&mut self, e: Event)
        requires
            old(self).wf(),
            e.seq < old(self).next_event_seq,
            e.packet.id < old(self).next_packet_id,
            e.packet.size_bytes <= MAX_PACKET_BYTES,
            e.packet.created_at_ns + hops_latency_sum(e.hops@) <= e.time_ns,
            hops_ok(e.hops@, e.packet.source_id, event_node(e.event_type), old(self).links@),
            e.event_type is PacketTransmissionComplete ==> event_node(e.event_type)
                != e.packet.destination_id,
            e.time_ns >= old(self).current_time_ns,
            forall|j: int|
                0 <= j < old(self).event_queue@.len()
                    ==> (#[trigger] old(self).event_queue@[j]).time_ns >= e.time_ns,
        ensures
            final(self).wf(),
            final(self).servers@ == old(self).servers@,
            final(self).clients@ == old(self).clients@,
            links_statics_match(old(self).links@, final(self).links@),
            horizons_advanced(old(self).links@, final(self).links@),
            final(self).current_time_ns == e.time_ns,
            final(self).completed_packets@.len() >= old(self).completed_packets@.len(),
            forall|i: int|
                0 <= i < old(self).completed_packets@.len()
                    ==> #[trigger] final(self).completed_packets@[i]
                    == old(self).completed_packets@[i],
            queue_chain_sum(final(self).event_queue@) < queue_chain_sum(old(self).event_queue@)
                + reply_chain(e.packet.packet_type) || (queue_chain_sum(final(self).event_queue@)
                == queue_chain_sum(old(self).event_queue@) + reply_chain(e.packet.packet_type)
                && queue_steps_sum(final(self).links@, final(self).event_queue@)
                < queue_steps_sum(old(self).links@, old(self).event_queue@) + event_steps(
                old(self).links@,
                e,
            )),
            sim_v(*final(self)) == spec_dispatch_v(sim_v(*old(self)), event_v(e)),
    {
        let ghost pre = *self;
        self.current_time_ns = e.time_ns;
        proof {
            assert(self.wf()) by {
                assert forall|i: int|
                    0 <= i < self.event_queue@.len() implies self.event_wf(
                    #[trigger] self.event_queue@[i],
                ) by {
                    assert(pre.event_wf(pre.event_queue@[i]));
                }
            }
        }
        let ghost mid = *self;
        match e.event_type {
            EventType::PacketArrival(node_id) => {
                if node_id == e.packet.destination_id {
                    let latency_ns = e.time_ns - e.packet.created_at_ns;
                    let rec = CompletedPacket {
                        packet: e.packet,
                        latency_ns,
                        hops: Ghost(e.hops@),
                    };
                    let ghost grec = rec;
                    self.completed_packets.push(rec);
                    proof {
                        lemma_completed_v_push(mid.completed_packets@, grec);
                        assert(self.wf()) by {
                            assert forall|i: int|
                                0 <= i < self.completed_packets@.len() implies self.completed_wf(
                                #[trigger] self.completed_packets@[i],
                            ) by {
                                if i < mid.completed_packets@.len() {
                                    assert(mid.completed_wf(mid.completed_packets@[i]));
                                }
                            }
                            assert forall|i: int|
                                0 <= i < self.event_queue@.len() implies self.event_wf(
                                #[trigger] self.event_queue@[i],
                            ) by {
                                assert(mid.event_wf(mid.event_queue@[i]));
                            }
                        }
                    }
                    let reply = auto_reply(e.packet.packet_type);
                    match reply {
                        Some((reply_type, reply_size)) => {
                            let ghost before_send = *self;
                            proof {
                                assert(reply_size <= MAX_PACKET_BYTES && reply_chain(reply_type)
                                    < reply_chain(e.packet.packet_type)) by {
                                    match e.packet.packet_type {
                                        PacketType::TcpSyn => {},
                                        PacketType::TcpSynAck => {},
                                        PacketType::CdnRequest => {},
                                        _ => {},
                                    }
                                }
                            }
                            self.send_packet_ex(
                                node_id,
                                e.packet.source_id,
                                reply_size,
                                reply_type,
                            );
                            proof {
                                let q1 = before_send.event_queue@;
                                let q2 = self.event_queue@;
                                if q2 != q1 {
                                    assert(q2 =~= q1.push(q2.last()));
                                    lemma_chain_sum_push(q1, q2.last());
                                }
                                assert(queue_chain_sum(q2) < queue_chain_sum(pre.event_queue@)
                                    + reply_chain(e.packet.packet_type));
                                let s0 = sim_v(pre);
                                let s1 = SimV { current_time_ns: e.time_ns, ..s0 };
                                let recv = CompletedV {
                                    packet: e.packet,
                                    latency_ns: (e.time_ns - e.packet.created_at_ns) as u64,
                                    hops: e.hops@,
                                };
                                let s2 = SimV { completed: s1.completed.push(recv), ..s1 };
                                assert(crate::replay::completed_v(grec) == recv);
                                assert(sim_v(before_send) =~= s2);
                                lemma_inject_matches(
                                    before_send,
                                    *self,
                                    node_id,
                                    e.packet.source_id,
                                    reply_size,
                                    reply_type,
                                );
                                assert(sim_v(*self) == spec_dispatch_v(sim_v(pre), event_v(e)));
                            }
                        },
                        None => {
                            proof {
                                assert(reply_chain(e.packet.packet_type) == 0);
                                assert(event_steps(pre.links@, e) == 1);
                                let s0 = sim_v(pre);
                                let s1 = SimV { current_time_ns: e.time_ns, ..s0 };
                                let recv = CompletedV {
                                    packet: e.packet,
                                    latency_ns: (e.time_ns - e.packet.created_at_ns) as u64,
                                    hops: e.hops@,
                                };
                                let s2 = SimV { completed: s1.completed.push(recv), ..s1 };
                                assert(crate::replay::completed_v(grec) == recv);
                                assert(sim_v(*self) =~= s2);
                                assert(sim_v(*self) == spec_dispatch_v(sim_v(pre), event_v(e)));
                            }
                        },
                    }
                } else {
                    let delay_ns = self.server_processing_delay(node_id);
                    if self.next_event_seq < u64::MAX && delay_ns <= u64::MAX - e.time_ns {
                        let t2 = e.time_ns + delay_ns;
                        let ev = Event {
                            time_ns: t2,
                            seq: self.next_event_seq,
                            packet: e.packet,
                            event_type: EventType::PacketTransmissionComplete(node_id),
                            hops: Ghost(e.hops@),
                        };
                        self.event_queue.push(ev);
                        self.next_event_seq = self.next_event_seq + 1;
                        proof {
                            assert(self.wf()) by {
                                assert forall|i: int|
                                    0 <= i < self.event_queue@.len() implies self.event_wf(
                                    #[trigger] self.event_queue@[i],
                                ) by {
                                    if i < mid.event_queue@.len() {
                                        assert(self.event_queue@[i] == mid.event_queue@[i]);
                                        assert(mid.event_wf(mid.event_queue@[i]));
                                    } else {
                                        assert(self.event_queue@[i] == ev);
                                    }
                                }
                                assert forall|i: int, k: int|
                                    0 <= i < k < self.event_queue@.len() implies self
                                    .event_queue@[i].seq != self.event_queue@[k].seq by {
                                    if k < mid.event_queue@.len() {
                                        assert(mid.event_queue@[i].seq
                                            != mid.event_queue@[k].seq);
                                    } else {
                                        assert(mid.event_wf(mid.event_queue@[i]));
                                    }
                                }
                            }
                            lemma_chain_sum_push(mid.event_queue@, ev);
                            lemma_steps_sum_push(mid.links@, mid.event_queue@, ev);
                            assert(event_steps(mid.links@, ev) + 1 == event_steps(mid.links@, e));
                        }
                    }
                    // Otherwise the node-local delay pushes the packet
                    // beyond representable simulated time: it is
                    // dropped, like a packet with no route.
                }
            },
            EventType::PacketTransmissionComplete(node_id) => {
                let hop = self.find_next_hop(node_id, e.packet.destination_id);
                match hop {
                    None => {},
                    Some(h) => {
                        if self.next_event_seq == u64::MAX {
                            return ;
                        }
                        let jopt = find_first_link(&self.links, node_id, h);
                        let j = match jopt {
                            None => {
                                proof {
                                    let i = choose|i: int| #[trigger]
                                        is_first_shortest_link(
                                            mid.links@,
                                            node_id,
                                            e.packet.destination_id,
                                            i,
                                        ) && mid.links@[i].to == h;
                                    assert(link_matches(mid.links@, i, node_id, h));
                                    assert(false);
                                }
                                return ;
                            },
                            Some(j) => j,
                        };
                        let mut link = self.links[j];
                        let res = link.reserve_transmission(
                            self.current_time_ns,
                            e.packet.size_bytes,
                        );
                        match res {
                            None => {},
                            Some((arrival_ns, _duration_ns)) => {
                                self.links.remove(j);
                                self.links.insert(j, link);
                                proof {
                                    assert(self.links@ =~= mid.links@.update(j as int, link));
                                    assert(links_statics_match(mid.links@, self.links@));
                                    assert(horizons_advanced(mid.links@, self.links@));
                                    assert(same_edges(mid.links@, self.links@));
                                }
                                let ghost newhop = Hop {
                                    from: node_id,
                                    to: h,
                                    latency_ns: link.latency_ns,
                                };
                                let ghost hops2 = e.hops@.push(newhop);
                                let ev = Event {
                                    time_ns: arrival_ns,
                                    seq: self.next_event_seq,
                                    packet: e.packet,
                                    event_type: EventType::PacketArrival(h),
                                    hops: Ghost(hops2),
                                };
                                self.event_queue.push(ev);
                                self.next_event_seq = self.next_event_seq + 1;
                                proof {
                                    assert(hops2.drop_last() =~= e.hops@);
                                    assert(hops_latency_sum(hops2) == hops_latency_sum(e.hops@)
                                        + link.latency_ns as nat);
                                    assert(hops_ok(
                                        hops2,
                                        e.packet.source_id,
                                        h,
                                        self.links@,
                                    )) by {
                                        lemma_hops_ok_same_edges(
                                            e.hops@,
                                            e.packet.source_id,
                                            node_id,
                                            mid.links@,
                                            self.links@,
                                        );
                                        assert(self.links@[j as int].from == node_id
                                            && self.links@[j as int].to == h
                                            && self.links@[j as int].latency_ns
                                            == link.latency_ns);
                                        assert(hop_in_links(self.links@, newhop));
                                        assert forall|i: int|
                                            0 <= i < hops2.len() implies hop_in_links(
                                            self.links@,
                                            #[trigger] hops2[i],
                                        ) by {
                                            if i < e.hops@.len() {
                                                assert(hops2[i] == e.hops@[i]);
                                            }
                                        }
                                        if e.hops@.len() > 0 {
                                            assert(hops2[0] == e.hops@[0]);
                                        }
                                        assert forall|i: int|
                                            0 <= i < hops2.len() - 1 implies #[trigger] hops2[i].to
                                            == hops2[i + 1].from by {
                                            if i < e.hops@.len() - 1 {
                                                assert(hops2[i] == e.hops@[i] && hops2[i + 1]
                                                    == e.hops@[i + 1]);
                                            } else {
                                                assert(hops2[i] == e.hops@[e.hops@.len() - 1]);
                                                assert(hops2[i].to == node_id);
                                            }
                                        }
                                    }
                                    assert(self.wf()) by {
                                        assert forall|i: int|
                                            0 <= i < self.event_queue@.len() implies self.event_wf(
                                            #[trigger] self.event_queue@[i],
                                        ) by {
                                            if i < mid.event_queue@.len() {
                                                let ex = mid.event_queue@[i];
                                                assert(self.event_queue@[i] == ex);
                                                assert(mid.event_wf(ex));
                                                lemma_hops_ok_same_edges(
                                                    ex.hops@,
                                                    ex.packet.source_id,
                                                    event_node(ex.event_type),
                                                    mid.links@,
                                                    self.links@,
                                                );
                                            } else {
                                                assert(self.event_queue@[i] == ev);
                                            }
                                        }
                                        assert forall|i: int, k: int|
                                            0 <= i < k < self.event_queue@.len() implies self
                                            .event_queue@[i].seq != self.event_queue@[k].seq by {
                                            if k < mid.event_queue@.len() {
                                                assert(mid.event_queue@[i].seq
                                                    != mid.event_queue@[k].seq);
                                            } else {
                                                assert(mid.event_wf(mid.event_queue@[i]));
                                            }
                                        }
                                        assert forall|i: int|
                                            0 <= i
                                                < self.completed_packets@.len() implies self
                                            .completed_wf(
                                            #[trigger] self.completed_packets@[i],
                                        ) by {
                                            let c = self.completed_packets@[i];
                                            assert(mid.completed_wf(c));
                                            lemma_hops_ok_same_edges(
                                                c.hops@,
                                                c.packet.source_id,
                                                c.packet.destination_id,
                                                mid.links@,
                                                self.links@,
                                            );
                                        }
                                        assert forall|i: int|
                                            0 <= i < self.links@.len() implies (
                                        #[trigger] self.links@[i]).wf() by {
                                            assert(mid.links@[i].wf());
                                        }
                                    }
                                    // The forwarded packet is now one
                                    // hop closer: the steps measure
                                    // drops even with the reply
                                    // potential unchanged.
                                    let d0 = choose|d0: nat|
                                        is_min_dist(
                                            mid.links@,
                                            node_id,
                                            e.packet.destination_id,
                                            d0,
                                        ) && d0 >= 1 && is_min_dist(
                                            mid.links@,
                                            h,
                                            e.packet.destination_id,
                                            (d0 - 1) as nat,
                                        );
                                    lemma_spec_min_dist(
                                        mid.links@,
                                        node_id,
                                        e.packet.destination_id,
                                        d0,
                                    );
                                    assert(spec_reachable(mid.links@, node_id, e.packet.destination_id));
                                    assert(event_steps(mid.links@, e) == 2 * d0 + 1);
                                    if h != e.packet.destination_id {
                                        lemma_spec_min_dist(
                                            mid.links@,
                                            h,
                                            e.packet.destination_id,
                                            (d0 - 1) as nat,
                                        );
                                        assert(spec_reachable(mid.links@, h, e.packet.destination_id));
                                        assert(event_steps(mid.links@, ev) == 2 * (d0 - 1) + 2);
                                    } else {
                                        assert(event_steps(mid.links@, ev) == 1);
                                    }
                                    assert(event_steps(mid.links@, ev) < event_steps(
                                        mid.links@,
                                        e,
                                    ));
                                    lemma_chain_sum_push(mid.event_queue@, ev);
                                    lemma_steps_sum_push(self.links@, mid.event_queue@, ev);
                                    lemma_steps_sum_same_edges(
                                        mid.links@,
                                        self.links@,
                                        mid.event_queue@,
                                    );
                                    lemma_dist_or_same_edges(
                                        mid.links@,
                                        self.links@,
                                        h,
                                        e.packet.destination_id,
                                    );
                                    assert(event_steps(self.links@, ev) == event_steps(
                                        mid.links@,
                                        ev,
                                    ));
                                    assert(queue_steps_sum(self.links@, self.event_queue@)
                                        < queue_steps_sum(mid.links@, mid.event_queue@)
                                        + event_steps(mid.links@, e));
                                }
                            },
                        }
                    },
                }
            },
        }
    }

    /// Runs the simulation to completion, bounded by `duration_ns`:
    /// repeatedly pops the earliest pending event (first-in-first-out
    /// among equal timestamps), advances the clock to it, and
    /// dispatches it, until the queue is empty or its earliest event
    /// lies beyond the horizon.  Events beyond the horizon stay
    /// queued, so a later run with a larger horizon resumes exactly
    /// where this one stopped.
    ///
    /// Termination is real, not assumed: every dispatch either
    /// strictly shortens some packet's remaining shortest-path hops
    /// or consumes reply potential, so the loop measure falls each
    /// iteration.
    pub fn run_simulation(&mut self, duration_ns: u64)
        requires
            old(self).wf(),
        ensures
            final(self).wf(),
            final(self).servers@ == old(self).servers@,
            final(self).clients@ == old(self).clients@,
            links_statics_match(old(self).links@, final(self).links@),
            horizons_advanced(old(self).links@, final(self).links@),
            final(self).current_time_ns >= old(self).current_time_ns,
            final(self).completed_packets@.len() >= old(self).completed_packets@.len(),
            forall|i: int|
                0 <= i < old(self).completed_packets@.len()
                    ==> #[trigger] final(self).completed_packets@[i]
                    == old(self).completed_packets@[i],
            forall|j: int|
                0 <= j < final(self).event_queue@.len()
                    ==> (#[trigger] final(self).event_queue@[j]).time_ns > duration_ns,
            exists|n: nat|
                sim_v(*final(self)) == run_n_v(sim_v(*old(self)), duration_ns, n),
            stopped_v(sim_v(*final(self)), duration_ns),
    {
        let ghost mut steps: nat = 0;
        loop
            invariant
                self.wf(),
                self.servers@ == old(self).servers@,
                self.clients@ == old(self).clients@,
                links_statics_match(old(self).links@, self.links@),
                horizons_advanced(old(self).links@, self.links@),
                self.current_time_ns >= old(self).current_time_ns,
                self.completed_packets@.len() >= old(self).completed_packets@.len(),
                forall|i: int|
                    0 <= i < old(self).completed_packets@.len()
                        ==> #[trigger] self.completed_packets@[i]
                        == old(self).completed_packets@[i],
                sim_v(*self) == run_n_v(sim_v(*old(self)), duration_ns, steps),
            ensures
                self.wf(),
                self.servers@ == old(self).servers@,
                self.clients@ == old(self).clients@,
                links_statics_match(old(self).links@, self.links@),
                horizons_advanced(old(self).links@, self.links@),
                self.current_time_ns >= old(self).current_time_ns,
                self.completed_packets@.len() >= old(self).completed_packets@.len(),
                forall|i: int|
                    0 <= i < old(self).completed_packets@.len()
                        ==> #[trigger] self.completed_packets@[i]
                        == old(self).completed_packets@[i],
                forall|j: int|
                    0 <= j < self.event_queue@.len()
                        ==> (#[trigger] self.event_queue@[j]).time_ns > duration_ns,
                exists|n: nat| sim_v(*self) == run_n_v(sim_v(*old(self)), duration_ns, n),
                stopped_v(sim_v(*self), duration_ns),
            decreases queue_chain_sum(self.event_queue@),
                queue_steps_sum(self.links@, self.event_queue@),
        {
            let idx = match min_event_index(&self.event_queue) {
                None => {
                    proof {
                        assert(sim_v(*self).queue.len() == 0);
                        assert(stopped_v(sim_v(*self), duration_ns));
                        assert(sim_v(*self) == run_n_v(sim_v(*old(self)), duration_ns, steps));
                    }
                    break ;
                },
                Some(i) => i,
            };
            proof {
                let qv = sim_v(*self).queue;
                assert forall|j: int| 0 <= j < qv.len() implies crate::replay::event_le_v(
                    qv[idx as int],
                    #[trigger] qv[j],
                ) by {
                    assert(event_le(self.event_queue@[idx as int], self.event_queue@[j]));
                }
                assert(is_earliest_index_v(qv, idx as int));
                let i2 = crate::replay::earliest_index_v(qv);
                assert(is_earliest_index_v(qv, i2));
                assert forall|i: int, j: int| 0 <= i < j < qv.len() implies qv[i].seq
                    != qv[j].seq by {
                    assert(self.event_queue@[i].seq != self.event_queue@[j].seq);
                }
                lemma_earliest_unique_v(qv, idx as int, i2);
            }
            if self.event_queue[idx].time_ns > duration_ns {
                proof {
                    assert forall|j: int|
                        0 <= j < self.event_queue@.len() implies (
                    #[trigger] self.event_queue@[j]).time_ns > duration_ns by {
                        assert(event_le(self.event_queue@[idx as int], self.event_queue@[j]));
                    }
                    assert(sim_v(*self).queue[crate::replay::earliest_index_v(sim_v(*self).queue)].time_ns
                        > duration_ns);
                    assert(stopped_v(sim_v(*self), duration_ns));
                }
                break ;
            }
            let ghost q0 = self.event_queue@;
            let ghost links0 = self.links@;
            let ghost sim0 = *self;
            let e = self.event_queue.remove(idx);
            proof {
                lemma_chain_sum_remove(q0, idx as int);
                lemma_steps_sum_remove(links0, q0, idx as int);
                assert(sim0.event_wf(e));
                assert forall|j: int|
                    0 <= j < self.event_queue@.len() implies (
                #[trigger] self.event_queue@[j]).time_ns >= e.time_ns by {
                    let j0: int = if j < idx { j } else { j + 1 };
                    assert(self.event_queue@[j] == q0[j0]);
                    assert(event_le(q0[idx as int], q0[j0]));
                }
                assert(self.wf()) by {
                    assert forall|i: int|
                        0 <= i < self.event_queue@.len() implies self.event_wf(
                        #[trigger] self.event_queue@[i],
                    ) by {
                        let i0: int = if i < idx { i } else { i + 1 };
                        assert(self.event_queue@[i] == q0[i0]);
                        assert(sim0.event_wf(q0[i0]));
                    }
                    assert forall|i: int, k: int|
                        0 <= i < k < self.event_queue@.len() implies self.event_queue@[i].seq
                        != self.event_queue@[k].seq by {
                        let i0: int = if i < idx { i } else { i + 1 };
                        let k0: int = if k < idx { k } else { k + 1 };
                        assert(self.event_queue@[i] == q0[i0] && self.event_queue@[k] == q0[k0]);
                    }
                }
            }
            let ghost view_before = sim_v(sim0);
            let ghost popped = event_v(e);
            proof {
                lemma_queue_v_remove(q0, idx as int);
                assert(sim_v(*self) =~= SimV {
                    queue: view_before.queue.remove(idx as int),
                    ..view_before
                });
            }
            self.process_event(e);
            proof {
                assert(view_before.queue[idx as int] == popped);
                assert(spec_step_v(view_before, duration_ns) == Some(sim_v(*self)));
                assert(run_n_v(sim_v(*old(self)), duration_ns, steps + 1) == sim_v(*self));
                steps = steps + 1;
            }
        }
    }

    /// Aggregates the run's results: delivery count, total, least,
    /// greatest and mean end-to-end latency, summed server egress
    /// capacity, and total fiber deployed.
    pub fn analyze_results(&self) -> (r: SimulationReport)
        ensures
            r.delivered == self.completed_packets@.len(),
            r.total_latency_ns == completed_latency_total(self.completed_packets@),
            r.total_capacity_bps == servers_bandwidth_total(self.servers@),
            r.total_fiber_m == links_distance_total(self.links@),
            self.completed_packets@.len() == 0 ==> r.avg_latency_ns == 0 && r.min_latency_ns == 0
                && r.max_latency_ns == 0,
            self.completed_packets@.len() > 0 ==> {
                &&& r.avg_latency_ns == completed_latency_total(self.completed_packets@) as int
                    / self.completed_packets@.len() as int
                &&& r.min_latency_ns == completed_latency_min(self.completed_packets@)
                &&& r.max_latency_ns == completed_latency_max(self.completed_packets@)
            },
    {
        let n = self.completed_packets.len();
        let mut total: u128 = 0;
        let mut min_ns: u64 = 0;
        let mut max_ns: u64 = 0;
        let mut i: usize = 0;
        while i < n
            invariant
                n == self.completed_packets@.len(),
                0 <= i <= n,
                total == completed_latency_total(self.completed_packets@.take(i as int)),
                total <= (i as nat) * 0xffff_ffff_ffff_ffffnat,
                i == 0 ==> min_ns == 0 && max_ns == 0,
                i > 0 ==> min_ns == completed_latency_min(self.completed_packets@.take(i as int))
                    && max_ns == completed_latency_max(self.completed_packets@.take(i as int)),
            decreases n - i,
        {
            let ghost prefix = self.completed_packets@.take(i as int);
            let lat = self.completed_packets[i].latency_ns;
            proof {
                assert(self.completed_packets@.take(i + 1).drop_last() =~= prefix);
                assert(self.completed_packets@.take(i + 1).last()
                    == self.completed_packets@[i as int]);
            }
            proof {
                assert((i as nat + 1) * 0xffff_ffff_ffff_ffffnat == (i as nat)
                    * 0xffff_ffff_ffff_ffffnat + 0xffff_ffff_ffff_ffffnat) by (nonlinear_arith);
            }
            total = total + lat as u128;
            if i == 0 {
                min_ns = lat;
                max_ns = lat;
            } else {
                if lat < min_ns {
                    min_ns = lat;
                }
                if lat > max_ns {
                    max_ns = lat;
                }
            }
            proof {
                let t1 = self.completed_packets@.take(i + 1);
                assert(t1.len() == i + 1);
                if i == 0 {
                    assert(completed_latency_max(prefix) == 0);
                    assert(completed_latency_min(t1) == lat);
                    assert(completed_latency_max(t1) == lat);
                } else {
                    assert(completed_latency_min(t1) == (if lat < completed_latency_min(prefix) {
                        lat
                    } else {
                        completed_latency_min(prefix)
                    }));
                    assert(completed_latency_max(t1) == (if lat > completed_latency_max(prefix) {
                        lat
                    } else {
                        completed_latency_max(prefix)
                    }));
                }
            }
            i += 1;
        }
        proof {
            assert(self.completed_packets@.take(n as int) =~= self.completed_packets@);
        }
        let avg: u128 = if n > 0 {
            total / (n as u128)
        } else {
            0
        };
        let mut capacity: u128 = 0;
        let mut k: usize = 0;
        while k < self.servers.len()
            invariant
                0 <= k <= self.servers@.len(),
                capacity == servers_bandwidth_total(self.servers@.take(k as int)),
                capacity <= (k as nat) * 0xffff_ffff_ffff_ffffnat,
            decreases self.servers@.len() - k,
        {
            proof {
                assert(self.servers@.take(k + 1).drop_last() =~= self.servers@.take(k as int));
                assert(self.servers@.take(k + 1).last() == self.servers@[k as int]);
            }
            proof {
                assert((k as nat + 1) * 0xffff_ffff_ffff_ffffnat == (k as nat)
                    * 0xffff_ffff_ffff_ffffnat + 0xffff_ffff_ffff_ffffnat) by (nonlinear_arith);
            }
            capacity = capacity + self.servers[k].bandwidth_bps as u128;
            k += 1;
        }
        proof {
            assert(self.servers@.take(self.servers@.len() as int) =~= self.servers@);
        }
        let mut fiber: u128 = 0;
        let mut m: usize = 0;
        while m < self.links.len()
            invariant
                0 <= m <= self.links@.len(),
                fiber == links_distance_total(self.links@.take(m as int)),
                fiber <= (m as nat) * 0xffff_ffff_ffff_ffffnat,
            decreases self.links@.len() - m,
        {
            proof {
                assert(self.links@.take(m + 1).drop_last() =~= self.links@.take(m as int));
                assert(self.links@.take(m + 1).last() == self.links@[m as int]);
            }
            proof {
                assert((m as nat + 1) * 0xffff_ffff_ffff_ffffnat == (m as nat)
                    * 0xffff_ffff_ffff_ffffnat + 0xffff_ffff_ffff_ffffnat) by (nonlinear_arith);
            }
            fiber = fiber + self.links[m].distance_m as u128;
            m += 1;
        }
        proof {
            assert(self.links@.take(self.links@.len() as int) =~= self.links@);
        }
        SimulationReport {
            delivered: n,
            total_latency_ns: total,
            avg_latency_ns: avg,
            min_latency_ns: min_ns,
            max_latency_ns: max_ns,
            total_capacity_bps: capacity,
            total_fiber_m: fiber,
        }
    }

    /// Injects a plain data packet; the common case of
    /// `send_packet_ex`.
    pub fn send_packet(&mut self, from: usize, to: usize, size_bytes: usize)
        requires
            old(self).wf(),
            size_bytes <= MAX_PACKET_BYTES,
        ensures
            final(self).wf(),
            inject_post(
                *old(self),
                *final(self),
                from,
                to,
                size_bytes,
                PacketType::Standard,
            ),
            final(self).servers@ == old(self).servers@,
            final(self).clients@ == old(self).clients@,
            final(self).current_time_ns == old(self).current_time_ns,
            final(self).completed_packets@ == old(self).completed_packets@,
            links_statics_match(old(self).links@, final(self).links@),
            horizons_advanced(old(self).links@, final(self).links@),
    {
        self.send_packet_ex(from, to, size_bytes, PacketType::Standard)
    }
}

/// Law: for any completed packet, the recorded end-to-end latency is
/// at least the summed propagation latencies of the link chain it
/// actually traversed — queuing and processing only ever add delay —
/// and that chain is a real sequence of topology links leading from
/// the packet's source to its destination.
pub proof fn lemma_completed_latency_dominates_propagation(sim: NetworkSimulation, i: int)
    requires
        sim.wf(),
        0 <= i < sim.completed_packets@.len(),
    ensures
        sim.completed_packets@[i].latency_ns >= hops_latency_sum(sim.completed_packets@[i].hops@),
        hops_ok(
            sim.completed_packets@[i].hops@,
            sim.completed_packets@[i].packet.source_id,
            sim.completed_packets@[i].packet.destination_id,
            sim.links@,
        ),
{
    assert(sim.completed_wf(sim.completed_packets@[i]));
}

/// Law: a hop returned by the router starts a shortest hop-count
/// path: a real link leads from `from` to the hop, and the hop's own
/// shortest distance to the destination is exactly one less than
/// `from`'s.
pub proof fn lemma_next_hop_on_shortest_path(
    links: Seq<NetworkLink>,
    from: usize,
    to: usize,
    h: usize,
)
    requires
        next_hop_post(links, from, to, Some(h)),
    ensures
        exists|j: int| link_matches(links, j, from, h),
        exists|d: nat|
            is_min_dist(links, from, to, d) && d >= 1 && #[trigger] is_min_dist(
                links,
                h,
                to,
                (d - 1) as nat,
            ),
{
    let i = choose|i: int| #[trigger]
        is_first_shortest_link(links, from, to, i) && links[i].to == h;
    assert(link_matches(links, i, from, h));
    let d = choose|d: nat|
        is_min_dist(links, from, to, d) && d >= 1 && is_min_dist(links, h, to, (d - 1) as nat);
    assert(is_min_dist(links, h, to, (d - 1) as nat));
}

/// Law: injecting a packet toward an unreachable destination (or
/// from a node to itself) changes nothing: the packet is dropped
/// without consuming an id, scheduling an event, or touching a link.
pub proof fn lemma_unroutable_injection_is_noop(
    pre: NetworkSimulation,
    post: NetworkSimulation,
    from: usize,
    to: usize,
    size_bytes: usize,
    p_type: PacketType,
)
    requires
        inject_post(pre, post, from, to, size_bytes, p_type),
        from == to || !spec_reachable(pre.links@, from, to),
    ensures
        sim_eq(post, pre),
{
}

/// Law: the scheduler has no arbitrary choice.  With pairwise
/// distinct sequence numbers — which the engine maintains — at most
/// one pending event is earliest under the processing order, so two
/// runs of one state pop the same events in the same order.
pub proof fn lemma_earliest_event_unique(q: Seq<Event>, i1: int, i2: int)
    requires
        forall|i: int, j: int| 0 <= i < j < q.len() ==> q[i].seq != q[j].seq,
        0 <= i1 < q.len(),
        0 <= i2 < q.len(),
        forall|j: int| 0 <= j < q.len() ==> event_le(q[i1], #[trigger] q[j]),
        forall|j: int| 0 <= j < q.len() ==> event_le(q[i2], #[trigger] q[j]),
    ensures
        i1 == i2,
{
    assert(event_le(q[i1], q[i2]));
    assert(event_le(q[i2], q[i1]));
    if i1 != i2 {
        assert(q[i1].seq == q[i2].seq);
        if i1 < i2 {
            assert(q[i1].seq != q[i2].seq);
        } else {
            assert(q[i2].seq != q[i1].seq);
        }
    }
}

} // verus!
