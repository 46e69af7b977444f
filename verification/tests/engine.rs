use netsim::packet::PacketType;
use netsim::sim::NetworkSimulation;
use netsim::topology::{Client, GeoLocation, NetworkLink, Server, SimError};

fn place(name: &str) -> GeoLocation {
    GeoLocation { lat_microdeg: 0, lon_microdeg: 0, name: String::from(name) }
}

fn client(id: usize, name: &str) -> Client {
    Client { id, location: place(name) }
}

fn server(id: usize, name: &str, processing_delay_ns: u64, bandwidth_bps: u64) -> Server {
    Server { id, location: place(name), processing_delay_ns, bandwidth_bps }
}

/// Two clients joined both ways by 1000 km of fiber at the given
/// bandwidth.
fn pair(bandwidth_bps: u64) -> NetworkSimulation {
    let mut sim = NetworkSimulation::new();
    sim.add_client(client(1, "left")).unwrap();
    sim.add_client(client(2, "right")).unwrap();
    sim.connect_nodes(1, 2, 1_000_000, bandwidth_bps).unwrap();
    sim.connect_nodes(2, 1, 1_000_000, bandwidth_bps).unwrap();
    sim
}

#[test]
fn link_derives_latency_from_distance() {
    let sim = {
        let mut s = NetworkSimulation::new();
        s.add_client(client(1, "a")).unwrap();
        s.add_client(client(2, "b")).unwrap();
        s.connect_nodes(1, 2, 1_000_000, 1_000_000_000).unwrap();
        s
    };
    assert_eq!(sim.links.len(), 1);
    let link = &sim.links[0];
    assert_eq!(link.from, 1);
    assert_eq!(link.to, 2);
    // 1000 km of straight line become 1300 km of cable.
    assert_eq!(link.distance_m, 1_300_000);
    // 1300 km of fiber at c / 1.47.
    assert_eq!(link.latency_ns, 6_374_409);
    assert_eq!(link.bandwidth_bps, 1_000_000_000);
    assert_eq!(link.queue_horizon_ns, 0);
}

#[test]
fn transmission_time_is_bits_over_bandwidth() {
    let link = NetworkLink::new(1, 2, 1_000_000, 1_000_000_000);
    // 1500 bytes at 1 Gbps: 12 microseconds.
    assert_eq!(link.transmission_time(1500), 12_000);
    let slow = NetworkLink::new(1, 2, 1_000_000, 1);
    assert_eq!(slow.transmission_time(1), 8_000_000_000);
}

#[test]
fn reserve_transmission_serializes_back_to_back_sends() {
    let mut link = NetworkLink::new(1, 2, 1_000_000, 1_000_000_000);
    let (arrival1, dur1) = link.reserve_transmission(0, 1500).unwrap();
    assert_eq!(dur1, 12_000);
    assert_eq!(arrival1, 6_374_409 + 12_000);
    assert_eq!(link.queue_horizon_ns, 12_000);
    // A second request at time zero queues behind the first slot.
    let (arrival2, dur2) = link.reserve_transmission(0, 1500).unwrap();
    assert_eq!(dur2, 12_000);
    assert_eq!(arrival2, 12_000 + 6_374_409 + 12_000);
    assert_eq!(link.queue_horizon_ns, 24_000);
    // A request after the queue drains starts at its own time.
    let (arrival3, _) = link.reserve_transmission(1_000_000, 1500).unwrap();
    assert_eq!(arrival3, 1_000_000 + 6_374_409 + 12_000);
    assert_eq!(link.queue_horizon_ns, 1_012_000);
}

#[test]
fn queue_horizon_never_decreases() {
    let mut link = NetworkLink::new(1, 2, 500_000, 10_000_000_000);
    let mut last = link.queue_horizon_ns;
    for step in 0..20 {
        link.reserve_transmission(step * 1_000, 9_000).unwrap();
        assert!(link.queue_horizon_ns >= last);
        last = link.queue_horizon_ns;
    }
}

#[test]
fn single_packet_latency_is_propagation_plus_transmission() {
    let mut sim = pair(1_000_000_000);
    sim.send_packet(1, 2, 1500);
    sim.run_simulation(1_000_000_000);
    assert_eq!(sim.completed_packets.len(), 1);
    let done = &sim.completed_packets[0];
    assert_eq!(done.packet.source_id, 1);
    assert_eq!(done.packet.destination_id, 2);
    // 6.374409 ms of propagation plus 12 us of serialization.
    assert_eq!(done.latency_ns, 6_374_409 + 12_000);
}

#[test]
fn burst_latencies_grow_by_one_transmission_each() {
    let mut sim = pair(10_000_000_000);
    for _ in 0..10 {
        sim.send_packet(1, 2, 10_000_000);
    }
    sim.run_simulation(10_000_000_000);
    assert_eq!(sim.completed_packets.len(), 10);
    // Each 10 MB packet holds the 10 Gbps link for 8 ms; the k-th
    // finishes one full transmission after the (k-1)-th.
    for k in 0..10 {
        let lat = sim.completed_packets[k].latency_ns;
        assert_eq!(lat, 6_374_409 + (k as u64 + 1) * 8_000_000);
    }
}

#[test]
fn handshake_completes_three_packets_in_order() {
    let mut sim = pair(1_000_000_000);
    sim.send_packet_ex(1, 2, 64, PacketType::TcpSyn);
    sim.run_simulation(1_000_000_000);
    assert_eq!(sim.completed_packets.len(), 3);
    let kinds: Vec<PacketType> =
        sim.completed_packets.iter().map(|c| c.packet.packet_type).collect();
    assert_eq!(
        kinds,
        vec![PacketType::TcpSyn, PacketType::TcpSynAck, PacketType::TcpAck]
    );
    // Completion instants strictly increase: each leg takes one
    // propagation plus one 64-byte serialization.
    let mut finish_times = Vec::new();
    for c in sim.completed_packets.iter() {
        finish_times.push(c.packet.created_at_ns + c.latency_ns);
    }
    assert_eq!(finish_times, vec![6_374_921, 12_749_842, 19_124_763]);
    assert!(finish_times[0] < finish_times[1] && finish_times[1] < finish_times[2]);
    // The opening packet went 1 -> 2; the scripted reply 2 -> 1.
    assert_eq!(sim.completed_packets[1].packet.source_id, 2);
    assert_eq!(sim.completed_packets[1].packet.destination_id, 1);
}

#[test]
fn unroutable_injection_completes_nothing_and_schedules_nothing() {
    let mut sim = NetworkSimulation::new();
    sim.add_client(client(1, "a")).unwrap();
    sim.add_client(client(2, "b")).unwrap();
    sim.add_client(client(3, "island")).unwrap();
    sim.connect_nodes(1, 2, 1_000_000, 1_000_000_000).unwrap();
    sim.send_packet(1, 3, 1500);
    assert_eq!(sim.event_queue.len(), 0);
    sim.run_simulation(1_000_000_000);
    assert_eq!(sim.completed_packets.len(), 0);
    assert_eq!(sim.event_queue.len(), 0);
}

#[test]
fn reply_toward_unreachable_source_is_dropped() {
    // The request can reach the destination, but nothing routes
    // back: the scripted reply is dropped and the run still ends.
    let mut sim = NetworkSimulation::new();
    sim.add_client(client(1, "asker")).unwrap();
    sim.add_client(client(2, "answerer")).unwrap();
    sim.connect_nodes(1, 2, 1_000_000, 1_000_000_000).unwrap();
    sim.send_packet_ex(1, 2, 64, PacketType::TcpSyn);
    sim.run_simulation(1_000_000_000);
    assert_eq!(sim.completed_packets.len(), 1);
    assert_eq!(sim.event_queue.len(), 0);
}

#[test]
fn identical_runs_give_identical_completions() {
    let build = || {
        let mut sim = NetworkSimulation::new();
        sim.add_client(client(100, "user")).unwrap();
        sim.add_server(server(1, "hub", 500_000, 100_000_000_000)).unwrap();
        sim.add_client(client(2, "peer")).unwrap();
        sim.connect_nodes(100, 1, 50_000, 10_000_000_000).unwrap();
        sim.connect_nodes(1, 2, 1_000_000, 10_000_000_000).unwrap();
        sim.connect_nodes(2, 1, 1_000_000, 10_000_000_000).unwrap();
        sim.connect_nodes(1, 100, 50_000, 10_000_000_000).unwrap();
        sim.send_packet(100, 2, 1500);
        sim.send_packet_ex(100, 2, 64, PacketType::TcpSyn);
        sim.send_packet_ex(100, 2, 512, PacketType::CdnRequest);
        sim.run_simulation(1_000_000_000);
        sim
    };
    let a = build();
    let b = build();
    assert_eq!(a.completed_packets.len(), b.completed_packets.len());
    for (x, y) in a.completed_packets.iter().zip(b.completed_packets.iter()) {
        assert_eq!(x.packet.id, y.packet.id);
        assert_eq!(x.packet.packet_type, y.packet.packet_type);
        assert_eq!(x.packet.created_at_ns, y.packet.created_at_ns);
        assert_eq!(x.latency_ns, y.latency_ns);
    }
    assert_eq!(a.event_queue.len(), b.event_queue.len());
    assert_eq!(a.current_time_ns, b.current_time_ns);
}

#[test]
fn duplicate_node_id_is_rejected() {
    let mut sim = NetworkSimulation::new();
    sim.add_server(server(1, "hub", 500_000, 1_000_000_000)).unwrap();
    let again = sim.add_client(client(1, "imposter"));
    assert_eq!(again, Err(SimError::DuplicateNodeId(1)));
    let twice = sim.add_server(server(1, "hub", 500_000, 1_000_000_000));
    assert_eq!(twice, Err(SimError::DuplicateNodeId(1)));
    assert_eq!(sim.servers.len(), 1);
    assert_eq!(sim.clients.len(), 0);
}

#[test]
fn connecting_unknown_nodes_is_rejected() {
    let mut sim = NetworkSimulation::new();
    sim.add_client(client(1, "a")).unwrap();
    assert_eq!(
        sim.connect_nodes(9, 1, 1_000_000, 1_000_000_000),
        Err(SimError::NodeNotFound(9))
    );
    assert_eq!(
        sim.connect_nodes(1, 9, 1_000_000, 1_000_000_000),
        Err(SimError::NodeNotFound(9))
    );
    assert_eq!(sim.links.len(), 0);
}

#[test]
fn node_lookup_by_id() {
    let mut sim = NetworkSimulation::new();
    sim.add_server(server(1, "hub", 500_000, 1_000_000_000)).unwrap();
    sim.add_client(client(100, "user")).unwrap();
    assert_eq!(sim.get_node_name(1).unwrap(), String::from("hub"));
    assert_eq!(sim.get_node_name(100).unwrap(), String::from("user"));
    assert_eq!(sim.get_node_name(7), Err(SimError::NodeNotFound(7)));
    assert_eq!(sim.get_node_location(100).unwrap().name, String::from("user"));
    assert!(sim.get_node_location(7).is_err());
}

#[test]
fn next_hop_follows_shortest_path_with_insertion_order_ties() {
    let mut sim = NetworkSimulation::new();
    for id in 1..=4 {
        sim.add_client(client(id, "n")).unwrap();
    }
    sim.connect_nodes(1, 2, 1_000, 1_000_000_000).unwrap();
    sim.connect_nodes(2, 4, 1_000, 1_000_000_000).unwrap();
    sim.connect_nodes(1, 3, 1_000, 1_000_000_000).unwrap();
    sim.connect_nodes(3, 4, 1_000, 1_000_000_000).unwrap();
    // Two 2-hop paths; the earlier-inserted first link wins.
    assert_eq!(sim.find_next_hop(1, 4), Some(2));
    // A later direct link shortens the path and takes over.
    sim.connect_nodes(1, 4, 1_000, 1_000_000_000).unwrap();
    assert_eq!(sim.find_next_hop(1, 4), Some(4));
    // No hop for self-routing or unreachable destinations.
    assert_eq!(sim.find_next_hop(1, 1), None);
    assert_eq!(sim.find_next_hop(4, 1), None);
    assert_eq!(sim.find_next_hop(1, 99), None);
}

#[test]
fn routing_terminates_in_cyclic_graphs() {
    let mut sim = NetworkSimulation::new();
    for id in 1..=3 {
        sim.add_client(client(id, "n")).unwrap();
    }
    sim.connect_nodes(1, 2, 1_000, 1_000_000_000).unwrap();
    sim.connect_nodes(2, 1, 1_000, 1_000_000_000).unwrap();
    sim.connect_nodes(2, 3, 1_000, 1_000_000_000).unwrap();
    sim.connect_nodes(3, 2, 1_000, 1_000_000_000).unwrap();
    assert_eq!(sim.find_next_hop(1, 3), Some(2));
    assert_eq!(sim.find_next_hop(3, 1), Some(2));
    assert_eq!(sim.find_next_hop(1, 4), None);
}

#[test]
fn later_run_with_larger_horizon_resumes() {
    let mut sim = pair(1_000_000_000);
    sim.send_packet(1, 2, 1500);
    // The horizon falls short of the arrival: the event stays queued.
    sim.run_simulation(1_000_000);
    assert_eq!(sim.completed_packets.len(), 0);
    assert_eq!(sim.event_queue.len(), 1);
    // A later, larger horizon drains it with the same arrival time.
    sim.run_simulation(1_000_000_000);
    assert_eq!(sim.completed_packets.len(), 1);
    assert_eq!(sim.completed_packets[0].latency_ns, 6_386_409);
}

#[test]
fn intermediate_server_adds_processing_delay() {
    let mut sim = NetworkSimulation::new();
    sim.add_client(client(1, "src")).unwrap();
    sim.add_server(server(2, "mid", 500_000, 100_000_000_000)).unwrap();
    sim.add_client(client(3, "dst")).unwrap();
    sim.connect_nodes(1, 2, 1_000_000, 1_000_000_000).unwrap();
    sim.connect_nodes(2, 3, 1_000_000, 1_000_000_000).unwrap();
    sim.send_packet(1, 3, 1500);
    sim.run_simulation(1_000_000_000);
    assert_eq!(sim.completed_packets.len(), 1);
    // Two identical legs plus the server's fixed processing delay.
    assert_eq!(
        sim.completed_packets[0].latency_ns,
        2 * (6_374_409 + 12_000) + 500_000
    );
}

#[test]
fn clients_forward_without_processing_delay() {
    let mut sim = NetworkSimulation::new();
    sim.add_client(client(1, "src")).unwrap();
    sim.add_client(client(2, "mid")).unwrap();
    sim.add_client(client(3, "dst")).unwrap();
    sim.connect_nodes(1, 2, 1_000_000, 1_000_000_000).unwrap();
    sim.connect_nodes(2, 3, 1_000_000, 1_000_000_000).unwrap();
    sim.send_packet(1, 3, 1500);
    sim.run_simulation(1_000_000_000);
    assert_eq!(sim.completed_packets.len(), 1);
    assert_eq!(sim.completed_packets[0].latency_ns, 2 * (6_374_409 + 12_000));
}

#[test]
fn zero_distance_zero_size_traffic_still_terminates() {
    let mut sim = NetworkSimulation::new();
    sim.add_client(client(1, "here")).unwrap();
    sim.add_client(client(2, "alsohere")).unwrap();
    sim.connect_nodes(1, 2, 0, 1_000_000_000_000).unwrap();
    sim.connect_nodes(2, 1, 0, 1_000_000_000_000).unwrap();
    sim.send_packet(1, 2, 0);
    sim.send_packet_ex(1, 2, 0, PacketType::TcpSyn);
    sim.run_simulation(u64::MAX);
    // Data packet, opening packet, and its two scripted replies.
    assert_eq!(sim.completed_packets.len(), 4);
    assert_eq!(sim.event_queue.len(), 0);
    for c in sim.completed_packets.iter() {
        assert_eq!(c.latency_ns, 0);
    }
}

#[test]
fn packet_ids_are_unique_within_a_run() {
    let mut sim = pair(1_000_000_000);
    sim.send_packet_ex(1, 2, 512, PacketType::CdnRequest);
    sim.send_packet(1, 2, 100);
    sim.run_simulation(1_000_000_000);
    let mut ids: Vec<usize> = sim.completed_packets.iter().map(|c| c.packet.id).collect();
    let before = ids.len();
    ids.sort();
    ids.dedup();
    assert_eq!(ids.len(), before);
}
