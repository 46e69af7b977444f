use netsim::extensions::print_top_three_extensions;
use netsim::moon::print_earth_moon_scenario;
use netsim::packet::PacketType;
use netsim::sim::NetworkSimulation;
use netsim::theories::TheoryTests;
use netsim::topology::{Client, GeoLocation, Server};

fn place(name: &str) -> GeoLocation {
    GeoLocation { lat_microdeg: 0, lon_microdeg: 0, name: String::from(name) }
}

fn client(id: usize, name: &str) -> Client {
    Client { id, location: place(name) }
}

fn server(id: usize, name: &str, processing_delay_ns: u64, bandwidth_bps: u64) -> Server {
    Server { id, location: place(name), processing_delay_ns, bandwidth_bps }
}

fn pair(bandwidth_bps: u64) -> NetworkSimulation {
    let mut sim = NetworkSimulation::new();
    sim.add_client(client(1, "left")).unwrap();
    sim.add_client(client(2, "right")).unwrap();
    sim.connect_nodes(1, 2, 1_000_000, bandwidth_bps).unwrap();
    sim.connect_nodes(2, 1, 1_000_000, bandwidth_bps).unwrap();
    sim
}

#[test]
fn analyze_results_on_empty_simulation() {
    let sim = NetworkSimulation::new();
    let report = sim.analyze_results();
    assert_eq!(report.delivered, 0);
    assert_eq!(report.total_latency_ns, 0);
    assert_eq!(report.avg_latency_ns, 0);
    assert_eq!(report.min_latency_ns, 0);
    assert_eq!(report.max_latency_ns, 0);
    assert_eq!(report.total_capacity_bps, 0);
    assert_eq!(report.total_fiber_m, 0);
}

#[test]
fn analyze_results_aggregates_latencies_and_topology() {
    let mut sim = pair(10_000_000_000);
    sim.add_server(server(7, "idle", 0, 100_000_000_000)).unwrap();
    sim.add_server(server(8, "spare", 0, 50_000_000_000)).unwrap();
    for _ in 0..10 {
        sim.send_packet(1, 2, 10_000_000);
    }
    sim.run_simulation(10_000_000_000);
    let report = sim.analyze_results();
    assert_eq!(report.delivered, 10);
    assert_eq!(report.min_latency_ns, 6_374_409 + 8_000_000);
    assert_eq!(report.max_latency_ns, 6_374_409 + 10 * 8_000_000);
    // Sum of an arithmetic progression of ten transmissions.
    let expected_total: u128 = (1..=10u128).map(|k| 6_374_409 + k * 8_000_000).sum();
    assert_eq!(report.total_latency_ns, expected_total);
    assert_eq!(report.avg_latency_ns, expected_total / 10);
    assert_eq!(report.total_capacity_bps, 150_000_000_000);
    // Two 1300 km cables.
    assert_eq!(report.total_fiber_m, 2_600_000);
}

#[test]
fn bufferbloat_demonstration_clogs_one_link() {
    let mut sim = pair(10_000_000_000);
    TheoryTests::demonstrate_bufferbloat(&mut sim, 1, 2);
    assert_eq!(sim.event_queue.len(), 10);
    sim.run_simulation(100_000_000_000);
    assert_eq!(sim.completed_packets.len(), 10);
    for (k, c) in sim.completed_packets.iter().enumerate() {
        assert_eq!(c.packet.packet_type, PacketType::Standard);
        assert_eq!(c.packet.size_bytes, 10_000_000);
        assert_eq!(c.latency_ns, 6_374_409 + (k as u64 + 1) * 8_000_000);
    }
}

#[test]
fn handshake_demonstration_runs_the_full_exchange() {
    let mut sim = pair(1_000_000_000);
    TheoryTests::demonstrate_tcp_handshake(&mut sim, 1, 2);
    sim.run_simulation(1_000_000_000);
    let kinds: Vec<PacketType> =
        sim.completed_packets.iter().map(|c| c.packet.packet_type).collect();
    assert_eq!(
        kinds,
        vec![PacketType::TcpSyn, PacketType::TcpSynAck, PacketType::TcpAck]
    );
}

#[test]
fn cdn_demonstration_favors_the_edge() {
    let mut sim = NetworkSimulation::new();
    sim.add_client(client(100, "user")).unwrap();
    sim.add_server(server(1, "edge", 500_000, 100_000_000_000)).unwrap();
    sim.add_server(server(5, "origin", 600_000, 200_000_000_000)).unwrap();
    // The edge sits 50 km away, the origin an ocean away.
    sim.connect_nodes(100, 1, 50_000, 10_000_000_000).unwrap();
    sim.connect_nodes(1, 100, 50_000, 10_000_000_000).unwrap();
    sim.connect_nodes(100, 5, 12_000_000, 10_000_000_000).unwrap();
    sim.connect_nodes(5, 100, 12_000_000, 10_000_000_000).unwrap();
    TheoryTests::demonstrate_cdn_solution(&mut sim, 100, 5, 1);
    sim.run_simulation(1_000_000_000_000);
    // Both requests and both cached responses complete.
    assert_eq!(sim.completed_packets.len(), 4);
    let mut response_finishes = Vec::new();
    for c in sim.completed_packets.iter() {
        if c.packet.packet_type == PacketType::CdnResponse {
            response_finishes.push((c.packet.source_id, c.packet.created_at_ns + c.latency_ns));
        }
    }
    assert_eq!(response_finishes.len(), 2);
    let edge_finish = response_finishes.iter().find(|r| r.0 == 1).unwrap().1;
    let origin_finish = response_finishes.iter().find(|r| r.0 == 5).unwrap().1;
    assert!(edge_finish < origin_finish);
}

#[test]
fn protocol_comparison_figures() {
    let report = print_top_three_extensions();
    let p = &report.protocols;
    assert_eq!(p.baseline_surface_hm, 3_762_916);
    assert_eq!(p.one_way_us, 1_255_173);
    assert_eq!(p.rtt_us, 2_510_346);
    assert_eq!(p.tls12_startup_us, 4 * 2_510_346);
    assert_eq!(p.tls13_startup_us, 3 * 2_510_346);
    assert_eq!(p.quic_1rtt_startup_us, 2 * 2_510_346);
    assert_eq!(p.quic_0rtt_startup_us, 2_510_346);
    assert_eq!(p.scheduled_transfer_total_us, 450_000_000 + 1_255_173);
}

#[test]
fn orbital_dynamics_table_swings_between_perigee_and_apogee() {
    let report = print_top_three_extensions();
    let o = &report.orbital;
    assert_eq!(o.samples.len(), 10);
    let first = o.samples[0];
    assert_eq!(first.day, 0);
    // Day zero starts the cycle at perigee exactly.
    assert_eq!(first.surface_hm, 3_551_916);
    assert_eq!(first.one_way_us, 1_184_791);
    assert_eq!(first.rtt_us, 2_369_582);
    for (k, s) in o.samples.iter().enumerate() {
        assert_eq!(s.day, 3 * k as u64);
        assert_eq!(s.rtt_us, 2 * s.one_way_us);
        assert!(o.min_rtt_us <= s.rtt_us && s.rtt_us <= o.max_rtt_us);
    }
    assert_eq!(o.min_rtt_us, 2_369_582);
    assert_eq!(o.max_rtt_us, 2_645_610);
}

#[test]
fn line_of_sight_outages_and_relay_tradeoff() {
    let report = print_top_three_extensions();
    let l = &report.line_of_sight;
    assert_eq!(l.total_hours, 672);
    assert_eq!(l.visible_hours, 185);
    assert_eq!(l.direct_uptime_permille, 275);
    assert_eq!(l.direct_avg_one_way_us, 1_254_396);
    assert_eq!(l.relay_avg_one_way_us, 1_294_082);
    assert_eq!(l.relay_penalty_one_way_us, 40_027);
    assert_eq!(l.relay_uptime_permille, 998);
}

#[test]
fn earth_moon_scenario_figures() {
    let report = print_earth_moon_scenario();
    assert_eq!(report.perigee.surface_hm, 3_551_916);
    assert_eq!(report.average.surface_hm, 3_762_916);
    assert_eq!(report.apogee.surface_hm, 3_973_916);
    assert_eq!(report.perigee.one_way_us, 1_184_791);
    assert_eq!(report.average.one_way_us, 1_255_173);
    assert_eq!(report.apogee.one_way_us, 1_325_555);
    assert_eq!(report.perigee.rtt_us, 2_369_582);
    assert_eq!(report.apogee.rtt_us, 2_651_110);
    assert_eq!(report.perigee.client_ready_us, 2_369_582);
    assert_eq!(report.perigee.server_ready_us, 3_554_373);
    assert_eq!(report.apogee.server_ready_us, 3_976_665);
}
