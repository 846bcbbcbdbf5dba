use neuro_compiler::mapping::{delay_ticks, partition, placement, resource_check, routing, timing};
use neuro_compiler::{
    AttrValue, Capabilities, Connection, Entity, Fixed, Graph, PartitionPass, PlacementStatus, Population,
    RoutingStatus, Strategy, ViolationCode,
};

fn pop(name: &str, size: u32) -> Population {
    Population { name: name.to_string(), size, model: "LIF".to_string(), params: serde_json::Value::Null }
}

fn conn(pre: &str, post: &str, delay_ns: i64) -> Connection {
    Connection {
        pre: pre.to_string(),
        post: post.to_string(),
        weight: Fixed::Finite(500_000),
        delay_ms: Fixed::Finite(delay_ns),
        plasticity: None,
    }
}

fn neuron_caps(n: u32) -> Capabilities {
    let mut c = Capabilities::empty();
    c.max_neurons_per_core = Some(n);
    c
}

fn partitioned(g: Graph, caps: Option<&Capabilities>) -> Graph {
    match PartitionPass.run(g, caps) {
        Ok(g) => g,
        Err(_) => panic!("partition failed"),
    }
}

#[test]
fn three_equal_populations_get_one_partition_each() {
    let mut g = Graph::new("g");
    g.populations.push(pop("a", 8));
    g.populations.push(pop("b", 8));
    g.populations.push(pop("c", 8));
    let caps = neuron_caps(10);
    let r = partition(&g, Some(&caps));
    assert_eq!(r.parts, 3);
    assert_eq!(r.strategy, Strategy::CapAware);
    let parts: Vec<(String, usize)> = r.assignment.iter().map(|(n, p)| (n.clone(), *p)).collect();
    assert_eq!(parts, vec![("a".to_string(), 0), ("b".to_string(), 1), ("c".to_string(), 2)]);
    assert!(r.violations.is_empty());
}

#[test]
fn oversize_population_is_reported_and_still_assigned() {
    let mut g = Graph::new("g");
    g.populations.push(pop("big", 20));
    let caps = neuron_caps(10);
    let r = partition(&g, Some(&caps));
    assert_eq!(r.parts, 2);
    assert_eq!(r.assignment.len(), 1);
    assert_eq!(r.assignment[0].0, "big");
    assert!(r.assignment[0].1 < r.parts);
    assert_eq!(r.violations.len(), 1);
    let v = &r.violations[0];
    assert_eq!(v.code, ViolationCode::PopExceedsMaxNeuronsPerCore);
    assert_eq!(v.code.as_str(), "POP_EXCEEDS_MAX_NEURONS_PER_CORE");
    assert!(matches!(&v.entity, Entity::Population(n) if n == "big"));
    assert_eq!((v.observed, v.limit), (20, 10));
}

#[test]
fn half_millisecond_steps_round_up_to_whole_ticks() {
    assert_eq!(delay_ticks(Fixed::Finite(2_500_000), 1_000_000), 3);
    let mut g = Graph::new("g");
    g.populations.push(pop("a", 1));
    g.connections.push(conn("a", "a", 2_500_000));
    let mut caps = Capabilities::empty();
    caps.time_resolution_ns = Some(1_000_000);
    let t = timing(&g, Some(&caps));
    assert_eq!((t.min_delay_ticks, t.max_delay_ticks, t.avg_delay_ticks), (3, 3, 3_000_000));
}

#[test]
fn naive_partition_without_limits() {
    let mut g = Graph::new("g");
    g.populations.push(pop("small", 1));
    g.populations.push(pop("large", 50));
    let r = partition(&g, None);
    assert_eq!((r.parts, r.strategy), (1, Strategy::Naive));
    assert_eq!(r.strategy.as_str(), "naive");
    assert_eq!(r.assignment[0], ("small".to_string(), 0));
    assert_eq!(r.assignment[1], ("large".to_string(), 0));
}

#[test]
fn greedy_order_is_largest_first_and_balances_loads() {
    let mut g = Graph::new("g");
    g.populations.push(pop("a", 3));
    g.populations.push(pop("b", 7));
    g.populations.push(pop("c", 5));
    g.populations.push(pop("d", 5));
    let caps = neuron_caps(10);
    let r = partition(&g, Some(&caps));
    // 20 units over limit 10: two partitions
    assert_eq!(r.parts, 2);
    let got: Vec<(&str, usize)> = r.assignment.iter().map(|(n, p)| (n.as_str(), *p)).collect();
    assert_eq!(got, vec![("b", 0), ("c", 1), ("d", 1), ("a", 0)]);
}

#[test]
fn parts_cover_units_and_synapses() {
    let mut g = Graph::new("g");
    g.populations.push(pop("a", 7));
    g.populations.push(pop("b", 7));
    for _ in 0..9 {
        g.connections.push(conn("a", "b", 0));
    }
    let mut caps = neuron_caps(5);
    caps.max_synapses_per_core = Some(2);
    let r = partition(&g, Some(&caps));
    // ceil(14 / 5) = 3, ceil(9 / 2) = 5
    assert_eq!(r.parts, 5);
    let caps = neuron_caps(4);
    assert!(partition(&g, Some(&caps)).parts >= 4);
}

fn two_part_graph() -> (Graph, Capabilities) {
    let mut g = Graph::new("g");
    g.populations.push(pop("a", 6));
    g.populations.push(pop("b", 6));
    g.connections.push(conn("a", "a", 0));
    g.connections.push(conn("a", "b", 1_000_000));
    g.connections.push(conn("b", "a", 4_000_000));
    g.connections.push(conn("a", "b", 2_000_000));
    let caps = neuron_caps(6);
    let g = partitioned(g, Some(&caps));
    (g, caps)
}

#[test]
fn placement_counts_intra_partition_synapses_only() {
    let (g, caps) = two_part_graph();
    let p = placement(&g, Some(&caps));
    assert_eq!(p.parts, 2);
    assert_eq!(p.neurons_per_part, vec![6, 6]);
    assert_eq!(p.synapses_per_part.iter().sum::<usize>(), 1);
    assert!(p.synapses_per_part.iter().sum::<usize>() <= g.connections.len());
    assert_eq!(p.status, PlacementStatus::Fits);
}

#[test]
fn placement_sum_equals_total_when_all_intra() {
    let mut g = Graph::new("g");
    g.populations.push(pop("a", 2));
    g.connections.push(conn("a", "a", 0));
    g.connections.push(conn("a", "a", 0));
    let p = placement(&g, None);
    assert_eq!(p.synapses_per_part, vec![2]);
}

#[test]
fn placement_memory_and_fan_violations() {
    let mut g = Graph::new("g");
    g.populations.push(pop("a", 100));
    g.populations.push(pop("b", 1));
    g.connections.push(conn("a", "b", 0));
    g.connections.push(conn("a", "b", 0));
    let mut caps = Capabilities::empty();
    caps.core_memory_kib = Some(1);
    caps.max_fan_in = Some(1);
    caps.max_fan_out = Some(1);
    let p = placement(&g, Some(&caps));
    // 101 neurons * 0.01 KiB + 2 synapses * 0.001 KiB = 1.012 KiB
    assert_eq!(p.status, PlacementStatus::Violations);
    assert_eq!(p.status.as_str(), "violations");
    let codes: Vec<ViolationCode> = p.violations.iter().map(|v| v.code).collect();
    assert_eq!(codes, vec![ViolationCode::CoreMemoryExceeded, ViolationCode::MaxFanOutExceeded, ViolationCode::MaxFanInExceeded]);
    assert_eq!((p.violations[0].observed, p.violations[0].limit), (1_012_000, 1_000_000));
}

#[test]
fn routing_matrix_sums_to_cross_edges() {
    let (g, caps) = two_part_graph();
    let r = routing(&g, Some(&caps));
    assert_eq!(r.cross_edges, 3);
    assert_eq!(r.matrix.len(), 2);
    for i in 0..2 {
        assert_eq!(r.matrix[i][i], 0);
    }
    let total: usize = r.matrix.iter().map(|row| row.iter().sum::<usize>()).sum();
    assert_eq!(total, r.cross_edges);
    // 3 edges * 100 Hz * 4 bytes * 8 bits = 9600 bit/s
    assert_eq!(r.estimated_bandwidth, 9_600_000_000);
    assert_eq!(r.status, RoutingStatus::Clear);
}

#[test]
fn routing_congested_only_with_a_cap() {
    let (g, mut caps) = two_part_graph();
    caps.default_spike_rate_hz = Some(Fixed::Finite(1_000_000_000_000));
    let r = routing(&g, Some(&caps));
    // 3 * 1e6 Hz * 4 * 8 = 96 Mbit/s
    assert_eq!(r.status, RoutingStatus::Clear);
    caps.interconnect_bandwidth_mbps = Some(50);
    let r = routing(&g, Some(&caps));
    assert_eq!(r.status, RoutingStatus::Congested);
    assert_eq!(r.status.as_str(), "congested");
}

#[test]
fn timing_is_monotonic_in_delay() {
    let res = 1_000_000;
    let delays = [0i64, 1, 999_999, 1_000_000, 1_000_001, 2_500_000, 7_000_000];
    for w in delays.windows(2) {
        assert!(delay_ticks(Fixed::Finite(w[0]), res) <= delay_ticks(Fixed::Finite(w[1]), res));
    }
    let (g, caps) = two_part_graph();
    let t = timing(&g, Some(&caps));
    assert_eq!(t.time_resolution_ns, 1_000_000);
    assert_eq!((t.min_delay_ticks, t.max_delay_ticks), (0, 4));
    // (0 + 1 + 4 + 2) / 4 = 1.75
    assert_eq!(t.avg_delay_ticks, 1_750_000);
}

#[test]
fn timing_without_connections_is_zero() {
    let g = Graph::new("g");
    let t = timing(&g, None);
    assert_eq!((t.min_delay_ticks, t.max_delay_ticks, t.avg_delay_ticks), (0, 0, 0));
}

#[test]
fn resource_check_aggregates_every_violation() {
    let (g, mut caps) = two_part_graph();
    caps.max_neurons_per_core = Some(5);
    caps.max_synapses_per_core = Some(1);
    caps.max_fan_in = Some(1);
    caps.max_fan_out = Some(2);
    let r = resource_check(&g, Some(&caps));
    assert!(!r.legal);
    assert_eq!(r.neurons_per_part, vec![6, 6]);
    let codes: Vec<ViolationCode> = r.violations.iter().map(|v| v.code).collect();
    assert_eq!(
        codes,
        vec![
            ViolationCode::MaxNeuronsPerCoreExceeded,
            ViolationCode::MaxNeuronsPerCoreExceeded,
            ViolationCode::MaxFanInExceeded,
            ViolationCode::MaxFanInExceeded,
            ViolationCode::MaxFanOutExceeded,
        ]
    );
    assert_eq!(r.fan_in, vec![("a".to_string(), 2), ("b".to_string(), 2)]);
    assert_eq!(r.fan_out, vec![("a".to_string(), 3), ("b".to_string(), 1)]);
}

#[test]
fn resource_check_legal_without_caps() {
    let (g, _) = two_part_graph();
    let r = resource_check(&g, None);
    assert!(r.legal);
    assert!(r.violations.is_empty());
}

#[test]
fn partition_report_is_stored_under_its_key() {
    let (g, _) = two_part_graph();
    match g.attributes.get("partition") {
        Some(AttrValue::Partition(r)) => assert_eq!(r.parts, 2),
        _ => panic!("no partition report"),
    }
}
