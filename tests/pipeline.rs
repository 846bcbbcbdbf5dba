use neuro_compiler::{
    build_pipeline, AttrValue, Capabilities, Connection, Fixed, Graph, NoOpPass, PassError, PassKind, PassManager,
    Population, QuantizeWeightsPass, ValidatePass,
};

fn pop(name: &str, size: u32) -> Population {
    Population { name: name.to_string(), size, model: "LIF".to_string(), params: serde_json::Value::Null }
}

fn conn(pre: &str, post: &str, weight: i64, delay_ns: i64) -> Connection {
    Connection {
        pre: pre.to_string(),
        post: post.to_string(),
        weight: Fixed::Finite(weight),
        delay_ms: Fixed::Finite(delay_ns),
        plasticity: None,
    }
}

fn run(pm: &PassManager, g: Graph, caps: Option<&Capabilities>) -> Graph {
    match pm.run(g, caps) {
        Ok(g) => g,
        Err(_) => panic!("pipeline failed"),
    }
}

#[test]
fn run_noop_pipeline() {
    let g = Graph::new("t");
    let mut pm = PassManager::new();
    pm.add_pass(PassKind::NoOp);
    let out = run(&pm, g, None);
    assert_eq!(out.name, "t");
    assert_eq!(NoOpPass.name(), "no-op");
}

#[test]
fn run_validate_pipeline() {
    let g = Graph::new("t2");
    let mut pm = PassManager::new();
    pm.add_pass(PassKind::Validate);
    let out = run(&pm, g, None);
    assert_eq!(out.name, "t2");
    assert_eq!(ValidatePass.name(), "validate");
}

#[test]
fn run_quantize_pipeline() {
    let mut g = Graph::new("tq");
    g.populations.push(pop("a", 1));
    g.populations.push(pop("b", 1));
    g.connections.push(conn("a", "b", 123_400, 0));
    let mut pm = PassManager::new();
    pm.add_pass(PassKind::Validate);
    pm.add_pass(PassKind::Quantize(8));
    let out = run(&pm, g, None);
    assert_eq!(out.name, "tq");
    match out.connections[0].weight {
        Fixed::Finite(w) => assert!(w >= -1_000_000 && w <= 1_000_000),
        Fixed::NonFinite => panic!("weight became non-finite"),
    }
}

#[test]
fn quantize_snaps_to_grid() {
    // 255 steps over [-1, 1]: 0.1234 lies nearest level 143, at 0.121569
    assert_eq!(QuantizeWeightsPass::quantize(Fixed::Finite(123_400), 8), Fixed::Finite(121_569));
    assert_eq!(QuantizeWeightsPass::quantize(Fixed::Finite(5_000_000), 4), Fixed::Finite(1_000_000));
    assert_eq!(QuantizeWeightsPass::quantize(Fixed::Finite(-5_000_000), 4), Fixed::Finite(-1_000_000));
    assert_eq!(QuantizeWeightsPass::quantize(Fixed::NonFinite, 4), Fixed::NonFinite);
    assert_eq!(QuantizeWeightsPass::quantize(Fixed::Finite(0), 1), Fixed::Finite(1_000_000));
}

#[test]
fn validate_pass_stops_the_pipeline() {
    let mut g = Graph::new("bad");
    g.populations.push(pop("a", 0));
    let mut pm = PassManager::new();
    pm.add_pass(PassKind::Validate);
    pm.add_pass(PassKind::Partition);
    assert!(matches!(pm.run(g, None), Err(PassError::Invalid(_))));
}

#[test]
fn build_pipeline_from_names() {
    let names: Vec<String> = ["validate", "partition", "placement", "routing", "timing", "resource-check"]
        .iter()
        .map(|s| s.to_string())
        .collect();
    let mut pm = PassManager::new();
    assert!(build_pipeline(&mut pm, &names).is_ok());
    assert_eq!(pm.len(), 6);
    assert_eq!(pm.stage(5), PassKind::ResourceCheck);

    let bad: Vec<String> = vec!["noop".to_string(), "teleport".to_string(), "timing".to_string()];
    let mut pm = PassManager::new();
    match build_pipeline(&mut pm, &bad) {
        Err(PassError::UnknownPass(n)) => assert_eq!(n, "teleport"),
        _ => panic!("unknown pass accepted"),
    }
    assert_eq!(pm.len(), 1);
}

fn mapping_graph() -> Graph {
    let mut g = Graph::new("net");
    g.populations.push(pop("in", 20));
    g.populations.push(pop("hidden", 8));
    g.populations.push(pop("out", 4));
    g.connections.push(conn("in", "hidden", 250_000, 1_500_000));
    g.connections.push(conn("hidden", "out", 250_000, 500_000));
    g.connections.push(conn("hidden", "hidden", 250_000, 0));
    g
}

fn full_pipeline() -> PassManager {
    let names: Vec<String> = ["validate", "partition", "placement", "routing", "timing", "resource-check"]
        .iter()
        .map(|s| s.to_string())
        .collect();
    let mut pm = PassManager::new();
    assert!(build_pipeline(&mut pm, &names).is_ok());
    pm
}

fn report_summary(g: &Graph) -> Vec<String> {
    let mut out = Vec::new();
    for (k, v) in g.attributes.iter() {
        let s = match v {
            AttrValue::Text(t) => t.clone(),
            AttrValue::Partition(r) => format!("{} {:?} {:?}", r.parts, r.strategy, r.assignment),
            AttrValue::Placement(r) => format!("{:?} {:?} {:?}", r.status, r.neurons_per_part, r.synapses_per_part),
            AttrValue::Routing(r) => format!("{:?} {} {} {:?}", r.status, r.cross_edges, r.estimated_bandwidth, r.matrix),
            AttrValue::Timing(r) => format!("{} {} {} {}", r.time_resolution_ns, r.min_delay_ticks, r.max_delay_ticks, r.avg_delay_ticks),
            AttrValue::ResourceCheck(r) => format!("{} {:?} {:?} {:?}", r.legal, r.neurons_per_part, r.fan_in, r.fan_out),
            AttrValue::RvKernels(r) => format!("{r:?}"),
            AttrValue::RvLayout(r) => format!("{r:?}"),
            AttrValue::RvSchedule(r) => format!("{r:?}"),
            AttrValue::RvVectorize(r) => format!("{r:?}"),
            AttrValue::RvBareTuning(r) => format!("{r:?}"),
            AttrValue::RvControlPlane(r) => format!("{r:?}"),
        };
        out.push(format!("{k}={s}"));
    }
    out
}

#[test]
fn full_pipeline_is_reproducible() {
    let mut caps = Capabilities::empty();
    caps.max_neurons_per_core = Some(16);
    caps.time_resolution_ns = Some(1_000_000);
    let pm = full_pipeline();
    let a = run(&pm, mapping_graph(), Some(&caps));
    let b = run(&pm, mapping_graph(), Some(&caps));
    let sa = report_summary(&a);
    assert_eq!(sa, report_summary(&b));
    let keys: Vec<&str> = a.attributes.keys().map(|k| k.as_str()).collect();
    assert_eq!(keys, vec!["partition", "placement", "routing", "timing", "resource_check"]);
}

#[test]
fn full_pipeline_reports_illegal_fit_without_failing() {
    let mut caps = Capabilities::empty();
    caps.max_neurons_per_core = Some(16);
    let pm = full_pipeline();
    let out = run(&pm, mapping_graph(), Some(&caps));
    match out.attributes.get("resource_check") {
        Some(AttrValue::ResourceCheck(r)) => {
            // "in" (20 units) alone exceeds 16 in its partition
            assert!(!r.legal);
        }
        _ => panic!("no resource check report"),
    }
}

#[test]
fn malformed_partition_report_is_refused() {
    let g = mapping_graph();
    let mut pm = PassManager::new();
    pm.add_pass(PassKind::Partition);
    let mut g = run(&pm, g, None);
    if let Some(AttrValue::Partition(r)) = g.attributes.get_mut("partition") {
        r.parts = 0;
    }
    let mut pm = PassManager::new();
    pm.add_pass(PassKind::Placement);
    assert!(matches!(pm.run(g, None), Err(PassError::Mapping(_))));
}
