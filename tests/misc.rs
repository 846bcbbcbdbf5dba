use neuro_compiler::orchestrator::{self, GreedyRefineBuilder};
use neuro_compiler::telemetry::{backend, empty, graph, merge, pass, simulator, target, with, Labels};
use neuro_compiler::{mlir, mlopt, sim, Graph, Population};

fn pairs(l: &Labels) -> Vec<(String, String)> {
    (0..l.len()).map(|i| {
        let (k, v) = l.entry(i);
        (k.clone(), v.clone())
    }).collect()
}

fn p(k: &str, v: &str) -> (String, String) {
    (k.to_string(), v.to_string())
}

#[test]
fn gate_reports_status() {
    let _ = mlir::is_enabled();
    assert!(!mlir::is_enabled());
}

#[test]
fn version_nonempty() {
    assert_eq!(orchestrator::version(), "0.0.1");
    assert_eq!(mlopt::version(), "0.0.1");
    assert_eq!(sim::stub(), "ok");
}

#[test]
fn partition_returns_single_part_and_emits_labels_when_telemetry() {
    let g = Graph::new("g");
    let plan = orchestrator::partition(&g, &vec!["riscv64gcv_linux".to_string()]);
    assert!(plan.parts >= 1);
}

#[test]
fn orchestrator_partition_caps_at_four() {
    let mut g = Graph::new("g");
    for i in 0..6 {
        g.populations.push(Population { name: format!("p{i}"), size: 1, model: "LIF".into(), params: serde_json::Value::Null });
    }
    assert_eq!(orchestrator::partition(&g, &vec![]).parts, 4);
    assert_eq!(GreedyRefineBuilder::new(7).seed, 7);
}

#[test]
fn label_constructors() {
    assert!(pairs(&empty()).is_empty());
    assert_eq!(pairs(&graph("g")), vec![p("graph", "g")]);
    assert_eq!(pairs(&target("loihi2")), vec![p("target", "loihi2")]);
    assert_eq!(pairs(&backend("g", "riscv", Some("rv64"))), vec![p("graph", "g"), p("backend", "riscv"), p("target", "rv64")]);
    assert_eq!(pairs(&backend("g", "riscv", None)), vec![p("graph", "g"), p("backend", "riscv")]);
    assert_eq!(pairs(&simulator("g", "arbor")), vec![p("graph", "g"), p("simulator", "arbor")]);
    assert_eq!(pairs(&pass("g", "timing")), vec![p("graph", "g"), p("pass", "timing")]);
}

#[test]
fn label_merge_prefers_right_side() {
    let l = merge(pass("g", "timing"), with(graph("h"), "extra", "1"));
    assert_eq!(pairs(&l), vec![p("graph", "h"), p("pass", "timing"), p("extra", "1")]);
    let l = with(l, "pass", "routing");
    assert_eq!(l.get("pass").map(|s| s.as_str()), Some("routing"));
    assert_eq!(l.get("missing"), None);
}

fn chain(sizes: &[u32]) -> Graph {
    let mut g = Graph::new("chain");
    for (i, s) in sizes.iter().enumerate() {
        g.populations.push(Population { name: format!("p{i}"), size: *s, model: "LIF".into(), params: serde_json::Value::Null });
    }
    for i in 1..sizes.len() {
        g.connections.push(neuro_compiler::Connection {
            pre: format!("p{}", i - 1),
            post: format!("p{i}"),
            weight: neuro_compiler::Fixed::Finite(1_000_000),
            delay_ms: neuro_compiler::Fixed::Finite(1_000_000),
            plasticity: None,
        });
    }
    g
}

fn star(center: u32, spoke: u32, spokes: usize, weight: f64, delay_ms: f64) -> Graph {
    let mut g = Graph::new("star");
    g.populations.push(Population { name: "center".into(), size: center, model: "LIF".into(), params: serde_json::Value::Null });
    for i in 0..spokes {
        g.populations.push(Population { name: format!("s{i}"), size: spoke, model: "LIF".into(), params: serde_json::Value::Null });
        g.connections.push(neuro_compiler::Connection {
            pre: "center".into(),
            post: format!("s{i}"),
            weight: neuro_compiler::Fixed::Finite((weight * 1e6) as i64),
            delay_ms: neuro_compiler::Fixed::Finite((delay_ms * 1e6) as i64),
            plasticity: None,
        });
    }
    g
}

fn targets(ts: &[&str]) -> Vec<String> {
    ts.iter().map(|t| t.to_string()).collect()
}

fn approx_eq(a: u128, b: f64) -> bool {
    ((a as f64) / 1e6 - b).abs() < 1e-6
}

#[test]
fn greedy_refine_deterministic_for_seed_and_targets() {
    let mut b = GreedyRefineBuilder::new(12345);
    let g1 = chain(&[8, 16, 32]);
    let g2 = chain(&[8, 16, 32]);
    let p1 = b.plan(&g1, &targets(&["riscv64gcv_linux"]));
    let p2 = b.plan(&g2, &targets(&["riscv64gcv_linux"]));
    assert_eq!(p1.parts, p2.parts);
}

#[test]
fn greedy_refine_parts_within_bounds() {
    let mut b = GreedyRefineBuilder::new(1);
    let g0 = Graph::new("empty");
    let p0 = b.plan(&g0, &targets(&["riscv64gcv_linux"]));
    assert!(p0.parts >= 1 && p0.parts <= 1);
    let g = star(32, 8, 5, 0.5, 1.0);
    let p = b.plan(&g, &targets(&["riscv64gcv_linux"]));
    let n = g.populations.len();
    let upper = std::cmp::min(std::cmp::max(n, 1), 4);
    assert!(p.parts >= 1 && p.parts <= upper);
}

#[test]
fn greedy_refine_empty_targets_deterministic() {
    let mut b = GreedyRefineBuilder::new(42);
    let g = chain(&[4, 4, 4]);
    let p1 = b.plan(&g, &targets(&[]));
    let p2 = b.plan(&g, &targets(&[]));
    assert_eq!(p1.parts, p2.parts);
    let upper = std::cmp::min(std::cmp::max(g.populations.len(), 1), 4);
    assert!(p1.parts >= 1 && p1.parts <= upper);
}

#[test]
fn greedy_refine_single_node_graph_bounds() {
    let mut b = GreedyRefineBuilder::new(7);
    let g = chain(&[1]);
    let p = b.plan(&g, &targets(&["riscv64gcv_linux"]));
    assert_eq!(g.populations.len(), 1);
    assert_eq!(p.parts, 1);
}

#[test]
fn greedy_refine_upper_cap_four_for_large_graph() {
    let mut b = GreedyRefineBuilder::new(123);
    let g = chain(&[1, 1, 1, 1, 1, 1, 1, 1, 1, 1]);
    let p = orchestrator::partition_with(&mut b, &g, &targets(&["loihi2", "riscv64gcv_linux"]));
    assert!(p.parts >= 1 && p.parts <= 4, "parts {} should be <= 4 for n={}", p.parts, g.populations.len());
}

#[test]
fn metrics_on_chain_three_nodes() {
    let g = chain(&[10, 20, 30]);
    let m = orchestrator::compute_metrics(&g);
    assert_eq!(m.node_count, 3);
    assert_eq!(m.edge_count, 2);
    assert!(approx_eq(m.avg_fanin, 2.0 / 3.0));
    assert!(approx_eq(m.avg_fanout, 2.0 / 3.0));
    assert_eq!(m.max_fanin, 1);
    assert_eq!(m.max_fanout, 1);
}

#[test]
fn metrics_on_star_center_to_spokes() {
    let g = star(32, 8, 5, 0.5, 1.0);
    let m = orchestrator::compute_metrics(&g);
    assert_eq!(m.node_count, 6);
    assert_eq!(m.edge_count, 5);
    assert!(approx_eq(m.avg_fanin, 5.0 / 6.0));
    assert_eq!(m.max_fanout, 5);
    assert_eq!(m.max_fanin, 1);
}

#[test]
fn metrics_on_empty_graph_is_safe() {
    let g = Graph::new("empty");
    let m = orchestrator::compute_metrics(&g);
    assert_eq!(m.node_count, 0);
    assert_eq!(m.edge_count, 0);
    assert!(approx_eq(m.avg_fanin, 0.0));
    assert!(approx_eq(m.avg_fanout, 0.0));
    assert_eq!(m.max_fanin, 0);
    assert_eq!(m.max_fanout, 0);
}

#[test]
fn cost_model_noop() {
    let cm = mlopt::NoOpCostModel;
    let g = Graph::new("g");
    assert_eq!(cm.predict_latency_ms(&g), neuro_compiler::Fixed::Finite(0));
    assert_eq!(cm.predict_energy_mj(&g), neuro_compiler::Fixed::Finite(0));
}

#[test]
fn search_stub() {
    let mut s = mlopt::GreedySearchStub::new();
    let g = Graph::new("g");
    let p = s.propose(&g);
    assert_eq!(p, "identity");
    s.feedback(neuro_compiler::Fixed::Finite(1_230_000));
    assert_eq!(s.last_score, Some(neuro_compiler::Fixed::Finite(1_230_000)));
}
