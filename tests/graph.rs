use neuro_compiler::{AttrValue, Connection, Fixed, Graph, GraphDefect, Population, Probe, VERSION};

fn pop(name: &str, size: u32) -> Population {
    Population { name: name.to_string(), size, model: "LIF".to_string(), params: serde_json::Value::Null }
}

fn conn(pre: &str, post: &str, weight: Fixed, delay_ms: Fixed) -> Connection {
    Connection { pre: pre.to_string(), post: post.to_string(), weight, delay_ms, plasticity: None }
}

#[test]
fn create_graph() {
    let g = Graph::new("test");
    assert_eq!(g.name, "test");
}

#[test]
fn validate_ok() {
    let mut g = Graph::new("v");
    g.populations.push(pop("a", 1));
    g.populations.push(pop("b", 2));
    g.connections.push(conn("a", "b", Fixed::Finite(100_000), Fixed::Finite(0)));
    g.validate().map_err(|e| e.message()).unwrap();
}

#[test]
fn validate_bad_conn() {
    let mut g = Graph::new("bad");
    g.populations.push(pop("only", 1));
    g.connections.push(conn("missing", "only", Fixed::Finite(1_000_000), Fixed::Finite(0)));
    assert!(g.validate().is_err());
}

#[test]
fn version_tag() {
    let mut g = Graph::new("ver");
    assert!(g.attributes.get("nir_version").is_none());
    g.ensure_version_tag();
    let v = match g.attributes.get("nir_version") {
        Some(AttrValue::Text(t)) => Some(t.as_str()),
        _ => None,
    };
    assert_eq!(v, Some(VERSION));
}

#[test]
fn version_tag_keeps_existing_value() {
    let mut g = Graph::new("ver");
    g.attributes.insert("nir_version".to_string(), AttrValue::Text("9".to_string()));
    g.ensure_version_tag();
    assert_eq!(g.attributes.len(), 1);
    assert!(matches!(g.attributes.get("nir_version"), Some(AttrValue::Text(t)) if t == "9"));
}

#[test]
fn validate_reports_duplicate_name() {
    let mut g = Graph::new("dup");
    g.populations.push(pop("a", 1));
    g.populations.push(pop("a", 3));
    match g.validate() {
        Err(e) => {
            assert!(matches!(&e.0, GraphDefect::DuplicatePopulation(n) if n == "a"));
            assert!(e.message().contains("'a'"));
        }
        Ok(()) => panic!("duplicate accepted"),
    }
}

#[test]
fn validate_reports_dangling_endpoint_name() {
    let mut g = Graph::new("d");
    g.populations.push(pop("a", 1));
    g.connections.push(conn("a", "ghost", Fixed::Finite(0), Fixed::Finite(0)));
    match g.validate() {
        Err(e) => assert!(matches!(&e.0, GraphDefect::UnknownPost(n) if n == "ghost")),
        Ok(()) => panic!("dangling endpoint accepted"),
    }
}

#[test]
fn validate_each_defect() {
    let mut g = Graph::new("e");
    g.populations.push(pop("  ", 1));
    assert!(matches!(g.validate(), Err(e) if matches!(e.0, GraphDefect::EmptyPopulationName)));

    let mut g = Graph::new("z");
    g.populations.push(pop("z", 0));
    assert!(matches!(g.validate(), Err(e) if matches!(&e.0, GraphDefect::ZeroSize(n) if n == "z")));

    let mut g = Graph::new("m");
    g.populations.push(Population { name: "m".to_string(), size: 1, model: " ".to_string(), params: serde_json::Value::Null });
    assert!(matches!(g.validate(), Err(e) if matches!(&e.0, GraphDefect::MissingModel(n) if n == "m")));

    let mut g = Graph::new("pre");
    g.populations.push(pop("a", 1));
    g.connections.push(conn("x", "a", Fixed::Finite(0), Fixed::Finite(0)));
    assert!(matches!(g.validate(), Err(e) if matches!(&e.0, GraphDefect::UnknownPre(n) if n == "x")));

    let mut g = Graph::new("w");
    g.populations.push(pop("a", 1));
    g.connections.push(conn("a", "a", Fixed::NonFinite, Fixed::Finite(0)));
    assert!(matches!(g.validate(), Err(e) if matches!(e.0, GraphDefect::NonFiniteWeight(_, _))));

    let mut g = Graph::new("d");
    g.populations.push(pop("a", 1));
    g.connections.push(conn("a", "a", Fixed::Finite(0), Fixed::Finite(-1)));
    assert!(matches!(g.validate(), Err(e) if matches!(e.0, GraphDefect::InvalidDelay(_, _))));

    let mut g = Graph::new("k");
    g.populations.push(pop("a", 1));
    g.probes.push(Probe { target: "a".to_string(), kind: "".to_string() });
    assert!(matches!(g.validate(), Err(e) if matches!(e.0, GraphDefect::EmptyProbeKind)));

    let mut g = Graph::new("t");
    g.populations.push(pop("a", 1));
    g.probes.push(Probe { target: "b".to_string(), kind: "spikes".to_string() });
    assert!(matches!(g.validate(), Err(e) if matches!(&e.0, GraphDefect::UnknownProbeTarget(n) if n == "b")));
}
