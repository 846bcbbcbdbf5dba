use neuro_compiler::{
    AttrValue, Capabilities, Graph, PassKind, PassManager, Population, RvBareMetalTuningPass,
    RvControlPlaneDriverGenPass, RvKernelFusionAndSchedulingPass, RvLowerToKernelsPass, RvMemoryLayoutAndQuantPass,
    RvVectorizeKernelsPass,
};

fn with_manifest_path(path: &str) -> Graph {
    let mut g = Graph::new("rv");
    g.populations.push(Population { name: "a".into(), size: 4, model: "LIF".into(), params: serde_json::Value::Null });
    g.attributes.insert("hal_manifest_path".to_string(), AttrValue::Text(path.to_string()));
    g
}

#[test]
fn rv_layout_detects_vector_linux_target() {
    let mut caps = Capabilities::empty();
    caps.weight_precisions = Some(vec![8, 4, 12]);
    let g = RvMemoryLayoutAndQuantPass.run(with_manifest_path("targets/riscv64gcv_linux.toml"), Some(&caps));
    match g.attributes.get("rv_layout") {
        Some(AttrValue::RvLayout(l)) => {
            assert!(l.vector_available);
            assert_eq!((l.vector_bytes, l.align_bytes, l.quant_bits_default), (64, 64, 12));
            assert!(!l.bare_metal_profile);
        }
        _ => panic!("no layout report"),
    }
    let g = RvVectorizeKernelsPass.run(g);
    match g.attributes.get("rv_vectorize") {
        Some(AttrValue::RvVectorize(v)) => assert_eq!((v.enabled, v.vlen_bytes), (true, 64)),
        _ => panic!("no vectorize report"),
    }
}

#[test]
fn rv_bare_metal_profile() {
    let g = RvMemoryLayoutAndQuantPass.run(with_manifest_path("riscv32imac_bare.toml"), None);
    match g.attributes.get("rv_layout") {
        Some(AttrValue::RvLayout(l)) => {
            assert!(!l.vector_available && l.bare_metal_profile);
            assert_eq!((l.vector_bytes, l.quant_bits_default), (16, 16));
        }
        _ => panic!("no layout report"),
    }
    let g = RvBareMetalTuningPass.run(g);
    assert!(matches!(g.attributes.get("rv_bare_tuning"), Some(AttrValue::RvBareTuning(t)) if t.size_optimized));
    let g = RvControlPlaneDriverGenPass.run(g);
    assert!(matches!(g.attributes.get("rv_ctrl_plane"), Some(AttrValue::RvControlPlane(c)) if !c.targeted));
}

#[test]
fn rv_vectorize_without_layout_is_off() {
    let g = RvVectorizeKernelsPass.run(Graph::new("g"));
    assert!(matches!(g.attributes.get("rv_vectorize"), Some(AttrValue::RvVectorize(v)) if !v.enabled && v.vlen_bytes == 0));
}

#[test]
fn rv_control_plane_target() {
    let g = RvControlPlaneDriverGenPass.run(with_manifest_path("riscv64gc_ctrl.toml"));
    assert!(matches!(g.attributes.get("rv_ctrl_plane"), Some(AttrValue::RvControlPlane(c)) if c.targeted && c.dma_alignment == 64));
}

#[test]
fn rv_kernels_mode_follows_timing() {
    let g = RvLowerToKernelsPass.run(Graph::new("g"));
    assert!(matches!(g.attributes.get("rv_kernels"), Some(AttrValue::RvKernels(k)) if !k.tick_mode && k.kernel_count == 1));
    let mut pm = PassManager::new();
    pm.add_pass(PassKind::Timing);
    pm.add_pass(PassKind::RvLowerToKernels);
    pm.add_pass(PassKind::RvKernelFusionAndScheduling);
    let g = match pm.run(with_manifest_path("x.toml"), None) {
        Ok(g) => g,
        Err(_) => panic!("pipeline failed"),
    };
    assert!(matches!(g.attributes.get("rv_kernels"), Some(AttrValue::RvKernels(k)) if k.tick_mode && k.kernel_count == 1));
    match g.attributes.get("rv_schedule") {
        Some(AttrValue::RvSchedule(s)) => {
            assert_eq!(s.threads, 1);
            assert_eq!(s.fused_stages(), vec!["integrate", "threshold"]);
        }
        _ => panic!("no schedule report"),
    }
    assert_eq!(RvKernelFusionAndSchedulingPass.name(), "rv-schedule");
}
