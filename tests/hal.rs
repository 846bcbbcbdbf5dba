use neuro_compiler::{builtin_targets, validate_manifest, Capabilities, Fixed, HalError, ManifestRule, TargetManifest};

fn manifest(name: &str, family: &str, caps: Option<Capabilities>) -> TargetManifest {
    TargetManifest {
        name: name.to_string(),
        vendor: "v".to_string(),
        family: family.to_string(),
        version: "1".to_string(),
        notes: None,
        capabilities: caps,
    }
}

fn error_message(m: &TargetManifest) -> String {
    match validate_manifest(m) {
        Err(e) => e.message().to_string(),
        Ok(()) => panic!("manifest accepted"),
    }
}

fn rule(m: &TargetManifest) -> Option<ManifestRule> {
    match validate_manifest(m) {
        Err(HalError::InvalidField(r)) => Some(r),
        Ok(()) => None,
    }
}

#[test]
fn builtin_targets_nonempty() {
    assert!(!builtin_targets().is_empty());
}

#[test]
fn validate_manifest_ok() {
    let mut c = Capabilities::empty();
    c.on_chip_learning = Some(true);
    c.weight_precisions = Some(vec![8, 16]);
    c.max_neurons_per_core = Some(1024);
    c.max_synapses_per_core = Some(65536);
    c.time_resolution_ns = Some(1000);
    let m = manifest("x", "F", Some(c));
    assert!(validate_manifest(&m).is_ok());
}

#[test]
fn validate_manifest_bad_weight_precision() {
    let mut c = Capabilities::empty();
    c.weight_precisions = Some(vec![0]);
    let m = manifest("x", "F", Some(c));
    assert!(validate_manifest(&m).is_err());
}

#[test]
fn validate_manifest_riscv_extended_ok() {
    let mut c = Capabilities::empty();
    c.isa = Some("rv64gcv".to_string());
    c.abi = Some("lp64d".to_string());
    c.has_vector = Some(true);
    c.vlen_bits_max = Some(512);
    c.zvl_bits_min = Some(128);
    c.vlen_is_dynamic = Some(true);
    c.has_zicntr = Some(true);
    c.has_zihpm = Some(true);
    c.endianness = Some("little".to_string());
    c.cacheline_bytes = Some(64);
    c.page_size_bytes = Some(4096);
    c.code_model = Some("medany".to_string());
    c.mmio_supported = Some(false);
    c.dma_supported = Some(false);
    let m = manifest("riscv64gcv_linux", "RISC-V", Some(c));
    assert!(validate_manifest(&m).is_ok());
}

#[test]
fn validate_manifest_riscv_invalid_mmio_width() {
    let mut c = Capabilities::empty();
    c.mmio_supported = Some(true);
    c.mmio_base_addr = Some(1024);
    c.mmio_width_bits = Some(16);
    let m = manifest("rv", "RISC-V", Some(c));
    assert!(validate_manifest(&m).is_err(), "expected invalid mmio_width_bits");
}

#[test]
fn validate_manifest_riscv_invalid_endianness() {
    let mut c = Capabilities::empty();
    c.endianness = Some("weird".to_string());
    let m = manifest("rv", "RISC-V", Some(c));
    assert!(validate_manifest(&m).is_err(), "expected invalid endianness");
}

#[test]
fn validate_manifest_riscv_zvl_vs_vlen() {
    let mut c = Capabilities::empty();
    c.has_vector = Some(true);
    c.vlen_bits_max = Some(128);
    c.zvl_bits_min = Some(256);
    let m = manifest("rv", "RISC-V", Some(c));
    assert!(validate_manifest(&m).is_err(), "expected zvl_bits_min > vlen_bits_max to fail");
}

#[test]
fn hal_weight_precisions_contains_zero() {
    let mut c = Capabilities::empty();
    c.weight_precisions = Some(vec![0]);
    let msg = error_message(&manifest("t", "X", Some(c)));
    assert!(msg.contains("weight_precisions"), "msg={msg}");
}

#[test]
fn hal_vector_true_missing_vlen_bits_max() {
    let mut c = Capabilities::empty();
    c.has_vector = Some(true);
    let msg = error_message(&manifest("t", "RISC-V", Some(c)));
    assert!(msg.contains("vlen_bits_max"), "msg={msg}");
}

#[test]
fn hal_vector_true_zero_vlen_bits_max() {
    let mut c = Capabilities::empty();
    c.has_vector = Some(true);
    c.vlen_bits_max = Some(0);
    let msg = error_message(&manifest("t", "RISC-V", Some(c)));
    assert!(msg.contains("vlen_bits_max"), "msg={msg}");
}

#[test]
fn hal_zvl_bits_min_gt_vlen_bits_max() {
    let mut c = Capabilities::empty();
    c.vlen_bits_max = Some(128);
    c.zvl_bits_min = Some(256);
    let msg = error_message(&manifest("t", "RISC-V", Some(c)));
    assert!(msg.contains("zvl_bits_min") && msg.contains("vlen_bits_max"), "msg={msg}");
}

#[test]
fn hal_zvl_or_vlen_not_multiple_of_8() {
    let mut c = Capabilities::empty();
    c.vlen_bits_max = Some(64);
    c.zvl_bits_min = Some(20);
    let msg = error_message(&manifest("t", "RISC-V", Some(c)));
    assert!(msg.contains("multiples of 8"), "msg={msg}");
}

#[test]
fn hal_mmio_supported_missing_base_addr() {
    let mut c = Capabilities::empty();
    c.mmio_supported = Some(true);
    c.mmio_width_bits = Some(32);
    let msg = error_message(&manifest("t", "RISC-V", Some(c)));
    assert!(msg.contains("mmio_base_addr"), "msg={msg}");
}

#[test]
fn hal_mmio_supported_bad_width() {
    let mut c = Capabilities::empty();
    c.mmio_supported = Some(true);
    c.mmio_base_addr = Some(4096);
    c.mmio_width_bits = Some(16);
    let msg = error_message(&manifest("t", "RISC-V", Some(c)));
    assert!(msg.contains("mmio_width_bits") && (msg.contains("32") || msg.contains("64")), "msg={msg}");
}

#[test]
fn hal_dma_alignment_not_power_of_two() {
    let mut c = Capabilities::empty();
    c.dma_supported = Some(true);
    c.dma_alignment = Some(24);
    let msg = error_message(&manifest("t", "RISC-V", Some(c)));
    assert!(msg.contains("dma_alignment") && msg.contains("power-of-two"), "msg={msg}");
}

#[test]
fn hal_invalid_endianness() {
    let mut c = Capabilities::empty();
    c.endianness = Some("middle".to_string());
    let msg = error_message(&manifest("t", "X", Some(c)));
    assert!(msg.contains("endianness") && (msg.contains("little") || msg.contains("big")), "msg={msg}");
}

#[test]
fn hal_cacheline_bytes_invalid() {
    let mut c = Capabilities::empty();
    c.cacheline_bytes = Some(0);
    let msg = error_message(&manifest("t", "X", Some(c)));
    assert!(msg.contains("cacheline_bytes") && msg.contains("power-of-two"), "msg={msg}");
}

#[test]
fn hal_page_size_bytes_not_power_of_two() {
    let mut c = Capabilities::empty();
    c.page_size_bytes = Some(3000);
    let msg = error_message(&manifest("t", "X", Some(c)));
    assert!(msg.contains("page_size_bytes") && msg.contains("power-of-two"), "msg={msg}");
}

#[test]
fn hal_invalid_code_model() {
    let mut c = Capabilities::empty();
    c.code_model = Some("large".to_string());
    let msg = error_message(&manifest("t", "RISC-V", Some(c)));
    assert!(msg.contains("code_model"), "msg={msg}");
}

#[test]
fn hal_rv32_bad_abi_not_ilp32() {
    let mut c = Capabilities::empty();
    c.isa = Some("rv32imac".to_string());
    c.abi = Some("lp64".to_string());
    let msg = error_message(&manifest("t", "RISC-V", Some(c)));
    assert!(msg.to_lowercase().contains("ilp32"), "msg={msg}");
}

#[test]
fn hal_rv64_bad_abi_not_lp64() {
    let mut c = Capabilities::empty();
    c.isa = Some("rv64gc".to_string());
    c.abi = Some("ilp32".to_string());
    let msg = error_message(&manifest("t", "RISC-V", Some(c)));
    assert!(msg.to_lowercase().contains("lp64"), "msg={msg}");
}

#[test]
fn hal_vector_true_but_isa_lacks_v() {
    let mut c = Capabilities::empty();
    c.has_vector = Some(true);
    c.vlen_bits_max = Some(128);
    c.isa = Some("r64gc".to_string());
    let msg = error_message(&manifest("t", "RISC-V", Some(c)));
    assert!(msg.contains("has_vector") && msg.contains("isa") && msg.contains("'v'"), "msg={msg}");
}

#[test]
fn manifest_name_and_vendor_must_not_be_blank() {
    let m = manifest("  ", "F", None);
    assert_eq!(rule(&m), Some(ManifestRule::NameEmpty));
    let mut m = manifest("x", "F", None);
    m.vendor = "".to_string();
    assert_eq!(rule(&m), Some(ManifestRule::VendorEmpty));
}

#[test]
fn manifest_zero_limits_rejected() {
    let mut c = Capabilities::empty();
    c.max_neurons_per_core = Some(0);
    assert_eq!(rule(&manifest("x", "F", Some(c))), Some(ManifestRule::MaxNeuronsZero));
    let mut c = Capabilities::empty();
    c.time_resolution_ns = Some(0);
    assert_eq!(rule(&manifest("x", "F", Some(c))), Some(ManifestRule::TimeResolutionZero));
    let mut c = Capabilities::empty();
    c.bytes_per_event = Some(0);
    assert_eq!(rule(&manifest("x", "F", Some(c))), Some(ManifestRule::BytesPerEventZero));
}

#[test]
fn manifest_real_costs_must_be_positive() {
    let mut c = Capabilities::empty();
    c.neuron_mem_kib_per = Some(Fixed::Finite(0));
    assert_eq!(rule(&manifest("x", "F", Some(c))), Some(ManifestRule::NeuronMemNotPositive));
    let mut c = Capabilities::empty();
    c.syn_mem_kib_per = Some(Fixed::NonFinite);
    assert_eq!(rule(&manifest("x", "F", Some(c))), Some(ManifestRule::SynapseMemNotPositive));
    let mut c = Capabilities::empty();
    c.default_spike_rate_hz = Some(Fixed::Finite(-5));
    assert_eq!(rule(&manifest("x", "F", Some(c))), Some(ManifestRule::SpikeRateNotPositive));
}

#[test]
fn manifest_case_of_endianness_and_isa_is_ignored() {
    let mut c = Capabilities::empty();
    c.endianness = Some("LITTLE".to_string());
    c.isa = Some("RV64GCV".to_string());
    c.abi = Some("LP64D".to_string());
    c.has_vector = Some(true);
    c.vlen_bits_max = Some(256);
    assert_eq!(rule(&manifest("x", "RISC-V", Some(c))), None);
}
