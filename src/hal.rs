//! Hardware capability manifests: the declarative limits of one target, and
//! their validation, which reports the first rule a manifest breaks.

use vstd::prelude::*;
use crate::graph::{blank, is_blank, same_text, Fixed};

verus! {

/// Declarative limits of one hardware target. Every field may be absent.
/// Real-valued fields are held as `Fixed` (millionths of their unit).
pub struct Capabilities {
    pub on_chip_learning: Option<bool>,
    pub weight_precisions: Option<Vec<u32>>,
    pub max_neurons_per_core: Option<u32>,
    pub max_synapses_per_core: Option<u32>,
    pub time_resolution_ns: Option<u64>,
    pub supports_sparse: Option<bool>,
    pub neuron_models: Option<Vec<String>>,
    pub max_fan_in: Option<u32>,
    pub max_fan_out: Option<u32>,
    pub core_memory_kib: Option<u32>,
    pub interconnect_bandwidth_mbps: Option<u32>,
    pub analog: Option<bool>,
    pub on_chip_plasticity_rules: Option<Vec<String>>,
    /// Approximate KiB needed per neuron.
    pub neuron_mem_kib_per: Option<Fixed>,
    /// Approximate KiB needed per synapse.
    pub syn_mem_kib_per: Option<Fixed>,
    /// Bytes moved across the interconnect per spike event.
    pub bytes_per_event: Option<u32>,
    /// Spike rate per connection (Hz) assumed by bandwidth estimates.
    pub default_spike_rate_hz: Option<Fixed>,
    pub isa: Option<String>,
    pub abi: Option<String>,
    pub has_a: Option<bool>,
    pub has_c: Option<bool>,
    pub has_f: Option<bool>,
    pub has_d: Option<bool>,
    pub has_b: Option<bool>,
    pub has_p: Option<bool>,
    pub has_vector: Option<bool>,
    pub vlen_bits_max: Option<u32>,
    /// Minimum legal vector length in bits.
    pub zvl_bits_min: Option<u32>,
    pub vlen_is_dynamic: Option<bool>,
    pub has_zicntr: Option<bool>,
    pub has_zihpm: Option<bool>,
    pub extensions: Option<Vec<String>>,
    /// "little" or "big".
    pub endianness: Option<String>,
    pub cacheline_bytes: Option<u32>,
    pub icache_kib: Option<u32>,
    pub dcache_kib: Option<u32>,
    pub l2_kib: Option<u32>,
    pub page_size_bytes: Option<u32>,
    /// "medlow", "medany" or "small".
    pub code_model: Option<String>,
    pub mmio_supported: Option<bool>,
    pub mmio_base_addr: Option<u64>,
    /// 32 or 64 when memory-mapped I/O is supported.
    pub mmio_width_bits: Option<u32>,
    pub dma_supported: Option<bool>,
    /// A power of two when DMA is supported.
    pub dma_alignment: Option<u32>,
    pub profile: Option<String>,
}

/// A named, versioned hardware target with its optional capabilities.
pub struct TargetManifest {
    pub name: String,
    pub vendor: String,
    pub family: String,
    pub version: String,
    pub notes: Option<String>,
    pub capabilities: Option<Capabilities>,
}


/// A built-in target: its name and vendor.
pub struct TargetDescriptor {
    pub name: &'static str,
    pub vendor: &'static str,
}

/// Names of the built-in targets that ship with manifests.
pub fn builtin_targets() -> (r: Vec<&'static str>)
    ensures
        r@.map_values(|t: &'static str| t@) == seq![
            "loihi2"@, "truenorth"@, "akida"@, "spinnaker2"@, "neurogrid"@, "dynaps"@, "memxbar"@,
            "custom_asic"@, "riscv64gcv_linux"@, "riscv32imac_bare"@, "riscv64gc_ctrl"@,
        ],
{
    let r = vec![
        "loihi2",
        "truenorth",
        "akida",
        "spinnaker2",
        "neurogrid",
        "dynaps",
        "memxbar",
        "custom_asic",
        "riscv64gcv_linux",
        "riscv32imac_bare",
        "riscv64gc_ctrl",
    ];
    assert(r@.map_values(|t: &'static str| t@) =~= seq![
        "loihi2"@, "truenorth"@, "akida"@, "spinnaker2"@, "neurogrid"@, "dynaps"@, "memxbar"@,
        "custom_asic"@, "riscv64gcv_linux"@, "riscv32imac_bare"@, "riscv64gc_ctrl"@,
    ]);
    r
}

impl Capabilities {
    /// Capabilities with every field absent.
    pub fn empty() -> (c: Capabilities)
        ensures
            no_capability_declared(&c),
    {
        Capabilities {
            on_chip_learning: None,
            weight_precisions: None,
            max_neurons_per_core: None,
            max_synapses_per_core: None,
            time_resolution_ns: None,
            supports_sparse: None,
            neuron_models: None,
            max_fan_in: None,
            max_fan_out: None,
            core_memory_kib: None,
            interconnect_bandwidth_mbps: None,
            analog: None,
            on_chip_plasticity_rules: None,
            neuron_mem_kib_per: None,
            syn_mem_kib_per: None,
            bytes_per_event: None,
            default_spike_rate_hz: None,
            isa: None,
            abi: None,
            has_a: None,
            has_c: None,
            has_f: None,
            has_d: None,
            has_b: None,
            has_p: None,
            has_vector: None,
            vlen_bits_max: None,
            zvl_bits_min: None,
            vlen_is_dynamic: None,
            has_zicntr: None,
            has_zihpm: None,
            extensions: None,
            endianness: None,
            cacheline_bytes: None,
            icache_kib: None,
            dcache_kib: None,
            l2_kib: None,
            page_size_bytes: None,
            code_model: None,
            mmio_supported: None,
            mmio_base_addr: None,
            mmio_width_bits: None,
            dma_supported: None,
            dma_alignment: None,
            profile: None,
        }
    }
}

/// No limit, cost or flag that validation or the passes read is declared.
pub open spec fn no_capability_declared(c: &Capabilities) -> bool {
    &&& c.weight_precisions is None
    &&& c.max_neurons_per_core is None
    &&& c.max_synapses_per_core is None
    &&& c.time_resolution_ns is None
    &&& c.max_fan_in is None
    &&& c.max_fan_out is None
    &&& c.core_memory_kib is None
    &&& c.interconnect_bandwidth_mbps is None
    &&& c.neuron_mem_kib_per is None
    &&& c.syn_mem_kib_per is None
    &&& c.bytes_per_event is None
    &&& c.default_spike_rate_hz is None
    &&& c.isa is None
    &&& c.abi is None
    &&& c.has_vector is None
    &&& c.vlen_bits_max is None
    &&& c.zvl_bits_min is None
    &&& c.endianness is None
    &&& c.cacheline_bytes is None
    &&& c.page_size_bytes is None
    &&& c.code_model is None
    &&& c.mmio_supported is None
    &&& c.mmio_base_addr is None
    &&& c.mmio_width_bits is None
    &&& c.dma_supported is None
    &&& c.dma_alignment is None
}

// ---------------------------------------------------------------------------
// Manifest validation

/// The rule that a manifest breaks.
#[derive(Clone, Copy, Debug, PartialEq, Eq, Structural)]
pub enum ManifestRule {
    NameEmpty,
    VendorEmpty,
    WeightPrecisionZero,
    MaxNeuronsZero,
    MaxSynapsesZero,
    TimeResolutionZero,
    MaxFanInZero,
    MaxFanOutZero,
    CoreMemoryZero,
    BandwidthZero,
    NeuronMemNotPositive,
    SynapseMemNotPositive,
    BytesPerEventZero,
    SpikeRateNotPositive,
    VectorWithoutVlen,
    ZvlZero,
    ZvlAboveVlen,
    VectorBitsNotByteAligned,
    MmioBaseMissing,
    MmioWidthInvalid,
    DmaAlignmentInvalid,
    EndiannessInvalid,
    CachelineInvalid,
    PageSizeInvalid,
    CodeModelInvalid,
    Rv32AbiMismatch,
    Rv64AbiMismatch,
    VectorIsaLacksV,
}

/// A manifest that fails validation.
pub enum HalError {
    InvalidField(ManifestRule),
}

impl HalError {
    /// What is wrong, in words that name the offending field.
    pub fn message(&self) -> &'static str {
        match self {
            HalError::InvalidField(rule) => match rule {
                ManifestRule::NameEmpty => "manifest.name must be non-empty",
                ManifestRule::VendorEmpty => "manifest.vendor must be non-empty",
                ManifestRule::WeightPrecisionZero => "capabilities.weight_precisions entries must be > 0",
                ManifestRule::MaxNeuronsZero => "capabilities.max_neurons_per_core must be > 0",
                ManifestRule::MaxSynapsesZero => "capabilities.max_synapses_per_core must be > 0",
                ManifestRule::TimeResolutionZero => "capabilities.time_resolution_ns must be > 0",
                ManifestRule::MaxFanInZero => "capabilities.max_fan_in must be > 0",
                ManifestRule::MaxFanOutZero => "capabilities.max_fan_out must be > 0",
                ManifestRule::CoreMemoryZero => "capabilities.core_memory_kib must be > 0",
                ManifestRule::BandwidthZero => "capabilities.interconnect_bandwidth_mbps must be > 0",
                ManifestRule::NeuronMemNotPositive => "capabilities.neuron_mem_kib_per must be > 0",
                ManifestRule::SynapseMemNotPositive => "capabilities.syn_mem_kib_per must be > 0",
                ManifestRule::BytesPerEventZero => "capabilities.bytes_per_event must be > 0",
                ManifestRule::SpikeRateNotPositive => "capabilities.default_spike_rate_hz must be > 0",
                ManifestRule::VectorWithoutVlen => "capabilities.vlen_bits_max must be > 0 when has_vector = true",
                ManifestRule::ZvlZero => "capabilities.zvl_bits_min must be > 0 when provided",
                ManifestRule::ZvlAboveVlen => "capabilities.zvl_bits_min must be <= vlen_bits_max when both present",
                ManifestRule::VectorBitsNotByteAligned =>
                    "capabilities.zvl_bits_min and vlen_bits_max must be multiples of 8 when both present",
                ManifestRule::MmioBaseMissing => "capabilities.mmio_base_addr must be > 0 when mmio_supported = true",
                ManifestRule::MmioWidthInvalid => "capabilities.mmio_width_bits must be 32 or 64 when mmio_supported = true",
                ManifestRule::DmaAlignmentInvalid =>
                    "capabilities.dma_alignment must be power-of-two > 0 when dma_supported = true",
                ManifestRule::EndiannessInvalid => "capabilities.endianness must be 'little' or 'big'",
                ManifestRule::CachelineInvalid => "capabilities.cacheline_bytes must be a power-of-two > 0",
                ManifestRule::PageSizeInvalid => "capabilities.page_size_bytes must be a power-of-two > 0",
                ManifestRule::CodeModelInvalid => "capabilities.code_model must be one of: medlow|medany|small",
                ManifestRule::Rv32AbiMismatch => "capabilities.abi should start_with 'ilp32' for 32-bit RISC-V isa",
                ManifestRule::Rv64AbiMismatch => "capabilities.abi should start_with 'lp64' for 64-bit RISC-V isa",
                ManifestRule::VectorIsaLacksV => "capabilities.has_vector = true but isa does not contain 'v'",
            },
        }
    }
}

/// What `str::to_lowercase` makes of a string.
pub uninterp spec fn lower_of(s: Seq<char>) -> Seq<char>;

/// Relies on `str::to_lowercase`: the result depends on the characters alone.
#[verifier::external_body]
fn lowercase(s: &str) -> (r: String)
    ensures
        r@ == lower_of(s@),
{
    s.to_lowercase()
}

/// `s` begins with `p`.
pub open spec fn begins_with(s: Seq<char>, p: Seq<char>) -> bool {
    p.len() <= s.len() && s.subrange(0, p.len() as int) == p
}

/// Relies on `str::starts_with`: whether `p` is a prefix of `s`.
#[verifier::external_body]
fn starts_with(s: &str, p: &str) -> (r: bool)
    ensures
        r == begins_with(s@, p@),
{
    s.starts_with(p)
}

/// Relies on `str::contains` with a `char` pattern: whether `c` occurs in `s`.
#[verifier::external_body]
fn contains_char(s: &str, c: char) -> (r: bool)
    ensures
        r == s@.contains(c),
{
    s.contains(c)
}

/// `v` is a power of two.
pub open spec fn power_of_two(v: int) -> bool
    decreases v,
{
    if v <= 0 {
        false
    } else if v == 1 {
        true
    } else {
        v % 2 == 0 && power_of_two(v / 2)
    }
}

fn is_power_of_two(v: u32) -> (r: bool)
    ensures
        r == power_of_two(v as int),
{
    let mut x = v;
    if x == 0 {
        return false;
    }
    while x != 1
        invariant
            x >= 1,
            power_of_two(v as int) == power_of_two(x as int),
        decreases x,
    {
        if x % 2 != 0 {
            return false;
        }
        x = x / 2;
    }
    true
}

/// A real capability that is present but not a positive finite number.
pub open spec fn not_positive(v: Option<Fixed>) -> bool {
    match v {
        Some(Fixed::Finite(x)) => x <= 0,
        Some(Fixed::NonFinite) => true,
        None => false,
    }
}

pub open spec fn is_zero(v: Option<u32>) -> bool {
    v == Some(0u32)
}

/// The ISA (lower-cased) begins with `isa_prefix` but the declared ABI
/// (lower-cased) does not begin with `abi_prefix`.
pub open spec fn abi_mismatch(c: &Capabilities, isa_prefix: Seq<char>, abi_prefix: Seq<char>) -> bool {
    match (&c.isa, &c.abi) {
        (Some(isa), Some(abi)) => begins_with(lower_of(isa@), isa_prefix) && !begins_with(lower_of(abi@), abi_prefix),
        _ => false,
    }
}

/// The first rule that the capabilities break, in the order validation checks them.
pub open spec fn capability_defect(c: &Capabilities) -> Option<ManifestRule> {
    if c.weight_precisions matches Some(w) && w@.contains(0u32) {
        Some(ManifestRule::WeightPrecisionZero)
    } else if is_zero(c.max_neurons_per_core) {
        Some(ManifestRule::MaxNeuronsZero)
    } else if is_zero(c.max_synapses_per_core) {
        Some(ManifestRule::MaxSynapsesZero)
    } else if c.time_resolution_ns == Some(0u64) {
        Some(ManifestRule::TimeResolutionZero)
    } else if is_zero(c.max_fan_in) {
        Some(ManifestRule::MaxFanInZero)
    } else if is_zero(c.max_fan_out) {
        Some(ManifestRule::MaxFanOutZero)
    } else if is_zero(c.core_memory_kib) {
        Some(ManifestRule::CoreMemoryZero)
    } else if is_zero(c.interconnect_bandwidth_mbps) {
        Some(ManifestRule::BandwidthZero)
    } else if not_positive(c.neuron_mem_kib_per) {
        Some(ManifestRule::NeuronMemNotPositive)
    } else if not_positive(c.syn_mem_kib_per) {
        Some(ManifestRule::SynapseMemNotPositive)
    } else if is_zero(c.bytes_per_event) {
        Some(ManifestRule::BytesPerEventZero)
    } else if not_positive(c.default_spike_rate_hz) {
        Some(ManifestRule::SpikeRateNotPositive)
    } else if c.has_vector == Some(true) && !(c.vlen_bits_max matches Some(v) && v > 0) {
        Some(ManifestRule::VectorWithoutVlen)
    } else if c.zvl_bits_min matches Some(z) && c.vlen_bits_max is Some && z == 0 {
        Some(ManifestRule::ZvlZero)
    } else if c.zvl_bits_min matches Some(z) && c.vlen_bits_max matches Some(v) && z > v {
        Some(ManifestRule::ZvlAboveVlen)
    } else if c.zvl_bits_min matches Some(z) && c.vlen_bits_max matches Some(v) && (z % 8 != 0 || v % 8 != 0) {
        Some(ManifestRule::VectorBitsNotByteAligned)
    } else if c.mmio_supported == Some(true) && !(c.mmio_base_addr matches Some(a) && a > 0) {
        Some(ManifestRule::MmioBaseMissing)
    } else if c.mmio_supported == Some(true) && !(c.mmio_width_bits == Some(32u32) || c.mmio_width_bits == Some(64u32)) {
        Some(ManifestRule::MmioWidthInvalid)
    } else if c.dma_supported == Some(true) && !(c.dma_alignment matches Some(a) && power_of_two(a as int)) {
        Some(ManifestRule::DmaAlignmentInvalid)
    } else if c.endianness matches Some(e) && !(lower_of(e@) == "little"@ || lower_of(e@) == "big"@) {
        Some(ManifestRule::EndiannessInvalid)
    } else if c.cacheline_bytes matches Some(v) && !power_of_two(v as int) {
        Some(ManifestRule::CachelineInvalid)
    } else if c.page_size_bytes matches Some(v) && !power_of_two(v as int) {
        Some(ManifestRule::PageSizeInvalid)
    } else if c.code_model matches Some(cm) && !(cm@ == "medlow"@ || cm@ == "medany"@ || cm@ == "small"@) {
        Some(ManifestRule::CodeModelInvalid)
    } else if abi_mismatch(c, "rv32"@, "ilp32"@) {
        Some(ManifestRule::Rv32AbiMismatch)
    } else if abi_mismatch(c, "rv64"@, "lp64"@) {
        Some(ManifestRule::Rv64AbiMismatch)
    } else if c.isa matches Some(isa) && c.has_vector == Some(true) && !lower_of(isa@).contains('v') {
        Some(ManifestRule::VectorIsaLacksV)
    } else {
        None
    }
}

/// The first rule that the manifest breaks, if any.
pub open spec fn manifest_defect(m: &TargetManifest) -> Option<ManifestRule> {
    if blank(m.name@) {
        Some(ManifestRule::NameEmpty)
    } else if blank(m.vendor@) {
        Some(ManifestRule::VendorEmpty)
    } else {
        match &m.capabilities {
            Some(c) => capability_defect(c),
            None => None,
        }
    }
}

fn zero_u32(v: Option<u32>) -> (r: bool)
    ensures
        r == is_zero(v),
{
    match v {
        Some(x) => x == 0,
        None => false,
    }
}

fn not_positive_exec(v: Option<Fixed>) -> (r: bool)
    ensures
        r == not_positive(v),
{
    match v {
        Some(Fixed::Finite(x)) => x <= 0,
        Some(Fixed::NonFinite) => true,
        None => false,
    }
}

fn has_zero(w: &Vec<u32>) -> (r: bool)
    ensures
        r == w@.contains(0u32),
{
    let mut i: usize = 0;
    while i < w.len()
        invariant
            i <= w@.len(),
            forall|j: int| 0 <= j < i ==> w@[j] != 0,
        decreases w@.len() - i,
    {
        if w[i] == 0 {
            assert(w@[i as int] == 0u32);
            return true;
        }
        i += 1;
    }
    false
}

fn check_capabilities(c: &Capabilities) -> (r: Option<ManifestRule>)
    ensures
        r == capability_defect(c),
{
    if let Some(w) = &c.weight_precisions {
        if has_zero(w) {
            return Some(ManifestRule::WeightPrecisionZero);
        }
    }
    if zero_u32(c.max_neurons_per_core) {
        return Some(ManifestRule::MaxNeuronsZero);
    }
    if zero_u32(c.max_synapses_per_core) {
        return Some(ManifestRule::MaxSynapsesZero);
    }
    if let Some(v) = c.time_resolution_ns {
        if v == 0 {
            return Some(ManifestRule::TimeResolutionZero);
        }
    }
    if zero_u32(c.max_fan_in) {
        return Some(ManifestRule::MaxFanInZero);
    }
    if zero_u32(c.max_fan_out) {
        return Some(ManifestRule::MaxFanOutZero);
    }
    if zero_u32(c.core_memory_kib) {
        return Some(ManifestRule::CoreMemoryZero);
    }
    if zero_u32(c.interconnect_bandwidth_mbps) {
        return Some(ManifestRule::BandwidthZero);
    }
    if not_positive_exec(c.neuron_mem_kib_per) {
        return Some(ManifestRule::NeuronMemNotPositive);
    }
    if not_positive_exec(c.syn_mem_kib_per) {
        return Some(ManifestRule::SynapseMemNotPositive);
    }
    if zero_u32(c.bytes_per_event) {
        return Some(ManifestRule::BytesPerEventZero);
    }
    if not_positive_exec(c.default_spike_rate_hz) {
        return Some(ManifestRule::SpikeRateNotPositive);
    }
    if c.has_vector == Some(true) {
        match c.vlen_bits_max {
            Some(v) => {
                if v == 0 {
                    return Some(ManifestRule::VectorWithoutVlen);
                }
            },
            None => {
                return Some(ManifestRule::VectorWithoutVlen);
            },
        }
    }
    if let (Some(z), Some(v)) = (c.zvl_bits_min, c.vlen_bits_max) {
        if z == 0 {
            return Some(ManifestRule::ZvlZero);
        }
        if z > v {
            return Some(ManifestRule::ZvlAboveVlen);
        }
        if z % 8 != 0 || v % 8 != 0 {
            return Some(ManifestRule::VectorBitsNotByteAligned);
        }
    }
    if c.mmio_supported == Some(true) {
        match c.mmio_base_addr {
            Some(a) => {
                if a == 0 {
                    return Some(ManifestRule::MmioBaseMissing);
                }
            },
            None => {
                return Some(ManifestRule::MmioBaseMissing);
            },
        }
        if !(c.mmio_width_bits == Some(32u32) || c.mmio_width_bits == Some(64u32)) {
            return Some(ManifestRule::MmioWidthInvalid);
        }
    }
    if c.dma_supported == Some(true) {
        match c.dma_alignment {
            Some(a) => {
                if !is_power_of_two(a) {
                    return Some(ManifestRule::DmaAlignmentInvalid);
                }
            },
            None => {
                return Some(ManifestRule::DmaAlignmentInvalid);
            },
        }
    }
    if let Some(e) = &c.endianness {
        let lc = lowercase(e.as_str());
        if !(same_text(lc.as_str(), "little") || same_text(lc.as_str(), "big")) {
            return Some(ManifestRule::EndiannessInvalid);
        }
    }
    if let Some(v) = c.cacheline_bytes {
        if !is_power_of_two(v) {
            return Some(ManifestRule::CachelineInvalid);
        }
    }
    if let Some(v) = c.page_size_bytes {
        if !is_power_of_two(v) {
            return Some(ManifestRule::PageSizeInvalid);
        }
    }
    if let Some(cm) = &c.code_model {
        let t = cm.as_str();
        if !(same_text(t, "medlow") || same_text(t, "medany") || same_text(t, "small")) {
            return Some(ManifestRule::CodeModelInvalid);
        }
    }
    if let Some(isa) = &c.isa {
        let isa_lc = lowercase(isa.as_str());
        if starts_with(isa_lc.as_str(), "rv32") {
            if let Some(abi) = &c.abi {
                if !starts_with(lowercase(abi.as_str()).as_str(), "ilp32") {
                    return Some(ManifestRule::Rv32AbiMismatch);
                }
            }
        }
        if starts_with(isa_lc.as_str(), "rv64") {
            if let Some(abi) = &c.abi {
                if !starts_with(lowercase(abi.as_str()).as_str(), "lp64") {
                    return Some(ManifestRule::Rv64AbiMismatch);
                }
            }
        }
        if c.has_vector == Some(true) && !contains_char(isa_lc.as_str(), 'v') {
            return Some(ManifestRule::VectorIsaLacksV);
        }
    }
    None
}

/// Checks a manifest for consistency and reports the first rule it breaks:
/// name and vendor non-blank, each present numeric capability in its domain,
/// and the cross-field vector, memory-mapped I/O, DMA, layout and ISA/ABI rules.
pub fn validate_manifest(m: &TargetManifest) -> (r: Result<(), HalError>)
    ensures
        r is Ok <==> manifest_defect(m) is None,
        r matches Err(HalError::InvalidField(rule)) ==> manifest_defect(m) == Some(rule),
{
    if is_blank(&m.name) {
        return Err(HalError::InvalidField(ManifestRule::NameEmpty));
    }
    if is_blank(&m.vendor) {
        return Err(HalError::InvalidField(ManifestRule::VendorEmpty));
    }
    match &m.capabilities {
        Some(c) => match check_capabilities(c) {
            Some(rule) => Err(HalError::InvalidField(rule)),
            None => Ok(()),
        },
        None => Ok(()),
    }
}

} // verus!
