//! Annotation passes for RISC-V targets: each records, under its own key,
//! how later code generation should lower, lay out, schedule and tune the
//! network for the CPU profile that the attached manifest names.

use vstd::prelude::*;
use crate::graph::{attr_lookup, attr_table_get, attrs_view, lemma_attr_lookup_view, AttrValue, AttrView, Graph};
use crate::hal::Capabilities;

verus! {

/// Kernels the network lowers to, and whether they step on ticks.
#[derive(Clone, Copy, Debug, PartialEq, Eq, Structural)]
pub struct RvKernelsReport {
    /// Ticked kernels when a timing report is present, else event-driven.
    pub tick_mode: bool,
    pub kernel_count: usize,
}

/// Memory layout and default quantisation.
#[derive(Clone, Copy, Debug, PartialEq, Eq, Structural)]
pub struct RvLayoutReport {
    pub vector_available: bool,
    pub vector_bytes: u64,
    pub align_bytes: u64,
    pub quant_bits_default: u32,
    /// The 32-bit bare-metal profile, else the 64-bit Linux one.
    pub bare_metal_profile: bool,
}

/// Kernel fusion and threading.
#[derive(Clone, Copy, Debug, PartialEq, Eq, Structural)]
pub struct RvScheduleReport {
    pub threads: u32,
}

impl RvScheduleReport {
    /// The stages fused into one kernel.
    pub fn fused_stages(&self) -> (r: Vec<&'static str>)
        ensures
            r@.len() == 2,
    {
        vec!["integrate", "threshold"]
    }
}

/// Whether kernels are vectorised, and at what width.
#[derive(Clone, Copy, Debug, PartialEq, Eq, Structural)]
pub struct RvVectorizeReport {
    pub enabled: bool,
    pub vlen_bytes: u64,
}

/// Code-size tuning for bare metal.
#[derive(Clone, Copy, Debug, PartialEq, Eq, Structural)]
pub struct RvBareTuningReport {
    pub size_optimized: bool,
    pub use_compressed: bool,
}

/// Control-plane driver generation for an attached accelerator.
#[derive(Clone, Copy, Debug, PartialEq, Eq, Structural)]
pub struct RvControlPlaneReport {
    /// Generated (reported "ok"), else skipped.
    pub targeted: bool,
    pub requires_fence_io: bool,
    pub aligned_access: bool,
    pub dma_supported: bool,
    pub dma_alignment: u32,
}

/// `s` ends with `p`.
pub open spec fn finishes_with(s: Seq<char>, p: Seq<char>) -> bool {
    p.len() <= s.len() && s.subrange(s.len() - p.len(), s.len() as int) == p
}

/// Relies on `str::ends_with`: whether `p` is a suffix of `s`.
#[verifier::external_body]
fn ends_with(s: &str, p: &str) -> (r: bool)
    ensures
        r == finishes_with(s@, p@),
{
    s.ends_with(p)
}

/// The manifest path stored under "hal_manifest_path", or the empty text.
pub open spec fn manifest_path(g: &Graph) -> Seq<char> {
    match attr_lookup(attrs_view(g), "hal_manifest_path"@) {
        Some(AttrView::Text(t)) => t,
        _ => Seq::empty(),
    }
}

fn manifest_path_ends_with(g: &Graph, suffix: &str) -> (r: bool)
    ensures
        r == finishes_with(manifest_path(g), suffix@),
{
    proof {
        lemma_attr_lookup_view(g, "hal_manifest_path"@);
    }
    match attr_table_get(&g.attributes, "hal_manifest_path") {
        Some(AttrValue::Text(t)) => ends_with(t.as_str(), suffix),
        _ => {
            assert(suffix@.len() == 0 ==> Seq::<char>::empty().subrange(0, 0) =~= suffix@);
            suffix.is_empty()
        },
    }
}

/// Largest of the first `n` entries, or 0.
pub open spec fn largest(w: Seq<u32>, n: int) -> u32
    decreases n,
{
    if n <= 0 {
        0
    } else {
        let m = largest(w, n - 1);
        if n == 1 || w[n - 1] > m { w[n - 1] } else { m }
    }
}

/// The widest declared weight precision, else 16 bits.
pub open spec fn default_precision(caps: Option<&Capabilities>) -> u32 {
    match caps {
        Some(c) => match &c.weight_precisions {
            Some(w) => if w@.len() > 0 { largest(w@, w@.len() as int) } else { 16 },
            None => 16,
        },
        None => 16,
    }
}

pub open spec fn kernels_view(g: &Graph) -> RvKernelsReport {
    RvKernelsReport {
        tick_mode: attr_lookup(attrs_view(g), "timing"@) is Some,
        kernel_count: if g.populations@.len() >= 1 { g.populations@.len() as usize } else { 1 },
    }
}

pub open spec fn layout_view(g: &Graph, caps: Option<&Capabilities>) -> RvLayoutReport {
    let vector = finishes_with(manifest_path(g), "riscv64gcv_linux.toml"@);
    RvLayoutReport {
        vector_available: vector,
        vector_bytes: if vector { 64 } else { 16 },
        align_bytes: if vector { 64 } else { 16 },
        quant_bits_default: default_precision(caps),
        bare_metal_profile: finishes_with(manifest_path(g), "riscv32imac_bare.toml"@),
    }
}

pub open spec fn vectorize_view(g: &Graph) -> RvVectorizeReport {
    match attr_lookup(attrs_view(g), "rv_layout"@) {
        Some(AttrView::RvLayout(l)) => RvVectorizeReport { enabled: l.vector_available, vlen_bytes: l.vector_bytes },
        _ => RvVectorizeReport { enabled: false, vlen_bytes: 0 },
    }
}

pub open spec fn bare_tuning_view(g: &Graph) -> RvBareTuningReport {
    RvBareTuningReport {
        size_optimized: finishes_with(manifest_path(g), "riscv32imac_bare.toml"@),
        use_compressed: true,
    }
}

pub open spec fn control_plane_view(g: &Graph) -> RvControlPlaneReport {
    let t = finishes_with(manifest_path(g), "riscv64gc_ctrl.toml"@);
    RvControlPlaneReport { targeted: t, requires_fence_io: true, aligned_access: true, dma_supported: t, dma_alignment: 64 }
}

pub fn lower_kernels(g: &Graph) -> (r: RvKernelsReport)
    ensures
        r == kernels_view(g),
{
    proof {
        lemma_attr_lookup_view(g, "timing"@);
    }
    let tick_mode = attr_table_get(&g.attributes, "timing").is_some();
    let n = g.populations.len();
    RvKernelsReport { tick_mode, kernel_count: if n >= 1 { n } else { 1 } }
}

fn widest(w: &Vec<u32>) -> (r: u32)
    ensures
        r == largest(w@, w@.len() as int),
{
    let mut m: u32 = 0;
    let mut i: usize = 0;
    while i < w.len()
        invariant
            i <= w@.len(),
            m == largest(w@, i as int),
        decreases w@.len() - i,
    {
        if i == 0 || w[i] > m {
            m = w[i];
        }
        i += 1;
    }
    m
}

pub fn memory_layout(g: &Graph, caps: Option<&Capabilities>) -> (r: RvLayoutReport)
    ensures
        r == layout_view(g, caps),
{
    let vector = manifest_path_ends_with(g, "riscv64gcv_linux.toml");
    let bare = manifest_path_ends_with(g, "riscv32imac_bare.toml");
    let bits: u32 = match caps {
        Some(c) => match &c.weight_precisions {
            Some(w) => if w.len() > 0 { widest(w) } else { 16 },
            None => 16,
        },
        None => 16,
    };
    RvLayoutReport {
        vector_available: vector,
        vector_bytes: if vector { 64 } else { 16 },
        align_bytes: if vector { 64 } else { 16 },
        quant_bits_default: bits,
        bare_metal_profile: bare,
    }
}

pub fn vectorize(g: &Graph) -> (r: RvVectorizeReport)
    ensures
        r == vectorize_view(g),
{
    proof {
        lemma_attr_lookup_view(g, "rv_layout"@);
    }
    match attr_table_get(&g.attributes, "rv_layout") {
        Some(AttrValue::RvLayout(l)) => RvVectorizeReport { enabled: l.vector_available, vlen_bytes: l.vector_bytes },
        _ => RvVectorizeReport { enabled: false, vlen_bytes: 0 },
    }
}

pub fn bare_metal_tuning(g: &Graph) -> (r: RvBareTuningReport)
    ensures
        r == bare_tuning_view(g),
{
    RvBareTuningReport { size_optimized: manifest_path_ends_with(g, "riscv32imac_bare.toml"), use_compressed: true }
}

pub fn control_plane(g: &Graph) -> (r: RvControlPlaneReport)
    ensures
        r == control_plane_view(g),
{
    let t = manifest_path_ends_with(g, "riscv64gc_ctrl.toml");
    RvControlPlaneReport { targeted: t, requires_fence_io: true, aligned_access: true, dma_supported: t, dma_alignment: 64 }
}

} // verus!
