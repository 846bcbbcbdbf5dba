//! Passes as units of graph-to-graph transformation, and the driver that
//! runs an ordered list of them, stopping at the first error.

use vstd::prelude::*;
use crate::graph::{
    attr_entries, attr_inserted, attr_table_insert, attrs_view, graph_defect, lemma_attr_inserted_view, same_text,
    valid_graph, AttrValue, AttrView, Connection, Fixed, Graph, ValidationError,
};
use crate::hal::Capabilities;
use crate::riscv::{
    bare_metal_tuning, bare_tuning_view, control_plane, control_plane_view, kernels_view, layout_view, lower_kernels,
    memory_layout, vectorize, vectorize_view, RvScheduleReport,
};
use crate::mapping::{
    context_is_wf, context_wf, input_of, part_count, partition, partition_count, partition_view, placement,
    placement_view, resource_check, resource_view, routing, routing_view, timing, timing_view,
};

verus! {

/// A fatal pipeline error: the run stops at the first one.
pub enum PassError {
    /// The graph failed structural validation.
    Invalid(ValidationError),
    /// The partition context cannot be used: a stored report is malformed,
    /// or the partition count does not fit in memory.
    Mapping(&'static str),
    /// A pipeline named a pass that does not exist.
    UnknownPass(String),
}

// ---------------------------------------------------------------------------
// What each stage does

/// Everything but the attribute table is the same.
pub open spec fn same_network(a: &Graph, b: &Graph) -> bool {
    &&& a.name@ == b.name@
    &&& a.populations@ == b.populations@
    &&& a.connections@ == b.connections@
    &&& a.probes@ == b.probes@
    &&& a.dialect == b.dialect
}

/// `out` is `g` with the view `v` stored under `key`.
pub open spec fn stores(g: &Graph, out: &Graph, key: Seq<char>, v: AttrView) -> bool {
    same_network(g, out) && attrs_view(out) == attr_inserted(attrs_view(g), key, v)
}

/// Largest representable weight step count for a bit width, at least one.
pub open spec fn quant_steps(bits: u32) -> int {
    let levels = if bits >= 31 { u32::MAX as int } else { pow2(bits as nat) };
    if levels - 1 <= 0 { 1 } else { levels - 1 }
}

pub open spec fn pow2(n: nat) -> int
    decreases n,
{
    if n == 0 { 1 } else { 2 * pow2((n - 1) as nat) }
}

/// A weight snapped to the nearest of `quant_steps(bits) + 1` evenly spaced
/// levels on [-1, 1] (after clamping), halves rounding up, and the level
/// rounded to the nearest millionth.
pub open spec fn quantized(w: Fixed, bits: u32) -> Fixed {
    match w {
        Fixed::NonFinite => Fixed::NonFinite,
        Fixed::Finite(v) => {
            let c = if v < -1_000_000 { -1_000_000 } else if v > 1_000_000 { 1_000_000 } else { v as int };
            let l = quant_steps(bits);
            let q = ((c + 1_000_000) * l + 1_000_000) / 2_000_000;
            Fixed::Finite(((q * 2_000_000 + l / 2) / l - 1_000_000) as i64)
        },
    }
}

/// The connection with its weight quantized.
pub open spec fn quantized_connection(a: Connection, b: Connection, bits: u32) -> bool {
    &&& b.pre == a.pre
    &&& b.post == a.post
    &&& b.delay_ms == a.delay_ms
    &&& b.plasticity == a.plasticity
    &&& b.weight == quantized(a.weight, bits)
}

/// One pass of a pipeline.
#[derive(Clone, Copy, Debug, PartialEq, Eq, Structural)]
pub enum PassKind {
    NoOp,
    Validate,
    Quantize(u32),
    Partition,
    Placement,
    Routing,
    Timing,
    ResourceCheck,
    RvLowerToKernels,
    RvMemoryLayoutAndQuant,
    RvKernelFusionAndScheduling,
    RvVectorizeKernels,
    RvBareMetalTuning,
    RvControlPlaneDriverGen,
}

/// The stage `kind` succeeds on `g` with the result `out`.
pub open spec fn stage_ok(kind: PassKind, g: &Graph, caps: Option<&Capabilities>, out: &Graph) -> bool {
    match kind {
        PassKind::NoOp => *out == *g,
        PassKind::Validate => valid_graph(g) && *out == *g,
        PassKind::Quantize(bits) => {
            &&& out.name == g.name
            &&& out.populations == g.populations
            &&& out.probes == g.probes
            &&& out.dialect == g.dialect
            &&& out.attributes == g.attributes
            &&& out.connections@.len() == g.connections@.len()
            &&& forall|i: int| 0 <= i < g.connections@.len()
                ==> quantized_connection(g.connections@[i], #[trigger] out.connections@[i], bits)
        },
        PassKind::Partition => part_count(g, caps) <= usize::MAX
            && stores(g, out, "partition"@, AttrView::Partition(partition_view(g, caps))),
        PassKind::Placement => context_wf(g)
            && stores(g, out, "placement"@, AttrView::Placement(placement_view(input_of(g), caps))),
        PassKind::Routing => context_wf(g)
            && stores(g, out, "routing"@, AttrView::Routing(routing_view(input_of(g), caps))),
        PassKind::Timing => stores(g, out, "timing"@, AttrView::Timing(timing_view(input_of(g), caps))),
        PassKind::ResourceCheck => context_wf(g)
            && stores(g, out, "resource_check"@, AttrView::ResourceCheck(resource_view(input_of(g), caps))),
        PassKind::RvLowerToKernels => stores(g, out, "rv_kernels"@, AttrView::RvKernels(kernels_view(g))),
        PassKind::RvMemoryLayoutAndQuant => stores(g, out, "rv_layout"@, AttrView::RvLayout(layout_view(g, caps))),
        PassKind::RvKernelFusionAndScheduling => stores(
            g,
            out,
            "rv_schedule"@,
            AttrView::RvSchedule(RvScheduleReport { threads: 1 }),
        ),
        PassKind::RvVectorizeKernels => stores(g, out, "rv_vectorize"@, AttrView::RvVectorize(vectorize_view(g))),
        PassKind::RvBareMetalTuning => stores(g, out, "rv_bare_tuning"@, AttrView::RvBareTuning(bare_tuning_view(g))),
        PassKind::RvControlPlaneDriverGen => stores(
            g,
            out,
            "rv_ctrl_plane"@,
            AttrView::RvControlPlane(control_plane_view(g)),
        ),
    }
}

/// The stage `kind` fails on `g` with the error `e`.
pub open spec fn stage_fails(kind: PassKind, g: &Graph, caps: Option<&Capabilities>, e: PassError) -> bool {
    match kind {
        PassKind::Validate => match e {
            PassError::Invalid(v) => graph_defect(g) == Some(v.0@),
            _ => false,
        },
        PassKind::Partition => part_count(g, caps) > usize::MAX && e is Mapping,
        PassKind::Placement | PassKind::Routing | PassKind::ResourceCheck => !context_wf(g) && e is Mapping,
        _ => false,
    }
}

/// Inserts a report under its key.
fn store(g: Graph, key: &str, v: AttrValue) -> (out: Graph)
    ensures
        same_network(&g, &out),
        attrs_view(&out) == attr_inserted(attrs_view(&g), key@, v@),
{
    let mut out = g;
    proof {
        lemma_attr_inserted_view(attr_entries(out.attributes), key@, v);
    }
    attr_table_insert(&mut out.attributes, key.to_string(), v);
    out
}

// ---------------------------------------------------------------------------
// The passes

/// Passes the graph through unchanged.
pub struct NoOpPass;

impl NoOpPass {
    pub fn name(&self) -> &'static str {
        "no-op"
    }

    pub fn run(&self, g: Graph) -> (r: Result<Graph, PassError>)
        ensures
            r matches Ok(out) && stage_ok(PassKind::NoOp, &g, None, &out),
    {
        Ok(g)
    }
}

/// Fails on the first structural defect of the graph.
pub struct ValidatePass;

impl ValidatePass {
    pub fn name(&self) -> &'static str {
        "validate"
    }

    pub fn run(&self, g: Graph) -> (r: Result<Graph, PassError>)
        ensures
            match r {
                Ok(out) => stage_ok(PassKind::Validate, &g, None, &out),
                Err(e) => stage_fails(PassKind::Validate, &g, None, e),
            },
    {
        match g.validate() {
            Ok(()) => Ok(g),
            Err(e) => Err(PassError::Invalid(e)),
        }
    }
}

/// Snaps every connection weight to a uniform grid of `2^bits` levels on [-1, 1].
pub struct QuantizeWeightsPass {
    pub bits: u32,
}

impl QuantizeWeightsPass {
    fn steps(bits: u32) -> (r: u64)
        ensures
            r == quant_steps(bits),
            1 <= r < 0x1_0000_0000,
    {
        let levels: u64 = if bits >= 31 {
            0xffff_ffff
        } else {
            let mut l: u64 = 1;
            let mut i: u32 = 0;
            while i < bits
                invariant
                    i <= bits < 31,
                    l == pow2(i as nat),
                decreases bits - i,
            {
                proof {
                    assert(pow2((i + 1) as nat) == 2 * pow2(i as nat));
                    lemma_pow2_bounded_by((i + 1) as nat, 30);
                    assert(pow2(30) == 0x4000_0000) by {
                        reveal_with_fuel(pow2, 31);
                    }
                }
                l = l * 2;
                i += 1;
            }
            proof {
                lemma_pow2_bounded_by(bits as nat, 30);
                assert(pow2(30) == 0x4000_0000) by {
                    reveal_with_fuel(pow2, 31);
                }
            }
            l
        };
        if levels <= 1 { 1 } else { levels - 1 }
    }

    /// The weight snapped to the grid, as `quantized` states.
    pub fn quantize(w: Fixed, bits: u32) -> (r: Fixed)
        ensures
            r == quantized(w, bits),
    {
        match w {
            Fixed::NonFinite => Fixed::NonFinite,
            Fixed::Finite(v) => {
                let c: i64 = if v < -1_000_000 { -1_000_000 } else if v > 1_000_000 { 1_000_000 } else { v };
                let l = Self::steps(bits);
                let x: u64 = (c + 1_000_000) as u64;
                proof {
                    assert(x * l <= 2_000_000 * 0xffff_ffff) by (nonlinear_arith)
                        requires x <= 2_000_000, l < 0x1_0000_0000;
                }
                let q = (x * l + 1_000_000) / 2_000_000;
                proof {
                    assert(q <= l) by (nonlinear_arith)
                        requires q as int == (x as int * l as int + 1_000_000) / 2_000_000, x <= 2_000_000, l >= 1;
                    assert(q * 2_000_000 <= 2_000_000 * 0xffff_ffff) by (nonlinear_arith)
                        requires q <= l, l < 0x1_0000_0000;
                }
                let y = (q * 2_000_000 + l / 2) / l;
                proof {
                    assert(y <= 2_000_001) by (nonlinear_arith)
                        requires y as int == (q as int * 2_000_000 + (l as int) / 2) / (l as int), q <= l, l >= 1;
                }
                Fixed::Finite(y as i64 - 1_000_000)
            },
        }
    }

    pub fn name(&self) -> &'static str {
        "quantize"
    }

    pub fn run(&self, g: Graph) -> (r: Result<Graph, PassError>)
        ensures
            r matches Ok(out) && stage_ok(PassKind::Quantize(self.bits), &g, None, &out),
    {
        let Graph { name, populations, connections, probes, dialect, attributes } = g;
        let ghost cs0 = connections@;
        let mut out: Vec<Connection> = Vec::new();
        let mut cs = connections;
        let mut rev: Vec<Connection> = Vec::new();
        while cs.len() > 0
            invariant
                cs@.len() + rev@.len() == cs0.len(),
                forall|j: int| 0 <= j < cs@.len() ==> #[trigger] cs@[j] == cs0[j],
                forall|j: int| 0 <= j < rev@.len() ==> quantized_connection(
                    cs0[cs0.len() - 1 - j], #[trigger] rev@[j], self.bits),
            decreases cs@.len(),
        {
            let c = cs.pop().unwrap();
            let q = Connection {
                pre: c.pre,
                post: c.post,
                weight: Self::quantize(c.weight, self.bits),
                delay_ms: c.delay_ms,
                plasticity: c.plasticity,
            };
            rev.push(q);
        }
        while rev.len() > 0
            invariant
                rev@.len() + out@.len() == cs0.len(),
                forall|j: int| 0 <= j < rev@.len() ==> quantized_connection(
                    cs0[cs0.len() - 1 - j], #[trigger] rev@[j], self.bits),
                forall|j: int| 0 <= j < out@.len() ==> quantized_connection(
                    cs0[j], #[trigger] out@[j], self.bits),
            decreases rev@.len(),
        {
            let c = rev.pop().unwrap();
            out.push(c);
        }
        Ok(Graph { name, populations, connections: out, probes, dialect, attributes })
    }
}

/// Assigns populations to partitions; stores its report under "partition".
pub struct PartitionPass;

impl PartitionPass {
    pub fn name(&self) -> &'static str {
        "partition"
    }

    pub fn run(&self, g: Graph, caps: Option<&Capabilities>) -> (r: Result<Graph, PassError>)
        ensures
            match r {
                Ok(out) => stage_ok(PassKind::Partition, &g, caps, &out),
                Err(e) => stage_fails(PassKind::Partition, &g, caps, e),
            },
    {
        if partition_count(&g, caps) > usize::MAX as u128 {
            return Err(PassError::Mapping("partition count exceeds the address space"));
        }
        let rep = partition(&g, caps);
        Ok(store(g, "partition", AttrValue::Partition(rep)))
    }
}

/// Estimates per-partition memory and checks fan caps; stores its report under "placement".
pub struct PlacementPass;

impl PlacementPass {
    pub fn name(&self) -> &'static str {
        "placement"
    }

    pub fn run(&self, g: Graph, caps: Option<&Capabilities>) -> (r: Result<Graph, PassError>)
        ensures
            match r {
                Ok(out) => stage_ok(PassKind::Placement, &g, caps, &out),
                Err(e) => stage_fails(PassKind::Placement, &g, caps, e),
            },
    {
        if !context_is_wf(&g) {
            return Err(PassError::Mapping("stored partition report is malformed"));
        }
        let rep = placement(&g, caps);
        Ok(store(g, "placement", AttrValue::Placement(rep)))
    }
}

/// Estimates cross-partition traffic; stores its report under "routing".
pub struct RoutingPass;

impl RoutingPass {
    pub fn name(&self) -> &'static str {
        "routing"
    }

    pub fn run(&self, g: Graph, caps: Option<&Capabilities>) -> (r: Result<Graph, PassError>)
        ensures
            match r {
                Ok(out) => stage_ok(PassKind::Routing, &g, caps, &out),
                Err(e) => stage_fails(PassKind::Routing, &g, caps, e),
            },
    {
        if !context_is_wf(&g) {
            return Err(PassError::Mapping("stored partition report is malformed"));
        }
        let rep = routing(&g, caps);
        Ok(store(g, "routing", AttrValue::Routing(rep)))
    }
}

/// Converts delays into ticks; stores its report under "timing".
pub struct TimingPass;

impl TimingPass {
    pub fn name(&self) -> &'static str {
        "timing"
    }

    pub fn run(&self, g: Graph, caps: Option<&Capabilities>) -> (r: Result<Graph, PassError>)
        ensures
            r matches Ok(out) && stage_ok(PassKind::Timing, &g, caps, &out),
    {
        let rep = timing(&g, caps);
        Ok(store(g, "timing", AttrValue::Timing(rep)))
    }
}

/// Gives the legality verdict; stores its report under "resource_check".
pub struct ResourceCheckPass;

impl ResourceCheckPass {
    pub fn name(&self) -> &'static str {
        "resource-check"
    }

    pub fn run(&self, g: Graph, caps: Option<&Capabilities>) -> (r: Result<Graph, PassError>)
        ensures
            match r {
                Ok(out) => stage_ok(PassKind::ResourceCheck, &g, caps, &out),
                Err(e) => stage_fails(PassKind::ResourceCheck, &g, caps, e),
            },
    {
        if !context_is_wf(&g) {
            return Err(PassError::Mapping("stored partition report is malformed"));
        }
        let rep = resource_check(&g, caps);
        Ok(store(g, "resource_check", AttrValue::ResourceCheck(rep)))
    }
}

/// Records how the network lowers to CPU kernels; stores it under "rv_kernels".
pub struct RvLowerToKernelsPass;

impl RvLowerToKernelsPass {
    pub fn name(&self) -> &'static str {
        "rv-lower"
    }

    pub fn run(&self, g: Graph) -> (r: Graph)
        ensures
            stage_ok(PassKind::RvLowerToKernels, &g, None, &r),
    {
        let rep = lower_kernels(&g);
        store(g, "rv_kernels", AttrValue::RvKernels(rep))
    }
}

/// Records the memory layout and default quantisation; stores it under "rv_layout".
pub struct RvMemoryLayoutAndQuantPass;

impl RvMemoryLayoutAndQuantPass {
    pub fn name(&self) -> &'static str {
        "rv-layout"
    }

    pub fn run(&self, g: Graph, caps: Option<&Capabilities>) -> (r: Graph)
        ensures
            stage_ok(PassKind::RvMemoryLayoutAndQuant, &g, caps, &r),
    {
        let rep = memory_layout(&g, caps);
        store(g, "rv_layout", AttrValue::RvLayout(rep))
    }
}

/// Records a single-threaded schedule of fused kernels; stores it under "rv_schedule".
pub struct RvKernelFusionAndSchedulingPass;

impl RvKernelFusionAndSchedulingPass {
    pub fn name(&self) -> &'static str {
        "rv-schedule"
    }

    pub fn run(&self, g: Graph) -> (r: Graph)
        ensures
            stage_ok(PassKind::RvKernelFusionAndScheduling, &g, None, &r),
    {
        store(g, "rv_schedule", AttrValue::RvSchedule(RvScheduleReport { threads: 1 }))
    }
}

/// Records whether kernels use the vector unit; stores it under "rv_vectorize".
pub struct RvVectorizeKernelsPass;

impl RvVectorizeKernelsPass {
    pub fn name(&self) -> &'static str {
        "rv-vectorize"
    }

    pub fn run(&self, g: Graph) -> (r: Graph)
        ensures
            stage_ok(PassKind::RvVectorizeKernels, &g, None, &r),
    {
        let rep = vectorize(&g);
        store(g, "rv_vectorize", AttrValue::RvVectorize(rep))
    }
}

/// Records code-size tuning for bare metal; stores it under "rv_bare_tuning".
pub struct RvBareMetalTuningPass;

impl RvBareMetalTuningPass {
    pub fn name(&self) -> &'static str {
        "rv-baremetal-tuning"
    }

    pub fn run(&self, g: Graph) -> (r: Graph)
        ensures
            stage_ok(PassKind::RvBareMetalTuning, &g, None, &r),
    {
        let rep = bare_metal_tuning(&g);
        store(g, "rv_bare_tuning", AttrValue::RvBareTuning(rep))
    }
}

/// Records control-plane driver generation; stores it under "rv_ctrl_plane".
pub struct RvControlPlaneDriverGenPass;

impl RvControlPlaneDriverGenPass {
    pub fn name(&self) -> &'static str {
        "rv-control-plane-driver"
    }

    pub fn run(&self, g: Graph) -> (r: Graph)
        ensures
            stage_ok(PassKind::RvControlPlaneDriverGen, &g, None, &r),
    {
        let rep = control_plane(&g);
        store(g, "rv_ctrl_plane", AttrValue::RvControlPlane(rep))
    }
}

impl PassKind {
    /// The pass's name, as used for dump files.
    pub fn name(&self) -> &'static str {
        match self {
            PassKind::NoOp => NoOpPass.name(),
            PassKind::Validate => ValidatePass.name(),
            PassKind::Quantize(bits) => QuantizeWeightsPass { bits: *bits }.name(),
            PassKind::Partition => PartitionPass.name(),
            PassKind::Placement => PlacementPass.name(),
            PassKind::Routing => RoutingPass.name(),
            PassKind::Timing => TimingPass.name(),
            PassKind::ResourceCheck => ResourceCheckPass.name(),
            PassKind::RvLowerToKernels => RvLowerToKernelsPass.name(),
            PassKind::RvMemoryLayoutAndQuant => RvMemoryLayoutAndQuantPass.name(),
            PassKind::RvKernelFusionAndScheduling => RvKernelFusionAndSchedulingPass.name(),
            PassKind::RvVectorizeKernels => RvVectorizeKernelsPass.name(),
            PassKind::RvBareMetalTuning => RvBareMetalTuningPass.name(),
            PassKind::RvControlPlaneDriverGen => RvControlPlaneDriverGenPass.name(),
        }
    }

    /// Runs the pass on `g` against the target's capabilities.
    pub fn run(&self, g: Graph, caps: Option<&Capabilities>) -> (r: Result<Graph, PassError>)
        ensures
            match r {
                Ok(out) => stage_ok(*self, &g, caps, &out),
                Err(e) => stage_fails(*self, &g, caps, e),
            },
    {
        match self {
            PassKind::NoOp => NoOpPass.run(g),
            PassKind::Validate => ValidatePass.run(g),
            PassKind::Quantize(bits) => QuantizeWeightsPass { bits: *bits }.run(g),
            PassKind::Partition => PartitionPass.run(g, caps),
            PassKind::Placement => PlacementPass.run(g, caps),
            PassKind::Routing => RoutingPass.run(g, caps),
            PassKind::Timing => TimingPass.run(g, caps),
            PassKind::ResourceCheck => ResourceCheckPass.run(g, caps),
            PassKind::RvLowerToKernels => Ok(RvLowerToKernelsPass.run(g)),
            PassKind::RvMemoryLayoutAndQuant => Ok(RvMemoryLayoutAndQuantPass.run(g, caps)),
            PassKind::RvKernelFusionAndScheduling => Ok(RvKernelFusionAndSchedulingPass.run(g)),
            PassKind::RvVectorizeKernels => Ok(RvVectorizeKernelsPass.run(g)),
            PassKind::RvBareMetalTuning => Ok(RvBareMetalTuningPass.run(g)),
            PassKind::RvControlPlaneDriverGen => Ok(RvControlPlaneDriverGenPass.run(g)),
        }
    }
}

// ---------------------------------------------------------------------------
// The driver

/// `t` starts at `g`, and each of its graphs is the result of the next stage
/// of `kinds` on the one before.
pub open spec fn is_trace(kinds: Seq<PassKind>, t: Seq<Graph>, g: Graph, caps: Option<&Capabilities>) -> bool {
    &&& 1 <= t.len() <= kinds.len() + 1
    &&& t[0] == g
    &&& forall|i: int| 0 <= i < t.len() - 1 ==> #[trigger] stage_ok(kinds[i], &t[i], caps, &t[i + 1])
}

/// All stages of `kinds`, run in order from `g`, succeed with `out`.
pub open spec fn runs_to(kinds: Seq<PassKind>, g: Graph, caps: Option<&Capabilities>, out: Graph) -> bool {
    exists|t: Seq<Graph>| #[trigger] is_trace(kinds, t, g, caps) && t.len() == kinds.len() + 1 && t.last() == out
}

/// The stages of `kinds`, run in order from `g`, succeed up to one that fails with `e`.
pub open spec fn fails_with(kinds: Seq<PassKind>, g: Graph, caps: Option<&Capabilities>, e: PassError) -> bool {
    exists|t: Seq<Graph>| #[trigger] is_trace(kinds, t, g, caps) && t.len() <= kinds.len()
        && stage_fails(kinds[t.len() - 1], &t.last(), caps, e)
}

/// An ordered list of passes.
pub struct PassManager {
    passes: Vec<PassKind>,
}

impl PassManager {
    pub closed spec fn stages(&self) -> Seq<PassKind> {
        self.passes@
    }

    pub fn new() -> (r: PassManager)
        ensures
            r.stages() == Seq::<PassKind>::empty(),
    {
        PassManager { passes: Vec::new() }
    }

    /// Appends a pass to the end of the list.
    pub fn add_pass(&mut self, p: PassKind)
        ensures
            final(self).stages() == old(self).stages().push(p),
    {
        self.passes.push(p);
    }

    pub fn len(&self) -> (r: usize)
        ensures
            r == self.stages().len(),
    {
        self.passes.len()
    }

    /// The pass at position `i`.
    pub fn stage(&self, i: usize) -> (r: PassKind)
        requires
            i < self.stages().len(),
        ensures
            r == self.stages()[i as int],
    {
        self.passes[i]
    }

    /// Runs the passes in order, threading the graph through them, and stops
    /// at the first error.
    pub fn run(&self, g: Graph, caps: Option<&Capabilities>) -> (r: Result<Graph, PassError>)
        ensures
            match r {
                Ok(out) => runs_to(self.stages(), g, caps, out),
                Err(e) => fails_with(self.stages(), g, caps, e),
            },
    {
        let ghost g0 = g;
        let ghost mut t: Seq<Graph> = seq![g];
        let mut cur = g;
        let mut i: usize = 0;
        while i < self.passes.len()
            invariant
                i <= self.passes@.len(),
                is_trace(self.passes@, t, g0, caps),
                g0 == g,
                t.len() == i + 1,
                t.last() == cur,
            decreases self.passes@.len() - i,
        {
            let ghost prev = t;
            let ghost before = cur;
            let kind = self.passes[i];
            match kind.run(cur, caps) {
                Ok(next) => {
                    proof {
                        t = t.push(next);
                        assert forall|j: int| 0 <= j < t.len() - 1 implies #[trigger] stage_ok(self.passes@[j], &t[j], caps, &t[j + 1]) by {
                            if j < i {
                                assert(t[j] == prev[j] && t[j + 1] == prev[j + 1]);
                            }
                        }
                    }
                    cur = next;
                },
                Err(e) => {
                    assert(stage_fails(kind, &before, caps, e));
                    assert(t.last() == before);
                    assert(self.stages() == self.passes@);
                    assert(is_trace(self.stages(), t, g0, caps));
                    assert(kind == self.stages()[t.len() - 1]);
                    assert(stage_fails(self.stages()[t.len() - 1], &t.last(), caps, e));
                    return Err(e);
                },
            }
            i += 1;
        }
        assert(is_trace(self.passes@, t, g0, caps));
        Ok(cur)
    }
}

/// The graphs agree on everything that passes read and reports show.
pub open spec fn same_content(a: &Graph, b: &Graph) -> bool {
    same_network(a, b) && attrs_view(a) == attrs_view(b)
}

proof fn lemma_stage_reproducible(kind: PassKind, g1: &Graph, g2: &Graph, caps: Option<&Capabilities>, o1: &Graph, o2: &Graph)
    requires
        same_content(g1, g2),
        stage_ok(kind, g1, caps, o1),
        stage_ok(kind, g2, caps, o2),
    ensures
        same_content(o1, o2),
{
    match kind {
        PassKind::Quantize(bits) => {
            assert(o1.connections@ =~= o2.connections@) by {
                assert forall|i: int| 0 <= i < o1.connections@.len() implies o1.connections@[i] == o2.connections@[i] by {
                    assert(quantized_connection(g1.connections@[i], o1.connections@[i], bits));
                    assert(quantized_connection(g2.connections@[i], o2.connections@[i], bits));
                }
            }
        },
        _ => {},
    }
}

/// Reproducibility: running the same passes on graphs with the same content
/// (in particular, twice on one graph) against the same target yields the
/// same content, attribute table included.
pub proof fn lemma_runs_reproducible(
    kinds: Seq<PassKind>,
    g1: Graph,
    g2: Graph,
    caps: Option<&Capabilities>,
    o1: Graph,
    o2: Graph,
)
    requires
        same_content(&g1, &g2),
        runs_to(kinds, g1, caps, o1),
        runs_to(kinds, g2, caps, o2),
    ensures
        same_content(&o1, &o2),
{
    let t1 = choose|t: Seq<Graph>| #[trigger] is_trace(kinds, t, g1, caps) && t.len() == kinds.len() + 1 && t.last() == o1;
    let t2 = choose|t: Seq<Graph>| #[trigger] is_trace(kinds, t, g2, caps) && t.len() == kinds.len() + 1 && t.last() == o2;
    lemma_traces_agree(kinds, t1, t2, g1, g2, caps, kinds.len() as int);
}

proof fn lemma_traces_agree(
    kinds: Seq<PassKind>,
    t1: Seq<Graph>,
    t2: Seq<Graph>,
    g1: Graph,
    g2: Graph,
    caps: Option<&Capabilities>,
    k: int,
)
    requires
        same_content(&g1, &g2),
        is_trace(kinds, t1, g1, caps),
        is_trace(kinds, t2, g2, caps),
        0 <= k < t1.len(),
        k < t2.len(),
    ensures
        same_content(&t1[k], &t2[k]),
    decreases k,
{
    if k > 0 {
        lemma_traces_agree(kinds, t1, t2, g1, g2, caps, k - 1);
        let j = k - 1;
        assert(stage_ok(kinds[j], &t1[j], caps, &t1[j + 1]));
        assert(stage_ok(kinds[j], &t2[j], caps, &t2[j + 1]));
        lemma_stage_reproducible(kinds[k - 1], &t1[k - 1], &t2[k - 1], caps, &t1[k], &t2[k]);
    }
}

/// A format for per-stage graph dumps.
#[derive(Clone, Copy, Debug, PartialEq, Eq, Structural)]
pub enum DumpFormat {
    Json,
    Yaml,
    Bin,
}

impl DumpFormat {
    /// File extension of a dump in this format.
    pub fn extension(&self) -> &'static str {
        match self {
            DumpFormat::Json => "json",
            DumpFormat::Yaml => "yaml",
            DumpFormat::Bin => "bin",
        }
    }
}

/// Which passes to run, and where and how to dump the graph after each.
pub struct PipelineConfig {
    pub passes: Vec<String>,
    /// Directory for per-stage dumps; none when absent.
    pub dump_dir: Option<String>,
    pub dump_formats: Vec<DumpFormat>,
}

impl PipelineConfig {
    /// A single no-op pass, no dumps, JSON as the dump format.
    pub fn new() -> (r: PipelineConfig)
        ensures
            r.passes@.len() == 1,
            r.passes@[0]@ == "noop"@,
            r.dump_dir is None,
            r.dump_formats@ == seq![DumpFormat::Json],
    {
        let mut passes: Vec<String> = Vec::new();
        passes.push("noop".to_string());
        let mut dump_formats: Vec<DumpFormat> = Vec::new();
        dump_formats.push(DumpFormat::Json);
        assert(dump_formats@ =~= seq![DumpFormat::Json]);
        PipelineConfig { passes, dump_dir: None, dump_formats }
    }
}

impl Default for PipelineConfig {
    fn default() -> (r: PipelineConfig)
        ensures
            r.passes@.len() == 1,
            r.passes@[0]@ == "noop"@,
            r.dump_dir is None,
            r.dump_formats@ == seq![DumpFormat::Json],
    {
        PipelineConfig::new()
    }
}

impl Default for PassManager {
    fn default() -> (r: PassManager)
        ensures
            r.stages() == Seq::<PassKind>::empty(),
    {
        PassManager::new()
    }
}

/// The pass that a pipeline names with `n`, if any.
pub open spec fn pass_named(n: Seq<char>) -> Option<PassKind> {
    if n == "noop"@ || n == "no-op"@ {
        Some(PassKind::NoOp)
    } else if n == "validate"@ {
        Some(PassKind::Validate)
    } else if n == "quantize4"@ {
        Some(PassKind::Quantize(4))
    } else if n == "quantize8"@ {
        Some(PassKind::Quantize(8))
    } else if n == "quantize16"@ {
        Some(PassKind::Quantize(16))
    } else if n == "partition"@ {
        Some(PassKind::Partition)
    } else if n == "placement"@ {
        Some(PassKind::Placement)
    } else if n == "routing"@ {
        Some(PassKind::Routing)
    } else if n == "timing"@ {
        Some(PassKind::Timing)
    } else if n == "resource-check"@ || n == "resource_check"@ {
        Some(PassKind::ResourceCheck)
    } else {
        None
    }
}

/// The passes named by the first `k` names.
pub open spec fn passes_named(names: Seq<String>, k: int) -> Seq<PassKind> {
    Seq::new(k as nat, |i: int| pass_named(names[i]@).unwrap())
}

/// Index of the first name that names no pass, or the length.
pub open spec fn first_unknown(names: Seq<String>) -> int {
    if exists|i: int| 0 <= i < names.len() && #[trigger] pass_named(names[i]@) is None {
        choose|i: int| 0 <= i < names.len() && #[trigger] pass_named(names[i]@) is None
            && forall|j: int| 0 <= j < i ==> #[trigger] pass_named(names[j]@) is Some
    } else {
        names.len() as int
    }
}

/// The pass named `n`, if any.
pub fn pass_by_name(n: &str) -> (r: Option<PassKind>)
    ensures
        r == pass_named(n@),
{
    if same_text(n, "noop") || same_text(n, "no-op") {
        Some(PassKind::NoOp)
    } else if same_text(n, "validate") {
        Some(PassKind::Validate)
    } else if same_text(n, "quantize4") {
        Some(PassKind::Quantize(4))
    } else if same_text(n, "quantize8") {
        Some(PassKind::Quantize(8))
    } else if same_text(n, "quantize16") {
        Some(PassKind::Quantize(16))
    } else if same_text(n, "partition") {
        Some(PassKind::Partition)
    } else if same_text(n, "placement") {
        Some(PassKind::Placement)
    } else if same_text(n, "routing") {
        Some(PassKind::Routing)
    } else if same_text(n, "timing") {
        Some(PassKind::Timing)
    } else if same_text(n, "resource-check") || same_text(n, "resource_check") {
        Some(PassKind::ResourceCheck)
    } else {
        None
    }
}

/// Appends the named passes in order; stops at the first unknown name, which
/// is returned in the error, with the passes before it already added.
pub fn build_pipeline(pm: &mut PassManager, names: &Vec<String>) -> (r: Result<(), PassError>)
    ensures
        final(pm).stages() == old(pm).stages() + passes_named(names@, first_unknown(names@)),
        r is Ok <==> first_unknown(names@) == names@.len(),
        r matches Err(e) ==> e matches PassError::UnknownPass(n) && n@ == names@[first_unknown(names@)]@,
{
    let ghost start = pm.stages();
    let mut i: usize = 0;
    while i < names.len()
        invariant
            i <= names@.len(),
            forall|j: int| 0 <= j < i ==> #[trigger] pass_named(names@[j]@) is Some,
            pm.stages() == start + passes_named(names@, i as int),
            start == old(pm).stages(),
        decreases names@.len() - i,
    {
        match pass_by_name(names[i].as_str()) {
            Some(k) => {
                pm.add_pass(k);
                assert(start + passes_named(names@, i + 1) =~= (start + passes_named(names@, i as int)).push(k));
            },
            None => {
                assert(first_unknown(names@) == i) by {
                    let f = first_unknown(names@);
                    assert(pass_named(names@[i as int]@) is None);
                    if f < i {
                        assert(pass_named(names@[f]@) is None);
                    } else if f > i {
                        assert(pass_named(names@[i as int]@) is Some);
                    }
                }
                return Err(PassError::UnknownPass(names[i].clone()));
            },
        }
        i += 1;
    }
    assert(first_unknown(names@) == names@.len()) by {
        if exists|j: int| 0 <= j < names@.len() && #[trigger] pass_named(names@[j]@) is None {
            let j = choose|j: int| 0 <= j < names@.len() && #[trigger] pass_named(names@[j]@) is None;
            assert(pass_named(names@[j]@) is Some);
        }
    }
    Ok(())
}

proof fn lemma_pow2_bounded_by(n: nat, m: nat)
    requires
        n <= m,
    ensures
        pow2(n) <= pow2(m),
        pow2(n) >= 1,
    decreases m,
{
    if n < m {
        lemma_pow2_bounded_by(n, (m - 1) as nat);
    } else if n > 0 {
        lemma_pow2_bounded_by((n - 1) as nat, (n - 1) as nat);
    }
}

} // verus!
