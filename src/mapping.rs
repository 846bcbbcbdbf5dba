//! The mapping passes' computations: partition (greedy balancing under the
//! per-core limits), placement (per-partition memory, fan caps), routing
//! (cross-partition traffic and bandwidth), timing (delays in ticks) and the
//! resource check (the aggregated legality verdict). Each report is stated
//! as a function of the graph and the target's capabilities.

use vstd::prelude::*;
use crate::graph::{
    attr_entries, attr_lookup, attr_table_get, attrs_view, lemma_attr_lookup_view, AttrView, lemma_valid_names_unique, valid_graph, AttrValue, Connection,
    Graph, Population,
};
use crate::hal::Capabilities;
use crate::graph::Fixed;

verus! {

/// How the partition pass chose its partitions.
#[derive(Clone, Copy, Debug, PartialEq, Eq, Structural)]
pub enum Strategy {
    /// No per-core limit is declared: everything goes to one partition.
    Naive,
    /// Partitions are sized from the per-core limits and filled greedily.
    CapAware,
}

impl Strategy {
    /// The strategy tag as it appears in reports.
    pub fn as_str(&self) -> &'static str {
        match self {
            Strategy::Naive => "naive",
            Strategy::CapAware => "cap-aware",
        }
    }
}

/// Kinds of legality violation that the mapping passes report.
#[derive(Clone, Copy, Debug, PartialEq, Eq, Structural)]
pub enum ViolationCode {
    PopExceedsMaxNeuronsPerCore,
    CoreMemoryExceeded,
    MaxFanInExceeded,
    MaxFanOutExceeded,
    MaxNeuronsPerCoreExceeded,
    MaxSynapsesPerCoreExceeded,
}

impl ViolationCode {
    /// The code as it appears in reports.
    pub fn as_str(&self) -> &'static str {
        match self {
            ViolationCode::PopExceedsMaxNeuronsPerCore => "POP_EXCEEDS_MAX_NEURONS_PER_CORE",
            ViolationCode::CoreMemoryExceeded => "CORE_MEMORY_EXCEEDED",
            ViolationCode::MaxFanInExceeded => "MAX_FAN_IN_EXCEEDED",
            ViolationCode::MaxFanOutExceeded => "MAX_FAN_OUT_EXCEEDED",
            ViolationCode::MaxNeuronsPerCoreExceeded => "MAX_NEURONS_PER_CORE_EXCEEDED",
            ViolationCode::MaxSynapsesPerCoreExceeded => "MAX_SYNAPSES_PER_CORE_EXCEEDED",
        }
    }
}

/// The entity a violation is about.
pub enum Entity {
    Population(String),
    Part(usize),
}

pub enum EntityView {
    Population(Seq<char>),
    Part(int),
}

impl View for Entity {
    type V = EntityView;

    open spec fn view(&self) -> EntityView {
        match self {
            Entity::Population(n) => EntityView::Population(n@),
            Entity::Part(i) => EntityView::Part(*i as int),
        }
    }
}

/// One capacity or constraint breach: what was observed against which limit.
pub struct Violation {
    pub code: ViolationCode,
    pub entity: Entity,
    pub observed: u128,
    pub limit: u128,
}

pub struct ViolationView {
    pub code: ViolationCode,
    pub entity: EntityView,
    pub observed: int,
    pub limit: int,
}

impl View for Violation {
    type V = ViolationView;

    open spec fn view(&self) -> ViolationView {
        ViolationView {
            code: self.code,
            entity: self.entity@,
            observed: self.observed as int,
            limit: self.limit as int,
        }
    }
}

pub open spec fn violations_view(vs: Seq<Violation>) -> Seq<ViolationView> {
    vs.map_values(|v: Violation| v@)
}

/// Output of the partition pass.
pub struct PartitionReport {
    pub parts: usize,
    pub strategy: Strategy,
    /// Population name and partition index, in the order of assignment.
    pub assignment: Vec<(String, usize)>,
    pub violations: Vec<Violation>,
}

pub struct PartitionView {
    pub parts: int,
    pub strategy: Strategy,
    pub assignment: Seq<(Seq<char>, int)>,
    pub violations: Seq<ViolationView>,
}

impl View for PartitionReport {
    type V = PartitionView;

    open spec fn view(&self) -> PartitionView {
        PartitionView {
            parts: self.parts as int,
            strategy: self.strategy,
            assignment: self.assignment@.map_values(|e: (String, usize)| (e.0@, e.1 as int)),
            violations: violations_view(self.violations@),
        }
    }
}

/// Whether the placement found every partition and population within limits.
#[derive(Clone, Copy, Debug, PartialEq, Eq, Structural)]
pub enum PlacementStatus {
    /// Reported as "ok".
    Fits,
    /// Reported as "violations".
    Violations,
}

impl PlacementStatus {
    pub fn as_str(&self) -> &'static str {
        match self {
            PlacementStatus::Fits => "ok",
            PlacementStatus::Violations => "violations",
        }
    }
}

/// Output of the placement pass.
pub struct PlacementReport {
    pub status: PlacementStatus,
    pub parts: usize,
    pub neurons_per_part: Vec<u128>,
    pub synapses_per_part: Vec<usize>,
    pub violations: Vec<Violation>,
}

/// Whether the estimated interconnect load fits the declared bandwidth.
#[derive(Clone, Copy, Debug, PartialEq, Eq, Structural)]
pub enum RoutingStatus {
    /// Reported as "ok".
    Clear,
    /// Reported as "congested".
    Congested,
}

impl RoutingStatus {
    pub fn as_str(&self) -> &'static str {
        match self {
            RoutingStatus::Clear => "ok",
            RoutingStatus::Congested => "congested",
        }
    }
}

/// Output of the routing pass.
pub struct RoutingReport {
    pub status: RoutingStatus,
    pub cross_edges: usize,
    /// Estimated interconnect load, in millionths of a bit per second.
    pub estimated_bandwidth: u128,
    /// `matrix[i][j]`: connections from partition `i` to another partition `j`.
    pub matrix: Vec<Vec<usize>>,
}

/// Output of the timing pass.
pub struct TimingReport {
    pub time_resolution_ns: u64,
    pub max_delay_ticks: u64,
    pub min_delay_ticks: u64,
    /// Mean delay in millionths of a tick, rounded down.
    pub avg_delay_ticks: u128,
}

/// Output of the resource check: the legality verdict.
pub struct ResourceReport {
    pub legal: bool,
    pub neurons_per_part: Vec<u128>,
    pub synapses_per_part: Vec<usize>,
    pub fan_in: Vec<(String, usize)>,
    pub fan_out: Vec<(String, usize)>,
    pub violations: Vec<Violation>,
}

// ---------------------------------------------------------------------------
// Totals and limits

/// Units in the first `n` populations.
pub open spec fn units_upto(pops: Seq<Population>, n: int) -> int
    decreases n,
{
    if n <= 0 {
        0
    } else {
        units_upto(pops, n - 1) + pops[n - 1].size as int
    }
}

/// Units over all populations.
pub open spec fn total_units(pops: Seq<Population>) -> int {
    units_upto(pops, pops.len() as int)
}

/// Smallest whole number of `b`-sized groups that holds `a`.
pub open spec fn ceil_div(a: int, b: int) -> int {
    if a % b == 0 {
        a / b
    } else {
        a / b + 1
    }
}

pub open spec fn neuron_limit(caps: Option<&Capabilities>) -> int {
    match caps {
        Some(c) => match c.max_neurons_per_core {
            Some(n) => n as int,
            None => 0,
        },
        None => 0,
    }
}

pub open spec fn synapse_limit(caps: Option<&Capabilities>) -> int {
    match caps {
        Some(c) => match c.max_synapses_per_core {
            Some(n) => n as int,
            None => 0,
        },
        None => 0,
    }
}

/// Number of partitions: enough for the units under the neuron limit and for
/// the connections under the synapse limit, and at least one. A limit that is
/// absent or zero asks for nothing.
pub open spec fn part_count(g: &Graph, caps: Option<&Capabilities>) -> int {
    let n = neuron_limit(caps);
    let s = synapse_limit(caps);
    let by_neurons = if n > 0 { ceil_div(total_units(g.populations@), n) } else { 1 };
    let by_synapses = if s > 0 { ceil_div(g.connections@.len() as int, s) } else { 1 };
    let m = if by_neurons >= by_synapses { by_neurons } else { by_synapses };
    if m >= 1 { m } else { 1 }
}

// ---------------------------------------------------------------------------
// Order of assignment: populations by descending size, ties by list order

/// The first position at or after `p` whose population is smaller than `x`, else the end.
pub open spec fn insert_pos_from(pops: Seq<Population>, order: Seq<int>, x: int, p: int) -> int
    decreases order.len() - p,
{
    if p >= order.len() {
        order.len() as int
    } else if (pops[order[p]].size as int) < x {
        p
    } else {
        insert_pos_from(pops, order, x, p + 1)
    }
}

/// Indices of the first `n` populations, largest first, equal sizes in list order.
pub open spec fn size_order(pops: Seq<Population>, n: int) -> Seq<int>
    decreases n,
{
    if n <= 0 {
        Seq::empty()
    } else {
        let o = size_order(pops, n - 1);
        o.insert(insert_pos_from(pops, o, pops[n - 1].size as int, 0), n - 1)
    }
}

// ---------------------------------------------------------------------------
// Greedy balancing

/// Load of partition `b` after the first `k` items of `sizes` went to `parts`.
pub open spec fn load(sizes: Seq<int>, parts: Seq<int>, k: int, b: int) -> int
    decreases k,
{
    if k <= 0 {
        0
    } else {
        load(sizes, parts, k - 1, b) + if parts[k - 1] == b { sizes[k - 1] } else { 0 }
    }
}

/// Lowest index of a least value among the first `n` entries.
pub open spec fn least_loaded(loads: Seq<int>, n: int) -> int
    decreases n,
{
    if n <= 1 {
        0
    } else {
        let b = least_loaded(loads, n - 1);
        if loads[n - 1] < loads[b] { n - 1 } else { b }
    }
}

pub open spec fn loads(sizes: Seq<int>, parts: Seq<int>, k: int, count: int) -> Seq<int> {
    Seq::new(count as nat, |b: int| load(sizes, parts, k, b))
}

/// Partition of each of the first `k` items: each goes to the least loaded
/// of `count` partitions, lowest index first on ties.
pub open spec fn greedy_parts(sizes: Seq<int>, count: int, k: int) -> Seq<int>
    decreases k,
{
    if k <= 0 {
        Seq::empty()
    } else {
        let prev = greedy_parts(sizes, count, k - 1);
        prev.push(least_loaded(loads(sizes, prev, k - 1, count), count))
    }
}

/// Sizes of the populations in the order of assignment.
pub open spec fn ordered_sizes(pops: Seq<Population>) -> Seq<int> {
    let o = size_order(pops, pops.len() as int);
    Seq::new(o.len(), |k: int| pops[o[k]].size as int)
}

/// Violations for populations larger than the neuron limit, among the first `k` in order.
pub open spec fn oversize_violations(pops: Seq<Population>, order: Seq<int>, limit: int, k: int) -> Seq<ViolationView>
    decreases k,
{
    if k <= 0 {
        Seq::empty()
    } else {
        let prev = oversize_violations(pops, order, limit, k - 1);
        let p = pops[order[k - 1]];
        if limit > 0 && p.size > limit {
            prev.push(ViolationView {
                code: ViolationCode::PopExceedsMaxNeuronsPerCore,
                entity: EntityView::Population(p.name@),
                observed: p.size as int,
                limit,
            })
        } else {
            prev
        }
    }
}

/// The partition report that the pass produces for a graph and a target.
pub open spec fn partition_view(g: &Graph, caps: Option<&Capabilities>) -> PartitionView {
    let pops = g.populations@;
    if neuron_limit(caps) == 0 && synapse_limit(caps) == 0 {
        PartitionView {
            parts: 1,
            strategy: Strategy::Naive,
            assignment: Seq::new(pops.len(), |k: int| (pops[k].name@, 0int)),
            violations: Seq::empty(),
        }
    } else {
        let count = part_count(g, caps);
        let order = size_order(pops, pops.len() as int);
        let parts = greedy_parts(ordered_sizes(pops), count, pops.len() as int);
        PartitionView {
            parts: count,
            strategy: Strategy::CapAware,
            assignment: Seq::new(pops.len(), |k: int| (pops[order[k]].name@, parts[k])),
            violations: oversize_violations(pops, order, neuron_limit(caps), pops.len() as int),
        }
    }
}

// ---------------------------------------------------------------------------
// Partition pass

pub open spec fn as_ints(s: Seq<usize>) -> Seq<int> {
    s.map_values(|x: usize| x as int)
}

proof fn lemma_units_bound(pops: Seq<Population>, n: int)
    requires
        0 <= n <= pops.len(),
    ensures
        0 <= units_upto(pops, n) <= n * 0xffff_ffff,
    decreases n,
{
    if n > 0 {
        lemma_units_bound(pops, n - 1);
        assert((n - 1) * 0xffff_ffff + 0xffff_ffff == n * 0xffff_ffff) by (nonlinear_arith);
    }
}

proof fn lemma_load_bound(sizes: Seq<int>, parts: Seq<int>, k: int, b: int)
    requires
        0 <= k <= sizes.len(),
        forall|j: int| 0 <= j < sizes.len() ==> 0 <= #[trigger] sizes[j] <= 0xffff_ffff,
    ensures
        0 <= load(sizes, parts, k, b) <= k * 0xffff_ffff,
    decreases k,
{
    if k > 0 {
        lemma_load_bound(sizes, parts, k - 1, b);
        assert((k - 1) * 0xffff_ffff + 0xffff_ffff == k * 0xffff_ffff) by (nonlinear_arith);
    }
}

proof fn lemma_load_prefix(sizes: Seq<int>, p1: Seq<int>, p2: Seq<int>, k: int, b: int)
    requires
        k <= p1.len(),
        k <= p2.len(),
        forall|j: int| 0 <= j < k ==> p1[j] == p2[j],
    ensures
        load(sizes, p1, k, b) == load(sizes, p2, k, b),
    decreases k,
{
    if k > 0 {
        lemma_load_prefix(sizes, p1, p2, k - 1, b);
    }
}

proof fn lemma_insert_pos_bounds(pops: Seq<Population>, order: Seq<int>, x: int, p: int)
    requires
        0 <= p <= order.len(),
    ensures
        p <= insert_pos_from(pops, order, x, p) <= order.len(),
    decreases order.len() - p,
{
    if p < order.len() {
        lemma_insert_pos_bounds(pops, order, x, p + 1);
    }
}

/// Total units of all populations.
fn sum_units(pops: &Vec<Population>) -> (r: u128)
    ensures
        r == total_units(pops@),
{
    let mut t: u128 = 0;
    let mut i: usize = 0;
    while i < pops.len()
        invariant
            i <= pops@.len(),
            t == units_upto(pops@, i as int),
        decreases pops@.len() - i,
    {
        proof {
            lemma_units_bound(pops@, i + 1);
        }
        t = t + pops[i].size as u128;
        i += 1;
    }
    t
}

/// Quotient of `a` by `b`, rounded up.
fn div_ceil_u128(a: u128, b: u128) -> (r: u128)
    requires
        b > 0,
    ensures
        r == ceil_div(a as int, b as int),
{
    let q = a / b;
    if a % b == 0 {
        q
    } else {
        proof {
            assert(q * b <= a) by (nonlinear_arith)
                requires q == a / b, b > 0;
            assert(q < a || a == 0 || b == 1 || q + 1 <= u128::MAX) by (nonlinear_arith)
                requires q == a / b, b > 0, a % b != 0;
        }
        q + 1
    }
}

/// Indices of the populations, largest first, equal sizes in list order.
fn order_by_size(pops: &Vec<Population>) -> (r: Vec<usize>)
    ensures
        as_ints(r@) == size_order(pops@, pops@.len() as int),
        r@.len() == pops@.len(),
        forall|j: int| 0 <= j < r@.len() ==> (#[trigger] r@[j] as int) < pops@.len(),
{
    let mut res: Vec<usize> = Vec::new();
    let mut i: usize = 0;
    while i < pops.len()
        invariant
            i <= pops@.len(),
            as_ints(res@) == size_order(pops@, i as int),
            res@.len() == i,
            forall|j: int| 0 <= j < res@.len() ==> (#[trigger] res@[j] as int) < i,
        decreases pops@.len() - i,
    {
        let x = pops[i].size;
        let ghost o = size_order(pops@, i as int);
        let mut p: usize = 0;
        while p < res.len() && pops[res[p]].size >= x
            invariant
                p <= res@.len(),
                res@.len() == i,
                i < pops@.len(),
                o == as_ints(res@),
                x == pops@[i as int].size,
                insert_pos_from(pops@, o, x as int, 0) == insert_pos_from(pops@, o, x as int, p as int),
                forall|j: int| 0 <= j < res@.len() ==> (#[trigger] res@[j] as int) < i,
            decreases res@.len() - p,
        {
            p += 1;
        }
        proof {
            assert(o.len() == res@.len());
            if p < res@.len() {
                assert(o[p as int] == res@[p as int] as int);
            }
        }
        let ghost before = res@;
        res.insert(p, i);
        proof {
            o.insert_ensures(p as int, i as int);
            before.insert_ensures(p as int, i);
            assert(as_ints(res@) =~= o.insert(p as int, i as int));
            assert forall|j: int| 0 <= j < res@.len() implies (#[trigger] res@[j] as int) < i + 1 by {
                if j < p {
                    assert(res@[j] == before[j]);
                } else if j > p {
                    assert(res@[j] == before[j - 1]);
                }
            }
        }
        i += 1;
    }
    res
}

fn limit_of(v: Option<u32>) -> (r: u32)
    ensures
        r == match v {
            Some(n) => n,
            None => 0,
        },
{
    match v {
        Some(n) => n,
        None => 0,
    }
}

/// Number of partitions that the partition pass uses.
pub fn partition_count(g: &Graph, caps: Option<&Capabilities>) -> (r: u128)
    ensures
        r == part_count(g, caps),
{
    let n_lim: u32 = match caps {
        Some(c) => limit_of(c.max_neurons_per_core),
        None => 0,
    };
    let s_lim: u32 = match caps {
        Some(c) => limit_of(c.max_synapses_per_core),
        None => 0,
    };
    let pops = &g.populations;
    let total = sum_units(pops);
    let by_neurons: u128 = if n_lim > 0 { div_ceil_u128(total, n_lim as u128) } else { 1 };
    let by_synapses: u128 = if s_lim > 0 {
        div_ceil_u128(g.connections.len() as u128, s_lim as u128)
    } else {
        1
    };
    let m: u128 = if by_neurons >= by_synapses { by_neurons } else { by_synapses };
    let count128: u128 = if m >= 1 { m } else { 1 };
    count128
}

/// Assigns every population to a partition, as `partition_view` states.
pub fn partition(g: &Graph, caps: Option<&Capabilities>) -> (r: PartitionReport)
    requires
        part_count(g, caps) <= usize::MAX,
    ensures
        r@ == partition_view(g, caps),
{
    let n_lim: u32 = match caps {
        Some(c) => limit_of(c.max_neurons_per_core),
        None => 0,
    };
    let s_lim: u32 = match caps {
        Some(c) => limit_of(c.max_synapses_per_core),
        None => 0,
    };
    let pops = &g.populations;
    let mut assignment: Vec<(String, usize)> = Vec::new();
    let mut violations: Vec<Violation> = Vec::new();
    if n_lim == 0 && s_lim == 0 {
        let mut i: usize = 0;
        while i < pops.len()
            invariant
                i <= pops@.len(),
                pops@ == g.populations@,
                assignment@.len() == i,
                forall|j: int| 0 <= j < i ==> (#[trigger] assignment@[j]).0@ == pops@[j].name@ && assignment@[j].1 == 0,
            decreases pops@.len() - i,
        {
            assignment.push((pops[i].name.clone(), 0));
            i += 1;
        }
        let r = PartitionReport { parts: 1, strategy: Strategy::Naive, assignment, violations };
        assert(r@.assignment =~= partition_view(g, caps).assignment);
        assert(r@.violations =~= partition_view(g, caps).violations);
        return r;
    }
    let count = partition_count(g, caps) as usize;
    assert(count as int == part_count(g, caps));

    let order = order_by_size(pops);
    let ghost ord = as_ints(order@);
    let ghost sz = ordered_sizes(pops@);
    let mut buckets: Vec<u128> = Vec::new();
    while buckets.len() < count
        invariant
            buckets@.len() <= count,
            forall|b: int| 0 <= b < buckets@.len() ==> #[trigger] buckets@[b] == 0,
        decreases count - buckets@.len(),
    {
        buckets.push(0);
    }
    let mut chosen: Vec<usize> = Vec::new();
    let mut k: usize = 0;
    while k < pops.len()
        invariant
            k <= pops@.len(),
            pops@ == g.populations@,
            count as int == part_count(g, caps),
            count >= 1,
            n_lim as int == neuron_limit(caps),
            ord == as_ints(order@),
            ord == size_order(pops@, pops@.len() as int),
            order@.len() == pops@.len(),
            forall|j: int| 0 <= j < order@.len() ==> (#[trigger] order@[j] as int) < pops@.len(),
            sz == ordered_sizes(pops@),
            buckets@.len() == count,
            forall|b: int| 0 <= b < count ==> #[trigger] buckets@[b] == load(sz, as_ints(chosen@), k as int, b),
            as_ints(chosen@) == greedy_parts(sz, count as int, k as int),
            chosen@.len() == k,
            assignment@.len() == k,
            forall|j: int| 0 <= j < k ==> (#[trigger] assignment@[j]).0@ == pops@[ord[j]].name@
                && assignment@[j].1 == chosen@[j],
            violations_view(violations@) == oversize_violations(pops@, ord, n_lim as int, k as int),
        decreases pops@.len() - k,
    {
        let pi = order[k];
        let size = pops[pi].size;
        let ghost lds = loads(sz, as_ints(chosen@), k as int, count as int);
        let mut idx: usize = 0;
        let mut b: usize = 1;
        while b < count
            invariant
                1 <= b <= count,
                idx < b,
                buckets@.len() == count,
                forall|x: int| 0 <= x < count ==> #[trigger] buckets@[x] == lds[x],
                lds.len() == count,
                idx as int == least_loaded(lds, b as int),
            decreases count - b,
        {
            if buckets[b] < buckets[idx] {
                idx = b;
            }
            b += 1;
        }
        if n_lim > 0 && size > n_lim {
            let v = Violation {
                code: ViolationCode::PopExceedsMaxNeuronsPerCore,
                entity: Entity::Population(pops[pi].name.clone()),
                observed: size as u128,
                limit: n_lim as u128,
            };
            let ghost before = violations@;
            violations.push(v);
            assert(violations_view(violations@) =~= violations_view(before).push(v@));
        }
        let ghost old_chosen = as_ints(chosen@);
        proof {
            assert forall|j: int| 0 <= j < sz.len() implies 0 <= #[trigger] sz[j] <= 0xffff_ffff by {
                assert(sz[j] == pops@[ord[j]].size as int);
            }
            lemma_load_bound(sz, old_chosen.push(idx as int), k + 1, idx as int);
            lemma_load_prefix(sz, old_chosen.push(idx as int), old_chosen, k as int, idx as int);
            assert(sz[k as int] == size as int);
            assert(k + 1 <= 0xffff_ffff_ffff_ffff);
            assert((k + 1) * 0xffff_ffff <= 0xffff_ffff_ffff_ffff * 0xffff_ffff) by (nonlinear_arith)
                requires k + 1 <= 0xffff_ffff_ffff_ffff;
        }
        let nb = buckets[idx] + size as u128;
        buckets.set(idx, nb);
        chosen.push(idx);
        assignment.push((pops[pi].name.clone(), idx));
        proof {
            assert(as_ints(chosen@) =~= old_chosen.push(idx as int));
            assert forall|x: int| 0 <= x < count implies #[trigger] buckets@[x] == load(sz, as_ints(chosen@), k + 1, x) by {
                lemma_load_prefix(sz, old_chosen.push(idx as int), old_chosen, k as int, x);
            }
        }
        k += 1;
    }
    let r = PartitionReport { parts: count, strategy: Strategy::CapAware, assignment, violations };
    assert(r@.assignment =~= partition_view(g, caps).assignment);
    r
}

/// Whether the stored partition report, if any, is well formed.
pub fn context_is_wf(g: &Graph) -> (r: bool)
    ensures
        r == context_wf(g),
{
    match stored_report(g) {
        None => true,
        Some(rep) => {
            if rep.parts == 0 {
                return false;
            }
            let mut k: usize = 0;
            while k < rep.assignment.len()
                invariant
                    k <= rep.assignment@.len(),
                    stored_partition(g) == Some(rep@),
                    rep.parts >= 1,
                    forall|j: int| 0 <= j < k ==> #[trigger] rep@.assignment[j].1 < rep@.parts,
                decreases rep.assignment@.len() - k,
            {
                assert(rep@.assignment[k as int].1 == rep.assignment@[k as int].1 as int);
                if rep.assignment[k].1 >= rep.parts {
                    return false;
                }
                k += 1;
            }
            true
        },
    }
}

// ---------------------------------------------------------------------------
// Properties of the partition

/// Some entry of the assignment is for the population named `name`.
pub open spec fn names_assigned(v: PartitionView, name: Seq<char>) -> bool {
    exists|k: int| 0 <= k < v.assignment.len() && v.assignment[k].0 == name
}

/// Some entry of `s` is `i`.
pub open spec fn holds_index(s: Seq<int>, i: int) -> bool {
    exists|k: int| 0 <= k < s.len() && s[k] == i
}

proof fn lemma_size_order_perm(pops: Seq<Population>, n: int)
    requires
        0 <= n <= pops.len(),
    ensures
        size_order(pops, n).len() == n,
        forall|k: int| 0 <= k < n ==> 0 <= #[trigger] size_order(pops, n)[k] < n,
        forall|k1: int, k2: int|
            0 <= k1 < n && 0 <= k2 < n && k1 != k2
                ==> #[trigger] size_order(pops, n)[k1] != #[trigger] size_order(pops, n)[k2],
        forall|i: int| 0 <= i < n ==> #[trigger] holds_index(size_order(pops, n), i),
    decreases n,
{
    if n > 0 {
        lemma_size_order_perm(pops, n - 1);
        let o = size_order(pops, n - 1);
        let p = insert_pos_from(pops, o, pops[n - 1].size as int, 0);
        lemma_insert_pos_bounds(pops, o, pops[n - 1].size as int, 0);
        o.insert_ensures(p, n - 1);
        let o2 = size_order(pops, n);
        assert(o2 == o.insert(p, n - 1));
        // position of each old element in the new order
        assert forall|k: int| 0 <= k < n implies 0 <= #[trigger] o2[k] < n by {
            if k < p {
                assert(o2[k] == o[k]);
            } else if k > p {
                assert(o2[k] == o[k - 1]);
            }
        }
        assert forall|k1: int, k2: int|
            0 <= k1 < n && 0 <= k2 < n && k1 != k2 implies #[trigger] o2[k1] != #[trigger] o2[k2] by {
            let a = if k1 < p { k1 } else if k1 > p { k1 - 1 } else { -1 };
            let b = if k2 < p { k2 } else if k2 > p { k2 - 1 } else { -1 };
            if a >= 0 {
                assert(o2[k1] == o[a]);
            }
            if b >= 0 {
                assert(o2[k2] == o[b]);
            }
        }
        assert forall|i: int| 0 <= i < n implies #[trigger] holds_index(o2, i) by {
            if i == n - 1 {
                assert(o2[p] == i);
            } else {
                assert(holds_index(o, i));
                let k0 = choose|k: int| 0 <= k < o.len() && #[trigger] o[k] == i;
                if k0 < p {
                    assert(o2[k0] == i);
                } else {
                    assert(o2[k0 + 1] == i);
                }
            }
        }
    }
}

proof fn lemma_least_loaded_range(loads: Seq<int>, n: int)
    requires
        n >= 1,
    ensures
        0 <= least_loaded(loads, n) < n,
    decreases n,
{
    if n > 1 {
        lemma_least_loaded_range(loads, n - 1);
    }
}

proof fn lemma_greedy_range(sizes: Seq<int>, count: int, k: int)
    requires
        count >= 1,
        k >= 0,
    ensures
        greedy_parts(sizes, count, k).len() == k,
        forall|j: int| 0 <= j < k ==> 0 <= #[trigger] greedy_parts(sizes, count, k)[j] < count,
    decreases k,
{
    if k > 0 {
        lemma_greedy_range(sizes, count, k - 1);
        let prev = greedy_parts(sizes, count, k - 1);
        lemma_least_loaded_range(loads(sizes, prev, k - 1, count), count);
        assert forall|j: int| 0 <= j < k implies 0 <= #[trigger] greedy_parts(sizes, count, k)[j] < count by {
            if j < k - 1 {
                assert(greedy_parts(sizes, count, k)[j] == prev[j]);
            }
        }
    }
}

/// The partition report has at least one partition and assigns only to them.
pub proof fn lemma_partition_wf(g: &Graph, caps: Option<&Capabilities>)
    ensures
        partition_view(g, caps).parts >= 1,
        forall|k: int| 0 <= k < partition_view(g, caps).assignment.len() ==>
            0 <= #[trigger] partition_view(g, caps).assignment[k].1 < partition_view(g, caps).parts,
{
    let pops = g.populations@;
    let n = pops.len() as int;
    if !(neuron_limit(caps) == 0 && synapse_limit(caps) == 0) {
        lemma_greedy_range(ordered_sizes(pops), part_count(g, caps), n);
    }
}

/// With a neuron limit of `N` per core, a graph of `T` units gets at least
/// `ceil(T / N)` partitions.
pub proof fn lemma_parts_cover_units(g: &Graph, caps: Option<&Capabilities>)
    requires
        neuron_limit(caps) > 0,
    ensures
        partition_view(g, caps).parts >= ceil_div(total_units(g.populations@), neuron_limit(caps)),
{
}

/// The assignment is total: in a valid graph every population name appears
/// exactly once, and every partition index is below the partition count.
pub proof fn lemma_assignment_total(g: &Graph, caps: Option<&Capabilities>)
    requires
        valid_graph(g),
    ensures
        partition_view(g, caps).assignment.len() == g.populations@.len(),
        forall|i: int| 0 <= i < g.populations@.len() ==>
            #[trigger] names_assigned(partition_view(g, caps), g.populations@[i].name@),
        forall|k1: int, k2: int|
            0 <= k1 < g.populations@.len() && 0 <= k2 < g.populations@.len()
                && #[trigger] partition_view(g, caps).assignment[k1].0
                    == #[trigger] partition_view(g, caps).assignment[k2].0 ==> k1 == k2,
        forall|k: int| 0 <= k < g.populations@.len() ==>
            0 <= #[trigger] partition_view(g, caps).assignment[k].1 < partition_view(g, caps).parts,
{
    let pops = g.populations@;
    let n = pops.len() as int;
    let v = partition_view(g, caps);
    lemma_valid_names_unique(g);
    if neuron_limit(caps) == 0 && synapse_limit(caps) == 0 {
        assert forall|i: int| 0 <= i < n implies #[trigger] names_assigned(v, pops[i].name@) by {
            assert(v.assignment[i].0 == pops[i].name@);
        }
    } else {
        let order = size_order(pops, n);
        lemma_size_order_perm(pops, n);
        let count = part_count(g, caps);
        lemma_greedy_range(ordered_sizes(pops), count, n);
        assert forall|i: int| 0 <= i < n implies #[trigger] names_assigned(v, pops[i].name@) by {
            assert(holds_index(order, i));
            let k = choose|k: int| 0 <= k < order.len() && #[trigger] order[k] == i;
            assert(v.assignment[k].0 == pops[order[k]].name@);
        }
        assert forall|k1: int, k2: int|
            0 <= k1 < n && 0 <= k2 < n && #[trigger] v.assignment[k1].0 == #[trigger] v.assignment[k2].0
                implies k1 == k2 by {
            assert(v.assignment[k1].0 == pops[order[k1]].name@);
            assert(v.assignment[k2].0 == pops[order[k2]].name@);
            if k1 != k2 {
                assert(order[k1] != order[k2]);
                assert(pops[order[k1]].name@ != pops[order[k2]].name@);
            }
        }
    }
}

// ---------------------------------------------------------------------------
// Partition context shared by placement, routing and the resource check

/// What the passes after partitioning read: the populations, the connections
/// and the stored partition report.
pub struct MapInput {
    pub populations: Seq<Population>,
    pub connections: Seq<Connection>,
    pub partition: Option<PartitionView>,
}

pub open spec fn input_of(g: &Graph) -> MapInput {
    MapInput { populations: g.populations@, connections: g.connections@, partition: stored_partition(g) }
}

/// The partition report stored in the graph's attributes, if any.
pub open spec fn stored_partition(g: &Graph) -> Option<PartitionView> {
    match attr_lookup(attrs_view(g), "partition"@) {
        Some(AttrView::Partition(v)) => Some(v),
        _ => None,
    }
}

/// Partition count of the stored report, or one without a report.
pub open spec fn context_parts(g: MapInput) -> int {
    match g.partition {
        Some(v) => v.parts,
        None => 1,
    }
}

/// Partition of the last of the first `n` entries named `name`, or 0.
pub open spec fn part_in(a: Seq<(Seq<char>, int)>, name: Seq<char>, n: int) -> int
    decreases n,
{
    if n <= 0 {
        0
    } else if a[n - 1].0 == name {
        a[n - 1].1
    } else {
        part_in(a, name, n - 1)
    }
}

/// Partition of the population named `name`: its entry in the stored report,
/// or partition 0.
pub open spec fn part_of(g: MapInput, name: Seq<char>) -> int {
    match g.partition {
        Some(v) => part_in(v.assignment, name, v.assignment.len() as int),
        None => 0,
    }
}

/// A stored report, if any, has at least one partition and assigns only to them.
pub open spec fn context_wf(g: &Graph) -> bool {
    match stored_partition(g) {
        Some(v) => v.parts >= 1 && forall|k: int|
            0 <= k < v.assignment.len() ==> 0 <= #[trigger] v.assignment[k].1 < v.parts,
        None => true,
    }
}

/// Number of true entries among the first `n`.
pub open spec fn count_true(s: Seq<bool>, n: int) -> int
    decreases n,
{
    if n <= 0 {
        0
    } else {
        count_true(s, n - 1) + if s[n - 1] { 1int } else { 0int }
    }
}

pub open spec fn pre_part(g: MapInput, c: int) -> int {
    part_of(g, g.connections[c].pre@)
}

pub open spec fn post_part(g: MapInput, c: int) -> int {
    part_of(g, g.connections[c].post@)
}

/// Units placed in partition `b`.
pub open spec fn units_in(g: MapInput, b: int) -> int {
    let pops = g.populations;
    load(
        Seq::new(pops.len(), |i: int| pops[i].size as int),
        Seq::new(pops.len(), |i: int| part_of(g, pops[i].name@)),
        pops.len() as int,
        b,
    )
}

/// Connections with both ends in partition `b`.
pub open spec fn synapses_in(g: MapInput, b: int) -> int {
    let m = g.connections.len() as int;
    count_true(Seq::new(m as nat, |c: int| pre_part(g, c) == b && post_part(g, c) == b), m)
}

/// Connections whose ends lie in different partitions.
pub open spec fn cross_edges(g: MapInput) -> int {
    let m = g.connections.len() as int;
    count_true(Seq::new(m as nat, |c: int| pre_part(g, c) != post_part(g, c)), m)
}

/// Connections from partition `i` to a different partition `j`.
pub open spec fn traffic(g: MapInput, i: int, j: int) -> int {
    let m = g.connections.len() as int;
    count_true(Seq::new(m as nat, |c: int| pre_part(g, c) == i && post_part(g, c) == j && i != j), m)
}

/// Connections into the population named `name`.
pub open spec fn fan_in(g: MapInput, name: Seq<char>) -> int {
    let m = g.connections.len() as int;
    count_true(Seq::new(m as nat, |c: int| g.connections[c].post@ == name), m)
}

/// Connections out of the population named `name`.
pub open spec fn fan_out(g: MapInput, name: Seq<char>) -> int {
    let m = g.connections.len() as int;
    count_true(Seq::new(m as nat, |c: int| g.connections[c].pre@ == name), m)
}

pub(crate) proof fn lemma_fan_bounds(g: MapInput, name: Seq<char>)
    ensures
        0 <= fan_in(g, name) <= g.connections.len(),
        0 <= fan_out(g, name) <= g.connections.len(),
{
    let m = g.connections.len() as int;
    assert forall|s: Seq<bool>| 0 <= #[trigger] count_true(s, m) <= m by {
        lemma_count_true_bound(s, m);
    }
}

/// The stored partition report of a graph.
pub(crate) fn stored_report(g: &Graph) -> (r: Option<&PartitionReport>)
    ensures
        match r {
            Some(rep) => stored_partition(g) == Some(rep@),
            None => stored_partition(g) is None,
        },
{
    proof {
        lemma_attr_lookup_view(g, "partition"@);
    }
    match attr_table_get(&g.attributes, "partition") {
        Some(v) => match v {
            AttrValue::Partition(rep) => Some(rep),
            _ => None,
        },
        None => None,
    }
}

fn context_count(g: &Graph, rep: Option<&PartitionReport>) -> (r: usize)
    requires
        match rep {
            Some(x) => stored_partition(g) == Some(x@),
            None => stored_partition(g) is None,
        },
    ensures
        r == context_parts(input_of(g)),
{
    match rep {
        Some(x) => x.parts,
        None => 1,
    }
}

/// Partition of the population named `name` under the stored report.
fn part_lookup(g: &Graph, rep: Option<&PartitionReport>, name: &String) -> (r: usize)
    requires
        match rep {
            Some(x) => stored_partition(g) == Some(x@),
            None => stored_partition(g) is None,
        },
        context_wf(g),
    ensures
        r == part_of(input_of(g), name@),
        r < context_parts(input_of(g)),
{
    match rep {
        None => 0,
        Some(x) => {
            let a = &x.assignment;
            let ghost av = x@.assignment;
            let mut i: usize = a.len();
            while i > 0
                invariant
                    i <= a@.len(),
                    av.len() == a@.len(),
                    av == x@.assignment,
                    a@ == x.assignment@,
                    stored_partition(g) == Some(x@),
                    context_wf(g),
                    part_in(av, name@, av.len() as int) == part_in(av, name@, i as int),
                decreases i,
            {
                assert(av[i - 1] == (a@[i - 1].0@, a@[i - 1].1 as int));
                if a[i - 1].0 == *name {
                    assert(0 <= av[i - 1].1 < x@.parts);
                    return a[i - 1].1;
                }
                i -= 1;
            }
            0
        },
    }
}

/// Partition of each population, in list order.
fn population_parts(g: &Graph, rep: Option<&PartitionReport>) -> (r: Vec<usize>)
    requires
        match rep {
            Some(x) => stored_partition(g) == Some(x@),
            None => stored_partition(g) is None,
        },
        context_wf(g),
    ensures
        r@.len() == g.populations@.len(),
        forall|i: int| 0 <= i < r@.len() ==> #[trigger] r@[i] as int == part_of(input_of(g), g.populations@[i].name@)
            && r@[i] < context_parts(input_of(g)),
{
    let mut r: Vec<usize> = Vec::new();
    let mut i: usize = 0;
    while i < g.populations.len()
        invariant
            i <= g.populations@.len(),
            r@.len() == i,
            match rep {
                Some(x) => stored_partition(g) == Some(x@),
                None => stored_partition(g) is None,
            },
            context_wf(g),
            forall|j: int| 0 <= j < i ==> #[trigger] r@[j] as int == part_of(input_of(g), g.populations@[j].name@)
                && r@[j] < context_parts(input_of(g)),
        decreases g.populations@.len() - i,
    {
        let p = part_lookup(g, rep, &g.populations[i].name);
        r.push(p);
        i += 1;
    }
    r
}

/// Partitions of the two ends of each connection, in list order.
fn connection_parts(g: &Graph, rep: Option<&PartitionReport>) -> (r: (Vec<usize>, Vec<usize>))
    requires
        match rep {
            Some(x) => stored_partition(g) == Some(x@),
            None => stored_partition(g) is None,
        },
        context_wf(g),
    ensures
        r.0@.len() == g.connections@.len(),
        r.1@.len() == g.connections@.len(),
        forall|c: int| 0 <= c < r.0@.len() ==> #[trigger] r.0@[c] as int == pre_part(input_of(g), c)
            && r.0@[c] < context_parts(input_of(g)),
        forall|c: int| 0 <= c < r.1@.len() ==> #[trigger] r.1@[c] as int == post_part(input_of(g), c)
            && r.1@[c] < context_parts(input_of(g)),
{
    let mut pre: Vec<usize> = Vec::new();
    let mut post: Vec<usize> = Vec::new();
    let mut c: usize = 0;
    while c < g.connections.len()
        invariant
            c <= g.connections@.len(),
            pre@.len() == c,
            post@.len() == c,
            match rep {
                Some(x) => stored_partition(g) == Some(x@),
                None => stored_partition(g) is None,
            },
            context_wf(g),
            forall|j: int| 0 <= j < c ==> #[trigger] pre@[j] as int == pre_part(input_of(g), j) && pre@[j] < context_parts(input_of(g)),
            forall|j: int| 0 <= j < c ==> #[trigger] post@[j] as int == post_part(input_of(g), j) && post@[j] < context_parts(input_of(g)),
        decreases g.connections@.len() - c,
    {
        let a = part_lookup(g, rep, &g.connections[c].pre);
        let b = part_lookup(g, rep, &g.connections[c].post);
        pre.push(a);
        post.push(b);
        c += 1;
    }
    (pre, post)
}

proof fn lemma_count_true_bound(s: Seq<bool>, n: int)
    requires
        n >= 0,
    ensures
        0 <= count_true(s, n) <= n,
    decreases n,
{
    if n > 0 {
        lemma_count_true_bound(s, n - 1);
    }
}

/// Units placed in each partition.
fn units_per_part(g: &Graph, pp: &Vec<usize>, count: usize) -> (r: Vec<u128>)
    requires
        pp@.len() == g.populations@.len(),
        forall|i: int| 0 <= i < pp@.len() ==> #[trigger] pp@[i] as int == part_of(input_of(g), g.populations@[i].name@)
            && pp@[i] < count,
    ensures
        r@.len() == count,
        forall|b: int| 0 <= b < count ==> #[trigger] r@[b] == units_in(input_of(g), b),
{
    let pops = &g.populations;
    let ghost n = pops@.len() as int;
    let ghost sizes = Seq::new(n as nat, |i: int| pops@[i].size as int);
    let ghost parts = Seq::new(n as nat, |i: int| part_of(input_of(g), pops@[i].name@));
    let mut r: Vec<u128> = Vec::new();
    while r.len() < count
        invariant
            r@.len() <= count,
            forall|b: int| 0 <= b < r@.len() ==> #[trigger] r@[b] == 0,
        decreases count - r@.len(),
    {
        r.push(0);
    }
    let mut i: usize = 0;
    while i < pops.len()
        invariant
            i <= pops@.len(),
            pops@ == g.populations@,
            n == pops@.len(),
            sizes == Seq::new(n as nat, |i: int| pops@[i].size as int),
            parts == Seq::new(n as nat, |i: int| part_of(input_of(g), pops@[i].name@)),
            pp@.len() == n,
            forall|j: int| 0 <= j < pp@.len() ==> #[trigger] pp@[j] as int == parts[j] && pp@[j] < count,
            r@.len() == count,
            forall|b: int| 0 <= b < count ==> #[trigger] r@[b] == load(sizes, parts, i as int, b),
        decreases pops@.len() - i,
    {
        let b = pp[i];
        proof {
            assert forall|j: int| 0 <= j < sizes.len() implies 0 <= #[trigger] sizes[j] <= 0xffff_ffff by {}
            lemma_load_bound(sizes, parts, i + 1, b as int);
            assert((i + 1) * 0xffff_ffff <= 0xffff_ffff_ffff_ffff * 0xffff_ffff) by (nonlinear_arith)
                requires i + 1 <= 0xffff_ffff_ffff_ffff;
        }
        let v = r[b] + pops[i].size as u128;
        r.set(b, v);
        i += 1;
    }
    r
}

/// Connections with both ends in each partition.
fn synapses_per_part(g: &Graph, pre: &Vec<usize>, post: &Vec<usize>, count: usize) -> (r: Vec<usize>)
    requires
        pre@.len() == g.connections@.len(),
        post@.len() == g.connections@.len(),
        forall|c: int| 0 <= c < pre@.len() ==> #[trigger] pre@[c] as int == pre_part(input_of(g), c) && pre@[c] < count,
        forall|c: int| 0 <= c < post@.len() ==> #[trigger] post@[c] as int == post_part(input_of(g), c) && post@[c] < count,
    ensures
        r@.len() == count,
        forall|b: int| 0 <= b < count ==> #[trigger] r@[b] == synapses_in(input_of(g), b),
{
    let ghost m = g.connections@.len() as int;
    let mut r: Vec<usize> = Vec::new();
    while r.len() < count
        invariant
            r@.len() <= count,
            forall|b: int| 0 <= b < r@.len() ==> #[trigger] r@[b] == 0,
        decreases count - r@.len(),
    {
        r.push(0);
    }
    let mut c: usize = 0;
    while c < pre.len()
        invariant
            c <= pre@.len(),
            m == pre@.len(),
            post@.len() == m,
            forall|j: int| 0 <= j < pre@.len() ==> #[trigger] pre@[j] as int == pre_part(input_of(g), j) && pre@[j] < count,
            forall|j: int| 0 <= j < post@.len() ==> #[trigger] post@[j] as int == post_part(input_of(g), j) && post@[j] < count,
            r@.len() == count,
            forall|b: int| 0 <= b < count ==> #[trigger] r@[b] == count_true(
                Seq::new(m as nat, |x: int| pre_part(input_of(g), x) == b && post_part(input_of(g), x) == b), c as int),
        decreases pre@.len() - c,
    {
        let a = pre[c];
        if a == post[c] {
            proof {
                lemma_count_true_bound(Seq::new(m as nat, |x: int| pre_part(input_of(g), x) == a && post_part(input_of(g), x) == a), c as int);
            }
            let v = r[a] + 1;
            r.set(a, v);
        }
        c += 1;
    }
    r
}

/// Connections into the population named `name`.
pub(crate) fn count_fan_in(g: &Graph, name: &String) -> (r: usize)
    ensures
        r == fan_in(input_of(g), name@),
{
    let ghost m = g.connections@.len() as int;
    let ghost s = Seq::new(m as nat, |c: int| g.connections@[c].post@ == name@);
    let mut n: usize = 0;
    let mut c: usize = 0;
    while c < g.connections.len()
        invariant
            c <= m,
            m == g.connections@.len(),
            s == Seq::new(m as nat, |c: int| g.connections@[c].post@ == name@),
            n == count_true(s, c as int),
        decreases m - c,
    {
        proof {
            lemma_count_true_bound(s, c as int);
        }
        if g.connections[c].post == *name {
            n += 1;
        }
        c += 1;
    }
    n
}

/// Connections out of the population named `name`.
pub(crate) fn count_fan_out(g: &Graph, name: &String) -> (r: usize)
    ensures
        r == fan_out(input_of(g), name@),
{
    let ghost m = g.connections@.len() as int;
    let ghost s = Seq::new(m as nat, |c: int| g.connections@[c].pre@ == name@);
    let mut n: usize = 0;
    let mut c: usize = 0;
    while c < g.connections.len()
        invariant
            c <= m,
            m == g.connections@.len(),
            s == Seq::new(m as nat, |c: int| g.connections@[c].pre@ == name@),
            n == count_true(s, c as int),
        decreases m - c,
    {
        proof {
            lemma_count_true_bound(s, c as int);
        }
        if g.connections[c].pre == *name {
            n += 1;
        }
        c += 1;
    }
    n
}

// ---------------------------------------------------------------------------
// Saturating arithmetic on estimates

/// `x`, or the largest `u128` where `x` exceeds it.
pub open spec fn saturate(x: int) -> int {
    if x > u128::MAX {
        u128::MAX as int
    } else {
        x
    }
}

fn mul_sat(a: u128, x: u128) -> (r: u128)
    ensures
        r == saturate(a * x),
{
    if x == 0 {
        assert(a * x == 0) by (nonlinear_arith) requires x == 0;
        0
    } else if a > u128::MAX / x {
        assert(a * x > u128::MAX) by (nonlinear_arith)
            requires x > 0, a > u128::MAX / x;
        u128::MAX
    } else {
        assert(a * x <= u128::MAX) by (nonlinear_arith)
            requires x > 0, a <= u128::MAX / x;
        a * x
    }
}

fn add_sat(a: u128, b: u128) -> (r: u128)
    ensures
        r == saturate(a + b),
{
    if a > u128::MAX - b {
        u128::MAX
    } else {
        a + b
    }
}

/// Saturated `a * x + b * y`.
fn mul_add_sat(a: u128, x: u128, b: u128, y: u128) -> (r: u128)
    ensures
        r == saturate(a * x + b * y),
{
    let p = mul_sat(a, x);
    let q = mul_sat(b, y);
    proof {
        assert(a * x >= 0) by (nonlinear_arith) requires a >= 0, x >= 0;
        assert(b * y >= 0) by (nonlinear_arith) requires b >= 0, y >= 0;
    }
    add_sat(p, q)
}

// ---------------------------------------------------------------------------
// Placement pass

/// A positive real value in millionths, or `default` where it is absent or
/// not a positive finite number.
pub open spec fn positive_or(v: Option<Fixed>, default: int) -> int {
    match v {
        Some(Fixed::Finite(x)) => if x > 0 { x as int } else { default },
        _ => default,
    }
}

/// Millionths of a KiB per neuron: declared, else 0.01 KiB.
pub open spec fn neuron_cost(caps: Option<&Capabilities>) -> int {
    match caps {
        Some(c) => positive_or(c.neuron_mem_kib_per, 10_000),
        None => 10_000,
    }
}

/// Millionths of a KiB per synapse: declared, else 0.001 KiB.
pub open spec fn synapse_cost(caps: Option<&Capabilities>) -> int {
    match caps {
        Some(c) => positive_or(c.syn_mem_kib_per, 1_000),
        None => 1_000,
    }
}

/// Estimated memory of partition `b`, in millionths of a KiB.
pub open spec fn part_memory(g: MapInput, caps: Option<&Capabilities>, b: int) -> int {
    saturate(units_in(g, b) * neuron_cost(caps) + synapses_in(g, b) * synapse_cost(caps))
}

pub open spec fn memory_cap(caps: Option<&Capabilities>) -> Option<int> {
    match caps {
        Some(c) => match c.core_memory_kib {
            Some(v) => Some(v as int * 1_000_000),
            None => None,
        },
        None => None,
    }
}

pub open spec fn fan_in_cap(caps: Option<&Capabilities>) -> Option<int> {
    match caps {
        Some(c) => match c.max_fan_in {
            Some(v) => Some(v as int),
            None => None,
        },
        None => None,
    }
}

pub open spec fn fan_out_cap(caps: Option<&Capabilities>) -> Option<int> {
    match caps {
        Some(c) => match c.max_fan_out {
            Some(v) => Some(v as int),
            None => None,
        },
        None => None,
    }
}

/// Memory violations of the first `k` partitions.
pub open spec fn memory_violations(g: MapInput, caps: Option<&Capabilities>, k: int) -> Seq<ViolationView>
    decreases k,
{
    if k <= 0 {
        Seq::empty()
    } else {
        let prev = memory_violations(g, caps, k - 1);
        let mem = part_memory(g, caps, k - 1);
        match memory_cap(caps) {
            Some(cap) => if mem > cap {
                prev.push(ViolationView {
                    code: ViolationCode::CoreMemoryExceeded,
                    entity: EntityView::Part(k - 1),
                    observed: mem,
                    limit: cap,
                })
            } else {
                prev
            },
            None => prev,
        }
    }
}

/// The fan-in violation of population `i`, if any.
pub open spec fn fan_in_violation(g: MapInput, caps: Option<&Capabilities>, i: int) -> Seq<ViolationView> {
    let name = g.populations[i].name@;
    match fan_in_cap(caps) {
        Some(cap) => if fan_in(g, name) > cap {
            seq![ViolationView {
                code: ViolationCode::MaxFanInExceeded,
                entity: EntityView::Population(name),
                observed: fan_in(g, name),
                limit: cap,
            }]
        } else {
            Seq::empty()
        },
        None => Seq::empty(),
    }
}

/// The fan-out violation of population `i`, if any.
pub open spec fn fan_out_violation(g: MapInput, caps: Option<&Capabilities>, i: int) -> Seq<ViolationView> {
    let name = g.populations[i].name@;
    match fan_out_cap(caps) {
        Some(cap) => if fan_out(g, name) > cap {
            seq![ViolationView {
                code: ViolationCode::MaxFanOutExceeded,
                entity: EntityView::Population(name),
                observed: fan_out(g, name),
                limit: cap,
            }]
        } else {
            Seq::empty()
        },
        None => Seq::empty(),
    }
}

/// Fan violations of the first `k` populations, fan-in before fan-out for each.
pub open spec fn placement_fan_violations(g: MapInput, caps: Option<&Capabilities>, k: int) -> Seq<ViolationView>
    decreases k,
{
    if k <= 0 {
        Seq::empty()
    } else {
        placement_fan_violations(g, caps, k - 1) + fan_in_violation(g, caps, k - 1) + fan_out_violation(g, caps, k - 1)
    }
}

pub struct PlacementView {
    pub status: PlacementStatus,
    pub parts: int,
    pub neurons_per_part: Seq<int>,
    pub synapses_per_part: Seq<int>,
    pub violations: Seq<ViolationView>,
}

impl View for PlacementReport {
    type V = PlacementView;

    open spec fn view(&self) -> PlacementView {
        PlacementView {
            status: self.status,
            parts: self.parts as int,
            neurons_per_part: self.neurons_per_part@.map_values(|x: u128| x as int),
            synapses_per_part: self.synapses_per_part@.map_values(|x: usize| x as int),
            violations: violations_view(self.violations@),
        }
    }
}

/// The placement report for a graph and a target.
pub open spec fn placement_view(g: MapInput, caps: Option<&Capabilities>) -> PlacementView {
    let count = context_parts(g);
    let vs = memory_violations(g, caps, count) + placement_fan_violations(g, caps, g.populations.len() as int);
    PlacementView {
        status: if vs.len() == 0 { PlacementStatus::Fits } else { PlacementStatus::Violations },
        parts: count,
        neurons_per_part: Seq::new(count as nat, |b: int| units_in(g, b)),
        synapses_per_part: Seq::new(count as nat, |b: int| synapses_in(g, b)),
        violations: vs,
    }
}

fn positive_or_exec(v: Option<Fixed>, default: u64) -> (r: u64)
    ensures
        r == positive_or(v, default as int),
{
    match v {
        Some(Fixed::Finite(x)) => if x > 0 { x as u64 } else { default },
        _ => default,
    }
}

fn option_cap(v: Option<u32>) -> (r: Option<u32>)
    ensures
        r == v,
{
    v
}

/// Fan violations of one population, appended to `vs`.
fn push_fan_violations(
    g: &Graph,
    caps: Option<&Capabilities>,
    i: usize,
    in_first: bool,
    vs: &mut Vec<Violation>,
)
    requires
        i < g.populations@.len(),
    ensures
        in_first ==> violations_view(final(vs)@) == violations_view(old(vs)@) + fan_in_violation(input_of(g), caps, i as int),
        !in_first ==> violations_view(final(vs)@) == violations_view(old(vs)@) + fan_out_violation(input_of(g), caps, i as int),
{
    let name = &g.populations[i].name;
    let cap = match caps {
        Some(c) => if in_first { option_cap(c.max_fan_in) } else { option_cap(c.max_fan_out) },
        None => None,
    };
    let ghost before = violations_view(vs@);
    match cap {
        Some(cap) => {
            let n = if in_first { count_fan_in(g, name) } else { count_fan_out(g, name) };
            if n as u64 > cap as u64 {
                let v = Violation {
                    code: if in_first { ViolationCode::MaxFanInExceeded } else { ViolationCode::MaxFanOutExceeded },
                    entity: Entity::Population(name.clone()),
                    observed: n as u128,
                    limit: cap as u128,
                };
                vs.push(v);
                assert(violations_view(vs@) =~= before.push(v@));
            }
        },
        None => {},
    }
    assert(in_first ==> violations_view(vs@) =~= before + fan_in_violation(input_of(g), caps, i as int));
    assert(!in_first ==> violations_view(vs@) =~= before + fan_out_violation(input_of(g), caps, i as int));
}

/// Estimates per-partition memory and checks fan-in / fan-out, as `placement_view` states.
pub fn placement(g: &Graph, caps: Option<&Capabilities>) -> (r: PlacementReport)
    requires
        context_wf(g),
    ensures
        r@ == placement_view(input_of(g), caps),
{
    let rep = stored_report(g);
    let count = context_count(g, rep);
    let pp = population_parts(g, rep);
    let (pre, post) = connection_parts(g, rep);
    let neurons = units_per_part(g, &pp, count);
    let synapses = synapses_per_part(g, &pre, &post, count);
    let (ncost, scost, mcap): (u64, u64, Option<u32>) = match caps {
        Some(c) => (positive_or_exec(c.neuron_mem_kib_per, 10_000), positive_or_exec(c.syn_mem_kib_per, 1_000), c.core_memory_kib),
        None => (10_000, 1_000, None),
    };
    let mut vs: Vec<Violation> = Vec::new();
    let mut b: usize = 0;
    while b < count
        invariant
            b <= count,
            count == context_parts(input_of(g)),
            neurons@.len() == count,
            synapses@.len() == count,
            forall|x: int| 0 <= x < count ==> #[trigger] neurons@[x] == units_in(input_of(g), x),
            forall|x: int| 0 <= x < count ==> #[trigger] synapses@[x] == synapses_in(input_of(g), x),
            ncost == neuron_cost(caps),
            scost == synapse_cost(caps),
            mcap.is_some() == memory_cap(caps).is_some(),
            mcap matches Some(v) ==> memory_cap(caps) == Some(v as int * 1_000_000),
            violations_view(vs@) == memory_violations(input_of(g), caps, b as int),
        decreases count - b,
    {
        let mem = mul_add_sat(neurons[b], ncost as u128, synapses[b] as u128, scost as u128);
        assert(mem == part_memory(input_of(g), caps, b as int));
        match mcap {
            Some(cap) => {
                let limit: u128 = cap as u128 * 1_000_000;
                if mem > limit {
                    let v = Violation {
                        code: ViolationCode::CoreMemoryExceeded,
                        entity: Entity::Part(b),
                        observed: mem,
                        limit,
                    };
                    let ghost before = vs@;
                    vs.push(v);
                    assert(violations_view(vs@) =~= violations_view(before).push(v@));
                }
            },
            None => {},
        }
        b += 1;
    }
    let ghost mem_vs = violations_view(vs@);
    let mut i: usize = 0;
    while i < g.populations.len()
        invariant
            i <= g.populations@.len(),
            mem_vs == memory_violations(input_of(g), caps, count as int),
            violations_view(vs@) == mem_vs + placement_fan_violations(input_of(g), caps, i as int),
        decreases g.populations@.len() - i,
    {
        push_fan_violations(g, caps, i, true, &mut vs);
        push_fan_violations(g, caps, i, false, &mut vs);
        proof {
            let a = placement_fan_violations(input_of(g), caps, i as int);
            let x = fan_in_violation(input_of(g), caps, i as int);
            let y = fan_out_violation(input_of(g), caps, i as int);
            assert(mem_vs + a + x + y =~= mem_vs + (a + x + y));
        }
        i += 1;
    }
    let status = if vs.len() == 0 { PlacementStatus::Fits } else { PlacementStatus::Violations };
    let r = PlacementReport { status, parts: count, neurons_per_part: neurons, synapses_per_part: synapses, violations: vs };
    assert(r@.neurons_per_part =~= placement_view(input_of(g), caps).neurons_per_part);
    assert(r@.synapses_per_part =~= placement_view(input_of(g), caps).synapses_per_part);
    r
}

// ---------------------------------------------------------------------------
// Routing pass

/// Millionths of a hertz per connection: declared, else 100 Hz.
pub open spec fn spike_rate(caps: Option<&Capabilities>) -> int {
    match caps {
        Some(c) => positive_or(c.default_spike_rate_hz, 100_000_000),
        None => 100_000_000,
    }
}

/// Bytes per event: declared, else 4.
pub open spec fn event_bytes(caps: Option<&Capabilities>) -> int {
    match caps {
        Some(c) => match c.bytes_per_event {
            Some(b) => b as int,
            None => 4,
        },
        None => 4,
    }
}

/// Declared bandwidth in millionths of a bit per second.
pub open spec fn bandwidth_cap(caps: Option<&Capabilities>) -> Option<int> {
    match caps {
        Some(c) => match c.interconnect_bandwidth_mbps {
            Some(v) => Some(v as int * 1_000_000_000_000),
            None => None,
        },
        None => None,
    }
}

/// Estimated interconnect load in millionths of a bit per second: each
/// cross-partition edge carries the spike rate times the event size.
pub open spec fn bandwidth_estimate(g: MapInput, caps: Option<&Capabilities>) -> int {
    saturate(cross_edges(g) * spike_rate(caps) * event_bytes(caps) * 8)
}

pub struct RoutingView {
    pub status: RoutingStatus,
    pub cross_edges: int,
    pub estimated_bandwidth: int,
    pub matrix: Seq<Seq<int>>,
}

impl View for RoutingReport {
    type V = RoutingView;

    open spec fn view(&self) -> RoutingView {
        RoutingView {
            status: self.status,
            cross_edges: self.cross_edges as int,
            estimated_bandwidth: self.estimated_bandwidth as int,
            matrix: self.matrix@.map_values(|row: Vec<usize>| row@.map_values(|x: usize| x as int)),
        }
    }
}

/// The routing report for a graph and a target.
pub open spec fn routing_view(g: MapInput, caps: Option<&Capabilities>) -> RoutingView {
    let count = context_parts(g);
    let est = bandwidth_estimate(g, caps);
    RoutingView {
        status: match bandwidth_cap(caps) {
            Some(cap) => if est > cap { RoutingStatus::Congested } else { RoutingStatus::Clear },
            None => RoutingStatus::Clear,
        },
        cross_edges: cross_edges(g),
        estimated_bandwidth: est,
        matrix: Seq::new(count as nat, |i: int| Seq::new(count as nat, |j: int| traffic(g, i, j))),
    }
}

proof fn lemma_saturate_mul(x: int, c: int)
    requires
        x >= 0,
        c >= 0,
    ensures
        saturate(saturate(x) * c) == saturate(x * c),
{
    if x > u128::MAX && c > 0 {
        assert(u128::MAX * c >= u128::MAX) by (nonlinear_arith) requires c >= 1;
        assert(x * c >= x) by (nonlinear_arith) requires c >= 1, x >= 0;
    }
    if c == 0 {
        assert(saturate(x) * c == 0 && x * c == 0) by (nonlinear_arith) requires c == 0;
    }
}

/// Row `i` of the traffic matrix.
fn traffic_row(g: &Graph, pre: &Vec<usize>, post: &Vec<usize>, count: usize, i: usize) -> (r: Vec<usize>)
    requires
        pre@.len() == g.connections@.len(),
        post@.len() == g.connections@.len(),
        forall|c: int| 0 <= c < pre@.len() ==> #[trigger] pre@[c] as int == pre_part(input_of(g), c) && pre@[c] < count,
        forall|c: int| 0 <= c < post@.len() ==> #[trigger] post@[c] as int == post_part(input_of(g), c) && post@[c] < count,
    ensures
        r@.len() == count,
        forall|j: int| 0 <= j < count ==> #[trigger] r@[j] == traffic(input_of(g), i as int, j),
{
    let ghost m = g.connections@.len() as int;
    let mut r: Vec<usize> = Vec::new();
    while r.len() < count
        invariant
            r@.len() <= count,
            forall|b: int| 0 <= b < r@.len() ==> #[trigger] r@[b] == 0,
        decreases count - r@.len(),
    {
        r.push(0);
    }
    let mut c: usize = 0;
    while c < pre.len()
        invariant
            c <= pre@.len(),
            m == pre@.len(),
            post@.len() == m,
            forall|x: int| 0 <= x < pre@.len() ==> #[trigger] pre@[x] as int == pre_part(input_of(g), x) && pre@[x] < count,
            forall|x: int| 0 <= x < post@.len() ==> #[trigger] post@[x] as int == post_part(input_of(g), x) && post@[x] < count,
            r@.len() == count,
            forall|j: int| 0 <= j < count ==> #[trigger] r@[j] == count_true(
                Seq::new(m as nat, |x: int| pre_part(input_of(g), x) == i && post_part(input_of(g), x) == j && i != j), c as int),
        decreases pre@.len() - c,
    {
        let j = post[c];
        if pre[c] == i && j != i {
            proof {
                lemma_count_true_bound(
                    Seq::new(m as nat, |x: int| pre_part(input_of(g), x) == i && post_part(input_of(g), x) == j && i != j), c as int);
            }
            let v = r[j] + 1;
            r.set(j, v);
        }
        c += 1;
    }
    r
}

/// Counts cross-partition traffic and compares its estimate with the declared
/// bandwidth, as `routing_view` states.
pub fn routing(g: &Graph, caps: Option<&Capabilities>) -> (r: RoutingReport)
    requires
        context_wf(g),
    ensures
        r@ == routing_view(input_of(g), caps),
{
    let rep = stored_report(g);
    let count = context_count(g, rep);
    let (pre, post) = connection_parts(g, rep);
    let ghost m = g.connections@.len() as int;
    let ghost cs = Seq::new(m as nat, |x: int| pre_part(input_of(g), x) != post_part(input_of(g), x));
    let mut cross: usize = 0;
    let mut c: usize = 0;
    while c < pre.len()
        invariant
            c <= pre@.len(),
            m == pre@.len(),
            post@.len() == m,
            forall|x: int| 0 <= x < pre@.len() ==> #[trigger] pre@[x] as int == pre_part(input_of(g), x),
            forall|x: int| 0 <= x < post@.len() ==> #[trigger] post@[x] as int == post_part(input_of(g), x),
            cs == Seq::new(m as nat, |x: int| pre_part(input_of(g), x) != post_part(input_of(g), x)),
            cross == count_true(cs, c as int),
        decreases pre@.len() - c,
    {
        proof {
            lemma_count_true_bound(cs, c as int);
        }
        if pre[c] != post[c] {
            cross += 1;
        }
        c += 1;
    }
    let mut matrix: Vec<Vec<usize>> = Vec::new();
    let mut i: usize = 0;
    while i < count
        invariant
            i <= count,
            count == context_parts(input_of(g)),
            pre@.len() == g.connections@.len(),
            post@.len() == g.connections@.len(),
            forall|c: int| 0 <= c < pre@.len() ==> #[trigger] pre@[c] as int == pre_part(input_of(g), c) && pre@[c] < count,
            forall|c: int| 0 <= c < post@.len() ==> #[trigger] post@[c] as int == post_part(input_of(g), c) && post@[c] < count,
            matrix@.len() == i,
            forall|x: int| 0 <= x < i ==> (#[trigger] matrix@[x])@.map_values(|v: usize| v as int)
                == Seq::new(count as nat, |j: int| traffic(input_of(g), x, j)),
        decreases count - i,
    {
        let row = traffic_row(g, &pre, &post, count, i);
        assert(row@.map_values(|v: usize| v as int) =~= Seq::new(count as nat, |j: int| traffic(input_of(g), i as int, j)));
        matrix.push(row);
        i += 1;
    }
    let (rate, bytes, cap): (u64, u32, Option<u32>) = match caps {
        Some(c) => (
            positive_or_exec(c.default_spike_rate_hz, 100_000_000),
            match c.bytes_per_event {
                Some(b) => b,
                None => 4,
            },
            c.interconnect_bandwidth_mbps,
        ),
        None => (100_000_000, 4, None),
    };
    let x1 = mul_sat(cross as u128, rate as u128);
    let x2 = mul_sat(x1, bytes as u128);
    let est = mul_sat(x2, 8);
    proof {
        let a = cross as int;
        let b = rate as int;
        let d = bytes as int;
        assert(a * b >= 0) by (nonlinear_arith) requires a >= 0, b >= 0;
        lemma_saturate_mul(a * b, d);
        assert(a * b * d >= 0) by (nonlinear_arith) requires a >= 0, b >= 0, d >= 0;
        lemma_saturate_mul(a * b * d, 8);
        assert(est == bandwidth_estimate(input_of(g), caps));
    }
    let status = match cap {
        Some(v) => if est > v as u128 * 1_000_000_000_000 { RoutingStatus::Congested } else { RoutingStatus::Clear },
        None => RoutingStatus::Clear,
    };
    let r = RoutingReport { status, cross_edges: cross, estimated_bandwidth: est, matrix };
    assert(r@.matrix =~= routing_view(input_of(g), caps).matrix);
    r
}

// ---------------------------------------------------------------------------
// Timing pass

/// Delay in nanoseconds; a negative or non-finite delay counts as none.
pub open spec fn delay_ns(d: Fixed) -> int {
    match d {
        Fixed::Finite(v) => if v > 0 { v as int } else { 0 },
        Fixed::NonFinite => 0,
    }
}

/// Time resolution in nanoseconds: declared, else one millisecond.
pub open spec fn resolution_ns(caps: Option<&Capabilities>) -> int {
    match caps {
        Some(c) => match c.time_resolution_ns {
            Some(r) => if r > 0 { r as int } else { 1_000_000 },
            None => 1_000_000,
        },
        None => 1_000_000,
    }
}

/// Whole ticks of `res` nanoseconds that cover a delay.
pub open spec fn ticks(d: Fixed, res: int) -> int {
    ceil_div(delay_ns(d), res)
}

/// Ticks of each connection's delay.
pub open spec fn delay_ticks_of(g: MapInput, caps: Option<&Capabilities>) -> Seq<int> {
    let cs = g.connections;
    Seq::new(cs.len(), |c: int| ticks(cs[c].delay_ms, resolution_ns(caps)))
}

pub open spec fn max_upto(s: Seq<int>, n: int) -> int
    decreases n,
{
    if n <= 0 {
        0
    } else {
        let m = max_upto(s, n - 1);
        if n == 1 || s[n - 1] > m { s[n - 1] } else { m }
    }
}

pub open spec fn min_upto(s: Seq<int>, n: int) -> int
    decreases n,
{
    if n <= 0 {
        0
    } else {
        let m = min_upto(s, n - 1);
        if n == 1 || s[n - 1] < m { s[n - 1] } else { m }
    }
}

pub open spec fn sum_upto(s: Seq<int>, n: int) -> int
    decreases n,
{
    if n <= 0 {
        0
    } else {
        sum_upto(s, n - 1) + s[n - 1]
    }
}

pub struct TimingView {
    pub time_resolution_ns: int,
    pub max_delay_ticks: int,
    pub min_delay_ticks: int,
    pub avg_delay_ticks: int,
}

impl View for TimingReport {
    type V = TimingView;

    open spec fn view(&self) -> TimingView {
        TimingView {
            time_resolution_ns: self.time_resolution_ns as int,
            max_delay_ticks: self.max_delay_ticks as int,
            min_delay_ticks: self.min_delay_ticks as int,
            avg_delay_ticks: self.avg_delay_ticks as int,
        }
    }
}

/// The timing report: resolution used, and the largest, smallest and mean
/// (in millionths, rounded down) tick counts over all connections; all zero
/// without connections.
pub open spec fn timing_view(g: MapInput, caps: Option<&Capabilities>) -> TimingView {
    let t = delay_ticks_of(g, caps);
    let n = t.len() as int;
    TimingView {
        time_resolution_ns: resolution_ns(caps),
        max_delay_ticks: max_upto(t, n),
        min_delay_ticks: min_upto(t, n),
        avg_delay_ticks: if n == 0 { 0 } else { (sum_upto(t, n) * 1_000_000) / n },
    }
}

/// Ticks of `res_ns` nanoseconds that cover the delay `delay` (in millionths of a millisecond).
pub fn delay_ticks(delay: Fixed, res_ns: u64) -> (r: u64)
    requires
        res_ns > 0,
    ensures
        r == ticks(delay, res_ns as int),
        r <= delay_ns(delay),
{
    let d: u64 = match delay {
        Fixed::Finite(v) => if v > 0 { v as u64 } else { 0 },
        Fixed::NonFinite => 0,
    };
    let q = d / res_ns;
    proof {
        assert(q <= d) by (nonlinear_arith) requires q == d / res_ns, res_ns > 0;
        assert(d % res_ns != 0 ==> q < d) by (nonlinear_arith)
            requires q == d / res_ns, res_ns > 0, q <= d;
    }
    if d % res_ns == 0 {
        q
    } else {
        q + 1
    }
}

proof fn lemma_sum_bound(s: Seq<int>, n: int, hi: int)
    requires
        0 <= n <= s.len(),
        hi >= 0,
        forall|i: int| 0 <= i < s.len() ==> 0 <= #[trigger] s[i] <= hi,
    ensures
        0 <= sum_upto(s, n) <= n * hi,
    decreases n,
{
    if n > 0 {
        lemma_sum_bound(s, n - 1, hi);
        assert((n - 1) * hi + hi == n * hi) by (nonlinear_arith);
    }
}

pub(crate) proof fn lemma_mean_split(sum: int, n: int, q: int, rem: int, t: int)
    requires
        n > 0,
        sum >= 0,
        q == sum / n,
        rem == sum % n,
        t == (rem * 1_000_000) / n,
    ensures
        q * 1_000_000 + t == (sum * 1_000_000) / n,
{
    assert(sum == q * n + rem && 0 <= rem < n) by (nonlinear_arith)
        requires n > 0, q == sum / n, rem == sum % n;
    assert(t * n <= rem * 1_000_000 < (t + 1) * n) by (nonlinear_arith)
        requires n > 0, rem >= 0, t == (rem * 1_000_000) / n;
    let a = q * 1_000_000 + t;
    assert(a * n <= sum * 1_000_000 < (a + 1) * n) by (nonlinear_arith)
        requires
            sum == q * n + rem,
            t * n <= rem * 1_000_000 < (t + 1) * n,
            a == q * 1_000_000 + t,
            n > 0;
    assert(a == (sum * 1_000_000) / n) by (nonlinear_arith)
        requires a * n <= sum * 1_000_000 < (a + 1) * n, n > 0;
}

/// Converts each connection's delay into ticks and aggregates them, as `timing_view` states.
pub fn timing(g: &Graph, caps: Option<&Capabilities>) -> (r: TimingReport)
    ensures
        r@ == timing_view(input_of(g), caps),
{
    let res: u64 = match caps {
        Some(c) => match c.time_resolution_ns {
            Some(v) => if v > 0 { v } else { 1_000_000 },
            None => 1_000_000,
        },
        None => 1_000_000,
    };
    let ghost t = delay_ticks_of(input_of(g), caps);
    let n = g.connections.len();
    let mut max_t: u64 = 0;
    let mut min_t: u64 = 0;
    let mut sum: u128 = 0;
    let mut c: usize = 0;
    proof {
        assert forall|i: int| 0 <= i < t.len() implies 0 <= #[trigger] t[i] <= 0x7fff_ffff_ffff_ffff by {
            let d = g.connections@[i].delay_ms;
            assert(delay_ns(d) <= 0x7fff_ffff_ffff_ffff);
            assert(ceil_div(delay_ns(d), res as int) <= delay_ns(d)) by (nonlinear_arith)
                requires res >= 1, delay_ns(d) >= 0, ceil_div(delay_ns(d), res as int) == (
                    if delay_ns(d) % (res as int) == 0 { delay_ns(d) / (res as int) } else { delay_ns(d) / (res as int) + 1 });
        }
    }
    while c < n
        invariant
            c <= n,
            n == g.connections@.len(),
            res as int == resolution_ns(caps),
            res > 0,
            t == delay_ticks_of(input_of(g), caps),
            forall|i: int| 0 <= i < t.len() ==> 0 <= #[trigger] t[i] <= 0x7fff_ffff_ffff_ffff,
            max_t == max_upto(t, c as int),
            min_t == min_upto(t, c as int),
            sum == sum_upto(t, c as int),
        decreases n - c,
    {
        let k = delay_ticks(g.connections[c].delay_ms, res);
        assert(k == t[c as int]);
        proof {
            lemma_sum_bound(t, c + 1, 0x7fff_ffff_ffff_ffff);
            assert((c + 1) * 0x7fff_ffff_ffff_ffff <= 0xffff_ffff_ffff_ffff * 0x7fff_ffff_ffff_ffff) by (nonlinear_arith)
                requires c + 1 <= 0xffff_ffff_ffff_ffff;
        }
        if c == 0 || k > max_t {
            max_t = k;
        }
        if c == 0 || k < min_t {
            min_t = k;
        }
        sum = sum + k as u128;
        c += 1;
    }
    let avg: u128 = if n == 0 {
        0
    } else {
        let q = sum / (n as u128);
        let rem = sum % (n as u128);
        proof {
            lemma_sum_bound(t, n as int, 0x7fff_ffff_ffff_ffff);
            assert(q <= 0x7fff_ffff_ffff_ffff) by (nonlinear_arith)
                requires q as int == (sum as int) / (n as int), sum <= n * 0x7fff_ffff_ffff_ffff, n > 0;
            assert(rem < n) by (nonlinear_arith) requires rem as int == (sum as int) % (n as int), n > 0;
        }
        let tail = (rem * 1_000_000) / (n as u128);
        proof {
            assert(tail <= 1_000_000) by (nonlinear_arith)
                requires tail as int == (rem as int * 1_000_000) / (n as int), rem < n, n > 0;
            lemma_mean_split(sum as int, n as int, q as int, rem as int, tail as int);
        }
        q * 1_000_000 + tail
    };
    TimingReport { time_resolution_ns: res, max_delay_ticks: max_t, min_delay_ticks: min_t, avg_delay_ticks: avg }
}

/// Tick counts never decrease as the delay grows.
pub proof fn lemma_ticks_monotonic(a: Fixed, b: Fixed, res: int)
    requires
        res > 0,
        delay_ns(a) <= delay_ns(b),
    ensures
        ticks(a, res) <= ticks(b, res),
{
    let x = delay_ns(a);
    let y = delay_ns(b);
    assert(ceil_div(x, res) <= ceil_div(y, res)) by (nonlinear_arith)
        requires
            0 <= x <= y,
            res > 0,
            ceil_div(x, res) == (if x % res == 0 { x / res } else { x / res + 1 }),
            ceil_div(y, res) == (if y % res == 0 { y / res } else { y / res + 1 });
}

// ---------------------------------------------------------------------------
// Resource check

/// Violations of the per-core neuron limit among the first `k` partitions.
pub open spec fn neuron_core_violations(g: MapInput, caps: Option<&Capabilities>, k: int) -> Seq<ViolationView>
    decreases k,
{
    if k <= 0 {
        Seq::empty()
    } else {
        let prev = neuron_core_violations(g, caps, k - 1);
        let units = units_in(g, k - 1);
        match caps {
            Some(c) => match c.max_neurons_per_core {
                Some(m) => if units > m {
                    prev.push(ViolationView {
                        code: ViolationCode::MaxNeuronsPerCoreExceeded,
                        entity: EntityView::Part(k - 1),
                        observed: units,
                        limit: m as int,
                    })
                } else {
                    prev
                },
                None => prev,
            },
            None => prev,
        }
    }
}

/// Violations of the per-core synapse limit among the first `k` partitions.
pub open spec fn synapse_core_violations(g: MapInput, caps: Option<&Capabilities>, k: int) -> Seq<ViolationView>
    decreases k,
{
    if k <= 0 {
        Seq::empty()
    } else {
        let prev = synapse_core_violations(g, caps, k - 1);
        let syn = synapses_in(g, k - 1);
        match caps {
            Some(c) => match c.max_synapses_per_core {
                Some(m) => if syn > m {
                    prev.push(ViolationView {
                        code: ViolationCode::MaxSynapsesPerCoreExceeded,
                        entity: EntityView::Part(k - 1),
                        observed: syn,
                        limit: m as int,
                    })
                } else {
                    prev
                },
                None => prev,
            },
            None => prev,
        }
    }
}

/// Fan-in violations of the first `k` populations.
pub open spec fn fan_in_violations(g: MapInput, caps: Option<&Capabilities>, k: int) -> Seq<ViolationView>
    decreases k,
{
    if k <= 0 {
        Seq::empty()
    } else {
        fan_in_violations(g, caps, k - 1) + fan_in_violation(g, caps, k - 1)
    }
}

/// Fan-out violations of the first `k` populations.
pub open spec fn fan_out_violations(g: MapInput, caps: Option<&Capabilities>, k: int) -> Seq<ViolationView>
    decreases k,
{
    if k <= 0 {
        Seq::empty()
    } else {
        fan_out_violations(g, caps, k - 1) + fan_out_violation(g, caps, k - 1)
    }
}

pub struct ResourceView {
    pub legal: bool,
    pub neurons_per_part: Seq<int>,
    pub synapses_per_part: Seq<int>,
    pub fan_in: Seq<(Seq<char>, int)>,
    pub fan_out: Seq<(Seq<char>, int)>,
    pub violations: Seq<ViolationView>,
}

impl View for ResourceReport {
    type V = ResourceView;

    open spec fn view(&self) -> ResourceView {
        ResourceView {
            legal: self.legal,
            neurons_per_part: self.neurons_per_part@.map_values(|x: u128| x as int),
            synapses_per_part: self.synapses_per_part@.map_values(|x: usize| x as int),
            fan_in: self.fan_in@.map_values(|e: (String, usize)| (e.0@, e.1 as int)),
            fan_out: self.fan_out@.map_values(|e: (String, usize)| (e.0@, e.1 as int)),
            violations: violations_view(self.violations@),
        }
    }
}

/// The legality verdict. Violations come in this order: partitions over the
/// neuron limit, partitions over the synapse limit, populations over the
/// fan-in cap, populations over the fan-out cap. Legal when there are none.
pub open spec fn resource_view(g: MapInput, caps: Option<&Capabilities>) -> ResourceView {
    let count = context_parts(g);
    let pops = g.populations;
    let n = pops.len() as int;
    let vs = neuron_core_violations(g, caps, count) + synapse_core_violations(g, caps, count)
        + fan_in_violations(g, caps, n) + fan_out_violations(g, caps, n);
    ResourceView {
        legal: vs.len() == 0,
        neurons_per_part: Seq::new(count as nat, |b: int| units_in(g, b)),
        synapses_per_part: Seq::new(count as nat, |b: int| synapses_in(g, b)),
        fan_in: Seq::new(pops.len(), |i: int| (pops[i].name@, fan_in(g, pops[i].name@))),
        fan_out: Seq::new(pops.len(), |i: int| (pops[i].name@, fan_out(g, pops[i].name@))),
        violations: vs,
    }
}

/// Recomputes per-partition counts and fan-in / fan-out from the partition
/// context and reports every violated limit, as `resource_view` states.
pub fn resource_check(g: &Graph, caps: Option<&Capabilities>) -> (r: ResourceReport)
    requires
        context_wf(g),
    ensures
        r@ == resource_view(input_of(g), caps),
{
    let rep = stored_report(g);
    let count = context_count(g, rep);
    let pp = population_parts(g, rep);
    let (pre, post) = connection_parts(g, rep);
    let neurons = units_per_part(g, &pp, count);
    let synapses = synapses_per_part(g, &pre, &post, count);
    let (max_n, max_s): (Option<u32>, Option<u32>) = match caps {
        Some(c) => (c.max_neurons_per_core, c.max_synapses_per_core),
        None => (None, None),
    };
    let mut vs: Vec<Violation> = Vec::new();
    let mut b: usize = 0;
    while b < count
        invariant
            b <= count,
            count == context_parts(input_of(g)),
            neurons@.len() == count,
            forall|x: int| 0 <= x < count ==> #[trigger] neurons@[x] == units_in(input_of(g), x),
            max_n == match caps {
                Some(c) => c.max_neurons_per_core,
                None => None,
            },
            violations_view(vs@) == neuron_core_violations(input_of(g), caps, b as int),
        decreases count - b,
    {
        match max_n {
            Some(m) => {
                if neurons[b] > m as u128 {
                    let v = Violation {
                        code: ViolationCode::MaxNeuronsPerCoreExceeded,
                        entity: Entity::Part(b),
                        observed: neurons[b],
                        limit: m as u128,
                    };
                    let ghost before = vs@;
                    vs.push(v);
                    assert(violations_view(vs@) =~= violations_view(before).push(v@));
                }
            },
            None => {},
        }
        b += 1;
    }
    let ghost v1 = violations_view(vs@);
    let mut b: usize = 0;
    while b < count
        invariant
            b <= count,
            count == context_parts(input_of(g)),
            synapses@.len() == count,
            forall|x: int| 0 <= x < count ==> #[trigger] synapses@[x] == synapses_in(input_of(g), x),
            max_s == match caps {
                Some(c) => c.max_synapses_per_core,
                None => None,
            },
            v1 == neuron_core_violations(input_of(g), caps, count as int),
            violations_view(vs@) == v1 + synapse_core_violations(input_of(g), caps, b as int),
        decreases count - b,
    {
        match max_s {
            Some(m) => {
                if synapses[b] as u128 > m as u128 {
                    let v = Violation {
                        code: ViolationCode::MaxSynapsesPerCoreExceeded,
                        entity: Entity::Part(b),
                        observed: synapses[b] as u128,
                        limit: m as u128,
                    };
                    let ghost before = vs@;
                    vs.push(v);
                    assert(violations_view(vs@) =~= violations_view(before).push(v@));
                    assert(v1 + synapse_core_violations(input_of(g), caps, b + 1) =~= (v1 + synapse_core_violations(input_of(g), caps, b as int)).push(v@));
                }
            },
            None => {},
        }
        b += 1;
    }
    let ghost v2 = violations_view(vs@);
    let n = g.populations.len();
    let mut fan_in_t: Vec<(String, usize)> = Vec::new();
    let mut fan_out_t: Vec<(String, usize)> = Vec::new();
    let mut i: usize = 0;
    while i < n
        invariant
            i <= n,
            n == g.populations@.len(),
            v2 == neuron_core_violations(input_of(g), caps, count as int) + synapse_core_violations(input_of(g), caps, count as int),
            violations_view(vs@) == v2 + fan_in_violations(input_of(g), caps, i as int),
            fan_in_t@.len() == i,
            fan_out_t@.len() == i,
            forall|j: int| 0 <= j < i ==> (#[trigger] fan_in_t@[j]).0@ == g.populations@[j].name@
                && fan_in_t@[j].1 == fan_in(input_of(g), g.populations@[j].name@),
            forall|j: int| 0 <= j < i ==> (#[trigger] fan_out_t@[j]).0@ == g.populations@[j].name@
                && fan_out_t@[j].1 == fan_out(input_of(g), g.populations@[j].name@),
        decreases n - i,
    {
        let name = &g.populations[i].name;
        fan_in_t.push((name.clone(), count_fan_in(g, name)));
        fan_out_t.push((name.clone(), count_fan_out(g, name)));
        let ghost before = violations_view(vs@);
        push_fan_violations(g, caps, i, true, &mut vs);
        assert(v2 + fan_in_violations(input_of(g), caps, i + 1) =~= before + fan_in_violation(input_of(g), caps, i as int));
        i += 1;
    }
    let ghost v3 = violations_view(vs@);
    let mut i: usize = 0;
    while i < n
        invariant
            i <= n,
            n == g.populations@.len(),
            v3 == v2 + fan_in_violations(input_of(g), caps, n as int),
            violations_view(vs@) == v3 + fan_out_violations(input_of(g), caps, i as int),
        decreases n - i,
    {
        let ghost before = violations_view(vs@);
        push_fan_violations(g, caps, i, false, &mut vs);
        assert(v3 + fan_out_violations(input_of(g), caps, i + 1) =~= before + fan_out_violation(input_of(g), caps, i as int));
        i += 1;
    }
    let legal = vs.len() == 0;
    let r = ResourceReport {
        legal,
        neurons_per_part: neurons,
        synapses_per_part: synapses,
        fan_in: fan_in_t,
        fan_out: fan_out_t,
        violations: vs,
    };
    assert(r@.neurons_per_part =~= resource_view(input_of(g), caps).neurons_per_part);
    assert(r@.synapses_per_part =~= resource_view(input_of(g), caps).synapses_per_part);
    assert(r@.fan_in =~= resource_view(input_of(g), caps).fan_in);
    assert(r@.fan_out =~= resource_view(input_of(g), caps).fan_out);
    r
}

// ---------------------------------------------------------------------------
// Properties of the per-partition counts and the traffic matrix

pub open spec fn ind(b: bool) -> int {
    if b { 1 } else { 0 }
}

/// The stored partition report, if any, has partitions and assigns only to them.
pub open spec fn input_wf(g: MapInput) -> bool {
    match g.partition {
        Some(v) => v.parts >= 1 && forall|k: int|
            0 <= k < v.assignment.len() ==> 0 <= #[trigger] v.assignment[k].1 < v.parts,
        None => true,
    }
}

/// Synapse counts of partitions `0 .. k`, summed.
pub open spec fn synapse_sum(g: MapInput, k: int) -> int
    decreases k,
{
    if k <= 0 { 0 } else { synapse_sum(g, k - 1) + synapses_in(g, k - 1) }
}

/// Connections whose two ends share a partition.
pub open spec fn intra_edges(g: MapInput) -> int {
    let m = g.connections.len() as int;
    count_true(Seq::new(m as nat, |c: int| pre_part(g, c) == post_part(g, c)), m)
}

/// Entries `0 .. k` of row `i` of the traffic matrix, summed.
pub open spec fn row_sum(g: MapInput, i: int, k: int) -> int
    decreases k,
{
    if k <= 0 { 0 } else { row_sum(g, i, k - 1) + traffic(g, i, k - 1) }
}

/// Entries `0 .. k` of column `j` of the traffic matrix, summed.
pub open spec fn col_sum(g: MapInput, j: int, k: int) -> int
    decreases k,
{
    if k <= 0 { 0 } else { col_sum(g, j, k - 1) + traffic(g, k - 1, j) }
}

/// Full rows `0 .. k` of the traffic matrix, summed.
pub open spec fn matrix_sum(g: MapInput, k: int) -> int
    decreases k,
{
    if k <= 0 { 0 } else { matrix_sum(g, k - 1) + row_sum(g, k - 1, context_parts(g)) }
}

/// Connections leaving partition `i` for another partition.
pub open spec fn leaving(g: MapInput, i: int) -> int {
    let m = g.connections.len() as int;
    count_true(Seq::new(m as nat, |c: int| pre_part(g, c) == i && post_part(g, c) != i), m)
}

/// Connections entering partition `j` from another partition.
pub open spec fn entering(g: MapInput, j: int) -> int {
    let m = g.connections.len() as int;
    count_true(Seq::new(m as nat, |c: int| post_part(g, c) == j && pre_part(g, c) != j), m)
}

/// For each `b < k`, the number of `c < n` with `p(c, b)`, summed.
pub open spec fn sum_counts(p: spec_fn(int, int) -> bool, m: int, n: int, k: int) -> int
    decreases k,
{
    if k <= 0 { 0 } else { sum_counts(p, m, n, k - 1) + count_true(Seq::new(m as nat, |c: int| p(c, k - 1)), n) }
}

/// The number of `b < k` with `p(c, b)`.
pub open spec fn sum_ind(p: spec_fn(int, int) -> bool, c: int, k: int) -> int
    decreases k,
{
    if k <= 0 { 0 } else { sum_ind(p, c, k - 1) + ind(p(c, k - 1)) }
}

proof fn lemma_part_in_range(a: Seq<(Seq<char>, int)>, name: Seq<char>, n: int, parts: int)
    requires
        parts >= 1,
        n <= a.len(),
        forall|k: int| 0 <= k < a.len() ==> 0 <= #[trigger] a[k].1 < parts,
    ensures
        0 <= part_in(a, name, n) < parts,
    decreases n,
{
    if n > 0 {
        lemma_part_in_range(a, name, n - 1, parts);
    }
}

proof fn lemma_part_of_range(g: MapInput, name: Seq<char>)
    requires
        input_wf(g),
    ensures
        0 <= part_of(g, name) < context_parts(g),
{
    match g.partition {
        Some(v) => lemma_part_in_range(v.assignment, name, v.assignment.len() as int, v.parts),
        None => {},
    }
}

proof fn lemma_ends_in_range(g: MapInput)
    requires
        input_wf(g),
    ensures
        forall|c: int| 0 <= c < g.connections.len() ==> 0 <= #[trigger] pre_part(g, c) < context_parts(g),
        forall|c: int| 0 <= c < g.connections.len() ==> 0 <= #[trigger] post_part(g, c) < context_parts(g),
{
    assert forall|c: int| 0 <= c < g.connections.len() implies 0 <= #[trigger] pre_part(g, c) < context_parts(g) by {
        lemma_part_of_range(g, g.connections[c].pre@);
    }
    assert forall|c: int| 0 <= c < g.connections.len() implies 0 <= #[trigger] post_part(g, c) < context_parts(g) by {
        lemma_part_of_range(g, g.connections[c].post@);
    }
}

proof fn lemma_sum_counts_step(p: spec_fn(int, int) -> bool, m: int, n: int, k: int)
    requires
        0 < n <= m,
        k >= 0,
    ensures
        sum_counts(p, m, n, k) == sum_counts(p, m, n - 1, k) + sum_ind(p, n - 1, k),
    decreases k,
{
    if k > 0 {
        lemma_sum_counts_step(p, m, n, k - 1);
        assert(Seq::new(m as nat, |c: int| p(c, k - 1))[n - 1] == p(n - 1, k - 1));
    }
}

proof fn lemma_sum_ind_select(p: spec_fn(int, int) -> bool, c: int, q: bool, t: int, k: int)
    requires
        k >= 0,
        forall|b: int| #[trigger] p(c, b) == (q && b == t),
    ensures
        sum_ind(p, c, k) == ind(q && 0 <= t < k),
    decreases k,
{
    if k > 0 {
        lemma_sum_ind_select(p, c, q, t, k - 1);
        assert(p(c, k - 1) == (q && k - 1 == t));
    }
}

/// Counting per `b` and summing over `b` counts once each item selected by `q`.
proof fn lemma_sum_of_counts(p: spec_fn(int, int) -> bool, q: spec_fn(int) -> bool, t: spec_fn(int) -> int, m: int, k: int, n: int)
    requires
        0 <= n <= m,
        k >= 0,
        forall|c: int, b: int| 0 <= c < m ==> #[trigger] p(c, b) == (q(c) && b == t(c)),
        forall|c: int| 0 <= c < m ==> 0 <= #[trigger] t(c) < k,
    ensures
        sum_counts(p, m, n, k) == count_true(Seq::new(m as nat, q), n),
    decreases n,
{
    if n > 0 {
        lemma_sum_of_counts(p, q, t, m, k, n - 1);
        lemma_sum_counts_step(p, m, n, k);
        assert(0 <= t(n - 1) < k);
        assert forall|b: int| #[trigger] p(n - 1, b) == (q(n - 1) && b == t(n - 1)) by {}
        lemma_sum_ind_select(p, n - 1, q(n - 1), t(n - 1), k);
    } else {
        lemma_sum_counts_zero(p, m, k);
    }
}

proof fn lemma_sum_counts_zero(p: spec_fn(int, int) -> bool, m: int, k: int)
    ensures
        sum_counts(p, m, 0, k) == 0,
    decreases k,
{
    if k > 0 {
        lemma_sum_counts_zero(p, m, k - 1);
    }
}

proof fn lemma_count_true_full(s: Seq<bool>, n: int)
    requires
        0 <= n <= s.len(),
    ensures
        count_true(s, n) == n <==> forall|c: int| 0 <= c < n ==> #[trigger] s[c],
        count_true(s, n) <= n,
    decreases n,
{
    if n > 0 {
        lemma_count_true_full(s, n - 1);
        lemma_count_true_bound(s, n - 1);
    }
}

proof fn lemma_count_zero(s: Seq<bool>, n: int)
    requires
        0 <= n <= s.len(),
        forall|c: int| 0 <= c < s.len() ==> !#[trigger] s[c],
    ensures
        count_true(s, n) == 0,
    decreases n,
{
    if n > 0 {
        lemma_count_zero(s, n - 1);
    }
}

/// Per-partition synapse counts sum to the connections whose ends share a
/// partition: at most all connections, and all of them exactly when every
/// connection is intra-partition.
pub proof fn lemma_synapse_counts_sum(g: MapInput)
    requires
        input_wf(g),
    ensures
        synapse_sum(g, context_parts(g)) == intra_edges(g),
        synapse_sum(g, context_parts(g)) <= g.connections.len(),
        synapse_sum(g, context_parts(g)) == g.connections.len()
            <==> forall|c: int| 0 <= c < g.connections.len() ==> #[trigger] pre_part(g, c) == post_part(g, c),
{
    let m = g.connections.len() as int;
    let k = context_parts(g);
    let p = |c: int, b: int| pre_part(g, c) == b && post_part(g, c) == b;
    let q = |c: int| pre_part(g, c) == post_part(g, c);
    let t = |c: int| pre_part(g, c);
    lemma_ends_in_range(g);
    assert forall|c: int| 0 <= c < m implies 0 <= #[trigger] t(c) < k by {}
    lemma_sum_of_counts(p, q, t, m, k, m);
    lemma_synapse_sum_is_count(g, p, k);
    assert(Seq::new(m as nat, q) =~= Seq::new(m as nat, |c: int| pre_part(g, c) == post_part(g, c)));
    let s = Seq::new(m as nat, q);
    lemma_count_true_full(s, m);
    assert forall|c: int| 0 <= c < m implies s[c] == (pre_part(g, c) == post_part(g, c)) by {}
}

proof fn lemma_synapse_sum_is_count(g: MapInput, p: spec_fn(int, int) -> bool, k: int)
    requires
        k >= 0,
        forall|c: int, b: int| #[trigger] p(c, b) == (pre_part(g, c) == b && post_part(g, c) == b),
    ensures
        synapse_sum(g, k) == sum_counts(p, g.connections.len() as int, g.connections.len() as int, k),
    decreases k,
{
    if k > 0 {
        lemma_synapse_sum_is_count(g, p, k - 1);
        let m = g.connections.len() as int;
        assert(Seq::new(m as nat, |c: int| pre_part(g, c) == k - 1 && post_part(g, c) == k - 1)
            =~= Seq::new(m as nat, |c: int| p(c, k - 1)));
    }
}

proof fn lemma_row_sum_is_count(g: MapInput, i: int, p: spec_fn(int, int) -> bool, k: int)
    requires
        k >= 0,
        forall|c: int, x: int| #[trigger] p(c, x) == (pre_part(g, c) == i && post_part(g, c) == x && i != x),
    ensures
        row_sum(g, i, k) == sum_counts(p, g.connections.len() as int, g.connections.len() as int, k),
    decreases k,
{
    if k > 0 {
        lemma_row_sum_is_count(g, i, p, k - 1);
        let m = g.connections.len() as int;
        assert(Seq::new(m as nat, |c: int| pre_part(g, c) == i && post_part(g, c) == k - 1 && i != k - 1)
            =~= Seq::new(m as nat, |c: int| p(c, k - 1)));
    }
}

proof fn lemma_col_sum_is_count(g: MapInput, j: int, p: spec_fn(int, int) -> bool, k: int)
    requires
        k >= 0,
        forall|c: int, x: int| #[trigger] p(c, x) == (pre_part(g, c) == x && post_part(g, c) == j && x != j),
    ensures
        col_sum(g, j, k) == sum_counts(p, g.connections.len() as int, g.connections.len() as int, k),
    decreases k,
{
    if k > 0 {
        lemma_col_sum_is_count(g, j, p, k - 1);
        let m = g.connections.len() as int;
        assert(Seq::new(m as nat, |c: int| pre_part(g, c) == k - 1 && post_part(g, c) == j && k - 1 != j)
            =~= Seq::new(m as nat, |c: int| p(c, k - 1)));
    }
}

proof fn lemma_row_sum_leaving(g: MapInput, i: int)
    requires
        input_wf(g),
    ensures
        row_sum(g, i, context_parts(g)) == leaving(g, i),
{
    let m = g.connections.len() as int;
    let k = context_parts(g);
    let p = |c: int, x: int| pre_part(g, c) == i && post_part(g, c) == x && i != x;
    let q = |c: int| pre_part(g, c) == i && post_part(g, c) != i;
    let t = |c: int| post_part(g, c);
    lemma_ends_in_range(g);
    assert forall|c: int| 0 <= c < m implies 0 <= #[trigger] t(c) < k by {}
    lemma_sum_of_counts(p, q, t, m, k, m);
    lemma_row_sum_is_count(g, i, p, k);
    assert(Seq::new(m as nat, q) =~= Seq::new(m as nat, |c: int| pre_part(g, c) == i && post_part(g, c) != i));
}

proof fn lemma_rows_cross(g: MapInput, n: int)
    requires
        input_wf(g),
        0 <= n <= context_parts(g),
    ensures
        matrix_sum(g, n) == sum_counts(
            |c: int, x: int| pre_part(g, c) == x && post_part(g, c) != x,
            g.connections.len() as int,
            g.connections.len() as int,
            n,
        ),
    decreases n,
{
    if n > 0 {
        lemma_rows_cross(g, n - 1);
        lemma_row_sum_leaving(g, n - 1);
        let m = g.connections.len() as int;
        let p = |c: int, x: int| pre_part(g, c) == x && post_part(g, c) != x;
        assert(Seq::new(m as nat, |c: int| pre_part(g, c) == n - 1 && post_part(g, c) != n - 1)
            =~= Seq::new(m as nat, |c: int| p(c, n - 1)));
    }
}

/// The traffic matrix has a zero diagonal; row `i` sums to the connections
/// leaving partition `i` for another, column `j` to those entering `j` from
/// another, and all rows together to the cross-partition edge count.
pub proof fn lemma_traffic_sums(g: MapInput, i: int, j: int)
    requires
        input_wf(g),
    ensures
        traffic(g, i, i) == 0,
        row_sum(g, i, context_parts(g)) == leaving(g, i),
        col_sum(g, j, context_parts(g)) == entering(g, j),
        matrix_sum(g, context_parts(g)) == cross_edges(g),
{
    let m = g.connections.len() as int;
    let k = context_parts(g);
    lemma_ends_in_range(g);
    let zero = Seq::new(m as nat, |c: int| pre_part(g, c) == i && post_part(g, c) == i && i != i);
    lemma_count_zero(zero, m);
    lemma_row_sum_leaving(g, i);
    // columns
    let pc = |c: int, x: int| pre_part(g, c) == x && post_part(g, c) == j && x != j;
    let qc = |c: int| post_part(g, c) == j && pre_part(g, c) != j;
    let tc = |c: int| pre_part(g, c);
    assert forall|c: int| 0 <= c < m implies 0 <= #[trigger] tc(c) < k by {}
    lemma_sum_of_counts(pc, qc, tc, m, k, m);
    lemma_col_sum_is_count(g, j, pc, k);
    assert(Seq::new(m as nat, qc) =~= Seq::new(m as nat, |c: int| post_part(g, c) == j && pre_part(g, c) != j));
    // all rows
    let pt = |c: int, x: int| pre_part(g, c) == x && post_part(g, c) != x;
    let qt = |c: int| pre_part(g, c) != post_part(g, c);
    lemma_sum_of_counts(pt, qt, tc, m, k, m);
    lemma_rows_cross(g, k);
    assert(Seq::new(m as nat, qt) =~= Seq::new(m as nat, |c: int| pre_part(g, c) != post_part(g, c)));
}

/// Timing ticks are monotonic in delay: of two connections of one graph, the
/// one with the shorter valid delay never gets more ticks.
pub proof fn lemma_connection_ticks_monotonic(g: MapInput, caps: Option<&Capabilities>, a: int, b: int)
    requires
        0 <= a < g.connections.len(),
        0 <= b < g.connections.len(),
        g.connections[a].delay_ms matches Fixed::Finite(da) && da >= 0,
        g.connections[b].delay_ms matches Fixed::Finite(db) && db >= 0,
        g.connections[a].delay_ms->Finite_0 < g.connections[b].delay_ms->Finite_0,
    ensures
        delay_ticks_of(g, caps)[a] <= delay_ticks_of(g, caps)[b],
{
    lemma_ticks_monotonic(g.connections[a].delay_ms, g.connections[b].delay_ms, resolution_ns(caps));
}

} // verus!
