//! Coarse partition planning ahead of the mapping passes.

use vstd::prelude::*;
use vstd::utf8::encode_utf8;
use crate::graph::Graph;
use crate::mapping::{count_fan_in, count_fan_out, fan_in, fan_out, input_of, lemma_mean_split, max_upto, sum_upto};

verus! {

/// A coarse plan: how many partitions to use.
#[derive(Clone, Copy, Debug, PartialEq, Eq, Structural)]
pub struct PartitionPlan {
    pub parts: usize,
}

pub fn version() -> (r: &'static str)
    ensures
        r@ == "0.0.1"@,
{
    "0.0.1"
}

/// One partition per population, at most four, and at least one.
pub fn partition(g: &Graph, targets: &Vec<String>) -> (r: PartitionPlan)
    ensures
        r.parts == if g.populations@.len() == 0 {
            1
        } else if g.populations@.len() < 4 {
            g.populations@.len()
        } else {
            4
        },
{
    let n = g.populations.len();
    let parts = if n == 0 {
        1
    } else if n < 4 {
        n
    } else {
        4
    };
    PartitionPlan { parts }
}

/// A deterministic partition planner seeded by the caller.
pub struct GreedyRefineBuilder {
    pub seed: u64,
}

impl GreedyRefineBuilder {
    pub fn new(seed: u64) -> (r: GreedyRefineBuilder)
        ensures
            r.seed == seed,
    {
        GreedyRefineBuilder { seed }
    }

    /// A deterministic plan: the seed mixed with the graph's structure and the
    /// target names picks between one and `min(populations, 4)` partitions
    /// (one for an empty graph).
    pub fn plan(&mut self, g: &Graph, targets: &Vec<String>) -> (r: PartitionPlan)
        ensures
            *final(self) == *old(self),
            r.parts as int == 1 + (plan_mix(old(self).seed, g, targets@) as int) % part_bound(g),
            1 <= r.parts <= part_bound(g),
    {
        let m = compute_metrics(g);
        let start = start_mix(self.seed, g.name.as_str().len(), m.edge_count, m.max_fanout, m.max_fanin);
        let mix = mix_all(start, targets);
        assert(start == plan_mix_start(self.seed, g));
        assert(mix == plan_mix(self.seed, g, targets@));
        let n = g.populations.len();
        let upper: u64 = if n <= 1 { 1 } else if n >= 4 { 4 } else { n as u64 };
        let parts = 1 + (mix % upper) as usize;
        PartitionPlan { parts }
    }
}

fn start_mix(seed: u64, name_len: usize, edges: usize, max_out: usize, max_in: usize) -> (r: u64)
    ensures
        r == seed ^ ((name_len as u64) << 1u64) ^ ((edges as u64) << 2u64) ^ ((max_out as u64) << 3u64)
            ^ ((max_in as u64) << 4u64),
{
    seed ^ ((name_len as u64) << 1u64) ^ ((edges as u64) << 2u64) ^ ((max_out as u64) << 3u64) ^ ((max_in as u64) << 4u64)
}

fn mix_in_bytes(mix: u64, bytes: &[u8]) -> (r: u64)
    ensures
        r == mix_bytes(mix, bytes@, bytes@.len() as int),
{
    let mut x = mix;
    let mut j: usize = 0;
    while j < bytes.len()
        invariant
            j <= bytes@.len(),
            x == mix_bytes(mix, bytes@, j as int),
        decreases bytes@.len() - j,
    {
        x = rotl7(x.wrapping_mul(0x9E37_79B9_7F4A_7C15)) ^ (bytes[j] as u64);
        j += 1;
    }
    x
}

fn mix_all(start: u64, targets: &Vec<String>) -> (r: u64)
    ensures
        r == mix_targets(start, targets@, targets@.len() as int),
{
    let mut mix = start;
    let mut t: usize = 0;
    while t < targets.len()
        invariant
            t <= targets@.len(),
            mix == mix_targets(start, targets@, t as int),
        decreases targets@.len() - t,
    {
        let bytes = targets[t].as_str().as_bytes();
        mix = mix_in_bytes(mix, bytes);
        t += 1;
    }
    mix
}

/// Plans with the given builder.
pub fn partition_with(builder: &mut GreedyRefineBuilder, g: &Graph, targets: &Vec<String>) -> (r: PartitionPlan)
    ensures
        *final(builder) == *old(builder),
        r.parts as int == 1 + (plan_mix(old(builder).seed, g, targets@) as int) % part_bound(g),
{
    builder.plan(g, targets)
}

/// Upper bound on a plan's partitions: the population count, at least one, at most four.
pub open spec fn part_bound(g: &Graph) -> int {
    let n = g.populations@.len() as int;
    if n <= 1 { 1 } else if n >= 4 { 4 } else { n }
}

/// Rotation of a 64-bit word by seven bits to the left.
pub open spec fn rotl7_spec(x: u64) -> u64 {
    (x << 7u64) | (x >> 57u64)
}

fn rotl7(x: u64) -> (r: u64)
    ensures
        r == rotl7_spec(x),
{
    (x << 7u64) | (x >> 57u64)
}

/// The mix after the first `n` bytes of `bs`.
pub open spec fn mix_bytes(mix: u64, bs: Seq<u8>, n: int) -> u64
    decreases n,
{
    if n <= 0 {
        mix
    } else {
        rotl7_spec(mix_bytes(mix, bs, n - 1).wrapping_mul(0x9E37_79B9_7F4A_7C15)) ^ (bs[n - 1] as u64)
    }
}

/// The mix after the bytes of the first `n` target names.
pub open spec fn mix_targets(mix: u64, ts: Seq<String>, n: int) -> u64
    decreases n,
{
    if n <= 0 {
        mix
    } else {
        let b = encode_utf8(ts[n - 1]@);
        mix_bytes(mix_targets(mix, ts, n - 1), b, b.len() as int)
    }
}

/// The plan's mix: seed, name length and metrics, then every target byte.
pub open spec fn plan_mix(seed: u64, g: &Graph, ts: Seq<String>) -> u64 {
    mix_targets(plan_mix_start(seed, g), ts, ts.len() as int)
}

/// The seed mixed with the name length and the metrics.
pub open spec fn plan_mix_start(seed: u64, g: &Graph) -> u64 {
    seed
        ^ (((encode_utf8(g.name@).len() as usize) as u64) << 1u64)
        ^ ((g.connections@.len() as u64) << 2u64)
        ^ ((max_upto(fan_outs(g), g.populations@.len() as int) as u64) << 3u64)
        ^ ((max_upto(fan_ins(g), g.populations@.len() as int) as u64) << 4u64)
}

/// Structural metrics at population granularity. Averages are in
/// millionths, rounded down, over at least one population.
pub struct GraphMetrics {
    pub node_count: usize,
    pub edge_count: usize,
    pub avg_fanin: u128,
    pub avg_fanout: u128,
    pub max_fanin: usize,
    pub max_fanout: usize,
}

/// Fan-in of each population, in list order.
pub open spec fn fan_ins(g: &Graph) -> Seq<int> {
    Seq::new(g.populations@.len(), |i: int| fan_in(input_of(g), g.populations@[i].name@))
}

/// Fan-out of each population, in list order.
pub open spec fn fan_outs(g: &Graph) -> Seq<int> {
    Seq::new(g.populations@.len(), |i: int| fan_out(input_of(g), g.populations@[i].name@))
}

/// Mean of the first `n` entries of `s` in millionths, rounded down; 0 for none.
pub open spec fn mean_micro(s: Seq<int>, n: int) -> int {
    (sum_upto(s, n) * 1_000_000) / if n >= 1 { n } else { 1 }
}

proof fn lemma_counts_sum_bound(s: Seq<int>, n: int, hi: int)
    requires
        0 <= n <= s.len(),
        hi >= 0,
        forall|i: int| 0 <= i < s.len() ==> 0 <= #[trigger] s[i] <= hi,
    ensures
        0 <= sum_upto(s, n) <= n * hi,
    decreases n,
{
    if n > 0 {
        lemma_counts_sum_bound(s, n - 1, hi);
        assert((n - 1) * hi + hi == n * hi) by (nonlinear_arith);
    }
}

/// Sum and largest entry of a list of counts.
fn sum_and_max(v: &Vec<usize>, ghost_s: Ghost<Seq<int>>) -> (r: (u128, usize))
    requires
        v@.len() == ghost_s@.len(),
        forall|i: int| 0 <= i < v@.len() ==> #[trigger] v@[i] as int == ghost_s@[i],
    ensures
        r.0 == sum_upto(ghost_s@, v@.len() as int),
        r.1 == max_upto(ghost_s@, v@.len() as int),
{
    let ghost s = ghost_s@;
    let mut sum: u128 = 0;
    let mut max: usize = 0;
    let mut i: usize = 0;
    while i < v.len()
        invariant
            i <= v@.len(),
            s == ghost_s@,
            v@.len() == s.len(),
            forall|j: int| 0 <= j < v@.len() ==> #[trigger] v@[j] as int == s[j],
            sum == sum_upto(s, i as int),
            max == max_upto(s, i as int),
        decreases v@.len() - i,
    {
        proof {
            assert forall|j: int| 0 <= j < s.len() implies 0 <= #[trigger] s[j] <= usize::MAX by {
                assert(v@[j] as int == s[j]);
            }
            lemma_counts_sum_bound(s, i + 1, usize::MAX as int);
            assert((i + 1) * (usize::MAX as int) <= 0xffff_ffff_ffff_ffff * 0xffff_ffff_ffff_ffff) by (nonlinear_arith)
                requires i + 1 <= 0xffff_ffff_ffff_ffff;
        }
        if i == 0 || v[i] > max {
            max = v[i];
        }
        sum = sum + v[i] as u128;
        i += 1;
    }
    (sum, max)
}

/// `sum / d` in millionths, rounded down.
fn mean_of(sum: u128, d: usize, n_hi: usize) -> (r: u128)
    requires
        d >= 1,
        sum <= (d as int) * (n_hi as int),
    ensures
        r == (sum * 1_000_000) / (d as int),
{
    let q = sum / (d as u128);
    let rem = sum % (d as u128);
    proof {
        assert(q <= n_hi) by (nonlinear_arith)
            requires q as int == (sum as int) / (d as int), sum <= (d as int) * (n_hi as int), d >= 1;
        assert(rem < d) by (nonlinear_arith) requires rem as int == (sum as int) % (d as int), d >= 1;
    }
    let tail = (rem * 1_000_000) / (d as u128);
    proof {
        assert(tail <= 1_000_000) by (nonlinear_arith)
            requires tail as int == (rem as int * 1_000_000) / (d as int), rem < d, d >= 1;
        lemma_mean_split(sum as int, d as int, q as int, rem as int, tail as int);
    }
    q * 1_000_000 + tail
}

/// Node and edge counts, and fan-in / fan-out statistics over the populations.
pub fn compute_metrics(g: &Graph) -> (r: GraphMetrics)
    ensures
        r.node_count == g.populations@.len(),
        r.edge_count == g.connections@.len(),
        r.max_fanin == max_upto(fan_ins(g), g.populations@.len() as int),
        r.max_fanout == max_upto(fan_outs(g), g.populations@.len() as int),
        r.avg_fanin == mean_micro(fan_ins(g), g.populations@.len() as int),
        r.avg_fanout == mean_micro(fan_outs(g), g.populations@.len() as int),
{
    let n = g.populations.len();
    let m = g.connections.len();
    let mut ins: Vec<usize> = Vec::new();
    let mut outs: Vec<usize> = Vec::new();
    let mut i: usize = 0;
    while i < n
        invariant
            i <= n,
            n == g.populations@.len(),
            m == g.connections@.len(),
            ins@.len() == i,
            outs@.len() == i,
            forall|j: int| 0 <= j < i ==> #[trigger] ins@[j] as int == fan_ins(g)[j] && ins@[j] <= m,
            forall|j: int| 0 <= j < i ==> #[trigger] outs@[j] as int == fan_outs(g)[j] && outs@[j] <= m,
        decreases n - i,
    {
        let a = count_fan_in(g, &g.populations[i].name);
        let b = count_fan_out(g, &g.populations[i].name);
        proof {
            crate::mapping::lemma_fan_bounds(input_of(g), g.populations@[i as int].name@);
        }
        ins.push(a);
        outs.push(b);
        i += 1;
    }
    let (sum_in, max_in) = sum_and_max(&ins, Ghost(fan_ins(g)));
    let (sum_out, max_out) = sum_and_max(&outs, Ghost(fan_outs(g)));
    let d: usize = if n >= 1 { n } else { 1 };
    proof {
        assert forall|j: int| 0 <= j < fan_ins(g).len() implies 0 <= #[trigger] fan_ins(g)[j] <= m by {
            assert(ins@[j] as int == fan_ins(g)[j]);
        }
        assert forall|j: int| 0 <= j < fan_outs(g).len() implies 0 <= #[trigger] fan_outs(g)[j] <= m by {
            assert(outs@[j] as int == fan_outs(g)[j]);
        }
        lemma_counts_sum_bound(fan_ins(g), n as int, m as int);
        lemma_counts_sum_bound(fan_outs(g), n as int, m as int);
        assert((n as int) * (m as int) <= (d as int) * (m as int)) by (nonlinear_arith)
            requires n <= d, m >= 0;
    }
    let avg_in = mean_of(sum_in, d, m);
    let avg_out = mean_of(sum_out, d, m);
    GraphMetrics {
        node_count: n,
        edge_count: m,
        avg_fanin: avg_in,
        avg_fanout: avg_out,
        max_fanin: max_in,
        max_fanout: max_out,
    }
}

} // verus!
