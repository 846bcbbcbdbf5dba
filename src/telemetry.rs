//! Label sets for telemetry samples, with one consistent key schema:
//! "graph", "backend", "target", "simulator" and "pass".

use vstd::prelude::*;
use crate::graph::{attr_inserted, same_text};

verus! {

/// A set of labels: keys are unique; a new key goes last, an existing key
/// keeps its place and takes the new value.
pub struct Labels {
    entries: Vec<(String, String)>,
}

impl Labels {
    /// The labels in order, as character sequences.
    pub closed spec fn view_entries(&self) -> Seq<(Seq<char>, Seq<char>)> {
        self.entries@.map_values(|e: (String, String)| (e.0@, e.1@))
    }

    /// Sets `key` to `val`.
    pub fn insert(&mut self, key: &str, val: &str)
        ensures
            final(self).view_entries() == attr_inserted(old(self).view_entries(), key@, val@),
    {
        let ghost e = self.view_entries();
        let mut i: usize = 0;
        while i < self.entries.len()
            invariant
                i <= self.entries@.len(),
                e == self.view_entries(),
                e == old(self).view_entries(),
                e.len() == self.entries@.len(),
                crate::graph::key_index(e, key@) == crate::graph::key_index_from(e, key@, i as int),
            decreases self.entries@.len() - i,
        {
            assert(e[i as int].0 == self.entries@[i as int].0@);
            if same_text(self.entries[i].0.as_str(), key) {
                assert(crate::graph::key_index_from(e, key@, i as int) == i);
                self.entries.set(i, (key.to_string(), val.to_string()));
                assert(self.view_entries() =~= e.update(i as int, (key@, val@)));
                return;
            }
            i += 1;
        }
        self.entries.push((key.to_string(), val.to_string()));
        assert(self.view_entries() =~= e.push((key@, val@)));
    }

    /// The value of `key`, if set.
    pub fn get(&self, key: &str) -> (r: Option<&String>)
        ensures
            match r {
                Some(v) => crate::graph::attr_lookup(self.view_entries(), key@) == Some(v@),
                None => crate::graph::attr_lookup(self.view_entries(), key@) is None,
            },
    {
        let ghost e = self.view_entries();
        let mut i: usize = 0;
        while i < self.entries.len()
            invariant
                i <= self.entries@.len(),
                e == self.view_entries(),
                e.len() == self.entries@.len(),
                crate::graph::key_index(e, key@) == crate::graph::key_index_from(e, key@, i as int),
            decreases self.entries@.len() - i,
        {
            assert(e[i as int].0 == self.entries@[i as int].0@);
            if same_text(self.entries[i].0.as_str(), key) {
                assert(e[i as int].1 == self.entries@[i as int].1@);
                return Some(&self.entries[i].1);
            }
            i += 1;
        }
        None
    }

    pub fn len(&self) -> (r: usize)
        ensures
            r == self.view_entries().len(),
    {
        self.entries.len()
    }

    /// The `i`-th label.
    pub fn entry(&self, i: usize) -> (r: (&String, &String))
        requires
            i < self.view_entries().len(),
        ensures
            (r.0@, r.1@) == self.view_entries()[i as int],
    {
        (&self.entries[i].0, &self.entries[i].1)
    }
}

/// No labels.
pub fn empty() -> (r: Labels)
    ensures
        r.view_entries() == Seq::<(Seq<char>, Seq<char>)>::empty(),
{
    let r = Labels { entries: Vec::new() };
    assert(r.view_entries() =~= Seq::<(Seq<char>, Seq<char>)>::empty());
    r
}

/// Labels with the graph name.
pub fn graph(graph_name: &str) -> (r: Labels)
    ensures
        r.view_entries() == seq![("graph"@, graph_name@)],
{
    let mut m = empty();
    m.insert("graph", graph_name);
    m
}

/// Labels with the target name.
pub fn target(target_name: &str) -> (r: Labels)
    ensures
        r.view_entries() == seq![("target"@, target_name@)],
{
    let mut m = empty();
    m.insert("target", target_name);
    m
}

/// Labels of a backend compile: graph, backend, and the target if given.
pub fn backend(graph_name: &str, backend_name: &str, target_name: Option<&str>) -> (r: Labels)
    ensures
        r.view_entries() == match target_name {
            Some(t) => attr_inserted(attr_inserted(seq![("graph"@, graph_name@)], "backend"@, backend_name@), "target"@, t@),
            None => attr_inserted(seq![("graph"@, graph_name@)], "backend"@, backend_name@),
        },
{
    let mut m = graph(graph_name);
    m.insert("backend", backend_name);
    if let Some(t) = target_name {
        m.insert("target", t);
    }
    m
}

/// Labels of a simulator run: graph and simulator.
pub fn simulator(graph_name: &str, simulator_name: &str) -> (r: Labels)
    ensures
        r.view_entries() == attr_inserted(seq![("graph"@, graph_name@)], "simulator"@, simulator_name@),
{
    let mut m = graph(graph_name);
    m.insert("simulator", simulator_name);
    m
}

/// Labels of a pass run: graph and pass.
pub fn pass(graph_name: &str, pass_name: &str) -> (r: Labels)
    ensures
        r.view_entries() == attr_inserted(seq![("graph"@, graph_name@)], "pass"@, pass_name@),
{
    let mut m = graph(graph_name);
    m.insert("pass", pass_name);
    m
}

/// `e` with the first `n` entries of `rhs` set in order.
pub open spec fn merged(e: Seq<(Seq<char>, Seq<char>)>, rhs: Seq<(Seq<char>, Seq<char>)>, n: int) -> Seq<(Seq<char>, Seq<char>)>
    decreases n,
{
    if n <= 0 {
        e
    } else {
        attr_inserted(merged(e, rhs, n - 1), rhs[n - 1].0, rhs[n - 1].1)
    }
}

/// `lhs` with every label of `rhs` set; `rhs` wins on shared keys.
pub fn merge(lhs: Labels, rhs: Labels) -> (r: Labels)
    ensures
        r.view_entries() == merged(lhs.view_entries(), rhs.view_entries(), rhs.view_entries().len() as int),
{
    let mut m = lhs;
    let mut i: usize = 0;
    while i < rhs.len()
        invariant
            i <= rhs.view_entries().len(),
            m.view_entries() == merged(lhs.view_entries(), rhs.view_entries(), i as int),
        decreases rhs.view_entries().len() - i,
    {
        let (k, v) = rhs.entry(i);
        m.insert(k.as_str(), v.as_str());
        i += 1;
    }
    m
}

/// `m` with `key` set to `val`.
pub fn with(m: Labels, key: &str, val: &str) -> (r: Labels)
    ensures
        r.view_entries() == attr_inserted(m.view_entries(), key@, val@),
{
    let mut m = m;
    m.insert(key, val);
    m
}

} // verus!
