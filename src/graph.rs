//! The network graph: populations, connections, probes and the attribute
//! table through which passes hand their reports forward; and its structural
//! validation, which stops at the first defect.

use vstd::prelude::*;
use vstd::string::StringExecFns;
use indexmap::IndexMap;
use crate::riscv::{
    RvBareTuningReport, RvControlPlaneReport, RvKernelsReport, RvLayoutReport, RvScheduleReport, RvVectorizeReport,
};
use crate::mapping::{
    PartitionReport, PartitionView, PlacementReport, PlacementView, ResourceReport, ResourceView, RoutingReport,
    RoutingView, TimingReport, TimingView,
};

verus! {

/// A real quantity held as a whole number of millionths of its unit.
/// `NonFinite` stands for a value that has no finite reading (NaN or an infinity).
#[derive(Clone, Copy, Debug, PartialEq, Eq, Structural)]
pub enum Fixed {
    Finite(i64),
    NonFinite,
}

/// Relies on `serde_json::Value` as an opaque JSON payload, carried alongside
/// populations and plasticity rules and never read here.
#[verifier::external_type_specification]
#[verifier::external_body]
pub struct ExJsonValue(serde_json::Value);

/// Relies on `indexmap::IndexMap`: a hash map that keeps its entries in
/// insertion order, used for the graph's attribute table.
#[verifier::external_type_specification]
#[verifier::external_body]
#[verifier::reject_recursive_types(K)]
#[verifier::reject_recursive_types(V)]
#[verifier::reject_recursive_types(S)]
pub struct ExIndexMap<K, V, S>(IndexMap<K, V, S>);

/// A named, homogeneous group of units.
pub struct Population {
    pub name: String,
    pub size: u32,
    pub model: String,
    pub params: serde_json::Value,
}

/// A directed, weighted, delayed edge between two populations.
pub struct Connection {
    pub pre: String,
    pub post: String,
    /// Synaptic weight.
    pub weight: Fixed,
    /// Delay in milliseconds; its millionths are nanoseconds.
    pub delay_ms: Fixed,
    pub plasticity: Option<PlasticityRule>,
}

/// An observation point bound to a population.
pub struct Probe {
    pub target: String,
    pub kind: String,
}

#[derive(Clone, Copy, Debug, PartialEq, Eq, Structural)]
pub enum Dialect {
    Event,
    Dataflow,
    Hybrid,
}

#[derive(Clone, Copy, Debug, PartialEq, Eq, Structural)]
pub enum PlasticityKind {
    STDP,
    Hebbian,
    Custom,
}

pub struct PlasticityRule {
    pub kind: PlasticityKind,
    pub params: serde_json::Value,
}

/// Value stored under a key of a graph's attribute table: a text, or the
/// typed report of one mapping pass.
pub enum AttrValue {
    Text(String),
    Partition(PartitionReport),
    Placement(PlacementReport),
    Routing(RoutingReport),
    Timing(TimingReport),
    ResourceCheck(ResourceReport),
    RvKernels(RvKernelsReport),
    RvLayout(RvLayoutReport),
    RvSchedule(RvScheduleReport),
    RvVectorize(RvVectorizeReport),
    RvBareTuning(RvBareTuningReport),
    RvControlPlane(RvControlPlaneReport),
}

/// Position of the first entry at or after `i` whose key is `k`, else the length.
pub open spec fn key_index_from<V>(e: Seq<(Seq<char>, V)>, k: Seq<char>, i: int) -> int
    decreases e.len() - i,
{
    if i >= e.len() {
        e.len() as int
    } else if e[i].0 == k {
        i
    } else {
        key_index_from(e, k, i + 1)
    }
}

pub open spec fn key_index<V>(e: Seq<(Seq<char>, V)>, k: Seq<char>) -> int {
    key_index_from(e, k, 0)
}

/// The value stored under `k`, if any.
pub open spec fn attr_lookup<V>(e: Seq<(Seq<char>, V)>, k: Seq<char>) -> Option<V> {
    let i = key_index(e, k);
    if 0 <= i < e.len() {
        Some(e[i].1)
    } else {
        None
    }
}

/// Entries after storing `v` under `k`: an existing key keeps its place and
/// takes the new value; a new key goes last.
pub open spec fn attr_inserted<V>(e: Seq<(Seq<char>, V)>, k: Seq<char>, v: V) -> Seq<(Seq<char>, V)> {
    let i = key_index(e, k);
    if 0 <= i < e.len() {
        e.update(i, (k, v))
    } else {
        e.push((k, v))
    }
}

pub(crate) proof fn lemma_key_index_from_bounds<V>(e: Seq<(Seq<char>, V)>, k: Seq<char>, i: int)
    requires
        0 <= i <= e.len(),
    ensures
        i <= key_index_from(e, k, i) <= e.len(),
        key_index_from(e, k, i) < e.len() ==> e[key_index_from(e, k, i)].0 == k,
        forall|j: int| i <= j < key_index_from(e, k, i) ==> e[j].0 != k,
    decreases e.len() - i,
{
    if i < e.len() {
        lemma_key_index_from_bounds(e, k, i + 1);
    }
}

/// The first index is characterised by its key and the keys before it.
proof fn lemma_key_index_unique<V>(e: Seq<(Seq<char>, V)>, k: Seq<char>, m: int)
    requires
        0 <= m <= e.len(),
        m < e.len() ==> e[m].0 == k,
        forall|j: int| 0 <= j < m ==> e[j].0 != k,
    ensures
        key_index(e, k) == m,
{
    lemma_key_index_from_bounds(e, k, 0);
    let i = key_index(e, k);
    if i < m {
        assert(e[i].0 == k);
    } else if m < i {
        assert(e[m].0 != k);
    }
}

/// Storing under `k` makes `v` the value of `k` and leaves every other key as it was.
pub proof fn lemma_attr_inserted<V>(e: Seq<(Seq<char>, V)>, k: Seq<char>, v: V, k2: Seq<char>)
    ensures
        attr_lookup(attr_inserted(e, k, v), k) == Some(v),
        k2 != k ==> attr_lookup(attr_inserted(e, k, v), k2) == attr_lookup(e, k2),
{
    lemma_key_index_from_bounds(e, k, 0);
    lemma_key_index_from_bounds(e, k2, 0);
    let e2 = attr_inserted(e, k, v);
    let i = key_index(e, k);
    let i2 = key_index(e, k2);
    if i < e.len() {
        assert forall|j: int| 0 <= j < i implies e2[j].0 != k by {
            assert(e2[j] == e[j]);
        }
        lemma_key_index_unique(e2, k, i);
        if k2 != k {
            assert forall|j: int| 0 <= j < i2 implies e2[j].0 != k2 by {
                if j != i {
                    assert(e2[j] == e[j]);
                }
            }
            if i2 < e.len() {
                assert(e2[i2] == e[i2]);
            }
            lemma_key_index_unique(e2, k2, i2);
        }
    } else {
        assert forall|j: int| 0 <= j < e.len() implies e2[j].0 != k by {
            assert(e2[j] == e[j]);
        }
        lemma_key_index_unique(e2, k, e.len() as int);
        if k2 != k {
            assert forall|j: int| 0 <= j < i2 implies e2[j].0 != k2 by {
                assert(e2[j] == e[j]);
            }
            if i2 < e.len() {
                assert(e2[i2] == e[i2]);
                lemma_key_index_unique(e2, k2, i2);
            } else {
                assert(e2[e.len() as int].0 == k);
                assert forall|j: int| 0 <= j < e.len() + 1 implies e2[j].0 != k2 by {
                    if j < e.len() {
                        assert(e2[j] == e[j]);
                    }
                }
                lemma_key_index_unique(e2, k2, e2.len() as int);
            }
        }
    }
}

/// Contents of an attribute table: its entries in insertion order.
pub uninterp spec fn attr_entries(m: IndexMap<String, AttrValue>) -> Seq<(Seq<char>, AttrValue)>;

/// The network graph: populations, connections, probes and an
/// insertion-ordered attribute table used as a side channel between passes.
pub struct Graph {
    pub name: String,
    pub populations: Vec<Population>,
    pub connections: Vec<Connection>,
    pub probes: Vec<Probe>,
    pub dialect: Option<Dialect>,
    pub attributes: IndexMap<String, AttrValue>,
}

/// Relies on `IndexMap::new`: a new map holds no entries.
#[verifier::external_body]
fn attr_table_new() -> (r: IndexMap<String, AttrValue>)
    ensures
        attr_entries(r) == Seq::<(Seq<char>, AttrValue)>::empty(),
{
    IndexMap::new()
}

/// Relies on `IndexMap::insert`: an existing key keeps its place and takes the
/// new value, a new key is appended last.
#[verifier::external_body]
pub(crate) fn attr_table_insert(m: &mut IndexMap<String, AttrValue>, k: String, v: AttrValue)
    ensures
        attr_entries(*final(m)) == attr_inserted(attr_entries(*old(m)), k@, v),
{
    m.insert(k, v);
}

/// Relies on `IndexMap::get`: the value stored under the key, if any.
#[verifier::external_body]
pub(crate) fn attr_table_get<'a>(m: &'a IndexMap<String, AttrValue>, k: &str) -> (r: Option<&'a AttrValue>)
    ensures
        match r {
            Some(v) => attr_lookup(attr_entries(*m), k@) == Some(*v),
            None => attr_lookup(attr_entries(*m), k@) is None,
        },
{
    m.get(k)
}

/// An attribute value with each report as its view.
pub enum AttrView {
    Text(Seq<char>),
    Partition(PartitionView),
    Placement(PlacementView),
    Routing(RoutingView),
    Timing(TimingView),
    ResourceCheck(ResourceView),
    RvKernels(RvKernelsReport),
    RvLayout(RvLayoutReport),
    RvSchedule(RvScheduleReport),
    RvVectorize(RvVectorizeReport),
    RvBareTuning(RvBareTuningReport),
    RvControlPlane(RvControlPlaneReport),
}

impl View for AttrValue {
    type V = AttrView;

    open spec fn view(&self) -> AttrView {
        match self {
            AttrValue::Text(t) => AttrView::Text(t@),
            AttrValue::Partition(r) => AttrView::Partition(r@),
            AttrValue::Placement(r) => AttrView::Placement(r@),
            AttrValue::Routing(r) => AttrView::Routing(r@),
            AttrValue::Timing(r) => AttrView::Timing(r@),
            AttrValue::ResourceCheck(r) => AttrView::ResourceCheck(r@),
            AttrValue::RvKernels(r) => AttrView::RvKernels(*r),
            AttrValue::RvLayout(r) => AttrView::RvLayout(*r),
            AttrValue::RvSchedule(r) => AttrView::RvSchedule(*r),
            AttrValue::RvVectorize(r) => AttrView::RvVectorize(*r),
            AttrValue::RvBareTuning(r) => AttrView::RvBareTuning(*r),
            AttrValue::RvControlPlane(r) => AttrView::RvControlPlane(*r),
        }
    }
}

/// A graph's attribute table, entry by entry, with values as views.
pub open spec fn attrs_view(g: &Graph) -> Seq<(Seq<char>, AttrView)> {
    attr_entries(g.attributes).map_values(|e: (Seq<char>, AttrValue)| (e.0, e.1@))
}

proof fn lemma_key_index_from_view(e: Seq<(Seq<char>, AttrValue)>, k: Seq<char>, i: int)
    requires
        0 <= i <= e.len(),
    ensures
        key_index_from(e.map_values(|x: (Seq<char>, AttrValue)| (x.0, x.1@)), k, i) == key_index_from(e, k, i),
    decreases e.len() - i,
{
    if i < e.len() {
        lemma_key_index_from_view(e, k, i + 1);
    }
}

/// Storing a value and then taking views is taking views and then storing the value's view.
pub proof fn lemma_attr_inserted_view(e: Seq<(Seq<char>, AttrValue)>, k: Seq<char>, v: AttrValue)
    ensures
        attr_inserted(e, k, v).map_values(|x: (Seq<char>, AttrValue)| (x.0, x.1@))
            == attr_inserted(e.map_values(|x: (Seq<char>, AttrValue)| (x.0, x.1@)), k, v@),
{
    lemma_key_index_from_view(e, k, 0);
    assert(attr_inserted(e, k, v).map_values(|x: (Seq<char>, AttrValue)| (x.0, x.1@))
        =~= attr_inserted(e.map_values(|x: (Seq<char>, AttrValue)| (x.0, x.1@)), k, v@));
}

/// Looking up in the views is viewing what is looked up.
pub proof fn lemma_attr_lookup_view(g: &Graph, k: Seq<char>)
    ensures
        attr_lookup(attrs_view(g), k) == match attr_lookup(attr_entries(g.attributes), k) {
            Some(v) => Some(v@),
            None => None::<AttrView>,
        },
{
    let e = attr_entries(g.attributes);
    lemma_key_index_from_view(e, k, 0);
    lemma_key_index_from_bounds(e, k, 0);
}

impl Graph {
    /// An empty graph with the given name.
    pub fn new(name: &str) -> (g: Graph)
        ensures
            g.name@ == name@,
            g.populations@.len() == 0,
            g.connections@.len() == 0,
            g.probes@.len() == 0,
            g.dialect.is_none(),
            attr_entries(g.attributes).len() == 0,
    {
        Graph {
            name: name.to_string(),
            populations: Vec::new(),
            connections: Vec::new(),
            probes: Vec::new(),
            dialect: None,
            attributes: attr_table_new(),
        }
    }
}

/// What is wrong with a graph that fails validation, with the offending names.
pub enum GraphDefect {
    EmptyPopulationName,
    DuplicatePopulation(String),
    ZeroSize(String),
    MissingModel(String),
    UnknownPre(String),
    UnknownPost(String),
    NonFiniteWeight(String, String),
    InvalidDelay(String, String),
    EmptyProbeKind,
    UnknownProbeTarget(String),
}

/// The same defect, with each name as its characters.
pub enum DefectView {
    EmptyPopulationName,
    DuplicatePopulation(Seq<char>),
    ZeroSize(Seq<char>),
    MissingModel(Seq<char>),
    UnknownPre(Seq<char>),
    UnknownPost(Seq<char>),
    NonFiniteWeight(Seq<char>, Seq<char>),
    InvalidDelay(Seq<char>, Seq<char>),
    EmptyProbeKind,
    UnknownProbeTarget(Seq<char>),
}

impl View for GraphDefect {
    type V = DefectView;

    open spec fn view(&self) -> DefectView {
        match self {
            GraphDefect::EmptyPopulationName => DefectView::EmptyPopulationName,
            GraphDefect::DuplicatePopulation(n) => DefectView::DuplicatePopulation(n@),
            GraphDefect::ZeroSize(n) => DefectView::ZeroSize(n@),
            GraphDefect::MissingModel(n) => DefectView::MissingModel(n@),
            GraphDefect::UnknownPre(n) => DefectView::UnknownPre(n@),
            GraphDefect::UnknownPost(n) => DefectView::UnknownPost(n@),
            GraphDefect::NonFiniteWeight(a, b) => DefectView::NonFiniteWeight(a@, b@),
            GraphDefect::InvalidDelay(a, b) => DefectView::InvalidDelay(a@, b@),
            GraphDefect::EmptyProbeKind => DefectView::EmptyProbeKind,
            GraphDefect::UnknownProbeTarget(n) => DefectView::UnknownProbeTarget(n@),
        }
    }
}

/// A failed structural validation of a graph.
pub struct ValidationError(pub GraphDefect);

/// `a`, then `b`, then `c`.
fn joined(a: &str, b: &str, c: &str) -> (r: String)
    ensures
        r@ == a@ + b@ + c@,
{
    let mut s = a.to_string();
    s.append(b);
    s.append(c);
    s
}

impl ValidationError {
    /// What is wrong, naming the offending population, connection or probe.
    pub fn message(&self) -> (r: String)
        ensures
            match self.0 {
                GraphDefect::EmptyPopulationName => r@ == "population name cannot be empty"@,
                GraphDefect::DuplicatePopulation(n) => r@ == "duplicate population '"@ + n@ + "'"@,
                GraphDefect::ZeroSize(n) => r@ == "population '"@ + n@ + "' has size 0"@,
                GraphDefect::MissingModel(n) => r@ == "population '"@ + n@ + "' missing model"@,
                GraphDefect::UnknownPre(n) => r@ == "connection pre '"@ + n@ + "' not found"@,
                GraphDefect::UnknownPost(n) => r@ == "connection post '"@ + n@ + "' not found"@,
                GraphDefect::NonFiniteWeight(a, b) => r@ == "connection "@ + a@ + "->"@ + b@ + " has non-finite weight"@,
                GraphDefect::InvalidDelay(a, b) => r@ == "connection "@ + a@ + "->"@ + b@ + " has an invalid delay"@,
                GraphDefect::EmptyProbeKind => r@ == "probe kind cannot be empty"@,
                GraphDefect::UnknownProbeTarget(n) => r@ == "probe target '"@ + n@ + "' not found among populations"@,
            },
    {
        match &self.0 {
            GraphDefect::EmptyPopulationName => "population name cannot be empty".to_string(),
            GraphDefect::DuplicatePopulation(n) => joined("duplicate population '", n.as_str(), "'"),
            GraphDefect::ZeroSize(n) => joined("population '", n.as_str(), "' has size 0"),
            GraphDefect::MissingModel(n) => joined("population '", n.as_str(), "' missing model"),
            GraphDefect::UnknownPre(n) => joined("connection pre '", n.as_str(), "' not found"),
            GraphDefect::UnknownPost(n) => joined("connection post '", n.as_str(), "' not found"),
            GraphDefect::NonFiniteWeight(a, b) => joined("connection ", a.as_str(), "->").concat(b.as_str()).concat(" has non-finite weight"),
            GraphDefect::InvalidDelay(a, b) => joined("connection ", a.as_str(), "->").concat(b.as_str()).concat(" has an invalid delay"),
            GraphDefect::EmptyProbeKind => "probe kind cannot be empty".to_string(),
            GraphDefect::UnknownProbeTarget(n) => joined("probe target '", n.as_str(), "' not found among populations"),
        }
    }
}

/// What `str::trim` leaves of a string.
pub uninterp spec fn trimmed(s: Seq<char>) -> Seq<char>;

/// Relies on `str::trim`: the string without leading and trailing whitespace.
#[verifier::external_body]
pub(crate) fn trim_str(s: &str) -> (r: &str)
    ensures
        r@ == trimmed(s@),
{
    s.trim()
}

/// Relies on `str`'s `==`: equal exactly when the characters are equal.
#[verifier::external_body]
pub(crate) fn same_text(a: &str, b: &str) -> (r: bool)
    ensures
        r == (a@ == b@),
{
    a == b
}

/// A string that is empty once surrounding whitespace is removed.
pub open spec fn blank(s: Seq<char>) -> bool {
    trimmed(s).len() == 0
}

pub(crate) fn is_blank(s: &String) -> (r: bool)
    ensures
        r == blank(s@),
{
    trim_str(s.as_str()).is_empty()
}

/// Some population of the list carries this name.
pub open spec fn names_population(pops: Seq<Population>, name: Seq<char>) -> bool {
    exists|i: int| 0 <= i < pops.len() && #[trigger] pops[i].name@ == name
}

/// The defect of population `i`, given that those before it are sound.
pub open spec fn population_defect(pops: Seq<Population>, i: int) -> Option<DefectView> {
    let p = pops[i];
    if blank(p.name@) {
        Some(DefectView::EmptyPopulationName)
    } else if names_population(pops.take(i), p.name@) {
        Some(DefectView::DuplicatePopulation(p.name@))
    } else if p.size == 0 {
        Some(DefectView::ZeroSize(p.name@))
    } else if blank(p.model@) {
        Some(DefectView::MissingModel(p.name@))
    } else {
        None
    }
}

/// A delay that is finite and not negative.
pub open spec fn valid_delay(d: Fixed) -> bool {
    match d {
        Fixed::Finite(v) => v >= 0,
        Fixed::NonFinite => false,
    }
}

/// The defect of a connection among the given populations.
pub open spec fn connection_defect(pops: Seq<Population>, c: Connection) -> Option<DefectView> {
    if !names_population(pops, c.pre@) {
        Some(DefectView::UnknownPre(c.pre@))
    } else if !names_population(pops, c.post@) {
        Some(DefectView::UnknownPost(c.post@))
    } else if c.weight is NonFinite {
        Some(DefectView::NonFiniteWeight(c.pre@, c.post@))
    } else if !valid_delay(c.delay_ms) {
        Some(DefectView::InvalidDelay(c.pre@, c.post@))
    } else {
        None
    }
}

/// The defect of a probe among the given populations.
pub open spec fn probe_defect(pops: Seq<Population>, pr: Probe) -> Option<DefectView> {
    if blank(pr.kind@) {
        Some(DefectView::EmptyProbeKind)
    } else if !names_population(pops, pr.target@) {
        Some(DefectView::UnknownProbeTarget(pr.target@))
    } else {
        None
    }
}

/// The first defect among the first `n` populations.
pub open spec fn first_population_defect(pops: Seq<Population>, n: int) -> Option<DefectView>
    decreases n,
{
    if n <= 0 {
        None
    } else {
        match first_population_defect(pops, n - 1) {
            Some(d) => Some(d),
            None => population_defect(pops, n - 1),
        }
    }
}

/// The first defect among the first `n` connections.
pub open spec fn first_connection_defect(pops: Seq<Population>, cs: Seq<Connection>, n: int) -> Option<DefectView>
    decreases n,
{
    if n <= 0 {
        None
    } else {
        match first_connection_defect(pops, cs, n - 1) {
            Some(d) => Some(d),
            None => connection_defect(pops, cs[n - 1]),
        }
    }
}

/// The first defect among the first `n` probes.
pub open spec fn first_probe_defect(pops: Seq<Population>, ps: Seq<Probe>, n: int) -> Option<DefectView>
    decreases n,
{
    if n <= 0 {
        None
    } else {
        match first_probe_defect(pops, ps, n - 1) {
            Some(d) => Some(d),
            None => probe_defect(pops, ps[n - 1]),
        }
    }
}

/// The first defect that validation meets: populations first, then
/// connections, then probes, each list in order.
pub open spec fn graph_defect(g: &Graph) -> Option<DefectView> {
    let pops = g.populations@;
    match first_population_defect(pops, pops.len() as int) {
        Some(d) => Some(d),
        None => match first_connection_defect(pops, g.connections@, g.connections@.len() as int) {
            Some(d) => Some(d),
            None => first_probe_defect(pops, g.probes@, g.probes@.len() as int),
        },
    }
}

/// A graph that passes structural validation.
pub open spec fn valid_graph(g: &Graph) -> bool {
    graph_defect(g) is None
}

proof fn lemma_population_defect_stays(pops: Seq<Population>, n: int, m: int)
    requires
        0 <= n <= m,
        first_population_defect(pops, n) is Some,
    ensures
        first_population_defect(pops, m) == first_population_defect(pops, n),
    decreases m - n,
{
    if n < m {
        lemma_population_defect_stays(pops, n, m - 1);
    }
}

proof fn lemma_connection_defect_stays(pops: Seq<Population>, cs: Seq<Connection>, n: int, m: int)
    requires
        0 <= n <= m,
        first_connection_defect(pops, cs, n) is Some,
    ensures
        first_connection_defect(pops, cs, m) == first_connection_defect(pops, cs, n),
    decreases m - n,
{
    if n < m {
        lemma_connection_defect_stays(pops, cs, n, m - 1);
    }
}

proof fn lemma_probe_defect_stays(pops: Seq<Population>, ps: Seq<Probe>, n: int, m: int)
    requires
        0 <= n <= m,
        first_probe_defect(pops, ps, n) is Some,
    ensures
        first_probe_defect(pops, ps, m) == first_probe_defect(pops, ps, n),
    decreases m - n,
{
    if n < m {
        lemma_probe_defect_stays(pops, ps, n, m - 1);
    }
}

proof fn lemma_no_population_defect(pops: Seq<Population>, n: int, j: int)
    requires
        0 <= j < n,
        first_population_defect(pops, n) is None,
    ensures
        population_defect(pops, j) is None,
    decreases n,
{
    if j < n - 1 {
        lemma_no_population_defect(pops, n - 1, j);
    }
}

/// In a valid graph no two populations share a name.
pub proof fn lemma_valid_names_unique(g: &Graph)
    requires
        valid_graph(g),
    ensures
        forall|i: int, j: int|
            0 <= i < g.populations@.len() && 0 <= j < g.populations@.len() && i != j
                ==> #[trigger] g.populations@[i].name@ != #[trigger] g.populations@[j].name@,
{
    let pops = g.populations@;
    assert forall|i: int, j: int|
        0 <= i < pops.len() && 0 <= j < pops.len() && i != j
            implies #[trigger] pops[i].name@ != #[trigger] pops[j].name@ by {
        let (a, b) = if i < j { (i, j) } else { (j, i) };
        lemma_no_population_defect(pops, pops.len() as int, b);
        if pops[a].name@ == pops[b].name@ {
            assert(pops.take(b)[a] == pops[a]);
            assert(names_population(pops.take(b), pops[b].name@));
        }
    }
}

proof fn lemma_no_connection_defect(pops: Seq<Population>, cs: Seq<Connection>, n: int, j: int)
    requires
        0 <= j < n,
        first_connection_defect(pops, cs, n) is None,
    ensures
        connection_defect(pops, cs[j]) is None,
    decreases n,
{
    if j < n - 1 {
        lemma_no_connection_defect(pops, cs, n - 1, j);
    }
}

/// A graph with two populations of one name, or with a connection whose end
/// names no population, fails validation. (Which defect is reported is the
/// first in validation order: see `graph_defect`.)
pub proof fn lemma_defective_graphs_fail(g: &Graph)
    requires
        (exists|i: int, j: int|
            0 <= i < j < g.populations@.len() && #[trigger] g.populations@[i].name@ == #[trigger] g.populations@[j].name@)
        || (exists|c: int| 0 <= c < g.connections@.len() && !(names_population(g.populations@, #[trigger] g.connections@[c].pre@)
            && names_population(g.populations@, g.connections@[c].post@))),
    ensures
        !valid_graph(g),
{
    if valid_graph(g) {
        lemma_valid_names_unique(g);
        if exists|c: int| 0 <= c < g.connections@.len() && !(names_population(g.populations@, #[trigger] g.connections@[c].pre@)
            && names_population(g.populations@, g.connections@[c].post@)) {
            let c = choose|c: int| 0 <= c < g.connections@.len() && !(names_population(g.populations@, #[trigger] g.connections@[c].pre@)
                && names_population(g.populations@, g.connections@[c].post@));
            lemma_no_connection_defect(g.populations@, g.connections@, g.connections@.len() as int, c);
        }
    }
}

/// Whether a population in `pops` carries the name `name`.
fn find_population(pops: &Vec<Population>, name: &String) -> (r: bool)
    ensures
        r == names_population(pops@, name@),
{
    let mut i: usize = 0;
    while i < pops.len()
        invariant
            i <= pops@.len(),
            forall|j: int| 0 <= j < i ==> pops@[j].name@ != name@,
        decreases pops@.len() - i,
    {
        if pops[i].name == *name {
            return true;
        }
        i += 1;
    }
    false
}

fn population_check(pops: &Vec<Population>, i: usize) -> (r: Option<GraphDefect>)
    requires
        i < pops@.len(),
    ensures
        match r {
            Some(d) => population_defect(pops@, i as int) == Some(d@),
            None => population_defect(pops@, i as int) is None,
        },
{
    let p = &pops[i];
    if is_blank(&p.name) {
        return Some(GraphDefect::EmptyPopulationName);
    }
    let mut j: usize = 0;
    while j < i
        invariant
            j <= i < pops@.len(),
            p == pops@[i as int],
            !blank(p.name@),
            forall|k: int| 0 <= k < j ==> pops@[k].name@ != p.name@,
        decreases i - j,
    {
        if pops[j].name == p.name {
            assert(pops@.take(i as int)[j as int] == pops@[j as int]);
            assert(pops@.take(i as int)[j as int].name@ == p.name@);
            return Some(GraphDefect::DuplicatePopulation(p.name.clone()));
        }
        j += 1;
    }
    assert(!names_population(pops@.take(i as int), p.name@)) by {
        assert forall|k: int| 0 <= k < i implies #[trigger] pops@.take(i as int)[k].name@ != p.name@ by {
            assert(pops@.take(i as int)[k] == pops@[k]);
        }
    }
    if p.size == 0 {
        return Some(GraphDefect::ZeroSize(p.name.clone()));
    }
    if is_blank(&p.model) {
        return Some(GraphDefect::MissingModel(p.name.clone()));
    }
    None
}

fn connection_check(pops: &Vec<Population>, c: &Connection) -> (r: Option<GraphDefect>)
    ensures
        match r {
            Some(d) => connection_defect(pops@, *c) == Some(d@),
            None => connection_defect(pops@, *c) is None,
        },
{
    if !find_population(pops, &c.pre) {
        return Some(GraphDefect::UnknownPre(c.pre.clone()));
    }
    if !find_population(pops, &c.post) {
        return Some(GraphDefect::UnknownPost(c.post.clone()));
    }
    match c.weight {
        Fixed::NonFinite => {
            return Some(GraphDefect::NonFiniteWeight(c.pre.clone(), c.post.clone()));
        },
        Fixed::Finite(_) => {},
    }
    match c.delay_ms {
        Fixed::Finite(v) => {
            if v < 0 {
                return Some(GraphDefect::InvalidDelay(c.pre.clone(), c.post.clone()));
            }
        },
        Fixed::NonFinite => {
            return Some(GraphDefect::InvalidDelay(c.pre.clone(), c.post.clone()));
        },
    }
    None
}

fn probe_check(pops: &Vec<Population>, pr: &Probe) -> (r: Option<GraphDefect>)
    ensures
        match r {
            Some(d) => probe_defect(pops@, *pr) == Some(d@),
            None => probe_defect(pops@, *pr) is None,
        },
{
    if is_blank(&pr.kind) {
        return Some(GraphDefect::EmptyProbeKind);
    }
    if !find_population(pops, &pr.target) {
        return Some(GraphDefect::UnknownProbeTarget(pr.target.clone()));
    }
    None
}

impl Graph {
    /// Checks the structural integrity of the graph and stops at the first defect:
    /// population names non-blank and unique, sizes positive, models non-blank;
    /// connection endpoints declared, weights finite, delays finite and not negative;
    /// probe kinds non-blank and probe targets declared.
    pub fn validate(&self) -> (r: Result<(), ValidationError>)
        ensures
            r is Ok <==> valid_graph(self),
            r matches Err(e) ==> graph_defect(self) == Some(e.0@),
    {
        let pops = &self.populations;
        let mut i: usize = 0;
        while i < pops.len()
            invariant
                i <= pops@.len(),
                pops@ == self.populations@,
                first_population_defect(pops@, i as int) is None,
            decreases pops@.len() - i,
        {
            match population_check(pops, i) {
                Some(d) => {
                    assert(first_population_defect(pops@, i + 1) == Some(d@));
                    proof {
                        lemma_population_defect_stays(pops@, i + 1, pops@.len() as int);
                    }
                    return Err(ValidationError(d));
                },
                None => {},
            }
            i += 1;
        }
        let cs = &self.connections;
        let mut k: usize = 0;
        while k < cs.len()
            invariant
                k <= cs@.len(),
                pops@ == self.populations@,
                cs@ == self.connections@,
                first_population_defect(pops@, pops@.len() as int) is None,
                first_connection_defect(pops@, cs@, k as int) is None,
            decreases cs@.len() - k,
        {
            match connection_check(pops, &cs[k]) {
                Some(d) => {
                    assert(first_connection_defect(pops@, cs@, k + 1) == Some(d@));
                    proof {
                        lemma_connection_defect_stays(pops@, cs@, k + 1, cs@.len() as int);
                    }
                    return Err(ValidationError(d));
                },
                None => {},
            }
            k += 1;
        }
        let ps = &self.probes;
        let mut m: usize = 0;
        while m < ps.len()
            invariant
                m <= ps@.len(),
                pops@ == self.populations@,
                cs@ == self.connections@,
                ps@ == self.probes@,
                first_population_defect(pops@, pops@.len() as int) is None,
                first_connection_defect(pops@, cs@, cs@.len() as int) is None,
                first_probe_defect(pops@, ps@, m as int) is None,
            decreases ps@.len() - m,
        {
            match probe_check(pops, &ps[m]) {
                Some(d) => {
                    assert(first_probe_defect(pops@, ps@, m + 1) == Some(d@));
                    proof {
                        lemma_probe_defect_stays(pops@, ps@, m + 1, ps@.len() as int);
                    }
                    return Err(ValidationError(d));
                },
                None => {},
            }
            m += 1;
        }
        Ok(())
    }
}

impl Graph {
    /// Stores the format version under "nir_version" unless some value is already there.
    pub fn ensure_version_tag(&mut self)
        ensures
            same_graph_but_attributes(old(self), final(self)),
            attr_lookup(attr_entries(old(self).attributes), "nir_version"@) is Some
                ==> attr_entries(final(self).attributes) == attr_entries(old(self).attributes),
            attr_lookup(attr_entries(old(self).attributes), "nir_version"@) is None
                ==> attrs_view(final(self)) == attr_inserted(attrs_view(old(self)), "nir_version"@, AttrView::Text(VERSION@)),
    {
        if attr_table_get(&self.attributes, "nir_version").is_none() {
            let v = AttrValue::Text(VERSION.to_string());
            proof {
                lemma_attr_inserted_view(attr_entries(self.attributes), "nir_version"@, v);
            }
            attr_table_insert(&mut self.attributes, "nir_version".to_string(), v);
        }
    }
}

/// Everything but the attribute table is the same.
pub open spec fn same_graph_but_attributes(a: &Graph, b: &Graph) -> bool {
    &&& a.name == b.name
    &&& a.populations == b.populations
    &&& a.connections == b.connections
    &&& a.probes == b.probes
    &&& a.dialect == b.dialect
}

pub const VERSION: &'static str = "0.0.1";

} // verus!
