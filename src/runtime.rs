//! Deployment lifecycle and adaptive decisions on a running network.

use vstd::prelude::*;
use crate::graph::same_text;

verus! {

/// What to deploy: the target's name.
pub struct DeploySpec {
    pub target: String,
}

pub struct RuntimeStatus {
    pub running: bool,
}

/// Deploys to the named target; there is nothing to refuse without a backend.
pub fn deploy(spec: &DeploySpec) -> (r: Result<(), ApplyError>)
    ensures
        r is Ok,
{
    Ok(())
}

/// Starts the deployed network.
pub fn start() -> (r: Result<(), ApplyError>)
    ensures
        r is Ok,
{
    Ok(())
}

/// Stops the deployed network.
pub fn stop() -> (r: Result<(), ApplyError>)
    ensures
        r is Ok,
{
    Ok(())
}

/// Status of the runtime; nothing runs until a backend starts it.
pub fn status() -> (r: RuntimeStatus)
    ensures
        !r.running,
{
    RuntimeStatus { running: false }
}

pub fn version() -> (r: &'static str)
    ensures
        r@ == "0.0.1"@,
{
    "0.0.1"
}

/// An adaptive decision on a running deployment.
#[derive(Clone, Copy, Debug, PartialEq, Eq, Structural)]
pub enum Decision {
    NoChange,
    Repartition,
    Reschedule,
    Throttle,
}

/// Observed load of a running deployment, in hundredths of a percent.
pub struct ResourceSnapshot {
    pub utilization_centi_pct: u32,
    pub buffer_occupancy_centi_pct: u32,
}

impl ResourceSnapshot {
    pub fn new(utilization_centi_pct: u32, buffer_occupancy_centi_pct: u32) -> (r: ResourceSnapshot)
        ensures
            r.utilization_centi_pct == utilization_centi_pct,
            r.buffer_occupancy_centi_pct == buffer_occupancy_centi_pct,
    {
        ResourceSnapshot { utilization_centi_pct, buffer_occupancy_centi_pct }
    }
}

/// A policy that never asks for a change.
pub struct NoOpPolicy;

impl NoOpPolicy {
    pub fn name(&self) -> &'static str {
        "noop-policy"
    }

    pub fn decide(&self, snapshot: &ResourceSnapshot) -> (r: Decision)
        ensures
            r == Decision::NoChange,
    {
        Decision::NoChange
    }
}

/// Options for applying a decision.
pub struct ApplyOptions {
    /// Key that de-duplicates repeated requests.
    pub idempotency_key: Option<String>,
    /// Record the intent only, without effects.
    pub dry_run: bool,
}

impl ApplyOptions {
    /// No idempotency key, not a dry run.
    pub fn new() -> (r: ApplyOptions)
        ensures
            r.idempotency_key is None,
            !r.dry_run,
    {
        ApplyOptions { idempotency_key: None, dry_run: false }
    }
}

/// Errors of decision application.
pub enum ApplyError {
    InvalidState(&'static str),
    NotSupported(&'static str),
    Backend(String),
}

/// The idempotency keys already applied, owned by the caller.
pub struct IdempotencyRegistry {
    keys: Vec<String>,
}

impl IdempotencyRegistry {
    /// The keys held, as character sequences.
    pub closed spec fn seen(&self) -> Set<Seq<char>> {
        Set::new(|k: Seq<char>| exists|i: int| 0 <= i < self.keys@.len() && #[trigger] self.keys@[i]@ == k)
    }

    pub fn new() -> (r: IdempotencyRegistry)
        ensures
            r.seen() == Set::<Seq<char>>::empty(),
    {
        let r = IdempotencyRegistry { keys: Vec::new() };
        assert(r.seen() =~= Set::<Seq<char>>::empty());
        r
    }

    /// Whether `key` was seen before; records it if not.
    pub fn register_if_new(&mut self, key: &str) -> (seen: bool)
        ensures
            seen == old(self).seen().contains(key@),
            final(self).seen() == old(self).seen().insert(key@),
    {
        let mut i: usize = 0;
        while i < self.keys.len()
            invariant
                i <= self.keys@.len(),
                forall|j: int| 0 <= j < i ==> self.keys@[j]@ != key@,
            decreases self.keys@.len() - i,
        {
            if same_text(self.keys[i].as_str(), key) {
                proof {
                    assert(self.seen().contains(key@));
                    assert(self.seen().insert(key@) =~= self.seen());
                }
                return true;
            }
            i += 1;
        }
        let ghost before = self.seen();
        assert(!before.contains(key@));
        self.keys.push(key.to_string());
        proof {
            assert forall|k: Seq<char>| #[trigger] self.seen().contains(k) <==> before.insert(key@).contains(k) by {
                if before.contains(k) {
                    let j = choose|j: int| 0 <= j < old(self).keys@.len() && #[trigger] old(self).keys@[j]@ == k;
                    assert(self.keys@[j] == old(self).keys@[j]);
                }
                if self.seen().contains(k) {
                    let j = choose|j: int| 0 <= j < self.keys@.len() && #[trigger] self.keys@[j]@ == k;
                    if j < old(self).keys@.len() {
                        assert(self.keys@[j] == old(self).keys@[j]);
                    }
                }
                if k == key@ {
                    assert(self.keys@[self.keys@.len() - 1]@ == key@);
                }
            }
            assert(self.seen() =~= before.insert(key@));
        }
        false
    }
}

/// Applies a decision. A dry run records nothing; a request whose key was
/// applied before does nothing more; every decision is then accepted.
pub fn apply_with_options(decision: &Decision, opts: &ApplyOptions, registry: &mut IdempotencyRegistry) -> (r: Result<(), ApplyError>)
    ensures
        r is Ok,
        opts.dry_run || opts.idempotency_key is None ==> final(registry).seen() == old(registry).seen(),
        opts.idempotency_key matches Some(k) ==> (!opts.dry_run ==> final(registry).seen() == old(registry).seen().insert(k@)),
{
    if opts.dry_run {
        return Ok(());
    }
    if let Some(k) = &opts.idempotency_key {
        if registry.register_if_new(k.as_str()) {
            return Ok(());
        }
    }
    match decision {
        Decision::NoChange => Ok(()),
        Decision::Repartition => Ok(()),
        Decision::Reschedule => Ok(()),
        Decision::Throttle => Ok(()),
    }
}

/// Applies a decision with no idempotency key and no dry run.
pub fn apply(decision: &Decision) -> (r: Result<(), ApplyError>)
    ensures
        r is Ok,
{
    let mut registry = IdempotencyRegistry::new();
    apply_with_options(decision, &ApplyOptions::new(), &mut registry)
}

} // verus!
