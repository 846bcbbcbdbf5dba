//! Cost models and mapping search for the mapping optimiser. Scores and
//! predictions are `Fixed` millionths.

use vstd::prelude::*;
use crate::graph::{Fixed, Graph};

verus! {

pub fn version() -> (r: &'static str)
    ensures
        r@ == "0.0.1"@,
{
    "0.0.1"
}

/// A cost model that predicts nothing: every cost is zero.
pub struct NoOpCostModel;

impl NoOpCostModel {
    /// Predicted latency in milliseconds.
    pub fn predict_latency_ms(&self, graph: &Graph) -> (r: Fixed)
        ensures
            r == Fixed::Finite(0),
    {
        Fixed::Finite(0)
    }

    /// Predicted energy in millijoules.
    pub fn predict_energy_mj(&self, graph: &Graph) -> (r: Fixed)
        ensures
            r == Fixed::Finite(0),
    {
        Fixed::Finite(0)
    }
}

/// A search that always proposes the identity mapping and keeps the last score.
pub struct GreedySearchStub {
    pub last_score: Option<Fixed>,
}

impl GreedySearchStub {
    pub fn new() -> (r: GreedySearchStub)
        ensures
            r.last_score is None,
    {
        GreedySearchStub { last_score: None }
    }

    /// The proposed mapping's name.
    pub fn propose(&mut self, graph: &Graph) -> (r: String)
        ensures
            r@ == "identity"@,
            final(self).last_score == old(self).last_score,
    {
        "identity".to_string()
    }

    /// Records the score of the last proposal.
    pub fn feedback(&mut self, score: Fixed)
        ensures
            final(self).last_score == Some(score),
    {
        self.last_score = Some(score);
    }
}

} // verus!
