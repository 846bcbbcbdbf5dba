//! Gate of the MLIR lowering.

use vstd::prelude::*;
use crate::graph::Graph;

verus! {

/// Whether the MLIR lowering is built in: it is not in this library.
pub fn is_enabled() -> (r: bool)
    ensures
        !r,
{
    false
}

/// Lowers a graph to MLIR text; without the lowering built in, it always
/// refuses with the reason.
pub fn lower_to_mlir(g: &Graph) -> (r: Result<String, &'static str>)
    ensures
        r is Err,
{
    if !is_enabled() {
        return Err("mlir feature is disabled; build with feature 'mlir'");
    }
    Ok(g.name.clone())
}

} // verus!
