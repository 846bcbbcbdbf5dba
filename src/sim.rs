//! Health check of the simulator artifact writers.

use vstd::prelude::*;

verus! {

/// Always "ok": the writers need nothing set up.
pub fn stub() -> (r: &'static str)
    ensures
        r@ == "ok"@,
{
    "ok"
}

} // verus!
