//! The guard that a fresh dataset passes before a cycle may use it.

use crate::element::OverpassElement;
use vstd::prelude::*;

verus! {

/// The number of records below which a dataset is held to be truncated.
pub const MIN_PLAUSIBLE_ELEMENTS: usize = 5000;

/// Why a fresh dataset is not used.
#[derive(Clone, Copy, Debug, PartialEq, Eq, Structural)]
pub enum Rejection {
    /// The dataset holds `found` records, fewer than the `minimum` that a
    /// sound one has.
    TooSmall { found: usize, minimum: usize },
}

/// Accepts a dataset that holds at least `minimum` records, and rejects every
/// other, saying how many it found.
pub fn validate(fresh: &Vec<OverpassElement>, minimum: usize) -> (verdict: Result<(), Rejection>)
    ensures
        verdict is Ok <==> fresh@.len() >= minimum,
        verdict is Err ==> verdict == Err::<(), Rejection>(
            Rejection::TooSmall { found: fresh@.len() as usize, minimum },
        ),
{
    if fresh.len() < minimum {
        Err(Rejection::TooSmall { found: fresh.len(), minimum })
    } else {
        Ok(())
    }
}

} // verus!
