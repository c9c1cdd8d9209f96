//! The cadence of injected logical conflicts.
use vstd::prelude::*;

verus! {

pub open spec fn injects(next_index: u64, every: u32, marker_configured: bool) -> bool {
    marker_configured && every != 0 && next_index % (every as u64) == 0
}

/// Whether request `next_index` carries a logical-conflict marker: never when
/// `every` is zero or no marker path is configured, otherwise exactly when
/// `next_index` is a multiple of `every`.
pub fn should_inject(next_index: u64, every: u32, marker_configured: bool) -> (r: bool)
    ensures
        r == injects(next_index, every, marker_configured),
{
    marker_configured && every != 0 && next_index % (every as u64) == 0
}

} // verus!
