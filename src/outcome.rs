//! Simulated test results: a forced failure for a logical conflict, otherwise
//! a flaky pass with a configured failure probability.
use vstd::prelude::*;
use crate::bridge::random_below;
use crate::distribution::SCALE;

verus! {

/// The result of a test run given the draw, both in probability units:
/// outside a merge it passes; inside a merge a conflict marker fails it;
/// otherwise it passes exactly when the draw exceeds the flake rate.
pub open spec fn passes(is_merge: bool, marker_exists: bool, draw: u64, flake_rate: u64) -> bool {
    !is_merge || (!marker_exists && draw > flake_rate)
}

/// The decision once the draw is known.
pub fn outcome_for_draw(is_merge: bool, marker_exists: bool, draw: u64, flake_rate: u64) -> (r: bool)
    ensures
        r == passes(is_merge, marker_exists, draw, flake_rate),
{
    if !is_merge {
        return true;
    }
    if marker_exists {
        return false;
    }
    draw > flake_rate
}

/// Evaluates one simulated test run. `flake_rate` is the failure probability in
/// units of `1 / SCALE`, in (0, 1]. A random draw in `[0, 1)` is taken only
/// inside a merge without a conflict marker.
pub fn evaluate(is_merge: bool, marker_exists: bool, flake_rate: u64) -> (r: bool)
    requires
        0 < flake_rate <= SCALE,
    ensures
        !is_merge ==> r,
        is_merge && marker_exists ==> !r,
        r ==> exists|draw: u64| draw < SCALE && passes(is_merge, marker_exists, draw, flake_rate),
        !r ==> exists|draw: u64| draw < SCALE && !passes(is_merge, marker_exists, draw, flake_rate),
        flake_rate == SCALE ==> r == !is_merge,
{
    if !is_merge || marker_exists {
        let r = outcome_for_draw(is_merge, marker_exists, 0, flake_rate);
        assert(passes(is_merge, marker_exists, 0, flake_rate) == r);
        return r;
    }
    let draw = random_below(SCALE);
    outcome_for_draw(is_merge, marker_exists, draw, flake_rate)
}

} // verus!
