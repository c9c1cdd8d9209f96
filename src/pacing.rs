//! Turning a target rate, or a burst size, into a number of requests and the
//! pause between them.
use vstd::prelude::*;

verus! {

/// Seconds in an hour.
pub const SECS_PER_HOUR: u64 = 3600;

#[derive(Clone, Copy, Debug, PartialEq, Eq, Structural)]
pub enum PacingMode {
    /// A fixed number of requests, back to back.
    Burst,
    /// Requests spread over a window at a rate per hour.
    RateOverWindow,
}

/// How many requests one generation run makes and how long it waits between them.
#[derive(Clone, Copy, Debug, PartialEq, Eq, Structural)]
pub struct PacingPlan {
    pub request_count: usize,
    pub interval_seconds: u64,
    pub mode: PacingMode,
}

pub open spec fn ceil_div(a: nat, b: nat) -> nat
    recommends
        b > 0,
{
    ((a + b - 1) / (b as int)) as nat
}

/// Requests made at `per_hour` over `window_secs` seconds: `ceil(per_hour * window_secs / 3600)`.
pub open spec fn rate_count(per_hour: u32, window_secs: u64) -> nat {
    ceil_div(per_hour as nat * window_secs as nat, SECS_PER_HOUR as nat)
}

/// The plan for the given configuration.
pub open spec fn plan_spec(requests_per_run: u32, requests_per_hour: u32, window_secs: u64) -> PacingPlan {
    if requests_per_run > 0 {
        PacingPlan { request_count: requests_per_run as usize, interval_seconds: 1, mode: PacingMode::Burst }
    } else {
        let count = rate_count(requests_per_hour, window_secs);
        PacingPlan {
            request_count: count as usize,
            interval_seconds: if count == 0 { 0 } else { ceil_div(window_secs as nat, count) as u64 },
            mode: PacingMode::RateOverWindow,
        }
    }
}

/// Burst mode (`requests_per_run > 0`) makes `requests_per_run` requests one
/// second apart. Otherwise `requests_per_hour` is spread over the window of
/// `window_secs` seconds: `ceil(requests_per_hour * window_secs / 3600)`
/// requests, `ceil(window_secs / count)` seconds apart; with no requests the
/// interval is zero and the run does nothing.
pub fn plan(requests_per_run: u32, requests_per_hour: u32, window_secs: u64) -> (r: PacingPlan)
    requires
        requests_per_run > 0 || rate_count(requests_per_hour, window_secs) <= usize::MAX,
    ensures
        r == plan_spec(requests_per_run, requests_per_hour, window_secs),
{
    if requests_per_run > 0 {
        return PacingPlan { request_count: requests_per_run as usize, interval_seconds: 1, mode: PacingMode::Burst };
    }
    let total = requests_per_hour as u128 * window_secs as u128;
    let count = (total + (SECS_PER_HOUR - 1) as u128) / SECS_PER_HOUR as u128;
    if count == 0 {
        return PacingPlan { request_count: 0, interval_seconds: 0, mode: PacingMode::RateOverWindow };
    }
    let interval = (window_secs as u128 + count - 1) / count;
    assert(interval <= window_secs) by (nonlinear_arith)
        requires
            count >= 1,
            interval == (window_secs + count - 1) / (count as int),
    ;
    PacingPlan { request_count: count as usize, interval_seconds: interval as u64, mode: PacingMode::RateOverWindow }
}

/// Whether the configuration makes no requests at all.
pub open spec fn disabled(requests_per_run: u32, requests_per_hour: u32) -> bool {
    requests_per_run == 0 && requests_per_hour == 0
}

/// A configuration with both counts zero plans no requests.
pub proof fn lemma_disabled_plans_nothing(requests_per_run: u32, requests_per_hour: u32, window_secs: u64)
    requires
        disabled(requests_per_run, requests_per_hour),
    ensures
        plan_spec(requests_per_run, requests_per_hour, window_secs).request_count == 0,
{
}

} // verus!
