//! The generation driver's decisions: which slot comes next, what it carries,
//! and how the request counter advances. The driver performs the work.
use vstd::prelude::*;
use crate::conflict::{injects, should_inject};
use crate::pacing::PacingPlan;

verus! {

/// What became of one slot's request.
#[derive(Clone, Copy, Debug, PartialEq, Eq, Structural)]
pub enum SlotResult {
    /// The request was created.
    Created,
    /// A dry run: nothing was sent, but the request counts as made.
    DryRun,
    /// Creating the request failed; the slot is spent without a request.
    Failed,
}

/// The next request to make.
#[derive(Clone, Copy, Debug, PartialEq, Eq, Structural)]
pub struct Slot {
    /// The number the request will have.
    pub index: u64,
    /// Whether it carries a logical-conflict marker.
    pub inject_conflict: bool,
}

/// The state of one generation run.
#[derive(Clone, Copy, Debug, PartialEq, Eq, Structural)]
pub struct Generator {
    pub plan: PacingPlan,
    /// The number of the latest request.
    pub last_pr: u64,
    /// Slots spent so far.
    pub slot: usize,
}

impl Generator {
    /// A run that follows `plan` after request `last_pr`.
    pub fn new(plan: PacingPlan, last_pr: u64) -> (r: Generator)
        ensures
            r.plan == plan,
            r.last_pr == last_pr,
            r.slot == 0,
    {
        Generator { plan, last_pr, slot: 0 }
    }

    /// The next slot, while the plan has slots left: its request is numbered
    /// `last_pr + 1` and carries a conflict marker as the cadence `every` says.
    pub fn next_slot(&self, every: u32, marker_configured: bool) -> (r: Option<Slot>)
        requires
            self.last_pr < u64::MAX,
        ensures
            self.slot >= self.plan.request_count ==> r is None,
            self.slot < self.plan.request_count ==> r == Some(
                Slot {
                    index: (self.last_pr + 1) as u64,
                    inject_conflict: injects((self.last_pr + 1) as u64, every, marker_configured),
                },
            ),
    {
        if self.slot >= self.plan.request_count {
            return None;
        }
        let index = self.last_pr + 1;
        Some(Slot { index, inject_conflict: should_inject(index, every, marker_configured) })
    }

    /// Spends a slot; a created request, or one of a dry run, advances the counter.
    pub fn record(&mut self, result: SlotResult)
        requires
            old(self).last_pr < u64::MAX,
            old(self).slot < old(self).plan.request_count,
        ensures
            final(self).plan == old(self).plan,
            final(self).slot == old(self).slot + 1,
            final(self).last_pr == if result == SlotResult::Failed {
                old(self).last_pr
            } else {
                (old(self).last_pr + 1) as u64
            },
    {
        self.slot = self.slot + 1;
        if result != SlotResult::Failed {
            self.last_pr = self.last_pr + 1;
        }
    }
}

} // verus!
