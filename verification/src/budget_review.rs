//! Budget pacing statuses and their rollup counts.
//!
//! Each budgeted expense category is paced against a straight-line burn of
//! its budget; the pacing itself compares money amounts outside the library.
//! The rollup counts how many categories ended in each status.

use vstd::prelude::*;

verus! {

/// Pace of one category relative to a straight-line burn of its budget.
#[derive(Debug, Clone, Copy, PartialEq, Eq, Structural)]
pub enum PaceStatus {
    /// Spending is below the lower tolerance bound.
    Under,
    /// Spending is within the tolerance band around the pace.
    OnTrack,
    /// Spending exceeds the upper tolerance bound but not yet the budget.
    Over,
    /// Spending has met or exceeded the full budget.
    OverBudget,
}

/// How many categories ended in each pace status.
#[derive(Debug, Clone, Copy, PartialEq, Eq, Structural)]
pub struct PaceCounts {
    pub on_track_count: usize,
    pub over_count: usize,
    pub over_budget_count: usize,
    pub under_count: usize,
}

/// How many of the first `n` statuses equal `s`.
pub open spec fn count_status(statuses: Seq<PaceStatus>, s: PaceStatus, n: int) -> nat
    decreases n,
{
    if n <= 0 {
        0
    } else {
        count_status(statuses, s, n - 1) + if statuses[n - 1] == s {
            1nat
        } else {
            0nat
        }
    }
}

/// Count the categories in each pace status.
pub fn pace_counts(statuses: &[PaceStatus]) -> (r: PaceCounts)
    ensures
        r.on_track_count == count_status(statuses@, PaceStatus::OnTrack, statuses@.len() as int),
        r.over_count == count_status(statuses@, PaceStatus::Over, statuses@.len() as int),
        r.over_budget_count == count_status(statuses@, PaceStatus::OverBudget, statuses@.len() as int),
        r.under_count == count_status(statuses@, PaceStatus::Under, statuses@.len() as int),
{
    let mut r = PaceCounts { on_track_count: 0, over_count: 0, over_budget_count: 0, under_count: 0 };
    let mut i: usize = 0;
    while i < statuses.len()
        invariant
            0 <= i <= statuses.len(),
            r.on_track_count == count_status(statuses@, PaceStatus::OnTrack, i as int),
            r.over_count == count_status(statuses@, PaceStatus::Over, i as int),
            r.over_budget_count == count_status(statuses@, PaceStatus::OverBudget, i as int),
            r.under_count == count_status(statuses@, PaceStatus::Under, i as int),
            r.on_track_count + r.over_count + r.over_budget_count + r.under_count == i,
        decreases statuses.len() - i,
    {
        match statuses[i] {
            PaceStatus::OnTrack => r.on_track_count = r.on_track_count + 1,
            PaceStatus::Over => r.over_count = r.over_count + 1,
            PaceStatus::OverBudget => r.over_budget_count = r.over_budget_count + 1,
            PaceStatus::Under => r.under_count = r.under_count + 1,
        }
        i = i + 1;
    }
    r
}

/// Every category is counted exactly once: the four counts add up to the
/// number of categories.
pub proof fn law_pace_counts_cover_every_category(statuses: Seq<PaceStatus>, n: int)
    requires
        0 <= n <= statuses.len(),
    ensures
        count_status(statuses, PaceStatus::OnTrack, n) + count_status(statuses, PaceStatus::Over, n)
            + count_status(statuses, PaceStatus::OverBudget, n) + count_status(
            statuses,
            PaceStatus::Under,
            n,
        ) == n,
    decreases n,
{
    if n > 0 {
        law_pace_counts_cover_every_category(statuses, n - 1);
    }
}

} // verus!
