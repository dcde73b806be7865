//! The rules behind failure patterns over remembered runs: what is tallied
//! for a goal, and when its runs count as a repeated failure, an unstable
//! workflow or a series of low-confidence plans.

use vstd::prelude::*;
use crate::aging::{age_days, age_fits, days_between};
use crate::learning::{count_with, members_with};
use crate::memory::{MemoryRecord, MemoryStatus, goal_fingerprint};
use crate::text::string_eq;

verus! {

/// Failures needed for a repeated failure, and low-confidence plans for a
/// low-confidence pattern.
pub const MIN_REPEATED_FAILURES: u64 = 2;

/// Runs needed before a workflow can be called unstable.
pub const MIN_UNSTABLE_SAMPLES: u64 = 3;

/// Planner confidence (per mille) below which a plan is low-confidence.
pub const LOW_CONFIDENCE_PLAN_THRESHOLD: u32 = 400;

/// How recent, in days, a failure must be to count toward a repeated
/// failure.
pub const RECENT_FAILURE_DAYS: i64 = 90;

/// What the runs of one goal fingerprint add up to. Times are nanoseconds
/// since the Unix epoch.
#[derive(Clone, Copy)]
pub struct RunTally {
    pub runs: u64,
    pub successes: u64,
    pub failures: u64,
    /// Some failure happened within [`RECENT_FAILURE_DAYS`].
    pub recent_failure: bool,
    /// When the newest failure happened.
    pub last_failure_at: Option<i128>,
    /// When the newest run happened.
    pub last_run_at: Option<i128>,
    /// Plans below [`LOW_CONFIDENCE_PLAN_THRESHOLD`].
    pub low_confidence_plans: u64,
    /// The sum of those plans' confidences, per mille.
    pub low_confidence_total: u128,
}

/// Whether some failed run happened within [`RECENT_FAILURE_DAYS`] of `now_ms`.
pub open spec fn any_recent_failure(runs: Seq<MemoryRecord>, now_ms: i64) -> bool
    decreases runs.len(),
{
    if runs.len() == 0 {
        false
    } else {
        any_recent_failure(runs.drop_last(), now_ms) || (runs.last().status == MemoryStatus::Failed
            && days_between(runs.last().created_at, now_ms) <= RECENT_FAILURE_DAYS)
    }
}

/// A goal has a recent failure exactly when one of its runs failed and is
/// at most [`RECENT_FAILURE_DAYS`] days old; a run that succeeded or was
/// cancelled never makes it one, however recent.
pub proof fn lemma_recent_failure_is_a_recent_failed_run(runs: Seq<MemoryRecord>, now_ms: i64)
    ensures
        any_recent_failure(runs, now_ms) <==> exists|i: int|
            0 <= i < runs.len() && (#[trigger] runs[i]).status == MemoryStatus::Failed && days_between(
                runs[i].created_at,
                now_ms,
            ) <= RECENT_FAILURE_DAYS,
    decreases runs.len(),
{
    if runs.len() > 0 {
        let rest = runs.drop_last();
        lemma_recent_failure_is_a_recent_failed_run(rest, now_ms);
        if any_recent_failure(runs, now_ms) {
            if any_recent_failure(rest, now_ms) {
                let i = choose|i: int|
                    0 <= i < rest.len() && (#[trigger] rest[i]).status == MemoryStatus::Failed && days_between(
                        rest[i].created_at,
                        now_ms,
                    ) <= RECENT_FAILURE_DAYS;
                assert(runs[i] == rest[i]);
            } else {
                assert(runs[runs.len() - 1] == runs.last());
            }
        } else {
            assert forall|i: int| 0 <= i < runs.len() implies !((#[trigger] runs[i]).status == MemoryStatus::Failed
                && days_between(runs[i].created_at, now_ms) <= RECENT_FAILURE_DAYS) by {
                if i < rest.len() {
                    assert(runs[i] == rest[i]);
                }
            }
        }
    }
}

/// When the newest run with the status `only` (any status for `None`)
/// happened.
pub open spec fn latest_run(runs: Seq<MemoryRecord>, only: Option<MemoryStatus>) -> Option<i128>
    decreases runs.len(),
{
    if runs.len() == 0 {
        None
    } else {
        let earlier = latest_run(runs.drop_last(), only);
        let r = runs.last();
        if only matches Some(s) && r.status != s {
            earlier
        } else {
            match earlier {
                Some(t) => if r.created_at > t {
                    Some(r.created_at)
                } else {
                    earlier
                },
                None => Some(r.created_at),
            }
        }
    }
}

/// Whether a run carries a plan below the confidence threshold.
pub open spec fn low_confidence(r: MemoryRecord) -> bool {
    r.plan matches Some(p) && p.confidence < LOW_CONFIDENCE_PLAN_THRESHOLD
}

/// How many runs carry a low-confidence plan.
pub open spec fn low_confidence_count(runs: Seq<MemoryRecord>) -> nat
    decreases runs.len(),
{
    if runs.len() == 0 {
        0
    } else {
        low_confidence_count(runs.drop_last()) + if low_confidence(runs.last()) {
            1nat
        } else {
            0nat
        }
    }
}

/// The sum of the low-confidence plans' confidences.
pub open spec fn low_confidence_sum(runs: Seq<MemoryRecord>) -> nat
    decreases runs.len(),
{
    if runs.len() == 0 {
        0
    } else {
        low_confidence_sum(runs.drop_last()) + match runs.last().plan {
            Some(p) => if p.confidence < LOW_CONFIDENCE_PLAN_THRESHOLD {
                p.confidence as nat
            } else {
                0nat
            },
            None => 0nat,
        }
    }
}

/// `t` is the tally of `runs` at `now_ms`.
pub open spec fn tallies(t: RunTally, runs: Seq<MemoryRecord>, now_ms: i64) -> bool {
    &&& t.runs == runs.len()
    &&& t.successes == count_with(runs, Some(MemoryStatus::Success), None)
    &&& t.failures == count_with(runs, Some(MemoryStatus::Failed), None)
    &&& t.recent_failure == any_recent_failure(runs, now_ms)
    &&& t.last_failure_at == latest_run(runs, Some(MemoryStatus::Failed))
    &&& t.last_run_at == latest_run(runs, None)
    &&& t.low_confidence_plans == low_confidence_count(runs)
    &&& t.low_confidence_total == low_confidence_sum(runs)
}

proof fn lemma_tally_bounds(runs: Seq<MemoryRecord>)
    ensures
        count_with(runs, Some(MemoryStatus::Success), None) <= runs.len(),
        count_with(runs, Some(MemoryStatus::Failed), None) <= runs.len(),
        low_confidence_count(runs) <= runs.len(),
        low_confidence_sum(runs) <= LOW_CONFIDENCE_PLAN_THRESHOLD * runs.len(),
    decreases runs.len(),
{
    if runs.len() > 0 {
        lemma_tally_bounds(runs.drop_last());
    }
}

/// Tallies the runs of `records` whose goal has the fingerprint
/// `goal_fingerprint_text`.
pub fn run_tally(records: &[MemoryRecord], goal_fingerprint_text: &String, now_ms: i64) -> (t: RunTally)
    requires
        forall|i: int| 0 <= i < records@.len() ==> age_fits(#[trigger] records@[i].created_at, now_ms),
    ensures
        tallies(t, members_with(records@, goal_fingerprint_text@), now_ms),
        t.recent_failure <==> exists|i: int|
            0 <= i < members_with(records@, goal_fingerprint_text@).len() && (#[trigger] members_with(
                records@,
                goal_fingerprint_text@,
            )[i]).status == MemoryStatus::Failed && days_between(
                members_with(records@, goal_fingerprint_text@)[i].created_at,
                now_ms,
            ) <= RECENT_FAILURE_DAYS,
{
    let ghost f = goal_fingerprint_text@;
    let mut t = RunTally {
        runs: 0,
        successes: 0,
        failures: 0,
        recent_failure: false,
        last_failure_at: None,
        last_run_at: None,
        low_confidence_plans: 0,
        low_confidence_total: 0,
    };
    let mut j: usize = 0;
    while j < records.len()
        invariant
            f == goal_fingerprint_text@,
            j <= records@.len(),
            forall|i: int| 0 <= i < records@.len() ==> age_fits(#[trigger] records@[i].created_at, now_ms),
            tallies(t, members_with(records@.take(j as int), f), now_ms),
        decreases records@.len() - j,
    {
        let ghost before = members_with(records@.take(j as int), f);
        proof {
            assert(records@.take(j + 1).drop_last() =~= records@.take(j as int));
            assert(records@.take(j + 1).last() == records@[j as int]);
            crate::learning::lemma_members_len(records@.take(j as int), f);
            lemma_tally_bounds(before);
        }
        let r = &records[j];
        let candidate = goal_fingerprint(r.goal.as_str());
        if string_eq(&candidate, goal_fingerprint_text) {
            proof {
                assert(members_with(records@.take(j + 1), f) == before.push(records@[j as int]));
                assert(before.push(records@[j as int]).drop_last() =~= before);
            }
            t.runs = t.runs + 1;
            match r.status {
                MemoryStatus::Success => {
                    t.successes = t.successes + 1;
                },
                MemoryStatus::Failed => {
                    t.failures = t.failures + 1;
                    if age_days(r, now_ms) <= RECENT_FAILURE_DAYS {
                        t.recent_failure = true;
                    }
                    t.last_failure_at = match t.last_failure_at {
                        Some(at) => if r.created_at > at {
                            Some(r.created_at)
                        } else {
                            Some(at)
                        },
                        None => Some(r.created_at),
                    };
                },
                MemoryStatus::Cancelled => {},
            }
            t.last_run_at = match t.last_run_at {
                Some(at) => if r.created_at > at {
                    Some(r.created_at)
                } else {
                    Some(at)
                },
                None => Some(r.created_at),
            };
            match &r.plan {
                Some(plan) => {
                    if plan.confidence < LOW_CONFIDENCE_PLAN_THRESHOLD {
                        t.low_confidence_plans = t.low_confidence_plans + 1;
                        t.low_confidence_total = t.low_confidence_total + plan.confidence as u128;
                    }
                },
                None => {},
            }
        } else {
            proof {
                assert(members_with(records@.take(j + 1), f) == before);
            }
        }
        j = j + 1;
    }
    proof {
        assert(records@.take(records@.len() as int) =~= records@);
        lemma_recent_failure_is_a_recent_failed_run(members_with(records@, goal_fingerprint_text@), now_ms);
    }
    t
}

/// A repeated failure: at least two failures, more failures than the
/// workflow's successes, and one of them recent.
pub open spec fn is_repeated_failure(t: RunTally, workflow_successes: u64) -> bool {
    t.failures >= MIN_REPEATED_FAILURES && t.failures > workflow_successes && t.recent_failure
}

/// Whether the tally shows a repeated failure.
pub fn repeated_failure_applies(t: &RunTally, workflow_successes: u64) -> (r: bool)
    ensures
        r == is_repeated_failure(*t, workflow_successes),
{
    t.failures >= MIN_REPEATED_FAILURES && t.failures > workflow_successes && t.recent_failure
}

/// An unstable workflow: enough runs, and fewer than half of them
/// succeeded.
pub open spec fn is_unstable(t: RunTally) -> bool {
    t.runs >= MIN_UNSTABLE_SAMPLES && 2 * t.successes < t.runs
}

/// Whether the tally shows an unstable workflow.
pub fn unstable_applies(t: &RunTally) -> (r: bool)
    requires
        t.successes <= t.runs,
    ensures
        r == is_unstable(*t),
{
    t.runs >= MIN_UNSTABLE_SAMPLES && t.successes < t.runs - t.successes
}

/// Low-confidence plans: at least two of the goal's plans carried planner
/// confidence below the threshold.
pub open spec fn is_low_confidence(t: RunTally) -> bool {
    t.low_confidence_plans >= MIN_REPEATED_FAILURES
}

/// Whether the tally shows a series of low-confidence plans.
pub fn low_confidence_applies(t: &RunTally) -> (r: bool)
    ensures
        r == is_low_confidence(*t),
{
    t.low_confidence_plans >= MIN_REPEATED_FAILURES
}

} // verus!
