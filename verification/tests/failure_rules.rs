use copilot_core::aging::{age_days, aging_counts};
use copilot_core::failures::{
    low_confidence_applies, repeated_failure_applies, run_tally, unstable_applies,
};
use copilot_core::learning::learned_workflows;
use copilot_core::memory::{
    goal_fingerprint, MemoryKind, MemoryOutcome, MemoryRecord, MemoryStatus, RetentionPolicy,
};
use copilot_core::plan::{ExecutionPlan, PlanApprovalStatus};

const DAY_MS: i64 = 24 * 60 * 60 * 1000;
const NOW: i64 = 1_700_000_000_000;

/// A library timestamp, in nanoseconds, of a time in milliseconds.
fn at(ms: i64) -> i128 {
    i128::from(ms) * 1_000_000
}

fn record(goal: &str, status: MemoryStatus, days_old: i64, plan_confidence: Option<u32>) -> MemoryRecord {
    let created = at(NOW - days_old * DAY_MS);
    MemoryRecord {
        id: uuid::Uuid::new_v4().as_u128(),
        kind: MemoryKind::Execution,
        source_id: uuid::Uuid::new_v4().as_u128(),
        workspace_id: None,
        goal: goal.into(),
        status,
        plan: plan_confidence.map(|confidence| ExecutionPlan {
            id: uuid::Uuid::new_v4().as_u128(),
            workspace_id: None,
            goal: goal.into(),
            tasks: vec![],
            estimated_duration_minutes: 0,
            required_files: vec![],
            checkpoints: vec![],
            confidence,
            reasoning: String::new(),
            status: PlanApprovalStatus::Pending,
            created_at: created,
        }),
        steps: vec![],
        reasoning: vec![],
        tools_used: vec![],
        failed_steps: vec![],
        error: None,
        outcome: MemoryOutcome::default(),
        replay_count: 0,
        created_at: created,
        updated_at: created,
        retention: RetentionPolicy::Permanent,
        retention_until: None,
        archived_at: None,
        expired_at: None,
        summary: None,
        compressed_at: None,
        version: 1,
        parent_id: None,
    }
}

#[test]
fn recent_repeated_failures_count_as_a_pattern() {
    let records = vec![
        record("deploy app", MemoryStatus::Failed, 2, None),
        record("deploy app", MemoryStatus::Failed, 5, None),
        record("deploy app", MemoryStatus::Success, 60, None),
    ];
    let fp = goal_fingerprint("deploy app");
    let tally = run_tally(&records, &fp, NOW);
    assert_eq!((tally.runs, tally.successes, tally.failures), (3, 1, 2));
    assert!(tally.recent_failure);
    assert_eq!(tally.last_failure_at, Some(at(NOW - 2 * DAY_MS)));
    assert_eq!(tally.last_run_at, Some(at(NOW - 2 * DAY_MS)));
    assert!(repeated_failure_applies(&tally, 1));
    // as many successes as failures is no repeated failure
    assert!(!repeated_failure_applies(&tally, 2));
}

#[test]
fn old_failures_are_not_recent() {
    let records = vec![
        record("deploy app", MemoryStatus::Failed, 100, None),
        record("deploy app", MemoryStatus::Failed, 200, None),
    ];
    let tally = run_tally(&records, &goal_fingerprint("deploy app"), NOW);
    assert_eq!(tally.failures, 2);
    assert!(!tally.recent_failure);
    assert!(!repeated_failure_applies(&tally, 0));
    // exactly ninety days old still counts as recent
    let edge = vec![
        record("deploy app", MemoryStatus::Failed, 90, None),
        record("deploy app", MemoryStatus::Failed, 200, None),
    ];
    assert!(run_tally(&edge, &goal_fingerprint("deploy app"), NOW).recent_failure);
}

#[test]
fn unstable_workflows_need_three_runs_and_a_failing_majority() {
    let records = vec![
        record("g", MemoryStatus::Success, 1, None),
        record("g", MemoryStatus::Failed, 2, None),
        record("g", MemoryStatus::Failed, 3, None),
    ];
    let tally = run_tally(&records, &goal_fingerprint("g"), NOW);
    assert!(unstable_applies(&tally));
    let two = run_tally(&records[1..], &goal_fingerprint("g"), NOW);
    assert!(!unstable_applies(&two), "two runs are not enough samples");
    let balanced = vec![
        record("g", MemoryStatus::Success, 1, None),
        record("g", MemoryStatus::Success, 2, None),
        record("g", MemoryStatus::Failed, 3, None),
        record("g", MemoryStatus::Failed, 4, None),
    ];
    assert!(!unstable_applies(&run_tally(&balanced, &goal_fingerprint("g"), NOW)));
}

#[test]
fn low_confidence_plans_are_tallied() {
    let records = vec![
        record("g", MemoryStatus::Success, 1, Some(300)),
        record("g", MemoryStatus::Success, 2, Some(250)),
        record("g", MemoryStatus::Success, 3, Some(900)),
        record("g", MemoryStatus::Success, 4, None),
    ];
    let tally = run_tally(&records, &goal_fingerprint("g"), NOW);
    assert_eq!(tally.low_confidence_plans, 2);
    assert_eq!(tally.low_confidence_total, 550);
    assert!(low_confidence_applies(&tally));
    let one = run_tally(&records[..1], &goal_fingerprint("g"), NOW);
    assert!(!low_confidence_applies(&one));
}

#[test]
fn each_workflow_shows_its_own_patterns() {
    let records = vec![
        record("a", MemoryStatus::Failed, 2, None),
        record("a", MemoryStatus::Failed, 5, None),
        record("b", MemoryStatus::Success, 1, Some(300)),
        record("b", MemoryStatus::Success, 2, Some(200)),
        record("c", MemoryStatus::Success, 1, None),
        record("c", MemoryStatus::Failed, 2, None),
        record("c", MemoryStatus::Failed, 3, None),
    ];
    let mut repeated = 0;
    let mut unstable = 0;
    let mut low = 0;
    for workflow in learned_workflows(&records) {
        let tally = run_tally(&records, &workflow.goal_fingerprint, NOW);
        repeated += repeated_failure_applies(&tally, workflow.success_count) as usize;
        unstable += unstable_applies(&tally) as usize;
        low += low_confidence_applies(&tally) as usize;
    }
    assert!(repeated >= 1 && unstable >= 1 && low >= 1);
    let unrelated = run_tally(&records, &goal_fingerprint("unrelated goal"), NOW);
    assert_eq!(unrelated.runs, 0);
}

#[test]
fn ages_are_whole_days_and_bucket_the_store() {
    let records = vec![
        record("a", MemoryStatus::Success, 0, None),
        record("b", MemoryStatus::Success, 29, None),
        record("c", MemoryStatus::Success, 30, None),
        record("d", MemoryStatus::Success, 179, None),
        record("e", MemoryStatus::Success, 180, None),
        record("f", MemoryStatus::Success, 400, None),
    ];
    assert_eq!(age_days(&records[3], NOW), 179);
    let mut future = record("g", MemoryStatus::Success, 0, None);
    future.created_at = at(NOW + 5 * DAY_MS);
    assert_eq!(age_days(&future, NOW), 0, "a future timestamp is no age");
    let counts = aging_counts(&records, NOW);
    assert_eq!(counts.total_records, 6);
    assert_eq!(
        (counts.fresh_records, counts.aging_records, counts.archived_records),
        (2, 2, 2)
    );
    assert_eq!((counts.oldest_days, counts.newest_days), (400, 0));
    let empty = aging_counts(&[], NOW);
    assert_eq!((empty.total_records, empty.oldest_days, empty.newest_days), (0, 0, 0));
}

#[test]
fn fingerprints_are_stable_and_ignore_case() {
    let g = "  Deploy   the APP\tnow ";
    let fp = goal_fingerprint(g);
    assert_eq!(fp, "deploy the app now");
    assert_eq!(goal_fingerprint(&fp), fp);
    assert_eq!(goal_fingerprint(&g.to_uppercase()), fp);
}
