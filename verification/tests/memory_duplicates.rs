use copilot_core::duplicates::{duplicate_groups, merge_plan, DuplicateGroup};
use copilot_core::memory::{MemoryKind, MemoryOutcome, MemoryRecord, MemoryStatus, RetentionPolicy};

fn record(
    goal: &str,
    status: MemoryStatus,
    steps: Vec<&str>,
    tools: Vec<&str>,
    completed: usize,
    replays: u64,
) -> MemoryRecord {
    let now = i128::from(chrono::Utc::now().timestamp_nanos_opt().unwrap());
    MemoryRecord {
        id: uuid::Uuid::new_v4().as_u128(),
        kind: MemoryKind::Execution,
        source_id: uuid::Uuid::new_v4().as_u128(),
        workspace_id: None,
        goal: goal.into(),
        status,
        plan: None,
        steps: steps.into_iter().map(String::from).collect(),
        reasoning: vec![],
        tools_used: tools.into_iter().map(String::from).collect(),
        failed_steps: vec![],
        error: None,
        outcome: MemoryOutcome {
            completed,
            ..MemoryOutcome::default()
        },
        replay_count: replays,
        created_at: now,
        updated_at: now,
        retention: RetentionPolicy::Permanent,
        retention_until: None,
        archived_at: None,
        expired_at: None,
        summary: None,
        compressed_at: None,
        version: 1,
        parent_id: None,
    }
}

#[test]
fn identical_runs_group_and_single_runs_do_not() {
    let a = record(
        "Resume Focus Session",
        MemoryStatus::Success,
        vec!["a", "b"],
        vec!["tool_x"],
        2,
        0,
    );
    let b = record(
        "resume focus session",
        MemoryStatus::Success,
        vec!["a", "b"],
        vec!["tool_x"],
        2,
        0,
    );
    let different_status = record(
        "resume focus session",
        MemoryStatus::Failed,
        vec!["a", "b"],
        vec!["tool_x"],
        1,
        0,
    );
    let different_steps = record(
        "resume focus session",
        MemoryStatus::Success,
        vec!["a", "c"],
        vec!["tool_x"],
        2,
        0,
    );

    let records = [a, b, different_status, different_steps];
    let groups = duplicate_groups(&records);
    assert_eq!(groups.len(), 1);
    assert_eq!(groups[0].records.len(), 2);
    assert_eq!(groups[0].goal_fingerprint, "resume focus session");
}

#[test]
fn keeper_is_the_best_record() {
    let weak = record("g", MemoryStatus::Success, vec!["a"], vec!["t"], 1, 0);
    let strong = record("g", MemoryStatus::Success, vec!["a"], vec!["t"], 1, 4);
    let weak_id = weak.id;
    let strong_id = strong.id;
    let records = [weak, strong];
    let groups = duplicate_groups(&records);
    assert_eq!(groups.len(), 1);
    assert_eq!(groups[0].keep_id, strong_id, "most-replayed record survives");

    let plan = merge_plan(&groups);
    assert_eq!(plan.len(), 1);
    assert_eq!(plan[0].0, strong_id);
    assert_eq!(plan[0].1, vec![weak_id]);
}

#[test]
fn no_duplicates_yields_empty_plan() {
    let a = record("g1", MemoryStatus::Success, vec!["a"], vec!["t"], 1, 0);
    let b = record("g2", MemoryStatus::Success, vec!["a"], vec!["t"], 1, 0);
    assert!(duplicate_groups(&[a, b]).is_empty());
    let none: [DuplicateGroup; 0] = [];
    assert!(merge_plan(&none).is_empty());
}

#[test]
fn group_members_are_newest_first_and_reason_counts_them() {
    let mut older = record("Tidy  Inbox", MemoryStatus::Success, vec!["a"], vec!["t"], 1, 0);
    older.created_at = 1_000;
    let mut newer = record("tidy inbox", MemoryStatus::Success, vec!["a"], vec!["t"], 1, 0);
    newer.created_at = 2_000;
    let mut newest = record(" TIDY inbox ", MemoryStatus::Success, vec!["a"], vec!["t"], 1, 0);
    newest.created_at = 3_000;
    let (older_id, newer_id, newest_id) = (older.id, newer.id, newest.id);
    let records = [older, newer, newest];
    let groups = duplicate_groups(&records);
    assert_eq!(groups.len(), 1);
    let ids: Vec<u128> = groups[0].records.iter().map(|r| r.id).collect();
    assert_eq!(ids, vec![newest_id, newer_id, older_id]);
    // equal completion and replays: the newest record is kept
    assert_eq!(groups[0].keep_id, newest_id);
    assert_eq!(groups[0].reason, "3 identical run(s) of 'tidy inbox' with the same outcome");
    let plan = merge_plan(&groups);
    assert_eq!(plan, vec![(newest_id, vec![newer_id, older_id])]);
}

#[test]
fn more_completed_steps_outrank_replays() {
    let mut replayed = record("g", MemoryStatus::Success, vec!["a"], vec!["t"], 1, 9);
    replayed.created_at = 5_000;
    let mut thorough = record("g", MemoryStatus::Success, vec!["a"], vec!["t"], 2, 0);
    thorough.created_at = 1_000;
    let thorough_id = thorough.id;
    let records = [replayed, thorough];
    let groups = duplicate_groups(&records);
    assert_eq!(groups[0].keep_id, thorough_id);
}

#[test]
fn larger_groups_come_first_then_by_fingerprint() {
    let records = [
        record("beta", MemoryStatus::Success, vec!["a"], vec!["t"], 1, 0),
        record("beta", MemoryStatus::Success, vec!["a"], vec!["t"], 1, 0),
        record("alpha", MemoryStatus::Success, vec!["a"], vec!["t"], 1, 0),
        record("alpha", MemoryStatus::Success, vec!["a"], vec!["t"], 1, 0),
        record("gamma", MemoryStatus::Success, vec!["a"], vec!["t"], 1, 0),
        record("gamma", MemoryStatus::Success, vec!["a"], vec!["t"], 1, 0),
        record("gamma", MemoryStatus::Success, vec!["a"], vec!["t"], 1, 0),
    ];
    let groups = duplicate_groups(&records);
    let order: Vec<(&str, usize)> = groups
        .iter()
        .map(|g| (g.goal_fingerprint.as_str(), g.records.len()))
        .collect();
    assert_eq!(order, vec![("gamma", 3), ("alpha", 2), ("beta", 2)]);
}
