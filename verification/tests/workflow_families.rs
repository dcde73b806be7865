use copilot_core::clustering::workflow_families;
use copilot_core::learning::learned_workflows;
use copilot_core::memory::{
    MemoryKind, MemoryOutcome, MemoryRecord, MemoryStatus, RetentionPolicy,
};
use copilot_core::plan::{ExecutionPlan, PlanApprovalStatus};

fn record(goal: &str, status: MemoryStatus, tools: Vec<&str>) -> MemoryRecord {
    record_at(goal, status, tools, 1_700_000_000_000)
}

fn record_at(goal: &str, status: MemoryStatus, tools: Vec<&str>, at_ms: i64) -> MemoryRecord {
    MemoryRecord {
        id: uuid::Uuid::new_v4().as_u128(),
        kind: MemoryKind::Execution,
        source_id: uuid::Uuid::new_v4().as_u128(),
        workspace_id: None,
        goal: goal.into(),
        status,
        plan: None,
        steps: vec![],
        reasoning: vec![],
        tools_used: tools.into_iter().map(String::from).collect(),
        failed_steps: vec![],
        error: None,
        outcome: MemoryOutcome::default(),
        replay_count: 0,
        created_at: i128::from(at_ms) * 1_000_000,
        updated_at: i128::from(at_ms) * 1_000_000,
        retention: RetentionPolicy::Permanent,
        retention_until: None,
        archived_at: None,
        expired_at: None,
        summary: None,
        compressed_at: None,
        version: 1,
        parent_id: None,
    }
}

fn plan_with(confidence: u32) -> ExecutionPlan {
    ExecutionPlan {
        id: 1,
        workspace_id: None,
        goal: "g".into(),
        tasks: vec![],
        estimated_duration_minutes: 0,
        required_files: vec![],
        checkpoints: vec![],
        confidence,
        reasoning: String::new(),
        status: PlanApprovalStatus::Pending,
        created_at: 0,
    }
}

#[test]
fn tools_group_workflows_into_families() {
    let records = vec![
        record(
            "resume focus session",
            MemoryStatus::Success,
            vec!["get_recent_events", "list_workspaces", "resume_workspace"],
        ),
        record(
            "resume my last focus session",
            MemoryStatus::Success,
            vec!["get_recent_events", "list_workspaces", "resume_workspace"],
        ),
        record(
            "organize tax receipts",
            MemoryStatus::Success,
            vec!["search_files", "create_workspace"],
        ),
    ];
    let families = workflow_families(&records, &vec![]);
    assert_eq!(families.len(), 2);
    let focus = families
        .iter()
        .find(|f| f.member_count == 2)
        .expect("focus family has two members");
    assert!(focus.shared_tools.contains(&"resume_workspace".to_string()));
    assert_eq!(focus.total_successes, 2);
}

#[test]
fn empty_store_yields_no_families() {
    assert!(workflow_families(&[], &vec![]).is_empty());
}

#[test]
fn families_are_ranked_and_numbered() {
    let records = vec![
        record("alpha", MemoryStatus::Success, vec!["a", "b"]),
        record("beta", MemoryStatus::Failed, vec!["a", "b", "c"]),
        record("gamma", MemoryStatus::Success, vec!["x"]),
        record("gamma", MemoryStatus::Success, vec!["x", "y"]),
    ];
    let families = workflow_families(&records, &vec![]);
    assert_eq!(families.len(), 2);
    assert_eq!(families[0].family_id, 0);
    assert_eq!(families[1].family_id, 1);
    // alpha and beta share two of three tools; gamma stands alone.
    assert_eq!(families[0].member_count, 2);
    assert_eq!(families[0].name, "alpha");
    assert_eq!(families[0].total_successes, 1);
    assert_eq!(families[0].total_failures, 1);
    assert_eq!(families[0].shared_tools, vec!["a".to_string(), "b".to_string()]);
    assert_eq!(families[1].member_count, 1);
    assert_eq!(families[1].name, "gamma");
    assert_eq!(families[1].total_successes, 2);
    // In a family of one, every tool used counts; the most used comes first.
    assert_eq!(families[1].shared_tools, vec!["x".to_string(), "y".to_string()]);
}

#[test]
fn low_tool_overlap_keeps_workflows_apart() {
    let records = vec![
        record("one", MemoryStatus::Success, vec!["a", "b", "c"]),
        record("two", MemoryStatus::Success, vec!["a", "d", "e"]),
    ];
    let families = workflow_families(&records, &vec![]);
    assert_eq!(families.len(), 2);
    assert!(families.iter().all(|f| f.member_count == 1));
}

#[test]
fn toolless_workflows_join_only_when_their_goals_are_close() {
    let records = vec![
        record("draft the weekly report", MemoryStatus::Success, vec![]),
        record("write the weekly report", MemoryStatus::Success, vec![]),
    ];
    assert_eq!(workflow_families(&records, &vec![]).len(), 2);
    let order = learned_workflows(&records);
    assert_eq!(order.len(), 2);
    let close = vec![vec![true, true], vec![true, true]];
    let families = workflow_families(&records, &close);
    assert_eq!(families.len(), 1);
    assert_eq!(families[0].member_count, 2);
    assert!(families[0].shared_tools.is_empty());
}

#[test]
fn a_workflow_with_tools_never_joins_one_without() {
    let records = vec![
        record("with tools", MemoryStatus::Success, vec!["a"]),
        record("without tools", MemoryStatus::Success, vec![]),
    ];
    let close = vec![vec![true, true], vec![true, true]];
    assert_eq!(workflow_families(&records, &close).len(), 2);
}

#[test]
fn plan_confidences_are_summed_per_family() {
    let mut first = record_at("plan it", MemoryStatus::Success, vec!["t"], 1);
    first.plan = Some(plan_with(800));
    let mut second = record_at("plan it", MemoryStatus::Failed, vec!["t"], 2);
    second.plan = Some(plan_with(600));
    let third = record_at("plan it", MemoryStatus::Success, vec!["t"], 3);
    let families = workflow_families(&vec![first, second, third], &vec![]);
    assert_eq!(families.len(), 1);
    assert_eq!(families[0].confidence_total, 1_400);
    assert_eq!(families[0].confidence_samples, 2);
    assert_eq!(families[0].total_successes, 2);
    assert_eq!(families[0].total_failures, 1);
}

#[test]
fn tool_overlap_is_measured_against_all_tools_used() {
    // {a, b} and {a, c} share one tool of three: below one half.
    let records = vec![
        record("alpha goal", MemoryStatus::Success, vec!["a", "b"]),
        record("beta goal", MemoryStatus::Success, vec!["a", "c"]),
    ];
    assert_eq!(workflow_families(&records, &vec![]).len(), 2);
    // {a, b} and {a, b, c} share two of three: at least one half.
    let records = vec![
        record("alpha goal", MemoryStatus::Success, vec!["a", "b"]),
        record("beta goal", MemoryStatus::Success, vec!["a", "b", "c"]),
    ];
    assert_eq!(workflow_families(&records, &vec![]).len(), 1);
}

#[test]
fn mean_duration_counts_only_known_times() {
    let mut r1 = record("resume focus", MemoryStatus::Success, vec!["list_workspaces"]);
    r1.outcome.duration_seconds = 10;
    let r2 = record("resume focus", MemoryStatus::Success, vec!["list_workspaces"]);
    let mut r3 = record("organize receipts", MemoryStatus::Success, vec!["search_files"]);
    r3.outcome.duration_seconds = 40;
    let mut r4 = record("organize receipts", MemoryStatus::Failed, vec!["search_files"]);
    r4.outcome.duration_seconds = 45;
    let families = workflow_families(&vec![r1, r2, r3, r4], &vec![]);
    assert_eq!(families.len(), 2);
    let focus = families.iter().find(|f| f.name == "resume focus").unwrap();
    assert_eq!(focus.avg_duration_seconds, 10);
    assert_eq!(focus.shared_tools, vec!["list_workspaces".to_string()]);
    assert_eq!(focus.total_successes, 2);
    let receipts = families.iter().find(|f| f.name == "organize receipts").unwrap();
    assert_eq!(receipts.avg_duration_seconds, 42);
    let none = workflow_families(&vec![record("quiet", MemoryStatus::Success, vec![])], &vec![]);
    assert_eq!(none[0].avg_duration_seconds, 0);
}
