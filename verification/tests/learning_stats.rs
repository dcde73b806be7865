use copilot_core::intent::{classify_intent, Intent};
use copilot_core::learning::{
    compute_stats, filter_records, goal_usage, has_successful_workflow, learned_workflows,
    success_tally, workflow_quality_counts,
};
use copilot_core::memory::{
    MemoryKind, MemoryOutcome, MemoryRecord, MemorySearchRequest, MemoryStatus, RetentionPolicy,
};
use copilot_core::plan::{ExecutionPlan, PlanApprovalStatus};

fn record(goal: &str, status: MemoryStatus, created_ms: i128, plan: bool, error: Option<&str>) -> MemoryRecord {
    MemoryRecord {
        id: uuid::Uuid::new_v4().as_u128(),
        kind: MemoryKind::Execution,
        source_id: uuid::Uuid::new_v4().as_u128(),
        workspace_id: None,
        goal: goal.to_string(),
        status,
        plan: if plan {
            Some(ExecutionPlan {
                id: uuid::Uuid::new_v4().as_u128(),
                workspace_id: None,
                goal: goal.to_string(),
                tasks: vec![],
                estimated_duration_minutes: 0,
                required_files: vec![],
                checkpoints: vec![],
                confidence: 800,
                reasoning: "remembered".into(),
                status: PlanApprovalStatus::Pending,
                created_at: created_ms,
            })
        } else {
            None
        },
        steps: vec![],
        reasoning: vec![],
        tools_used: vec!["list_workspaces".into()],
        failed_steps: vec![],
        error: error.map(|e| e.to_string()),
        outcome: MemoryOutcome::default(),
        replay_count: 0,
        created_at: created_ms,
        updated_at: created_ms,
        retention: RetentionPolicy::Permanent,
        retention_until: None,
        archived_at: None,
        expired_at: None,
        summary: None,
        compressed_at: None,
        version: 1,
        parent_id: None,
    }
}

fn tally_every_axis() {
    let now_ms = 1_000_000_000_000;
    let mut failed_session = record("g", MemoryStatus::Failed, now_ms, false, Some("e"));
    failed_session.kind = MemoryKind::AutonomousSession;
    failed_session.replay_count = 3;
    let mut report = record("g2", MemoryStatus::Success, now_ms, true, None);
    report.kind = MemoryKind::PlannerReport;
    let records = vec![
        record("g", MemoryStatus::Success, now_ms, true, None),
        failed_session,
        report,
    ];

    let stats = compute_stats(&records);
    assert_eq!(stats.total_records, 3);
    assert_eq!(stats.successful, 2);
    assert_eq!(stats.failed, 1);
    assert_eq!(stats.executions, 1);
    assert_eq!(stats.planner_reports, 1);
    assert_eq!(stats.autonomous_sessions, 1);
    assert_eq!(stats.total_replays, 3);
    assert_eq!(stats.learned_workflows, 2);
}

#[test]
fn learning_compute_stats_tallies_every_axis() {
    tally_every_axis();
}

#[test]
fn tests_compute_stats_tallies_every_axis() {
    tally_every_axis();
}

#[test]
fn filter_records_honors_kind_status_and_workspace() {
    let mut a = record("a", MemoryStatus::Success, 1, false, None);
    a.workspace_id = Some(7);
    let mut b = record("b", MemoryStatus::Failed, 2, false, None);
    b.kind = MemoryKind::PlannerReport;
    let c = record("c", MemoryStatus::Success, 3, false, None);
    let records = vec![a, b, c];

    let mut request = MemorySearchRequest::new("q".into());
    assert_eq!(filter_records(&request, &records).len(), 3);
    request.kind = Some(MemoryKind::Execution);
    let hits = filter_records(&request, &records);
    assert_eq!(hits.iter().map(|r| r.goal.as_str()).collect::<Vec<_>>(), vec!["a", "c"]);
    request.workspace_id = Some(7);
    assert_eq!(filter_records(&request, &records).len(), 1);
    request.kind = None;
    request.workspace_id = None;
    request.status = Some(MemoryStatus::Failed);
    assert_eq!(filter_records(&request, &records)[0].goal, "b");
    assert_eq!(request.limit, 10);
}

#[test]
fn fingerprints_group_goals_for_the_workflow_count() {
    let records = vec![
        record("Plan  the Day", MemoryStatus::Success, 1, false, None),
        record(" plan the day", MemoryStatus::Failed, 2, false, None),
        record("other", MemoryStatus::Cancelled, 3, false, None),
    ];
    let stats = compute_stats(&records);
    assert_eq!(stats.learned_workflows, 2);
    assert_eq!(stats.cancelled, 1);
    assert_eq!(compute_stats(&vec![]).learned_workflows, 0);
}

#[test]
fn intents_follow_the_keyword_rules() {
    assert_eq!(classify_intent("List my Workspaces"), Intent::ListWorkspaces);
    assert_eq!(classify_intent("what is this workspace about"), Intent::GetWorkspaceInfo);
    assert_eq!(classify_intent("Find the report"), Intent::SearchHistory);
    assert_eq!(classify_intent("What did I do yesterday?"), Intent::SummarizeActivity);
    assert_eq!(classify_intent("why this?"), Intent::ExplainRecommendation);
    assert_eq!(classify_intent("take me back to work"), Intent::ResumeWork);
    assert_eq!(classify_intent("How late is it"), Intent::AskQuestion);
    assert_eq!(classify_intent("hello"), Intent::Unknown);
}

fn workflows_aggregate_by_fingerprint() {
    let now_ms = 1_000_000_000_000;
    let records = vec![
        record("Resume My Focus Session", MemoryStatus::Success, now_ms, true, None),
        record("resume my focus session", MemoryStatus::Success, now_ms - 1000, false, None),
        record("resume my focus session", MemoryStatus::Failed, now_ms - 2000, false, Some("x")),
        record("plan a vacation", MemoryStatus::Success, now_ms, true, None),
    ];
    let workflows = learned_workflows(&records);
    assert_eq!(workflows.len(), 2);

    let focus = workflows
        .iter()
        .find(|w| w.goal_fingerprint == "resume my focus session")
        .expect("focus workflow exists");
    assert_eq!(focus.success_count, 2);
    assert_eq!(focus.failure_count, 1);
    assert!(focus.best_plan.is_some(), "best plan from the success is kept");
}

#[test]
fn learning_learned_workflows_aggregate_by_fingerprint() {
    workflows_aggregate_by_fingerprint();
}

#[test]
fn tests_learned_workflows_aggregate_by_fingerprint() {
    workflows_aggregate_by_fingerprint();
}

#[test]
fn learned_workflows_order_and_representatives() {
    let records = vec![
        record("Beta Task", MemoryStatus::Failed, 100, false, Some("e")),
        record("alpha task", MemoryStatus::Success, 50, false, None),
        record("beta task", MemoryStatus::Success, 300, false, None),
        record("Alpha  Task", MemoryStatus::Success, 400, true, None),
        record("beta task", MemoryStatus::Success, 200, true, None),
        record("gamma", MemoryStatus::Cancelled, 10, false, None),
    ];
    let workflows = learned_workflows(&records);
    let order: Vec<(&str, u64)> = workflows
        .iter()
        .map(|w| (w.goal_fingerprint.as_str(), w.success_count))
        .collect();
    // two successes each: the later fingerprint first
    assert_eq!(order, vec![("beta task", 2), ("alpha task", 2), ("gamma", 0)]);

    let beta = &workflows[0];
    assert_eq!(beta.failure_count, 1);
    assert_eq!(beta.goal, "beta task", "the newest run names the workflow");
    assert_eq!(beta.last_success_at, Some(300));
    assert_eq!(beta.best_plan.as_ref().map(|p| p.created_at), Some(200));

    let alpha = &workflows[1];
    assert_eq!(alpha.goal, "Alpha  Task");
    assert_eq!(alpha.last_success_at, Some(400));
    assert_eq!(alpha.best_plan.as_ref().map(|p| p.created_at), Some(400));

    let gamma = &workflows[2];
    assert_eq!((gamma.success_count, gamma.failure_count), (0, 0));
    assert!(gamma.best_plan.is_none());
    assert_eq!(gamma.last_success_at, None);

    assert_eq!(compute_stats(&records).learned_workflows, workflows.len() as u64);
    assert!(learned_workflows(&[]).is_empty());
}

#[test]
fn success_tally_counts_runs_of_the_same_goal() {
    let records = vec![
        record("Tidy Inbox", MemoryStatus::Success, 1, false, None),
        record("tidy  inbox", MemoryStatus::Failed, 2, false, Some("e")),
        record("tidy inbox", MemoryStatus::Success, 3, false, None),
        record("other", MemoryStatus::Success, 4, false, None),
    ];
    assert_eq!(success_tally("TIDY inbox", &records), (2, 3));
    assert_eq!(success_tally("nothing like it", &records), (0, 0));
}

#[test]
fn failure_description_names_what_failed() {
    let with_error = record("g", MemoryStatus::Failed, 1, false, Some("boom"));
    assert_eq!(with_error.failure_description(), "boom");
    let mut with_tool = record("g", MemoryStatus::Failed, 1, false, None);
    with_tool.failed_steps = vec![String::new(), "get_recent_events".into()];
    assert_eq!(with_tool.failure_description(), "tool 'get_recent_events' failed");
    let cancelled = record("g", MemoryStatus::Cancelled, 1, false, None);
    assert_eq!(cancelled.failure_description(), "run was cancelled");
}

#[test]
fn a_successful_run_of_the_same_goal_is_found_by_fingerprint() {
    let records = vec![
        record("Resume  Focus", MemoryStatus::Success, 1, false, None),
        record("organize receipts", MemoryStatus::Failed, 2, false, Some("boom")),
    ];
    assert!(has_successful_workflow(&records, "  resume focus "));
    assert!(!has_successful_workflow(&records, "organize receipts"));
    assert!(!has_successful_workflow(&records, "something else"));
    assert!(!has_successful_workflow(&[], "resume focus"));
}

#[test]
fn goal_usage_counts_the_exact_goal_only() {
    let records = vec![
        record("deploy app", MemoryStatus::Success, 1, false, None),
        record("Deploy App", MemoryStatus::Failed, 2, false, Some("e")),
        record("deploy app", MemoryStatus::Failed, 3, false, Some("e")),
    ];
    assert_eq!(goal_usage("deploy app", &records), 2);
    assert_eq!(goal_usage("other", &records), 0);
}

#[test]
fn workflow_quality_counts_add_up_the_runs() {
    let mut a = record("deploy app", MemoryStatus::Success, 1, true, None);
    a.outcome.duration_seconds = 10;
    a.replay_count = 2;
    let mut b = record("Deploy App", MemoryStatus::Success, 2, false, None);
    b.outcome.duration_seconds = 5;
    let mut c = record("write notes", MemoryStatus::Failed, 3, true, Some("e"));
    c.replay_count = 1;
    let records = vec![a, b, c];
    let workflows = learned_workflows(&records);
    let counts = workflow_quality_counts(&records, &workflows);
    assert_eq!(counts.workflow_count, 2);
    assert_eq!(counts.replayed_workflows, 1);
    assert_eq!(counts.successful_runs, 2);
    assert_eq!(counts.planned_records, 2);
    assert_eq!(counts.avg_duration_seconds, 7);
    assert_eq!(counts.total_replays, 3);

    let none = workflow_quality_counts(&[], &vec![]);
    assert_eq!((none.workflow_count, none.avg_duration_seconds, none.total_replays), (0, 0, 0));
}
