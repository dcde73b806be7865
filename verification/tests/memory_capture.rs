use copilot_core::autonomous::{
    AutonomousSessionProgress, AutonomousStatus, ExecutionPolicy, ReasoningEvent, ReasoningPhase,
};
use copilot_core::capture::{execution_record, report_record, session_record};
use copilot_core::execution::{ExecutionStatus, ExecutionStep, StepStatus};
use copilot_core::memory::{MemoryKind, MemoryStatus};
use copilot_core::plan::{ExecutionPlan, PlanApprovalStatus, PlanTask, PlannerReport};

fn task(id: u128, description: &str, tool: Option<&str>, completed: bool) -> PlanTask {
    PlanTask {
        id,
        description: description.into(),
        dependencies: vec![],
        estimated_minutes: 1,
        required_files: vec![],
        tool_name: tool.map(|t| t.to_string()),
        arguments: None,
        completed,
        condition: None,
    }
}

fn plan(tasks: Vec<PlanTask>) -> ExecutionPlan {
    ExecutionPlan {
        id: 5,
        workspace_id: Some(3),
        goal: "ship it".into(),
        tasks,
        estimated_duration_minutes: 0,
        required_files: vec![],
        checkpoints: vec![],
        confidence: 700,
        reasoning: String::new(),
        status: PlanApprovalStatus::Pending,
        created_at: 0,
    }
}

fn step(n: usize, description: &str, tool: Option<&str>, status: StepStatus, error: Option<&str>) -> ExecutionStep {
    ExecutionStep {
        id: n as u128,
        execution_id: 1,
        step_number: n,
        description: description.into(),
        tool_name: tool.map(|t| t.to_string()),
        arguments: None,
        status,
        result: None,
        error: error.map(|e| e.to_string()),
        started_at: None,
        completed_at: None,
        created_at: 0,
    }
}

#[test]
fn executions_become_records() {
    let steps = vec![
        step(0, "list", Some("list_workspaces"), StepStatus::Completed, None),
        step(1, "note", None, StepStatus::Failed, Some("no tool")),
        step(2, "open", Some("open_file"), StepStatus::Failed, Some("missing")),
    ];
    let r = execution_record(10, 1, None, "ship it", None, &steps, ExecutionStatus::Failed, Some("missing".into()), 42);
    assert_eq!(r.kind, MemoryKind::Execution);
    assert_eq!(r.status, MemoryStatus::Failed);
    assert_eq!(r.steps, vec!["list", "note", "open"]);
    assert_eq!(r.tools_used, vec!["list_workspaces", "open_file"]);
    assert_eq!(r.failed_steps, vec!["note", "open_file"]);
    assert_eq!(r.outcome.steps, 3);
    assert_eq!(r.outcome.completed, 1);
    assert_eq!(r.created_at, 42);
    let cancelled = execution_record(11, 1, None, "g", None, &vec![], ExecutionStatus::Paused, None, 0);
    assert_eq!(cancelled.status, MemoryStatus::Cancelled);
}

#[test]
fn planner_reports_become_records() {
    let report = PlannerReport {
        plan: plan(vec![task(1, "a", Some("t1"), true), task(2, "b", Some("t2"), false), task(3, "c", None, false)]),
        execution_id: None,
        completed: vec![1],
        skipped: vec![],
        replaced: vec![2],
        replan_count: 1,
        error: None,
    };
    let r = report_record(20, report, 99, 7);
    assert_eq!(r.kind, MemoryKind::PlannerReport);
    assert_eq!(r.source_id, 99);
    assert_eq!(r.status, MemoryStatus::Success);
    assert_eq!(r.reasoning, vec!["Planner report: 1 completed, 1 replaced, 1 replans"]);
    assert_eq!(r.tools_used, vec!["t1", "t2"]);
    assert_eq!(r.failed_steps, vec!["t2"]);
    assert_eq!(r.workspace_id, Some(3));
    assert_eq!(r.goal, "ship it");
}

#[test]
fn sessions_become_records() {
    let progress = AutonomousSessionProgress {
        session_id: 77,
        workspace_id: None,
        goal: "ship it".into(),
        status: AutonomousStatus::Completed,
        policy: ExecutionPolicy::default(),
        reasoning: vec![ReasoningEvent {
            session_id: 77,
            phase: ReasoningPhase::Terminal,
            message: "Goal reached: 2 steps completed".into(),
            detail: None,
            created_at: 1,
        }],
        current_plan: Some(plan(vec![task(1, "a", Some("t1"), true), task(2, "b", Some("t2"), false)])),
        execution_id: None,
        last_execution_id: None,
        plans_attempted: 2,
        plans_completed: 1,
        steps_completed: 2,
        retries_used: 1,
        replans_used: 0,
        steps_left: 48,
        error: None,
        pending_approval: None,
        created_at: 0,
        updated_at: 9,
    };
    let r = session_record(30, progress);
    assert_eq!(r.kind, MemoryKind::AutonomousSession);
    assert_eq!(r.source_id, 77);
    assert_eq!(r.status, MemoryStatus::Success);
    assert_eq!(r.reasoning, vec!["terminal: Goal reached: 2 steps completed"]);
    assert_eq!(r.failed_steps, vec!["t2"]);
    assert_eq!(r.outcome.plans_attempted, 2);
    assert_eq!(r.created_at, 9);
}
