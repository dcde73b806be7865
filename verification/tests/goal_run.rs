use copilot_core::goal_run::{GoalRun, MAX_REPLAN_ATTEMPTS};
use copilot_core::plan::{
    ExecutionPlan, PlanApprovalStatus, PlanGate, PlanTask, PlannerError, ToolInvocationStatus,
};

fn task(id: u128, description: &str, deps: Vec<u128>, condition: Option<PlanGate>) -> PlanTask {
    PlanTask {
        id,
        description: description.into(),
        dependencies: deps,
        estimated_minutes: 1,
        required_files: vec![],
        tool_name: Some(format!("tool_{id}")),
        arguments: None,
        completed: false,
        condition,
    }
}

fn plan(tasks: Vec<PlanTask>) -> ExecutionPlan {
    ExecutionPlan {
        id: 99,
        workspace_id: None,
        goal: "g".into(),
        tasks,
        estimated_duration_minutes: 0,
        required_files: vec![],
        checkpoints: vec![],
        confidence: 800,
        reasoning: String::new(),
        status: PlanApprovalStatus::Pending,
        created_at: 0,
    }
}

#[test]
fn a_clean_run_completes_every_task_in_dependency_order() {
    let mut run = GoalRun::new(plan(vec![
        task(2, "b", vec![1], None),
        task(1, "a", vec![], None),
    ]));
    assert_eq!(run.begin_pass(false).ok(), Some(true));
    let first = run.next_task().unwrap();
    assert_eq!(first.id, 1);
    assert!(run.record_result(1, Ok((ToolInvocationStatus::Success, None))).is_ok());
    let second = run.next_task().unwrap();
    assert_eq!(second.id, 2);
    assert!(run.record_result(2, Ok((ToolInvocationStatus::Success, None))).is_ok());
    assert!(run.next_task().is_none());
    assert!(!run.end_pass());
    let report = run.into_report();
    assert_eq!(report.completed, vec![1, 2]);
    assert_eq!(report.replan_count, 0);
    assert!(report.error.is_none());
}

#[test]
fn closed_gates_skip_tasks() {
    let mut run = GoalRun::new(plan(vec![
        task(1, "a", vec![], None),
        task(2, "b", vec![], Some(PlanGate::AfterFailure(1))),
    ]));
    assert_eq!(run.begin_pass(false).ok(), Some(true));
    let first = run.next_task().unwrap();
    assert_eq!(first.id, 1);
    assert!(run.record_result(1, Ok((ToolInvocationStatus::Success, None))).is_ok());
    assert!(run.next_task().is_none());
    assert_eq!(run.skipped, vec![2]);
}

#[test]
fn a_failure_replans_around_the_failed_task() {
    let mut run = GoalRun::new(plan(vec![
        task(1, "a", vec![], None),
        task(2, "b", vec![1], None),
        task(3, "c", vec![], None),
    ]));
    assert_eq!(run.begin_pass(false).ok(), Some(true));
    let t = run.next_task().unwrap();
    assert!(run
        .record_result(t.id, Ok((ToolInvocationStatus::Failed, Some("boom".into()))))
        .is_ok());
    while let Some(t) = run.next_task() {
        assert!(run.record_result(t.id, Ok((ToolInvocationStatus::Success, None))).is_ok());
    }
    assert!(run.end_pass());
    assert_eq!(run.replan_count, 1);
    assert!(run.replaced.is_empty());
    assert_eq!(run.last_error.as_deref(), Some("boom"));
    let ids: Vec<u128> = run.plan.tasks.iter().map(|t| t.id).collect();
    assert!(!ids.contains(&1));
}

#[test]
fn cancellation_and_cycles_stop_the_run() {
    let mut run = GoalRun::new(plan(vec![task(1, "a", vec![], None)]));
    assert!(matches!(run.begin_pass(true), Err(PlannerError::Cancelled)));
    let mut cyclic = GoalRun::new(plan(vec![
        task(1, "a", vec![2], None),
        task(2, "b", vec![1], None),
    ]));
    assert!(matches!(cyclic.begin_pass(false), Err(PlannerError::DependencyCycle)));
    let mut spent = GoalRun::new(plan(vec![task(1, "a", vec![], None)]));
    spent.replan_count = MAX_REPLAN_ATTEMPTS + 1;
    assert_eq!(spent.begin_pass(false).ok(), Some(false));
    let mut run = GoalRun::new(plan(vec![task(1, "a", vec![], None)]));
    assert_eq!(run.begin_pass(false).ok(), Some(true));
    let t = run.next_task().unwrap();
    assert!(matches!(
        run.record_result(t.id, Err(PlannerError::Cancelled)),
        Err(PlannerError::Cancelled)
    ));
    assert!(run
        .record_result(t.id, Err(PlannerError::Execution("denied".into())))
        .is_ok());
    assert_eq!(run.last_error.as_deref(), Some("execution failed: denied"));
}
