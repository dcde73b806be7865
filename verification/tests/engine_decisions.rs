use copilot_core::context::ExecutionContext;
use copilot_core::execution::{
    AuditActor, ExecutionEventType, ExecutionStatus, ExecutionStep, PlanExecution, StepStatus,
};
use copilot_core::json::Json;
use copilot_core::plan::{
    has_unique_task_ids, ExecutionPlan, PlanApprovalStatus, PlanGate, PlanTask, ToolInvocationStatus,
};
use copilot_core::scheduler::{
    checkpoint_saved_message, judge_invocation, next_runnable_step_index, not_running_message,
    plan_step_action, prepare_arguments, settled_step_numbers, step_failed_message,
    settle_step, step_started_message, ExecutionMove, InvocationVerdict, StepAction, StepResultText,
    StepRun,
};

fn task(id: u128, deps: Vec<u128>, condition: Option<PlanGate>, tool: Option<&str>) -> PlanTask {
    PlanTask {
        id,
        description: format!("task {id}"),
        dependencies: deps,
        estimated_minutes: 1,
        required_files: vec![],
        tool_name: tool.map(|t| t.to_string()),
        arguments: None,
        completed: false,
        condition,
    }
}

fn step(n: usize, status: StepStatus, tool: Option<&str>) -> ExecutionStep {
    ExecutionStep {
        id: n as u128 + 100,
        execution_id: 1,
        step_number: n,
        description: format!("step {n}"),
        tool_name: tool.map(|t| t.to_string()),
        arguments: None,
        status,
        result: None,
        error: None,
        started_at: None,
        completed_at: None,
        created_at: 0,
    }
}

fn execution(status: ExecutionStatus, current_step: usize) -> PlanExecution {
    PlanExecution {
        id: 1,
        plan_id: 2,
        conversation_id: None,
        status,
        current_step,
        total_steps: 3,
        started_at: None,
        completed_at: None,
        error: None,
        created_at: 0,
        updated_at: 0,
    }
}

#[test]
fn dependencies_and_gates_pick_the_next_step() {
    let tasks = vec![
        task(1, vec![], None, Some("a")),
        task(2, vec![1], None, Some("b")),
        task(3, vec![], Some(PlanGate::AfterFailure(1)), Some("c")),
    ];
    let exec = execution(ExecutionStatus::Running, 0);
    let mut steps = vec![
        step(0, StepStatus::Pending, Some("a")),
        step(1, StepStatus::Pending, Some("b")),
        step(2, StepStatus::Pending, Some("c")),
    ];
    assert_eq!(next_runnable_step_index(&Some(tasks_copy(&tasks)), &exec, &steps), Some(0));
    steps[0].status = StepStatus::Completed;
    assert_eq!(next_runnable_step_index(&Some(tasks_copy(&tasks)), &exec, &steps), Some(1));
    steps[1].status = StepStatus::Completed;
    // Task 3 waits for a failure of task 1, which succeeded: nothing runs.
    assert_eq!(next_runnable_step_index(&Some(tasks_copy(&tasks)), &exec, &steps), None);
    assert_eq!(
        plan_step_action(&exec, &Some(tasks_copy(&tasks)), &steps),
        StepAction::FailStuck
    );
    steps[0].status = StepStatus::Failed;
    assert_eq!(next_runnable_step_index(&Some(tasks_copy(&tasks)), &exec, &steps), Some(2));
}

fn tasks_copy(tasks: &[PlanTask]) -> Vec<PlanTask> {
    tasks.iter().map(|t| t.copy()).collect()
}

#[test]
fn without_a_plan_steps_run_in_order() {
    let steps = vec![step(0, StepStatus::Completed, None), step(1, StepStatus::Pending, None)];
    assert_eq!(next_runnable_step_index(&None, &execution(ExecutionStatus::Running, 1), &steps), Some(1));
    assert_eq!(next_runnable_step_index(&None, &execution(ExecutionStatus::Running, 2), &steps), None);
}

#[test]
fn scheduling_rounds_decide_skip_invoke_complete_or_refuse() {
    let steps = vec![step(0, StepStatus::Pending, None), step(1, StepStatus::Pending, Some("t"))];
    assert_eq!(
        plan_step_action(&execution(ExecutionStatus::Running, 0), &None, &steps),
        StepAction::Skip(0)
    );
    assert_eq!(
        plan_step_action(&execution(ExecutionStatus::Running, 1), &None, &steps),
        StepAction::Invoke(1)
    );
    let done = vec![step(0, StepStatus::Completed, None)];
    assert_eq!(
        plan_step_action(&execution(ExecutionStatus::Running, 1), &None, &done),
        StepAction::Complete
    );
    assert_eq!(
        plan_step_action(&execution(ExecutionStatus::Paused, 0), &None, &steps),
        StepAction::NotRunning(ExecutionStatus::Paused)
    );
    assert_eq!(
        not_running_message(ExecutionStatus::Paused),
        "Execution not in running state: Paused"
    );
}

#[test]
fn invocation_outcomes_map_to_verdicts() {
    assert!(matches!(
        judge_invocation(&Ok((ToolInvocationStatus::Success, None))),
        InvocationVerdict::Completed
    ));
    assert!(matches!(
        judge_invocation(&Ok((ToolInvocationStatus::Cancelled, Some("x".into())))),
        InvocationVerdict::Cancelled
    ));
    assert!(matches!(
        judge_invocation(&Ok((ToolInvocationStatus::Failed, None))),
        InvocationVerdict::Failed(ref e) if e == "tool invocation failed"
    ));
    assert!(matches!(
        judge_invocation(&Ok((ToolInvocationStatus::Failed, Some("boom".into())))),
        InvocationVerdict::Failed(ref e) if e == "boom"
    ));
    assert!(matches!(
        judge_invocation(&Err("offline".into())),
        InvocationVerdict::Failed(ref e) if e == "offline"
    ));
}

#[test]
fn event_messages_number_steps_from_one() {
    assert_eq!(step_started_message(0, "resume"), "Starting step 1: resume");
    assert_eq!(step_failed_message(9, "boom"), "Failed step 10: boom");
    assert_eq!(checkpoint_saved_message(2), "Checkpoint saved with 2 completed step(s)");
}

#[test]
fn checkpoints_list_settled_steps() {
    let steps = vec![
        step(0, StepStatus::Completed, None),
        step(1, StepStatus::Skipped, None),
        step(2, StepStatus::Failed, None),
        step(3, StepStatus::Pending, None),
        step(4, StepStatus::Completed, None),
    ];
    let (completed, skipped, failed) = settled_step_numbers(&steps);
    assert_eq!(completed, vec![0, 4]);
    assert_eq!(skipped, vec![1]);
    assert_eq!(failed, vec![2]);
}

#[test]
fn arguments_resolve_or_fail_with_the_marker() {
    let ctx = ExecutionContext::new(None, "the goal".into());
    let args = Some(Json::Object(vec![("q".into(), Json::Str("{{goal}}".into()))]));
    let resolved = prepare_arguments(Some(&ctx), &args).ok().unwrap();
    assert!(matches!(resolved, Json::Object(ref m) if matches!(&m[0].1, Json::Str(s) if s == "the goal")));
    let bad = Some(Json::Str("{{   }}".into()));
    let error = prepare_arguments(Some(&ctx), &bad).err().unwrap();
    assert_eq!(error, "unresolved variable: invalid template: empty template");
    let missing = Some(Json::Str("{{nope}}".into()));
    assert_eq!(
        prepare_arguments(Some(&ctx), &missing).err().unwrap(),
        "unresolved variable: nope"
    );
    assert!(matches!(prepare_arguments(None, &None).ok().unwrap(), Json::Object(ref m) if m.is_empty()));
}

#[test]
fn status_texts_round_trip() {
    for s in [
        ExecutionStatus::Pending,
        ExecutionStatus::Running,
        ExecutionStatus::Paused,
        ExecutionStatus::Completed,
        ExecutionStatus::Failed,
        ExecutionStatus::Cancelled,
    ] {
        assert_eq!(ExecutionStatus::parse(s.as_str()), Some(s));
    }
    assert_eq!(StepStatus::parse("skipped"), Some(StepStatus::Skipped));
    assert_eq!(ExecutionEventType::parse("checkpoint_loaded"), Some(ExecutionEventType::CheckpointLoaded));
    assert_eq!(ExecutionEventType::parse("bogus"), None);
    assert_eq!(AuditActor::AI.as_str(), "ai");
}

#[test]
fn plans_without_tasks_schedule_in_order() {
    let plan = ExecutionPlan {
        id: 1,
        workspace_id: None,
        goal: "g".into(),
        tasks: vec![],
        estimated_duration_minutes: 0,
        required_files: vec![],
        checkpoints: vec![],
        confidence: 500,
        reasoning: String::new(),
        status: PlanApprovalStatus::Pending,
        created_at: 0,
    };
    assert!(copilot_core::scheduler::scheduling_tasks(&plan).is_none());
}

#[test]
fn duplicate_task_ids_are_detected() {
    assert!(has_unique_task_ids(&vec![]));
    assert!(has_unique_task_ids(&vec![task(1, vec![], None, None), task(2, vec![1], None, None)]));
    assert!(!has_unique_task_ids(&vec![
        task(1, vec![], None, None),
        task(2, vec![], None, None),
        task(1, vec![], None, None),
    ]));
}

#[test]
fn settled_steps_write_what_their_run_came_to() {
    let skipped = settle_step(&StepRun::Skipped, false, 2, 2, "note");
    assert_eq!(skipped.status, StepStatus::Skipped);
    assert!(matches!(&skipped.result, StepResultText::Text(t) if t == "{\"reason\":\"No tool specified\",\"status\":\"skipped\"}"));
    assert!(skipped.event.is_none());
    assert!(matches!(skipped.next, ExecutionMove::Advance(3)));

    let done = settle_step(&StepRun::Invoked(Ok((ToolInvocationStatus::Success, None))), true, 0, 0, "open");
    assert_eq!(done.status, StepStatus::Completed);
    assert!(matches!(done.result, StepResultText::Invocation));
    assert_eq!(done.event, Some((ExecutionEventType::StepCompleted, "Completed step 1: open".to_string())));
    assert!(done.keeps_output);
    assert!(matches!(done.next, ExecutionMove::Advance(1)));

    let cancelled = settle_step(
        &StepRun::Invoked(Ok((ToolInvocationStatus::Cancelled, Some("stopped".into())))),
        false,
        0,
        0,
        "open",
    );
    assert_eq!(cancelled.status, StepStatus::Failed);
    assert_eq!(cancelled.error.as_deref(), Some("stopped"));
    assert!(cancelled.event.is_none());
    assert!(matches!(cancelled.next, ExecutionMove::Cancel));

    let failed = settle_step(&StepRun::Invoked(Ok((ToolInvocationStatus::Failed, None))), true, 4, 4, "open");
    assert_eq!(failed.error.as_deref(), Some("tool invocation failed"));
    assert_eq!(failed.event, Some((ExecutionEventType::StepFailed, "Failed step 5: tool invocation failed".to_string())));
    assert!(matches!(failed.result, StepResultText::Invocation));
    assert!(!failed.keeps_output);
    assert!(matches!(&failed.next, ExecutionMove::Fail(e) if e == "tool invocation failed"));

    let refused = settle_step(&StepRun::Invoked(Err("permission denied".into())), false, 0, 0, "open");
    assert!(matches!(refused.result, StepResultText::Nothing));
    assert_eq!(refused.error.as_deref(), Some("permission denied"));
    assert!(matches!(&refused.next, ExecutionMove::Fail(e) if e == "permission denied"));

    let unresolved = settle_step(&StepRun::Unresolved("unresolved variable: x".into()), false, 1, 1, "open");
    assert_eq!(unresolved.status, StepStatus::Failed);
    assert_eq!(unresolved.event, Some((ExecutionEventType::StepFailed, "Failed step 2: unresolved variable: x".to_string())));
    assert!(matches!(&unresolved.next, ExecutionMove::Fail(e) if e == "unresolved variable: x"));
}
