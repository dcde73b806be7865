use copilot_core::autonomous::{
    ApprovalMode, ApprovalRequest, AutonomousStatus, ExecutionBudget, ExecutionPolicy,
    ReasoningEvent, ReasoningPhase, ToolRiskLookup,
};
use copilot_core::json::Json;
use copilot_core::execution::{ExecutionStatus, ExecutionStep, StepStatus};
use copilot_core::plan::{ExecutionPlan, PlanApprovalStatus, PlanTask};
use copilot_core::session::{
    approval_requested_message, budget_breach, classify_run, decide_cancel, decide_pause,
    decide_recovery, decide_resume, driving_plan_message, goal_reached_message, keeps_waiting,
    loop_gate, planning_failed_message, planning_failure_status, recovery_note, replan_feedback,
    run_failed_message, run_timed_out_message, session_started_message, steps_left,
    timeout_message, unable_to_replan_message, validate_goal, ControlDecision, GatePoll, LoopGate,
    Recovery, RunFollowUp, RunOutcome, SessionCore, REASONING_EVENT_CAP,
};

fn plan() -> ExecutionPlan {
    ExecutionPlan {
        id: 7,
        workspace_id: None,
        goal: "g".into(),
        tasks: vec![],
        estimated_duration_minutes: 0,
        required_files: vec![],
        checkpoints: vec![],
        confidence: 500,
        reasoning: String::new(),
        status: PlanApprovalStatus::Pending,
        created_at: 0,
    }
}

fn step(n: usize, status: StepStatus, tool: Option<&str>, error: Option<&str>) -> ExecutionStep {
    ExecutionStep {
        id: n as u128,
        execution_id: 1,
        step_number: n,
        description: String::new(),
        tool_name: tool.map(|t| t.to_string()),
        arguments: None,
        status,
        result: None,
        error: error.map(|e| e.to_string()),
        started_at: None,
        completed_at: None,
        created_at: 0,
    }
}

#[test]
fn budget_gate_reports_the_first_exhausted_budget() {
    let budget = ExecutionBudget::default();
    assert_eq!(budget_breach(&budget, 0, 0, 0), None);
    assert_eq!(
        budget_breach(&budget, 50, 0, 0),
        Some("step budget (50) exhausted after 50 steps".to_string())
    );
    assert_eq!(
        budget_breach(&budget, 1, 3600, 0),
        Some("duration budget (3600s) exhausted".to_string())
    );
    assert_eq!(
        budget_breach(&budget, 1, 1, 8),
        Some("plan budget (8) exhausted after 8 plans".to_string())
    );
    let unlimited = ExecutionBudget { max_steps: 0, max_plans: 0, max_replans: 0, max_duration_seconds: 0 };
    assert_eq!(budget_breach(&unlimited, 1000, 1000, 1000), None);
    assert_eq!(steps_left(50, 20), 30);
    assert_eq!(steps_left(50, 80), 0);
}

#[test]
fn recovery_retries_then_replans_then_gives_up() {
    let policy = ExecutionPolicy::default();
    assert!(matches!(decide_recovery(&policy, 0, 0, "boom", false), Recovery::Retry));
    assert!(matches!(decide_recovery(&policy, 1, 0, "boom", false), Recovery::Replan));
    match decide_recovery(&policy, 1, 3, "boom", false) {
        Recovery::Exhausted(m) => {
            assert_eq!(m, "Recovery budget exhausted (1 retries, 3 replans): boom")
        }
        _ => panic!("expected exhaustion"),
    }
    match decide_recovery(&policy, 0, 0, "unresolved variable: x", false) {
        Recovery::Unrecoverable(m) => {
            assert_eq!(m, "Unrecoverable resolution failure: unresolved variable: x")
        }
        _ => panic!("expected an unrecoverable failure"),
    }
    let mut strict = ExecutionPolicy::default();
    strict.retry.retry_on_timeout = false;
    assert!(matches!(decide_recovery(&strict, 0, 0, "slow", true), Recovery::Replan));
}

#[test]
fn run_outcomes_read_the_first_failed_step() {
    let steps = vec![
        step(0, StepStatus::Completed, Some("a"), None),
        step(1, StepStatus::Failed, Some("b"), Some("bad")),
        step(2, StepStatus::Skipped, None, None),
    ];
    match classify_run(ExecutionStatus::Failed, &steps, &plan()) {
        RunOutcome::Failed { error, tool_name, failed_step, steps_done } => {
            assert_eq!(error, "bad");
            assert_eq!(tool_name.as_deref(), Some("b"));
            assert_eq!(failed_step, None);
            assert_eq!(steps_done, 2);
        }
        _ => panic!("expected a failure"),
    }
    assert!(matches!(
        classify_run(ExecutionStatus::Completed, &steps, &plan()),
        RunOutcome::Completed { steps_done: 2 }
    ));
    match classify_run(ExecutionStatus::Running, &steps, &plan()) {
        RunOutcome::Failed { error, .. } => {
            assert_eq!(error, "execution did not reach a terminal state")
        }
        _ => panic!("expected a failure"),
    }
}

#[test]
fn approvals_are_decided_once() {
    let mut core = SessionCore::new(1, None, "g".into(), ExecutionPolicy::default(), 0);
    assert!(core.resolve_approval(true, None, 5).is_err());
    core.open_approval(
        ApprovalRequest {
            request_id: 9,
            session_id: 1,
            goal: "g".into(),
            plan: plan(),
            reason: "manual approval mode".into(),
            requested_at: 1,
            decided_at: None,
            approved: None,
            note: None,
        },
        1,
    );
    assert_eq!(core.status, AutonomousStatus::WaitingApproval);
    assert_eq!(core.poll_approval(false), GatePoll::Wait);
    assert_eq!(core.poll_approval(true), GatePoll::Cancelled);
    assert!(core.resolve_approval(false, Some("no".into()), 5).is_ok());
    assert_eq!(core.status, AutonomousStatus::Cancelled);
    assert_eq!(core.poll_approval(true), GatePoll::Rejected);
    assert!(core.resolve_approval(true, None, 6).is_err());
}

#[test]
fn reasoning_log_keeps_the_newest_events() {
    let mut core = SessionCore::new(1, None, "g".into(), ExecutionPolicy::default(), 0);
    for i in 0..(REASONING_EVENT_CAP + 5) {
        core.record_reasoning(
            ReasoningEvent {
                session_id: 1,
                phase: ReasoningPhase::Observed,
                message: format!("m{i}"),
                detail: None,
                created_at: i as i128,
            },
            i as i128,
        );
    }
    assert_eq!(core.reasoning.len(), REASONING_EVENT_CAP);
    assert_eq!(core.reasoning[0].message, "m5");
    assert_eq!(core.reasoning.last().unwrap().message, format!("m{}", REASONING_EVENT_CAP + 4));
}

#[test]
fn operator_controls_follow_the_status() {
    assert_eq!(decide_pause(AutonomousStatus::Running), ControlDecision::Apply);
    assert_eq!(decide_pause(AutonomousStatus::Paused), ControlDecision::Unchanged);
    assert_eq!(decide_pause(AutonomousStatus::Completed), ControlDecision::NotActive);
    assert_eq!(decide_resume(AutonomousStatus::Paused), ControlDecision::Apply);
    assert_eq!(decide_resume(AutonomousStatus::Running), ControlDecision::NotActive);
    assert_eq!(decide_cancel(AutonomousStatus::Cancelled), ControlDecision::Terminal);
    assert_eq!(decide_cancel(AutonomousStatus::WaitingApproval), ControlDecision::Apply);
    assert!(validate_goal("   ").is_err());
    assert!(validate_goal("resume work").is_ok());
}

#[test]
fn loop_gate_checks_cancellation_then_status_then_budget() {
    let breach = Some("step budget of 3 reached".to_string());
    assert!(matches!(loop_gate(true, AutonomousStatus::Running, &breach), LoopGate::Cancel));
    assert!(matches!(loop_gate(false, AutonomousStatus::Paused, &breach), LoopGate::Wait));
    match loop_gate(false, AutonomousStatus::Running, &breach) {
        LoopGate::Exhausted(m) => {
            assert_eq!(m, "Execution budget exceeded: step budget of 3 reached")
        }
        _ => panic!("a breached budget ends the session"),
    }
    assert!(matches!(loop_gate(false, AutonomousStatus::Running, &None), LoopGate::Continue));
    assert!(keeps_waiting(AutonomousStatus::Paused, false));
    assert!(!keeps_waiting(AutonomousStatus::Paused, true));
    assert!(!keeps_waiting(AutonomousStatus::Running, false));
    assert_eq!(planning_failure_status(true), AutonomousStatus::Cancelled);
    assert_eq!(planning_failure_status(false), AutonomousStatus::Failed);
}

#[test]
fn session_messages_read_as_the_runtime_reports_them() {
    assert_eq!(
        session_started_message("tidy inbox"),
        "Starting autonomous session for goal: tidy inbox"
    );
    assert_eq!(planning_failed_message("no tools"), "Planning failed: no tools");
    assert_eq!(
        driving_plan_message(4),
        "Driving the 4-step plan through the execution engine"
    );
    assert_eq!(goal_reached_message(12), "Goal reached: 12 steps completed");
    assert_eq!(approval_requested_message("g"), "Approval requested: g");
    assert_eq!(run_failed_message("boom"), "Plan run failed: boom");
    assert_eq!(run_timed_out_message("slow"), "Plan run timed out: slow");
    assert_eq!(unable_to_replan_message("cycle"), "Unable to replan: cycle");
    assert_eq!(timeout_message(90), "plan ran past the 90s deadline");
    assert_eq!(
        recovery_note(&Recovery::Retry),
        "Retrying the failed plan run with the same step"
    );
    assert_eq!(recovery_note(&Recovery::Replan), "Replanning around the failed step");
}

#[test]
fn replan_feedback_marks_exhausted_retries() {
    let retry = replan_feedback(Some(5), "tool failed", &Recovery::Retry);
    assert_eq!(retry.failed, Some(5));
    assert!(retry.tool_name.is_none());
    assert_eq!(retry.error.as_deref(), Some("tool failed"));
    assert!(!retry.retry_exhausted);
    let replan = replan_feedback(None, "x", &Recovery::Replan);
    assert!(replan.retry_exhausted);
}

#[test]
fn session_bookkeeping_tracks_runs_and_recoveries() {
    let mut core = SessionCore::new(1, Some(2), "g".into(), ExecutionPolicy::default(), 0);
    core.begin_run(40, 1);
    assert_eq!(core.execution_id, Some(40));
    assert_eq!(core.last_execution_id, Some(40));
    assert_eq!(core.plans_attempted, 1);
    core.note_steps_done(2, 2);
    assert_eq!(core.steps_completed, 2);
    core.note_attempted_tool(Some("resume_workspace"));
    core.note_attempted_tool(Some("resume_workspace"));
    core.note_attempted_tool(None);
    assert_eq!(core.attempted_tools, vec!["resume_workspace".to_string()]);
    core.apply_recovery(&Recovery::Retry, 3);
    core.apply_recovery(&Recovery::Replan, 4);
    assert_eq!((core.retries_used, core.replans_used), (1, 1));
    assert_eq!(core.status, AutonomousStatus::Running);
    assert_eq!(core.reasoning.last().map(|e| e.phase), Some(ReasoningPhase::Replanning));
    core.apply_recovery(&Recovery::Exhausted("out of replans".into()), 5);
    assert_eq!(core.status, AutonomousStatus::Failed);
    assert_eq!(core.error.as_deref(), Some("out of replans"));
    assert_eq!(core.updated_at, 5);
    let last = core.reasoning.last().unwrap();
    assert_eq!(last.phase, ReasoningPhase::Terminal);
    assert_eq!(last.message, "out of replans");
    assert_eq!(last.created_at, 5);

    let mut done = SessionCore::new(3, None, "g".into(), ExecutionPolicy::default(), 0);
    done.begin_run(9, 1);
    done.finish_completed(plan(), 3, 7);
    assert_eq!(done.status, AutonomousStatus::Completed);
    assert_eq!(done.plans_completed, 1);
    assert_eq!(done.steps_completed, 3);
    assert!(done.execution_id.is_none());
    assert_eq!(done.current_plan.as_ref().map(|p| p.id), Some(7));
    done.set_status(AutonomousStatus::Paused, 8);
    done.set_error("late".into(), 9);
    assert_eq!(done.status, AutonomousStatus::Paused);
    assert_eq!(done.error.as_deref(), Some("late"));
    assert_eq!(done.updated_at, 9);
}

#[test]
fn an_expired_checkpoint_is_rejected_with_a_note() {
    let mut core = SessionCore::new(1, None, "g".into(), ExecutionPolicy::default(), 0);
    core.open_approval(
        ApprovalRequest {
            request_id: 11,
            session_id: 1,
            goal: "g".into(),
            plan: plan(),
            reason: "needs a look".into(),
            requested_at: 1,
            decided_at: None,
            approved: None,
            note: None,
        },
        1,
    );
    core.expire_approval(2);
    let pending = core.pending_approval.as_ref().unwrap();
    assert_eq!(pending.approved, Some(false));
    assert_eq!(pending.decided_at, Some(2));
    assert_eq!(pending.note.as_deref(), Some("approval timeout"));
    core.close_approval(false, 3);
    assert!(core.pending_approval.is_none());
    assert_eq!(core.status, AutonomousStatus::Cancelled);
}

#[test]
fn progress_snapshots_the_session() {
    let mut core = SessionCore::new(4, Some(8), "ship it".into(), ExecutionPolicy::default(), 10);
    core.record_reasoning(
        ReasoningEvent {
            session_id: 4,
            phase: ReasoningPhase::Observed,
            message: "looked around".into(),
            detail: None,
            created_at: 11,
        },
        11,
    );
    core.begin_run(21, 12);
    core.note_steps_done(45, 13);
    core.set_error("partial".into(), 14);
    let progress = core.progress();
    assert_eq!(progress.session_id, 4);
    assert_eq!(progress.workspace_id, Some(8));
    assert_eq!(progress.goal, "ship it");
    assert_eq!(progress.status, AutonomousStatus::Running);
    assert_eq!(progress.reasoning.len(), 1);
    assert_eq!(progress.reasoning[0].message, "looked around");
    assert_eq!(progress.execution_id, Some(21));
    assert_eq!(progress.plans_attempted, 1);
    assert_eq!(progress.steps_completed, 45);
    // the default step budget is 50
    assert_eq!(progress.steps_left, 5);
    assert_eq!(progress.error.as_deref(), Some("partial"));
    assert!(progress.current_plan.is_none());
    assert!(progress.pending_approval.is_none());
    assert_eq!((progress.created_at, progress.updated_at), (10, 14));

    core.note_steps_done(10, 15);
    assert_eq!(core.progress().steps_left, 0, "an overspent budget leaves nothing");
}

fn one_task_plan() -> ExecutionPlan {
    let mut p = plan();
    p.tasks.push(PlanTask {
        id: 1,
        description: "open".into(),
        dependencies: vec![],
        estimated_minutes: 1,
        required_files: vec![],
        tool_name: Some("open_file".into()),
        arguments: None,
        completed: false,
        condition: None,
    });
    p
}

fn no_risks() -> ToolRiskLookup {
    ToolRiskLookup { confirmation: vec![], high_risk: vec![] }
}

#[test]
fn a_completed_run_finishes_the_session() {
    let mut core = SessionCore::new(1, None, "g".into(), ExecutionPolicy::default(), 0);
    core.begin_run(9, 1);
    let next = core.take_run_outcome(plan(), RunOutcome::Completed { steps_done: 3 }, 2);
    assert!(matches!(next, RunFollowUp::Ended));
    assert_eq!(core.status, AutonomousStatus::Completed);
    assert_eq!((core.plans_completed, core.steps_completed), (1, 3));
    assert!(core.execution_id.is_none());
    let last = core.reasoning.last().unwrap();
    assert_eq!(last.phase, ReasoningPhase::Terminal);
    assert_eq!(last.message, "Goal reached: 3 steps completed");
    assert_eq!(last.created_at, 2);
    match &last.detail {
        Some(Json::Object(members)) => {
            assert_eq!(members.len(), 1);
            assert_eq!(members[0].0, "goal");
            assert!(matches!(&members[0].1, Json::Str(g) if g == "g"));
        }
        _ => panic!("the goal is the detail"),
    }
}

#[test]
fn cancelled_and_paused_runs_end_or_wait() {
    let mut core = SessionCore::new(1, None, "g".into(), ExecutionPolicy::default(), 0);
    let next = core.take_run_outcome(plan(), RunOutcome::Paused, 1);
    assert!(matches!(next, RunFollowUp::AwaitResume));
    assert_eq!(core.status, AutonomousStatus::Paused);
    assert_eq!(core.reasoning.last().unwrap().phase, ReasoningPhase::Pause);
    assert_eq!(core.reasoning.last().unwrap().message, "Plan run paused; awaiting resume");
    let next = core.take_run_outcome(plan(), RunOutcome::Cancelled, 2);
    assert!(matches!(next, RunFollowUp::Ended));
    assert_eq!(core.status, AutonomousStatus::Cancelled);
    assert_eq!(core.reasoning.last().unwrap().phase, ReasoningPhase::Terminal);
    assert_eq!(core.reasoning.last().unwrap().message, "Execution cancelled");
    assert_eq!(core.plans_completed, 0);
}

#[test]
fn failed_and_timed_out_runs_go_to_recovery() {
    let mut core = SessionCore::new(1, None, "g".into(), ExecutionPolicy::default(), 0);
    let next = core.take_run_outcome(plan(), RunOutcome::Timeout("deadline".into()), 1);
    match next {
        RunFollowUp::Recover { failed_step, error, timed_out } => {
            assert_eq!(failed_step, None);
            assert_eq!(error, "deadline");
            assert!(timed_out);
        }
        _ => panic!("a timeout is recovered from"),
    }
    assert_eq!(core.status, AutonomousStatus::Running);
    assert_eq!(core.reasoning.last().unwrap().phase, ReasoningPhase::Replanning);
    assert_eq!(core.reasoning.last().unwrap().message, "Plan run timed out: deadline");

    let failed = RunOutcome::Failed {
        error: "boom".into(),
        tool_name: Some("open_file".into()),
        failed_step: Some(4),
        steps_done: 2,
    };
    let next = core.take_run_outcome(plan(), failed, 2);
    match next {
        RunFollowUp::Recover { failed_step, error, timed_out } => {
            assert_eq!(failed_step, Some(4));
            assert_eq!(error, "boom");
            assert!(!timed_out);
        }
        _ => panic!("a failure is recovered from"),
    }
    assert_eq!(core.steps_completed, 2);
    assert_eq!(core.attempted_tools, vec!["open_file".to_string()]);
    let last = core.reasoning.last().unwrap();
    assert_eq!(last.phase, ReasoningPhase::Observed);
    assert_eq!(last.message, "Plan run failed: boom");
    assert!(matches!(&last.detail, Some(Json::Object(m)) if m.len() == 1 && m[0].0 == "tool"));
}

#[test]
fn a_plan_needing_no_approval_proceeds_untouched() {
    let mut policy = ExecutionPolicy::default();
    policy.approval.mode = ApprovalMode::Automatic;
    let mut core = SessionCore::new(1, None, "g".into(), policy, 0);
    assert!(!core.enter_approval_gate(&one_task_plan(), &no_risks(), 5));
    assert_eq!(core.status, AutonomousStatus::Running);
    assert!(core.pending_approval.is_none());
    assert!(core.reasoning.is_empty());
    assert_eq!(core.updated_at, 0);
}

#[test]
fn a_manual_policy_parks_the_session_on_a_request() {
    let mut policy = ExecutionPolicy::default();
    policy.approval.mode = ApprovalMode::Manual;
    let mut core = SessionCore::new(1, None, "g".into(), policy, 0);
    assert!(core.enter_approval_gate(&one_task_plan(), &no_risks(), 5));
    assert_eq!(core.status, AutonomousStatus::WaitingApproval);
    let request = core.pending_approval.as_ref().unwrap();
    assert_eq!(request.reason, "manual approval mode");
    assert_eq!(request.requested_at, 5);
    assert_eq!(request.approved, None);
    let last = core.reasoning.last().unwrap();
    assert_eq!(last.phase, ReasoningPhase::AwaitingApproval);
    assert_eq!(last.message, "Approval requested: g");
    let id = uuid::Uuid::from_u128(request.request_id).to_string();
    assert!(matches!(&last.detail, Some(Json::Object(m)) if matches!(&m[0].1, Json::Str(s) if *s == id)));
}
