use copilot_core::tools::{ToolDefinition, ToolPermissionLevel, ToolRiskLevel};
use copilot_core::autonomous::{
    approval_required, ApprovalMode, ApprovalPolicy, AutonomousSessionProgress, AutonomousStatus,
    ExecutionPolicy, ToolRiskLookup,
};
use copilot_core::plan::{ExecutionPlan, PlanApprovalStatus, PlanTask};

fn base_progress_with_status(status: AutonomousStatus) -> AutonomousSessionProgress {
    AutonomousSessionProgress {
        session_id: uuid::Uuid::new_v4().as_u128(),
        workspace_id: None,
        goal: "g".into(),
        status,
        policy: ExecutionPolicy::default(),
        reasoning: vec![],
        current_plan: None,
        execution_id: None,
        last_execution_id: None,
        plans_attempted: 0,
        plans_completed: 0,
        steps_completed: 0,
        retries_used: 0,
        replans_used: 0,
        steps_left: 0,
        error: None,
        pending_approval: None,
        created_at: i128::from(chrono::Utc::now().timestamp_nanos_opt().unwrap()),
        updated_at: i128::from(chrono::Utc::now().timestamp_nanos_opt().unwrap()),
    }
}

fn one_task_plan(tool: &str) -> ExecutionPlan {
    ExecutionPlan {
        id: uuid::Uuid::new_v4().as_u128(),
        workspace_id: None,
        goal: "g".into(),
        tasks: vec![PlanTask {
            id: uuid::Uuid::new_v4().as_u128(),
            description: "resume".into(),
            dependencies: vec![],
            estimated_minutes: 1,
            required_files: vec![],
            tool_name: Some(tool.into()),
            arguments: None,
            completed: false,
            condition: None,
        }],
        estimated_duration_minutes: 0,
        required_files: vec![],
        checkpoints: vec![],
        confidence: 900,
        reasoning: "".into(),
        status: PlanApprovalStatus::Pending,
        created_at: i128::from(chrono::Utc::now().timestamp_nanos_opt().unwrap()),
    }
}

#[test]
fn default_policy_matches_backward_compatible_limits() {
    let policy = ExecutionPolicy::default();
    assert_eq!(policy.budget.max_replans, 3);
    assert_eq!(policy.retry.max_attempts, 1);
    assert_eq!(policy.timeout.step_timeout_ms(), 10_000);
    assert!(matches!(policy.approval.mode, ApprovalMode::Automatic));
}

#[test]
fn approval_modes_require_pause_consistently() {
    assert!(!ApprovalMode::Automatic.requires_pause());
    assert!(ApprovalMode::OnRisk.requires_pause());
    assert!(ApprovalMode::Manual.requires_pause());
}

#[test]
fn terminal_sessions_are_detected() {
    assert!(!base_progress_with_status(AutonomousStatus::Running).terminal());
    assert!(base_progress_with_status(AutonomousStatus::Completed).terminal());
    assert!(base_progress_with_status(AutonomousStatus::Failed).terminal());
    assert!(base_progress_with_status(AutonomousStatus::Cancelled).terminal());
    assert!(!base_progress_with_status(AutonomousStatus::WaitingApproval).terminal());
    assert!(!base_progress_with_status(AutonomousStatus::Paused).terminal());
}

#[test]
fn approval_required_respects_policy_mode() {
    let plan = one_task_plan("resume_workspace");
    let meta = ToolRiskLookup {
        confirmation: vec!["resume_workspace".into()],
        high_risk: vec![],
    };
    let auto = ApprovalPolicy::default();
    assert!(!approval_required(&auto, &plan, &meta).0);

    let manual = ApprovalPolicy {
        mode: ApprovalMode::Manual,
        gate_replans: false,
    };
    assert!(approval_required(&manual, &plan, &meta).0);
}

#[test]
fn on_risk_mode_names_the_risky_step() {
    let plan = one_task_plan("resume_workspace");
    let confirm = ToolRiskLookup {
        confirmation: vec!["resume_workspace".into()],
        high_risk: vec![],
    };
    let on_risk = ApprovalPolicy {
        mode: ApprovalMode::OnRisk,
        gate_replans: false,
    };
    assert_eq!(
        approval_required(&on_risk, &plan, &confirm),
        (true, "step 'resume' requires operator confirmation".to_string())
    );
    let high = ToolRiskLookup {
        confirmation: vec![],
        high_risk: vec!["resume_workspace".into()],
    };
    assert_eq!(
        approval_required(&on_risk, &plan, &high),
        (true, "step 'resume' is high risk".to_string())
    );
    let none = ToolRiskLookup {
        confirmation: vec![],
        high_risk: vec![],
    };
    assert_eq!(approval_required(&on_risk, &plan, &none), (false, String::new()));
    let manual = ApprovalPolicy {
        mode: ApprovalMode::Manual,
        gate_replans: false,
    };
    assert_eq!(
        approval_required(&manual, &plan, &none).1,
        "manual approval mode"
    );
    let mut empty = one_task_plan("x");
    empty.tasks.clear();
    assert_eq!(approval_required(&manual, &empty, &none), (false, String::new()));
}

#[test]
fn risk_lookup_collects_registry_metadata() {
    let def = |name: &str, confirm: bool, risk: ToolRiskLevel| ToolDefinition {
        name: name.into(),
        description: String::new(),
        parameters: vec![],
        requires_confirmation: confirm,
        required_level: ToolPermissionLevel::Allowed,
        risk_level: risk,
    };
    let lookup = ToolRiskLookup::build(&vec![
        def("a", true, ToolRiskLevel::Low),
        def("b", false, ToolRiskLevel::High),
        def("c", true, ToolRiskLevel::High),
        def("d", false, ToolRiskLevel::Medium),
    ]);
    assert_eq!(lookup.confirmation, vec!["a".to_string(), "c".to_string()]);
    assert_eq!(lookup.high_risk, vec!["b".to_string(), "c".to_string()]);
}

#[test]
fn timeout_policy_falls_back_to_default_step_timeout() {
    let mut policy = ExecutionPolicy::default();
    policy.timeout.step_timeout_ms = 0;
    assert_eq!(policy.timeout.step_timeout_ms(), 10_000);
    policy.timeout.step_timeout_ms = 2_500;
    assert_eq!(policy.timeout.step_timeout_ms(), 2_500);
    policy.timeout.plan_timeout_seconds = 7;
    policy.timeout.approval_timeout_seconds = 9;
    assert_eq!(policy.timeout.plan_timeout_s(), 7);
    assert_eq!(policy.timeout.approval_timeout_s(), 9);
    assert_eq!(policy.budget.max_steps, 50);
    assert_eq!(policy.budget.max_plans, 8);
    assert_eq!(policy.budget.max_duration_seconds, 3600);
    assert_eq!(policy.retry.backoff_ms, 250);
}
