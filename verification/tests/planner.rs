use std::collections::HashMap;

use copilot_core::goal_run::GoalRun;
use copilot_core::plan::{
    ExecutionPlan, PlanApprovalStatus, PlanGate, PlanTask, Planner, PlannerError,
    ToolInvocationStatus,
};
use copilot_core::tools::{ToolDefinition, ToolPermissionLevel, ToolRiskLevel};

fn new_id() -> u128 {
    uuid::Uuid::new_v4().as_u128()
}

fn tool(name: &str) -> ToolDefinition {
    ToolDefinition {
        name: name.into(),
        description: format!("{name} tool"),
        parameters: vec![],
        requires_confirmation: false,
        required_level: ToolPermissionLevel::Allowed,
        risk_level: ToolRiskLevel::Low,
    }
}

fn planner() -> Planner {
    Planner::new(vec![
        tool("list_workspaces"),
        tool("get_active_workspace"),
        tool("get_recent_events"),
        tool("search_timeline"),
        tool("get_session_summary"),
        tool("resume_workspace"),
    ])
}

fn seed_plan() -> ExecutionPlan {
    let a = new_id();
    let b = new_id();
    let c = new_id();
    let tasks = vec![
        PlanTask {
            id: a,
            description: "A".into(),
            dependencies: vec![],
            estimated_minutes: 1,
            required_files: vec![],
            tool_name: Some("list_workspaces".into()),
            arguments: None,
            completed: false,
            condition: None,
        },
        PlanTask {
            id: b,
            description: "B".into(),
            dependencies: vec![a],
            estimated_minutes: 2,
            required_files: vec![],
            tool_name: Some("get_recent_events".into()),
            arguments: None,
            completed: false,
            condition: Some(PlanGate::AfterSuccess(a)),
        },
        PlanTask {
            id: c,
            description: "C".into(),
            dependencies: vec![b],
            estimated_minutes: 3,
            required_files: vec![],
            tool_name: Some("get_session_summary".into()),
            arguments: None,
            completed: false,
            condition: Some(PlanGate::AfterSuccess(b)),
        },
    ];
    ExecutionPlan {
        id: new_id(),
        workspace_id: None,
        goal: "plan generation".into(),
        tasks,
        estimated_duration_minutes: 6,
        required_files: vec![],
        checkpoints: vec![],
        confidence: 800,
        reasoning: "test".into(),
        status: PlanApprovalStatus::Pending,
        created_at: i128::from(chrono::Utc::now().timestamp_nanos_opt().unwrap()),
    }
}

#[test]
fn plan_generation_produces_dependency_aware_steps() {
    let planner = planner();
    let plan = planner
        .plan(None, false, "Resume my focus session", &vec![])
        .ok()
        .expect("plan should generate");
    assert!(!plan.tasks.is_empty());
    assert!(plan.tasks.len() >= 3, "expected a chain, got {}", plan.tasks.len());

    for task in &plan.tasks {
        assert!(
            task.dependencies
                .iter()
                .all(|dep| plan.tasks.iter().any(|other| other.id == *dep)),
            "dependency {} must reference an existing task",
            task.id
        );
    }
    assert!(
        plan.tasks.iter().any(|t| t.condition.is_some()),
        "expected at least one conditional gate"
    );

    let ordered = planner
        .dependency_order(&plan)
        .ok()
        .expect("dependency plan must be topologically sortable");
    assert_eq!(ordered.len(), plan.tasks.len());
}

#[test]
fn dependency_resolution_orders_and_detects_cycles() {
    let planner = planner();

    let plan = seed_plan();
    let ordered = planner
        .dependency_order(&plan)
        .ok()
        .expect("acyclic plan should produce an order");
    assert_eq!(ordered.len(), 3);
    assert_eq!(ordered[0].id, plan.tasks[0].id);

    let mut cyclic = seed_plan();
    let id_a = cyclic.tasks[0].id;
    let id_b = cyclic.tasks[1].id;
    let id_c = cyclic.tasks[2].id;
    cyclic.tasks[1].dependencies = vec![id_a, id_c];
    cyclic.tasks[2].dependencies = vec![id_b];
    assert!(
        matches!(planner.dependency_order(&cyclic), Err(PlannerError::DependencyCycle)),
        "cycle must be detected"
    );
}

#[test]
fn replanning_after_failure_keeps_remaining_steps() {
    let planner = planner();
    let first_plan = seed_plan();
    let failed = first_plan.tasks[1].id;

    let replanned = planner
        .replan_after_failure(&first_plan, &vec![], failed)
        .ok()
        .expect("replan should succeed");
    assert!(
        replanned.tasks.iter().all(|t| t.id != failed),
        "failed task must be dropped"
    );
    assert!(!replanned.tasks.is_empty(), "surviving work must remain");
    assert!(
        replanned.tasks.iter().any(|t| t.condition.is_none()),
        "replanned steps should no longer gate on the failed predecessor"
    );
    assert!(replanned.confidence < first_plan.confidence);
}

#[test]
fn conditional_execution_honors_gates() {
    let planner = planner();
    let mut outcomes = HashMap::new();
    let precedent = new_id();

    assert!(planner.condition_satisfied(None, &outcomes));

    assert!(!planner.condition_satisfied(Some(PlanGate::AfterSuccess(precedent)), &outcomes));
    outcomes.insert(precedent, ToolInvocationStatus::Success);
    assert!(planner.condition_satisfied(Some(PlanGate::AfterSuccess(precedent)), &outcomes));

    outcomes.insert(precedent, ToolInvocationStatus::Success);
    assert!(!planner.condition_satisfied(Some(PlanGate::AfterFailure(precedent)), &outcomes));
    outcomes.insert(precedent, ToolInvocationStatus::Failed);
    assert!(planner.condition_satisfied(Some(PlanGate::AfterFailure(precedent)), &outcomes));
}

#[test]
fn planner_cancellation_returns_cancelled() {
    let planner = planner();
    let result = planner.plan(Some(1), true, "resume work", &vec![]);
    assert!(
        matches!(result, Err(PlannerError::Cancelled)),
        "plan must abort on a cancelled token"
    );

    // a goal run whose token is already cancelled stops before any step
    let mut run = GoalRun::new(seed_plan());
    assert!(matches!(run.begin_pass(true), Err(PlannerError::Cancelled)));
}
