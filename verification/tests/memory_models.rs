use std::hash::{Hash, Hasher};
use copilot_core::memory::{FailurePatternType, MemoryStatus};
use copilot_core::memory::{goal_fingerprint, outcome_from_report, text_hash, MemoryKind};
use copilot_core::plan::{ExecutionPlan, PlanApprovalStatus, PlanTask, PlannerReport};

fn task(description: &str) -> PlanTask {
    PlanTask {
        id: uuid::Uuid::new_v4().as_u128(),
        description: description.into(),
        dependencies: vec![],
        estimated_minutes: 1,
        required_files: vec![],
        tool_name: None,
        arguments: None,
        completed: false,
        condition: None,
    }
}

#[test]
fn goal_fingerprint_is_normalized() {
    assert_eq!(
        goal_fingerprint("  Resume   My Focus  Session "),
        "resume my focus session"
    );
    assert_eq!(
        goal_fingerprint("Resume my focus session"),
        goal_fingerprint("  RESUME my focus session  ")
    );
}

#[test]
fn outcome_from_report_counts_steps() {
    let report = PlannerReport {
        plan: ExecutionPlan {
            id: uuid::Uuid::new_v4().as_u128(),
            workspace_id: None,
            goal: "g".into(),
            tasks: vec![task("a"), task("b")],
            estimated_duration_minutes: 2,
            required_files: vec![],
            checkpoints: vec![],
            confidence: 800,
            reasoning: "".into(),
            status: PlanApprovalStatus::Pending,
            created_at: i128::from(chrono::Utc::now().timestamp_nanos_opt().unwrap()),
        },
        execution_id: None,
        completed: vec![uuid::Uuid::new_v4().as_u128()],
        skipped: vec![],
        replaced: vec![uuid::Uuid::new_v4().as_u128()],
        replan_count: 1,
        error: None,
    };
    let outcome = outcome_from_report(&report);
    assert_eq!(outcome.steps, 2);
    assert_eq!(outcome.completed, 1);
    assert_eq!(outcome.replaced, 1);
    assert_eq!(outcome.replan_count, 1);
}

#[test]
fn memory_kind_round_trips() {
    let text = MemoryKind::AutonomousSession.as_str();
    assert_eq!(text, "autonomous_session");
    let back = MemoryKind::parse(text).unwrap();
    assert!(matches!(back, MemoryKind::AutonomousSession));
}

#[test]
fn text_hash_is_stable_and_distinct() {
    assert_eq!(
        text_hash("resume my focus session"),
        text_hash("resume my focus session")
    );
    assert_ne!(
        text_hash("resume my focus session"),
        text_hash("organize receipts")
    );
    assert_eq!(text_hash("persist me"), text_hash("persist me"));
}

#[test]
fn text_hash_is_the_decimal_default_hash() {
    let mut hasher = std::collections::hash_map::DefaultHasher::new();
    "persist me".hash(&mut hasher);
    assert_eq!(text_hash("persist me"), hasher.finish().to_string());
}

#[test]
fn fingerprint_collapses_every_kind_of_white_space() {
    assert_eq!(goal_fingerprint("\tA\u{a0}b\n\nC  "), "a b c");
    assert_eq!(goal_fingerprint("   "), "");
    assert_eq!(goal_fingerprint(""), "");
    let once = goal_fingerprint("  Plan  The DAY ");
    assert_eq!(goal_fingerprint(&once), once);
}

#[test]
fn every_kind_and_status_has_its_text() {
    for kind in [MemoryKind::Execution, MemoryKind::PlannerReport, MemoryKind::AutonomousSession] {
        assert_eq!(MemoryKind::parse(kind.as_str()), Some(kind));
    }
    assert_eq!(MemoryKind::parse("nothing"), None);
    assert_eq!(MemoryStatus::Success.as_str(), "success");
    assert_eq!(MemoryStatus::Cancelled.as_str(), "cancelled");
    assert_eq!(FailurePatternType::UnstableWorkflow.as_str(), "unstable_workflow");
    assert_eq!(FailurePatternType::LowConfidencePlan.as_str(), "low_confidence_plan");
}
