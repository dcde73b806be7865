use copilot_core::ids::{instant_of, millis_of};
use copilot_core::execution::{ExecutionStatus, StepStatus};
use copilot_core::json::Json;
use copilot_core::rows::{
    execution_from_row, executions_from_rows, parse_execution_status, parse_step_status, step_from_row,
    steps_from_rows, ExecutionRow, StepRow,
};

const ID: &str = "67e55044-10b1-426f-9247-bb680e5fe0c8";
const PLAN: &str = "936da01f-9abd-4d9d-80c7-02af85c822a8";

fn execution_row() -> ExecutionRow {
    ExecutionRow {
        id: ID.to_string(),
        plan_id: PLAN.to_string(),
        conversation_id: None,
        status: "running".to_string(),
        current_step: 2,
        total_steps: 5,
        started_at: Some("2024-01-01T00:00:00Z".to_string()),
        completed_at: None,
        error: Some("none yet".to_string()),
        created_at: "2023-12-31T23:59:59.500Z".to_string(),
        updated_at: "2024-01-01T01:00:00+01:00".to_string(),
    }
}

fn step_row(number: i64) -> StepRow {
    StepRow {
        id: ID.to_string(),
        execution_id: PLAN.to_string(),
        step_number: number,
        description: format!("step {number}"),
        tool_name: Some("list_workspaces".to_string()),
        arguments: Some(Json::Null),
        status: "completed".to_string(),
        result: Some("ok".to_string()),
        error: None,
        started_at: None,
        completed_at: Some("2024-01-01T00:00:01Z".to_string()),
        created_at: "2024-01-01T00:00:00Z".to_string(),
    }
}

fn err<T>(r: Result<T, String>) -> String {
    match r {
        Err(e) => e,
        Ok(_) => panic!("expected an error"),
    }
}

fn uuid_error(text: &str) -> String {
    uuid::Uuid::parse_str(text).unwrap_err().to_string()
}

#[test]
fn an_execution_row_decodes() {
    let execution = execution_from_row(execution_row()).unwrap();
    assert_eq!(execution.id, uuid::Uuid::parse_str(ID).unwrap().as_u128());
    assert_eq!(execution.plan_id, uuid::Uuid::parse_str(PLAN).unwrap().as_u128());
    assert_eq!(execution.conversation_id, None);
    assert_eq!(execution.status, ExecutionStatus::Running);
    assert_eq!(execution.current_step, 2);
    assert_eq!(execution.total_steps, 5);
    assert_eq!(execution.started_at, Some(1_704_067_200_000_000_000));
    assert_eq!(execution.completed_at, None);
    assert_eq!(execution.error.as_deref(), Some("none yet"));
    assert_eq!(execution.created_at, 1_704_067_199_500_000_000);
    assert_eq!(execution.updated_at, 1_704_067_200_000_000_000);
}

#[test]
fn the_first_bad_column_names_the_error() {
    let mut row = execution_row();
    row.plan_id = "not-a-uuid".to_string();
    row.status = "weird".to_string();
    assert_eq!(err(execution_from_row(row)), uuid_error("not-a-uuid"));
    let mut row = execution_row();
    row.status = "weird".to_string();
    row.created_at = "yesterday".to_string();
    assert_eq!(err(execution_from_row(row)), "Unknown execution status: weird");
    let mut row = execution_row();
    row.created_at = "yesterday".to_string();
    let expected = chrono::DateTime::parse_from_rfc3339("yesterday").unwrap_err().to_string();
    assert_eq!(err(execution_from_row(row)), expected);
}

#[test]
fn statuses_read_back_or_name_the_unknown_text() {
    assert_eq!(parse_execution_status("paused").unwrap(), ExecutionStatus::Paused);
    assert_eq!(err(parse_execution_status("Paused")), "Unknown execution status: Paused");
    assert_eq!(parse_step_status("skipped").unwrap(), StepStatus::Skipped);
    assert_eq!(err(parse_step_status("done")), "Unknown step status: done");
}

#[test]
fn step_rows_decode_in_order() {
    let step = step_from_row(step_row(1)).unwrap();
    assert_eq!(step.step_number, 1);
    assert_eq!(step.description, "step 1");
    assert_eq!(step.status, StepStatus::Completed);
    assert_eq!(step.completed_at, Some(1_704_067_201_000_000_000));
    assert!(matches!(step.arguments, Some(Json::Null)));
    let steps = steps_from_rows(vec![step_row(1), step_row(2), step_row(3)]).unwrap();
    assert_eq!(steps.iter().map(|s| s.step_number).collect::<Vec<_>>(), vec![1, 2, 3]);
    assert!(steps_from_rows(vec![]).unwrap().is_empty());
}

#[test]
fn one_bad_row_fails_the_list() {
    let mut bad = step_row(2);
    bad.status = "lost".to_string();
    let mut worse = step_row(3);
    worse.id = "x".to_string();
    assert_eq!(err(steps_from_rows(vec![step_row(1), bad, worse])), "Unknown step status: lost");
    let mut broken = execution_row();
    broken.conversation_id = Some("zz".to_string());
    assert_eq!(err(executions_from_rows(vec![execution_row(), broken])), uuid_error("zz"));
    assert_eq!(executions_from_rows(vec![execution_row(), execution_row()]).unwrap().len(), 2);
}

#[test]
fn stored_times_keep_their_nanoseconds() {
    let mut early = step_row(1);
    early.created_at = "2024-01-01T00:00:00.000000100Z".to_string();
    let mut late = step_row(2);
    late.created_at = "2024-01-01T00:00:00.000000500Z".to_string();
    let early = step_from_row(early).ok().unwrap();
    let late = step_from_row(late).ok().unwrap();
    assert_eq!(early.created_at, 1_704_067_200_000_000_100);
    assert_eq!(late.created_at - early.created_at, 400);
}

#[test]
fn times_count_nanoseconds_and_round_milliseconds_down() {
    assert_eq!(instant_of(1, 5), 1_000_000_005);
    assert_eq!(instant_of(-1, 500_000_000), -500_000_000);
    assert_eq!(millis_of(1_999_999), 1);
    assert_eq!(millis_of(-1), -1);
    assert_eq!(millis_of(-1_000_000), -1);
    assert_eq!(millis_of(-1_000_001), -2);
    let t = chrono::DateTime::parse_from_rfc3339("1969-12-31T23:59:59.999500Z").unwrap();
    assert_eq!(millis_of(instant_of(t.timestamp(), t.timestamp_subsec_nanos())), i128::from(t.timestamp_millis()));
}
