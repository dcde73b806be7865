use copilot_core::json::Json;
use copilot_core::plan::ToolInvocationStatus;
use copilot_core::tool_loop::{
    ends_loop, execution_error_feedback, feedback_content, LoopNext, RoundStart, ToolCallFeedback,
    ToolCallLoop, ToolCallLoopError, ToolCallLoopStatus, ToolInvocationResult, ToolLoopProgress,
    DEFAULT_MAX_TOOL_ITERATIONS,
};

fn invocation(status: ToolInvocationStatus, result: Option<Json>, error: Option<&str>) -> ToolInvocationResult {
    ToolInvocationResult {
        invocation_id: 1,
        tool_name: "read_file".into(),
        arguments: Json::Object(vec![]),
        status,
        result,
        error: error.map(|e| e.to_string()),
        started_at: 0,
        completed_at: 1,
        duration_ms: 1,
        attempts: 1,
    }
}

#[test]
fn limits_default_and_never_drop_below_one() {
    let tool_loop = ToolCallLoop::new(Some(3));
    assert_eq!(tool_loop.max_iterations(), DEFAULT_MAX_TOOL_ITERATIONS);
    assert_eq!(tool_loop.workspace_id(), Some(3));
    let tool_loop = tool_loop.with_max_iterations(0);
    assert_eq!(tool_loop.max_iterations(), 1);
    assert_eq!(tool_loop.start_round(0, false), RoundStart::Ask);
    assert_eq!(tool_loop.start_round(1, false), RoundStart::LimitReached);
    assert_eq!(tool_loop.start_round(0, true), RoundStart::Cancelled);
}

#[test]
fn an_answer_without_tool_calls_completes_the_loop() {
    let tool_loop = ToolCallLoop::new(None);
    let progress = match tool_loop.open_round(ToolLoopProgress::new(), false) {
        LoopNext::Continue(p) => p,
        LoopNext::Done(_) => panic!("the first round is asked"),
    };
    match tool_loop.close_round(progress, "done".into(), false) {
        LoopNext::Done(Ok(result)) => {
            assert_eq!(result.content, "done");
            assert_eq!(result.iterations, 1);
            assert!(result.executions.is_empty());
            assert_eq!(result.status, ToolCallLoopStatus::Completed);
        }
        _ => panic!("a plain answer ends the loop"),
    }
}

#[test]
fn tool_rounds_collect_executions_until_the_limit() {
    let tool_loop = ToolCallLoop::new(None).with_max_iterations(2);
    let mut progress = ToolLoopProgress::new();
    for round in 0..2 {
        progress = match tool_loop.open_round(progress, false) {
            LoopNext::Continue(p) => p,
            LoopNext::Done(_) => panic!("round {round} is asked"),
        };
        progress = match tool_loop.close_round(progress, String::new(), true) {
            LoopNext::Continue(p) => p,
            LoopNext::Done(_) => panic!("tool calls keep the loop going"),
        };
        let ran = ToolCallFeedback {
            invocation: Some(invocation(ToolInvocationStatus::Success, Some(Json::Bool(true)), None)),
            content: "true".into(),
        };
        assert_eq!(progress.record_feedback(ran), "true");
        let refused = ToolCallFeedback { invocation: None, content: execution_error_feedback("denied") };
        assert_eq!(progress.record_feedback(refused), "{\"error\":\"denied\"}");
    }
    assert_eq!(progress.iterations, 2);
    assert_eq!(progress.executions.len(), 2);
    match tool_loop.open_round(progress, false) {
        LoopNext::Done(Ok(result)) => {
            assert_eq!(result.content, "");
            assert_eq!(result.iterations, 2);
            assert_eq!(result.executions.len(), 2);
            assert_eq!(result.status, ToolCallLoopStatus::MaxIterationsReached);
        }
        _ => panic!("the limit ends the loop"),
    }
}

#[test]
fn a_cancelled_loop_fails() {
    let tool_loop = ToolCallLoop::new(None);
    match tool_loop.open_round(ToolLoopProgress::new(), true) {
        LoopNext::Done(Err(error)) => {
            assert!(matches!(error, ToolCallLoopError::Cancelled));
            assert_eq!(error.message(), "tool call loop cancelled");
        }
        _ => panic!("cancellation ends the loop"),
    }
}

#[test]
fn responses_end_the_loop_only_without_calls() {
    assert!(ends_loop::<u8>(&None));
    assert!(ends_loop::<u8>(&Some(vec![])));
    assert!(!ends_loop(&Some(vec![1u8])));
}

#[test]
fn feedback_renders_results_and_failures() {
    let ok = invocation(ToolInvocationStatus::Success, Some(Json::Number("3".into())), None);
    assert_eq!(feedback_content(&ok), "3");
    let empty = invocation(ToolInvocationStatus::Success, None, None);
    assert_eq!(feedback_content(&empty), "null");
    let failed = invocation(ToolInvocationStatus::Failed, None, Some("boom"));
    assert_eq!(feedback_content(&failed), "{\"error\":\"boom\",\"status\":\"failed\"}");
    let cancelled = invocation(ToolInvocationStatus::Cancelled, None, None);
    assert_eq!(feedback_content(&cancelled), "{\"error\":null,\"status\":\"cancelled\"}");
    let running = invocation(ToolInvocationStatus::Running, None, None);
    assert_eq!(feedback_content(&running), "null");
}
