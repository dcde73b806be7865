use copilot_core::streaming::{StreamStatus, StreamingSessionManager};

#[test]
fn a_started_stream_is_running_and_counted() {
    let mut manager = StreamingSessionManager::new();
    let started = manager.start_stream(7, 1_000);
    assert_eq!(started.conversation_id, 7);
    assert_eq!(started.status, StreamStatus::Started);
    assert!(started.content.is_none() && started.message_id.is_none() && started.error.is_none());
    assert!(manager.cancel_stream(started.stream_id));
    assert_eq!(manager.active_count(), 1);
    assert_eq!(manager.metrics.started_streams, 1);
}

#[test]
fn finishing_reports_the_conversation_and_duration() {
    let mut manager = StreamingSessionManager::new();
    let started = manager.start_stream(42, 1_000);
    manager.record_first_token(started.stream_id, 1_250);
    assert_eq!(manager.metrics.total_first_token_latency_ms, 250);
    assert_eq!(manager.metrics.first_token_samples, 1);
    let chunk = manager.emit_chunk(started.stream_id, 42, "Hel".to_string());
    assert_eq!(chunk.status, StreamStatus::Streaming);
    assert_eq!(chunk.content.as_deref(), Some("Hel"));
    assert_eq!(manager.metrics.streamed_tokens, 1);
    let finished = manager.finish_stream(started.stream_id, 99, 3_000).expect("the stream was running");
    assert_eq!(finished.conversation_id, 42);
    assert_eq!(finished.status, StreamStatus::Completed);
    assert_eq!(finished.message_id, Some(99));
    assert_eq!(manager.metrics.finished_streams, 1);
    assert_eq!(manager.metrics.total_stream_duration_ms, 2_000);
    assert_eq!(manager.metrics.stream_duration_samples, 1);
    assert_eq!(manager.active_count(), 0);
}

#[test]
fn a_stream_ends_only_once() {
    let mut manager = StreamingSessionManager::new();
    let started = manager.start_stream(1, 0);
    assert!(manager.cancel_finished_stream(started.stream_id, 5).is_some());
    assert!(manager.finish_stream(started.stream_id, 3, 6).is_none());
    assert!(manager.error_stream(started.stream_id, "late".to_string(), 7).is_none());
    assert!(!manager.cancel_stream(started.stream_id));
    assert_eq!(manager.metrics.cancelled_streams, 1);
    assert_eq!(manager.metrics.finished_streams, 0);
    assert_eq!(manager.metrics.stream_errors, 0);
    assert_eq!(manager.metrics.stream_duration_samples, 1);
}

#[test]
fn errors_carry_their_text_and_leave_other_streams_running() {
    let mut manager = StreamingSessionManager::new();
    let first = manager.start_stream(1, 10);
    let second = manager.start_stream(2, 20);
    let failed = manager.error_stream(first.stream_id, "provider down".to_string(), 15).unwrap();
    assert_eq!(failed.status, StreamStatus::Failed);
    assert_eq!(failed.error.as_deref(), Some("provider down"));
    assert_eq!(failed.conversation_id, 1);
    assert!(manager.cancel_stream(second.stream_id));
    assert_eq!(manager.active_count(), 1);
    assert_eq!(manager.metrics.stream_errors, 1);
}

#[test]
fn first_token_of_an_unknown_stream_counts_nothing() {
    let mut manager = StreamingSessionManager::new();
    manager.record_first_token(5, 100);
    assert_eq!(manager.metrics.first_token_samples, 0);
    assert_eq!(manager.metrics.total_first_token_latency_ms, 0);
}

#[test]
fn a_clock_reading_before_the_start_counts_no_time() {
    let mut manager = StreamingSessionManager::new();
    let started = manager.start_stream(3, 500);
    manager.finish_stream(started.stream_id, 1, 400).unwrap();
    assert_eq!(manager.metrics.total_stream_duration_ms, 0);
    assert_eq!(manager.metrics.stream_duration_samples, 1);
}
