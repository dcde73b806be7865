//! Streaming responses: the status a stream event carries, the counters
//! behind the streaming diagnostics, and the bookkeeping of running
//! streams.

use vstd::prelude::*;
use std::collections::HashMap;
use crate::ids::new_id;

verus! {

/// Status carried by a stream event.
#[derive(Debug, Clone, Copy, PartialEq, Eq, Structural)]
pub enum StreamStatus {
    Started,
    Streaming,
    Completed,
    Cancelled,
    Failed,
}

/// One event of a streamed response.
pub struct StreamEventPayload {
    pub stream_id: u128,
    pub conversation_id: u128,
    pub content: Option<String>,
    pub message_id: Option<u128>,
    pub status: StreamStatus,
    pub error: Option<String>,
}

/// Counters of streamed responses. Every counter wraps around at the top
/// of `u64`, as an atomic `fetch_add` does.
pub struct StreamingMetricsCollector {
    pub started_streams: u64,
    pub finished_streams: u64,
    pub cancelled_streams: u64,
    pub stream_errors: u64,
    pub streamed_tokens: u64,
    pub total_first_token_latency_ms: u64,
    pub first_token_samples: u64,
    pub total_stream_duration_ms: u64,
    pub stream_duration_samples: u64,
}

/// `a + b`, wrapping at the top of `u64`.
pub open spec fn wrapped(a: u64, b: u64) -> u64 {
    if a + b > u64::MAX {
        (a + b - u64::MAX - 1) as u64
    } else {
        (a + b) as u64
    }
}

/// The counters of a collector, in field order: started, finished,
/// cancelled, errors, tokens, first-token latency total and samples,
/// duration total and samples.
pub open spec fn counters(c: StreamingMetricsCollector) -> Seq<u64> {
    seq![
        c.started_streams,
        c.finished_streams,
        c.cancelled_streams,
        c.stream_errors,
        c.streamed_tokens,
        c.total_first_token_latency_ms,
        c.first_token_samples,
        c.total_stream_duration_ms,
        c.stream_duration_samples,
    ]
}

impl Default for StreamingMetricsCollector {
    fn default() -> (r: Self)
        ensures
            r.started_streams == 0 && r.finished_streams == 0 && r.cancelled_streams == 0 && r.stream_errors == 0
                && r.streamed_tokens == 0 && r.total_first_token_latency_ms == 0 && r.first_token_samples == 0
                && r.total_stream_duration_ms == 0 && r.stream_duration_samples == 0,
    {
        StreamingMetricsCollector {
            started_streams: 0,
            finished_streams: 0,
            cancelled_streams: 0,
            stream_errors: 0,
            streamed_tokens: 0,
            total_first_token_latency_ms: 0,
            first_token_samples: 0,
            total_stream_duration_ms: 0,
            stream_duration_samples: 0,
        }
    }
}

impl StreamingMetricsCollector {
    /// Counts a started stream.
    pub fn record_started(&mut self)
        ensures
            counters(*final(self)) == counters(*old(self)).update(0, wrapped(old(self).started_streams, 1)),
    {
        self.started_streams = self.started_streams.wrapping_add(1);
    }

    /// Counts a finished stream.
    pub fn record_finished(&mut self)
        ensures
            counters(*final(self)) == counters(*old(self)).update(1, wrapped(old(self).finished_streams, 1)),
    {
        self.finished_streams = self.finished_streams.wrapping_add(1);
    }

    /// Counts a cancelled stream.
    pub fn record_cancelled(&mut self)
        ensures
            counters(*final(self)) == counters(*old(self)).update(2, wrapped(old(self).cancelled_streams, 1)),
    {
        self.cancelled_streams = self.cancelled_streams.wrapping_add(1);
    }

    /// Counts a stream that ended in an error.
    pub fn record_error(&mut self)
        ensures
            counters(*final(self)) == counters(*old(self)).update(3, wrapped(old(self).stream_errors, 1)),
    {
        self.stream_errors = self.stream_errors.wrapping_add(1);
    }

    /// Counts a streamed token.
    pub fn record_token(&mut self)
        ensures
            counters(*final(self)) == counters(*old(self)).update(4, wrapped(old(self).streamed_tokens, 1)),
    {
        self.streamed_tokens = self.streamed_tokens.wrapping_add(1);
    }

    /// Adds a first-token latency sample.
    pub fn record_first_token_latency(&mut self, latency_ms: u64)
        ensures
            counters(*final(self)) == counters(*old(self)).update(5, wrapped(old(self).total_first_token_latency_ms, latency_ms)).update(6, wrapped(old(self).first_token_samples, 1)),
    {
        self.total_first_token_latency_ms = self.total_first_token_latency_ms.wrapping_add(latency_ms);
        self.first_token_samples = self.first_token_samples.wrapping_add(1);
    }

    /// Adds a stream duration sample.
    pub fn record_stream_duration(&mut self, duration_ms: u64)
        ensures
            counters(*final(self)) == counters(*old(self)).update(7, wrapped(old(self).total_stream_duration_ms, duration_ms)).update(8, wrapped(old(self).stream_duration_samples, 1)),
    {
        self.total_stream_duration_ms = self.total_stream_duration_ms.wrapping_add(duration_ms);
        self.stream_duration_samples = self.stream_duration_samples.wrapping_add(1);
    }
}

/// A stream that has started and not ended: its conversation and the
/// reading of a monotonic clock, in milliseconds, when it started.
#[derive(Clone, Copy)]
pub struct ActiveStream {
    pub conversation_id: u128,
    pub started_at_ms: u64,
}

/// The milliseconds from `start` to `now`; none when the clock reading is
/// not later.
pub open spec fn elapsed(now: u64, start: u64) -> u64 {
    if now >= start {
        (now - start) as u64
    } else {
        0
    }
}

/// The counters of a collector that has counted nothing.
pub open spec fn no_counts() -> Seq<u64> {
    seq![0u64, 0u64, 0u64, 0u64, 0u64, 0u64, 0u64, 0u64, 0u64]
}

/// The counters after a stream that ran `duration` milliseconds ended in
/// the way counted at position `which`.
pub open spec fn ended_counts(c: StreamingMetricsCollector, which: int, duration: u64) -> Seq<u64> {
    counters(c).update(7, wrapped(c.total_stream_duration_ms, duration)).update(
        8,
        wrapped(c.stream_duration_samples, 1),
    ).update(which, wrapped(counters(c)[which], 1))
}

/// The bookkeeping of streamed responses: the streams that are running,
/// keyed by stream, and the streaming counters. Its view is the map of
/// running streams. Cancelling a stream's work and emitting its events
/// are left to the caller.
pub struct StreamingSessionManager {
    pub active: HashMap<u128, ActiveStream>,
    pub metrics: StreamingMetricsCollector,
}

impl View for StreamingSessionManager {
    type V = Map<u128, ActiveStream>;

    open spec fn view(&self) -> Map<u128, ActiveStream> {
        self.active@
    }
}

impl StreamingSessionManager {
    /// A manager with no running stream and nothing counted.
    pub fn new() -> (r: Self)
        ensures
            r@ == Map::<u128, ActiveStream>::empty(),
            counters(r.metrics) == no_counts(),
    {
        let r = StreamingSessionManager { active: HashMap::new(), metrics: StreamingMetricsCollector::default() };
        assert(counters(r.metrics) =~= no_counts());
        r
    }

    /// Starts a stream for a conversation under a fresh identifier, counts
    /// it, and returns the `Started` event.
    pub fn start_stream(&mut self, conversation_id: u128, now_ms: u64) -> (r: StreamEventPayload)
        ensures
            final(self)@ == old(self)@.insert(
                r.stream_id,
                ActiveStream { conversation_id, started_at_ms: now_ms },
            ),
            counters(final(self).metrics) == counters(old(self).metrics).update(
                0,
                wrapped(old(self).metrics.started_streams, 1),
            ),
            r.conversation_id == conversation_id,
            r.status == StreamStatus::Started,
            r.content is None && r.message_id is None && r.error is None,
    {
        broadcast use vstd::std_specs::hash::group_hash_axioms;
        let stream_id = new_id();
        self.active.insert(stream_id, ActiveStream { conversation_id, started_at_ms: now_ms });
        self.metrics.record_started();
        StreamEventPayload {
            stream_id,
            conversation_id,
            content: None,
            message_id: None,
            status: StreamStatus::Started,
            error: None,
        }
    }

    /// Whether a stream is running, so that its work is to be cancelled.
    pub fn cancel_stream(&self, stream_id: u128) -> (r: bool)
        ensures
            r == self@.contains_key(stream_id),
    {
        broadcast use vstd::std_specs::hash::group_hash_axioms;
        self.active.contains_key(&stream_id)
    }

    /// The number of running streams.
    pub fn active_count(&self) -> (r: usize)
        ensures
            r == self@.len(),
    {
        broadcast use vstd::std_specs::hash::group_hash_axioms;
        self.active.len()
    }

    /// Counts a streamed token and returns the `Streaming` event carrying
    /// it.
    pub fn emit_chunk(&mut self, stream_id: u128, conversation_id: u128, content: String) -> (r: StreamEventPayload)
        ensures
            final(self)@ == old(self)@,
            counters(final(self).metrics) == counters(old(self).metrics).update(
                4,
                wrapped(old(self).metrics.streamed_tokens, 1),
            ),
            r.stream_id == stream_id && r.conversation_id == conversation_id,
            r.content matches Some(c) && c@ == content@,
            r.status == StreamStatus::Streaming && r.message_id is None && r.error is None,
    {
        self.metrics.record_token();
        StreamEventPayload {
            stream_id,
            conversation_id,
            content: Some(content),
            message_id: None,
            status: StreamStatus::Streaming,
            error: None,
        }
    }

    /// Adds the time to the first token of a running stream to the
    /// latency counters; a stream that is not running adds nothing.
    pub fn record_first_token(&mut self, stream_id: u128, now_ms: u64)
        ensures
            final(self)@ == old(self)@,
            old(self)@.contains_key(stream_id) ==> counters(final(self).metrics) == counters(
                old(self).metrics,
            ).update(
                5,
                wrapped(
                    old(self).metrics.total_first_token_latency_ms,
                    elapsed(now_ms, old(self)@[stream_id].started_at_ms),
                ),
            ).update(6, wrapped(old(self).metrics.first_token_samples, 1)),
            !old(self)@.contains_key(stream_id) ==> counters(final(self).metrics) == counters(old(self).metrics),
    {
        broadcast use vstd::std_specs::hash::group_hash_axioms;
        match self.active.get(&stream_id) {
            Some(stream) => {
                let latency = now_ms.saturating_sub(stream.started_at_ms);
                self.metrics.record_first_token_latency(latency);
            },
            None => {},
        }
    }

    /// Takes a running stream out of the manager and adds its duration to
    /// the duration counters.
    fn cleanup(&mut self, stream_id: u128, now_ms: u64) -> (r: Option<ActiveStream>)
        ensures
            final(self)@ == old(self)@.remove(stream_id),
            old(self)@.contains_key(stream_id) ==> r == Some(old(self)@[stream_id]) && counters(final(self).metrics)
                == counters(old(self).metrics).update(
                7,
                wrapped(
                    old(self).metrics.total_stream_duration_ms,
                    elapsed(now_ms, old(self)@[stream_id].started_at_ms),
                ),
            ).update(8, wrapped(old(self).metrics.stream_duration_samples, 1)),
            !old(self)@.contains_key(stream_id) ==> r is None && counters(final(self).metrics) == counters(
                old(self).metrics,
            ),
    {
        broadcast use vstd::std_specs::hash::group_hash_axioms;
        let stream = self.active.remove(&stream_id);
        match stream {
            Some(s) => {
                let duration = now_ms.saturating_sub(s.started_at_ms);
                self.metrics.record_stream_duration(duration);
            },
            None => {},
        }
        stream
    }

    /// Ends a running stream with the message it produced: it is removed,
    /// its duration and its completion are counted, and the `Completed`
    /// event is returned. A stream that is not running gives no event and
    /// changes nothing.
    pub fn finish_stream(&mut self, stream_id: u128, message_id: u128, now_ms: u64) -> (r: Option<StreamEventPayload>)
        ensures
            final(self)@ == old(self)@.remove(stream_id),
            old(self)@.contains_key(stream_id) ==> (r matches Some(p) && p.stream_id == stream_id
                && p.conversation_id == old(self)@[stream_id].conversation_id && p.status == StreamStatus::Completed
                && p.message_id == Some(message_id) && p.content is None && p.error is None) && counters(
                final(self).metrics,
            ) == ended_counts(old(self).metrics, 1, elapsed(now_ms, old(self)@[stream_id].started_at_ms)),
            !old(self)@.contains_key(stream_id) ==> r is None && counters(final(self).metrics) == counters(
                old(self).metrics,
            ),
    {
        match self.cleanup(stream_id, now_ms) {
            Some(stream) => {
                self.metrics.record_finished();
                Some(
                    StreamEventPayload {
                        stream_id,
                        conversation_id: stream.conversation_id,
                        content: None,
                        message_id: Some(message_id),
                        status: StreamStatus::Completed,
                        error: None,
                    },
                )
            },
            None => None,
        }
    }

    /// Ends a running stream whose work was cancelled: it is removed, its
    /// duration and its cancellation are counted, and the `Cancelled`
    /// event is returned. A stream that is not running gives no event and
    /// changes nothing.
    pub fn cancel_finished_stream(&mut self, stream_id: u128, now_ms: u64) -> (r: Option<StreamEventPayload>)
        ensures
            final(self)@ == old(self)@.remove(stream_id),
            old(self)@.contains_key(stream_id) ==> (r matches Some(p) && p.stream_id == stream_id
                && p.conversation_id == old(self)@[stream_id].conversation_id && p.status == StreamStatus::Cancelled
                && p.message_id is None && p.content is None && p.error is None) && counters(final(self).metrics)
                == ended_counts(old(self).metrics, 2, elapsed(now_ms, old(self)@[stream_id].started_at_ms)),
            !old(self)@.contains_key(stream_id) ==> r is None && counters(final(self).metrics) == counters(
                old(self).metrics,
            ),
    {
        match self.cleanup(stream_id, now_ms) {
            Some(stream) => {
                self.metrics.record_cancelled();
                Some(
                    StreamEventPayload {
                        stream_id,
                        conversation_id: stream.conversation_id,
                        content: None,
                        message_id: None,
                        status: StreamStatus::Cancelled,
                        error: None,
                    },
                )
            },
            None => None,
        }
    }

    /// Ends a running stream with an error: it is removed, its duration
    /// and the error are counted, and the `Failed` event carrying the error
    /// is returned. A stream that is not running gives no event and changes
    /// nothing.
    pub fn error_stream(&mut self, stream_id: u128, error: String, now_ms: u64) -> (r: Option<StreamEventPayload>)
        ensures
            final(self)@ == old(self)@.remove(stream_id),
            old(self)@.contains_key(stream_id) ==> (r matches Some(p) && p.stream_id == stream_id
                && p.conversation_id == old(self)@[stream_id].conversation_id && p.status == StreamStatus::Failed
                && p.message_id is None && p.content is None && (p.error matches Some(e) && e@ == error@))
                && counters(final(self).metrics) == ended_counts(
                old(self).metrics,
                3,
                elapsed(now_ms, old(self)@[stream_id].started_at_ms),
            ),
            !old(self)@.contains_key(stream_id) ==> r is None && counters(final(self).metrics) == counters(
                old(self).metrics,
            ),
    {
        match self.cleanup(stream_id, now_ms) {
            Some(stream) => {
                self.metrics.record_error();
                Some(
                    StreamEventPayload {
                        stream_id,
                        conversation_id: stream.conversation_id,
                        content: None,
                        message_id: None,
                        status: StreamStatus::Failed,
                        error: Some(error),
                    },
                )
            },
            None => None,
        }
    }
}

/// A stream ends once: after it has been ended, it is no longer running,
/// so ending it again gives no event and changes nothing.
pub proof fn lemma_stream_ends_once(running: Map<u128, ActiveStream>, stream_id: u128)
    ensures
        !running.remove(stream_id).contains_key(stream_id),
        running.remove(stream_id).remove(stream_id) == running.remove(stream_id),
{
    assert(running.remove(stream_id).remove(stream_id) =~= running.remove(stream_id));
}

/// The end of a stream reports the conversation it was started for, and
/// starting and then ending a stream leaves the other streams as they
/// were.
pub proof fn lemma_end_reports_start(running: Map<u128, ActiveStream>, stream_id: u128, started: ActiveStream)
    ensures
        running.insert(stream_id, started).contains_key(stream_id),
        running.insert(stream_id, started)[stream_id].conversation_id == started.conversation_id,
        running.insert(stream_id, started).remove(stream_id) == running.remove(stream_id),
{
    assert(running.insert(stream_id, started).remove(stream_id) =~= running.remove(stream_id));
}

} // verus!
