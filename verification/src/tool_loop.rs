//! The decisions of the provider-native tool calling loop: when a round
//! may start, how its response ends the loop or continues it, and the
//! feedback text a tool invocation gives the model. The loop's owner asks
//! the model and runs the tools.

use vstd::prelude::*;
use crate::json::{Json, JsonView, lemma_members_view, members_view};
use crate::json_text::{json_text, json_to_text};
use crate::plan::ToolInvocationStatus;

verus! {

/// Default maximum number of model round-trips in one loop.
pub const DEFAULT_MAX_TOOL_ITERATIONS: usize = 8;

/// How a tool loop finished.
#[derive(Debug, Clone, Copy, PartialEq, Eq, Structural)]
pub enum ToolCallLoopStatus {
    /// The model returned a plain answer.
    Completed,
    /// The iteration limit was reached.
    MaxIterationsReached,
}

/// The record of one tool invocation. Times are nanoseconds since the Unix
/// epoch.
pub struct ToolInvocationResult {
    pub invocation_id: u128,
    pub tool_name: String,
    pub arguments: Json,
    pub status: ToolInvocationStatus,
    pub result: Option<Json>,
    pub error: Option<String>,
    pub started_at: i128,
    pub completed_at: i128,
    pub duration_ms: u64,
    pub attempts: u32,
}

/// The result of a tool loop.
pub struct ToolCallLoopResult {
    /// The final answer (empty when the iteration limit cut the loop short).
    pub content: String,
    /// Model round-trips performed.
    pub iterations: usize,
    pub status: ToolCallLoopStatus,
    /// Every tool invocation executed, in order.
    pub executions: Vec<ToolInvocationResult>,
}

/// A tool execution and the feedback the model reads about it.
pub struct ToolCallFeedback {
    pub invocation: Option<ToolInvocationResult>,
    pub content: String,
}

/// Errors of the tool loop.
pub enum ToolCallLoopError {
    /// The loop was cancelled.
    Cancelled,
    /// The responder failed with this message.
    Responder(String),
    /// A tool execution failed with this message.
    Execution(String),
}

impl ToolCallLoopError {
    /// The error's message.
    pub fn message(&self) -> (r: String)
        ensures
            r@ == match self {
                ToolCallLoopError::Cancelled => "tool call loop cancelled"@,
                ToolCallLoopError::Responder(m) => m@,
                ToolCallLoopError::Execution(m) => m@,
            },
    {
        match self {
            ToolCallLoopError::Cancelled => String::from_str("tool call loop cancelled"),
            ToolCallLoopError::Responder(m) => m.clone(),
            ToolCallLoopError::Execution(m) => m.clone(),
        }
    }
}

/// The configuration of a tool loop: its workspace and iteration limit.
pub struct ToolCallLoop {
    workspace_id: Option<u128>,
    max_iterations: usize,
}

/// What happens at the start of a round.
#[derive(Debug, Clone, Copy, PartialEq, Eq, Structural)]
pub enum RoundStart {
    /// The loop was cancelled.
    Cancelled,
    /// The iteration limit is reached: the loop ends without an answer.
    LimitReached,
    /// The model is asked again.
    Ask,
}

impl ToolCallLoop {
    /// A loop over the workspace with the default iteration limit.
    pub fn new(workspace_id: Option<u128>) -> (r: Self)
        ensures
            r.workspace() == workspace_id,
            r.limit() == DEFAULT_MAX_TOOL_ITERATIONS,
    {
        ToolCallLoop { workspace_id, max_iterations: DEFAULT_MAX_TOOL_ITERATIONS }
    }

    /// The iteration limit.
    pub closed spec fn limit(&self) -> usize {
        self.max_iterations
    }

    /// The workspace the loop's tools run in.
    pub closed spec fn workspace(&self) -> Option<u128> {
        self.workspace_id
    }

    /// The workspace the loop's tools run in.
    pub fn workspace_id(&self) -> (r: Option<u128>)
        ensures
            r == self.workspace(),
    {
        self.workspace_id
    }

    /// The loop with another iteration limit (at least one round).
    pub fn with_max_iterations(self, max_iterations: usize) -> (r: Self)
        ensures
            r.workspace() == self.workspace(),
            r.limit() == if max_iterations < 1 {
                1
            } else {
                max_iterations
            },
    {
        let limit = if max_iterations < 1 {
            1
        } else {
            max_iterations
        };
        ToolCallLoop { workspace_id: self.workspace_id, max_iterations: limit }
    }

    /// The iteration limit.
    pub fn max_iterations(&self) -> (r: usize)
        ensures
            r == self.limit(),
    {
        self.max_iterations
    }

    /// Decides the start of a round after `iterations` round-trips: a
    /// cancellation ends the loop first, then the iteration limit.
    pub fn start_round(&self, iterations: usize, cancelled: bool) -> (r: RoundStart)
        ensures
            r == if cancelled {
                RoundStart::Cancelled
            } else if iterations >= self.limit() {
                RoundStart::LimitReached
            } else {
                RoundStart::Ask
            },
    {
        if cancelled {
            RoundStart::Cancelled
        } else if iterations >= self.max_iterations {
            RoundStart::LimitReached
        } else {
            RoundStart::Ask
        }
    }
}

/// How far a tool loop has come: the model round-trips made and the tool
/// invocations run, in order.
pub struct ToolLoopProgress {
    pub iterations: usize,
    pub executions: Vec<ToolInvocationResult>,
}

/// What the loop does next.
pub enum LoopNext {
    /// The loop is over with this outcome.
    Done(Result<ToolCallLoopResult, ToolCallLoopError>),
    /// The loop goes on with this progress.
    Continue(ToolLoopProgress),
}

impl ToolLoopProgress {
    /// No round made and no tool run.
    pub fn new() -> (r: Self)
        ensures
            r.iterations == 0,
            r.executions@.len() == 0,
    {
        ToolLoopProgress { iterations: 0, executions: Vec::new() }
    }

    /// Takes in the feedback of one tool call: its invocation, when the
    /// tool ran, joins the executions; the content is what the model reads
    /// in the call's result message.
    pub fn record_feedback(&mut self, feedback: ToolCallFeedback) -> (content: String)
        ensures
            content == feedback.content,
            final(self).iterations == old(self).iterations,
            final(self).executions@ == match feedback.invocation {
                Some(i) => old(self).executions@.push(i),
                None => old(self).executions@,
            },
    {
        match feedback.invocation {
            Some(invocation) => self.executions.push(invocation),
            None => {},
        }
        feedback.content
    }
}

impl ToolCallLoop {
    /// The top of a round: a cancelled loop fails with
    /// [`ToolCallLoopError::Cancelled`]; a loop at its iteration limit ends
    /// with no answer, its round-trips and executions, and
    /// `MaxIterationsReached`; otherwise the model is asked again.
    pub fn open_round(&self, progress: ToolLoopProgress, cancelled: bool) -> (r: LoopNext)
        ensures
            cancelled ==> (r matches LoopNext::Done(Err(e)) && e is Cancelled),
            !cancelled && progress.iterations >= self.limit() ==> (r matches LoopNext::Done(Ok(res)) && {
                &&& res.content@.len() == 0
                &&& res.iterations == progress.iterations
                &&& res.executions@ == progress.executions@
                &&& res.status == ToolCallLoopStatus::MaxIterationsReached
            }),
            !cancelled && progress.iterations < self.limit() ==> (r matches LoopNext::Continue(p) && p
                == progress),
    {
        match self.start_round(progress.iterations, cancelled) {
            RoundStart::Cancelled => LoopNext::Done(Err(ToolCallLoopError::Cancelled)),
            RoundStart::LimitReached => LoopNext::Done(
                Ok(
                    ToolCallLoopResult {
                        content: String::new(),
                        iterations: progress.iterations,
                        status: ToolCallLoopStatus::MaxIterationsReached,
                        executions: progress.executions,
                    },
                ),
            ),
            RoundStart::Ask => LoopNext::Continue(progress),
        }
    }

    /// Takes in the model's answer to a round: one more round-trip; an
    /// answer without tool calls ends the loop with its content,
    /// `Completed`; one with tool calls goes on to run them.
    pub fn close_round(&self, progress: ToolLoopProgress, content: String, has_tool_calls: bool) -> (r: LoopNext)
        requires
            progress.iterations < usize::MAX,
        ensures
            !has_tool_calls ==> (r matches LoopNext::Done(Ok(res)) && {
                &&& res.content == content
                &&& res.iterations == progress.iterations + 1
                &&& res.executions@ == progress.executions@
                &&& res.status == ToolCallLoopStatus::Completed
            }),
            has_tool_calls ==> (r matches LoopNext::Continue(p) && p.iterations == progress.iterations + 1
                && p.executions@ == progress.executions@),
    {
        let iterations = progress.iterations + 1;
        if !has_tool_calls {
            LoopNext::Done(
                Ok(
                    ToolCallLoopResult {
                        content,
                        iterations,
                        status: ToolCallLoopStatus::Completed,
                        executions: progress.executions,
                    },
                ),
            )
        } else {
            LoopNext::Continue(ToolLoopProgress { iterations, executions: progress.executions })
        }
    }
}

/// Whether a response ends the loop: it carries no tool call.
pub fn ends_loop<T>(tool_calls: &Option<Vec<T>>) -> (r: bool)
    ensures
        r == match tool_calls {
            None => true,
            Some(calls) => calls@.len() == 0,
        },
{
    match tool_calls {
        None => true,
        Some(calls) => calls.len() == 0,
    }
}

/// The text of an invocation status in feedback.
pub open spec fn invocation_status_text(s: ToolInvocationStatus) -> Seq<char> {
    match s {
        ToolInvocationStatus::Pending => "pending"@,
        ToolInvocationStatus::Running => "running"@,
        ToolInvocationStatus::Success => "success"@,
        ToolInvocationStatus::Failed => "failed"@,
        ToolInvocationStatus::Cancelled => "cancelled"@,
    }
}

/// The object reporting a failed or cancelled invocation: its error (or
/// `null`) and its status.
pub open spec fn failure_object(status: ToolInvocationStatus, error: Option<Seq<char>>) -> JsonView {
    JsonView::Object(seq![("error"@, error_value(error)), ("status"@, JsonView::Str(invocation_status_text(status)))])
}

/// An optional error as a JSON value: its text, or `null`.
pub open spec fn error_value(error: Option<Seq<char>>) -> JsonView {
    match error {
        Some(e) => JsonView::Str(e),
        None => JsonView::Null,
    }
}

/// The feedback the model reads about an invocation: the result's JSON
/// text for a success (`null` without one), the JSON text of the
/// [`failure_object`] for a failure or cancellation, and `null` otherwise.
pub open spec fn feedback_text(status: ToolInvocationStatus, result: Option<JsonView>, error: Option<Seq<char>>) -> Seq<
    char,
> {
    match status {
        ToolInvocationStatus::Success => match result {
            Some(v) => json_text(v),
            None => "null"@,
        },
        ToolInvocationStatus::Failed => json_text(failure_object(status, error)),
        ToolInvocationStatus::Cancelled => json_text(failure_object(status, error)),
        _ => "null"@,
    }
}

/// Renders an invocation compactly for the model to read.
pub fn feedback_content(invocation: &ToolInvocationResult) -> (r: String)
    ensures
        r@ == feedback_text(
            invocation.status,
            crate::plan::opt_json_view(invocation.result),
            crate::plan::opt_string_view(invocation.error),
        ),
{
    match invocation.status {
        ToolInvocationStatus::Success => match &invocation.result {
            Some(v) => json_to_text(v),
            None => String::from_str("null"),
        },
        ToolInvocationStatus::Failed | ToolInvocationStatus::Cancelled => {
            let status_text = match invocation.status {
                ToolInvocationStatus::Failed => "failed",
                _ => "cancelled",
            };
            let error = match &invocation.error {
                Some(e) => Json::Str(e.clone()),
                None => Json::Null,
            };
            let ghost ev = error@;
            let mut members: Vec<(String, Json)> = Vec::new();
            members.push((String::from_str("error"), error));
            members.push((String::from_str("status"), Json::Str(String::from_str(status_text))));
            proof {
                lemma_members_view(members@);
                assert(members_view(members@) =~= seq![
                    ("error"@, ev),
                    ("status"@, JsonView::Str(invocation_status_text(invocation.status))),
                ]);
            }
            json_to_text(&Json::Object(members))
        },
        _ => String::from_str("null"),
    }
}

/// The feedback for a call whose execution failed: `{"error": message}`.
pub fn execution_error_feedback(message: &str) -> (r: String)
    ensures
        r@ == json_text(JsonView::Object(seq![("error"@, JsonView::Str(message@))])),
{
    let mut members: Vec<(String, Json)> = Vec::new();
    members.push((String::from_str("error"), Json::Str(String::from_str(message))));
    proof {
        lemma_members_view(members@);
        assert(members_view(members@) =~= seq![("error"@, JsonView::Str(message@))]);
    }
    json_to_text(&Json::Object(members))
}

} // verus!
