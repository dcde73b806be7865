//! Plan executions: their records, the statuses of an execution and of its
//! steps, events and audit entries, with the text each status is stored as.

use vstd::prelude::*;
use crate::json::Json;
use crate::text::str_eq;

verus! {

/// Status of a plan execution.
#[derive(Debug, Clone, Copy, PartialEq, Eq, Structural)]
pub enum ExecutionStatus {
    Pending,
    Running,
    Paused,
    Completed,
    Failed,
    Cancelled,
}

/// The stored text of an execution status.
pub open spec fn execution_status_text(s: ExecutionStatus) -> Seq<char> {
    match s {
        ExecutionStatus::Pending => "pending"@,
        ExecutionStatus::Running => "running"@,
        ExecutionStatus::Paused => "paused"@,
        ExecutionStatus::Completed => "completed"@,
        ExecutionStatus::Failed => "failed"@,
        ExecutionStatus::Cancelled => "cancelled"@,
    }
}

/// The execution status a stored text denotes, if any.
pub open spec fn execution_status_of(t: Seq<char>) -> Option<ExecutionStatus> {
    if t == "pending"@ {
        Some(ExecutionStatus::Pending)
    } else if t == "running"@ {
        Some(ExecutionStatus::Running)
    } else if t == "paused"@ {
        Some(ExecutionStatus::Paused)
    } else if t == "completed"@ {
        Some(ExecutionStatus::Completed)
    } else if t == "failed"@ {
        Some(ExecutionStatus::Failed)
    } else if t == "cancelled"@ {
        Some(ExecutionStatus::Cancelled)
    } else {
        None
    }
}

impl ExecutionStatus {
    /// The stored text of the status.
    pub fn as_str(&self) -> (r: &'static str)
        ensures
            r@ == execution_status_text(*self),
    {
        match self {
            ExecutionStatus::Pending => "pending",
            ExecutionStatus::Running => "running",
            ExecutionStatus::Paused => "paused",
            ExecutionStatus::Completed => "completed",
            ExecutionStatus::Failed => "failed",
            ExecutionStatus::Cancelled => "cancelled",
        }
    }

    /// The status a stored text denotes.
    pub fn parse(s: &str) -> (r: Option<ExecutionStatus>)
        ensures
            r == execution_status_of(s@),
    {
        if str_eq(s, "pending") {
            Some(ExecutionStatus::Pending)
        } else if str_eq(s, "running") {
            Some(ExecutionStatus::Running)
        } else if str_eq(s, "paused") {
            Some(ExecutionStatus::Paused)
        } else if str_eq(s, "completed") {
            Some(ExecutionStatus::Completed)
        } else if str_eq(s, "failed") {
            Some(ExecutionStatus::Failed)
        } else if str_eq(s, "cancelled") {
            Some(ExecutionStatus::Cancelled)
        } else {
            None
        }
    }

    /// Whether the execution can make no further progress by itself
    /// (completed, cancelled, paused or failed).
    pub fn halts_driving(&self) -> (r: bool)
        ensures
            r == !(*self == ExecutionStatus::Pending || *self == ExecutionStatus::Running),
    {
        !matches!(self, ExecutionStatus::Pending | ExecutionStatus::Running)
    }
}

/// Reading back the stored text of an execution status gives the status.
pub proof fn lemma_execution_status_round_trip(s: ExecutionStatus)
    ensures
        execution_status_of(execution_status_text(s)) == Some(s),
{
    reveal_strlit("pending");
    reveal_strlit("running");
    reveal_strlit("paused");
    reveal_strlit("completed");
    reveal_strlit("failed");
    reveal_strlit("cancelled");
    assert("pending"@.len() == 7 && "pending"@[0] == 'p' && "pending"@[1] == 'e');
    assert("running"@.len() == 7 && "running"@[0] == 'r' && "running"@[1] == 'u');
    assert("paused"@.len() == 6 && "paused"@[0] == 'p' && "paused"@[1] == 'a');
    assert("completed"@.len() == 9 && "completed"@[0] == 'c' && "completed"@[1] == 'o');
    assert("failed"@.len() == 6 && "failed"@[0] == 'f' && "failed"@[1] == 'a');
    assert("cancelled"@.len() == 9 && "cancelled"@[0] == 'c' && "cancelled"@[1] == 'a');
}

/// Status of an execution step.
#[derive(Debug, Clone, Copy, PartialEq, Eq, Structural)]
pub enum StepStatus {
    Pending,
    Running,
    Completed,
    Failed,
    Skipped,
}

/// The stored text of a step status.
pub open spec fn step_status_text(s: StepStatus) -> Seq<char> {
    match s {
        StepStatus::Pending => "pending"@,
        StepStatus::Running => "running"@,
        StepStatus::Completed => "completed"@,
        StepStatus::Failed => "failed"@,
        StepStatus::Skipped => "skipped"@,
    }
}

/// The step status a stored text denotes, if any.
pub open spec fn step_status_of(t: Seq<char>) -> Option<StepStatus> {
    if t == "pending"@ {
        Some(StepStatus::Pending)
    } else if t == "running"@ {
        Some(StepStatus::Running)
    } else if t == "completed"@ {
        Some(StepStatus::Completed)
    } else if t == "failed"@ {
        Some(StepStatus::Failed)
    } else if t == "skipped"@ {
        Some(StepStatus::Skipped)
    } else {
        None
    }
}

impl StepStatus {
    /// The stored text of the status.
    pub fn as_str(&self) -> (r: &'static str)
        ensures
            r@ == step_status_text(*self),
    {
        match self {
            StepStatus::Pending => "pending",
            StepStatus::Running => "running",
            StepStatus::Completed => "completed",
            StepStatus::Failed => "failed",
            StepStatus::Skipped => "skipped",
        }
    }

    /// The status a stored text denotes.
    pub fn parse(s: &str) -> (r: Option<StepStatus>)
        ensures
            r == step_status_of(s@),
    {
        if str_eq(s, "pending") {
            Some(StepStatus::Pending)
        } else if str_eq(s, "running") {
            Some(StepStatus::Running)
        } else if str_eq(s, "completed") {
            Some(StepStatus::Completed)
        } else if str_eq(s, "failed") {
            Some(StepStatus::Failed)
        } else if str_eq(s, "skipped") {
            Some(StepStatus::Skipped)
        } else {
            None
        }
    }
}

/// Reading back the stored text of a step status gives the status.
pub proof fn lemma_step_status_round_trip(s: StepStatus)
    ensures
        step_status_of(step_status_text(s)) == Some(s),
{
    reveal_strlit("pending");
    reveal_strlit("running");
    reveal_strlit("completed");
    reveal_strlit("failed");
    reveal_strlit("skipped");
    assert("pending"@.len() == 7 && "pending"@[0] == 'p' && "pending"@[1] == 'e');
    assert("running"@.len() == 7 && "running"@[0] == 'r' && "running"@[1] == 'u');
    assert("completed"@.len() == 9 && "completed"@[0] == 'c' && "completed"@[1] == 'o');
    assert("failed"@.len() == 6 && "failed"@[0] == 'f' && "failed"@[1] == 'a');
    assert("skipped"@.len() == 7 && "skipped"@[0] == 's' && "skipped"@[1] == 'k');
}

/// Type of an execution event.
#[derive(Debug, Clone, Copy, PartialEq, Eq, Structural)]
pub enum ExecutionEventType {
    Started,
    StepStarted,
    StepCompleted,
    StepFailed,
    Paused,
    Resumed,
    CheckpointSaved,
    CheckpointLoaded,
    Completed,
    Failed,
    Cancelled,
}

/// The stored text of an event type.
pub open spec fn event_type_text(t: ExecutionEventType) -> Seq<char> {
    match t {
        ExecutionEventType::Started => "started"@,
        ExecutionEventType::StepStarted => "step_started"@,
        ExecutionEventType::StepCompleted => "step_completed"@,
        ExecutionEventType::StepFailed => "step_failed"@,
        ExecutionEventType::Paused => "paused"@,
        ExecutionEventType::Resumed => "resumed"@,
        ExecutionEventType::CheckpointSaved => "checkpoint_saved"@,
        ExecutionEventType::CheckpointLoaded => "checkpoint_loaded"@,
        ExecutionEventType::Completed => "completed"@,
        ExecutionEventType::Failed => "failed"@,
        ExecutionEventType::Cancelled => "cancelled"@,
    }
}

/// The event type a stored text denotes, if any.
pub open spec fn event_type_of(t: Seq<char>) -> Option<ExecutionEventType> {
    if t == "started"@ {
        Some(ExecutionEventType::Started)
    } else if t == "step_started"@ {
        Some(ExecutionEventType::StepStarted)
    } else if t == "step_completed"@ {
        Some(ExecutionEventType::StepCompleted)
    } else if t == "step_failed"@ {
        Some(ExecutionEventType::StepFailed)
    } else if t == "paused"@ {
        Some(ExecutionEventType::Paused)
    } else if t == "resumed"@ {
        Some(ExecutionEventType::Resumed)
    } else if t == "checkpoint_saved"@ {
        Some(ExecutionEventType::CheckpointSaved)
    } else if t == "checkpoint_loaded"@ {
        Some(ExecutionEventType::CheckpointLoaded)
    } else if t == "completed"@ {
        Some(ExecutionEventType::Completed)
    } else if t == "failed"@ {
        Some(ExecutionEventType::Failed)
    } else if t == "cancelled"@ {
        Some(ExecutionEventType::Cancelled)
    } else {
        None
    }
}

impl ExecutionEventType {
    /// The stored text of the event type.
    pub fn as_str(&self) -> (r: &'static str)
        ensures
            r@ == event_type_text(*self),
    {
        match self {
            ExecutionEventType::Started => "started",
            ExecutionEventType::StepStarted => "step_started",
            ExecutionEventType::StepCompleted => "step_completed",
            ExecutionEventType::StepFailed => "step_failed",
            ExecutionEventType::Paused => "paused",
            ExecutionEventType::Resumed => "resumed",
            ExecutionEventType::CheckpointSaved => "checkpoint_saved",
            ExecutionEventType::CheckpointLoaded => "checkpoint_loaded",
            ExecutionEventType::Completed => "completed",
            ExecutionEventType::Failed => "failed",
            ExecutionEventType::Cancelled => "cancelled",
        }
    }

    /// The event type a stored text denotes.
    pub fn parse(s: &str) -> (r: Option<ExecutionEventType>)
        ensures
            r == event_type_of(s@),
    {
        if str_eq(s, "started") {
            Some(ExecutionEventType::Started)
        } else if str_eq(s, "step_started") {
            Some(ExecutionEventType::StepStarted)
        } else if str_eq(s, "step_completed") {
            Some(ExecutionEventType::StepCompleted)
        } else if str_eq(s, "step_failed") {
            Some(ExecutionEventType::StepFailed)
        } else if str_eq(s, "paused") {
            Some(ExecutionEventType::Paused)
        } else if str_eq(s, "resumed") {
            Some(ExecutionEventType::Resumed)
        } else if str_eq(s, "checkpoint_saved") {
            Some(ExecutionEventType::CheckpointSaved)
        } else if str_eq(s, "checkpoint_loaded") {
            Some(ExecutionEventType::CheckpointLoaded)
        } else if str_eq(s, "completed") {
            Some(ExecutionEventType::Completed)
        } else if str_eq(s, "failed") {
            Some(ExecutionEventType::Failed)
        } else if str_eq(s, "cancelled") {
            Some(ExecutionEventType::Cancelled)
        } else {
            None
        }
    }
}

/// Reading back the stored text of an event type gives the event type.
pub proof fn lemma_event_type_round_trip(t: ExecutionEventType)
    ensures
        event_type_of(event_type_text(t)) == Some(t),
{
    reveal_strlit("started");
    reveal_strlit("step_started");
    reveal_strlit("step_completed");
    reveal_strlit("step_failed");
    reveal_strlit("paused");
    reveal_strlit("resumed");
    reveal_strlit("checkpoint_saved");
    reveal_strlit("checkpoint_loaded");
    reveal_strlit("completed");
    reveal_strlit("failed");
    reveal_strlit("cancelled");
    assert("started"@.len() == 7 && "started"@[0] == 's' && "started"@[1] == 't');
    assert("step_started"@.len() == 12 && "step_started"@[0] == 's' && "step_started"@[1] == 't');
    assert("step_completed"@.len() == 14 && "step_completed"@[0] == 's' && "step_completed"@[1] == 't');
    assert("step_failed"@.len() == 11 && "step_failed"@[0] == 's' && "step_failed"@[1] == 't');
    assert("paused"@.len() == 6 && "paused"@[0] == 'p' && "paused"@[1] == 'a');
    assert("resumed"@.len() == 7 && "resumed"@[0] == 'r' && "resumed"@[1] == 'e');
    assert("checkpoint_saved"@.len() == 16 && "checkpoint_saved"@[0] == 'c' && "checkpoint_saved"@[1] == 'h');
    assert("checkpoint_loaded"@.len() == 17 && "checkpoint_loaded"@[0] == 'c' && "checkpoint_loaded"@[1] == 'h');
    assert("completed"@.len() == 9 && "completed"@[0] == 'c' && "completed"@[1] == 'o');
    assert("failed"@.len() == 6 && "failed"@[0] == 'f' && "failed"@[1] == 'a');
    assert("cancelled"@.len() == 9 && "cancelled"@[0] == 'c' && "cancelled"@[1] == 'a');
}

/// Actor who performed an audited action.
#[derive(Debug, Clone, Copy, PartialEq, Eq, Structural)]
pub enum AuditActor {
    User,
    System,
    AI,
}

/// The stored text of an actor.
pub open spec fn actor_text(a: AuditActor) -> Seq<char> {
    match a {
        AuditActor::User => "user"@,
        AuditActor::System => "system"@,
        AuditActor::AI => "ai"@,
    }
}

impl AuditActor {
    /// The stored text of the actor.
    pub fn as_str(&self) -> (r: &'static str)
        ensures
            r@ == actor_text(*self),
    {
        match self {
            AuditActor::User => "user",
            AuditActor::System => "system",
            AuditActor::AI => "ai",
        }
    }
}

/// Plan execution record with progress tracking. Times are nanoseconds
/// since the Unix epoch.
pub struct PlanExecution {
    pub id: u128,
    pub plan_id: u128,
    pub conversation_id: Option<u128>,
    pub status: ExecutionStatus,
    pub current_step: usize,
    pub total_steps: usize,
    pub started_at: Option<i128>,
    pub completed_at: Option<i128>,
    pub error: Option<String>,
    pub created_at: i128,
    pub updated_at: i128,
}

/// One step of an execution.
pub struct ExecutionStep {
    pub id: u128,
    pub execution_id: u128,
    pub step_number: usize,
    pub description: String,
    pub tool_name: Option<String>,
    pub arguments: Option<Json>,
    pub status: StepStatus,
    pub result: Option<String>,
    pub error: Option<String>,
    pub started_at: Option<i128>,
    pub completed_at: Option<i128>,
    pub created_at: i128,
}

/// An execution progress event.
pub struct ExecutionEvent {
    pub id: u128,
    pub execution_id: u128,
    pub event_type: ExecutionEventType,
    pub step_number: Option<usize>,
    pub message: String,
    pub metadata: Option<Json>,
    pub created_at: i128,
}

/// An execution audit log entry.
pub struct ExecutionAudit {
    pub id: u128,
    pub execution_id: u128,
    pub action: String,
    pub actor: AuditActor,
    pub details: String,
    pub created_at: i128,
}

/// Request to start a plan execution.
pub struct StartExecutionRequest {
    pub plan_id: u128,
    pub conversation_id: Option<u128>,
}

} // verus!
