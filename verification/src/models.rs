//! Conversation records of the copilot: messages and their authors, tool
//! calls and executions, plans, sources, and workspace statistics, with the
//! text each status is stored as.

use vstd::prelude::*;
use crate::json::Json;
use crate::text::str_eq;

verus! {

/// Role of a message author.
#[derive(Debug, Clone, Copy, PartialEq, Eq, Structural)]
pub enum MessageRole {
    User,
    Assistant,
    System,
}

/// The stored text of a [`MessageRole`].
pub open spec fn message_role_text(x: MessageRole) -> Seq<char> {
    match x {
        MessageRole::User => "user"@,
        MessageRole::Assistant => "assistant"@,
        MessageRole::System => "system"@,
    }
}

/// The [`MessageRole`] a stored text denotes, if any.
pub open spec fn message_role_of(t: Seq<char>) -> Option<MessageRole> {
    if t == "user"@ {
        Some(MessageRole::User)
    } else if t == "assistant"@ {
        Some(MessageRole::Assistant)
    } else if t == "system"@ {
        Some(MessageRole::System)
    } else {
        None
    }
}

impl MessageRole {
    /// The stored text.
    pub fn as_str(&self) -> (r: &'static str)
        ensures
            r@ == message_role_text(*self),
    {
        match self {
            MessageRole::User => "user",
            MessageRole::Assistant => "assistant",
            MessageRole::System => "system",
        }
    }

    /// The value a stored text denotes.
    pub fn parse(s: &str) -> (r: Option<MessageRole>)
        ensures
            r == message_role_of(s@),
    {
        if str_eq(s, "user") {
            Some(MessageRole::User)
        } else if str_eq(s, "assistant") {
            Some(MessageRole::Assistant)
        } else if str_eq(s, "system") {
            Some(MessageRole::System)
        } else {
            None
        }
    }
}

/// Reading back the stored text of a [`MessageRole`] gives it back.
pub proof fn lemma_message_role_round_trip(x: MessageRole)
    ensures
        message_role_of(message_role_text(x)) == Some(x),
{
    reveal_strlit("user");
    reveal_strlit("assistant");
    reveal_strlit("system");
    assert("user"@.len() == 4 && "user"@[0] == 'u' && "user"@[1] == 's');
    assert("assistant"@.len() == 9 && "assistant"@[0] == 'a' && "assistant"@[1] == 's');
    assert("system"@.len() == 6 && "system"@[0] == 's' && "system"@[1] == 'y');
}

/// Status of a tool execution.
#[derive(Debug, Clone, Copy, PartialEq, Eq, Structural)]
pub enum ToolExecutionStatus {
    Pending,
    Success,
    Failed,
    Cancelled,
}

/// The stored text of a [`ToolExecutionStatus`].
pub open spec fn tool_execution_status_text(x: ToolExecutionStatus) -> Seq<char> {
    match x {
        ToolExecutionStatus::Pending => "pending"@,
        ToolExecutionStatus::Success => "success"@,
        ToolExecutionStatus::Failed => "failed"@,
        ToolExecutionStatus::Cancelled => "cancelled"@,
    }
}

/// The [`ToolExecutionStatus`] a stored text denotes, if any.
pub open spec fn tool_execution_status_of(t: Seq<char>) -> Option<ToolExecutionStatus> {
    if t == "pending"@ {
        Some(ToolExecutionStatus::Pending)
    } else if t == "success"@ {
        Some(ToolExecutionStatus::Success)
    } else if t == "failed"@ {
        Some(ToolExecutionStatus::Failed)
    } else if t == "cancelled"@ {
        Some(ToolExecutionStatus::Cancelled)
    } else {
        None
    }
}

impl ToolExecutionStatus {
    /// The stored text.
    pub fn as_str(&self) -> (r: &'static str)
        ensures
            r@ == tool_execution_status_text(*self),
    {
        match self {
            ToolExecutionStatus::Pending => "pending",
            ToolExecutionStatus::Success => "success",
            ToolExecutionStatus::Failed => "failed",
            ToolExecutionStatus::Cancelled => "cancelled",
        }
    }

    /// The value a stored text denotes.
    pub fn parse(s: &str) -> (r: Option<ToolExecutionStatus>)
        ensures
            r == tool_execution_status_of(s@),
    {
        if str_eq(s, "pending") {
            Some(ToolExecutionStatus::Pending)
        } else if str_eq(s, "success") {
            Some(ToolExecutionStatus::Success)
        } else if str_eq(s, "failed") {
            Some(ToolExecutionStatus::Failed)
        } else if str_eq(s, "cancelled") {
            Some(ToolExecutionStatus::Cancelled)
        } else {
            None
        }
    }
}

/// Reading back the stored text of a [`ToolExecutionStatus`] gives it back.
pub proof fn lemma_tool_execution_status_round_trip(x: ToolExecutionStatus)
    ensures
        tool_execution_status_of(tool_execution_status_text(x)) == Some(x),
{
    reveal_strlit("pending");
    reveal_strlit("success");
    reveal_strlit("failed");
    reveal_strlit("cancelled");
    assert("pending"@.len() == 7 && "pending"@[0] == 'p' && "pending"@[1] == 'e');
    assert("success"@.len() == 7 && "success"@[0] == 's' && "success"@[1] == 'u');
    assert("failed"@.len() == 6 && "failed"@[0] == 'f' && "failed"@[1] == 'a');
    assert("cancelled"@.len() == 9 && "cancelled"@[0] == 'c' && "cancelled"@[1] == 'a');
}

/// Status of a plan.
#[derive(Debug, Clone, Copy, PartialEq, Eq, Structural)]
pub enum PlanStatus {
    Planning,
    Executing,
    Completed,
    Failed,
    Cancelled,
}

/// The stored text of a [`PlanStatus`].
pub open spec fn plan_status_text(x: PlanStatus) -> Seq<char> {
    match x {
        PlanStatus::Planning => "planning"@,
        PlanStatus::Executing => "executing"@,
        PlanStatus::Completed => "completed"@,
        PlanStatus::Failed => "failed"@,
        PlanStatus::Cancelled => "cancelled"@,
    }
}

/// The [`PlanStatus`] a stored text denotes, if any.
pub open spec fn plan_status_of(t: Seq<char>) -> Option<PlanStatus> {
    if t == "planning"@ {
        Some(PlanStatus::Planning)
    } else if t == "executing"@ {
        Some(PlanStatus::Executing)
    } else if t == "completed"@ {
        Some(PlanStatus::Completed)
    } else if t == "failed"@ {
        Some(PlanStatus::Failed)
    } else if t == "cancelled"@ {
        Some(PlanStatus::Cancelled)
    } else {
        None
    }
}

impl PlanStatus {
    /// The stored text.
    pub fn as_str(&self) -> (r: &'static str)
        ensures
            r@ == plan_status_text(*self),
    {
        match self {
            PlanStatus::Planning => "planning",
            PlanStatus::Executing => "executing",
            PlanStatus::Completed => "completed",
            PlanStatus::Failed => "failed",
            PlanStatus::Cancelled => "cancelled",
        }
    }

    /// The value a stored text denotes.
    pub fn parse(s: &str) -> (r: Option<PlanStatus>)
        ensures
            r == plan_status_of(s@),
    {
        if str_eq(s, "planning") {
            Some(PlanStatus::Planning)
        } else if str_eq(s, "executing") {
            Some(PlanStatus::Executing)
        } else if str_eq(s, "completed") {
            Some(PlanStatus::Completed)
        } else if str_eq(s, "failed") {
            Some(PlanStatus::Failed)
        } else if str_eq(s, "cancelled") {
            Some(PlanStatus::Cancelled)
        } else {
            None
        }
    }
}

/// Reading back the stored text of a [`PlanStatus`] gives it back.
pub proof fn lemma_plan_status_round_trip(x: PlanStatus)
    ensures
        plan_status_of(plan_status_text(x)) == Some(x),
{
    reveal_strlit("planning");
    reveal_strlit("executing");
    reveal_strlit("completed");
    reveal_strlit("failed");
    reveal_strlit("cancelled");
    assert("planning"@.len() == 8 && "planning"@[0] == 'p' && "planning"@[1] == 'l');
    assert("executing"@.len() == 9 && "executing"@[0] == 'e' && "executing"@[1] == 'x');
    assert("completed"@.len() == 9 && "completed"@[0] == 'c' && "completed"@[1] == 'o');
    assert("failed"@.len() == 6 && "failed"@[0] == 'f' && "failed"@[1] == 'a');
    assert("cancelled"@.len() == 9 && "cancelled"@[0] == 'c' && "cancelled"@[1] == 'a');
}

/// Type of an information source.
#[derive(Debug, Clone, Copy, PartialEq, Eq, Structural)]
pub enum SourceType {
    TimelineEvent,
    ContextMemory,
    WorkspaceFile,
    SessionHistory,
    KnowledgeGraph,
}

/// The stored text of a [`SourceType`].
pub open spec fn source_type_text(x: SourceType) -> Seq<char> {
    match x {
        SourceType::TimelineEvent => "timeline_event"@,
        SourceType::ContextMemory => "context_memory"@,
        SourceType::WorkspaceFile => "workspace_file"@,
        SourceType::SessionHistory => "session_history"@,
        SourceType::KnowledgeGraph => "knowledge_graph"@,
    }
}

/// The [`SourceType`] a stored text denotes, if any.
pub open spec fn source_type_of(t: Seq<char>) -> Option<SourceType> {
    if t == "timeline_event"@ {
        Some(SourceType::TimelineEvent)
    } else if t == "context_memory"@ {
        Some(SourceType::ContextMemory)
    } else if t == "workspace_file"@ {
        Some(SourceType::WorkspaceFile)
    } else if t == "session_history"@ {
        Some(SourceType::SessionHistory)
    } else if t == "knowledge_graph"@ {
        Some(SourceType::KnowledgeGraph)
    } else {
        None
    }
}

impl SourceType {
    /// The stored text.
    pub fn as_str(&self) -> (r: &'static str)
        ensures
            r@ == source_type_text(*self),
    {
        match self {
            SourceType::TimelineEvent => "timeline_event",
            SourceType::ContextMemory => "context_memory",
            SourceType::WorkspaceFile => "workspace_file",
            SourceType::SessionHistory => "session_history",
            SourceType::KnowledgeGraph => "knowledge_graph",
        }
    }

    /// The value a stored text denotes.
    pub fn parse(s: &str) -> (r: Option<SourceType>)
        ensures
            r == source_type_of(s@),
    {
        if str_eq(s, "timeline_event") {
            Some(SourceType::TimelineEvent)
        } else if str_eq(s, "context_memory") {
            Some(SourceType::ContextMemory)
        } else if str_eq(s, "workspace_file") {
            Some(SourceType::WorkspaceFile)
        } else if str_eq(s, "session_history") {
            Some(SourceType::SessionHistory)
        } else if str_eq(s, "knowledge_graph") {
            Some(SourceType::KnowledgeGraph)
        } else {
            None
        }
    }
}

/// Reading back the stored text of a [`SourceType`] gives it back.
pub proof fn lemma_source_type_round_trip(x: SourceType)
    ensures
        source_type_of(source_type_text(x)) == Some(x),
{
    reveal_strlit("timeline_event");
    reveal_strlit("context_memory");
    reveal_strlit("workspace_file");
    reveal_strlit("session_history");
    reveal_strlit("knowledge_graph");
    assert("timeline_event"@.len() == 14 && "timeline_event"@[0] == 't' && "timeline_event"@[1] == 'i');
    assert("context_memory"@.len() == 14 && "context_memory"@[0] == 'c' && "context_memory"@[1] == 'o');
    assert("workspace_file"@.len() == 14 && "workspace_file"@[0] == 'w' && "workspace_file"@[1] == 'o');
    assert("session_history"@.len() == 15 && "session_history"@[0] == 's' && "session_history"@[1] == 'e');
    assert("knowledge_graph"@.len() == 15 && "knowledge_graph"@[0] == 'k' && "knowledge_graph"@[1] == 'n');
}

/// A copilot conversation with persistent history. Times are nanoseconds
/// since the Unix epoch.
pub struct Conversation {
    pub id: u128,
    pub workspace_id: Option<u128>,
    pub title: String,
    pub created_at: i128,
    pub updated_at: i128,
    pub message_count: i32,
}

/// A tool call made by the assistant.
pub struct ToolCall {
    pub id: u128,
    pub tool_name: String,
    pub arguments: Json,
    pub result: Option<Json>,
    pub status: ToolExecutionStatus,
}

/// A source of information for a response; its relevance is in
/// thousandths.
pub struct Source {
    pub source_type: SourceType,
    pub title: String,
    pub reference: String,
    pub relevance: u32,
}

/// A message in a conversation.
pub struct Message {
    pub id: u128,
    pub conversation_id: u128,
    pub role: MessageRole,
    pub content: String,
    pub tool_calls: Option<Vec<ToolCall>>,
    pub reasoning: Option<String>,
    pub sources: Option<Vec<Source>>,
    pub created_at: i128,
}

/// A tool execution record.
pub struct ToolExecution {
    pub id: u128,
    pub message_id: u128,
    pub tool_name: String,
    pub arguments: Json,
    pub result: Option<Json>,
    pub status: ToolExecutionStatus,
    pub requires_confirmation: bool,
    pub confirmed: bool,
    pub error: Option<String>,
    pub executed_at: i128,
}

/// The context at the time of a conversation.
pub struct ContextSnapshot {
    pub id: u128,
    pub conversation_id: u128,
    pub workspace_id: Option<u128>,
    pub active_files: Vec<String>,
    pub recent_events: Vec<String>,
    pub session_summary: Option<String>,
    pub captured_at: i128,
}

/// A step of a multi-step action plan.
pub struct PlanStep {
    pub description: String,
    pub tool_name: String,
    pub arguments: Json,
    pub completed: bool,
    pub result: Option<Json>,
}

/// A multi-step action plan.
pub struct Plan {
    pub id: u128,
    pub message_id: u128,
    pub goal: String,
    pub steps: Vec<PlanStep>,
    pub current_step: usize,
    pub status: PlanStatus,
    pub created_at: i128,
    pub completed_at: Option<i128>,
}

/// Request to send a message to the copilot.
pub struct SendMessageRequest {
    pub conversation_id: Option<u128>,
    pub workspace_id: Option<u128>,
    pub message: String,
    pub include_context: bool,
}

/// The identifiers of a started streaming response.
pub struct CopilotStreamResponse {
    pub conversation_id: u128,
    pub stream_id: u128,
}

/// An action suggested by the copilot.
pub struct SuggestedAction {
    pub title: String,
    pub description: String,
    pub tool_name: String,
    pub arguments: Json,
    pub requires_confirmation: bool,
}

/// Workspace statistics for a briefing.
pub struct WorkspaceStats {
    pub active_workspaces: usize,
    pub files_modified: usize,
    pub time_tracked: i64,
    pub sessions_completed: usize,
}

/// Request to answer a question about workspace history.
pub struct WorkspaceQuestionRequest {
    pub workspace_id: Option<u128>,
    pub question: String,
}

/// The copilot's answer to a message: the conversation it belongs to, the
/// assistant message and the suggested follow-up actions.
pub struct CopilotResponse {
    pub conversation_id: u128,
    pub message: Message,
    pub suggested_actions: Vec<SuggestedAction>,
}

/// Request to search stored conversations. Times are nanoseconds since the
/// Unix epoch.
pub struct ConversationSearchRequest {
    pub query: Option<String>,
    pub workspace_id: Option<u128>,
    pub provider: Option<String>,
    pub start_date: Option<i128>,
    pub end_date: Option<i128>,
    pub limit: Option<usize>,
}

/// A conversation found by a search, with a short preview of the match.
pub struct ConversationSearchResult {
    pub conversation: Conversation,
    pub matched_message_id: Option<u128>,
    pub matched_at: Option<i128>,
    pub snippet: Option<String>,
    pub provider: Option<String>,
}

/// Request for a daily briefing.
pub struct DailyBriefingRequest {
    pub workspace_id: Option<u128>,
}

/// A daily briefing. Its date is nanoseconds since the Unix epoch.
pub struct DailyBriefing {
    pub date: i128,
    pub summary: String,
    pub highlights: Vec<String>,
    pub pending_tasks: Vec<String>,
    pub recommendations: Vec<String>,
    pub workspace_stats: WorkspaceStats,
}

} // verus!
