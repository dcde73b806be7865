//! Autonomous sessions: their statuses, reasoning events, execution
//! policies (budgets, retries, timeouts, approvals) and the approval
//! checkpoint decision.

use vstd::prelude::*;
use crate::ids::{new_id, now_nanos};
use crate::json::Json;
use crate::json_text::push_str;
use crate::plan::{ExecutionPlan, PlanTaskView, copy_opt_json, copy_opt_string, opt_json_view, opt_string_view, same_plan, tasks_view};
use crate::text::{string_of, strings_view};
use crate::tools::{ToolDefinition, ToolRiskLevel, contains_name};

verus! {

/// Lifecycle status of an autonomous session.
#[derive(Debug, Clone, Copy, PartialEq, Eq, Structural)]
pub enum AutonomousStatus {
    /// Actively reasoning or executing.
    Running,
    /// Paused between plan runs, or by the operator.
    Paused,
    /// Parked until an operator approves or rejects a plan.
    WaitingApproval,
    /// The goal was reached.
    Completed,
    /// The goal could not be reached.
    Failed,
    /// Cancelled by the operator, an approval rejection or a budget.
    Cancelled,
}

/// Whether a status is final.
pub open spec fn is_terminal(s: AutonomousStatus) -> bool {
    s == AutonomousStatus::Completed || s == AutonomousStatus::Failed || s == AutonomousStatus::Cancelled
}

/// The text of a session status.
pub open spec fn autonomous_status_text(s: AutonomousStatus) -> Seq<char> {
    match s {
        AutonomousStatus::Running => "running"@,
        AutonomousStatus::Paused => "paused"@,
        AutonomousStatus::WaitingApproval => "waiting_approval"@,
        AutonomousStatus::Completed => "completed"@,
        AutonomousStatus::Failed => "failed"@,
        AutonomousStatus::Cancelled => "cancelled"@,
    }
}

impl AutonomousStatus {
    /// Whether the session can no longer be acted upon.
    pub fn terminal(self) -> (r: bool)
        ensures
            r == is_terminal(self),
    {
        matches!(self, AutonomousStatus::Completed | AutonomousStatus::Failed | AutonomousStatus::Cancelled)
    }

    /// The text of the status.
    pub fn as_str(&self) -> (r: &'static str)
        ensures
            r@ == autonomous_status_text(*self),
    {
        match self {
            AutonomousStatus::Running => "running",
            AutonomousStatus::Paused => "paused",
            AutonomousStatus::WaitingApproval => "waiting_approval",
            AutonomousStatus::Completed => "completed",
            AutonomousStatus::Failed => "failed",
            AutonomousStatus::Cancelled => "cancelled",
        }
    }
}

/// Stage of the reason–act–observe loop a reasoning event belongs to.
#[derive(Debug, Clone, Copy, PartialEq, Eq, Structural)]
pub enum ReasoningPhase {
    Planning,
    Executing,
    Observed,
    Replanning,
    AwaitingApproval,
    ApprovalResolved,
    BudgetUpdate,
    Pause,
    Terminal,
}

/// The text of a reasoning phase.
pub open spec fn phase_text(p: ReasoningPhase) -> Seq<char> {
    match p {
        ReasoningPhase::Planning => "planning"@,
        ReasoningPhase::Executing => "executing"@,
        ReasoningPhase::Observed => "observed"@,
        ReasoningPhase::Replanning => "replanning"@,
        ReasoningPhase::AwaitingApproval => "awaiting_approval"@,
        ReasoningPhase::ApprovalResolved => "approval_resolved"@,
        ReasoningPhase::BudgetUpdate => "budget_update"@,
        ReasoningPhase::Pause => "pause"@,
        ReasoningPhase::Terminal => "terminal"@,
    }
}

impl ReasoningPhase {
    /// The text of the phase.
    pub fn as_str(&self) -> (r: &'static str)
        ensures
            r@ == phase_text(*self),
    {
        match self {
            ReasoningPhase::Planning => "planning",
            ReasoningPhase::Executing => "executing",
            ReasoningPhase::Observed => "observed",
            ReasoningPhase::Replanning => "replanning",
            ReasoningPhase::AwaitingApproval => "awaiting_approval",
            ReasoningPhase::ApprovalResolved => "approval_resolved",
            ReasoningPhase::BudgetUpdate => "budget_update",
            ReasoningPhase::Pause => "pause",
            ReasoningPhase::Terminal => "terminal",
        }
    }
}

/// One step in a session's reason–act–observe timeline.
pub struct ReasoningEvent {
    pub session_id: u128,
    pub phase: ReasoningPhase,
    pub message: String,
    pub detail: Option<Json>,
    /// Nanoseconds since the Unix epoch.
    pub created_at: i128,
}

/// Two reasoning events hold the same values.
pub open spec fn same_event(a: ReasoningEvent, b: ReasoningEvent) -> bool {
    &&& a.session_id == b.session_id
    &&& a.phase == b.phase
    &&& a.message@ == b.message@
    &&& opt_json_view(a.detail) == opt_json_view(b.detail)
    &&& a.created_at == b.created_at
}

/// Two approval checkpoints hold the same values.
pub open spec fn same_request(a: ApprovalRequest, b: ApprovalRequest) -> bool {
    &&& a.request_id == b.request_id
    &&& a.session_id == b.session_id
    &&& a.goal@ == b.goal@
    &&& same_plan(a.plan, b.plan)
    &&& a.reason@ == b.reason@
    &&& a.requested_at == b.requested_at
    &&& a.decided_at == b.decided_at
    &&& a.approved == b.approved
    &&& opt_string_view(a.note) == opt_string_view(b.note)
}

impl ApprovalRequest {
    /// A copy of the checkpoint.
    pub fn copy(&self) -> (r: ApprovalRequest)
        ensures
            same_request(r, *self),
    {
        ApprovalRequest {
            request_id: self.request_id,
            session_id: self.session_id,
            goal: self.goal.clone(),
            plan: self.plan.copy(),
            reason: self.reason.clone(),
            requested_at: self.requested_at,
            decided_at: self.decided_at,
            approved: self.approved,
            note: copy_opt_string(&self.note),
        }
    }
}

impl ReasoningEvent {
    /// A copy of the event.
    pub fn copy(&self) -> (r: ReasoningEvent)
        ensures
            same_event(r, *self),
    {
        ReasoningEvent {
            session_id: self.session_id,
            phase: self.phase,
            message: self.message.clone(),
            detail: copy_opt_json(&self.detail),
            created_at: self.created_at,
        }
    }

    /// An event stamped with the current time.
    pub fn new(session_id: u128, phase: ReasoningPhase, message: String, detail: Option<Json>) -> (r: Self)
        ensures
            r.session_id == session_id,
            r.phase == phase,
            r.message == message,
            r.detail == detail,
    {
        ReasoningEvent { session_id, phase, message, detail, created_at: now_nanos() }
    }
}

/// How strictly a session pauses for operator confirmation.
#[derive(Debug, Clone, Copy, PartialEq, Eq, Structural)]
pub enum ApprovalMode {
    /// Never pause for confirmation.
    Automatic,
    /// Pause when the plan would run a tool that requires confirmation or
    /// is high risk.
    OnRisk,
    /// Pause before every plan run.
    Manual,
}

impl Default for ApprovalMode {
    fn default() -> (r: Self)
        ensures
            r == ApprovalMode::Automatic,
    {
        ApprovalMode::Automatic
    }
}

impl ApprovalMode {
    /// Whether a plan may be held for approval under this mode.
    pub fn requires_pause(self) -> (r: bool)
        ensures
            r == (self != ApprovalMode::Automatic),
    {
        matches!(self, ApprovalMode::OnRisk | ApprovalMode::Manual)
    }
}

/// A human-in-the-loop checkpoint: the plan awaiting a decision, and the
/// decision once taken. Times are nanoseconds since the Unix epoch.
pub struct ApprovalRequest {
    pub request_id: u128,
    pub session_id: u128,
    pub goal: String,
    pub plan: ExecutionPlan,
    pub reason: String,
    pub requested_at: i128,
    pub decided_at: Option<i128>,
    pub approved: Option<bool>,
    pub note: Option<String>,
}

/// Spending limits of one session (0 means unlimited where noted).
#[derive(Clone, Copy)]
pub struct ExecutionBudget {
    /// Max steps across all plan runs (0 = unlimited).
    pub max_steps: usize,
    /// Max engine executions started (0 = unlimited).
    pub max_plans: u64,
    /// Max feedback-driven replans.
    pub max_replans: u64,
    /// Max wall-clock seconds for the session (0 = unlimited).
    pub max_duration_seconds: u64,
}

impl Default for ExecutionBudget {
    fn default() -> (r: Self)
        ensures
            r.max_steps == 50,
            r.max_plans == 8,
            r.max_replans == 3,
            r.max_duration_seconds == 3600,
    {
        ExecutionBudget { max_steps: 50, max_plans: 8, max_replans: 3, max_duration_seconds: 3600 }
    }
}

/// Retry behaviour for a failed plan run.
#[derive(Clone, Copy)]
pub struct RetryPolicy {
    /// Extra attempts of a failing plan before replanning.
    pub max_attempts: u64,
    /// Back-off in milliseconds before a retry.
    pub backoff_ms: u64,
    /// Whether timeouts count toward the retry budget.
    pub retry_on_timeout: bool,
}

impl Default for RetryPolicy {
    fn default() -> (r: Self)
        ensures
            r.max_attempts == 1,
            r.backoff_ms == 250,
            r.retry_on_timeout,
    {
        RetryPolicy { max_attempts: 1, backoff_ms: 250, retry_on_timeout: true }
    }
}

/// Timeout guards of a session's executions.
#[derive(Clone, Copy)]
pub struct TimeoutPolicy {
    /// Per-step tool timeout in milliseconds (0 falls back to 10 000).
    pub step_timeout_ms: u64,
    /// Whole-plan timeout in seconds (0 = none).
    pub plan_timeout_seconds: u64,
    /// How long to wait for an operator decision (0 = forever).
    pub approval_timeout_seconds: u64,
}

impl Default for TimeoutPolicy {
    fn default() -> (r: Self)
        ensures
            r.step_timeout_ms == 10_000,
            r.plan_timeout_seconds == 0,
            r.approval_timeout_seconds == 0,
    {
        TimeoutPolicy { step_timeout_ms: 10_000, plan_timeout_seconds: 0, approval_timeout_seconds: 0 }
    }
}

impl TimeoutPolicy {
    /// The per-step timeout in effect.
    pub fn step_timeout_ms(&self) -> (r: u64)
        ensures
            r == if self.step_timeout_ms == 0 {
                10_000
            } else {
                self.step_timeout_ms
            },
    {
        if self.step_timeout_ms == 0 {
            10_000
        } else {
            self.step_timeout_ms
        }
    }

    /// The whole-plan timeout in seconds.
    pub fn plan_timeout_s(&self) -> (r: u64)
        ensures
            r == self.plan_timeout_seconds,
    {
        self.plan_timeout_seconds
    }

    /// The approval timeout in seconds.
    pub fn approval_timeout_s(&self) -> (r: u64)
        ensures
            r == self.approval_timeout_seconds,
    {
        self.approval_timeout_seconds
    }
}

/// Approval gating configuration.
#[derive(Clone, Copy)]
pub struct ApprovalPolicy {
    pub mode: ApprovalMode,
    /// Whether a replan that introduces a tool not run before also pauses.
    pub gate_replans: bool,
}

impl Default for ApprovalPolicy {
    fn default() -> (r: Self)
        ensures
            r.mode == ApprovalMode::Automatic,
            !r.gate_replans,
    {
        ApprovalPolicy { mode: ApprovalMode::Automatic, gate_replans: false }
    }
}

/// The policies of one session.
#[derive(Clone, Copy)]
pub struct ExecutionPolicy {
    pub budget: ExecutionBudget,
    pub retry: RetryPolicy,
    pub timeout: TimeoutPolicy,
    pub approval: ApprovalPolicy,
}

impl Default for ExecutionPolicy {
    fn default() -> (r: Self)
        ensures
            r.budget.max_steps == 50,
            r.budget.max_plans == 8,
            r.budget.max_replans == 3,
            r.budget.max_duration_seconds == 3600,
            r.retry.max_attempts == 1,
            r.retry.backoff_ms == 250,
            r.retry.retry_on_timeout,
            r.timeout.step_timeout_ms == 10_000,
            r.timeout.plan_timeout_seconds == 0,
            r.timeout.approval_timeout_seconds == 0,
            r.approval.mode == ApprovalMode::Automatic,
            !r.approval.gate_replans,
    {
        ExecutionPolicy {
            budget: ExecutionBudget::default(),
            retry: RetryPolicy::default(),
            timeout: TimeoutPolicy::default(),
            approval: ApprovalPolicy::default(),
        }
    }
}

/// Live snapshot of a session. Times are nanoseconds since the Unix epoch.
pub struct AutonomousSessionProgress {
    pub session_id: u128,
    pub workspace_id: Option<u128>,
    pub goal: String,
    pub status: AutonomousStatus,
    pub policy: ExecutionPolicy,
    /// Bounded reasoning log, newest last.
    pub reasoning: Vec<ReasoningEvent>,
    pub current_plan: Option<ExecutionPlan>,
    pub execution_id: Option<u128>,
    pub last_execution_id: Option<u128>,
    pub plans_attempted: u64,
    pub plans_completed: u64,
    pub steps_completed: u64,
    pub retries_used: u64,
    pub replans_used: u64,
    pub steps_left: u64,
    pub error: Option<String>,
    pub pending_approval: Option<ApprovalRequest>,
    pub created_at: i128,
    pub updated_at: i128,
}

impl AutonomousSessionProgress {
    /// Whether the session is in a final state.
    pub fn terminal(&self) -> (r: bool)
        ensures
            r == is_terminal(self.status),
    {
        self.status.terminal()
    }
}

/// Names of the registered tools that require confirmation, and of those
/// whose static risk is high, in registry order.
pub struct ToolRiskLookup {
    pub confirmation: Vec<String>,
    pub high_risk: Vec<String>,
}

/// The names of the tools that require confirmation, in order.
pub open spec fn confirmation_names(defs: Seq<ToolDefinition>) -> Seq<Seq<char>>
    decreases defs.len(),
{
    if defs.len() == 0 {
        Seq::empty()
    } else if defs.last().requires_confirmation {
        confirmation_names(defs.drop_last()).push(defs.last().name@)
    } else {
        confirmation_names(defs.drop_last())
    }
}

/// The names of the high-risk tools, in order.
pub open spec fn high_risk_names(defs: Seq<ToolDefinition>) -> Seq<Seq<char>>
    decreases defs.len(),
{
    if defs.len() == 0 {
        Seq::empty()
    } else if defs.last().risk_level == ToolRiskLevel::High {
        high_risk_names(defs.drop_last()).push(defs.last().name@)
    } else {
        high_risk_names(defs.drop_last())
    }
}

impl ToolRiskLookup {
    /// Collects the risk metadata of the available tools.
    pub fn build(definitions: &Vec<ToolDefinition>) -> (r: Self)
        ensures
            strings_view(r.confirmation@) == confirmation_names(definitions@),
            strings_view(r.high_risk@) == high_risk_names(definitions@),
    {
        let mut confirmation: Vec<String> = Vec::new();
        let mut high_risk: Vec<String> = Vec::new();
        let mut i: usize = 0;
        while i < definitions.len()
            invariant
                i <= definitions@.len(),
                strings_view(confirmation@) == confirmation_names(definitions@.take(i as int)),
                strings_view(high_risk@) == high_risk_names(definitions@.take(i as int)),
            decreases definitions.len() - i,
        {
            let def = &definitions[i];
            proof {
                assert(definitions@.take(i + 1).drop_last() =~= definitions@.take(i as int));
                assert(definitions@.take(i + 1).last() == definitions@[i as int]);
            }
            if def.requires_confirmation {
                let ghost before = confirmation@;
                confirmation.push(def.name.clone());
                proof {
                    assert(strings_view(confirmation@) =~= strings_view(before).push(def.name@));
                }
            }
            if def.risk_level == ToolRiskLevel::High {
                let ghost before = high_risk@;
                high_risk.push(def.name.clone());
                proof {
                    assert(strings_view(high_risk@) =~= strings_view(before).push(def.name@));
                }
            }
            i = i + 1;
        }
        proof {
            assert(definitions@.take(i as int) =~= definitions@);
        }
        ToolRiskLookup { confirmation, high_risk }
    }
}

/// The reason the first risky task (in plan order, from `i`) gives for a
/// checkpoint: its tool requires confirmation, or else is high risk.
pub open spec fn risk_reason_from(
    tasks: Seq<PlanTaskView>,
    confirmation: Seq<Seq<char>>,
    high: Seq<Seq<char>>,
    i: int,
) -> Option<Seq<char>>
    decreases tasks.len() - i,
{
    if i < 0 || i >= tasks.len() {
        None
    } else {
        match tasks[i].tool_name {
            Some(t) => if confirmation.contains(t) {
                Some("step '"@ + tasks[i].description + "' requires operator confirmation"@)
            } else if high.contains(t) {
                Some("step '"@ + tasks[i].description + "' is high risk"@)
            } else {
                risk_reason_from(tasks, confirmation, high, i + 1)
            },
            None => risk_reason_from(tasks, confirmation, high, i + 1),
        }
    }
}

/// Whether a plan must be held for an approval checkpoint, and why.
pub open spec fn approval_decision(
    mode: ApprovalMode,
    tasks: Seq<PlanTaskView>,
    confirmation: Seq<Seq<char>>,
    high: Seq<Seq<char>>,
) -> (bool, Seq<char>) {
    if tasks.len() == 0 {
        (false, Seq::empty())
    } else {
        match mode {
            ApprovalMode::Automatic => (false, Seq::empty()),
            ApprovalMode::Manual => (true, "manual approval mode"@),
            ApprovalMode::OnRisk => match risk_reason_from(tasks, confirmation, high, 0) {
                Some(reason) => (true, reason),
                None => (false, Seq::empty()),
            },
        }
    }
}

/// Scanning from `i` reaches the risky task at `k` when no task from `i`
/// to `k` is risky.
proof fn lemma_risk_scan_reaches(
    tasks: Seq<PlanTaskView>,
    confirmation: Seq<Seq<char>>,
    high: Seq<Seq<char>>,
    i: int,
    k: int,
)
    requires
        0 <= i <= k < tasks.len(),
        forall|j: int|
            i <= j < k ==> !(#[trigger] tasks[j].tool_name matches Some(t) && (confirmation.contains(t)
                || high.contains(t))),
    ensures
        risk_reason_from(tasks, confirmation, high, i) == risk_reason_from(tasks, confirmation, high, k),
    decreases k - i,
{
    if i < k {
        lemma_risk_scan_reaches(tasks, confirmation, high, i + 1, k);
        let ti = tasks[i];
        assert(!(ti.tool_name matches Some(t) && (confirmation.contains(t) || high.contains(t))));
    }
}

/// Scanning from `i` finds nothing when no task from `i` on is risky.
proof fn lemma_risk_scan_empty(tasks: Seq<PlanTaskView>, confirmation: Seq<Seq<char>>, high: Seq<Seq<char>>, i: int)
    requires
        0 <= i,
        forall|j: int|
            i <= j < tasks.len() ==> !(#[trigger] tasks[j].tool_name matches Some(t) && (confirmation.contains(t)
                || high.contains(t))),
    ensures
        risk_reason_from(tasks, confirmation, high, i) is None,
    decreases tasks.len() - i,
{
    if i < tasks.len() {
        lemma_risk_scan_empty(tasks, confirmation, high, i + 1);
        let ti = tasks[i];
        assert(!(ti.tool_name matches Some(t) && (confirmation.contains(t) || high.contains(t))));
    }
}

/// Under the on-risk policy a plan is held for approval as soon as any of
/// its tasks runs a tool that requires confirmation or is high risk,
/// wherever that task stands in the plan; the reason names the first such
/// task (its tool requiring confirmation, or else being high risk).
pub proof fn lemma_on_risk_holds_for_the_first_risky_task(
    tasks: Seq<PlanTaskView>,
    confirmation: Seq<Seq<char>>,
    high: Seq<Seq<char>>,
    k: int,
    tool: Seq<char>,
)
    requires
        0 <= k < tasks.len(),
        tasks[k].tool_name == Some(tool),
        confirmation.contains(tool) || high.contains(tool),
        forall|j: int|
            0 <= j < k ==> !(#[trigger] tasks[j].tool_name matches Some(t) && (confirmation.contains(t)
                || high.contains(t))),
    ensures
        approval_decision(ApprovalMode::OnRisk, tasks, confirmation, high) == (
            true,
            if confirmation.contains(tool) {
                "step '"@ + tasks[k].description + "' requires operator confirmation"@
            } else {
                "step '"@ + tasks[k].description + "' is high risk"@
            },
        ),
{
    lemma_risk_scan_reaches(tasks, confirmation, high, 0, k);
}

/// Under the on-risk policy a plan none of whose tasks runs a tool that
/// requires confirmation or is high risk goes ahead without approval.
pub proof fn lemma_on_risk_passes_a_plan_without_risky_tools(
    tasks: Seq<PlanTaskView>,
    confirmation: Seq<Seq<char>>,
    high: Seq<Seq<char>>,
)
    requires
        forall|j: int|
            0 <= j < tasks.len() ==> !(#[trigger] tasks[j].tool_name matches Some(t) && (confirmation.contains(t)
                || high.contains(t))),
    ensures
        approval_decision(ApprovalMode::OnRisk, tasks, confirmation, high) == (false, Seq::<char>::empty()),
{
    lemma_risk_scan_empty(tasks, confirmation, high, 0);
}

/// An empty plan is never held; otherwise the automatic policy never holds
/// a plan and the manual policy always does, for "manual approval mode".
pub proof fn lemma_approval_by_mode(
    mode: ApprovalMode,
    tasks: Seq<PlanTaskView>,
    confirmation: Seq<Seq<char>>,
    high: Seq<Seq<char>>,
)
    ensures
        tasks.len() == 0 ==> approval_decision(mode, tasks, confirmation, high) == (false, Seq::<char>::empty()),
        tasks.len() > 0 && mode == ApprovalMode::Automatic ==> approval_decision(mode, tasks, confirmation, high)
            == (false, Seq::<char>::empty()),
        tasks.len() > 0 && mode == ApprovalMode::Manual ==> approval_decision(mode, tasks, confirmation, high) == (
            true,
            "manual approval mode"@,
        ),
{
}

/// Decides whether an approval checkpoint is required before running
/// `plan`, and why.
pub fn approval_required(policy: &ApprovalPolicy, plan: &ExecutionPlan, meta: &ToolRiskLookup) -> (r: (bool, String))
    ensures
        (r.0, r.1@) == approval_decision(
            policy.mode,
            tasks_view(plan.tasks@),
            strings_view(meta.confirmation@),
            strings_view(meta.high_risk@),
        ),
{
    if plan.tasks.len() == 0 {
        return (false, String::new());
    }
    match policy.mode {
        ApprovalMode::Automatic => (false, String::new()),
        ApprovalMode::Manual => (true, String::from_str("manual approval mode")),
        ApprovalMode::OnRisk => {
            let ghost tv = tasks_view(plan.tasks@);
            let ghost conf = strings_view(meta.confirmation@);
            let ghost high = strings_view(meta.high_risk@);
            let mut i: usize = 0;
            while i < plan.tasks.len()
                invariant
                    i <= plan.tasks@.len(),
                    plan.tasks@.len() > 0,
                    policy.mode == ApprovalMode::OnRisk,
                    tv == tasks_view(plan.tasks@),
                    conf == strings_view(meta.confirmation@),
                    high == strings_view(meta.high_risk@),
                    risk_reason_from(tv, conf, high, 0) == risk_reason_from(tv, conf, high, i as int),
                decreases plan.tasks.len() - i,
            {
                let task = &plan.tasks[i];
                proof {
                    assert(tv[i as int] == task@);
                }
                match &task.tool_name {
                    Some(tool) => {
                        let confirmation = contains_name(&meta.confirmation, tool.as_str());
                        let high_risk = contains_name(&meta.high_risk, tool.as_str());
                        if confirmation || high_risk {
                            let mut out: Vec<char> = Vec::new();
                            push_str(&mut out, "step '");
                            push_str(&mut out, task.description.as_str());
                            if confirmation {
                                push_str(&mut out, "' requires operator confirmation");
                            } else {
                                push_str(&mut out, "' is high risk");
                            }
                            proof {
                                assert(tv[i as int].tool_name == Some(tool@));
                                if confirmation {
                                    assert(out@ =~= "step '"@ + task.description@ + "' requires operator confirmation"@);
                                } else {
                                    assert(out@ =~= "step '"@ + task.description@ + "' is high risk"@);
                                }
                            }
                            return (true, string_of(out.as_slice()));
                        }
                    },
                    None => {},
                }
                i = i + 1;
            }
            (false, String::new())
        },
    }
}

} // verus!
