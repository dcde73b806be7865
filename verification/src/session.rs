//! The decisions of the autonomous runtime's reason–act–observe loop: the
//! budget gate, the recovery from a failed plan run, the reading of an
//! engine run's outcome, approval checkpoints, operator controls, and the
//! bounded reasoning log. The runtime performs the planning, execution,
//! waiting and streaming these decisions call for.

use vstd::prelude::*;
use crate::autonomous::{
    ApprovalRequest, AutonomousSessionProgress, AutonomousStatus, ExecutionBudget, ExecutionPolicy,
    ReasoningEvent, ReasoningPhase, ToolRiskLookup, approval_decision, approval_required, is_terminal, same_event,
    same_request,
};
use crate::ids::{id_text, new_id, uuid_text};
use crate::json::{Json, JsonView, lemma_members_view, members_view};
use crate::chars::{contains_text, decimal, push_decimal, text_contains};
use crate::execution::{ExecutionStatus, ExecutionStep, StepStatus};
use crate::json_text::push_str;
use crate::plan::{ExecutionPlan, PlannerError, copy_opt_string, opt_string_view, same_plan, tasks_view};
use crate::text::strings_view;
use crate::text::{blank, is_blank, string_of};

verus! {

/// Most reasoning events a session keeps.
pub const REASONING_EVENT_CAP: usize = 200;

/// Why the budget gate stops a session, if it does: the step budget, then
/// the duration budget, then the plan budget (a limit of 0 is unlimited).
pub open spec fn budget_breach_text(
    budget: ExecutionBudget,
    steps_completed: u64,
    elapsed_seconds: u64,
    plans_attempted: u64,
) -> Option<Seq<char>> {
    if budget.max_steps > 0 && steps_completed >= budget.max_steps {
        Some(
            "step budget ("@ + decimal(budget.max_steps as nat) + ") exhausted after "@ + decimal(
                steps_completed as nat,
            ) + " steps"@,
        )
    } else if budget.max_duration_seconds > 0 && elapsed_seconds >= budget.max_duration_seconds {
        Some("duration budget ("@ + decimal(budget.max_duration_seconds as nat) + "s) exhausted"@)
    } else if budget.max_plans > 0 && plans_attempted >= budget.max_plans {
        Some(
            "plan budget ("@ + decimal(budget.max_plans as nat) + ") exhausted after "@ + decimal(
                plans_attempted as nat,
            ) + " plans"@,
        )
    } else {
        None
    }
}

/// The budget gate run before every plan run.
pub fn budget_breach(
    budget: &ExecutionBudget,
    steps_completed: u64,
    elapsed_seconds: u64,
    plans_attempted: u64,
) -> (r: Option<String>)
    ensures
        match r {
            None => budget_breach_text(*budget, steps_completed, elapsed_seconds, plans_attempted) is None,
            Some(m) => budget_breach_text(*budget, steps_completed, elapsed_seconds, plans_attempted) == Some(
                m@,
            ),
        },
{
    let mut out: Vec<char> = Vec::new();
    if budget.max_steps > 0 && steps_completed >= budget.max_steps as u64 {
        push_str(&mut out, "step budget (");
        push_decimal(budget.max_steps as u64, &mut out);
        push_str(&mut out, ") exhausted after ");
        push_decimal(steps_completed, &mut out);
        push_str(&mut out, " steps");
        return Some(string_of(out.as_slice()));
    }
    if budget.max_duration_seconds > 0 && elapsed_seconds >= budget.max_duration_seconds {
        push_str(&mut out, "duration budget (");
        push_decimal(budget.max_duration_seconds, &mut out);
        push_str(&mut out, "s) exhausted");
        return Some(string_of(out.as_slice()));
    }
    if budget.max_plans > 0 && plans_attempted >= budget.max_plans {
        push_str(&mut out, "plan budget (");
        push_decimal(budget.max_plans, &mut out);
        push_str(&mut out, ") exhausted after ");
        push_decimal(plans_attempted, &mut out);
        push_str(&mut out, " plans");
        return Some(string_of(out.as_slice()));
    }
    None
}

/// The steps left in the step budget (saturating at zero).
pub open spec fn steps_left_of(max_steps: usize, steps_completed: u64) -> u64 {
    let done = steps_completed as usize;
    if done >= max_steps {
        0
    } else {
        (max_steps - done) as u64
    }
}

/// The steps left in the step budget.
pub fn steps_left(max_steps: usize, steps_completed: u64) -> (r: u64)
    ensures
        r == steps_left_of(max_steps, steps_completed),
{
    let done = steps_completed as usize;
    if done >= max_steps {
        0
    } else {
        (max_steps - done) as u64
    }
}

/// How the runtime recovers from a failed or timed-out plan run.
pub enum Recovery {
    /// The failure is a variable-resolution failure, which replanning can
    /// never heal: the session fails with this message.
    Unrecoverable(String),
    /// Neither a retry nor a replan is left: the session fails with this
    /// message.
    Exhausted(String),
    /// The failed plan is attempted again (one retry is spent).
    Retry,
    /// The plan is revised around the failure (one replan is spent).
    Replan,
}

/// The view of a recovery: its kind (0 to 3, in declaration order) and
/// message.
pub open spec fn recovery_view(r: Recovery) -> (u8, Seq<char>) {
    match r {
        Recovery::Unrecoverable(m) => (0, m@),
        Recovery::Exhausted(m) => (1, m@),
        Recovery::Retry => (2, Seq::empty()),
        Recovery::Replan => (3, Seq::empty()),
    }
}

/// Whether an error names a variable-resolution failure.
pub open spec fn is_resolution_failure(error: Seq<char>) -> bool {
    contains_text(error, "unresolved variable"@) || contains_text(error, "invalid template"@)
}

/// Whether a retry is allowed: some retry is left, and the failure is not a
/// timeout unless timeouts count toward retries.
pub open spec fn can_retry(policy: ExecutionPolicy, retries_used: u64, timed_out: bool) -> bool {
    (!timed_out || policy.retry.retry_on_timeout) && retries_used < policy.retry.max_attempts
}

/// The recovery decision, in the shape of [`recovery_view`].
pub open spec fn recovery_decision(
    policy: ExecutionPolicy,
    retries_used: u64,
    replans_used: u64,
    error: Seq<char>,
    timed_out: bool,
) -> (u8, Seq<char>) {
    if is_resolution_failure(error) {
        (0, "Unrecoverable resolution failure: "@ + error)
    } else if !can_retry(policy, retries_used, timed_out) && !(replans_used < policy.budget.max_replans) {
        (
            1,
            "Recovery budget exhausted ("@ + decimal(retries_used as nat) + " retries, "@ + decimal(
                replans_used as nat,
            ) + " replans): "@ + error,
        )
    } else if can_retry(policy, retries_used, timed_out) {
        (2, Seq::empty())
    } else {
        (3, Seq::empty())
    }
}

/// Decides how to recover from a failed plan run.
pub fn decide_recovery(
    policy: &ExecutionPolicy,
    retries_used: u64,
    replans_used: u64,
    error: &str,
    timed_out: bool,
) -> (r: Recovery)
    ensures
        recovery_view(r) == recovery_decision(*policy, retries_used, replans_used, error@, timed_out),
{
    if text_contains(error, "unresolved variable") || text_contains(error, "invalid template") {
        let mut out: Vec<char> = Vec::new();
        push_str(&mut out, "Unrecoverable resolution failure: ");
        push_str(&mut out, error);
        return Recovery::Unrecoverable(string_of(out.as_slice()));
    }
    let retryable = if timed_out {
        policy.retry.retry_on_timeout
    } else {
        true
    };
    let retry = retryable && retries_used < policy.retry.max_attempts;
    let replans_left = replans_used < policy.budget.max_replans;
    if !retry && !replans_left {
        let mut out: Vec<char> = Vec::new();
        push_str(&mut out, "Recovery budget exhausted (");
        push_decimal(retries_used, &mut out);
        push_str(&mut out, " retries, ");
        push_decimal(replans_used, &mut out);
        push_str(&mut out, " replans): ");
        push_str(&mut out, error);
        return Recovery::Exhausted(string_of(out.as_slice()));
    }
    if retry {
        Recovery::Retry
    } else {
        Recovery::Replan
    }
}

/// What one engine run of a plan came to.
pub enum RunOutcome {
    /// The plan completed with this many steps done.
    Completed { steps_done: usize },
    /// The execution was cancelled.
    Cancelled,
    /// The execution was paused.
    Paused,
    /// The plan ran past its deadline.
    Timeout(String),
    /// The plan failed.
    Failed { error: String, tool_name: Option<String>, failed_step: Option<u128>, steps_done: usize },
}

/// The number of steps that completed or were skipped among the first `n`.
pub open spec fn done_count(steps: Seq<ExecutionStep>) -> nat
    decreases steps.len(),
{
    if steps.len() == 0 {
        0
    } else {
        done_count(steps.drop_last()) + if steps.last().status == StepStatus::Completed
            || steps.last().status == StepStatus::Skipped {
            1nat
        } else {
            0nat
        }
    }
}

/// Position of the first failed step at or after `i`, or -1.
pub open spec fn first_failed_from(steps: Seq<ExecutionStep>, i: int) -> int
    decreases steps.len() - i,
{
    if i < 0 || i >= steps.len() {
        -1
    } else if steps[i].status == StepStatus::Failed {
        i
    } else {
        first_failed_from(steps, i + 1)
    }
}

/// The view of a run outcome: kind (0 completed, 1 cancelled, 2 paused,
/// 3 timeout, 4 failed), message, tool name, failed task and steps done.
pub open spec fn outcome_view(o: RunOutcome) -> (u8, Seq<char>, Option<Seq<char>>, Option<u128>, nat) {
    match o {
        RunOutcome::Completed { steps_done } => (0, Seq::empty(), None, None, steps_done as nat),
        RunOutcome::Cancelled => (1, Seq::empty(), None, None, 0),
        RunOutcome::Paused => (2, Seq::empty(), None, None, 0),
        RunOutcome::Timeout(m) => (3, m@, None, None, 0),
        RunOutcome::Failed { error, tool_name, failed_step, steps_done } => (
            4,
            error@,
            opt_string_view(tool_name),
            failed_step,
            steps_done as nat,
        ),
    }
}

/// How a finished engine run reads: by the execution's status; a failed
/// run names its first failed step, that step's tool and error, and the
/// id of the plan task at that step's number.
pub open spec fn run_outcome(status: ExecutionStatus, steps: Seq<ExecutionStep>, plan: ExecutionPlan) -> (
    u8,
    Seq<char>,
    Option<Seq<char>>,
    Option<u128>,
    nat,
) {
    let done = done_count(steps);
    match status {
        ExecutionStatus::Completed => (0, Seq::empty(), None, None, done),
        ExecutionStatus::Cancelled => (1, Seq::empty(), None, None, 0),
        ExecutionStatus::Paused => (2, Seq::empty(), None, None, 0),
        ExecutionStatus::Pending | ExecutionStatus::Running => (
            4,
            "execution did not reach a terminal state"@,
            None,
            None,
            done,
        ),
        ExecutionStatus::Failed => {
            let f = first_failed_from(steps, 0);
            if f < 0 {
                (4, "plan execution failed"@, None, None, done)
            } else {
                let step = steps[f];
                (
                    4,
                    match step.error {
                        Some(e) => e@,
                        None => "tool invocation failed"@,
                    },
                    opt_string_view(step.tool_name),
                    if step.step_number < plan.tasks@.len() {
                        Some(plan.tasks@[step.step_number as int].id)
                    } else {
                        None
                    },
                    done,
                )
            }
        },
    }
}

/// Reads the outcome of a finished engine run.
pub fn classify_run(status: ExecutionStatus, steps: &Vec<ExecutionStep>, plan: &ExecutionPlan) -> (r: RunOutcome)
    ensures
        outcome_view(r) == run_outcome(status, steps@, *plan),
{
    let mut done: usize = 0;
    let mut i: usize = 0;
    while i < steps.len()
        invariant
            i <= steps@.len(),
            done as nat == done_count(steps@.take(i as int)),
            done <= i,
        decreases steps.len() - i,
    {
        proof {
            assert(steps@.take(i + 1).drop_last() =~= steps@.take(i as int));
        }
        if steps[i].status == StepStatus::Completed || steps[i].status == StepStatus::Skipped {
            done = done + 1;
        }
        i = i + 1;
    }
    proof {
        assert(steps@.take(i as int) =~= steps@);
    }
    match status {
        ExecutionStatus::Completed => RunOutcome::Completed { steps_done: done },
        ExecutionStatus::Cancelled => RunOutcome::Cancelled,
        ExecutionStatus::Paused => RunOutcome::Paused,
        ExecutionStatus::Pending | ExecutionStatus::Running => RunOutcome::Failed {
            error: String::from_str("execution did not reach a terminal state"),
            tool_name: None,
            failed_step: None,
            steps_done: done,
        },
        ExecutionStatus::Failed => {
            let mut k: usize = 0;
            while k < steps.len()
                invariant
                    k <= steps@.len(),
                    status == ExecutionStatus::Failed,
                    done as nat == done_count(steps@),
                    first_failed_from(steps@, 0) == first_failed_from(steps@, k as int),
                decreases steps.len() - k,
            {
                if steps[k].status == StepStatus::Failed {
                    let step = &steps[k];
                    let error = match &step.error {
                        Some(e) => e.clone(),
                        None => String::from_str("tool invocation failed"),
                    };
                    let tool_name = match &step.tool_name {
                        Some(t) => Some(t.clone()),
                        None => None,
                    };
                    let failed_step = if step.step_number < plan.tasks.len() {
                        Some(plan.tasks[step.step_number].id)
                    } else {
                        None
                    };
                    return RunOutcome::Failed { error, tool_name, failed_step, steps_done: done };
                }
                k = k + 1;
            }
            RunOutcome::Failed {
                error: String::from_str("plan execution failed"),
                tool_name: None,
                failed_step: None,
                steps_done: done,
            }
        },
    }
}

/// The message a timed-out plan run reports.
pub fn timeout_message(plan_timeout_seconds: u64) -> (r: String)
    ensures
        r@ == "plan ran past the "@ + decimal(plan_timeout_seconds as nat) + "s deadline"@,
{
    let mut out: Vec<char> = Vec::new();
    push_str(&mut out, "plan ran past the ");
    push_decimal(plan_timeout_seconds, &mut out);
    push_str(&mut out, "s deadline");
    string_of(out.as_slice())
}

/// Errors surfaced by the autonomous runtime.
pub enum RuntimeError {
    /// No session has this id.
    NotFound(u128),
    /// The session is not in a state that allows the request.
    NotActive(u128),
    /// The session has no undecided approval checkpoint.
    NoPendingApproval,
    /// Planning failed.
    Planning(PlannerError),
    /// A storage error with the given message.
    Database(String),
    /// The session is already in a final state.
    Terminal(u128),
}

/// A session may start only for a goal that is not blank.
pub fn validate_goal(goal: &str) -> (r: Result<(), RuntimeError>)
    ensures
        r is Ok <==> !is_blank(goal@),
        r matches Err(e) ==> e matches RuntimeError::Planning(PlannerError::EmptyGoal),
{
    if blank(goal) {
        Err(RuntimeError::Planning(PlannerError::EmptyGoal))
    } else {
        Ok(())
    }
}

/// The live state of one session.
pub struct SessionCore {
    pub session_id: u128,
    pub workspace_id: Option<u128>,
    pub goal: String,
    pub status: AutonomousStatus,
    pub policy: ExecutionPolicy,
    /// The reasoning log, newest last, at most [`REASONING_EVENT_CAP`] long.
    pub reasoning: Vec<ReasoningEvent>,
    pub current_plan: Option<ExecutionPlan>,
    pub execution_id: Option<u128>,
    pub last_execution_id: Option<u128>,
    pub plans_attempted: u64,
    pub plans_completed: u64,
    pub steps_completed: u64,
    pub retries_used: u64,
    pub replans_used: u64,
    pub error: Option<String>,
    pub pending_approval: Option<ApprovalRequest>,
    /// Names of the tools that failed a run, each once.
    pub attempted_tools: Vec<String>,
    pub created_at: i128,
    pub updated_at: i128,
}

/// The last [`REASONING_EVENT_CAP`] elements of a log.
pub open spec fn capped<T>(s: Seq<T>) -> Seq<T> {
    if s.len() > REASONING_EVENT_CAP {
        s.skip(s.len() - REASONING_EVENT_CAP)
    } else {
        s
    }
}

/// How an approval checkpoint stands.
#[derive(Debug, Clone, Copy, PartialEq, Eq, Structural)]
pub enum GatePoll {
    /// The plan was approved: run it.
    Proceed,
    /// The plan was rejected: the session ends.
    Rejected,
    /// The session was cancelled while waiting.
    Cancelled,
    /// No decision yet: keep waiting.
    Wait,
}

/// The approval decision recorded on a pending checkpoint, if any.
pub open spec fn decision_of(pending: Option<ApprovalRequest>) -> Option<bool> {
    match pending {
        Some(p) => p.approved,
        None => None,
    }
}

/// How a checkpoint stands given its recorded decision and whether the
/// session was cancelled: a decision wins over a cancellation.
pub open spec fn gate_poll(decided: Option<bool>, cancelled: bool) -> GatePoll {
    match decided {
        Some(true) => GatePoll::Proceed,
        Some(false) => GatePoll::Rejected,
        None => if cancelled {
            GatePoll::Cancelled
        } else {
            GatePoll::Wait
        },
    }
}

/// What an operator control does to a session.
#[derive(Debug, Clone, Copy, PartialEq, Eq, Structural)]
pub enum ControlDecision {
    /// Carry the request out.
    Apply,
    /// Nothing to do: report the session as it is.
    Unchanged,
    /// Refuse: the session is not in a state that allows it.
    NotActive,
    /// Refuse: the session is already final.
    Terminal,
}

/// A pause applies to a running session, leaves a paused one as it is, and
/// is refused otherwise.
pub open spec fn pause_control(s: AutonomousStatus) -> ControlDecision {
    if s == AutonomousStatus::Running {
        ControlDecision::Apply
    } else if s == AutonomousStatus::Paused {
        ControlDecision::Unchanged
    } else {
        ControlDecision::NotActive
    }
}

/// A resume applies to a paused session only.
pub open spec fn resume_control(s: AutonomousStatus) -> ControlDecision {
    if s == AutonomousStatus::Paused {
        ControlDecision::Apply
    } else {
        ControlDecision::NotActive
    }
}

/// A cancel applies to any session that is not final.
pub open spec fn cancel_control(s: AutonomousStatus) -> ControlDecision {
    if is_terminal(s) {
        ControlDecision::Terminal
    } else {
        ControlDecision::Apply
    }
}

/// A session that has ended stays ended: no operator control applies to
/// a completed, failed or cancelled session, and the loop does not wait on
/// it.
pub proof fn lemma_ended_sessions_stay_ended(s: AutonomousStatus, cancelled: bool)
    requires
        is_terminal(s),
    ensures
        pause_control(s) == ControlDecision::NotActive,
        resume_control(s) == ControlDecision::NotActive,
        cancel_control(s) == ControlDecision::Terminal,
        !(!cancelled && s == AutonomousStatus::Paused),
{
}

/// Decides an operator pause.
pub fn decide_pause(s: AutonomousStatus) -> (r: ControlDecision)
    ensures
        r == pause_control(s),
{
    match s {
        AutonomousStatus::Running => ControlDecision::Apply,
        AutonomousStatus::Paused => ControlDecision::Unchanged,
        _ => ControlDecision::NotActive,
    }
}

/// Decides an operator resume.
pub fn decide_resume(s: AutonomousStatus) -> (r: ControlDecision)
    ensures
        r == resume_control(s),
{
    match s {
        AutonomousStatus::Paused => ControlDecision::Apply,
        _ => ControlDecision::NotActive,
    }
}

/// Decides an operator cancel.
pub fn decide_cancel(s: AutonomousStatus) -> (r: ControlDecision)
    ensures
        r == cancel_control(s),
{
    if s.terminal() {
        ControlDecision::Terminal
    } else {
        ControlDecision::Apply
    }
}

/// Whether the loop keeps waiting for a resume: only while the session is
/// paused and not cancelled.
pub fn keeps_waiting(s: AutonomousStatus, cancelled: bool) -> (r: bool)
    ensures
        r == (!cancelled && s == AutonomousStatus::Paused),
{
    !cancelled && s == AutonomousStatus::Paused
}

/// The status a session ends in when planning fails: cancelled when the
/// session was cancelled, failed otherwise.
pub fn planning_failure_status(cancelled: bool) -> (r: AutonomousStatus)
    ensures
        r == if cancelled {
            AutonomousStatus::Cancelled
        } else {
            AutonomousStatus::Failed
        },
{
    if cancelled {
        AutonomousStatus::Cancelled
    } else {
        AutonomousStatus::Failed
    }
}

impl SessionCore {
    /// A running session with nothing done yet, created at `now`.
    pub fn new(session_id: u128, workspace_id: Option<u128>, goal: String, policy: ExecutionPolicy, now: i128) -> (r: Self)
        ensures
            r.session_id == session_id,
            r.workspace_id == workspace_id,
            r.goal == goal,
            r.status == AutonomousStatus::Running,
            r.policy == policy,
            r.reasoning@.len() == 0,
            r.current_plan is None,
            r.execution_id is None,
            r.last_execution_id is None,
            r.plans_attempted == 0,
            r.plans_completed == 0,
            r.steps_completed == 0,
            r.retries_used == 0,
            r.replans_used == 0,
            r.error is None,
            r.pending_approval is None,
            r.attempted_tools@.len() == 0,
            r.created_at == now,
            r.updated_at == now,
    {
        SessionCore {
            session_id,
            workspace_id,
            goal,
            status: AutonomousStatus::Running,
            policy,
            reasoning: Vec::new(),
            current_plan: None,
            execution_id: None,
            last_execution_id: None,
            plans_attempted: 0,
            plans_completed: 0,
            steps_completed: 0,
            retries_used: 0,
            replans_used: 0,
            error: None,
            pending_approval: None,
            attempted_tools: Vec::new(),
            created_at: now,
            updated_at: now,
        }
    }

    /// Appends a reasoning event, dropping the oldest ones beyond the cap.
    pub fn record_reasoning(&mut self, event: ReasoningEvent, now: i128)
        ensures
            final(self).reasoning@ == capped(old(self).reasoning@.push(event)),
            final(self).updated_at == now,
            final(self).status == old(self).status,
            *final(self) == (SessionCore { reasoning: final(self).reasoning, updated_at: now, ..*old(self) }),
    {
        let ghost full = self.reasoning@.push(event);
        self.reasoning.push(event);
        while self.reasoning.len() > REASONING_EVENT_CAP
            invariant
                full.len() >= self.reasoning@.len(),
                self.reasoning@ == full.skip(full.len() - self.reasoning@.len()),
                self.reasoning@.len() >= 1,
                full.len() > REASONING_EVENT_CAP ==> self.reasoning@.len() >= REASONING_EVENT_CAP,
                full.len() <= REASONING_EVENT_CAP ==> self.reasoning@.len() == full.len(),
                self.status == old(self).status,
                *self == (SessionCore { reasoning: self.reasoning, ..*old(self) }),
            decreases self.reasoning@.len(),
        {
            let ghost before = self.reasoning@;
            self.reasoning.remove(0);
            proof {
                assert(self.reasoning@ =~= full.skip(full.len() - self.reasoning@.len()));
            }
        }
        proof {
            if full.len() <= REASONING_EVENT_CAP {
                assert(full.skip(0) =~= full);
            }
        }
        self.updated_at = now;
    }

    /// Sets the status.
    pub fn set_status(&mut self, status: AutonomousStatus, now: i128)
        ensures
            final(self).status == status,
            final(self).updated_at == now,
            final(self).reasoning == old(self).reasoning,
            *final(self) == (SessionCore { status, updated_at: now, ..*old(self) }),
    {
        self.status = status;
        self.updated_at = now;
    }

    /// Records the session's error.
    pub fn set_error(&mut self, error: String, now: i128)
        ensures
            final(self).error == Some(error),
            final(self).status == old(self).status,
            final(self).updated_at == now,
            *final(self) == (SessionCore { error: final(self).error, updated_at: now, ..*old(self) }),
    {
        self.error = Some(error);
        self.updated_at = now;
    }

    /// Records the start of an engine run of a plan.
    pub fn begin_run(&mut self, execution_id: u128, now: i128)
        requires
            old(self).plans_attempted < u64::MAX,
        ensures
            final(self).execution_id == Some(execution_id),
            final(self).last_execution_id == Some(execution_id),
            final(self).plans_attempted == old(self).plans_attempted + 1,
            final(self).status == old(self).status,
            final(self).updated_at == now,
            *final(self) == (SessionCore {
                execution_id: Some(execution_id),
                last_execution_id: Some(execution_id),
                plans_attempted: final(self).plans_attempted,
                updated_at: now,
                ..*old(self)
            }),
    {
        self.execution_id = Some(execution_id);
        self.last_execution_id = Some(execution_id);
        self.plans_attempted = self.plans_attempted + 1;
        self.updated_at = now;
    }

    /// Counts the steps a failed run got done.
    pub fn note_steps_done(&mut self, steps: usize, now: i128)
        requires
            old(self).steps_completed + steps <= u64::MAX,
        ensures
            final(self).steps_completed == old(self).steps_completed + steps,
            final(self).status == old(self).status,
            final(self).updated_at == now,
            *final(self) == (SessionCore { steps_completed: final(self).steps_completed, updated_at: now, ..*old(self) }),
    {
        self.steps_completed = self.steps_completed + steps as u64;
        self.updated_at = now;
    }

    /// Remembers the tool a failed run failed in.
    pub fn note_attempted_tool(&mut self, tool: Option<&str>)
        ensures
            crate::text::strings_view(final(self).attempted_tools@) == match tool {
                Some(t) => if crate::text::strings_view(old(self).attempted_tools@).contains(t@) {
                    crate::text::strings_view(old(self).attempted_tools@)
                } else {
                    crate::text::strings_view(old(self).attempted_tools@).push(t@)
                },
                None => crate::text::strings_view(old(self).attempted_tools@),
            },
            final(self).status == old(self).status,
            *final(self) == (SessionCore { attempted_tools: final(self).attempted_tools, ..*old(self) }),
    {
        match tool {
            Some(t) => {
                if !crate::tools::contains_name(&self.attempted_tools, t) {
                    let ghost before = self.attempted_tools@;
                    self.attempted_tools.push(String::from_str(t));
                    proof {
                        assert(crate::text::strings_view(self.attempted_tools@) =~= crate::text::strings_view(
                            before,
                        ).push(t@));
                    }
                }
            },
            None => {},
        }
    }

    /// Spends what a recovery decision spends and records it in the
    /// reasoning log: a retry or a replan goes on with a `Replanning` note
    /// (a retry's detail is `{"retries_used": n}`, its new count); an
    /// unrecoverable failure or an exhausted budget ends the session as
    /// failed with the decision's message as its error and as a `Terminal`
    /// event.
    pub fn apply_recovery(&mut self, recovery: &Recovery, now: i128)
        requires
            recovery is Retry ==> old(self).retries_used < u64::MAX,
            recovery is Replan ==> old(self).replans_used < u64::MAX,
        ensures
            recovery is Retry ==> final(self).retries_used == old(self).retries_used + 1,
            recovery is Replan ==> final(self).replans_used == old(self).replans_used + 1,
            !(recovery is Retry) ==> final(self).retries_used == old(self).retries_used,
            !(recovery is Replan) ==> final(self).replans_used == old(self).replans_used,
            (recovery is Retry || recovery is Replan) ==> final(self).status == old(self).status,
            recovery matches Recovery::Unrecoverable(m) ==> final(self).status == AutonomousStatus::Failed
                && final(self).error == Some(*m),
            recovery matches Recovery::Exhausted(m) ==> final(self).status == AutonomousStatus::Failed
                && final(self).error == Some(*m),
            !(recovery is Unrecoverable || recovery is Exhausted) ==> final(self).error == old(self).error,
            final(self).updated_at == now,
            final(self).reasoning@.len() > 0,
            final(self).reasoning@ == capped(old(self).reasoning@.push(final(self).reasoning@.last())),
            recovery_event(*recovery, final(self).reasoning@.last(), old(self).session_id, final(self).retries_used, now),
            *final(self) == (SessionCore {
                retries_used: final(self).retries_used,
                replans_used: final(self).replans_used,
                status: final(self).status,
                error: final(self).error,
                reasoning: final(self).reasoning,
                updated_at: now,
                ..*old(self)
            }),
    {
        let event = match recovery {
            Recovery::Retry => {
                self.retries_used = self.retries_used + 1;
                let mut count: Vec<char> = Vec::new();
                push_decimal(self.retries_used, &mut count);
                let mut members: Vec<(String, Json)> = Vec::new();
                members.push((String::from_str("retries_used"), Json::Number(string_of(count.as_slice()))));
                proof {
                    lemma_members_view(members@);
                    assert(members_view(members@) =~= seq![
                        ("retries_used"@, JsonView::Number(decimal(self.retries_used as nat))),
                    ]);
                }
                ReasoningEvent {
                    session_id: self.session_id,
                    phase: ReasoningPhase::Replanning,
                    message: String::from_str(recovery_note(recovery)),
                    detail: Some(Json::Object(members)),
                    created_at: now,
                }
            },
            Recovery::Replan => {
                self.replans_used = self.replans_used + 1;
                ReasoningEvent {
                    session_id: self.session_id,
                    phase: ReasoningPhase::Replanning,
                    message: String::from_str(recovery_note(recovery)),
                    detail: None,
                    created_at: now,
                }
            },
            Recovery::Unrecoverable(m) => {
                self.status = AutonomousStatus::Failed;
                self.error = Some(m.clone());
                ReasoningEvent {
                    session_id: self.session_id,
                    phase: ReasoningPhase::Terminal,
                    message: m.clone(),
                    detail: None,
                    created_at: now,
                }
            },
            Recovery::Exhausted(m) => {
                self.status = AutonomousStatus::Failed;
                self.error = Some(m.clone());
                ReasoningEvent {
                    session_id: self.session_id,
                    phase: ReasoningPhase::Terminal,
                    message: m.clone(),
                    detail: None,
                    created_at: now,
                }
            },
        };
        let ghost ev = event;
        self.record_reasoning(event, now);
        proof {
            lemma_capped_last(old(self).reasoning@.push(ev));
        }
    }

    /// Parks the session on an approval checkpoint.
    pub fn open_approval(&mut self, request: ApprovalRequest, now: i128)
        ensures
            final(self).pending_approval == Some(request),
            final(self).status == AutonomousStatus::WaitingApproval,
            final(self).updated_at == now,
            *final(self) == (SessionCore {
                pending_approval: Some(request),
                status: AutonomousStatus::WaitingApproval,
                updated_at: now,
                ..*old(self)
            }),
    {
        self.pending_approval = Some(request);
        self.status = AutonomousStatus::WaitingApproval;
        self.updated_at = now;
    }

    /// How the pending checkpoint stands.
    pub fn poll_approval(&self, cancelled: bool) -> (r: GatePoll)
        ensures
            r == gate_poll(decision_of(self.pending_approval), cancelled),
    {
        let decided = match &self.pending_approval {
            Some(p) => p.approved,
            None => None,
        };
        match decided {
            Some(true) => GatePoll::Proceed,
            Some(false) => GatePoll::Rejected,
            None => if cancelled {
                GatePoll::Cancelled
            } else {
                GatePoll::Wait
            },
        }
    }

    /// Closes a decided checkpoint: an approval resumes the session, a
    /// rejection cancels it.
    pub fn close_approval(&mut self, approved: bool, now: i128)
        ensures
            final(self).pending_approval is None,
            final(self).status == if approved {
                AutonomousStatus::Running
            } else {
                AutonomousStatus::Cancelled
            },
            final(self).updated_at == now,
            *final(self) == (SessionCore {
                pending_approval: None,
                status: final(self).status,
                updated_at: now,
                ..*old(self)
            }),
    {
        self.pending_approval = None;
        self.status = if approved {
            AutonomousStatus::Running
        } else {
            AutonomousStatus::Cancelled
        };
        self.updated_at = now;
    }

    /// Rejects the pending checkpoint when no decision arrived in time.
    pub fn expire_approval(&mut self, now: i128)
        ensures
            match old(self).pending_approval {
                Some(p) => (final(self).pending_approval matches Some(q) && q.approved == Some(false)
                    && q.decided_at == Some(now) && q.request_id == p.request_id && (q.note matches Some(n)
                    && n@ == "approval timeout"@)),
                None => final(self).pending_approval is None,
            },
            final(self).status == old(self).status,
            *final(self) == (SessionCore { pending_approval: final(self).pending_approval, ..*old(self) }),
    {
        match &mut self.pending_approval {
            Some(p) => {
                p.approved = Some(false);
                p.note = Some(String::from_str("approval timeout"));
                p.decided_at = Some(now);
            },
            None => {},
        }
    }

    /// Records an operator's decision on the pending checkpoint. A
    /// checkpoint is decided once: a second decision, or one without a
    /// checkpoint, is refused. An approval resumes the session; a
    /// rejection cancels it.
    pub fn resolve_approval(&mut self, approved: bool, note: Option<String>, now: i128) -> (r: Result<(), RuntimeError>)
        ensures
            r is Ok <==> (old(self).pending_approval matches Some(p) && p.approved is None),
            r matches Err(e) ==> e is NoPendingApproval && *final(self) == *old(self),
            r is Ok ==> (final(self).pending_approval matches Some(q) && q.approved == Some(approved)
                && q.note == note && q.decided_at == Some(now)),
            r is Ok ==> final(self).status == (if approved {
                AutonomousStatus::Running
            } else {
                AutonomousStatus::Cancelled
            }) && final(self).updated_at == now,
            r is Ok ==> *final(self) == (SessionCore {
                pending_approval: final(self).pending_approval,
                status: final(self).status,
                updated_at: now,
                ..*old(self)
            }),
    {
        let undecided = match &self.pending_approval {
            Some(p) => p.approved.is_none(),
            None => false,
        };
        if !undecided {
            return Err(RuntimeError::NoPendingApproval);
        }
        match &mut self.pending_approval {
            Some(p) => {
                p.approved = Some(approved);
                p.note = note;
                p.decided_at = Some(now);
            },
            None => {},
        }
        self.status = if approved {
            AutonomousStatus::Running
        } else {
            AutonomousStatus::Cancelled
        };
        self.updated_at = now;
        Ok(())
    }

    /// Records a completed goal: one more completed plan, the run's steps,
    /// the final plan, and the completed status.
    pub fn finish_completed(&mut self, plan: ExecutionPlan, steps_done: usize, now: i128)
        requires
            old(self).plans_completed < u64::MAX,
            old(self).steps_completed + steps_done <= u64::MAX,
        ensures
            final(self).plans_completed == old(self).plans_completed + 1,
            final(self).steps_completed == old(self).steps_completed + steps_done,
            final(self).status == AutonomousStatus::Completed,
            final(self).execution_id is None,
            final(self).current_plan == Some(plan),
            final(self).updated_at == now,
            *final(self) == (SessionCore {
                plans_completed: final(self).plans_completed,
                steps_completed: final(self).steps_completed,
                status: AutonomousStatus::Completed,
                execution_id: None,
                current_plan: Some(plan),
                updated_at: now,
                ..*old(self)
            }),
    {
        self.plans_completed = self.plans_completed + 1;
        self.steps_completed = self.steps_completed + steps_done as u64;
        self.status = AutonomousStatus::Completed;
        self.execution_id = None;
        self.current_plan = Some(plan);
        self.updated_at = now;
    }

    /// Takes in what a plan run came to and records it: a completed run
    /// finishes the session (`Terminal`, "Goal reached: {n} steps
    /// completed", detail `{"goal": goal}`); a cancelled run ends it
    /// cancelled (`Terminal`, "Execution cancelled"); a paused run pauses it
    /// (`Pause`, "Plan run paused; awaiting resume") until it is resumed; a
    /// timed-out run (`Replanning`, "Plan run timed out: {message}") and a
    /// failed run (`Observed`, "Plan run failed: {error}", detail
    /// `{"tool": name}` when the failing tool is known, after counting the
    /// steps it got done and the tool it tried) go on to recovery.
    pub fn take_run_outcome(&mut self, plan: ExecutionPlan, outcome: RunOutcome, now: i128) -> (r: RunFollowUp)
        requires
            outcome matches RunOutcome::Completed { steps_done } ==> old(self).plans_completed < u64::MAX
                && old(self).steps_completed + steps_done <= u64::MAX,
            outcome matches RunOutcome::Failed { steps_done, .. } ==> old(self).steps_completed + steps_done
                <= u64::MAX,
        ensures
            final(self).updated_at == now,
            final(self).reasoning@.len() > 0,
            final(self).reasoning@ == capped(old(self).reasoning@.push(final(self).reasoning@.last())),
            run_event(outcome, plan, final(self).reasoning@.last(), old(self).session_id, now),
            run_follow_up(outcome, r),
            outcome matches RunOutcome::Completed { steps_done } ==> {
                &&& final(self).plans_completed == old(self).plans_completed + 1
                &&& final(self).steps_completed == old(self).steps_completed + steps_done
                &&& final(self).status == AutonomousStatus::Completed
                &&& final(self).execution_id is None
                &&& final(self).current_plan == Some(plan)
            },
            outcome is Cancelled ==> final(self).status == AutonomousStatus::Cancelled,
            outcome is Paused ==> final(self).status == AutonomousStatus::Paused,
            (outcome is Timeout || outcome is Failed) ==> final(self).status == old(self).status,
            outcome matches RunOutcome::Failed { steps_done, tool_name, .. } ==> {
                &&& final(self).steps_completed == old(self).steps_completed + steps_done
                &&& crate::text::strings_view(final(self).attempted_tools@) == match tool_name {
                    Some(t) => if crate::text::strings_view(old(self).attempted_tools@).contains(t@) {
                        crate::text::strings_view(old(self).attempted_tools@)
                    } else {
                        crate::text::strings_view(old(self).attempted_tools@).push(t@)
                    },
                    None => crate::text::strings_view(old(self).attempted_tools@),
                }
            },
            !(outcome is Failed) ==> final(self).attempted_tools == old(self).attempted_tools,
            !(outcome is Completed || outcome is Failed) ==> final(self).steps_completed
                == old(self).steps_completed,
            !(outcome is Completed) ==> {
                &&& final(self).plans_completed == old(self).plans_completed
                &&& final(self).execution_id == old(self).execution_id
                &&& final(self).current_plan == old(self).current_plan
            },
            *final(self) == (SessionCore {
                plans_completed: final(self).plans_completed,
                steps_completed: final(self).steps_completed,
                status: final(self).status,
                execution_id: final(self).execution_id,
                current_plan: final(self).current_plan,
                attempted_tools: final(self).attempted_tools,
                reasoning: final(self).reasoning,
                updated_at: now,
                ..*old(self)
            }),
    {
        let ghost plan0 = plan;
        let ghost outcome0 = outcome;
        let session_id = self.session_id;
        let (event, follow_up) = match outcome {
            RunOutcome::Completed { steps_done } => {
                let mut members: Vec<(String, Json)> = Vec::new();
                members.push((String::from_str("goal"), Json::Str(plan.goal.clone())));
                proof {
                    lemma_members_view(members@);
                    assert(members_view(members@) =~= seq![("goal"@, JsonView::Str(plan0.goal@))]);
                }
                let event = ReasoningEvent {
                    session_id,
                    phase: ReasoningPhase::Terminal,
                    message: goal_reached_message(steps_done),
                    detail: Some(Json::Object(members)),
                    created_at: now,
                };
                self.finish_completed(plan, steps_done, now);
                (event, RunFollowUp::Ended)
            },
            RunOutcome::Cancelled => {
                self.set_status(AutonomousStatus::Cancelled, now);
                let event = ReasoningEvent {
                    session_id,
                    phase: ReasoningPhase::Terminal,
                    message: String::from_str("Execution cancelled"),
                    detail: None,
                    created_at: now,
                };
                (event, RunFollowUp::Ended)
            },
            RunOutcome::Paused => {
                self.set_status(AutonomousStatus::Paused, now);
                let event = ReasoningEvent {
                    session_id,
                    phase: ReasoningPhase::Pause,
                    message: String::from_str("Plan run paused; awaiting resume"),
                    detail: None,
                    created_at: now,
                };
                (event, RunFollowUp::AwaitResume)
            },
            RunOutcome::Timeout(message) => {
                let event = ReasoningEvent {
                    session_id,
                    phase: ReasoningPhase::Replanning,
                    message: run_timed_out_message(message.as_str()),
                    detail: None,
                    created_at: now,
                };
                (event, RunFollowUp::Recover { failed_step: None, error: message, timed_out: true })
            },
            RunOutcome::Failed { error, tool_name, failed_step, steps_done } => {
                self.note_steps_done(steps_done, now);
                let detail = match &tool_name {
                    Some(t) => {
                        let mut members: Vec<(String, Json)> = Vec::new();
                        members.push((String::from_str("tool"), Json::Str(t.clone())));
                        proof {
                            lemma_members_view(members@);
                            assert(members_view(members@) =~= seq![("tool"@, JsonView::Str(t@))]);
                        }
                        Some(Json::Object(members))
                    },
                    None => None,
                };
                match &tool_name {
                    Some(t) => self.note_attempted_tool(Some(t.as_str())),
                    None => self.note_attempted_tool(None),
                }
                let event = ReasoningEvent {
                    session_id,
                    phase: ReasoningPhase::Observed,
                    message: run_failed_message(error.as_str()),
                    detail,
                    created_at: now,
                };
                (event, RunFollowUp::Recover { failed_step, error, timed_out: false })
            },
        };
        let ghost ev = event;
        self.record_reasoning(event, now);
        proof {
            lemma_capped_last(old(self).reasoning@.push(ev));
        }
        follow_up
    }

    /// The approval checkpoint before a plan run. When the policy asks for
    /// no approval of `plan` the session goes on untouched; otherwise it
    /// parks on a new request (a fresh identifier, the plan and its goal,
    /// the reason, undecided) and records it (`AwaitingApproval`,
    /// "Approval requested: {goal}", detail `{"request_id": id}`).
    pub fn enter_approval_gate(&mut self, plan: &ExecutionPlan, meta: &ToolRiskLookup, now: i128) -> (r: bool)
        ensures
            r == approval_decision(
                old(self).policy.approval.mode,
                tasks_view(plan.tasks@),
                strings_view(meta.confirmation@),
                strings_view(meta.high_risk@),
            ).0,
            !r ==> *final(self) == *old(self),
            r ==> (final(self).pending_approval matches Some(q) && {
                &&& q.session_id == old(self).session_id
                &&& q.goal@ == plan.goal@
                &&& same_plan(q.plan, *plan)
                &&& q.reason@ == approval_decision(
                    old(self).policy.approval.mode,
                    tasks_view(plan.tasks@),
                    strings_view(meta.confirmation@),
                    strings_view(meta.high_risk@),
                ).1
                &&& q.requested_at == now
                &&& q.decided_at is None
                &&& q.approved is None
                &&& q.note is None
                &&& final(self).reasoning@.len() > 0
                &&& final(self).reasoning@ == capped(old(self).reasoning@.push(final(self).reasoning@.last()))
                &&& approval_event(final(self).reasoning@.last(), q, old(self).session_id, now)
                &&& *final(self) == (SessionCore {
                    pending_approval: Some(q),
                    status: AutonomousStatus::WaitingApproval,
                    reasoning: final(self).reasoning,
                    updated_at: now,
                    ..*old(self)
                })
            }),
    {
        let (required, reason) = approval_required(&self.policy.approval, plan, meta);
        if !required {
            return false;
        }
        let request_id = new_id();
        let request = ApprovalRequest {
            request_id,
            session_id: self.session_id,
            goal: plan.goal.clone(),
            plan: plan.copy(),
            reason,
            requested_at: now,
            decided_at: None,
            approved: None,
            note: None,
        };
        self.open_approval(request, now);
        let mut members: Vec<(String, Json)> = Vec::new();
        members.push((String::from_str("request_id"), Json::Str(id_text(request_id))));
        proof {
            lemma_members_view(members@);
            assert(members_view(members@) =~= seq![("request_id"@, JsonView::Str(uuid_text(request_id)))]);
        }
        let event = ReasoningEvent {
            session_id: self.session_id,
            phase: ReasoningPhase::AwaitingApproval,
            message: approval_requested_message(plan.goal.as_str()),
            detail: Some(Json::Object(members)),
            created_at: now,
        };
        let ghost ev = event;
        self.record_reasoning(event, now);
        proof {
            lemma_capped_last(old(self).reasoning@.push(ev));
        }
        true
    }

    /// A snapshot of the session for its observers: every field as it
    /// stands, and the steps the step budget still allows.
    pub fn progress(&self) -> (p: AutonomousSessionProgress)
        ensures
            p.session_id == self.session_id,
            p.workspace_id == self.workspace_id,
            p.goal@ == self.goal@,
            p.status == self.status,
            p.policy == self.policy,
            p.reasoning@.len() == self.reasoning@.len(),
            forall|k: int|
                0 <= k < self.reasoning@.len() ==> same_event(#[trigger] p.reasoning@[k], self.reasoning@[k]),
            match (p.current_plan, self.current_plan) {
                (Some(a), Some(b)) => same_plan(a, b),
                (None, None) => true,
                _ => false,
            },
            p.execution_id == self.execution_id,
            p.last_execution_id == self.last_execution_id,
            p.plans_attempted == self.plans_attempted,
            p.plans_completed == self.plans_completed,
            p.steps_completed == self.steps_completed,
            p.retries_used == self.retries_used,
            p.replans_used == self.replans_used,
            p.steps_left == steps_left_of(self.policy.budget.max_steps, self.steps_completed),
            opt_string_view(p.error) == opt_string_view(self.error),
            match (p.pending_approval, self.pending_approval) {
                (Some(a), Some(b)) => same_request(a, b),
                (None, None) => true,
                _ => false,
            },
            p.created_at == self.created_at,
            p.updated_at == self.updated_at,
    {
        let mut reasoning: Vec<ReasoningEvent> = Vec::new();
        let mut k: usize = 0;
        while k < self.reasoning.len()
            invariant
                k <= self.reasoning@.len(),
                reasoning@.len() == k,
                forall|x: int| 0 <= x < k ==> same_event(#[trigger] reasoning@[x], self.reasoning@[x]),
            decreases self.reasoning@.len() - k,
        {
            reasoning.push(self.reasoning[k].copy());
            k = k + 1;
        }
        let current_plan = match &self.current_plan {
            Some(plan) => Some(plan.copy()),
            None => None,
        };
        let pending_approval = match &self.pending_approval {
            Some(request) => Some(request.copy()),
            None => None,
        };
        AutonomousSessionProgress {
            session_id: self.session_id,
            workspace_id: self.workspace_id,
            goal: self.goal.clone(),
            status: self.status,
            policy: self.policy,
            reasoning,
            current_plan,
            execution_id: self.execution_id,
            last_execution_id: self.last_execution_id,
            plans_attempted: self.plans_attempted,
            plans_completed: self.plans_completed,
            steps_completed: self.steps_completed,
            retries_used: self.retries_used,
            replans_used: self.replans_used,
            steps_left: steps_left(self.policy.budget.max_steps, self.steps_completed),
            error: copy_opt_string(&self.error),
            pending_approval,
            created_at: self.created_at,
            updated_at: self.updated_at,
        }
    }
}

/// The reasoning log never holds more than [`REASONING_EVENT_CAP`] events
/// and always ends with the newest one.
pub proof fn lemma_reasoning_log_is_bounded(log: Seq<ReasoningEvent>, event: ReasoningEvent)
    ensures
        capped(log.push(event)).len() <= REASONING_EVENT_CAP,
        capped(log.push(event)).last() == event,
{
}

/// A recovery never spends more than the policy allows: a retry only
/// while retries are left, a replan only while replans are left, so the
/// counters stay within their limits.
pub proof fn lemma_recovery_respects_budgets(
    policy: ExecutionPolicy,
    retries_used: u64,
    replans_used: u64,
    error: Seq<char>,
    timed_out: bool,
)
    ensures
        recovery_decision(policy, retries_used, replans_used, error, timed_out).0 == 2 ==> retries_used
            < policy.retry.max_attempts,
        recovery_decision(policy, retries_used, replans_used, error, timed_out).0 == 3 ==> replans_used
            < policy.budget.max_replans,
        is_resolution_failure(error) ==> recovery_decision(policy, retries_used, replans_used, error, timed_out).0
            == 0,
{
}

/// A checkpoint is decided once: after a decision is recorded, the
/// checkpoint no longer accepts one.
pub proof fn lemma_checkpoint_decided_once(request: ApprovalRequest, approved: bool)
    requires
        request.approved == Some(approved),
    ensures
        !(Some(request) matches Some(p) && p.approved is None),
        gate_poll(decision_of(Some(request)), true) == if approved {
            GatePoll::Proceed
        } else {
            GatePoll::Rejected
        },
{
}

/// What the loop does at the top of each round.
pub enum LoopGate {
    /// The session was cancelled: it ends cancelled.
    Cancel,
    /// The session is not running: wait for a resume.
    Wait,
    /// A budget is exhausted: the session fails with this message.
    Exhausted(String),
    /// Go on to the approval checkpoint and the plan run.
    Continue,
}

/// The view of a loop gate: its kind (0 to 3, in declaration order) and
/// message.
pub open spec fn loop_gate_view(g: LoopGate) -> (u8, Seq<char>) {
    match g {
        LoopGate::Cancel => (0, Seq::empty()),
        LoopGate::Wait => (1, Seq::empty()),
        LoopGate::Exhausted(m) => (2, m@),
        LoopGate::Continue => (3, Seq::empty()),
    }
}

/// The top of a loop round: a cancellation ends the session; a session
/// that is not running waits; an exhausted budget fails it.
pub fn loop_gate(cancelled: bool, status: AutonomousStatus, breach: &Option<String>) -> (r: LoopGate)
    ensures
        loop_gate_view(r) == if cancelled {
            (0u8, Seq::<char>::empty())
        } else if status != AutonomousStatus::Running {
            (1u8, Seq::<char>::empty())
        } else {
            match breach {
                Some(reason) => (2u8, "Execution budget exceeded: "@ + reason@),
                None => (3u8, Seq::<char>::empty()),
            }
        },
{
    if cancelled {
        return LoopGate::Cancel;
    }
    if status != AutonomousStatus::Running {
        return LoopGate::Wait;
    }
    match breach {
        Some(reason) => {
            let mut out: Vec<char> = Vec::new();
            push_str(&mut out, "Execution budget exceeded: ");
            push_str(&mut out, reason.as_str());
            LoopGate::Exhausted(string_of(out.as_slice()))
        },
        None => LoopGate::Continue,
    }
}

/// "Starting autonomous session for goal: {goal}".
pub fn session_started_message(goal: &str) -> (r: String)
    ensures
        r@ == "Starting autonomous session for goal: "@ + goal@,
{
    crate::scheduler::prefixed("Starting autonomous session for goal: ", goal)
}

/// "Planning failed: {error}".
pub fn planning_failed_message(error: &str) -> (r: String)
    ensures
        r@ == "Planning failed: "@ + error@,
{
    crate::scheduler::prefixed("Planning failed: ", error)
}

/// "Driving the {n}-step plan through the execution engine".
pub fn driving_plan_message(steps: usize) -> (r: String)
    ensures
        r@ == "Driving the "@ + decimal(steps as nat) + "-step plan through the execution engine"@,
{
    let mut out: Vec<char> = Vec::new();
    push_str(&mut out, "Driving the ");
    push_decimal(steps as u64, &mut out);
    push_str(&mut out, "-step plan through the execution engine");
    string_of(out.as_slice())
}

/// "Goal reached: {n} steps completed".
pub fn goal_reached_message(steps: usize) -> (r: String)
    ensures
        r@ == "Goal reached: "@ + decimal(steps as nat) + " steps completed"@,
{
    let mut out: Vec<char> = Vec::new();
    push_str(&mut out, "Goal reached: ");
    push_decimal(steps as u64, &mut out);
    push_str(&mut out, " steps completed");
    string_of(out.as_slice())
}

/// "Approval requested: {goal}".
pub fn approval_requested_message(goal: &str) -> (r: String)
    ensures
        r@ == "Approval requested: "@ + goal@,
{
    crate::scheduler::prefixed("Approval requested: ", goal)
}

/// "Plan run failed: {error}".
pub fn run_failed_message(error: &str) -> (r: String)
    ensures
        r@ == "Plan run failed: "@ + error@,
{
    crate::scheduler::prefixed("Plan run failed: ", error)
}

/// "Plan run timed out: {message}".
pub fn run_timed_out_message(message: &str) -> (r: String)
    ensures
        r@ == "Plan run timed out: "@ + message@,
{
    crate::scheduler::prefixed("Plan run timed out: ", message)
}

/// "Unable to replan: {error}".
pub fn unable_to_replan_message(error: &str) -> (r: String)
    ensures
        r@ == "Unable to replan: "@ + error@,
{
    crate::scheduler::prefixed("Unable to replan: ", error)
}

/// What the planner is told about a failure when the plan is revised: the
/// failed task, the error, and whether retries are used up.
pub struct ReplanFeedback {
    pub failed: Option<u128>,
    pub tool_name: Option<String>,
    pub error: Option<String>,
    pub retry_exhausted: bool,
}

/// The feedback of a recovery that goes on: it names the failed task and
/// the error, and says retries are exhausted exactly when the recovery is a
/// replan rather than a retry.
pub fn replan_feedback(failed_step: Option<u128>, error: &str, recovery: &Recovery) -> (r: ReplanFeedback)
    ensures
        r.failed == failed_step,
        r.tool_name is None,
        r.error matches Some(e) && e@ == error@,
        r.retry_exhausted == !(recovery is Retry),
{
    ReplanFeedback {
        failed: failed_step,
        tool_name: None,
        error: Some(String::from_str(error)),
        retry_exhausted: !matches!(recovery, Recovery::Retry),
    }
}

/// The newest of a capped log is the newest pushed.
pub proof fn lemma_capped_last<T>(s: Seq<T>)
    requires
        s.len() > 0,
    ensures
        capped(s).len() > 0,
        capped(s).last() == s.last(),
{
}

/// `e` is the reasoning event a recovery records for session `session_id`
/// at `now`, `retries` being the retry count after it.
pub open spec fn recovery_event(recovery: Recovery, e: ReasoningEvent, session_id: u128, retries: u64, now: i128) -> bool {
    &&& e.session_id == session_id
    &&& e.created_at == now
    &&& match recovery {
        Recovery::Retry => e.phase == ReasoningPhase::Replanning && e.message@
            == "Retrying the failed plan run with the same step"@ && (e.detail matches Some(d) && d@
            == JsonView::Object(seq![("retries_used"@, JsonView::Number(decimal(retries as nat)))])),
        Recovery::Replan => e.phase == ReasoningPhase::Replanning && e.message@
            == "Replanning around the failed step"@ && e.detail is None,
        Recovery::Unrecoverable(m) => e.phase == ReasoningPhase::Terminal && e.message == m && e.detail is None,
        Recovery::Exhausted(m) => e.phase == ReasoningPhase::Terminal && e.message == m && e.detail is None,
    }
}

/// What the loop does after a plan run.
pub enum RunFollowUp {
    /// The session has ended.
    Ended,
    /// The session is paused: wait until it is resumed.
    AwaitResume,
    /// Recover from a failure of this step (if known) with this error;
    /// `timed_out` when the plan ran past its deadline.
    Recover { failed_step: Option<u128>, error: String, timed_out: bool },
}

/// `r` is the follow-up of `outcome`.
pub open spec fn run_follow_up(outcome: RunOutcome, r: RunFollowUp) -> bool {
    match outcome {
        RunOutcome::Completed { .. } => r is Ended,
        RunOutcome::Cancelled => r is Ended,
        RunOutcome::Paused => r is AwaitResume,
        RunOutcome::Timeout(m) => r matches RunFollowUp::Recover { failed_step, error, timed_out }
            && failed_step is None && error == m && timed_out,
        RunOutcome::Failed { error: e, failed_step: s, .. } => r matches RunFollowUp::Recover {
            failed_step,
            error,
            timed_out,
        } && failed_step == s && error == e && !timed_out,
    }
}

/// `e` is the reasoning event a plan run's outcome records for session
/// `session_id` at `now`, `plan` being the plan that ran.
pub open spec fn run_event(outcome: RunOutcome, plan: ExecutionPlan, e: ReasoningEvent, session_id: u128, now: i128) -> bool {
    &&& e.session_id == session_id
    &&& e.created_at == now
    &&& match outcome {
        RunOutcome::Completed { steps_done } => e.phase == ReasoningPhase::Terminal && e.message@ == "Goal reached: "@
            + decimal(steps_done as nat) + " steps completed"@ && (e.detail matches Some(d) && d@ == JsonView::Object(
            seq![("goal"@, JsonView::Str(plan.goal@))],
        )),
        RunOutcome::Cancelled => e.phase == ReasoningPhase::Terminal && e.message@ == "Execution cancelled"@
            && e.detail is None,
        RunOutcome::Paused => e.phase == ReasoningPhase::Pause && e.message@ == "Plan run paused; awaiting resume"@
            && e.detail is None,
        RunOutcome::Timeout(m) => e.phase == ReasoningPhase::Replanning && e.message@ == "Plan run timed out: "@
            + m@ && e.detail is None,
        RunOutcome::Failed { error, tool_name, .. } => e.phase == ReasoningPhase::Observed && e.message@
            == "Plan run failed: "@ + error@ && match tool_name {
            Some(t) => e.detail matches Some(d) && d@ == JsonView::Object(seq![("tool"@, JsonView::Str(t@))]),
            None => e.detail is None,
        },
    }
}

/// `e` is the reasoning event that records approval request `q` for
/// session `session_id` at `now`.
pub open spec fn approval_event(e: ReasoningEvent, q: ApprovalRequest, session_id: u128, now: i128) -> bool {
    &&& e.session_id == session_id
    &&& e.created_at == now
    &&& e.phase == ReasoningPhase::AwaitingApproval
    &&& e.message@ == "Approval requested: "@ + q.goal@
    &&& e.detail matches Some(d) && d@ == JsonView::Object(seq![("request_id"@, JsonView::Str(uuid_text(q.request_id)))])
}

/// The reasoning note of a recovery that goes on.
pub fn recovery_note(recovery: &Recovery) -> (r: &'static str)
    ensures
        recovery is Retry ==> r@ == "Retrying the failed plan run with the same step"@,
        !(recovery is Retry) ==> r@ == "Replanning around the failed step"@,
{
    match recovery {
        Recovery::Retry => "Retrying the failed plan run with the same step",
        _ => "Replanning around the failed step",
    }
}

} // verus!
