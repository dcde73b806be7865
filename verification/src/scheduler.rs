//! The decisions of the execution engine: which step runs next, what a step
//! does, what an invocation's outcome means for the execution, and the texts
//! of the events it records. The engine performs the storage and tool calls
//! these decisions ask for.

use vstd::prelude::*;
use crate::chars::{decimal, push_decimal, u64_text};
use crate::context::{ContextError, ContextErrorView, ExecutionContext, context_error_text, resolved_value};
use crate::execution::{ExecutionEventType, ExecutionStatus, ExecutionStep, PlanExecution, StepStatus};
use crate::ids::{now_nanos, uuid_text};
use crate::json::{Json, JsonView, lemma_members_view, members_view};
use crate::json_text::{json_text, json_to_text};
use crate::json_text::push_str;
use crate::plan::{
    ExecutionPlan, PlanGate, PlanTask, PlanTaskView, ToolInvocationStatus, copy_opt_string, copy_tasks, tasks_view,
};
use crate::template::append_chars;
use crate::text::{chars_of, string_of};

verus! {

/// The statuses of a list of steps.
pub open spec fn step_statuses(steps: Seq<ExecutionStep>) -> Seq<StepStatus> {
    steps.map_values(|s: ExecutionStep| s.status)
}

/// Whether a status counts as done for the tasks that depend on the step.
pub open spec fn is_done(s: StepStatus) -> bool {
    s == StepStatus::Completed || s == StepStatus::Skipped
}

/// Whether the step at position `j` carries task id `id` and is done.
pub open spec fn done_at(tasks: Seq<PlanTaskView>, steps: Seq<StepStatus>, id: u128, j: int) -> bool {
    0 <= j < tasks.len() && tasks[j].id == id && j < steps.len() && is_done(steps[j])
}

/// Whether some step of the task with id `id` is done.
pub open spec fn dependency_done(tasks: Seq<PlanTaskView>, steps: Seq<StepStatus>, id: u128) -> bool {
    exists|j: int| #[trigger] done_at(tasks, steps, id, j)
}

/// The tool outcome a step status stands for.
pub open spec fn step_outcome(s: StepStatus) -> ToolInvocationStatus {
    match s {
        StepStatus::Completed => ToolInvocationStatus::Success,
        StepStatus::Skipped => ToolInvocationStatus::Cancelled,
        StepStatus::Failed => ToolInvocationStatus::Failed,
        _ => ToolInvocationStatus::Pending,
    }
}

/// The outcome recorded for task id `id` among the first `n` task/step
/// pairs: that of the last pair carrying the id.
pub open spec fn outcome_upto(tasks: Seq<PlanTaskView>, steps: Seq<StepStatus>, id: u128, n: int) -> Option<
    ToolInvocationStatus,
>
    decreases n,
{
    if n <= 0 {
        None
    } else if tasks[n - 1].id == id {
        Some(step_outcome(steps[n - 1]))
    } else {
        outcome_upto(tasks, steps, id, n - 1)
    }
}

/// The outcome recorded for task id `id`, pairing tasks with steps by
/// position.
pub open spec fn outcome_of(tasks: Seq<PlanTaskView>, steps: Seq<StepStatus>, id: u128) -> Option<
    ToolInvocationStatus,
> {
    outcome_upto(tasks, steps, id, if tasks.len() < steps.len() {
        tasks.len() as int
    } else {
        steps.len() as int
    })
}

/// Whether a task's gate lets it run: `AfterSuccess` needs a recorded
/// success of the predecessor, `AfterFailure` a recorded failure.
pub open spec fn gate_open(condition: Option<PlanGate>, tasks: Seq<PlanTaskView>, steps: Seq<StepStatus>) -> bool {
    match condition {
        None => true,
        Some(PlanGate::AfterSuccess(p)) => outcome_of(tasks, steps, p) == Some(ToolInvocationStatus::Success),
        Some(PlanGate::AfterFailure(p)) => outcome_of(tasks, steps, p) == Some(ToolInvocationStatus::Failed),
    }
}

/// Whether the step at `i` may run now: it is pending, it has a task, every
/// dependency of the task is done, and the task's gate is open.
pub open spec fn runnable(tasks: Seq<PlanTaskView>, steps: Seq<StepStatus>, i: int) -> bool {
    &&& 0 <= i < steps.len()
    &&& steps[i] == StepStatus::Pending
    &&& i < tasks.len()
    &&& forall|k: int|
        0 <= k < tasks[i].dependencies.len() ==> #[trigger] dependency_done(
            tasks,
            steps,
            tasks[i].dependencies[k],
        )
    &&& gate_open(tasks[i].condition, tasks, steps)
}

/// The first step at or after `from` that may run now.
pub open spec fn first_runnable_from(tasks: Seq<PlanTaskView>, steps: Seq<StepStatus>, from: int) -> Option<int>
    decreases steps.len() - from,
{
    if from < 0 || from >= steps.len() {
        None
    } else if runnable(tasks, steps, from) {
        Some(from)
    } else {
        first_runnable_from(tasks, steps, from + 1)
    }
}

/// The next step to run: without a plan, the step at the execution's
/// current position; with one, the first step that may run now.
pub open spec fn next_step(tasks: Option<Seq<PlanTaskView>>, current: int, steps: Seq<StepStatus>) -> Option<int> {
    match tasks {
        None => if 0 <= current < steps.len() {
            Some(current)
        } else {
            None
        },
        Some(ts) => first_runnable_from(ts, steps, 0),
    }
}

/// The tasks of a plan when it has any (steps then follow the plan's
/// graph), or none (steps run in their stored order).
pub open spec fn opt_tasks_view(tasks: Option<Vec<PlanTask>>) -> Option<Seq<PlanTaskView>> {
    match tasks {
        Some(ts) => Some(tasks_view(ts@)),
        None => None,
    }
}

/// Whether some step of the task with id `id` is done.
fn dependency_satisfied(tasks: &Vec<PlanTask>, steps: &Vec<ExecutionStep>, id: u128) -> (r: bool)
    ensures
        r == dependency_done(tasks_view(tasks@), step_statuses(steps@), id),
{
    let ghost tv = tasks_view(tasks@);
    let ghost sv = step_statuses(steps@);
    let mut j: usize = 0;
    while j < tasks.len()
        invariant
            j <= tasks@.len(),
            tv == tasks_view(tasks@),
            sv == step_statuses(steps@),
            forall|q: int| 0 <= q < j ==> !#[trigger] done_at(tv, sv, id, q),
        decreases tasks.len() - j,
    {
        if tasks[j].id == id && j < steps.len() && (steps[j].status == StepStatus::Completed
            || steps[j].status == StepStatus::Skipped) {
            assert(done_at(tv, sv, id, j as int));
            return true;
        }
        assert(!done_at(tv, sv, id, j as int));
        j = j + 1;
    }
    assert forall|q: int| !#[trigger] done_at(tv, sv, id, q) by {
        if 0 <= q < j {
        }
    }
    false
}

/// The outcome recorded for task id `id`.
fn recorded_outcome(tasks: &Vec<PlanTask>, steps: &Vec<ExecutionStep>, id: u128) -> (r: Option<
    ToolInvocationStatus,
>)
    ensures
        r == outcome_of(tasks_view(tasks@), step_statuses(steps@), id),
{
    let n = if tasks.len() < steps.len() {
        tasks.len()
    } else {
        steps.len()
    };
    let mut k = n;
    while k > 0
        invariant
            k <= n,
            n <= tasks@.len(),
            n <= steps@.len(),
            n == (if tasks@.len() < steps@.len() { tasks@.len() } else { steps@.len() }),
            outcome_of(tasks_view(tasks@), step_statuses(steps@), id) == outcome_upto(
                tasks_view(tasks@),
                step_statuses(steps@),
                id,
                k as int,
            ),
        decreases k,
    {
        if tasks[k - 1].id == id {
            let s = steps[k - 1].status;
            return Some(
                match s {
                    StepStatus::Completed => ToolInvocationStatus::Success,
                    StepStatus::Skipped => ToolInvocationStatus::Cancelled,
                    StepStatus::Failed => ToolInvocationStatus::Failed,
                    _ => ToolInvocationStatus::Pending,
                },
            );
        }
        k = k - 1;
    }
    None
}

/// Whether the step at `i` may run now.
fn step_runnable(tasks: &Vec<PlanTask>, steps: &Vec<ExecutionStep>, i: usize) -> (r: bool)
    requires
        i < steps@.len(),
    ensures
        r == runnable(tasks_view(tasks@), step_statuses(steps@), i as int),
{
    let ghost tv = tasks_view(tasks@);
    let ghost sv = step_statuses(steps@);
    if steps[i].status != StepStatus::Pending || i >= tasks.len() {
        return false;
    }
    let task = &tasks[i];
    let mut k: usize = 0;
    while k < task.dependencies.len()
        invariant
            i < tasks@.len(),
            *task == tasks@[i as int],
            tv == tasks_view(tasks@),
            sv == step_statuses(steps@),
            k <= task.dependencies@.len(),
            forall|q: int| 0 <= q < k ==> #[trigger] dependency_done(tv, sv, task.dependencies@[q]),
        decreases task.dependencies.len() - k,
    {
        if !dependency_satisfied(tasks, steps, task.dependencies[k]) {
            assert(tv[i as int].dependencies[k as int] == task.dependencies@[k as int]);
            return false;
        }
        k = k + 1;
    }
    assert(tv[i as int].dependencies == task.dependencies@);
    match task.condition {
        None => true,
        Some(PlanGate::AfterSuccess(p)) => recorded_outcome(tasks, steps, p) == Some(ToolInvocationStatus::Success),
        Some(PlanGate::AfterFailure(p)) => recorded_outcome(tasks, steps, p) == Some(ToolInvocationStatus::Failed),
    }
}

/// Picks the next step to run: the first pending step whose dependencies
/// are all done and whose gate is open; without a plan, the step at the
/// execution's current position.
pub fn next_runnable_step_index(
    tasks: &Option<Vec<PlanTask>>,
    execution: &PlanExecution,
    steps: &Vec<ExecutionStep>,
) -> (r: Option<usize>)
    ensures
        match r {
            None => next_step(opt_tasks_view(*tasks), execution.current_step as int, step_statuses(steps@)) is None,
            Some(i) => next_step(opt_tasks_view(*tasks), execution.current_step as int, step_statuses(steps@))
                == Some(i as int),
        },
{
    match tasks {
        None => if execution.current_step < steps.len() {
            Some(execution.current_step)
        } else {
            None
        },
        Some(ts) => {
            let ghost tv = tasks_view(ts@);
            let ghost sv = step_statuses(steps@);
            let mut i: usize = 0;
            while i < steps.len()
                invariant
                    i <= steps@.len(),
                    *tasks == Some(*ts),
                    tv == tasks_view(ts@),
                    sv == step_statuses(steps@),
                    first_runnable_from(tv, sv, 0) == first_runnable_from(tv, sv, i as int),
                decreases steps.len() - i,
            {
                if step_runnable(ts, steps, i) {
                    proof {
                        assert(sv.len() == steps@.len());
                        assert(first_runnable_from(tv, sv, i as int) == Some(i as int));
                        assert(opt_tasks_view(*tasks) == Some(tv));
                    }
                    return Some(i);
                }
                i = i + 1;
            }
            proof {
                assert(opt_tasks_view(*tasks) == Some(tv));
            }
            None
        },
    }
}

/// What one scheduling round of a running execution does.
#[derive(Debug, Clone, Copy, PartialEq, Eq, Structural)]
pub enum StepAction {
    /// The execution is not running; the round is refused.
    NotRunning(ExecutionStatus),
    /// No step can run while some are still pending: the execution fails.
    FailStuck,
    /// Every step is settled: the execution completes.
    Complete,
    /// The step has no tool: it is skipped.
    Skip(usize),
    /// The step's tool is invoked.
    Invoke(usize),
}

/// Whether some step is still pending.
pub open spec fn any_pending(steps: Seq<ExecutionStep>) -> bool {
    exists|i: int| 0 <= i < steps.len() && #[trigger] steps[i].status == StepStatus::Pending
}

/// The action of a scheduling round, given the execution's status and the
/// step picked by [`next_step`].
pub open spec fn step_action(status: ExecutionStatus, next: Option<int>, steps: Seq<ExecutionStep>) -> StepAction {
    if status != ExecutionStatus::Running {
        StepAction::NotRunning(status)
    } else {
        match next {
            None => if any_pending(steps) {
                StepAction::FailStuck
            } else {
                StepAction::Complete
            },
            Some(i) => if steps[i].tool_name is None {
                StepAction::Skip(i as usize)
            } else {
                StepAction::Invoke(i as usize)
            },
        }
    }
}

/// Decides one scheduling round of an execution.
pub fn plan_step_action(
    execution: &PlanExecution,
    tasks: &Option<Vec<PlanTask>>,
    steps: &Vec<ExecutionStep>,
) -> (r: StepAction)
    ensures
        r == step_action(
            execution.status,
            next_step(opt_tasks_view(*tasks), execution.current_step as int, step_statuses(steps@)),
            steps@,
        ),
        r matches StepAction::Skip(i) ==> i < steps@.len(),
        r matches StepAction::Invoke(i) ==> i < steps@.len(),
{
    if execution.status != ExecutionStatus::Running {
        return StepAction::NotRunning(execution.status);
    }
    match next_runnable_step_index(tasks, execution, steps) {
        None => {
            let mut i: usize = 0;
            while i < steps.len()
                invariant
                    i <= steps@.len(),
                    execution.status == ExecutionStatus::Running,
                    next_step(opt_tasks_view(*tasks), execution.current_step as int, step_statuses(steps@)) is None,
                    forall|q: int| 0 <= q < i ==> #[trigger] steps@[q].status != StepStatus::Pending,
                decreases steps.len() - i,
            {
                if steps[i].status == StepStatus::Pending {
                    assert(any_pending(steps@));
                    return StepAction::FailStuck;
                }
                i = i + 1;
            }
            StepAction::Complete
        },
        Some(i) => {
            proof {
                lemma_next_step_in_range(opt_tasks_view(*tasks), execution.current_step as int, step_statuses(steps@));
            }
            if steps[i].tool_name.is_none() {
                StepAction::Skip(i)
            } else {
                StepAction::Invoke(i)
            }
        },
    }
}

/// The step picked is a position of the step list.
pub proof fn lemma_next_step_in_range(tasks: Option<Seq<PlanTaskView>>, current: int, steps: Seq<StepStatus>)
    ensures
        next_step(tasks, current, steps) matches Some(i) ==> 0 <= i < steps.len() && (tasks is Some
            ==> runnable(tasks->0, steps, i)),
{
    if let Some(ts) = tasks {
        lemma_first_runnable_range(ts, steps, 0);
    }
}

/// The step found is at or after `from`, in range and may run.
pub proof fn lemma_first_runnable_range(tasks: Seq<PlanTaskView>, steps: Seq<StepStatus>, from: int)
    ensures
        first_runnable_from(tasks, steps, from) matches Some(i) ==> from <= i < steps.len() && runnable(
            tasks,
            steps,
            i,
        ),
    decreases steps.len() - from,
{
    if 0 <= from < steps.len() && !runnable(tasks, steps, from) {
        lemma_first_runnable_range(tasks, steps, from + 1);
    }
}

/// The execution status whose debug name an error message shows.
pub open spec fn status_debug_name(s: ExecutionStatus) -> Seq<char> {
    match s {
        ExecutionStatus::Pending => "Pending"@,
        ExecutionStatus::Running => "Running"@,
        ExecutionStatus::Paused => "Paused"@,
        ExecutionStatus::Completed => "Completed"@,
        ExecutionStatus::Failed => "Failed"@,
        ExecutionStatus::Cancelled => "Cancelled"@,
    }
}

/// The message with which a round on an execution that is not running is
/// refused.
pub fn not_running_message(status: ExecutionStatus) -> (r: String)
    ensures
        r@ == "Execution not in running state: "@ + status_debug_name(status),
{
    let mut out: Vec<char> = Vec::new();
    push_str(&mut out, "Execution not in running state: ");
    let name = match status {
        ExecutionStatus::Pending => "Pending",
        ExecutionStatus::Running => "Running",
        ExecutionStatus::Paused => "Paused",
        ExecutionStatus::Completed => "Completed",
        ExecutionStatus::Failed => "Failed",
        ExecutionStatus::Cancelled => "Cancelled",
    };
    push_str(&mut out, name);
    string_of(out.as_slice())
}

/// The reason an execution fails when no pending step can run.
pub fn stuck_message() -> (r: &'static str)
    ensures
        r@ == "no runnable step: unsatisfied dependencies or conditional gates"@,
{
    "no runnable step: unsatisfied dependencies or conditional gates"
}

/// `head` + (`n` + 1) + `": "` + `tail`.
pub open spec fn numbered_text(head: Seq<char>, n: nat, tail: Seq<char>) -> Seq<char> {
    head + decimal(n + 1) + ": "@ + tail
}

/// Builds [`numbered_text`].
fn numbered(head: &str, n: usize, tail: &str) -> (r: String)
    requires
        n < u64::MAX,
    ensures
        r@ == numbered_text(head@, n as nat, tail@),
{
    let mut out: Vec<char> = Vec::new();
    push_str(&mut out, head);
    push_decimal((n as u64) + 1, &mut out);
    push_str(&mut out, ": ");
    push_str(&mut out, tail);
    string_of(out.as_slice())
}

/// "Starting step {n+1}: {description}".
pub fn step_started_message(step_number: usize, description: &str) -> (r: String)
    requires
        step_number < u64::MAX,
    ensures
        r@ == numbered_text("Starting step "@, step_number as nat, description@),
{
    numbered("Starting step ", step_number, description)
}

/// "Completed step {n+1}: {description}".
pub fn step_completed_message(step_number: usize, description: &str) -> (r: String)
    requires
        step_number < u64::MAX,
    ensures
        r@ == numbered_text("Completed step "@, step_number as nat, description@),
{
    numbered("Completed step ", step_number, description)
}

/// "Failed step {n+1}: {error}".
pub fn step_failed_message(step_number: usize, error: &str) -> (r: String)
    requires
        step_number < u64::MAX,
    ensures
        r@ == numbered_text("Failed step "@, step_number as nat, error@),
{
    numbered("Failed step ", step_number, error)
}

/// `prefix` followed by `text`.
pub fn prefixed(prefix: &str, text: &str) -> (r: String)
    ensures
        r@ == prefix@ + text@,
{
    let mut out: Vec<char> = Vec::new();
    push_str(&mut out, prefix);
    push_str(&mut out, text);
    string_of(out.as_slice())
}

/// "Execution failed: {error}".
pub fn execution_failed_message(error: &str) -> (r: String)
    ensures
        r@ == "Execution failed: "@ + error@,
{
    prefixed("Execution failed: ", error)
}

/// "Starting execution of plan: {goal}".
pub fn execution_started_message(goal: &str) -> (r: String)
    ensures
        r@ == "Starting execution of plan: "@ + goal@,
{
    prefixed("Starting execution of plan: ", goal)
}

/// "Checkpoint saved with {n} completed step(s)".
pub fn checkpoint_saved_message(completed: usize) -> (r: String)
    ensures
        r@ == "Checkpoint saved with "@ + decimal(completed as nat) + " completed step(s)"@,
{
    let mut out: Vec<char> = Vec::new();
    push_str(&mut out, "Checkpoint saved with ");
    push_decimal(completed as u64, &mut out);
    push_str(&mut out, " completed step(s)");
    string_of(out.as_slice())
}

/// Whether `text` begins with `prefix`.
pub open spec fn starts_with(text: Seq<char>, prefix: Seq<char>) -> bool {
    prefix.len() <= text.len() && text.take(prefix.len() as int) == prefix
}

/// Whether `text` begins with `prefix`.
pub fn text_starts_with(text: &str, prefix: &str) -> (r: bool)
    ensures
        r == starts_with(text@, prefix@),
{
    let n = prefix.unicode_len();
    if n > text.unicode_len() {
        return false;
    }
    let mut i: usize = 0;
    while i < n
        invariant
            n == prefix@.len(),
            n <= text@.len(),
            i <= n,
            text@.take(i as int) == prefix@.take(i as int),
        decreases n - i,
    {
        if text.get_char(i) != prefix.get_char(i) {
            assert(text@.take(n as int)[i as int] != prefix@[i as int]);
            return false;
        }
        assert(text@.take(i + 1) =~= text@.take(i as int).push(text@[i as int]));
        assert(prefix@.take(i + 1) =~= prefix@.take(i as int).push(prefix@[i as int]));
        i = i + 1;
    }
    assert(prefix@.take(n as int) =~= prefix@);
    true
}

/// The failure recorded for a step whose arguments could not be resolved:
/// the error's message when it already names an unresolved variable, and
/// otherwise that message behind the unresolved-variable marker.
pub open spec fn resolution_failure_text(e: ContextErrorView) -> Seq<char> {
    let m = context_error_text(e);
    if starts_with(m, "unresolved variable"@) {
        m
    } else {
        "unresolved variable: "@ + m
    }
}

/// Builds [`resolution_failure_text`].
pub fn resolution_failure_message(e: &ContextError) -> (r: String)
    ensures
        r@ == resolution_failure_text(e@),
{
    let m = e.message();
    if text_starts_with(m.as_str(), "unresolved variable") {
        m
    } else {
        prefixed("unresolved variable: ", m.as_str())
    }
}

/// The arguments a step's tool is invoked with: the stored arguments (an
/// empty object when there are none), resolved through the context when
/// the execution has one. A resolution failure gives its failure text.
pub open spec fn step_arguments(ctx: Option<crate::context::ContextView>, arguments: Option<JsonView>) -> Result<
    JsonView,
    Seq<char>,
> {
    let args = match arguments {
        Some(a) => a,
        None => JsonView::Object(Seq::empty()),
    };
    match ctx {
        None => Ok(args),
        Some(c) => match resolved_value(c, args) {
            Ok(v) => Ok(v),
            Err(e) => Err(resolution_failure_text(e)),
        },
    }
}

/// Prepares a step's tool arguments (see [`step_arguments`]).
pub fn prepare_arguments(context: Option<&ExecutionContext>, arguments: &Option<Json>) -> (r: Result<Json, String>)
    ensures
        match r {
            Ok(v) => step_arguments(
                match context {
                    Some(c) => Some(c@),
                    None => None,
                },
                crate::plan::opt_json_view(*arguments),
            ) == Ok::<JsonView, Seq<char>>(v@),
            Err(m) => step_arguments(
                match context {
                    Some(c) => Some(c@),
                    None => None,
                },
                crate::plan::opt_json_view(*arguments),
            ) == Err::<JsonView, Seq<char>>(m@),
        },
{
    let args = match arguments {
        Some(a) => a.copy(),
        None => {
            let empty: Vec<(String, Json)> = Vec::new();
            proof {
                assert(crate::json::members_view(empty@) =~= Seq::<(Seq<char>, JsonView)>::empty());
            }
            Json::Object(empty)
        },
    };
    match context {
        None => Ok(args),
        Some(c) => match c.resolve(&args) {
            Ok(v) => Ok(v),
            Err(e) => Err(resolution_failure_message(&e)),
        },
    }
}

/// What a tool invocation's outcome means for the execution.
pub enum InvocationVerdict {
    /// The step completed.
    Completed,
    /// The invocation was cancelled: the step fails and the execution is
    /// cancelled.
    Cancelled,
    /// The step failed with this error, and so does the execution.
    Failed(String),
}

/// The verdict on an invocation: its status and error when it ran, or the
/// error that kept it from running.
pub open spec fn invocation_verdict(result: Result<(ToolInvocationStatus, Option<Seq<char>>), Seq<char>>) -> (
    u8,
    Seq<char>,
) {
    match result {
        Ok((ToolInvocationStatus::Success, _)) => (0, Seq::empty()),
        Ok((ToolInvocationStatus::Cancelled, _)) => (1, Seq::empty()),
        Ok((_, Some(e))) => (2, e),
        Ok((_, None)) => (2, "tool invocation failed"@),
        Err(e) => (2, e),
    }
}

/// The view of a verdict, in the shape of [`invocation_verdict`].
pub open spec fn verdict_view(v: InvocationVerdict) -> (u8, Seq<char>) {
    match v {
        InvocationVerdict::Completed => (0, Seq::empty()),
        InvocationVerdict::Cancelled => (1, Seq::empty()),
        InvocationVerdict::Failed(e) => (2, e@),
    }
}

/// Judges a tool invocation's outcome.
pub fn judge_invocation(result: &Result<(ToolInvocationStatus, Option<String>), String>) -> (r: InvocationVerdict)
    ensures
        verdict_view(r) == invocation_verdict(
            match result {
                Ok((s, e)) => Ok((*s, crate::plan::opt_string_view(*e))),
                Err(e) => Err(e@),
            },
        ),
{
    match result {
        Ok((ToolInvocationStatus::Success, _)) => InvocationVerdict::Completed,
        Ok((ToolInvocationStatus::Cancelled, _)) => InvocationVerdict::Cancelled,
        Ok((_, Some(e))) => InvocationVerdict::Failed(e.clone()),
        Ok((_, None)) => InvocationVerdict::Failed(String::from_str("tool invocation failed")),
        Err(e) => InvocationVerdict::Failed(e.clone()),
    }
}

/// How a scheduled step ran: it had no tool and was skipped, its
/// arguments failed to resolve (with this message), or its tool was
/// invoked, giving the invocation's status and error, or the error that
/// kept it from running.
pub enum StepRun {
    Skipped,
    Unresolved(String),
    Invoked(Result<(ToolInvocationStatus, Option<String>), String>),
}

/// The stored result of a settled step.
pub enum StepResultText {
    /// No result.
    Nothing,
    /// The invocation record, as the tool executor reports it.
    Invocation,
    /// This text.
    Text(String),
}

/// What happens to the execution once a step is settled.
pub enum ExecutionMove {
    /// Move on to the step at this index, saving a checkpoint.
    Advance(usize),
    /// Cancel the execution.
    Cancel,
    /// Fail the execution with this error.
    Fail(String),
}

/// What a round writes once its step has run: the step's new status,
/// stored result and error, the step event with its message (if any),
/// whether the tool's output joins the execution context, and the move of
/// the execution.
pub struct StepSettlement {
    pub status: StepStatus,
    pub result: StepResultText,
    pub error: Option<String>,
    pub event: Option<(ExecutionEventType, String)>,
    pub keeps_output: bool,
    pub next: ExecutionMove,
}

/// The stored note of a skipped step:
/// `{"reason":"No tool specified","status":"skipped"}`.
pub open spec fn skip_note() -> Seq<char> {
    json_text(JsonView::Object(seq![("reason"@, JsonView::Str("No tool specified"@)), ("status"@, JsonView::Str("skipped"@))]))
}

/// `s` is what a failure of step `step_number` with `error` writes: a
/// failed step with that error, a `StepFailed` event, and a failed
/// execution.
pub open spec fn failure_settlement(s: StepSettlement, step_number: usize, error: Seq<char>) -> bool {
    &&& s.status == StepStatus::Failed
    &&& s.error matches Some(e) && e@ == error
    &&& s.event matches Some((t, m)) && t == ExecutionEventType::StepFailed && m@ == numbered_text(
        "Failed step "@,
        step_number as nat,
        error,
    )
    &&& !s.keeps_output
    &&& s.next matches ExecutionMove::Fail(e) && e@ == error
}

/// Settles the step at `step_index` (number `step_number`, described by
/// `description`) after it ran. A skipped step is stored as skipped with
/// its note and the execution moves on. A step whose arguments did not
/// resolve fails, and so does the execution. A successful invocation
/// completes the step with the invocation as its result and a
/// `StepCompleted` event ("Completed step {n+1}: {description}"), keeps
/// the tool's output when it returned one (`has_output`), and moves on. A
/// cancelled invocation fails the step with its error and no event, and
/// cancels the execution. Any other outcome fails the step and the
/// execution with the invocation's error ("tool invocation failed" when it
/// gave none), or the error that kept the tool from running; the
/// invocation is the stored result only when the tool ran.
pub fn settle_step(run: &StepRun, has_output: bool, step_index: usize, step_number: usize, description: &str) -> (r: StepSettlement)
    requires
        step_index < usize::MAX,
        step_number < u64::MAX,
    ensures
        run is Skipped ==> {
            &&& r.status == StepStatus::Skipped
            &&& r.result matches StepResultText::Text(t) && t@ == skip_note()
            &&& r.error is None
            &&& r.event is None
            &&& !r.keeps_output
            &&& r.next matches ExecutionMove::Advance(k) && k == step_index + 1
        },
        run matches StepRun::Unresolved(m) ==> failure_settlement(r, step_number, m@) && r.result is Nothing,
        run matches StepRun::Invoked(Ok((ToolInvocationStatus::Success, _))) ==> {
            &&& r.status == StepStatus::Completed
            &&& r.result is Invocation
            &&& r.error is None
            &&& r.event matches Some((t, m)) && t == ExecutionEventType::StepCompleted && m@ == numbered_text(
                "Completed step "@,
                step_number as nat,
                description@,
            )
            &&& r.keeps_output == has_output
            &&& r.next matches ExecutionMove::Advance(k) && k == step_index + 1
        },
        run matches StepRun::Invoked(Ok((ToolInvocationStatus::Cancelled, e))) ==> {
            &&& r.status == StepStatus::Failed
            &&& r.result is Invocation
            &&& crate::plan::opt_string_view(r.error) == crate::plan::opt_string_view(*e)
            &&& r.event is None
            &&& !r.keeps_output
            &&& r.next is Cancel
        },
        run matches StepRun::Invoked(Ok((status, e))) ==> (status != ToolInvocationStatus::Success && status
            != ToolInvocationStatus::Cancelled ==> failure_settlement(
            r,
            step_number,
            match e {
                Some(m) => m@,
                None => "tool invocation failed"@,
            },
        ) && r.result is Invocation),
        run matches StepRun::Invoked(Err(m)) ==> failure_settlement(r, step_number, m@) && r.result is Nothing,
{
    match run {
        StepRun::Skipped => {
            let mut members: Vec<(String, Json)> = Vec::new();
            members.push((String::from_str("reason"), Json::Str(String::from_str("No tool specified"))));
            members.push((String::from_str("status"), Json::Str(String::from_str("skipped"))));
            proof {
                lemma_members_view(members@);
                assert(members_view(members@) =~= seq![
                    ("reason"@, JsonView::Str("No tool specified"@)),
                    ("status"@, JsonView::Str("skipped"@)),
                ]);
            }
            StepSettlement {
                status: StepStatus::Skipped,
                result: StepResultText::Text(json_to_text(&Json::Object(members))),
                error: None,
                event: None,
                keeps_output: false,
                next: ExecutionMove::Advance(step_index + 1),
            }
        },
        StepRun::Unresolved(m) => failed_settlement(StepResultText::Nothing, m.as_str(), step_number),
        StepRun::Invoked(Ok((ToolInvocationStatus::Success, _))) => StepSettlement {
            status: StepStatus::Completed,
            result: StepResultText::Invocation,
            error: None,
            event: Some((ExecutionEventType::StepCompleted, step_completed_message(step_number, description))),
            keeps_output: has_output,
            next: ExecutionMove::Advance(step_index + 1),
        },
        StepRun::Invoked(Ok((ToolInvocationStatus::Cancelled, e))) => StepSettlement {
            status: StepStatus::Failed,
            result: StepResultText::Invocation,
            error: copy_opt_string(e),
            event: None,
            keeps_output: false,
            next: ExecutionMove::Cancel,
        },
        StepRun::Invoked(Ok((_, Some(e)))) => failed_settlement(StepResultText::Invocation, e.as_str(), step_number),
        StepRun::Invoked(Ok((_, None))) => failed_settlement(StepResultText::Invocation, "tool invocation failed", step_number),
        StepRun::Invoked(Err(e)) => failed_settlement(StepResultText::Nothing, e.as_str(), step_number),
    }
}

/// The settlement of a step that failed with `error`.
fn failed_settlement(result: StepResultText, error: &str, step_number: usize) -> (r: StepSettlement)
    requires
        step_number < u64::MAX,
    ensures
        failure_settlement(r, step_number, error@),
        r.result == result,
{
    StepSettlement {
        status: StepStatus::Failed,
        result,
        error: Some(String::from_str(error)),
        event: Some((ExecutionEventType::StepFailed, step_failed_message(step_number, error))),
        keeps_output: false,
        next: ExecutionMove::Fail(String::from_str(error)),
    }
}

/// The step numbers of the steps with status `s`, in order.
pub open spec fn numbers_with(steps: Seq<ExecutionStep>, s: StepStatus) -> Seq<usize>
    decreases steps.len(),
{
    if steps.len() == 0 {
        Seq::empty()
    } else if steps.last().status == s {
        numbers_with(steps.drop_last(), s).push(steps.last().step_number)
    } else {
        numbers_with(steps.drop_last(), s)
    }
}

/// The step numbers of the completed, the skipped and the failed steps.
pub fn settled_step_numbers(steps: &Vec<ExecutionStep>) -> (r: (Vec<usize>, Vec<usize>, Vec<usize>))
    ensures
        r.0@ == numbers_with(steps@, StepStatus::Completed),
        r.1@ == numbers_with(steps@, StepStatus::Skipped),
        r.2@ == numbers_with(steps@, StepStatus::Failed),
{
    let mut completed: Vec<usize> = Vec::new();
    let mut skipped: Vec<usize> = Vec::new();
    let mut failed: Vec<usize> = Vec::new();
    let mut i: usize = 0;
    while i < steps.len()
        invariant
            i <= steps@.len(),
            completed@ == numbers_with(steps@.take(i as int), StepStatus::Completed),
            skipped@ == numbers_with(steps@.take(i as int), StepStatus::Skipped),
            failed@ == numbers_with(steps@.take(i as int), StepStatus::Failed),
        decreases steps.len() - i,
    {
        proof {
            assert(steps@.take(i + 1).drop_last() =~= steps@.take(i as int));
            assert(steps@.take(i + 1).last() == steps@[i as int]);
        }
        match steps[i].status {
            StepStatus::Completed => completed.push(steps[i].step_number),
            StepStatus::Skipped => skipped.push(steps[i].step_number),
            StepStatus::Failed => failed.push(steps[i].step_number),
            _ => {},
        }
        i = i + 1;
    }
    proof {
        assert(steps@.take(i as int) =~= steps@);
    }
    (completed, skipped, failed)
}

/// The tasks that steer scheduling for a plan: its tasks when it has any,
/// none otherwise (steps then run in stored order).
pub fn scheduling_tasks(plan: &ExecutionPlan) -> (r: Option<Vec<PlanTask>>)
    ensures
        opt_tasks_view(r) == if plan.tasks@.len() == 0 {
            None
        } else {
            Some(tasks_view(plan.tasks@))
        },
{
    if plan.tasks.len() == 0 {
        None
    } else {
        Some(copy_tasks(&plan.tasks))
    }
}

/// A durable snapshot of one execution: its plan, its variable store, its
/// status, and which steps completed, were skipped or failed.
pub struct ExecutionCheckpoint {
    pub execution_id: u128,
    pub plan: ExecutionPlan,
    pub context: ExecutionContext,
    pub status: ExecutionStatus,
    pub completed_steps: Vec<usize>,
    pub skipped_steps: Vec<usize>,
    pub failed_steps: Vec<usize>,
    /// When the checkpoint was first created, nanoseconds since the epoch.
    pub created_at: i128,
    /// When the checkpoint was last written, nanoseconds since the epoch.
    pub updated_at: i128,
}

impl ExecutionCheckpoint {
    /// A fresh checkpoint, created and written now.
    pub fn new(
        execution_id: u128,
        plan: ExecutionPlan,
        context: ExecutionContext,
        status: ExecutionStatus,
        completed_steps: Vec<usize>,
        skipped_steps: Vec<usize>,
        failed_steps: Vec<usize>,
    ) -> (r: Self)
        ensures
            r.execution_id == execution_id,
            r.plan == plan,
            r.context == context,
            r.status == status,
            r.completed_steps == completed_steps,
            r.skipped_steps == skipped_steps,
            r.failed_steps == failed_steps,
            r.created_at == r.updated_at,
    {
        let now = now_nanos();
        ExecutionCheckpoint {
            execution_id,
            plan,
            context,
            status,
            completed_steps,
            skipped_steps,
            failed_steps,
            created_at: now,
            updated_at: now,
        }
    }
}

/// The step a plan schedules is pending, so a step that completed, was
/// skipped, failed or is running is never scheduled again; every task it
/// depends on is done, and its gate is open.
pub proof fn lemma_scheduled_step_is_pending_and_ready(tasks: Seq<PlanTaskView>, current: int, steps: Seq<StepStatus>, i: int)
    requires
        next_step(Some(tasks), current, steps) == Some(i),
    ensures
        0 <= i < steps.len(),
        steps[i] == StepStatus::Pending,
        forall|k: int|
            0 <= k < tasks[i].dependencies.len() ==> #[trigger] dependency_done(tasks, steps, tasks[i].dependencies[k]),
        gate_open(tasks[i].condition, tasks, steps),
{
    lemma_first_runnable_range(tasks, steps, 0);
}

/// Scanning from `from` finds a runnable step no later than the runnable
/// step `i`.
proof fn lemma_scan_finds_by(tasks: Seq<PlanTaskView>, steps: Seq<StepStatus>, from: int, i: int)
    requires
        0 <= from <= i,
        runnable(tasks, steps, i),
    ensures
        first_runnable_from(tasks, steps, from) matches Some(p) && from <= p <= i,
    decreases i - from,
{
    if from < i && !runnable(tasks, steps, from) {
        lemma_scan_finds_by(tasks, steps, from + 1, i);
    }
}

/// The outcome recorded for an id carried by one task only is that of the
/// step at the task's position.
proof fn lemma_outcome_at(tasks: Seq<PlanTaskView>, steps: Seq<StepStatus>, id: u128, j: int, n: int)
    requires
        0 <= j < n,
        n <= tasks.len(),
        n <= steps.len(),
        tasks[j].id == id,
        forall|q: int| 0 <= q < tasks.len() && q != j ==> #[trigger] tasks[q].id != id,
    ensures
        outcome_upto(tasks, steps, id, n) == Some(step_outcome(steps[j])),
    decreases n,
{
    if n - 1 != j {
        lemma_outcome_at(tasks, steps, id, j, n - 1);
    }
}

/// A gate on the task with id `p`, carried by one task only whose step is
/// at position `j`, opens after success exactly when that step completed,
/// and after failure exactly when it failed.
pub proof fn lemma_gate_follows_the_predecessor_step(tasks: Seq<PlanTaskView>, steps: Seq<StepStatus>, p: u128, j: int)
    requires
        0 <= j < tasks.len(),
        j < steps.len(),
        tasks[j].id == p,
        forall|q: int| 0 <= q < tasks.len() && q != j ==> #[trigger] tasks[q].id != p,
    ensures
        gate_open(Some(PlanGate::AfterSuccess(p)), tasks, steps) <==> steps[j] == StepStatus::Completed,
        gate_open(Some(PlanGate::AfterFailure(p)), tasks, steps) <==> steps[j] == StepStatus::Failed,
        gate_open(None, tasks, steps),
{
    let n = if tasks.len() < steps.len() {
        tasks.len() as int
    } else {
        steps.len() as int
    };
    lemma_outcome_at(tasks, steps, p, j, n);
}

/// A pending step may run once every task its task depends on has a step
/// that completed or was skipped, and its gate is open: a skipped
/// dependency counts as done. The scheduler then picks a step, this one or
/// an earlier one.
pub proof fn lemma_done_dependencies_let_a_step_run(
    tasks: Seq<PlanTaskView>,
    current: int,
    steps: Seq<StepStatus>,
    i: int,
)
    requires
        0 <= i < steps.len(),
        i < tasks.len(),
        steps[i] == StepStatus::Pending,
        forall|k: int|
            #![trigger tasks[i].dependencies[k]]
            0 <= k < tasks[i].dependencies.len() ==> exists|j: int|
                0 <= j < tasks.len() && j < steps.len() && #[trigger] tasks[j].id == tasks[i].dependencies[k] && (
                steps[j] == StepStatus::Completed || steps[j] == StepStatus::Skipped),
        gate_open(tasks[i].condition, tasks, steps),
    ensures
        runnable(tasks, steps, i),
        next_step(Some(tasks), current, steps) matches Some(p) && 0 <= p <= i,
{
    assert forall|k: int| 0 <= k < tasks[i].dependencies.len() implies #[trigger] dependency_done(
        tasks,
        steps,
        tasks[i].dependencies[k],
    ) by {
        let j = choose|j: int|
            0 <= j < tasks.len() && j < steps.len() && #[trigger] tasks[j].id == tasks[i].dependencies[k] && (
            steps[j] == StepStatus::Completed || steps[j] == StepStatus::Skipped);
        assert(done_at(tasks, steps, tasks[i].dependencies[k], j));
    }
    lemma_scan_finds_by(tasks, steps, 0, i);
}

/// A step waits while some task its task depends on has no step that
/// completed or was skipped.
pub proof fn lemma_unfinished_dependency_holds_a_step(tasks: Seq<PlanTaskView>, steps: Seq<StepStatus>, i: int, k: int)
    requires
        0 <= i < tasks.len(),
        0 <= k < tasks[i].dependencies.len(),
        forall|j: int|
            0 <= j < tasks.len() && j < steps.len() && #[trigger] tasks[j].id == tasks[i].dependencies[k] ==> !(
            steps[j] == StepStatus::Completed || steps[j] == StepStatus::Skipped),
    ensures
        !runnable(tasks, steps, i),
{
    if runnable(tasks, steps, i) {
        assert(dependency_done(tasks, steps, tasks[i].dependencies[k]));
        let j = choose|j: int| #[trigger] done_at(tasks, steps, tasks[i].dependencies[k], j);
        assert(tasks[j].id == tasks[i].dependencies[k]);
    }
}

/// The step picked is the first that may run: no earlier step may run.
pub proof fn lemma_scheduled_step_is_first(tasks: Seq<PlanTaskView>, steps: Seq<StepStatus>, from: int, j: int)
    requires
        0 <= from <= j < steps.len(),
        first_runnable_from(tasks, steps, from) matches Some(i) && j < i,
    ensures
        !runnable(tasks, steps, j),
    decreases j - from,
{
    if from < j {
        lemma_scheduled_step_is_first(tasks, steps, from + 1, j);
    }
}

/// The steps an execution of `plan` starts with: one pending step per task,
/// in task order, numbered from zero, carrying the task's description, tool
/// and arguments.
pub fn plan_steps(plan: &ExecutionPlan, execution_id: u128, ids: &Vec<u128>, now: i128) -> (r: Vec<ExecutionStep>)
    requires
        ids@.len() == plan.tasks@.len(),
    ensures
        r@.len() == plan.tasks@.len(),
        forall|i: int|
            0 <= i < r@.len() ==> {
                let s = #[trigger] r@[i];
                let t = plan.tasks@[i];
                &&& s.id == ids@[i]
                &&& s.execution_id == execution_id
                &&& s.step_number == i
                &&& s.description@ == t.description@
                &&& crate::plan::opt_string_view(s.tool_name) == crate::plan::opt_string_view(t.tool_name)
                &&& crate::plan::opt_json_view(s.arguments) == crate::plan::opt_json_view(t.arguments)
                &&& s.status == StepStatus::Pending
                &&& s.result is None
                &&& s.error is None
                &&& s.started_at is None
                &&& s.completed_at is None
                &&& s.created_at == now
            },
{
    let mut out: Vec<ExecutionStep> = Vec::new();
    let mut i: usize = 0;
    while i < plan.tasks.len()
        invariant
            i <= plan.tasks@.len(),
            ids@.len() == plan.tasks@.len(),
            out@.len() == i,
            forall|k: int|
                0 <= k < i ==> {
                    let s = #[trigger] out@[k];
                    let t = plan.tasks@[k];
                    &&& s.id == ids@[k]
                    &&& s.execution_id == execution_id
                    &&& s.step_number == k
                    &&& s.description@ == t.description@
                    &&& crate::plan::opt_string_view(s.tool_name) == crate::plan::opt_string_view(t.tool_name)
                    &&& crate::plan::opt_json_view(s.arguments) == crate::plan::opt_json_view(t.arguments)
                    &&& s.status == StepStatus::Pending
                    &&& s.result is None
                    &&& s.error is None
                    &&& s.started_at is None
                    &&& s.completed_at is None
                    &&& s.created_at == now
                },
        decreases plan.tasks.len() - i,
    {
        let task = &plan.tasks[i];
        out.push(
            ExecutionStep {
                id: ids[i],
                execution_id,
                step_number: i,
                description: task.description.clone(),
                tool_name: crate::plan::copy_opt_string(&task.tool_name),
                arguments: crate::plan::copy_opt_json(&task.arguments),
                status: StepStatus::Pending,
                result: None,
                error: None,
                started_at: None,
                completed_at: None,
                created_at: now,
            },
        );
        i = i + 1;
    }
    out
}

/// "No checkpoint available for execution: {id}".
pub fn no_checkpoint_message(execution_id: u128) -> (r: String)
    ensures
        r@ == "No checkpoint available for execution: "@ + uuid_text(execution_id),
{
    let id = crate::ids::id_text(execution_id);
    prefixed("No checkpoint available for execution: ", id.as_str())
}

/// "Execution not found: {id}".
pub fn not_found_message(execution_id: u128) -> (r: String)
    ensures
        r@ == "Execution not found: "@ + uuid_text(execution_id),
{
    let id = crate::ids::id_text(execution_id);
    prefixed("Execution not found: ", id.as_str())
}

/// How a resume request proceeds.
pub enum ResumeSource {
    /// The execution is still active in this process: resume it as is.
    Active,
    /// The execution is rebuilt from its checkpoint: the plan's scheduling
    /// tasks and the stored context.
    Checkpoint,
    /// Nothing to resume from: the request fails with this message.
    Missing(String),
}

/// Decides where a resumed execution's state comes from: the live state
/// when the execution is active, else its checkpoint, else nowhere.
pub fn resume_source(execution_id: u128, has_active: bool, has_checkpoint: bool) -> (r: ResumeSource)
    ensures
        has_active ==> r is Active,
        !has_active && has_checkpoint ==> r is Checkpoint,
        !has_active && !has_checkpoint ==> (r matches ResumeSource::Missing(m) && m@
            == "No checkpoint available for execution: "@ + uuid_text(execution_id)),
{
    if has_active {
        ResumeSource::Active
    } else if has_checkpoint {
        ResumeSource::Checkpoint
    } else {
        ResumeSource::Missing(no_checkpoint_message(execution_id))
    }
}

} // verus!
