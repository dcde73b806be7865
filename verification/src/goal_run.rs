//! The decisions of running a goal through the planner: passes over the
//! plan in dependency order, gates that skip tasks, the accounting of each
//! invocation's outcome, and the bounded replanning after a failure. The
//! caller plans the goal, invokes each task's tool, and reports back.

use std::collections::HashMap;
use vstd::prelude::*;
use crate::plan::{
    ExecutionPlan, PlanGate, PlanTask, PlanTaskView, PlannerError, PlannerReport, ToolInvocationStatus,
    gate_allows, is_acyclic, is_description_sort, is_topological_order, lemma_replan_keeps_ids_unique, replan_plan,
    contains_id, replanned_tasks, tasks_view, topological_order, unique_ids,
};

verus! {

/// Most replan passes a goal run performs beyond the first.
pub const MAX_REPLAN_ATTEMPTS: usize = 3;

/// Scans the pass order from `pos`: tasks already completed or with an
/// outcome are passed over; a task whose gate is closed is skipped (its
/// outcome becomes cancelled); the first other task is the next to invoke.
/// Gives the outcomes after the skips, the skipped ids, and the position
/// of the next task, if any.
pub open spec fn scan(
    order: Seq<PlanTaskView>,
    pos: int,
    done: Seq<u128>,
    outcomes: Map<u128, ToolInvocationStatus>,
) -> (Map<u128, ToolInvocationStatus>, Seq<u128>, Option<int>)
    decreases order.len() - pos,
{
    if pos < 0 || pos >= order.len() {
        (outcomes, Seq::empty(), None)
    } else {
        let t = order[pos];
        if done.contains(t.id) || outcomes.contains_key(t.id) {
            scan(order, pos + 1, done, outcomes)
        } else if !gate_allows(t.condition, outcomes) {
            let (o, skipped, next) = scan(order, pos + 1, done, outcomes.insert(t.id, ToolInvocationStatus::Cancelled));
            (o, seq![t.id] + skipped, next)
        } else {
            (outcomes, Seq::empty(), Some(pos))
        }
    }
}

/// The message of a planner error.
pub open spec fn planner_error_text(e: PlannerError) -> Seq<char> {
    match e {
        PlannerError::Cancelled => "Planner was cancelled"@,
        PlannerError::EmptyGoal => "goal is empty"@,
        PlannerError::NoToolsAvailable => "no tools are available for this goal/workspace"@,
        PlannerError::DependencyCycle => "plan contains a dependency cycle"@,
        PlannerError::Execution(m) => "execution failed: "@ + m@,
        PlannerError::Database(m) => "database error: "@ + m@,
    }
}

/// The message of a planner error.
pub fn planner_error_message(e: &PlannerError) -> (r: String)
    ensures
        r@ == planner_error_text(*e),
{
    let mut out: Vec<char> = Vec::new();
    match e {
        PlannerError::Cancelled => crate::json_text::push_str(&mut out, "Planner was cancelled"),
        PlannerError::EmptyGoal => crate::json_text::push_str(&mut out, "goal is empty"),
        PlannerError::NoToolsAvailable => crate::json_text::push_str(
            &mut out,
            "no tools are available for this goal/workspace",
        ),
        PlannerError::DependencyCycle => crate::json_text::push_str(&mut out, "plan contains a dependency cycle"),
        PlannerError::Execution(m) => {
            crate::json_text::push_str(&mut out, "execution failed: ");
            crate::json_text::push_str(&mut out, m.as_str());
        },
        PlannerError::Database(m) => {
            crate::json_text::push_str(&mut out, "database error: ");
            crate::json_text::push_str(&mut out, m.as_str());
        },
    }
    crate::text::string_of(out.as_slice())
}

/// The state of a goal run between the caller's tool invocations.
pub struct GoalRun {
    /// The plan being run (replaced by each replan).
    pub plan: ExecutionPlan,
    /// The outcome recorded for each task id.
    pub outcomes: HashMap<u128, ToolInvocationStatus>,
    /// Ids of the tasks that succeeded, in order.
    pub completed: Vec<u128>,
    /// Ids of the tasks skipped by a closed gate, in order.
    pub skipped: Vec<u128>,
    /// Ids of the tasks that failed in the current pass, in order.
    pub replaced: Vec<u128>,
    /// Replan passes performed.
    pub replan_count: usize,
    /// The latest error seen.
    pub last_error: Option<String>,
    /// The current pass's dependency order.
    pub order: Vec<PlanTask>,
    /// Position of the next task of the pass to look at.
    pub position: usize,
    /// Whether the pass invoked a task.
    pub progressed: bool,
}

/// What the caller reports about an invocation: its status and error when
/// the tool ran, or the error that kept it from running.
pub type InvocationReport = Result<(ToolInvocationStatus, Option<String>), PlannerError>;

impl GoalRun {
    /// The run of a freshly planned goal: nothing done yet.
    pub fn new(plan: ExecutionPlan) -> (r: Self)
        ensures
            r.plan == plan,
            r.outcomes@ == Map::<u128, ToolInvocationStatus>::empty(),
            r.completed@.len() == 0,
            r.skipped@.len() == 0,
            r.replaced@.len() == 0,
            r.replan_count == 0,
            r.last_error is None,
            r.order@.len() == 0,
            r.position == 0,
            !r.progressed,
    {
        GoalRun {
            plan,
            outcomes: HashMap::new(),
            completed: Vec::new(),
            skipped: Vec::new(),
            replaced: Vec::new(),
            replan_count: 0,
            last_error: None,
            order: Vec::new(),
            position: 0,
            progressed: false,
        }
    }

    /// Starts a pass: a cancelled run stops with [`PlannerError::Cancelled`];
    /// a run past its replan budget finishes (`Ok(false)`); otherwise the
    /// plan's dependency order becomes the pass order (`Ok(true)`), or the
    /// run stops on a dependency cycle.
    pub fn begin_pass(&mut self, cancelled: bool) -> (r: Result<bool, PlannerError>)
        requires
            unique_ids(tasks_view(old(self).plan.tasks@)),
        ensures
            final(self).plan == old(self).plan,
            final(self).outcomes@ == old(self).outcomes@,
            final(self).completed@ == old(self).completed@,
            final(self).skipped@ == old(self).skipped@,
            final(self).replaced@ == old(self).replaced@,
            final(self).replan_count == old(self).replan_count,
            cancelled ==> r matches Err(PlannerError::Cancelled),
            !cancelled && old(self).replan_count > MAX_REPLAN_ATTEMPTS ==> r == Ok::<bool, PlannerError>(false),
            !cancelled && old(self).replan_count <= MAX_REPLAN_ATTEMPTS ==> (r is Ok <==> is_acyclic(
                tasks_view(old(self).plan.tasks@),
            )),
            !cancelled ==> (r matches Err(e) ==> e is DependencyCycle),
            r == Ok::<bool, PlannerError>(true) ==> is_topological_order(
                tasks_view(old(self).plan.tasks@),
                tasks_view(final(self).order@),
            ) && final(self).position == 0 && !final(self).progressed,
    {
        if cancelled {
            return Err(PlannerError::Cancelled);
        }
        if self.replan_count > MAX_REPLAN_ATTEMPTS {
            return Ok(false);
        }
        match topological_order(&self.plan.tasks) {
            Ok(order) => {
                self.order = order;
                self.position = 0;
                self.progressed = false;
                Ok(true)
            },
            Err(e) => Err(e),
        }
    }

    /// The next task of the pass to invoke, skipping tasks whose gate is
    /// closed (see [`scan`]); `None` when the pass is over.
    pub fn next_task(&mut self) -> (r: Option<PlanTask>)
        ensures
            ({
                let (o, sk, next) = scan(
                    tasks_view(old(self).order@),
                    old(self).position as int,
                    old(self).completed@,
                    old(self).outcomes@,
                );
                &&& final(self).outcomes@ == o
                &&& final(self).skipped@ == old(self).skipped@ + sk
                &&& match next {
                    None => r is None && final(self).progressed == old(self).progressed,
                    Some(i) => r matches Some(t) && t@ == tasks_view(old(self).order@)[i] && final(self).position
                        == i + 1 && final(self).progressed,
                }
            }),
            final(self).plan == old(self).plan,
            final(self).order == old(self).order,
            final(self).completed == old(self).completed,
            final(self).replaced == old(self).replaced,
            final(self).replan_count == old(self).replan_count,
            final(self).last_error == old(self).last_error,
    {
        broadcast use vstd::std_specs::hash::group_hash_axioms;
        let ghost ov = tasks_view(self.order@);
        let ghost start = scan(ov, self.position as int, self.completed@, self.outcomes@);
        let ghost skipped0 = self.skipped@;
        let ghost progressed0 = self.progressed;
        loop
            invariant
                ov == tasks_view(self.order@),
                ov == tasks_view(old(self).order@),
                start == scan(
                    tasks_view(old(self).order@),
                    old(self).position as int,
                    old(self).completed@,
                    old(self).outcomes@,
                ),
                scan(ov, self.position as int, self.completed@, self.outcomes@).0 == start.0,
                scan(ov, self.position as int, self.completed@, self.outcomes@).2 == start.2,
                skipped0 + start.1 == self.skipped@ + scan(ov, self.position as int, self.completed@, self.outcomes@).1,
                skipped0 == old(self).skipped@,
                self.progressed == progressed0,
                progressed0 == old(self).progressed,
                self.plan == old(self).plan,
                self.order == old(self).order,
                self.completed == old(self).completed,
                self.replaced == old(self).replaced,
                self.replan_count == old(self).replan_count,
                self.last_error == old(self).last_error,
            decreases self.order@.len() - self.position,
        {
            if self.position >= self.order.len() {
                proof {
                    assert(scan(ov, self.position as int, self.completed@, self.outcomes@).1 =~= Seq::<u128>::empty());
                    assert(self.skipped@ =~= skipped0 + start.1);
                    assert(start.0 == self.outcomes@);
                    assert(start.2 is None);
                }
                return None;
            }
            let i = self.position;
            let task = &self.order[i];
            let id = task.id;
            proof {
                assert(ov[i as int] == task@);
            }
            self.position = i + 1;
            if contains_id(&self.completed, id) || self.outcomes.contains_key(&id) {
                continue;
            }
            if !gate_open_now(task.condition, &self.outcomes) {
                let ghost before = self.skipped@;
                self.skipped.push(id);
                self.outcomes.insert(id, ToolInvocationStatus::Cancelled);
                proof {
                    assert(self.skipped@ == before.push(id));
                    assert(seq![id] + scan(ov, i + 1, self.completed@, self.outcomes@).1 =~= seq![id].add(
                        scan(ov, i + 1, self.completed@, self.outcomes@).1,
                    ));
                    assert(before + (seq![id] + scan(ov, i + 1, self.completed@, self.outcomes@).1) =~= before.push(id)
                        + scan(ov, i + 1, self.completed@, self.outcomes@).1);
                }
                continue;
            }
            let t = task.copy();
            self.progressed = true;
            proof {
                assert(scan(ov, i as int, self.completed@, self.outcomes@) == (
                    self.outcomes@,
                    Seq::<u128>::empty(),
                    Some(i as int),
                ));
                assert(self.skipped@ + Seq::<u128>::empty() =~= self.skipped@);
                assert(start.2 == Some(i as int));
                assert(start.0 == self.outcomes@);
                assert(self.skipped@ =~= skipped0 + start.1);
            }
            return Some(t);
        }
    }

    /// Records what the caller's invocation of task `id` came to: a success
    /// completes the task; a failure, with its error, puts it among the
    /// tasks to replace; a cancellation stops the run.
    pub fn record_result(&mut self, id: u128, result: InvocationReport) -> (r: Result<(), PlannerError>)
        ensures
            final(self).plan == old(self).plan,
            final(self).order == old(self).order,
            final(self).position == old(self).position,
            final(self).progressed == old(self).progressed,
            final(self).skipped == old(self).skipped,
            final(self).replan_count == old(self).replan_count,
            match result {
                Ok((ToolInvocationStatus::Success, _)) => r is Ok && final(self).completed@ == old(self).completed@.push(id) && final(self).replaced@ == old(self).replaced@ && final(self).outcomes@
                    == old(self).outcomes@.insert(id, ToolInvocationStatus::Success) && final(self).last_error
                    == old(self).last_error,
                Ok((status, error)) => r is Ok && final(self).completed@ == old(self).completed@ && final(self).replaced@ == old(self).replaced@.push(id) && final(self).outcomes@ == old(self).outcomes@.insert(
                    id,
                    status,
                ) && final(self).last_error == (match error {
                    Some(e) => Some(e),
                    None => old(self).last_error,
                }),
                Err(PlannerError::Cancelled) => r matches Err(PlannerError::Cancelled) && final(self).completed
                    == old(self).completed && final(self).replaced == old(self).replaced && final(self).outcomes@
                    == old(self).outcomes@,
                Err(e) => r is Ok && final(self).completed@ == old(self).completed@ && final(self).replaced@ == old(self).replaced@.push(id) && final(self).outcomes@ == old(self).outcomes@.insert(
                    id,
                    ToolInvocationStatus::Failed,
                ) && (final(self).last_error matches Some(m) && m@ == planner_error_text(e)),
            },
    {
        match result {
            Ok((ToolInvocationStatus::Success, _)) => {
                self.completed.push(id);
                self.outcomes.insert(id, ToolInvocationStatus::Success);
                Ok(())
            },
            Ok((status, error)) => {
                self.replaced.push(id);
                self.outcomes.insert(id, status);
                match error {
                    Some(e) => {
                        self.last_error = Some(e);
                    },
                    None => {},
                }
                Ok(())
            },
            Err(PlannerError::Cancelled) => Err(PlannerError::Cancelled),
            Err(e) => {
                self.replaced.push(id);
                self.outcomes.insert(id, ToolInvocationStatus::Failed);
                self.last_error = Some(planner_error_message(&e));
                Ok(())
            },
        }
    }

    /// Ends a pass: the run finishes (`false`) when the pass invoked nothing
    /// or nothing failed; otherwise the plan is revised around the last
    /// failed task, one replan is counted, and another pass follows
    /// (`true`).
    pub fn end_pass(&mut self) -> (r: bool)
        requires
            old(self).replan_count < usize::MAX,
            unique_ids(tasks_view(old(self).plan.tasks@)),
        ensures
            r == (old(self).progressed && old(self).replaced@.len() > 0),
            !r ==> *final(self) == *old(self),
            r ==> final(self).replan_count == old(self).replan_count + 1 && final(self).replaced@.len() == 0
                && is_description_sort(
                replanned_tasks(
                    tasks_view(old(self).plan.tasks@),
                    old(self).completed@,
                    old(self).replaced@.last(),
                ),
                tasks_view(final(self).plan.tasks@),
            ) && final(self).plan.id == old(self).plan.id && final(self).completed == old(self).completed
                && final(self).skipped == old(self).skipped && final(self).outcomes@ == old(self).outcomes@,
            unique_ids(tasks_view(final(self).plan.tasks@)),
    {
        if !self.progressed || self.replaced.len() == 0 {
            return false;
        }
        let failed = self.replaced[self.replaced.len() - 1];
        self.replaced.clear();
        self.replan_count = self.replan_count + 1;
        let replanned = replan_plan(&self.plan, &self.completed, failed);
        proof {
            lemma_replan_keeps_ids_unique(
                tasks_view(self.plan.tasks@),
                self.completed@,
                failed,
                tasks_view(replanned.tasks@),
            );
        }
        self.plan = replanned;
        true
    }

    /// The report of the finished run.
    pub fn into_report(self) -> (r: PlannerReport)
        ensures
            r.plan == self.plan,
            r.execution_id is None,
            r.completed == self.completed,
            r.skipped == self.skipped,
            r.replaced == self.replaced,
            r.replan_count == self.replan_count,
            r.error == self.last_error,
    {
        PlannerReport {
            plan: self.plan,
            execution_id: None,
            completed: self.completed,
            skipped: self.skipped,
            replaced: self.replaced,
            replan_count: self.replan_count,
            error: self.last_error,
        }
    }
}

/// Whether a gate is open given the outcomes recorded so far.
fn gate_open_now(condition: Option<PlanGate>, outcomes: &HashMap<u128, ToolInvocationStatus>) -> (r: bool)
    ensures
        r == gate_allows(condition, outcomes@),
{
    broadcast use vstd::std_specs::hash::group_hash_axioms;
    match condition {
        None => true,
        Some(PlanGate::AfterSuccess(p)) => match outcomes.get(&p) {
            Some(s) => *s == ToolInvocationStatus::Success,
            None => false,
        },
        Some(PlanGate::AfterFailure(p)) => match outcomes.get(&p) {
            Some(s) => *s == ToolInvocationStatus::Failed || *s == ToolInvocationStatus::Cancelled,
            None => false,
        },
    }
}

} // verus!
