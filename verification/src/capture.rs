//! Turning finished runs into memory records: an engine execution, a
//! planner report, or an autonomous session becomes one durable row. The
//! store embeds the goal and writes the row.

use vstd::prelude::*;
use crate::autonomous::{AutonomousSessionProgress, AutonomousStatus, ReasoningEvent, phase_text};
use crate::chars::{decimal, push_decimal};
use crate::execution::{ExecutionStatus, ExecutionStep, StepStatus};
use crate::json_text::push_str;
use crate::memory::{MemoryKind, MemoryOutcome, MemoryRecord, MemoryStatus, RetentionPolicy, outcome_from_report};
use crate::plan::{ExecutionPlan, PlanTask, PlannerReport};
use crate::text::{string_of, strings_view};

verus! {

/// The descriptions of the steps, in order.
pub open spec fn step_descriptions(steps: Seq<ExecutionStep>) -> Seq<Seq<char>>
    decreases steps.len(),
{
    if steps.len() == 0 {
        Seq::empty()
    } else {
        step_descriptions(steps.drop_last()).push(steps.last().description@)
    }
}

/// The tool names of the steps that have one, in order.
pub open spec fn step_tools(steps: Seq<ExecutionStep>) -> Seq<Seq<char>>
    decreases steps.len(),
{
    if steps.len() == 0 {
        Seq::empty()
    } else {
        let rest = step_tools(steps.drop_last());
        match steps.last().tool_name {
            Some(t) => rest.push(t@),
            None => rest,
        }
    }
}

/// For each step that recorded an error, in order: its tool name, or its
/// description when it has no tool.
pub open spec fn failed_step_names(steps: Seq<ExecutionStep>) -> Seq<Seq<char>>
    decreases steps.len(),
{
    if steps.len() == 0 {
        Seq::empty()
    } else {
        let rest = failed_step_names(steps.drop_last());
        let s = steps.last();
        if s.error is Some {
            rest.push(
                match s.tool_name {
                    Some(t) => t@,
                    None => s.description@,
                },
            )
        } else {
            rest
        }
    }
}

/// The number of completed steps.
pub open spec fn completed_count(steps: Seq<ExecutionStep>) -> nat
    decreases steps.len(),
{
    if steps.len() == 0 {
        0
    } else {
        completed_count(steps.drop_last()) + if steps.last().status == StepStatus::Completed {
            1nat
        } else {
            0nat
        }
    }
}

/// The memory status of a finished execution.
pub open spec fn execution_memory_status(s: ExecutionStatus) -> MemoryStatus {
    match s {
        ExecutionStatus::Completed => MemoryStatus::Success,
        ExecutionStatus::Failed => MemoryStatus::Failed,
        _ => MemoryStatus::Cancelled,
    }
}

/// The step descriptions, tools and failed-step names of a run's steps.
fn step_summaries(steps: &Vec<ExecutionStep>) -> (r: (Vec<String>, Vec<String>, Vec<String>, usize))
    ensures
        strings_view(r.0@) == step_descriptions(steps@),
        strings_view(r.1@) == step_tools(steps@),
        strings_view(r.2@) == failed_step_names(steps@),
        r.3 as nat == completed_count(steps@),
{
    let mut descriptions: Vec<String> = Vec::new();
    let mut tools: Vec<String> = Vec::new();
    let mut failed: Vec<String> = Vec::new();
    let mut completed: usize = 0;
    let mut i: usize = 0;
    while i < steps.len()
        invariant
            i <= steps@.len(),
            strings_view(descriptions@) == step_descriptions(steps@.take(i as int)),
            strings_view(tools@) == step_tools(steps@.take(i as int)),
            strings_view(failed@) == failed_step_names(steps@.take(i as int)),
            completed as nat == completed_count(steps@.take(i as int)),
            completed <= i,
        decreases steps.len() - i,
    {
        let s = &steps[i];
        proof {
            assert(steps@.take(i + 1).drop_last() =~= steps@.take(i as int));
            assert(steps@.take(i + 1).last() == *s);
        }
        let ghost d0 = descriptions@;
        descriptions.push(s.description.clone());
        proof {
            assert(strings_view(descriptions@) =~= strings_view(d0).push(s.description@));
        }
        match &s.tool_name {
            Some(t) => {
                let ghost t0 = tools@;
                tools.push(t.clone());
                proof {
                    assert(strings_view(tools@) =~= strings_view(t0).push(t@));
                }
            },
            None => {},
        }
        if s.error.is_some() {
            let name = match &s.tool_name {
                Some(t) => t.clone(),
                None => s.description.clone(),
            };
            let ghost f0 = failed@;
            failed.push(name);
            proof {
                assert(strings_view(failed@) =~= strings_view(f0).push(
                    match s.tool_name {
                        Some(t) => t@,
                        None => s.description@,
                    },
                ));
            }
        }
        if s.status == StepStatus::Completed {
            completed = completed + 1;
        }
        i = i + 1;
    }
    proof {
        assert(steps@.take(i as int) =~= steps@);
    }
    (descriptions, tools, failed, completed)
}

/// A memory record with the lifecycle defaults of a fresh row: permanent,
/// first version, no parent, never archived, expired or compressed.
pub open spec fn fresh_lifecycle(r: MemoryRecord) -> bool {
    &&& r.retention == RetentionPolicy::Permanent
    &&& r.retention_until is None
    &&& r.archived_at is None
    &&& r.expired_at is None
    &&& r.summary is None
    &&& r.compressed_at is None
    &&& r.version == 1
    &&& r.parent_id is None
    &&& r.replay_count == 0
}

/// The memory record of a finished engine execution: its goal, plan and
/// steps; its status from the execution's; the tools it used and the steps
/// that recorded errors; and outcome accounting of one plan attempt.
pub fn execution_record(
    id: u128,
    execution_id: u128,
    workspace_id: Option<u128>,
    goal: &str,
    plan: Option<ExecutionPlan>,
    steps: &Vec<ExecutionStep>,
    status: ExecutionStatus,
    error: Option<String>,
    now: i128,
) -> (r: MemoryRecord)
    ensures
        r.id == id,
        r.kind == MemoryKind::Execution,
        r.source_id == execution_id,
        r.workspace_id == workspace_id,
        r.goal@ == goal@,
        r.status == execution_memory_status(status),
        r.plan == plan,
        strings_view(r.steps@) == step_descriptions(steps@),
        r.reasoning@.len() == 0,
        strings_view(r.tools_used@) == step_tools(steps@),
        strings_view(r.failed_steps@) == failed_step_names(steps@),
        r.error == error,
        r.outcome.steps == steps@.len(),
        r.outcome.completed as nat == completed_count(steps@),
        r.outcome.replaced == 0 && r.outcome.replan_count == 0 && r.outcome.retries_used == 0,
        r.outcome.plans_attempted == 1,
        r.outcome.duration_seconds == 0,
        r.created_at == now && r.updated_at == now,
        fresh_lifecycle(r),
{
    let (descriptions, tools, failed, completed) = step_summaries(steps);
    let memory_status = match status {
        ExecutionStatus::Completed => MemoryStatus::Success,
        ExecutionStatus::Failed => MemoryStatus::Failed,
        _ => MemoryStatus::Cancelled,
    };
    MemoryRecord {
        id,
        kind: MemoryKind::Execution,
        source_id: execution_id,
        workspace_id,
        goal: String::from_str(goal),
        status: memory_status,
        plan,
        steps: descriptions,
        reasoning: Vec::new(),
        tools_used: tools,
        failed_steps: failed,
        error,
        outcome: MemoryOutcome {
            steps: steps.len(),
            completed,
            replaced: 0,
            replan_count: 0,
            retries_used: 0,
            plans_attempted: 1,
            duration_seconds: 0,
        },
        replay_count: 0,
        created_at: now,
        updated_at: now,
        retention: RetentionPolicy::Permanent,
        retention_until: None,
        archived_at: None,
        expired_at: None,
        summary: None,
        compressed_at: None,
        version: 1,
        parent_id: None,
    }
}

/// The descriptions of the tasks, in order.
pub open spec fn task_descriptions(tasks: Seq<PlanTask>) -> Seq<Seq<char>>
    decreases tasks.len(),
{
    if tasks.len() == 0 {
        Seq::empty()
    } else {
        task_descriptions(tasks.drop_last()).push(tasks.last().description@)
    }
}

/// Which tasks a tool list keeps.
pub enum TaskFilter {
    /// Every task with a tool.
    All,
    /// Tasks whose id is listed.
    Listed(Seq<u128>),
    /// Tasks not completed.
    Unfinished,
}

/// Whether a task passes a filter.
pub open spec fn passes(t: PlanTask, f: TaskFilter) -> bool {
    match f {
        TaskFilter::All => true,
        TaskFilter::Listed(ids) => ids.contains(t.id),
        TaskFilter::Unfinished => !t.completed,
    }
}

/// The tool names of the tasks that pass the filter and have one, in order.
pub open spec fn task_tools(tasks: Seq<PlanTask>, f: TaskFilter) -> Seq<Seq<char>>
    decreases tasks.len(),
{
    if tasks.len() == 0 {
        Seq::empty()
    } else {
        let rest = task_tools(tasks.drop_last(), f);
        let t = tasks.last();
        if passes(t, f) && t.tool_name is Some {
            rest.push(t.tool_name->0@)
        } else {
            rest
        }
    }
}

/// Whether `ids` holds `id`.
fn holds_id(ids: &Vec<u128>, id: u128) -> (r: bool)
    ensures
        r == ids@.contains(id),
{
    let mut i: usize = 0;
    while i < ids.len()
        invariant
            i <= ids@.len(),
            forall|k: int| 0 <= k < i ==> ids@[k] != id,
        decreases ids.len() - i,
    {
        if ids[i] == id {
            assert(ids@[i as int] == id);
            return true;
        }
        i = i + 1;
    }
    false
}

/// The descriptions of the tasks, the tools of all tasks, and the tools of
/// the tasks kept by `keep` (`None`: the unfinished ones; `Some(ids)`:
/// the listed ones).
fn task_summaries(tasks: &Vec<PlanTask>, keep: Option<&Vec<u128>>) -> (r: (Vec<String>, Vec<String>, Vec<String>))
    ensures
        strings_view(r.0@) == task_descriptions(tasks@),
        strings_view(r.1@) == task_tools(tasks@, TaskFilter::All),
        strings_view(r.2@) == task_tools(
            tasks@,
            match keep {
                Some(ids) => TaskFilter::Listed(ids@),
                None => TaskFilter::Unfinished,
            },
        ),
{
    let ghost f = match keep {
        Some(ids) => TaskFilter::Listed(ids@),
        None => TaskFilter::Unfinished,
    };
    let mut descriptions: Vec<String> = Vec::new();
    let mut tools: Vec<String> = Vec::new();
    let mut kept: Vec<String> = Vec::new();
    let mut i: usize = 0;
    while i < tasks.len()
        invariant
            i <= tasks@.len(),
            f == (match keep {
                Some(ids) => TaskFilter::Listed(ids@),
                None => TaskFilter::Unfinished,
            }),
            strings_view(descriptions@) == task_descriptions(tasks@.take(i as int)),
            strings_view(tools@) == task_tools(tasks@.take(i as int), TaskFilter::All),
            strings_view(kept@) == task_tools(tasks@.take(i as int), f),
        decreases tasks.len() - i,
    {
        let t = &tasks[i];
        proof {
            assert(tasks@.take(i + 1).drop_last() =~= tasks@.take(i as int));
            assert(tasks@.take(i + 1).last() == *t);
        }
        let ghost d0 = descriptions@;
        descriptions.push(t.description.clone());
        proof {
            assert(strings_view(descriptions@) =~= strings_view(d0).push(t.description@));
        }
        match &t.tool_name {
            Some(name) => {
                let ghost t0 = tools@;
                tools.push(name.clone());
                proof {
                    assert(strings_view(tools@) =~= strings_view(t0).push(name@));
                }
                let keeps = match keep {
                    Some(ids) => holds_id(ids, t.id),
                    None => !t.completed,
                };
                if keeps {
                    let ghost k0 = kept@;
                    kept.push(name.clone());
                    proof {
                        assert(strings_view(kept@) =~= strings_view(k0).push(name@));
                    }
                }
            },
            None => {},
        }
        i = i + 1;
    }
    proof {
        assert(tasks@.take(i as int) =~= tasks@);
    }
    (descriptions, tools, kept)
}

/// "Planner report: {completed} completed, {replaced} replaced, {replans}
/// replans".
pub open spec fn report_note(completed: nat, replaced: nat, replans: nat) -> Seq<char> {
    "Planner report: "@ + decimal(completed) + " completed, "@ + decimal(replaced) + " replaced, "@ + decimal(
        replans,
    ) + " replans"@
}

/// The memory record of a planner report: a success when no error was
/// seen and some task completed, a failure otherwise; the plan's task
/// descriptions and tools, the tools of the replaced tasks, and one note
/// counting the report. `fallback_source` stands for the execution when
/// the report names none.
pub fn report_record(id: u128, report: PlannerReport, fallback_source: u128, now: i128) -> (r: MemoryRecord)
    ensures
        r.id == id,
        r.kind == MemoryKind::PlannerReport,
        r.source_id == match report.execution_id {
            Some(e) => e,
            None => fallback_source,
        },
        r.workspace_id == report.plan.workspace_id,
        r.goal@ == report.plan.goal@,
        r.status == if report.error is None && report.completed@.len() > 0 {
            MemoryStatus::Success
        } else {
            MemoryStatus::Failed
        },
        r.plan == Some(report.plan),
        strings_view(r.steps@) == task_descriptions(report.plan.tasks@),
        strings_view(r.reasoning@) == seq![
            report_note(
                report.completed@.len() as nat,
                report.replaced@.len() as nat,
                report.replan_count as nat,
            ),
        ],
        strings_view(r.tools_used@) == task_tools(report.plan.tasks@, TaskFilter::All),
        strings_view(r.failed_steps@) == task_tools(report.plan.tasks@, TaskFilter::Listed(report.replaced@)),
        r.error == report.error,
        r.outcome.steps == report.plan.tasks@.len(),
        r.outcome.completed == report.completed@.len(),
        r.outcome.replaced == report.replaced@.len(),
        r.outcome.replan_count == report.replan_count,
        r.outcome.plans_attempted == 1,
        r.outcome.duration_seconds == 0,
        r.created_at == now && r.updated_at == now,
        fresh_lifecycle(r),
{
    let outcome = outcome_from_report(&report);
    let (descriptions, tools, failed) = task_summaries(&report.plan.tasks, Some(&report.replaced));
    let status = if report.error.is_none() && report.completed.len() > 0 {
        MemoryStatus::Success
    } else {
        MemoryStatus::Failed
    };
    let mut note: Vec<char> = Vec::new();
    push_str(&mut note, "Planner report: ");
    push_decimal(report.completed.len() as u64, &mut note);
    push_str(&mut note, " completed, ");
    push_decimal(report.replaced.len() as u64, &mut note);
    push_str(&mut note, " replaced, ");
    push_decimal(report.replan_count as u64, &mut note);
    push_str(&mut note, " replans");
    let mut reasoning: Vec<String> = Vec::new();
    reasoning.push(string_of(note.as_slice()));
    proof {
        assert(strings_view(reasoning@) =~= seq![
            report_note(
                report.completed@.len() as nat,
                report.replaced@.len() as nat,
                report.replan_count as nat,
            ),
        ]);
    }
    let source = match report.execution_id {
        Some(e) => e,
        None => fallback_source,
    };
    let PlannerReport { plan, error, .. } = report;
    let goal = plan.goal.clone();
    MemoryRecord {
        id,
        kind: MemoryKind::PlannerReport,
        source_id: source,
        workspace_id: plan.workspace_id,
        goal,
        status,
        plan: Some(plan),
        steps: descriptions,
        reasoning,
        tools_used: tools,
        failed_steps: failed,
        error,
        outcome,
        replay_count: 0,
        created_at: now,
        updated_at: now,
        retention: RetentionPolicy::Permanent,
        retention_until: None,
        archived_at: None,
        expired_at: None,
        summary: None,
        compressed_at: None,
        version: 1,
        parent_id: None,
    }
}

/// "{phase}: {message}" for each reasoning event, in order.
pub open spec fn reasoning_lines(events: Seq<ReasoningEvent>) -> Seq<Seq<char>>
    decreases events.len(),
{
    if events.len() == 0 {
        Seq::empty()
    } else {
        reasoning_lines(events.drop_last()).push(phase_text(events.last().phase) + ": "@ + events.last().message@)
    }
}

/// The memory status of a finished session.
pub open spec fn session_memory_status(s: AutonomousStatus) -> MemoryStatus {
    match s {
        AutonomousStatus::Completed => MemoryStatus::Success,
        AutonomousStatus::Failed => MemoryStatus::Failed,
        _ => MemoryStatus::Cancelled,
    }
}

/// The memory record of a finished autonomous session: its current plan's
/// task descriptions and tools, the tools of the tasks left unfinished, the
/// reasoning timeline, and the session's accounting. It is dated at the
/// session's last update.
pub fn session_record(id: u128, progress: AutonomousSessionProgress) -> (r: MemoryRecord)
    requires
        progress.steps_completed <= usize::MAX,
        progress.replans_used <= usize::MAX,
    ensures
        r.id == id,
        r.kind == MemoryKind::AutonomousSession,
        r.source_id == progress.session_id,
        r.workspace_id == progress.workspace_id,
        r.goal == progress.goal,
        r.status == session_memory_status(progress.status),
        r.plan == progress.current_plan,
        strings_view(r.steps@) == match progress.current_plan {
            Some(p) => task_descriptions(p.tasks@),
            None => Seq::empty(),
        },
        strings_view(r.tools_used@) == match progress.current_plan {
            Some(p) => task_tools(p.tasks@, TaskFilter::All),
            None => Seq::empty(),
        },
        strings_view(r.failed_steps@) == match progress.current_plan {
            Some(p) => task_tools(p.tasks@, TaskFilter::Unfinished),
            None => Seq::empty(),
        },
        strings_view(r.reasoning@) == reasoning_lines(progress.reasoning@),
        r.error == progress.error,
        r.outcome.steps == progress.steps_completed,
        r.outcome.completed == progress.steps_completed,
        r.outcome.replaced == progress.replans_used,
        r.outcome.replan_count == progress.replans_used,
        r.outcome.retries_used == progress.retries_used,
        r.outcome.plans_attempted == progress.plans_attempted,
        r.outcome.duration_seconds == 0,
        r.created_at == progress.updated_at && r.updated_at == progress.updated_at,
        fresh_lifecycle(r),
{
    let (steps, tools, failed) = match &progress.current_plan {
        Some(p) => task_summaries(&p.tasks, None),
        None => {
            let e1: Vec<String> = Vec::new();
            let e2: Vec<String> = Vec::new();
            let e3: Vec<String> = Vec::new();
            proof {
                assert(strings_view(e1@) =~= Seq::<Seq<char>>::empty());
            }
            (e1, e2, e3)
        },
    };
    let mut reasoning: Vec<String> = Vec::new();
    let mut i: usize = 0;
    while i < progress.reasoning.len()
        invariant
            i <= progress.reasoning@.len(),
            strings_view(reasoning@) == reasoning_lines(progress.reasoning@.take(i as int)),
        decreases progress.reasoning.len() - i,
    {
        let event = &progress.reasoning[i];
        proof {
            assert(progress.reasoning@.take(i + 1).drop_last() =~= progress.reasoning@.take(i as int));
            assert(progress.reasoning@.take(i + 1).last() == *event);
        }
        let mut line: Vec<char> = Vec::new();
        push_str(&mut line, event.phase.as_str());
        push_str(&mut line, ": ");
        push_str(&mut line, event.message.as_str());
        let ghost r0 = reasoning@;
        reasoning.push(string_of(line.as_slice()));
        proof {
            assert(strings_view(reasoning@) =~= strings_view(r0).push(
                phase_text(event.phase) + ": "@ + event.message@,
            ));
        }
        i = i + 1;
    }
    proof {
        assert(progress.reasoning@.take(i as int) =~= progress.reasoning@);
    }
    let status = match progress.status {
        AutonomousStatus::Completed => MemoryStatus::Success,
        AutonomousStatus::Failed => MemoryStatus::Failed,
        _ => MemoryStatus::Cancelled,
    };
    let steps_completed = progress.steps_completed as usize;
    let replans_used = progress.replans_used as usize;
    let AutonomousSessionProgress {
        session_id,
        workspace_id,
        goal,
        current_plan,
        error,
        retries_used,
        plans_attempted,
        updated_at,
        ..
    } = progress;
    MemoryRecord {
        id,
        kind: MemoryKind::AutonomousSession,
        source_id: session_id,
        workspace_id,
        goal,
        status,
        plan: current_plan,
        steps,
        reasoning,
        tools_used: tools,
        failed_steps: failed,
        error,
        outcome: MemoryOutcome {
            steps: steps_completed,
            completed: steps_completed,
            replaced: replans_used,
            replan_count: replans_used,
            retries_used,
            plans_attempted,
            duration_seconds: 0,
        },
        replay_count: 0,
        created_at: updated_at,
        updated_at,
        retention: RetentionPolicy::Permanent,
        retention_until: None,
        archived_at: None,
        expired_at: None,
        summary: None,
        compressed_at: None,
        version: 1,
        parent_id: None,
    }
}

} // verus!
