//! Execution plans: a goal broken into tasks that form a dependency graph,
//! with conditional gates on the outcome of earlier tasks.

use std::collections::HashMap;
use vstd::prelude::*;
use crate::graph::{deps_in_range, deps_view, distinct_nodes, is_linearization, kahn_order};
use crate::json::{Json, JsonView};
use crate::order::{lemma_lex_antisymmetric, lemma_lex_reflexive, lemma_lex_total, lemma_lex_transitive, lex_le, string_le};
use crate::ids::{id_text, new_id, now_nanos, uuid_text};
use crate::text::{blank, copy_strings, is_blank, strings_view};
use crate::tools::{contains_name, contains_string, ToolDefinition, ToolPermissionLevel};

verus! {

/// Conditional execution gate of a task, naming the predecessor task id.
#[derive(Clone, Copy, PartialEq, Eq, Structural)]
pub enum PlanGate {
    /// Run only when the predecessor succeeded.
    AfterSuccess(u128),
    /// Run only when the predecessor failed or was cancelled.
    AfterFailure(u128),
}

/// Approval state of a generated plan.
#[derive(Clone, Copy, PartialEq, Eq, Structural)]
pub enum PlanApprovalStatus {
    Pending,
    Approved,
    Rejected,
}

/// Outcome of invoking a tool for a task.
#[derive(Clone, Copy, PartialEq, Eq, Structural)]
pub enum ToolInvocationStatus {
    Pending,
    Running,
    Success,
    Failed,
    Cancelled,
}

/// One step of a plan.
pub struct PlanTask {
    pub id: u128,
    pub description: String,
    /// Ids of the tasks this one depends on.
    pub dependencies: Vec<u128>,
    pub estimated_minutes: i32,
    pub required_files: Vec<String>,
    pub tool_name: Option<String>,
    pub arguments: Option<Json>,
    pub completed: bool,
    pub condition: Option<PlanGate>,
}

/// The mathematical value of a [`PlanTask`].
pub struct PlanTaskView {
    pub id: u128,
    pub description: Seq<char>,
    pub dependencies: Seq<u128>,
    pub estimated_minutes: i32,
    pub required_files: Seq<Seq<char>>,
    pub tool_name: Option<Seq<char>>,
    pub arguments: Option<JsonView>,
    pub completed: bool,
    pub condition: Option<PlanGate>,
}

/// The view of an optional string.
pub open spec fn opt_string_view(o: Option<String>) -> Option<Seq<char>> {
    match o {
        Some(s) => Some(s@),
        None => None,
    }
}

/// The view of an optional JSON value.
pub open spec fn opt_json_view(o: Option<Json>) -> Option<JsonView> {
    match o {
        Some(j) => Some(j@),
        None => None,
    }
}

impl View for PlanTask {
    type V = PlanTaskView;

    open spec fn view(&self) -> PlanTaskView {
        PlanTaskView {
            id: self.id,
            description: self.description@,
            dependencies: self.dependencies@,
            estimated_minutes: self.estimated_minutes,
            required_files: strings_view(self.required_files@),
            tool_name: opt_string_view(self.tool_name),
            arguments: opt_json_view(self.arguments),
            completed: self.completed,
            condition: self.condition,
        }
    }
}

/// A copy of an optional string.
pub fn copy_opt_string(o: &Option<String>) -> (r: Option<String>)
    ensures
        opt_string_view(r) == opt_string_view(*o),
{
    match o {
        Some(s) => Some(s.clone()),
        None => None,
    }
}

/// A copy of an optional JSON value.
pub fn copy_opt_json(o: &Option<Json>) -> (r: Option<Json>)
    ensures
        opt_json_view(r) == opt_json_view(*o),
{
    match o {
        Some(j) => Some(j.copy()),
        None => None,
    }
}

impl PlanTask {
    /// A copy of the task.
    pub fn copy(&self) -> (r: PlanTask)
        ensures
            r@ == self@,
    {
        let files = copy_strings(&self.required_files);
        assert(strings_view(files@) =~= strings_view(self.required_files@));
        let deps = self.dependencies.clone();
        assert(deps@ =~= self.dependencies@);
        PlanTask {
            id: self.id,
            description: self.description.clone(),
            dependencies: deps,
            estimated_minutes: self.estimated_minutes,
            required_files: files,
            tool_name: copy_opt_string(&self.tool_name),
            arguments: copy_opt_json(&self.arguments),
            completed: self.completed,
            condition: self.condition,
        }
    }
}

/// The views of a list of tasks.
pub open spec fn tasks_view(tasks: Seq<PlanTask>) -> Seq<PlanTaskView> {
    tasks.map_values(|t: PlanTask| t@)
}

// ---------------------------------------------------------------------
// Dependency graph
// ---------------------------------------------------------------------

/// Task ids are unique within a plan.
pub open spec fn unique_ids(ts: Seq<PlanTaskView>) -> bool {
    forall|i: int, j: int| 0 <= i < ts.len() && 0 <= j < ts.len() && i != j ==> ts[i].id != ts[j].id
}

/// Whether no two tasks carry the same id.
pub fn has_unique_task_ids(tasks: &Vec<PlanTask>) -> (r: bool)
    ensures
        r == unique_ids(tasks_view(tasks@)),
{
    let ghost tv = tasks_view(tasks@);
    let mut i: usize = 0;
    while i < tasks.len()
        invariant
            tv == tasks_view(tasks@),
            tv.len() == tasks@.len(),
            forall|k: int| 0 <= k < tasks@.len() ==> #[trigger] tv[k] == tasks@[k]@,
            i <= tasks@.len(),
            forall|a: int, b: int| 0 <= a < i && 0 <= b < tv.len() && a != b ==> tv[a].id != tv[b].id,
        decreases tasks@.len() - i,
    {
        let mut j: usize = 0;
        while j < tasks.len()
            invariant
                tv == tasks_view(tasks@),
                tv.len() == tasks@.len(),
                forall|k: int| 0 <= k < tasks@.len() ==> #[trigger] tv[k] == tasks@[k]@,
                i < tasks@.len(),
                j <= tasks@.len(),
                forall|a: int, b: int| 0 <= a < i && 0 <= b < tv.len() && a != b ==> tv[a].id != tv[b].id,
                forall|b: int| 0 <= b < j && b != i ==> tv[i as int].id != tv[b].id,
            decreases tasks@.len() - j,
        {
            if j != i && tasks[i].id == tasks[j].id {
                proof {
                    assert(tv[i as int].id == tv[j as int].id);
                }
                return false;
            }
            j = j + 1;
        }
        i = i + 1;
    }
    true
}

/// Some task of the plan carries this id.
pub open spec fn has_id(ts: Seq<PlanTaskView>, id: u128) -> bool {
    exists|j: int| 0 <= j < ts.len() && ts[j].id == id
}

/// `order` lists every task of `ts` exactly once (as a rearrangement of
/// the positions of `ts`).
pub open spec fn is_rearrangement(ts: Seq<PlanTaskView>, order: Seq<PlanTaskView>) -> bool {
    exists|pos: Seq<int>| #[trigger] rearranges_by(ts, order, pos)
}

/// `order[p]` is `ts[pos[p]]`, with `pos` naming each position of `ts` once.
pub open spec fn rearranges_by(ts: Seq<PlanTaskView>, order: Seq<PlanTaskView>, pos: Seq<int>) -> bool {
    &&& pos.len() == ts.len()
    &&& order.len() == ts.len()
    &&& forall|p: int| 0 <= p < pos.len() ==> 0 <= #[trigger] pos[p] < ts.len()
    &&& forall|p: int, q: int| 0 <= p < q < pos.len() ==> pos[p] != pos[q]
    &&& forall|p: int| 0 <= p < pos.len() ==> order[p] == ts[#[trigger] pos[p]]
}

/// Every dependency of a task in `order` that names a task of the plan is
/// listed earlier in `order`.
pub open spec fn respects_dependencies(ts: Seq<PlanTaskView>, order: Seq<PlanTaskView>) -> bool {
    forall|p: int, k: int|
        0 <= p < order.len() && 0 <= k < order[p].dependencies.len() && has_id(
            ts,
            #[trigger] order[p].dependencies[k],
        ) ==> exists|q: int| 0 <= q < p && order[q].id == order[p].dependencies[k]
}

/// `order` is a linearization of the plan's dependency graph.
pub open spec fn is_topological_order(ts: Seq<PlanTaskView>, order: Seq<PlanTaskView>) -> bool {
    is_rearrangement(ts, order) && respects_dependencies(ts, order)
}

/// The dependency graph of the plan (edges to ids outside the plan are
/// ignored) has no cycle: some linearization exists.
pub open spec fn is_acyclic(ts: Seq<PlanTaskView>) -> bool {
    exists|order: Seq<PlanTaskView>| is_topological_order(ts, order)
}

/// Errors surfaced by the planning pipeline.
pub enum PlannerError {
    /// The planner was cancelled.
    Cancelled,
    /// The goal is empty.
    EmptyGoal,
    /// No tools are available for this goal/workspace.
    NoToolsAvailable,
    /// The plan contains a dependency cycle.
    DependencyCycle,
    /// Execution failed with the given message.
    Execution(String),
    /// A storage error with the given message.
    Database(String),
}

/// `d` lists, for each task, the positions of the tasks its dependencies
/// name (dependencies on ids outside the plan are left out).
pub open spec fn dependency_positions(ts: Seq<PlanTaskView>, d: Seq<Seq<usize>>) -> bool {
    &&& d.len() == ts.len()
    &&& forall|i: int, k: int|
        0 <= i < ts.len() && 0 <= k < d[i].len() ==> #[trigger] d[i][k] < ts.len()
            && ts[i].dependencies.contains(ts[d[i][k] as int].id)
    &&& forall|i: int, kk: int|
        0 <= i < ts.len() && 0 <= kk < ts[i].dependencies.len() && has_id(
            ts,
            #[trigger] ts[i].dependencies[kk],
        ) ==> exists|k: int| 0 <= k < d[i].len() && ts[d[i][k] as int].id == ts[i].dependencies[kk]
}

/// Position of the task carrying `id`, if any.
fn position_of(tasks: &Vec<PlanTask>, id: u128) -> (r: Option<usize>)
    ensures
        match r {
            Some(j) => j < tasks@.len() && tasks@[j as int].id == id,
            None => !has_id(tasks_view(tasks@), id),
        },
{
    let mut j: usize = 0;
    while j < tasks.len()
        invariant
            j <= tasks@.len(),
            forall|q: int| 0 <= q < j ==> tasks@[q].id != id,
        decreases tasks.len() - j,
    {
        if tasks[j].id == id {
            return Some(j);
        }
        j = j + 1;
    }
    proof {
        if has_id(tasks_view(tasks@), id) {
            let q = choose|q: int| 0 <= q < tasks_view(tasks@).len() && tasks_view(tasks@)[q].id == id;
            assert(tasks@[q].id == id);
        }
    }
    None
}

/// For each task, the positions of the tasks its dependencies name.
fn dependency_lists(tasks: &Vec<PlanTask>) -> (d: Vec<Vec<usize>>)
    ensures
        dependency_positions(tasks_view(tasks@), deps_view(d@)),
{
    let ghost ts = tasks_view(tasks@);
    let mut d: Vec<Vec<usize>> = Vec::new();
    let mut i: usize = 0;
    while i < tasks.len()
        invariant
            ts == tasks_view(tasks@),
            i <= tasks@.len(),
            d@.len() == i,
            forall|a: int, k: int|
                0 <= a < i && 0 <= k < d@[a]@.len() ==> #[trigger] d@[a]@[k] < ts.len()
                    && ts[a].dependencies.contains(ts[d@[a]@[k] as int].id),
            forall|a: int, kk: int|
                0 <= a < i && 0 <= kk < ts[a].dependencies.len() && has_id(
                    ts,
                    #[trigger] ts[a].dependencies[kk],
                ) ==> exists|k: int| 0 <= k < d@[a]@.len() && ts[d@[a]@[k] as int].id == ts[a].dependencies[kk],
        decreases tasks.len() - i,
    {
        let deps = &tasks[i].dependencies;
        let mut row: Vec<usize> = Vec::new();
        let mut kk: usize = 0;
        while kk < deps.len()
            invariant
                ts == tasks_view(tasks@),
                i < tasks@.len(),
                deps@ == ts[i as int].dependencies,
                kk <= deps@.len(),
                forall|k: int|
                    0 <= k < row@.len() ==> #[trigger] row@[k] < ts.len()
                        && ts[i as int].dependencies.contains(ts[row@[k] as int].id),
                forall|q: int|
                    0 <= q < kk && has_id(ts, #[trigger] deps@[q]) ==> exists|k: int|
                        0 <= k < row@.len() && ts[row@[k] as int].id == deps@[q],
            decreases deps.len() - kk,
        {
            match position_of(tasks, deps[kk]) {
                Some(j) => {
                    let ghost before = row@;
                    row.push(j);
                    proof {
                        assert(deps@[kk as int] == ts[j as int].id);
                        assert forall|q: int|
                            0 <= q < kk + 1 && has_id(ts, #[trigger] deps@[q]) implies exists|k: int|
                            0 <= k < row@.len() && ts[row@[k] as int].id == deps@[q] by {
                            if q < kk {
                                let k = choose|k: int| 0 <= k < before.len() && ts[before[k] as int].id == deps@[q];
                                assert(row@[k] == before[k]);
                            } else {
                                assert(row@[before.len() as int] == j);
                            }
                        }
                    }
                },
                None => {},
            }
            kk = kk + 1;
        }
        let ghost before = d@;
        d.push(row);
        proof {
            assert forall|a: int, kk: int|
                0 <= a < i + 1 && 0 <= kk < ts[a].dependencies.len() && has_id(
                    ts,
                    #[trigger] ts[a].dependencies[kk],
                ) implies exists|k: int| 0 <= k < d@[a]@.len() && ts[d@[a]@[k] as int].id == ts[a].dependencies[kk] by {
                if a < i {
                    assert(d@[a] == before[a]);
                } else {
                    assert(d@[a]@ == row@);
                    assert(deps@[kk] == ts[a].dependencies[kk]);
                }
            }
        }
        i = i + 1;
    }
    proof {
        let dv = deps_view(d@);
        assert(dv.len() == ts.len());
        assert forall|a: int| 0 <= a < d@.len() implies #[trigger] dv[a] == d@[a]@ by {}
        assert forall|a: int, kk: int|
            0 <= a < ts.len() && 0 <= kk < ts[a].dependencies.len() && has_id(
                ts,
                #[trigger] ts[a].dependencies[kk],
            ) implies exists|k: int| 0 <= k < dv[a].len() && ts[dv[a][k] as int].id == ts[a].dependencies[kk] by {
            assert(dv[a] == d@[a]@);
        }
    }
    d
}

/// The position-level linearization `o` read back as tasks.
proof fn lemma_linearization_orders_tasks(
    ts: Seq<PlanTaskView>,
    d: Seq<Seq<usize>>,
    o: Seq<usize>,
)
    requires
        dependency_positions(ts, d),
        is_linearization(d, o),
    ensures
        is_topological_order(ts, o.map_values(|j: usize| ts[j as int])),
{
    let out = o.map_values(|j: usize| ts[j as int]);
    let pos = o.map_values(|j: usize| j as int);
    assert(pos.len() == ts.len());
    assert forall|p: int| 0 <= p < pos.len() implies out[p] == ts[#[trigger] pos[p]] by {}
    assert forall|p: int, q: int| 0 <= p < q < pos.len() implies pos[p] != pos[q] by {}
    assert(rearranges_by(ts, out, pos));
    assert forall|p: int, k: int|
        0 <= p < out.len() && 0 <= k < out[p].dependencies.len() && has_id(
            ts,
            #[trigger] out[p].dependencies[k],
        ) implies exists|q: int| 0 <= q < p && out[q].id == out[p].dependencies[k] by {
        let x = o[p];
        assert(out[p] == ts[x as int]);
        assert(ts[x as int].dependencies[k] == out[p].dependencies[k]);
        let k2 = choose|k2: int| 0 <= k2 < d[x as int].len() && ts[d[x as int][k2] as int].id == ts[x as int].dependencies[k];
        let w = d[o[p] as int][k2];
        assert(o.take(p).contains(w));
        let q = choose|q: int| 0 <= q < o.take(p).len() && #[trigger] o.take(p)[q] == w;
        assert(o[q] == w);
        assert(out[q].id == out[p].dependencies[k]);
    }
}

/// A task-level topological order read back as positions.
proof fn lemma_order_gives_linearization(
    ts: Seq<PlanTaskView>,
    d: Seq<Seq<usize>>,
    out: Seq<PlanTaskView>,
)
    requires
        unique_ids(ts),
        ts.len() <= usize::MAX,
        dependency_positions(ts, d),
        is_topological_order(ts, out),
    ensures
        exists|o: Seq<usize>| #[trigger] is_linearization(d, o),
{
    let pos = choose|pos: Seq<int>| #[trigger] rearranges_by(ts, out, pos);
    let o = pos.map_values(|x: int| x as usize);
    assert forall|p: int| 0 <= p < o.len() implies #[trigger] o[p] < d.len() by {
        assert(0 <= pos[p] < ts.len());
    }
    assert forall|p: int, q: int| 0 <= p < q < o.len() implies o[p] != o[q] by {
        assert(0 <= pos[p] < ts.len());
        assert(0 <= pos[q] < ts.len());
        assert(pos[p] != pos[q]);
    }
    assert forall|p: int, k: int|
        #![trigger d[o[p] as int][k]]
        0 <= p < o.len() && 0 <= k < d[o[p] as int].len() implies o.take(p).contains(
            d[o[p] as int][k],
        ) by {
        let x = pos[p];
        assert(0 <= x < ts.len());
        assert(o[p] as int == x);
        let j = d[x][k];
        assert(j < ts.len());
        assert(ts[x].dependencies.contains(ts[j as int].id));
        let kk = choose|kk: int| 0 <= kk < ts[x].dependencies.len() && ts[x].dependencies[kk] == ts[j as int].id;
        assert(out[p] == ts[x]);
        assert(has_id(ts, out[p].dependencies[kk]));
        let q = choose|q: int| 0 <= q < p && out[q].id == out[p].dependencies[kk];
        assert(out[q] == ts[pos[q]]);
        assert(0 <= pos[q] < ts.len());
        assert(pos[q] == j as int);
        assert(o.take(p)[q] == j);
    }
    assert(is_linearization(d, o));
}

/// Orders the tasks so that every task comes after the tasks it depends on
/// (Kahn's algorithm; dependencies naming ids outside the plan are
/// ignored). Fails with [`PlannerError::DependencyCycle`] exactly when no
/// such order exists.
pub fn topological_order(tasks: &Vec<PlanTask>) -> (r: Result<Vec<PlanTask>, PlannerError>)
    requires
        unique_ids(tasks_view(tasks@)),
    ensures
        r is Ok <==> is_acyclic(tasks_view(tasks@)),
        match r {
            Ok(out) => is_topological_order(tasks_view(tasks@), tasks_view(out@)),
            Err(e) => e is DependencyCycle,
        },
{
    let ghost ts = tasks_view(tasks@);
    let d = dependency_lists(tasks);
    proof {
        assert forall|i: int, k: int|
            0 <= i < deps_view(d@).len() && 0 <= k < deps_view(d@)[i].len() implies #[trigger] deps_view(d@)[i][k] < deps_view(d@).len() by {}
    }
    let order = kahn_order(&d);
    if order.len() != tasks.len() {
        proof {
            if is_acyclic(ts) {
                let out = choose|out: Seq<PlanTaskView>| is_topological_order(ts, out);
                lemma_order_gives_linearization(ts, deps_view(d@), out);
            }
        }
        return Err(PlannerError::DependencyCycle);
    }
    let mut out: Vec<PlanTask> = Vec::new();
    let mut p: usize = 0;
    while p < order.len()
        invariant
            ts == tasks_view(tasks@),
            order@.len() == tasks@.len(),
            distinct_nodes(order@, tasks@.len() as nat),
            p <= order@.len(),
            out@.len() == p,
            forall|q: int| 0 <= q < p ==> #[trigger] out@[q]@ == ts[order@[q] as int],
        decreases order.len() - p,
    {
        let t = tasks[order[p]].copy();
        out.push(t);
        p = p + 1;
    }
    proof {
        lemma_linearization_orders_tasks(ts, deps_view(d@), order@);
        assert(tasks_view(out@) =~= order@.map_values(|j: usize| ts[j as int]));
    }
    Ok(out)
}

/// A multi-step plan for a goal.
pub struct ExecutionPlan {
    pub id: u128,
    pub workspace_id: Option<u128>,
    pub goal: String,
    pub tasks: Vec<PlanTask>,
    pub estimated_duration_minutes: i32,
    pub required_files: Vec<String>,
    pub checkpoints: Vec<String>,
    /// Planner confidence in thousandths (800 is 0.8).
    pub confidence: u32,
    pub reasoning: String,
    pub status: PlanApprovalStatus,
    /// Creation time, nanoseconds since the Unix epoch.
    pub created_at: i128,
}

/// The steps of the built-in workflow for the available tool names: each a
/// (tool name, description) pair.
pub open spec fn workflow_steps(av: Seq<Seq<char>>) -> Seq<(Seq<char>, Seq<char>)> {
    let has = |n: Seq<char>| av.contains(n);
    let first = if has("list_workspaces"@) {
        seq![("list_workspaces"@, "List active workspaces"@)]
    } else if has("get_active_workspace"@) {
        seq![("get_active_workspace"@, "Get the active workspace"@)]
    } else {
        Seq::empty()
    };
    let second = if has("get_recent_events"@) {
        seq![("get_recent_events"@, "Gather recent workspace activity"@)]
    } else if has("search_timeline"@) {
        seq![("search_timeline"@, "Search the workspace timeline"@)]
    } else {
        Seq::empty()
    };
    let third = if has("get_session_summary"@) {
        seq![("get_session_summary"@, "Summarize the current session"@)]
    } else {
        Seq::empty()
    };
    let fourth = if has("resume_workspace"@) {
        seq![("resume_workspace"@, "Resume focused work"@)]
    } else {
        Seq::empty()
    };
    first + second + third + fourth
}

/// The views of (tool name, description) pairs.
pub open spec fn pairs_view(s: Seq<(String, String)>) -> Seq<(Seq<char>, Seq<char>)> {
    s.map_values(|p: (String, String)| (p.0@, p.1@))
}

fn push_step(steps: &mut Vec<(String, String)>, name: &str, description: &str)
    ensures
        pairs_view(final(steps)@) == pairs_view(old(steps)@).push((name@, description@)),
{
    steps.push((String::from_str(name), String::from_str(description)));
    proof {
        assert(pairs_view(final(steps)@) =~= pairs_view(old(steps)@).push((name@, description@)));
    }
}

/// A deterministic, dependency-aware list of steps built from the tools
/// available: an optional workspace lookup, an optional activity lookup, an
/// optional session summary, and `resume_workspace` as the tail step.
pub fn workflow_plan(available: &Vec<String>) -> (r: Vec<(String, String)>)
    ensures
        pairs_view(r@) == workflow_steps(strings_view(available@)),
{
    let ghost av = strings_view(available@);
    let mut steps: Vec<(String, String)> = Vec::new();
    if contains_name(available, "list_workspaces") {
        push_step(&mut steps, "list_workspaces", "List active workspaces");
    } else if contains_name(available, "get_active_workspace") {
        push_step(&mut steps, "get_active_workspace", "Get the active workspace");
    }
    let ghost s1 = pairs_view(steps@);
    if contains_name(available, "get_recent_events") {
        push_step(&mut steps, "get_recent_events", "Gather recent workspace activity");
    } else if contains_name(available, "search_timeline") {
        push_step(&mut steps, "search_timeline", "Search the workspace timeline");
    }
    let ghost s2 = pairs_view(steps@);
    if contains_name(available, "get_session_summary") {
        push_step(&mut steps, "get_session_summary", "Summarize the current session");
    }
    let ghost s3 = pairs_view(steps@);
    if contains_name(available, "resume_workspace") {
        push_step(&mut steps, "resume_workspace", "Resume focused work");
    }
    proof {
        assert(pairs_view(steps@) =~= workflow_steps(av));
    }
    steps
}

/// The tasks of the chain-shaped plan for `steps` with task ids `ids`: each
/// task depends on the one before it, and a `resume_workspace` task after
/// the first is gated on the success of its predecessor.
pub open spec fn chain_tasks(steps: Seq<(Seq<char>, Seq<char>)>, ids: Seq<u128>) -> Seq<PlanTaskView> {
    Seq::new(
        steps.len(),
        |i: int|
            PlanTaskView {
                id: ids[i],
                description: steps[i].1,
                dependencies: if i == 0 {
                    Seq::empty()
                } else {
                    seq![ids[i - 1]]
                },
                estimated_minutes: 5,
                required_files: Seq::empty(),
                tool_name: Some(steps[i].0),
                arguments: None,
                completed: false,
                condition: if i > 0 && steps[i].0 == "resume_workspace"@ {
                    Some(PlanGate::AfterSuccess(ids[i - 1]))
                } else {
                    None
                },
            },
    )
}

/// In a chain plan every task after the first depends on exactly the task
/// before it, the first depends on none, and a `resume_workspace` task
/// after the first runs only once the task before it succeeded.
pub proof fn lemma_chain_resume_waits_for_success(steps: Seq<(Seq<char>, Seq<char>)>, ids: Seq<u128>, i: int)
    requires
        ids.len() == steps.len(),
        0 <= i < steps.len(),
    ensures
        chain_tasks(steps, ids)[i].id == ids[i],
        chain_tasks(steps, ids)[i].tool_name == Some(steps[i].0),
        i == 0 ==> chain_tasks(steps, ids)[i].dependencies.len() == 0,
        i > 0 ==> chain_tasks(steps, ids)[i].dependencies == seq![chain_tasks(steps, ids)[i - 1].id],
        i > 0 && chain_tasks(steps, ids)[i].tool_name == Some("resume_workspace"@) ==> chain_tasks(
            steps,
            ids,
        )[i].condition == Some(PlanGate::AfterSuccess(chain_tasks(steps, ids)[i - 1].id)),
        !(i > 0 && chain_tasks(steps, ids)[i].tool_name == Some("resume_workspace"@)) ==> chain_tasks(
            steps,
            ids,
        )[i].condition is None,
{
}

/// Builds the chain-shaped tasks for the workflow steps, with the given ids.
pub fn chain_plan_tasks(steps: &Vec<(String, String)>, ids: &Vec<u128>) -> (r: Vec<PlanTask>)
    requires
        ids@.len() == steps@.len(),
    ensures
        tasks_view(r@) == chain_tasks(pairs_view(steps@), ids@),
        forall|i: int|
            0 < i < r@.len() && (#[trigger] tasks_view(r@)[i]).tool_name == Some("resume_workspace"@) ==> tasks_view(
                r@,
            )[i].condition == Some(PlanGate::AfterSuccess(r@[i - 1].id)),
        forall|i: int| 0 < i < r@.len() ==> (#[trigger] tasks_view(r@)[i]).dependencies == seq![r@[i - 1].id],
{
    let ghost sv = pairs_view(steps@);
    let mut tasks: Vec<PlanTask> = Vec::new();
    let mut i: usize = 0;
    while i < steps.len()
        invariant
            sv == pairs_view(steps@),
            ids@.len() == steps@.len(),
            i <= steps@.len(),
            tasks@.len() == i,
            forall|k: int| 0 <= k < i ==> #[trigger] tasks@[k]@ == chain_tasks(sv, ids@)[k],
        decreases steps.len() - i,
    {
        let name = steps[i].0.clone();
        let is_resume = str_eq_literal(&name, "resume_workspace");
        let mut dependencies: Vec<u128> = Vec::new();
        let mut condition: Option<PlanGate> = None;
        if i > 0 {
            dependencies.push(ids[i - 1]);
            if is_resume {
                condition = Some(PlanGate::AfterSuccess(ids[i - 1]));
            }
        }
        let files: Vec<String> = Vec::new();
        let task = PlanTask {
            id: ids[i],
            description: steps[i].1.clone(),
            dependencies,
            estimated_minutes: 5,
            required_files: files,
            tool_name: Some(name),
            arguments: None,
            completed: false,
            condition,
        };
        proof {
            assert(strings_view(files@) =~= Seq::<Seq<char>>::empty());
            if i == 0 {
                assert(task@.dependencies =~= Seq::<u128>::empty());
            } else {
                assert(task@.dependencies =~= seq![ids@[i - 1]]);
            }
            assert(task@ == chain_tasks(sv, ids@)[i as int]);
        }
        tasks.push(task);
        i = i + 1;
    }
    proof {
        assert(tasks_view(tasks@) =~= chain_tasks(sv, ids@));
        lemma_chain_plan_gates(sv, ids@, tasks@);
    }
    tasks
}

/// The gates and dependencies of tasks built as a chain.
proof fn lemma_chain_plan_gates(steps: Seq<(Seq<char>, Seq<char>)>, ids: Seq<u128>, tasks: Seq<PlanTask>)
    requires
        ids.len() == steps.len(),
        tasks_view(tasks) == chain_tasks(steps, ids),
    ensures
        forall|i: int|
            0 < i < tasks.len() && (#[trigger] tasks_view(tasks)[i]).tool_name == Some("resume_workspace"@) ==> tasks_view(
                tasks,
            )[i].condition == Some(PlanGate::AfterSuccess(tasks[i - 1].id)),
        forall|i: int| 0 < i < tasks.len() ==> (#[trigger] tasks_view(tasks)[i]).dependencies == seq![tasks[i - 1].id],
{
    assert forall|i: int| 0 < i < tasks.len() implies (#[trigger] tasks_view(tasks)[i]).dependencies == seq![
        tasks[i - 1].id,
    ] && (tasks_view(tasks)[i].tool_name == Some("resume_workspace"@) ==> tasks_view(tasks)[i].condition == Some(
        PlanGate::AfterSuccess(tasks[i - 1].id),
    )) by {
        assert(tasks_view(tasks).len() == tasks.len());
        assert(chain_tasks(steps, ids).len() == steps.len());
        lemma_chain_resume_waits_for_success(steps, ids, i);
        assert(tasks_view(tasks)[i - 1] == tasks[i - 1]@);
    }
}

/// Whether a string equals a literal.
fn str_eq_literal(s: &String, lit: &str) -> (r: bool)
    ensures
        r == (s@ == lit@),
{
    crate::text::str_eq(s.as_str(), lit)
}

/// Pairwise distinct identifiers.
pub open spec fn distinct_ids(ids: Seq<u128>) -> bool {
    forall|i: int, j: int| 0 <= i < j < ids.len() ==> ids[i] != ids[j]
}

/// A chain plan built from distinct ids has unique task ids and can be
/// linearized: its own task order respects every dependency.
pub proof fn lemma_chain_plan_is_acyclic(steps: Seq<(Seq<char>, Seq<char>)>, ids: Seq<u128>)
    requires
        ids.len() == steps.len(),
        distinct_ids(ids),
    ensures
        unique_ids(chain_tasks(steps, ids)),
        is_topological_order(chain_tasks(steps, ids), chain_tasks(steps, ids)),
        is_acyclic(chain_tasks(steps, ids)),
{
    let ts = chain_tasks(steps, ids);
    assert forall|i: int, j: int| 0 <= i < ts.len() && 0 <= j < ts.len() && i != j implies ts[i].id
        != ts[j].id by {
        if i < j {
        } else {
        }
    }
    let pos = Seq::new(ts.len(), |p: int| p);
    assert forall|p: int| 0 <= p < pos.len() implies ts[p] == ts[#[trigger] pos[p]] by {}
    assert forall|p: int| 0 <= p < pos.len() implies 0 <= #[trigger] pos[p] < ts.len() by {}
    assert forall|p: int, q: int| 0 <= p < q < pos.len() implies pos[p] != pos[q] by {}
    assert(rearranges_by(ts, ts, pos));
    assert forall|p: int, k: int|
        0 <= p < ts.len() && 0 <= k < ts[p].dependencies.len() && has_id(
            ts,
            #[trigger] ts[p].dependencies[k],
        ) implies exists|q: int| 0 <= q < p && ts[q].id == ts[p].dependencies[k] by {
        assert(ts[p - 1].id == ts[p].dependencies[k]);
    }
    assert(is_topological_order(ts, ts));
}

/// The planner over a snapshot of the tool registry.
pub struct Planner {
    pub tools: Vec<ToolDefinition>,
}

/// The names of the tools in `tools` that the registry does not deny and
/// that are not in `denied`, in registry order.
pub open spec fn allowed_names(tools: Seq<ToolDefinition>, denied: Seq<Seq<char>>) -> Seq<Seq<char>>
    decreases tools.len(),
{
    if tools.len() == 0 {
        Seq::empty()
    } else {
        let t = tools.last();
        let rest = allowed_names(tools.drop_last(), denied);
        if t.required_level != ToolPermissionLevel::Denied && !denied.contains(t.name@) {
            rest.push(t.name@)
        } else {
            rest
        }
    }
}

/// The ids of a list of tasks.
pub open spec fn task_ids(ts: Seq<PlanTaskView>) -> Seq<u128> {
    ts.map_values(|t: PlanTaskView| t.id)
}

/// The plan built for `goal` over the allowed tools, with the given ids.
pub open spec fn is_generated_plan(
    p: ExecutionPlan,
    workspace_id: Option<u128>,
    goal: Seq<char>,
    allowed: Seq<Seq<char>>,
) -> bool {
    let steps = workflow_steps(allowed);
    &&& p.workspace_id == workspace_id
    &&& p.goal@ == goal
    &&& tasks_view(p.tasks@) == chain_tasks(steps, task_ids(tasks_view(p.tasks@)))
    &&& p.estimated_duration_minutes == 5 * steps.len()
    &&& p.required_files@.len() == 0
    &&& strings_view(p.checkpoints@) == seq![
        "Context collected"@,
        "Plan steps resolved"@,
        "Action executed"@,
    ]
    &&& p.confidence == 800
    &&& p.reasoning@ == "Deterministic dependency-aware plan built from the tool registry"@
    &&& p.status == PlanApprovalStatus::Pending
}

impl Planner {
    /// Creates a planner over a snapshot of the tool registry.
    pub fn new(tools: Vec<ToolDefinition>) -> (r: Planner)
        ensures
            r.tools@ == tools@,
    {
        Planner { tools }
    }

    /// Names of the tools a goal may use: those the registry does not deny
    /// and that the permission policy (`policy_denied`) does not deny.
    pub fn available_tool_names(&self, policy_denied: &Vec<String>) -> (r: Vec<String>)
        ensures
            strings_view(r@) == allowed_names(self.tools@, strings_view(policy_denied@)),
    {
        let ghost dv = strings_view(policy_denied@);
        let mut out: Vec<String> = Vec::new();
        let mut i: usize = 0;
        while i < self.tools.len()
            invariant
                dv == strings_view(policy_denied@),
                i <= self.tools@.len(),
                strings_view(out@) == allowed_names(self.tools@.subrange(0, i as int), dv),
            decreases self.tools.len() - i,
        {
            let t = &self.tools[i];
            let denied = contains_string(policy_denied, &t.name);
            proof {
                assert(self.tools@.subrange(0, i + 1).drop_last() =~= self.tools@.subrange(0, i as int));
            }
            if t.required_level != ToolPermissionLevel::Denied && !denied {
                out.push(t.name.clone());
                proof {
                    assert(strings_view(out@) =~= allowed_names(self.tools@.subrange(0, i as int), dv).push(t.name@));
                }
            }
            i = i + 1;
        }
        proof {
            assert(self.tools@.subrange(0, self.tools@.len() as int) =~= self.tools@);
        }
        out
    }

    /// Generates a chain-shaped, dependency-aware plan for a goal from the
    /// available tools. Task and plan ids are fresh random identifiers.
    pub fn plan(
        &self,
        workspace_id: Option<u128>,
        cancelled: bool,
        goal: &str,
        policy_denied: &Vec<String>,
    ) -> (r: Result<ExecutionPlan, PlannerError>)
        ensures
            cancelled ==> r matches Err(PlannerError::Cancelled),
            !cancelled && is_blank(goal@) ==> r matches Err(PlannerError::EmptyGoal),
            !cancelled && !is_blank(goal@) && workflow_steps(
                allowed_names(self.tools@, strings_view(policy_denied@)),
            ).len() == 0 ==> r matches Err(PlannerError::NoToolsAvailable),
            !cancelled && !is_blank(goal@) && workflow_steps(
                allowed_names(self.tools@, strings_view(policy_denied@)),
            ).len() > 0 ==> r is Ok,
            r matches Ok(p) ==> is_generated_plan(
                p,
                workspace_id,
                goal@,
                allowed_names(self.tools@, strings_view(policy_denied@)),
            ),
            r matches Ok(p) ==> forall|i: int|
                0 < i < p.tasks@.len() && (#[trigger] tasks_view(p.tasks@)[i]).tool_name == Some(
                    "resume_workspace"@,
                ) ==> tasks_view(p.tasks@)[i].condition == Some(PlanGate::AfterSuccess(p.tasks@[i - 1].id)),
            r matches Ok(p) ==> forall|i: int|
                0 < i < p.tasks@.len() ==> (#[trigger] tasks_view(p.tasks@)[i]).dependencies == seq![
                    p.tasks@[i - 1].id,
                ],
    {
        if cancelled {
            return Err(PlannerError::Cancelled);
        }
        if blank(goal) {
            return Err(PlannerError::EmptyGoal);
        }
        let names = self.available_tool_names(policy_denied);
        if names.len() == 0 {
            proof {
                assert(strings_view(names@) =~= Seq::<Seq<char>>::empty());
                assert(workflow_steps(Seq::<Seq<char>>::empty()) =~= Seq::<(Seq<char>, Seq<char>)>::empty());
            }
            return Err(PlannerError::NoToolsAvailable);
        }
        let steps = workflow_plan(&names);
        if steps.len() == 0 {
            return Err(PlannerError::NoToolsAvailable);
        }
        let mut ids: Vec<u128> = Vec::new();
        let mut i: usize = 0;
        while i < steps.len()
            invariant
                i <= steps@.len(),
                ids@.len() == i,
            decreases steps.len() - i,
        {
            ids.push(new_id());
            i = i + 1;
        }
        let plan_id = new_id();
        let p = build_plan(plan_id, workspace_id, goal, &steps, &ids, now_nanos());
        proof {
            lemma_chain_plan_gates(pairs_view(steps@), ids@, p.tasks@);
        }
        Ok(p)
    }
}

/// Assembles the plan record for the workflow steps with the given ids.
pub fn build_plan(
    plan_id: u128,
    workspace_id: Option<u128>,
    goal: &str,
    steps: &Vec<(String, String)>,
    ids: &Vec<u128>,
    created_at: i128,
) -> (p: ExecutionPlan)
    requires
        ids@.len() == steps@.len(),
        5 * steps@.len() <= i32::MAX,
    ensures
        p.id == plan_id,
        p.created_at == created_at,
        task_ids(tasks_view(p.tasks@)) == ids@,
        tasks_view(p.tasks@) == chain_tasks(pairs_view(steps@), ids@),
        p.workspace_id == workspace_id,
        p.goal@ == goal@,
        p.estimated_duration_minutes == 5 * steps@.len(),
        p.required_files@.len() == 0,
        strings_view(p.checkpoints@) == seq![
            "Context collected"@,
            "Plan steps resolved"@,
            "Action executed"@,
        ],
        p.confidence == 800,
        p.reasoning@ == "Deterministic dependency-aware plan built from the tool registry"@,
        p.status == PlanApprovalStatus::Pending,
{
    let tasks = chain_plan_tasks(steps, ids);
    assert(tasks_view(tasks@).len() == tasks@.len());
    let mut total: i32 = 0;
    let mut i: usize = 0;
    while i < tasks.len()
        invariant
            tasks_view(tasks@) == chain_tasks(pairs_view(steps@), ids@),
            tasks@.len() == steps@.len(),
            5 * steps@.len() <= i32::MAX,
            i <= tasks@.len(),
            total == 5 * i,
        decreases tasks.len() - i,
    {
        assert(tasks@[i as int]@ == tasks_view(tasks@)[i as int]);
        total = total + tasks[i].estimated_minutes;
        i = i + 1;
    }
    let mut checkpoints: Vec<String> = Vec::new();
    checkpoints.push(String::from_str("Context collected"));
    checkpoints.push(String::from_str("Plan steps resolved"));
    checkpoints.push(String::from_str("Action executed"));
    proof {
        assert(strings_view(checkpoints@) =~= seq![
            "Context collected"@,
            "Plan steps resolved"@,
            "Action executed"@,
        ]);
        assert(task_ids(tasks_view(tasks@)) =~= ids@);
    }
    ExecutionPlan {
        id: plan_id,
        workspace_id,
        goal: String::from_str(goal),
        tasks,
        estimated_duration_minutes: total,
        required_files: Vec::new(),
        checkpoints,
        confidence: 800,
        reasoning: String::from_str("Deterministic dependency-aware plan built from the tool registry"),
        status: PlanApprovalStatus::Pending,
        created_at,
    }
}

// ---------------------------------------------------------------------
// Replanning
// ---------------------------------------------------------------------

/// `output` is `input` sorted by description, keeping the input order of
/// tasks with equal descriptions (a stable sort).
pub open spec fn is_description_sort(input: Seq<PlanTaskView>, output: Seq<PlanTaskView>) -> bool {
    exists|pos: Seq<int>| #[trigger] stable_sort_by(input, output, pos)
}

/// `output[p]` is `input[pos[p]]`, sorted by description, stable.
pub open spec fn stable_sort_by(input: Seq<PlanTaskView>, output: Seq<PlanTaskView>, pos: Seq<int>) -> bool {
    &&& rearranges_by(input, output, pos)
    &&& forall|p: int, q: int|
        0 <= p < q < output.len() ==> lex_le(#[trigger] output[p].description, #[trigger] output[q].description)
    &&& forall|p: int, q: int|
        0 <= p < q < output.len() && output[p].description == output[q].description ==> #[trigger] pos[p]
            < #[trigger] pos[q]
}

/// Sorts tasks by description, stably (insertion sort).
pub fn sort_by_description(input: &Vec<PlanTask>) -> (r: Vec<PlanTask>)
    ensures
        is_description_sort(tasks_view(input@), tasks_view(r@)),
{
    let ghost iv = tasks_view(input@);
    let mut out: Vec<PlanTask> = Vec::new();
    let ghost mut pos: Seq<int> = Seq::empty();
    let mut i: usize = 0;
    while i < input.len()
        invariant
            iv == tasks_view(input@),
            i <= input@.len(),
            stable_sort_by(iv.take(i as int), tasks_view(out@), pos),
        decreases input.len() - i,
    {
        let x = input[i].copy();
        let ghost ov = tasks_view(out@);
        let mut j: usize = 0;
        while j < out.len() && string_le(&out[j].description, &x.description)
            invariant
                ov == tasks_view(out@),
                j <= out@.len(),
                forall|p: int| 0 <= p < j ==> lex_le(#[trigger] ov[p].description, x@.description),
            decreases out.len() - j,
        {
            j = j + 1;
        }
        let ghost new_pos = pos.insert(j as int, i as int);
        let ghost xv = x@;
        out.insert(j, x);
        proof {
            let nv = tasks_view(out@);
            let take = iv.take(i + 1);
            assert(nv =~= ov.insert(j as int, xv));
            assert(take[i as int] == xv);
            assert forall|p: int| 0 <= p < new_pos.len() implies 0 <= #[trigger] new_pos[p] < take.len() by {
                if p < j {
                    assert(new_pos[p] == pos[p]);
                } else if p > j {
                    assert(new_pos[p] == pos[p - 1]);
                }
            }
            assert forall|p: int| 0 <= p < new_pos.len() implies nv[p] == take[#[trigger] new_pos[p]] by {
                if p < j {
                    assert(new_pos[p] == pos[p]);
                    assert(nv[p] == ov[p]);
                    assert(iv.take(i as int)[pos[p]] == take[pos[p]]);
                } else if p > j {
                    assert(new_pos[p] == pos[p - 1]);
                    assert(nv[p] == ov[p - 1]);
                    assert(iv.take(i as int)[pos[p - 1]] == take[pos[p - 1]]);
                }
            }
            assert forall|p: int, q: int| 0 <= p < q < new_pos.len() implies new_pos[p] != new_pos[q] by {
                if q < j {
                } else if p < j && q == j {
                } else if p < j {
                    assert(new_pos[q] == pos[q - 1]);
                } else if p == j {
                    assert(new_pos[q] == pos[q - 1]);
                } else {
                    assert(new_pos[q] == pos[q - 1]);
                    assert(new_pos[p] == pos[p - 1]);
                }
            }
            assert(rearranges_by(take, nv, new_pos));
            // Everything after the insertion point sorts strictly after x.
            if j < ov.len() {
                lemma_lex_total(ov[j as int].description, xv.description);
            }
            assert forall|p: int, q: int|
                0 <= p < q < nv.len() implies lex_le(#[trigger] nv[p].description, #[trigger] nv[q].description) by {
                if q < j {
                    assert(nv[p] == ov[p] && nv[q] == ov[q]);
                } else if q == j {
                    assert(nv[p] == ov[p]);
                } else if p < j {
                    assert(nv[p] == ov[p] && nv[q] == ov[q - 1]);
                    assert(lex_le(ov[p].description, ov[j as int].description));
                    assert(lex_le(ov[j as int].description, ov[q - 1].description) || j == q - 1);
                    if j < q - 1 {
                        lemma_lex_transitive(ov[p].description, ov[j as int].description, ov[q - 1].description);
                    }
                } else if p == j {
                    assert(nv[q] == ov[q - 1]);
                    if j < q - 1 {
                        assert(lex_le(ov[j as int].description, ov[q - 1].description));
                        lemma_lex_transitive(xv.description, ov[j as int].description, ov[q - 1].description);
                    }
                } else {
                    assert(nv[p] == ov[p - 1] && nv[q] == ov[q - 1]);
                }
            }
            assert forall|p: int, q: int|
                0 <= p < q < nv.len() && nv[p].description == nv[q].description implies #[trigger] new_pos[p]
                < #[trigger] new_pos[q] by {
                if q < j {
                    assert(new_pos[p] == pos[p] && new_pos[q] == pos[q]);
                    assert(nv[p] == ov[p] && nv[q] == ov[q]);
                } else if q == j {
                    assert(new_pos[p] == pos[p]);
                } else if p < j {
                    assert(new_pos[p] == pos[p] && new_pos[q] == pos[q - 1]);
                    assert(nv[p] == ov[p] && nv[q] == ov[q - 1]);
                } else if p == j {
                    assert(nv[q] == ov[q - 1]);
                    assert(lex_le(ov[j as int].description, ov[q - 1].description) || j == q - 1);
                    lemma_lex_reflexive(xv.description);
                    if j < q - 1 {
                        lemma_lex_antisymmetric(ov[j as int].description, ov[q - 1].description);
                    }
                } else {
                    assert(new_pos[p] == pos[p - 1] && new_pos[q] == pos[q - 1]);
                    assert(nv[p] == ov[p - 1] && nv[q] == ov[q - 1]);
                }
            }
            assert(stable_sort_by(take, nv, new_pos));
            pos = new_pos;
        }
        i = i + 1;
    }
    proof {
        assert(iv.take(input@.len() as int) =~= iv);
    }
    out
}

/// Dependencies that survive a replan: neither the failed task nor a
/// completed one.
pub open spec fn kept_dependencies(deps: Seq<u128>, completed: Seq<u128>, failed: u128) -> Seq<u128>
    decreases deps.len(),
{
    if deps.len() == 0 {
        Seq::empty()
    } else {
        let rest = kept_dependencies(deps.drop_last(), completed, failed);
        let d = deps.last();
        if d != failed && !completed.contains(d) {
            rest.push(d)
        } else {
            rest
        }
    }
}

/// The tasks kept by a replan, with their dependencies on dropped work
/// removed and their gates cleared.
pub open spec fn kept_tasks(ts: Seq<PlanTaskView>, completed: Seq<u128>, failed: u128) -> Seq<PlanTaskView>
    decreases ts.len(),
{
    if ts.len() == 0 {
        Seq::empty()
    } else {
        let rest = kept_tasks(ts.drop_last(), completed, failed);
        let t = ts.last();
        if t.id != failed && !completed.contains(t.id) {
            rest.push(
                PlanTaskView {
                    dependencies: kept_dependencies(t.dependencies, completed, failed),
                    condition: None,
                    ..t
                },
            )
        } else {
            rest
        }
    }
}

/// The tasks whose every dependency is among `ids`.
pub open spec fn connected_tasks(ts: Seq<PlanTaskView>, ids: Seq<u128>) -> Seq<PlanTaskView>
    decreases ts.len(),
{
    if ts.len() == 0 {
        Seq::empty()
    } else {
        let rest = connected_tasks(ts.drop_last(), ids);
        let t = ts.last();
        if forall|k: int| 0 <= k < t.dependencies.len() ==> ids.contains(#[trigger] t.dependencies[k]) {
            rest.push(t)
        } else {
            rest
        }
    }
}

/// The tasks of the replanned plan, before sorting.
pub open spec fn replanned_tasks(ts: Seq<PlanTaskView>, completed: Seq<u128>, failed: u128) -> Seq<
    PlanTaskView,
> {
    let kept = kept_tasks(ts, completed, failed);
    connected_tasks(kept, task_ids(kept))
}

/// Confidence after a replan: lowered by 0.1, never below 0.4.
pub open spec fn replanned_confidence(c: u32) -> u32 {
    if c >= 500 {
        (c - 100) as u32
    } else {
        400
    }
}

/// Whether `ids` holds `id`.
pub fn contains_id(ids: &Vec<u128>, id: u128) -> (r: bool)
    ensures
        r == ids@.contains(id),
{
    let mut i: usize = 0;
    while i < ids.len()
        invariant
            i <= ids@.len(),
            forall|k: int| 0 <= k < i ==> ids@[k] != id,
        decreases ids.len() - i,
    {
        if ids[i] == id {
            assert(ids@[i as int] == id);
            return true;
        }
        i = i + 1;
    }
    false
}

fn keep_dependencies(deps: &Vec<u128>, completed: &Vec<u128>, failed: u128) -> (r: Vec<u128>)
    ensures
        r@ == kept_dependencies(deps@, completed@, failed),
{
    let mut out: Vec<u128> = Vec::new();
    let mut i: usize = 0;
    while i < deps.len()
        invariant
            i <= deps@.len(),
            out@ == kept_dependencies(deps@.take(i as int), completed@, failed),
        decreases deps.len() - i,
    {
        proof {
            assert(deps@.take(i + 1).drop_last() =~= deps@.take(i as int));
        }
        let d = deps[i];
        if d != failed && !contains_id(completed, d) {
            out.push(d);
        }
        i = i + 1;
    }
    proof {
        assert(deps@.take(deps@.len() as int) =~= deps@);
    }
    out
}

/// The surviving tasks after `failed` failed, with dependencies re-linked.
pub fn replanned_task_list(tasks: &Vec<PlanTask>, completed: &Vec<u128>, failed: u128) -> (r: Vec<PlanTask>)
    ensures
        tasks_view(r@) == replanned_tasks(tasks_view(tasks@), completed@, failed),
{
    let ghost ts = tasks_view(tasks@);
    let mut kept: Vec<PlanTask> = Vec::new();
    let mut i: usize = 0;
    while i < tasks.len()
        invariant
            ts == tasks_view(tasks@),
            i <= tasks@.len(),
            tasks_view(kept@) == kept_tasks(ts.take(i as int), completed@, failed),
        decreases tasks.len() - i,
    {
        proof {
            assert(ts.take(i + 1).drop_last() =~= ts.take(i as int));
        }
        let t = &tasks[i];
        if t.id != failed && !contains_id(completed, t.id) {
            let mut revised = t.copy();
            revised.dependencies = keep_dependencies(&t.dependencies, completed, failed);
            revised.condition = None;
            let ghost before = tasks_view(kept@);
            kept.push(revised);
            proof {
                assert(tasks_view(kept@) =~= before.push(kept@.last()@));
            }
        }
        i = i + 1;
    }
    proof {
        assert(ts.take(ts.len() as int) =~= ts);
    }
    let ghost kv = tasks_view(kept@);
    let mut ids: Vec<u128> = Vec::new();
    let mut k: usize = 0;
    while k < kept.len()
        invariant
            kv == tasks_view(kept@),
            k <= kept@.len(),
            ids@ == task_ids(kv).take(k as int),
        decreases kept.len() - k,
    {
        ids.push(kept[k].id);
        proof {
            assert(ids@ =~= task_ids(kv).take(k + 1));
        }
        k = k + 1;
    }
    proof {
        assert(task_ids(kv).take(kept@.len() as int) =~= task_ids(kv));
    }
    let mut out: Vec<PlanTask> = Vec::new();
    let mut m: usize = 0;
    while m < kept.len()
        invariant
            kv == tasks_view(kept@),
            ids@ == task_ids(kv),
            m <= kept@.len(),
            tasks_view(out@) == connected_tasks(kv.take(m as int), task_ids(kv)),
        decreases kept.len() - m,
    {
        proof {
            assert(kv.take(m + 1).drop_last() =~= kv.take(m as int));
        }
        let t = &kept[m];
        let mut all = true;
        let mut q: usize = 0;
        while q < t.dependencies.len()
            invariant
                m < kept@.len(),
                *t == kept@[m as int],
                ids@ == task_ids(kv),
                q <= t.dependencies@.len(),
                all == forall|x: int| 0 <= x < q ==> ids@.contains(#[trigger] t.dependencies@[x]),
            decreases t.dependencies.len() - q,
        {
            if !contains_id(&ids, t.dependencies[q]) {
                all = false;
            }
            q = q + 1;
        }
        proof {
            assert(kv.take(m + 1).last() == kv[m as int]);
            assert(kv[m as int] == t@);
        }
        if all {
            let c = t.copy();
            let ghost before = tasks_view(out@);
            out.push(c);
            proof {
                assert(tasks_view(out@) =~= before.push(kv[m as int]));
            }
        } else {
            proof {
                let x = choose|x: int| 0 <= x < t.dependencies@.len() && !ids@.contains(#[trigger] t.dependencies@[x]);
                assert(kv.take(m + 1).last().dependencies[x] == t.dependencies@[x]);
            }
        }
        proof {
            let tl = kv.take(m + 1).last();
            assert(connected_tasks(kv.take(m + 1), task_ids(kv)) == if forall|k: int|
                0 <= k < tl.dependencies.len() ==> task_ids(kv).contains(#[trigger] tl.dependencies[k]) {
                connected_tasks(kv.take(m as int), task_ids(kv)).push(tl)
            } else {
                connected_tasks(kv.take(m as int), task_ids(kv))
            });
        }
        m = m + 1;
    }
    proof {
        assert(kv.take(kept@.len() as int) =~= kv);
    }
    out
}

/// Copies a list of tasks.
pub fn copy_tasks(tasks: &Vec<PlanTask>) -> (r: Vec<PlanTask>)
    ensures
        tasks_view(r@) == tasks_view(tasks@),
{
    let mut out: Vec<PlanTask> = Vec::new();
    let mut i: usize = 0;
    while i < tasks.len()
        invariant
            i <= tasks@.len(),
            tasks_view(out@) == tasks_view(tasks@).take(i as int),
        decreases tasks.len() - i,
    {
        let ghost before = tasks_view(out@);
        out.push(tasks[i].copy());
        proof {
            assert(tasks_view(out@) =~= before.push(tasks@[i as int]@));
            assert(tasks_view(out@) =~= tasks_view(tasks@).take(i + 1));
        }
        i = i + 1;
    }
    proof {
        assert(tasks_view(tasks@).take(tasks@.len() as int) =~= tasks_view(tasks@));
    }
    out
}

/// Two plan records hold the same values.
pub open spec fn same_plan(a: ExecutionPlan, b: ExecutionPlan) -> bool {
    &&& a.id == b.id
    &&& a.workspace_id == b.workspace_id
    &&& a.goal@ == b.goal@
    &&& tasks_view(a.tasks@) == tasks_view(b.tasks@)
    &&& a.estimated_duration_minutes == b.estimated_duration_minutes
    &&& strings_view(a.required_files@) == strings_view(b.required_files@)
    &&& strings_view(a.checkpoints@) == strings_view(b.checkpoints@)
    &&& a.confidence == b.confidence
    &&& a.reasoning@ == b.reasoning@
    &&& a.status == b.status
    &&& a.created_at == b.created_at
}

impl ExecutionPlan {
    /// A copy of the plan record.
    pub fn copy(&self) -> (r: ExecutionPlan)
        ensures
            same_plan(r, *self),
    {
        self.with_tasks(copy_tasks(&self.tasks))
    }

    /// A copy of the plan record with its tasks replaced.
    pub fn with_tasks(&self, tasks: Vec<PlanTask>) -> (r: ExecutionPlan)
        ensures
            r.id == self.id,
            r.workspace_id == self.workspace_id,
            r.goal@ == self.goal@,
            r.tasks@ == tasks@,
            r.estimated_duration_minutes == self.estimated_duration_minutes,
            strings_view(r.required_files@) == strings_view(self.required_files@),
            strings_view(r.checkpoints@) == strings_view(self.checkpoints@),
            r.confidence == self.confidence,
            r.reasoning@ == self.reasoning@,
            r.status == self.status,
            r.created_at == self.created_at,
    {
        let files = copy_strings(&self.required_files);
        let checkpoints = copy_strings(&self.checkpoints);
        proof {
            assert(strings_view(files@) =~= strings_view(self.required_files@));
            assert(strings_view(checkpoints@) =~= strings_view(self.checkpoints@));
        }
        ExecutionPlan {
            id: self.id,
            workspace_id: self.workspace_id,
            goal: self.goal.clone(),
            tasks,
            estimated_duration_minutes: self.estimated_duration_minutes,
            required_files: files,
            checkpoints,
            confidence: self.confidence,
            reasoning: self.reasoning.clone(),
            status: self.status,
            created_at: self.created_at,
        }
    }
}

/// The reasoning text of a replanned plan.
pub open spec fn replan_reasoning(failed: u128) -> Seq<char> {
    "Replanned after task "@ + uuid_text(failed) + " failed; remaining steps were re-linked"@
}

/// Revises a plan after task `failed` failed: the failed and completed
/// tasks are dropped, dependencies on them are removed, gates are cleared,
/// tasks whose dependencies no longer exist are pruned, and the rest is
/// sorted by description (stably).
pub fn replan_plan(plan: &ExecutionPlan, completed: &Vec<u128>, failed: u128) -> (r: ExecutionPlan)
    ensures
        is_description_sort(replanned_tasks(tasks_view(plan.tasks@), completed@, failed), tasks_view(r.tasks@)),
        r.id == plan.id,
        r.workspace_id == plan.workspace_id,
        r.goal@ == plan.goal@,
        r.estimated_duration_minutes == plan.estimated_duration_minutes,
        strings_view(r.required_files@) == strings_view(plan.required_files@),
        strings_view(r.checkpoints@) == strings_view(plan.checkpoints@),
        r.confidence == replanned_confidence(plan.confidence),
        r.reasoning@ == replan_reasoning(failed),
        r.status == PlanApprovalStatus::Pending,
        r.created_at == plan.created_at,
{
    let survivors = replanned_task_list(&plan.tasks, completed, failed);
    let sorted = sort_by_description(&survivors);
    let mut replanned = plan.with_tasks(sorted);
    replanned.status = PlanApprovalStatus::Pending;
    replanned.confidence = if plan.confidence >= 500 {
        plan.confidence - 100
    } else {
        400
    };
    let mut reasoning = String::from_str("Replanned after task ");
    let id = id_text(failed);
    reasoning.append(id.as_str());
    reasoning.append(" failed; remaining steps were re-linked");
    replanned.reasoning = reasoning;
    replanned
}

/// Whether a gate lets its task run, given the recorded outcomes of earlier
/// tasks: no gate always runs; `AfterSuccess` needs a recorded success of the
/// predecessor; `AfterFailure` needs a recorded failure or cancellation.
pub open spec fn gate_allows(condition: Option<PlanGate>, outcomes: Map<u128, ToolInvocationStatus>) -> bool {
    match condition {
        None => true,
        Some(PlanGate::AfterSuccess(p)) => outcomes.contains_key(p) && outcomes[p]
            == ToolInvocationStatus::Success,
        Some(PlanGate::AfterFailure(p)) => outcomes.contains_key(p) && (outcomes[p]
            == ToolInvocationStatus::Failed || outcomes[p] == ToolInvocationStatus::Cancelled),
    }
}

impl Planner {
    /// Resolves the topological execution order of a plan's tasks.
    pub fn dependency_order(&self, plan: &ExecutionPlan) -> (r: Result<Vec<PlanTask>, PlannerError>)
        requires
            unique_ids(tasks_view(plan.tasks@)),
        ensures
            r is Ok <==> is_acyclic(tasks_view(plan.tasks@)),
            match r {
                Ok(out) => is_topological_order(tasks_view(plan.tasks@), tasks_view(out@)),
                Err(e) => e is DependencyCycle,
            },
    {
        topological_order(&plan.tasks)
    }

    /// Evaluates whether a step's conditional gate permits execution given
    /// the outcome of the referenced predecessor.
    pub fn condition_satisfied(
        &self,
        condition: Option<PlanGate>,
        outcomes: &HashMap<u128, ToolInvocationStatus>,
    ) -> (r: bool)
        ensures
            r == gate_allows(condition, outcomes@),
    {
        broadcast use vstd::std_specs::hash::group_hash_axioms;
        match condition {
            None => true,
            Some(PlanGate::AfterSuccess(p)) => match outcomes.get(&p) {
                Some(s) => *s == ToolInvocationStatus::Success,
                None => false,
            },
            Some(PlanGate::AfterFailure(p)) => match outcomes.get(&p) {
                Some(s) => *s == ToolInvocationStatus::Failed || *s == ToolInvocationStatus::Cancelled,
                None => false,
            },
        }
    }

    /// Produces a revised plan after a step failed (see [`replan_plan`]).
    /// Replanning always succeeds.
    pub fn replan_after_failure(&self, plan: &ExecutionPlan, completed: &Vec<u128>, failed: u128) -> (r: Result<
        ExecutionPlan,
        PlannerError,
    >)
        ensures
            r matches Ok(p) && is_description_sort(
                replanned_tasks(tasks_view(plan.tasks@), completed@, failed),
                tasks_view(p.tasks@),
            ) && p.id == plan.id && p.workspace_id == plan.workspace_id && p.goal@ == plan.goal@
                && p.estimated_duration_minutes == plan.estimated_duration_minutes && strings_view(
                p.required_files@,
            ) == strings_view(plan.required_files@) && strings_view(p.checkpoints@) == strings_view(
                plan.checkpoints@,
            ) && p.confidence == replanned_confidence(plan.confidence) && p.reasoning@
                == replan_reasoning(failed) && p.status == PlanApprovalStatus::Pending && p.created_at
                == plan.created_at,
    {
        Ok(replan_plan(plan, completed, failed))
    }
}

/// What a goal run through the planner did: the final plan, the tasks
/// that completed, were skipped by a gate, or failed and were replaced by
/// replanning, how many replans ran, and the first error seen.
pub struct PlannerReport {
    pub plan: ExecutionPlan,
    pub execution_id: Option<u128>,
    pub completed: Vec<u128>,
    pub skipped: Vec<u128>,
    pub replaced: Vec<u128>,
    pub replan_count: usize,
    pub error: Option<String>,
}

/// Every task kept by a replan is a task of the plan.
proof fn lemma_kept_tasks_members(ts: Seq<PlanTaskView>, completed: Seq<u128>, failed: u128)
    ensures
        forall|j: int| 0 <= j < kept_tasks(ts, completed, failed).len() ==> has_id(ts, #[trigger] kept_tasks(ts, completed, failed)[j].id),
        kept_tasks(ts, completed, failed).len() <= ts.len(),
    decreases ts.len(),
{
    if ts.len() > 0 {
        lemma_kept_tasks_members(ts.drop_last(), completed, failed);
        let rest = kept_tasks(ts.drop_last(), completed, failed);
        let k = kept_tasks(ts, completed, failed);
        assert forall|j: int| 0 <= j < k.len() implies has_id(ts, #[trigger] k[j].id) by {
            if j < rest.len() {
                assert(k[j] == rest[j]);
                let w = choose|i: int| 0 <= i < ts.drop_last().len() && ts.drop_last()[i].id == rest[j].id;
                assert(ts[w].id == k[j].id);
            } else {
                assert(ts[ts.len() - 1].id == k[j].id);
            }
        }
    }
}

/// A replan keeps task ids unique.
proof fn lemma_kept_tasks_unique(ts: Seq<PlanTaskView>, completed: Seq<u128>, failed: u128)
    requires
        unique_ids(ts),
    ensures
        unique_ids(kept_tasks(ts, completed, failed)),
    decreases ts.len(),
{
    if ts.len() > 0 {
        let d = ts.drop_last();
        assert(unique_ids(d)) by {
            assert forall|i: int, j: int| 0 <= i < d.len() && 0 <= j < d.len() && i != j implies d[i].id != d[j].id by {
                assert(d[i] == ts[i] && d[j] == ts[j]);
            }
        }
        lemma_kept_tasks_unique(d, completed, failed);
        lemma_kept_tasks_members(d, completed, failed);
        let rest = kept_tasks(d, completed, failed);
        let k = kept_tasks(ts, completed, failed);
        if k.len() > rest.len() {
            assert forall|i: int, j: int| 0 <= i < k.len() && 0 <= j < k.len() && i != j implies k[i].id != k[j].id by {
                if i < rest.len() && j < rest.len() {
                    assert(k[i] == rest[i] && k[j] == rest[j]);
                } else if i < rest.len() {
                    assert(k[i] == rest[i]);
                    let w = choose|q: int| 0 <= q < d.len() && d[q].id == rest[i].id;
                    assert(ts[w].id != ts[ts.len() - 1].id);
                } else if j < rest.len() {
                    assert(k[j] == rest[j]);
                    let w = choose|q: int| 0 <= q < d.len() && d[q].id == rest[j].id;
                    assert(ts[w].id != ts[ts.len() - 1].id);
                }
            }
        }
    }
}

/// Every task of `connected_tasks` is a task of its input, and ids stay
/// unique.
proof fn lemma_connected_tasks_unique(ts: Seq<PlanTaskView>, ids: Seq<u128>)
    requires
        unique_ids(ts),
    ensures
        unique_ids(connected_tasks(ts, ids)),
        forall|j: int| 0 <= j < connected_tasks(ts, ids).len() ==> has_id(ts, #[trigger] connected_tasks(ts, ids)[j].id),
    decreases ts.len(),
{
    if ts.len() > 0 {
        let d = ts.drop_last();
        assert(unique_ids(d)) by {
            assert forall|i: int, j: int| 0 <= i < d.len() && 0 <= j < d.len() && i != j implies d[i].id != d[j].id by {
                assert(d[i] == ts[i] && d[j] == ts[j]);
            }
        }
        lemma_connected_tasks_unique(d, ids);
        let rest = connected_tasks(d, ids);
        let k = connected_tasks(ts, ids);
        assert forall|j: int| 0 <= j < k.len() implies has_id(ts, #[trigger] k[j].id) by {
            if j < rest.len() {
                assert(k[j] == rest[j]);
                let w = choose|i: int| 0 <= i < d.len() && d[i].id == rest[j].id;
                assert(ts[w].id == k[j].id);
            } else {
                assert(ts[ts.len() - 1].id == k[j].id);
            }
        }
        if k.len() > rest.len() {
            assert forall|i: int, j: int| 0 <= i < k.len() && 0 <= j < k.len() && i != j implies k[i].id != k[j].id by {
                if i < rest.len() && j < rest.len() {
                    assert(k[i] == rest[i] && k[j] == rest[j]);
                } else if i < rest.len() {
                    assert(k[i] == rest[i]);
                    let w = choose|q: int| 0 <= q < d.len() && d[q].id == rest[i].id;
                    assert(ts[w].id != ts[ts.len() - 1].id);
                } else if j < rest.len() {
                    assert(k[j] == rest[j]);
                    let w = choose|q: int| 0 <= q < d.len() && d[q].id == rest[j].id;
                    assert(ts[w].id != ts[ts.len() - 1].id);
                }
            }
        }
    }
}

/// Replanning keeps task ids unique: the replanned tasks are a selection
/// of the plan's tasks, reordered.
pub proof fn lemma_replan_keeps_ids_unique(
    ts: Seq<PlanTaskView>,
    completed: Seq<u128>,
    failed: u128,
    out: Seq<PlanTaskView>,
)
    requires
        unique_ids(ts),
        is_description_sort(replanned_tasks(ts, completed, failed), out),
    ensures
        unique_ids(out),
{
    let kept = kept_tasks(ts, completed, failed);
    lemma_kept_tasks_unique(ts, completed, failed);
    lemma_connected_tasks_unique(kept, task_ids(kept));
    let input = replanned_tasks(ts, completed, failed);
    let pos = choose|pos: Seq<int>| #[trigger] stable_sort_by(input, out, pos);
    assert forall|i: int, j: int| 0 <= i < out.len() && 0 <= j < out.len() && i != j implies out[i].id != out[j].id by {
        assert(out[i] == input[pos[i]]);
        assert(out[j] == input[pos[j]]);
        if i < j {
            assert(pos[i] != pos[j]);
        } else {
            assert(pos[j] != pos[i]);
        }
    }
}

} // verus!
