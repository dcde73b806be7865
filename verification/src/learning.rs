//! Aggregates over remembered runs: search filters and store statistics.

use vstd::prelude::*;
use crate::memory::{
    MemoryKind, MemoryRecord, MemorySearchRequest, MemoryStats, MemoryStatus, fingerprint, goal_fingerprint,
};
use crate::order::{lex_le, string_le, lemma_lex_total, lemma_lex_transitive};
use crate::plan::{ExecutionPlan, same_plan};
use crate::text::string_eq;

verus! {

/// Whether a record passes a search request's kind, status and workspace
/// filters (an absent filter passes everything).
pub open spec fn passes_filters(request: MemorySearchRequest, record: MemoryRecord) -> bool {
    &&& (request.kind matches Some(k) ==> record.kind == k)
    &&& (request.status matches Some(s) ==> record.status == s)
    &&& (request.workspace_id matches Some(w) ==> record.workspace_id == Some(w))
}

/// The records passing the filters, in order.
pub open spec fn filtered(request: MemorySearchRequest, records: Seq<MemoryRecord>) -> Seq<MemoryRecord>
    decreases records.len(),
{
    if records.len() == 0 {
        Seq::empty()
    } else {
        let rest = filtered(request, records.drop_last());
        if passes_filters(request, records.last()) {
            rest.push(records.last())
        } else {
            rest
        }
    }
}

/// The records that pass a search request's kind, status and workspace
/// filters, in order.
pub fn filter_records<'a>(request: &MemorySearchRequest, records: &'a Vec<MemoryRecord>) -> (r: Vec<&'a MemoryRecord>)
    ensures
        r@.map_values(|x: &MemoryRecord| *x) == filtered(*request, records@),
{
    let mut out: Vec<&'a MemoryRecord> = Vec::new();
    let mut i: usize = 0;
    while i < records.len()
        invariant
            i <= records@.len(),
            out@.map_values(|x: &MemoryRecord| *x) == filtered(*request, records@.take(i as int)),
        decreases records.len() - i,
    {
        let record = &records[i];
        proof {
            assert(records@.take(i + 1).drop_last() =~= records@.take(i as int));
            assert(records@.take(i + 1).last() == *record);
        }
        let kind_ok = match request.kind {
            Some(k) => record.kind == k,
            None => true,
        };
        let status_ok = match request.status {
            Some(s) => record.status == s,
            None => true,
        };
        let workspace_ok = match request.workspace_id {
            Some(w) => record.workspace_id == Some(w),
            None => true,
        };
        if kind_ok && status_ok && workspace_ok {
            let ghost before = out@;
            out.push(record);
            proof {
                assert(out@.map_values(|x: &MemoryRecord| *x) =~= before.map_values(|x: &MemoryRecord| *x).push(
                    *record,
                ));
            }
        }
        i = i + 1;
    }
    proof {
        assert(records@.take(i as int) =~= records@);
    }
    out
}

/// The number of distinct texts in a sequence.
pub open spec fn distinct_count(s: Seq<Seq<char>>) -> nat
    decreases s.len(),
{
    if s.len() == 0 {
        0
    } else {
        distinct_count(s.drop_last()) + if s.drop_last().contains(s.last()) {
            0nat
        } else {
            1nat
        }
    }
}

/// The goal fingerprints of the records, in order.
pub open spec fn fingerprints(records: Seq<MemoryRecord>) -> Seq<Seq<char>> {
    records.map_values(|r: MemoryRecord| fingerprint(r.goal@))
}

/// A sequence has at most as many distinct texts as entries.
proof fn lemma_distinct_count_bound(s: Seq<Seq<char>>)
    ensures
        distinct_count(s) <= s.len(),
    decreases s.len(),
{
    if s.len() > 0 {
        lemma_distinct_count_bound(s.drop_last());
    }
}

/// How many records have each status, and each kind.
pub open spec fn count_with(records: Seq<MemoryRecord>, status: Option<MemoryStatus>, kind: Option<MemoryKind>) -> nat
    decreases records.len(),
{
    if records.len() == 0 {
        0
    } else {
        let r = records.last();
        count_with(records.drop_last(), status, kind) + if (status matches Some(s) ==> r.status == s) && (
        kind matches Some(k) ==> r.kind == k) {
            1nat
        } else {
            0nat
        }
    }
}

/// The sum of the records' replay counts.
pub open spec fn replay_total(records: Seq<MemoryRecord>) -> nat
    decreases records.len(),
{
    if records.len() == 0 {
        0
    } else {
        replay_total(records.drop_last()) + records.last().replay_count as nat
    }
}

/// A count over a prefix grows by at most one per record.
pub proof fn lemma_count_bound(records: Seq<MemoryRecord>, status: Option<MemoryStatus>, kind: Option<MemoryKind>)
    ensures
        count_with(records, status, kind) <= records.len(),
    decreases records.len(),
{
    if records.len() > 0 {
        lemma_count_bound(records.drop_last(), status, kind);
    }
}

/// A prefix's replay total is at most the whole total.
proof fn lemma_replay_total_prefix(records: Seq<MemoryRecord>, i: int)
    requires
        0 <= i <= records.len(),
    ensures
        replay_total(records.take(i)) <= replay_total(records),
    decreases records.len() - i,
{
    if i < records.len() {
        lemma_replay_total_prefix(records, i + 1);
        assert(records.take(i + 1).drop_last() =~= records.take(i));
    } else {
        assert(records.take(i) =~= records);
    }
}

/// Dashboard statistics over the store: totals by status and kind, the
/// replays, and the number of distinct goal fingerprints (the learned
/// workflows).
pub fn compute_stats(records: &Vec<MemoryRecord>) -> (r: MemoryStats)
    requires
        replay_total(records@) <= u64::MAX,
    ensures
        r.total_records == records@.len(),
        r.successful == count_with(records@, Some(MemoryStatus::Success), None),
        r.failed == count_with(records@, Some(MemoryStatus::Failed), None),
        r.cancelled == count_with(records@, Some(MemoryStatus::Cancelled), None),
        r.executions == count_with(records@, None, Some(MemoryKind::Execution)),
        r.planner_reports == count_with(records@, None, Some(MemoryKind::PlannerReport)),
        r.autonomous_sessions == count_with(records@, None, Some(MemoryKind::AutonomousSession)),
        r.total_replays == replay_total(records@),
        r.learned_workflows == distinct_count(fingerprints(records@)),
{
    let mut stats = MemoryStats::default();
    stats.total_records = records.len() as u64;
    let mut prints: Vec<String> = Vec::new();
    let mut distinct: u64 = 0;
    let mut i: usize = 0;
    while i < records.len()
        invariant
            i <= records@.len(),
            replay_total(records@) <= u64::MAX,
            stats.total_records == records@.len(),
            stats.successful == count_with(records@.take(i as int), Some(MemoryStatus::Success), None),
            stats.failed == count_with(records@.take(i as int), Some(MemoryStatus::Failed), None),
            stats.cancelled == count_with(records@.take(i as int), Some(MemoryStatus::Cancelled), None),
            stats.executions == count_with(records@.take(i as int), None, Some(MemoryKind::Execution)),
            stats.planner_reports == count_with(records@.take(i as int), None, Some(MemoryKind::PlannerReport)),
            stats.autonomous_sessions == count_with(records@.take(i as int), None, Some(MemoryKind::AutonomousSession)),
            stats.total_replays == replay_total(records@.take(i as int)),
            prints@.len() == i,
            forall|k: int| 0 <= k < i ==> #[trigger] prints@[k]@ == fingerprint(records@[k].goal@),
            distinct == distinct_count(fingerprints(records@).take(i as int)),
        decreases records.len() - i,
    {
        let record = &records[i];
        let ghost prefix = records@.take(i as int);
        proof {
            assert(records@.take(i + 1).drop_last() =~= prefix);
            assert(records@.take(i + 1).last() == *record);
            lemma_count_bound(prefix, Some(MemoryStatus::Success), None);
            lemma_count_bound(prefix, Some(MemoryStatus::Failed), None);
            lemma_count_bound(prefix, Some(MemoryStatus::Cancelled), None);
            lemma_count_bound(prefix, None, Some(MemoryKind::Execution));
            lemma_count_bound(prefix, None, Some(MemoryKind::PlannerReport));
            lemma_count_bound(prefix, None, Some(MemoryKind::AutonomousSession));
            lemma_replay_total_prefix(records@, i + 1);
        }
        match record.status {
            MemoryStatus::Success => stats.successful = stats.successful + 1,
            MemoryStatus::Failed => stats.failed = stats.failed + 1,
            MemoryStatus::Cancelled => stats.cancelled = stats.cancelled + 1,
        }
        match record.kind {
            MemoryKind::Execution => stats.executions = stats.executions + 1,
            MemoryKind::PlannerReport => stats.planner_reports = stats.planner_reports + 1,
            MemoryKind::AutonomousSession => stats.autonomous_sessions = stats.autonomous_sessions + 1,
        }
        stats.total_replays = stats.total_replays + record.replay_count;
        let print = goal_fingerprint(record.goal.as_str());
        let ghost fps = fingerprints(records@);
        let mut seen = false;
        let mut j: usize = 0;
        while j < prints.len()
            invariant
                j <= prints@.len(),
                prints@.len() == i,
                i < records@.len(),
                fps == fingerprints(records@),
                forall|k: int| 0 <= k < i ==> #[trigger] prints@[k]@ == fingerprint(records@[k].goal@),
                seen <==> exists|k: int| 0 <= k < j && prints@[k]@ == print@,
            decreases prints.len() - j,
        {
            if string_eq(&prints[j], &print) {
                seen = true;
            }
            j = j + 1;
        }
        proof {
            let t = fps.take(i + 1);
            assert(t.drop_last() =~= fps.take(i as int));
            assert(t.last() == print@);
            assert(seen <==> fps.take(i as int).contains(print@)) by {
                if seen {
                    let k = choose|k: int| 0 <= k < i && prints@[k]@ == print@;
                    assert(fps.take(i as int)[k] == print@);
                }
                if fps.take(i as int).contains(print@) {
                    let k = choose|k: int| 0 <= k < i && fps.take(i as int)[k] == print@;
                    assert(prints@[k]@ == print@);
                }
            }
            lemma_distinct_count_bound(fps.take(i as int));
        }
        if !seen {
            distinct = distinct + 1;
        }
        prints.push(print);
        i = i + 1;
    }
    proof {
        assert(records@.take(i as int) =~= records@);
        assert(fingerprints(records@).take(i as int) =~= fingerprints(records@));
    }
    stats.learned_workflows = distinct;
    stats
}

/// A workflow learned from the runs that share a goal fingerprint. Times
/// are nanoseconds since the Unix epoch.
pub struct LearnedWorkflow {
    /// The normalised goal the runs share.
    pub goal_fingerprint: String,
    /// The goal of the newest run.
    pub goal: String,
    pub success_count: u64,
    pub failure_count: u64,
    /// The plan of the first successful run that has one.
    pub best_plan: Option<ExecutionPlan>,
    /// When the newest successful run happened.
    pub last_success_at: Option<i128>,
}

/// The records whose goal has fingerprint `fp`, in order.
pub open spec fn members_with(records: Seq<MemoryRecord>, fp: Seq<char>) -> Seq<MemoryRecord>
    decreases records.len(),
{
    if records.len() == 0 {
        Seq::empty()
    } else {
        let rest = members_with(records.drop_last(), fp);
        if fingerprint(records.last().goal@) == fp {
            rest.push(records.last())
        } else {
            rest
        }
    }
}

/// The plan of the first successful run that has one.
pub open spec fn first_success_plan(runs: Seq<MemoryRecord>) -> Option<ExecutionPlan>
    decreases runs.len(),
{
    if runs.len() == 0 {
        None
    } else {
        let earlier = first_success_plan(runs.drop_last());
        if earlier is Some {
            earlier
        } else if runs.last().status == MemoryStatus::Success {
            runs.last().plan
        } else {
            None
        }
    }
}

/// When the newest successful run happened.
pub open spec fn last_success(runs: Seq<MemoryRecord>) -> Option<i128>
    decreases runs.len(),
{
    if runs.len() == 0 {
        None
    } else {
        let earlier = last_success(runs.drop_last());
        let r = runs.last();
        if r.status == MemoryStatus::Success && (earlier matches Some(t) ==> r.created_at > t) {
            Some(r.created_at)
        } else {
            earlier
        }
    }
}

/// The newest run (the first of the newest, on a tie).
pub open spec fn newest_run(runs: Seq<MemoryRecord>) -> Option<MemoryRecord>
    decreases runs.len(),
{
    if runs.len() == 0 {
        None
    } else {
        let earlier = newest_run(runs.drop_last());
        let r = runs.last();
        if earlier matches Some(n) ==> r.created_at > n.created_at {
            Some(r)
        } else {
            earlier
        }
    }
}

/// `w` is the workflow learned from the runs of `records` that share its
/// fingerprint: there is at least one, and it holds their counts, the
/// newest goal, the first successful plan and the last success.
pub open spec fn learned_from(records: Seq<MemoryRecord>, w: LearnedWorkflow) -> bool {
    let runs = members_with(records, w.goal_fingerprint@);
    &&& runs.len() > 0
    &&& newest_run(runs) matches Some(n) && w.goal@ == n.goal@
    &&& w.success_count == count_with(runs, Some(MemoryStatus::Success), None)
    &&& w.failure_count == count_with(runs, Some(MemoryStatus::Failed), None)
    &&& match (w.best_plan, first_success_plan(runs)) {
        (Some(a), Some(b)) => same_plan(a, b),
        (None, None) => true,
        _ => false,
    }
    &&& w.last_success_at == last_success(runs)
}

/// Workflows are listed by successes, most first, then by fingerprint,
/// last first.
pub open spec fn workflow_before(a: LearnedWorkflow, b: LearnedWorkflow) -> bool {
    a.success_count > b.success_count || (a.success_count == b.success_count && lex_le(
        b.goal_fingerprint@,
        a.goal_fingerprint@,
    ))
}

/// A goal's runs are no more than the records, and there is one when a
/// record has the goal's fingerprint.
pub proof fn lemma_members_len(records: Seq<MemoryRecord>, fp: Seq<char>)
    ensures
        members_with(records, fp).len() <= records.len(),
        (exists|i: int| 0 <= i < records.len() && fingerprint(#[trigger] records[i].goal@) == fp)
            ==> members_with(records, fp).len() > 0,
    decreases records.len(),
{
    if records.len() > 0 {
        lemma_members_len(records.drop_last(), fp);
        if exists|i: int| 0 <= i < records.len() && fingerprint(#[trigger] records[i].goal@) == fp {
            let i = choose|i: int| 0 <= i < records.len() && fingerprint(#[trigger] records[i].goal@) == fp;
            if i < records.len() - 1 {
                assert(records.drop_last()[i] == records[i]);
            }
        }
    }
}

/// The workflow of the runs of `records` with fingerprint `fp`.
fn aggregate(records: &[MemoryRecord], fps: &Vec<String>, fp: &String) -> (w: LearnedWorkflow)
    requires
        fps@.len() == records@.len(),
        forall|i: int| 0 <= i < records@.len() ==> (#[trigger] fps@[i])@ == fingerprint(records@[i].goal@),
        exists|i: int| 0 <= i < records@.len() && fingerprint(#[trigger] records@[i].goal@) == fp@,
    ensures
        w.goal_fingerprint@ == fp@,
        learned_from(records@, w),
{
    let ghost f = fp@;
    let mut successes: u64 = 0;
    let mut failures: u64 = 0;
    let mut best: Option<usize> = None;
    let mut last_at: Option<i128> = None;
    let mut newest: Option<usize> = None;
    let mut j: usize = 0;
    while j < records.len()
        invariant
            f == fp@,
            fps@.len() == records@.len(),
            forall|i: int| 0 <= i < records@.len() ==> (#[trigger] fps@[i])@ == fingerprint(records@[i].goal@),
            j <= records@.len(),
            successes == count_with(members_with(records@.take(j as int), f), Some(MemoryStatus::Success), None),
            failures == count_with(members_with(records@.take(j as int), f), Some(MemoryStatus::Failed), None),
            match best {
                Some(b) => b < j && records@[b as int].plan is Some && first_success_plan(
                    members_with(records@.take(j as int), f),
                ) == records@[b as int].plan,
                None => first_success_plan(members_with(records@.take(j as int), f)) is None,
            },
            last_at == last_success(members_with(records@.take(j as int), f)),
            match newest {
                Some(k) => k < j && newest_run(members_with(records@.take(j as int), f)) == Some(records@[k as int]),
                None => newest_run(members_with(records@.take(j as int), f)) is None,
            },
        decreases records@.len() - j,
    {
        let ghost before = members_with(records@.take(j as int), f);
        proof {
            assert(records@.take(j + 1).drop_last() =~= records@.take(j as int));
            assert(records@.take(j + 1).last() == records@[j as int]);
            lemma_members_len(records@.take(j as int), f);
            lemma_count_bound(before, Some(MemoryStatus::Success), None);
            lemma_count_bound(before, Some(MemoryStatus::Failed), None);
        }
        if string_eq(&fps[j], fp) {
            let r = &records[j];
            proof {
                assert(members_with(records@.take(j + 1), f) == before.push(records@[j as int]));
                assert(before.push(records@[j as int]).drop_last() =~= before);
            }
            match r.status {
                MemoryStatus::Success => {
                    successes = successes + 1;
                },
                MemoryStatus::Failed => {
                    failures = failures + 1;
                },
                MemoryStatus::Cancelled => {},
            }
            if r.status == MemoryStatus::Success {
                if best.is_none() && r.plan.is_some() {
                    best = Some(j);
                }
                let later = match last_at {
                    Some(t) => r.created_at > t,
                    None => true,
                };
                if later {
                    last_at = Some(r.created_at);
                }
            }
            let newer = match newest {
                Some(k) => r.created_at > records[k].created_at,
                None => true,
            };
            if newer {
                newest = Some(j);
            }
        } else {
            proof {
                assert(members_with(records@.take(j + 1), f) == before);
            }
        }
        j = j + 1;
    }
    proof {
        assert(records@.take(records@.len() as int) =~= records@);
        lemma_members_len(records@, f);
    }
    let best_plan = match best {
        Some(b) => match &records[b].plan {
            Some(plan) => Some(plan.copy()),
            None => None,
        },
        None => None,
    };
    let goal = match newest {
        Some(k) => records[k].goal.clone(),
        None => String::new(),
    };
    LearnedWorkflow {
        goal_fingerprint: fp.clone(),
        goal,
        success_count: successes,
        failure_count: failures,
        best_plan,
        last_success_at: last_at,
    }
}

proof fn lemma_workflow_total(a: LearnedWorkflow, b: LearnedWorkflow)
    ensures
        workflow_before(a, b) || workflow_before(b, a),
{
    lemma_lex_total(a.goal_fingerprint@, b.goal_fingerprint@);
}

proof fn lemma_workflow_transitive(a: LearnedWorkflow, b: LearnedWorkflow, c: LearnedWorkflow)
    requires
        workflow_before(a, b),
        workflow_before(b, c),
    ensures
        workflow_before(a, c),
{
    if a.success_count == b.success_count && b.success_count == c.success_count {
        lemma_lex_transitive(c.goal_fingerprint@, b.goal_fingerprint@, a.goal_fingerprint@);
    }
}

/// Whether workflow `a` is listed before workflow `b`.
fn workflow_before_exec(a: &LearnedWorkflow, b: &LearnedWorkflow) -> (r: bool)
    ensures
        r == workflow_before(*a, *b),
{
    a.success_count > b.success_count || (a.success_count == b.success_count && string_le(
        &b.goal_fingerprint,
        &a.goal_fingerprint,
    ))
}

/// Aggregates the runs into one workflow per goal fingerprint, listed by
/// successes (most first), then by fingerprint (last first).
#[verifier::spinoff_prover]
pub fn learned_workflows(records: &[MemoryRecord]) -> (r: Vec<LearnedWorkflow>)
    ensures
        forall|p: int| 0 <= p < r@.len() ==> learned_from(records@, #[trigger] r@[p]),
        forall|i: int|
            #![trigger records@[i]]
            0 <= i < records@.len() ==> exists|p: int|
                0 <= p < r@.len() && (#[trigger] r@[p]).goal_fingerprint@ == fingerprint(records@[i].goal@),
        forall|p: int, q: int|
            0 <= p < q < r@.len() ==> (#[trigger] r@[p]).goal_fingerprint@ != (#[trigger] r@[q]).goal_fingerprint@,
        forall|p: int, q: int| 0 <= p < q < r@.len() ==> workflow_before(#[trigger] r@[p], #[trigger] r@[q]),
        r@.len() <= records@.len(),
{
    let n = records.len();
    let mut fps: Vec<String> = Vec::new();
    let mut i: usize = 0;
    while i < n
        invariant
            n == records@.len(),
            i <= n,
            fps@.len() == i,
            forall|k: int| 0 <= k < i ==> (#[trigger] fps@[k])@ == fingerprint(records@[k].goal@),
        decreases n - i,
    {
        fps.push(goal_fingerprint(records[i].goal.as_str()));
        i = i + 1;
    }
    let mut out: Vec<LearnedWorkflow> = Vec::new();
    // `origin[p]`: a record whose fingerprint workflow `p` carries;
    // `home[i]`: the workflow carrying record `i`'s fingerprint
    let ghost mut origin: Seq<int> = Seq::empty();
    let ghost mut home: Seq<int> = Seq::empty();
    let mut i: usize = 0;
    while i < n
        invariant
            n == records@.len(),
            fps@.len() == n,
            forall|k: int| 0 <= k < n ==> (#[trigger] fps@[k])@ == fingerprint(records@[k].goal@),
            i <= n,
            origin.len() == out@.len(),
            out@.len() <= i,
            home.len() == i,
            forall|p: int| 0 <= p < out@.len() ==> learned_from(records@, #[trigger] out@[p]),
            forall|p: int|
                0 <= p < out@.len() ==> 0 <= #[trigger] origin[p] < i && out@[p].goal_fingerprint@
                    == fps@[origin[p]]@,
            forall|k: int|
                0 <= k < i ==> 0 <= #[trigger] home[k] < out@.len() && out@[home[k]].goal_fingerprint@
                    == fps@[k]@,
            forall|p: int, q: int|
                0 <= p < q < out@.len() ==> (#[trigger] out@[p]).goal_fingerprint@
                    != (#[trigger] out@[q]).goal_fingerprint@,
            forall|p: int, q: int| 0 <= p < q < out@.len() ==> workflow_before(#[trigger] out@[p], #[trigger] out@[q]),
        decreases n - i,
    {
        let mut seen: Option<usize> = None;
        let mut k: usize = 0;
        while k < i
            invariant
                i < n,
                fps@.len() == n,
                k <= i,
                match seen {
                    Some(s) => s < i && fps@[s as int]@ == fps@[i as int]@,
                    None => forall|x: int| 0 <= x < k ==> (#[trigger] fps@[x])@ != fps@[i as int]@,
                },
            decreases i - k,
        {
            if seen.is_none() && string_eq(&fps[k], &fps[i]) {
                seen = Some(k);
            }
            k = k + 1;
        }
        match seen {
            Some(s) => {
                proof {
                    home = home.push(home[s as int]);
                }
            },
            None => {
                let w = aggregate(records, &fps, &fps[i]);
                let mut pos: usize = 0;
                while pos < out.len() && workflow_before_exec(&out[pos], &w)
                    invariant
                        pos <= out@.len(),
                        forall|x: int| 0 <= x < pos ==> workflow_before(#[trigger] out@[x], w),
                    decreases out@.len() - pos,
                {
                    pos = pos + 1;
                }
                let ghost old_out = out@;
                proof {
                    assert forall|p: int| 0 <= p < old_out.len() implies (#[trigger] old_out[p]).goal_fingerprint@
                        != w.goal_fingerprint@ by {
                        assert(origin[p] < i);
                    }
                    if pos < old_out.len() {
                        lemma_workflow_total(old_out[pos as int], w);
                    }
                    assert forall|l: int| pos <= l < old_out.len() implies workflow_before(w, #[trigger] old_out[l]) by {
                        if l > pos {
                            lemma_workflow_transitive(w, old_out[pos as int], old_out[l]);
                        }
                    }
                }
                out.insert(pos, w);
                proof {
                    let old_origin = origin;
                    let old_home = home;
                    origin = old_origin.insert(pos as int, i as int);
                    home = Seq::new(
                        (i + 1) as nat,
                        |x: int|
                            if x == i {
                                pos as int
                            } else if old_home[x] >= pos {
                                old_home[x] + 1
                            } else {
                                old_home[x]
                            },
                    );
                    assert forall|p: int| 0 <= p < out@.len() implies learned_from(records@, #[trigger] out@[p]) by {
                        if p < pos {
                            assert(out@[p] == old_out[p]);
                        } else if p > pos {
                            assert(out@[p] == old_out[p - 1]);
                        }
                    }
                    assert forall|p: int| 0 <= p < out@.len() implies 0 <= #[trigger] origin[p] < i + 1
                        && out@[p].goal_fingerprint@ == fps@[origin[p]]@ by {
                        if p < pos {
                            assert(out@[p] == old_out[p] && origin[p] == old_origin[p]);
                        } else if p > pos {
                            assert(out@[p] == old_out[p - 1] && origin[p] == old_origin[p - 1]);
                        }
                    }
                    assert forall|x: int| 0 <= x < i + 1 implies 0 <= #[trigger] home[x] < out@.len()
                        && out@[home[x]].goal_fingerprint@ == fps@[x]@ by {
                        if x < i {
                            if old_home[x] >= pos {
                                assert(out@[old_home[x] + 1] == old_out[old_home[x]]);
                            } else {
                                assert(out@[old_home[x]] == old_out[old_home[x]]);
                            }
                        }
                    }
                    assert forall|p: int, q: int| 0 <= p < q < out@.len() implies (#[trigger] out@[p]).goal_fingerprint@
                        != (#[trigger] out@[q]).goal_fingerprint@ by {
                        if p != pos && q != pos {
                            let p0 = if p < pos { p } else { p - 1 };
                            let q0 = if q < pos { q } else { q - 1 };
                            assert(out@[p] == old_out[p0] && out@[q] == old_out[q0]);
                        } else if p == pos {
                            assert(out@[q] == old_out[q - 1]);
                        } else {
                            assert(out@[p] == old_out[p]);
                        }
                    }
                    assert forall|p: int, q: int| 0 <= p < q < out@.len() implies workflow_before(
                        #[trigger] out@[p],
                        #[trigger] out@[q],
                    ) by {
                        if q < pos {
                            assert(out@[p] == old_out[p] && out@[q] == old_out[q]);
                        } else if q == pos {
                            assert(out@[p] == old_out[p]);
                        } else if p == pos {
                            assert(out@[q] == old_out[q - 1]);
                        } else if p < pos {
                            assert(out@[p] == old_out[p] && out@[q] == old_out[q - 1]);
                            lemma_workflow_transitive(old_out[p], w, old_out[q - 1]);
                        } else {
                            assert(out@[p] == old_out[p - 1] && out@[q] == old_out[q - 1]);
                        }
                    }
                }
            },
        }
        i = i + 1;
    }
    proof {
        assert forall|x: int| #![trigger records@[x]] 0 <= x < records@.len() implies exists|p: int|
            0 <= p < out@.len() && (#[trigger] out@[p]).goal_fingerprint@ == fingerprint(records@[x].goal@) by {
            assert(out@[home[x]].goal_fingerprint@ == fps@[x]@);
        }
    }
    out
}

/// The number of distinct texts of a sequence is the size of its set.
proof fn lemma_distinct_count_is_set_size(s: Seq<Seq<char>>)
    ensures
        distinct_count(s) == s.to_set().len(),
    decreases s.len(),
{
    broadcast use vstd::seq_lib::seq_to_set_is_finite;
    if s.len() == 0 {
        s.lemma_cardinality_of_empty_set_is_0();
    } else {
        let init = s.drop_last();
        lemma_distinct_count_is_set_size(init);
        assert(init.push(s.last()) =~= s);
        init.lemma_push_to_set_commute(s.last());
        if init.contains(s.last()) {
            assert(init.to_set().contains(s.last()));
            assert(init.to_set().insert(s.last()) =~= init.to_set());
        } else {
            assert(!init.to_set().contains(s.last()));
        }
    }
}

/// A fingerprint with runs is the fingerprint of some record.
proof fn lemma_runs_have_a_record(records: Seq<MemoryRecord>, fp: Seq<char>)
    requires
        members_with(records, fp).len() > 0,
    ensures
        exists|i: int| 0 <= i < records.len() && fingerprint(#[trigger] records[i].goal@) == fp,
    decreases records.len(),
{
    if fingerprint(records.last().goal@) == fp {
        assert(fingerprint(records[records.len() - 1].goal@) == fp);
    } else {
        lemma_runs_have_a_record(records.drop_last(), fp);
        let i = choose|i: int| 0 <= i < records.len() - 1 && fingerprint(#[trigger] records.drop_last()[i].goal@) == fp;
        assert(records.drop_last()[i] == records[i]);
    }
}

/// The statistics count exactly the workflows that learning lists: one per
/// distinct goal fingerprint.
pub proof fn lemma_stats_count_learned_workflows(records: Seq<MemoryRecord>, workflows: Seq<LearnedWorkflow>)
    requires
        forall|p: int| 0 <= p < workflows.len() ==> learned_from(records, #[trigger] workflows[p]),
        forall|i: int|
            #![trigger records[i]]
            0 <= i < records.len() ==> exists|p: int|
                0 <= p < workflows.len() && (#[trigger] workflows[p]).goal_fingerprint@ == fingerprint(records[i].goal@),
        forall|p: int, q: int|
            0 <= p < q < workflows.len() ==> (#[trigger] workflows[p]).goal_fingerprint@
                != (#[trigger] workflows[q]).goal_fingerprint@,
    ensures
        workflows.len() == distinct_count(fingerprints(records)),
{
    broadcast use vstd::seq_lib::seq_to_set_is_finite;
    let prints = fingerprints(records);
    let names = workflows.map_values(|w: LearnedWorkflow| w.goal_fingerprint@);
    assert(names.no_duplicates()) by {
        assert forall|p: int, q: int| 0 <= p < names.len() && 0 <= q < names.len() && p != q implies names[p] != names[q] by {
            if p < q {
                assert(workflows[p].goal_fingerprint@ != workflows[q].goal_fingerprint@);
            } else {
                assert(workflows[q].goal_fingerprint@ != workflows[p].goal_fingerprint@);
            }
        }
    }
    names.unique_seq_to_set();
    assert(names.to_set() =~= prints.to_set()) by {
        assert forall|x: Seq<char>| names.to_set().contains(x) implies prints.to_set().contains(x) by {
            let p = choose|p: int| 0 <= p < names.len() && names[p] == x;
            assert(learned_from(records, workflows[p]));
            lemma_runs_have_a_record(records, x);
            let i = choose|i: int| 0 <= i < records.len() && fingerprint(#[trigger] records[i].goal@) == x;
            assert(prints[i] == x);
        }
        assert forall|x: Seq<char>| prints.to_set().contains(x) implies names.to_set().contains(x) by {
            let i = choose|i: int| 0 <= i < prints.len() && prints[i] == x;
            assert(records[i] == records[i]);
            let p = choose|p: int|
                0 <= p < workflows.len() && (#[trigger] workflows[p]).goal_fingerprint@ == fingerprint(records[i].goal@);
            assert(names[p] == x);
        }
    }
    lemma_distinct_count_is_set_size(prints);
}

/// The successful runs and all runs that share the fingerprint of `goal`:
/// the tally behind a workflow's success rate.
pub fn success_tally(goal: &str, records: &[MemoryRecord]) -> (r: (u64, u64))
    ensures
        r.0 == count_with(members_with(records@, fingerprint(goal@)), Some(MemoryStatus::Success), None),
        r.1 == members_with(records@, fingerprint(goal@)).len(),
{
    let fp = goal_fingerprint(goal);
    let ghost f = fp@;
    let mut successes: u64 = 0;
    let mut total: u64 = 0;
    let mut j: usize = 0;
    while j < records.len()
        invariant
            f == fp@,
            f == fingerprint(goal@),
            j <= records@.len(),
            successes == count_with(members_with(records@.take(j as int), f), Some(MemoryStatus::Success), None),
            total == members_with(records@.take(j as int), f).len(),
        decreases records@.len() - j,
    {
        let ghost before = members_with(records@.take(j as int), f);
        proof {
            assert(records@.take(j + 1).drop_last() =~= records@.take(j as int));
            assert(records@.take(j + 1).last() == records@[j as int]);
            lemma_members_len(records@.take(j as int), f);
            lemma_count_bound(before, Some(MemoryStatus::Success), None);
        }
        let candidate = goal_fingerprint(records[j].goal.as_str());
        if string_eq(&candidate, &fp) {
            proof {
                assert(members_with(records@.take(j + 1), f) == before.push(records@[j as int]));
                assert(before.push(records@[j as int]).drop_last() =~= before);
            }
            total = total + 1;
            if records[j].status == MemoryStatus::Success {
                successes = successes + 1;
            }
        } else {
            proof {
                assert(members_with(records@.take(j + 1), f) == before);
            }
        }
        j = j + 1;
    }
    proof {
        assert(records@.take(records@.len() as int) =~= records@);
    }
    (successes, total)
}

/// Whether a run of the goal (by fingerprint) succeeded.
pub fn has_successful_workflow(records: &[MemoryRecord], goal: &str) -> (r: bool)
    ensures
        r == exists|i: int|
            0 <= i < records@.len() && (#[trigger] records@[i]).status == MemoryStatus::Success && fingerprint(
                records@[i].goal@,
            ) == fingerprint(goal@),
{
    let fp = goal_fingerprint(goal);
    let mut i: usize = 0;
    while i < records.len()
        invariant
            i <= records@.len(),
            fp@ == fingerprint(goal@),
            forall|k: int|
                0 <= k < i ==> !((#[trigger] records@[k]).status == MemoryStatus::Success && fingerprint(
                    records@[k].goal@,
                ) == fingerprint(goal@)),
        decreases records@.len() - i,
    {
        if records[i].status == MemoryStatus::Success {
            let other = goal_fingerprint(records[i].goal.as_str());
            if string_eq(&other, &fp) {
                return true;
            }
        }
        i = i + 1;
    }
    false
}

/// The runs whose goal is exactly `goal`.
pub open spec fn goal_uses(records: Seq<MemoryRecord>, goal: Seq<char>) -> nat
    decreases records.len(),
{
    if records.len() == 0 {
        0
    } else {
        goal_uses(records.drop_last(), goal) + if records.last().goal@ == goal {
            1nat
        } else {
            0nat
        }
    }
}

/// How often a goal was run word for word: the usage behind a
/// recommendation's confidence.
pub fn goal_usage(goal: &str, records: &[MemoryRecord]) -> (r: usize)
    ensures
        r == goal_uses(records@, goal@),
{
    let mut count: usize = 0;
    let mut i: usize = 0;
    while i < records.len()
        invariant
            i <= records@.len(),
            count == goal_uses(records@.take(i as int), goal@),
            count <= i,
        decreases records@.len() - i,
    {
        proof {
            assert(records@.take(i + 1).drop_last() =~= records@.take(i as int));
            assert(records@.take(i + 1).last() == records@[i as int]);
        }
        if crate::text::str_eq(records[i].goal.as_str(), goal) {
            count = count + 1;
        }
        i = i + 1;
    }
    proof {
        assert(records@.take(records@.len() as int) =~= records@);
    }
    count
}

/// The integer figures of workflow quality; the rates built from them are
/// floating point.
pub struct WorkflowQualityCounts {
    pub workflow_count: u64,
    /// Workflows with at least one success.
    pub replayed_workflows: u64,
    /// Successes summed over the workflows.
    pub successful_runs: u64,
    /// Records that hold a plan.
    pub planned_records: u64,
    /// The mean of the positive run durations, in whole seconds (0 when
    /// there is none).
    pub avg_duration_seconds: u64,
    /// Replays summed over the records.
    pub total_replays: u64,
}

/// The workflows with at least one success.
pub open spec fn replayed_count(ws: Seq<LearnedWorkflow>) -> nat
    decreases ws.len(),
{
    if ws.len() == 0 {
        0
    } else {
        replayed_count(ws.drop_last()) + if ws.last().success_count > 0 {
            1nat
        } else {
            0nat
        }
    }
}

/// The successes summed over the workflows.
pub open spec fn success_sum(ws: Seq<LearnedWorkflow>) -> nat
    decreases ws.len(),
{
    if ws.len() == 0 {
        0
    } else {
        success_sum(ws.drop_last()) + ws.last().success_count as nat
    }
}

/// The records that hold a plan.
pub open spec fn planned_count(records: Seq<MemoryRecord>) -> nat
    decreases records.len(),
{
    if records.len() == 0 {
        0
    } else {
        planned_count(records.drop_last()) + if records.last().plan is Some {
            1nat
        } else {
            0nat
        }
    }
}

/// The positive run durations summed, and how many there are.
pub open spec fn positive_durations(records: Seq<MemoryRecord>) -> (nat, nat)
    decreases records.len(),
{
    if records.len() == 0 {
        (0, 0)
    } else {
        let (sum, count) = positive_durations(records.drop_last());
        let d = records.last().outcome.duration_seconds;
        if d > 0 {
            (sum + d as nat, count + 1)
        } else {
            (sum, count)
        }
    }
}

proof fn lemma_counts_bounded(records: Seq<MemoryRecord>, ws: Seq<LearnedWorkflow>)
    ensures
        planned_count(records) <= records.len(),
        positive_durations(records).1 <= records.len(),
        replayed_count(ws) <= ws.len(),
    decreases records.len() + ws.len(),
{
    if records.len() > 0 {
        lemma_counts_bounded(records.drop_last(), ws);
    } else if ws.len() > 0 {
        lemma_counts_bounded(records, ws.drop_last());
    }
}

/// The integer figures of the quality of `workflows`, the workflows
/// learned from `records`: how many there are, how many were replayed
/// (succeeded at least once), the successes they add up to, the records
/// with a plan, the mean positive duration and the replays in all. With no
/// workflow every figure is 0.
pub fn workflow_quality_counts(records: &[MemoryRecord], workflows: &Vec<LearnedWorkflow>) -> (r: WorkflowQualityCounts)
    requires
        success_sum(workflows@) <= u64::MAX,
        positive_durations(records@).0 <= u64::MAX,
        replay_total(records@) <= u64::MAX,
    ensures
        r.workflow_count == workflows@.len(),
        r.replayed_workflows == replayed_count(workflows@),
        r.successful_runs == success_sum(workflows@),
        workflows@.len() == 0 ==> r.planned_records == 0 && r.avg_duration_seconds == 0 && r.total_replays == 0,
        workflows@.len() > 0 ==> {
            &&& r.planned_records == planned_count(records@)
            &&& r.avg_duration_seconds == if positive_durations(records@).1 == 0 {
                0
            } else {
                positive_durations(records@).0 / positive_durations(records@).1
            }
            &&& r.total_replays == replay_total(records@)
        },
{
    if workflows.len() == 0 {
        return WorkflowQualityCounts {
            workflow_count: 0,
            replayed_workflows: 0,
            successful_runs: 0,
            planned_records: 0,
            avg_duration_seconds: 0,
            total_replays: 0,
        };
    }
    let mut replayed: u64 = 0;
    let mut successes: u64 = 0;
    let mut p: usize = 0;
    while p < workflows.len()
        invariant
            p <= workflows@.len(),
            success_sum(workflows@) <= u64::MAX,
            replayed == replayed_count(workflows@.take(p as int)),
            successes == success_sum(workflows@.take(p as int)),
        decreases workflows@.len() - p,
    {
        let ghost prefix = workflows@.take(p as int);
        proof {
            assert(workflows@.take(p + 1).drop_last() =~= prefix);
            assert(workflows@.take(p + 1).last() == workflows@[p as int]);
            lemma_success_sum_prefix(workflows@, p as int + 1);
            lemma_counts_bounded(Seq::empty(), prefix);
        }
        if workflows[p].success_count > 0 {
            replayed = replayed + 1;
        }
        successes = successes + workflows[p].success_count;
        p = p + 1;
    }
    let mut planned: u64 = 0;
    let mut duration_sum: u64 = 0;
    let mut duration_count: u64 = 0;
    let mut replays: u64 = 0;
    let mut i: usize = 0;
    while i < records.len()
        invariant
            i <= records@.len(),
            positive_durations(records@).0 <= u64::MAX,
            replay_total(records@) <= u64::MAX,
            planned == planned_count(records@.take(i as int)),
            (duration_sum as nat, duration_count as nat) == positive_durations(records@.take(i as int)),
            replays == replay_total(records@.take(i as int)),
        decreases records@.len() - i,
    {
        let ghost prefix = records@.take(i as int);
        proof {
            assert(records@.take(i + 1).drop_last() =~= prefix);
            assert(records@.take(i + 1).last() == records@[i as int]);
            lemma_record_sums_prefix(records@, i as int + 1);
            lemma_counts_bounded(prefix, Seq::empty());
        }
        let record = &records[i];
        if record.plan.is_some() {
            planned = planned + 1;
        }
        if record.outcome.duration_seconds > 0 {
            duration_sum = duration_sum + record.outcome.duration_seconds;
            duration_count = duration_count + 1;
        }
        replays = replays + record.replay_count;
        i = i + 1;
    }
    proof {
        assert(workflows@.take(workflows@.len() as int) =~= workflows@);
        assert(records@.take(records@.len() as int) =~= records@);
    }
    let avg = if duration_count == 0 {
        0
    } else {
        duration_sum / duration_count
    };
    WorkflowQualityCounts {
        workflow_count: workflows.len() as u64,
        replayed_workflows: replayed,
        successful_runs: successes,
        planned_records: planned,
        avg_duration_seconds: avg,
        total_replays: replays,
    }
}

/// A prefix's success sum is at most the whole's.
proof fn lemma_success_sum_prefix(ws: Seq<LearnedWorkflow>, n: int)
    requires
        0 <= n <= ws.len(),
    ensures
        success_sum(ws.take(n)) <= success_sum(ws),
    decreases ws.len() - n,
{
    if n < ws.len() {
        lemma_success_sum_prefix(ws, n + 1);
        assert(ws.take(n + 1).drop_last() =~= ws.take(n));
    } else {
        assert(ws.take(n) =~= ws);
    }
}

/// A prefix's duration and replay sums are at most the whole's.
proof fn lemma_record_sums_prefix(records: Seq<MemoryRecord>, n: int)
    requires
        0 <= n <= records.len(),
    ensures
        positive_durations(records.take(n)).0 <= positive_durations(records).0,
        replay_total(records.take(n)) <= replay_total(records),
    decreases records.len() - n,
{
    if n < records.len() {
        lemma_record_sums_prefix(records, n + 1);
        assert(records.take(n + 1).drop_last() =~= records.take(n));
    } else {
        assert(records.take(n) =~= records);
    }
}

} // verus!
