//! Execution memory: the durable records the assistant learns from, their
//! kinds, outcomes and retention, and the normalised goal fingerprint and
//! text hash under which records are grouped and cached.

use std::hash::{Hash, Hasher};
use vstd::prelude::*;
use crate::chars::{decimal, push_decimal};
use crate::json_text::push_str;
use crate::plan::{ExecutionPlan, PlannerReport};
use crate::text::{is_space, is_space_char, string_of, strings_view};

verus! {

/// What kind of execution produced a memory record.
#[derive(Debug, Clone, Copy, PartialEq, Eq, Structural)]
pub enum MemoryKind {
    /// A plan execution driven by the execution engine.
    Execution,
    /// A planner report attached to an engine execution.
    PlannerReport,
    /// A whole autonomous session.
    AutonomousSession,
}

/// The stored text of a memory kind.
pub open spec fn memory_kind_text(k: MemoryKind) -> Seq<char> {
    match k {
        MemoryKind::Execution => "execution"@,
        MemoryKind::PlannerReport => "planner_report"@,
        MemoryKind::AutonomousSession => "autonomous_session"@,
    }
}

/// The memory kind a stored text denotes, if any.
pub open spec fn memory_kind_of(t: Seq<char>) -> Option<MemoryKind> {
    if t == "execution"@ {
        Some(MemoryKind::Execution)
    } else if t == "planner_report"@ {
        Some(MemoryKind::PlannerReport)
    } else if t == "autonomous_session"@ {
        Some(MemoryKind::AutonomousSession)
    } else {
        None
    }
}

impl MemoryKind {
    /// The stored text of the kind.
    pub fn as_str(&self) -> (r: &'static str)
        ensures
            r@ == memory_kind_text(*self),
    {
        match self {
            MemoryKind::Execution => "execution",
            MemoryKind::PlannerReport => "planner_report",
            MemoryKind::AutonomousSession => "autonomous_session",
        }
    }

    /// The kind a stored text denotes.
    pub fn parse(s: &str) -> (r: Option<MemoryKind>)
        ensures
            r == memory_kind_of(s@),
    {
        if crate::text::str_eq(s, "execution") {
            Some(MemoryKind::Execution)
        } else if crate::text::str_eq(s, "planner_report") {
            Some(MemoryKind::PlannerReport)
        } else if crate::text::str_eq(s, "autonomous_session") {
            Some(MemoryKind::AutonomousSession)
        } else {
            None
        }
    }
}

/// Reading back the stored text of a memory kind gives the kind.
pub proof fn lemma_memory_kind_round_trip(k: MemoryKind)
    ensures
        memory_kind_of(memory_kind_text(k)) == Some(k),
{
    reveal_strlit("execution");
    reveal_strlit("planner_report");
    reveal_strlit("autonomous_session");
    assert("execution"@.len() == 9);
    assert("planner_report"@.len() == 14);
    assert("autonomous_session"@.len() == 18);
}

/// Outcome of a remembered run.
#[derive(Debug, Clone, Copy, PartialEq, Eq, Structural)]
pub enum MemoryStatus {
    Success,
    Failed,
    Cancelled,
}

/// The stored text of a memory status.
pub open spec fn memory_status_text(s: MemoryStatus) -> Seq<char> {
    match s {
        MemoryStatus::Success => "success"@,
        MemoryStatus::Failed => "failed"@,
        MemoryStatus::Cancelled => "cancelled"@,
    }
}

impl MemoryStatus {
    /// The stored text of the status.
    pub fn as_str(&self) -> (r: &'static str)
        ensures
            r@ == memory_status_text(*self),
    {
        match self {
            MemoryStatus::Success => "success",
            MemoryStatus::Failed => "failed",
            MemoryStatus::Cancelled => "cancelled",
        }
    }
}

/// How long a memory is kept.
#[derive(Debug, Clone, Copy, PartialEq, Eq, Structural)]
pub enum RetentionPolicy {
    /// Kept until its deadline passes, then expired.
    Temporary,
    /// Kept indefinitely.
    Permanent,
    /// Kept, out of active circulation.
    Archived,
    /// Due for deletion.
    Expired,
}

/// Outcome accounting stored on every memory record.
#[derive(Clone, Copy)]
pub struct MemoryOutcome {
    pub steps: usize,
    pub completed: usize,
    pub replaced: usize,
    pub replan_count: usize,
    pub retries_used: u64,
    pub plans_attempted: u64,
    /// Completion time of the run in seconds (0 when unknown).
    pub duration_seconds: u64,
}

impl Default for MemoryOutcome {
    fn default() -> (r: Self)
        ensures
            r.steps == 0 && r.completed == 0 && r.replaced == 0 && r.replan_count == 0 && r.retries_used == 0
                && r.plans_attempted == 0 && r.duration_seconds == 0,
    {
        MemoryOutcome {
            steps: 0,
            completed: 0,
            replaced: 0,
            replan_count: 0,
            retries_used: 0,
            plans_attempted: 0,
            duration_seconds: 0,
        }
    }
}

/// One durable memory row. Times are nanoseconds since the Unix epoch.
/// The goal embedding that the store keeps beside a record is held by the
/// vector index, not here.
pub struct MemoryRecord {
    pub id: u128,
    pub kind: MemoryKind,
    /// The engine execution or autonomous session this memory came from.
    pub source_id: u128,
    pub workspace_id: Option<u128>,
    pub goal: String,
    pub status: MemoryStatus,
    pub plan: Option<ExecutionPlan>,
    /// Step descriptions, in execution order.
    pub steps: Vec<String>,
    pub reasoning: Vec<String>,
    pub tools_used: Vec<String>,
    /// Tool names or step descriptions that failed.
    pub failed_steps: Vec<String>,
    pub error: Option<String>,
    pub outcome: MemoryOutcome,
    pub replay_count: u64,
    pub created_at: i128,
    pub updated_at: i128,
    pub retention: RetentionPolicy,
    pub retention_until: Option<i128>,
    pub archived_at: Option<i128>,
    pub expired_at: Option<i128>,
    pub summary: Option<String>,
    pub compressed_at: Option<i128>,
    pub version: u32,
    pub parent_id: Option<u128>,
}

/// What failed in a run that did not succeed: its error, else its first
/// failed tool, else that it was cancelled.
pub open spec fn failure_text(r: MemoryRecord) -> Seq<char> {
    match r.error {
        Some(e) => e@,
        None => {
            let i = first_non_empty_from(strings_view(r.failed_steps@), 0);
            if i >= 0 {
                "tool '"@ + strings_view(r.failed_steps@)[i] + "' failed"@
            } else {
                "run was cancelled"@
            }
        },
    }
}

/// Position of the first non-empty entry at or after `i`, or -1.
pub open spec fn first_non_empty_from(s: Seq<Seq<char>>, i: int) -> int
    decreases s.len() - i,
{
    if i < 0 || i >= s.len() {
        -1
    } else if s[i].len() > 0 {
        i
    } else {
        first_non_empty_from(s, i + 1)
    }
}

impl MemoryRecord {
    /// The first non-empty failed step or tool, if any (the strategy to
    /// avoid).
    pub fn first_failed_tool(&self) -> (r: Option<&str>)
        ensures
            match r {
                None => first_non_empty_from(strings_view(self.failed_steps@), 0) == -1,
                Some(t) => {
                    let i = first_non_empty_from(strings_view(self.failed_steps@), 0);
                    i >= 0 && t@ == strings_view(self.failed_steps@)[i]
                },
            },
    {
        let ghost fs = strings_view(self.failed_steps@);
        let mut i: usize = 0;
        while i < self.failed_steps.len()
            invariant
                i <= self.failed_steps@.len(),
                fs == strings_view(self.failed_steps@),
                first_non_empty_from(fs, 0) == first_non_empty_from(fs, i as int),
            decreases self.failed_steps.len() - i,
        {
            if self.failed_steps[i].as_str().unicode_len() > 0 {
                proof {
                    assert(fs[i as int] == self.failed_steps@[i as int]@);
                }
                return Some(self.failed_steps[i].as_str());
            }
            proof {
                assert(fs[i as int] == self.failed_steps@[i as int]@);
            }
            i = i + 1;
        }
        None
    }

    /// What failed in this run, for the strategies to avoid: its error,
    /// else its first failed tool, else that it was cancelled.
    pub fn failure_description(&self) -> (r: String)
        ensures
            r@ == failure_text(*self),
    {
        match &self.error {
            Some(e) => e.clone(),
            None => match self.first_failed_tool() {
                Some(tool) => {
                    let mut text: Vec<char> = Vec::new();
                    push_str(&mut text, "tool '");
                    push_str(&mut text, tool);
                    push_str(&mut text, "' failed");
                    string_of(text.as_slice())
                },
                None => String::from_str("run was cancelled"),
            },
        }
    }
}

/// Filters for a memory search.
pub struct MemorySearchRequest {
    pub query: String,
    pub kind: Option<MemoryKind>,
    pub workspace_id: Option<u128>,
    pub status: Option<MemoryStatus>,
    pub limit: usize,
}

impl MemorySearchRequest {
    /// A search for `query` over every kind, workspace and outcome, with at
    /// most ten hits.
    pub fn new(query: String) -> (r: Self)
        ensures
            r.query == query,
            r.kind is None,
            r.workspace_id is None,
            r.status is None,
            r.limit == 10,
    {
        MemorySearchRequest { query, kind: None, workspace_id: None, status: None, limit: 10 }
    }
}

/// Aggregate statistics about the memory store.
#[derive(Clone, Copy)]
pub struct MemoryStats {
    pub total_records: u64,
    pub successful: u64,
    pub failed: u64,
    pub cancelled: u64,
    pub executions: u64,
    pub planner_reports: u64,
    pub autonomous_sessions: u64,
    pub total_replays: u64,
    pub learned_workflows: u64,
}

impl Default for MemoryStats {
    fn default() -> (r: Self)
        ensures
            r.total_records == 0 && r.successful == 0 && r.failed == 0 && r.cancelled == 0 && r.executions == 0
                && r.planner_reports == 0 && r.autonomous_sessions == 0 && r.total_replays == 0
                && r.learned_workflows == 0,
    {
        MemoryStats {
            total_records: 0,
            successful: 0,
            failed: 0,
            cancelled: 0,
            executions: 0,
            planner_reports: 0,
            autonomous_sessions: 0,
            total_replays: 0,
            learned_workflows: 0,
        }
    }
}

/// Summarises a planner report into outcome accounting for a memory row.
pub fn outcome_from_report(report: &PlannerReport) -> (r: MemoryOutcome)
    ensures
        r.steps == report.plan.tasks@.len(),
        r.completed == report.completed@.len(),
        r.replaced == report.replaced@.len(),
        r.replan_count == report.replan_count,
        r.retries_used == 0,
        r.plans_attempted == 1,
        r.duration_seconds == 0,
{
    MemoryOutcome {
        steps: report.plan.tasks.len(),
        completed: report.completed.len(),
        replaced: report.replaced.len(),
        replan_count: report.replan_count,
        retries_used: 0,
        plans_attempted: 1,
        duration_seconds: 0,
    }
}

/// The text of `s` collapsed word by word, with whether a separating space
/// is owed before the next word: white space between words becomes one
/// space, leading and trailing white space is dropped.
pub open spec fn collapse_state(s: Seq<char>) -> (Seq<char>, bool)
    decreases s.len(),
{
    if s.len() == 0 {
        (Seq::empty(), false)
    } else {
        let (out, owed) = collapse_state(s.drop_last());
        let c = s.last();
        if is_space(c) {
            (out, out.len() > 0)
        } else if owed {
            (out.push(' ').push(c), false)
        } else {
            (out.push(c), false)
        }
    }
}

/// The words of `s` (maximal runs of non-white-space characters) joined by
/// single spaces.
pub open spec fn collapse_ws(s: Seq<char>) -> Seq<char> {
    collapse_state(s).0
}

/// Whether a text is in collapsed form: white space occurs only as single
/// spaces between two other characters.
pub open spec fn is_collapsed(t: Seq<char>) -> bool {
    forall|i: int|
        0 <= i < t.len() && is_space(#[trigger] t[i]) ==> t[i] == ' ' && 0 < i < t.len() - 1 && !is_space(t[i - 1])
            && !is_space(t[i + 1])
}

/// Collapsing white space leaves only single spaces between words: no
/// leading, trailing or repeated white space.
pub proof fn lemma_collapse_shape(s: Seq<char>)
    ensures
        is_collapsed(collapse_ws(s)),
        collapse_state(s).1 ==> collapse_state(s).0.len() > 0,
        collapse_state(s).0.len() > 0 ==> !is_space(collapse_state(s).0.last()),
    decreases s.len(),
{
    if s.len() > 0 {
        lemma_collapse_shape(s.drop_last());
        let (out, owed) = collapse_state(s.drop_last());
        let c = s.last();
        if !is_space(c) {
            let t = collapse_state(s).0;
            assert forall|i: int| 0 <= i < t.len() && is_space(#[trigger] t[i]) implies t[i] == ' ' && 0 < i < t.len()
                - 1 && !is_space(t[i - 1]) && !is_space(t[i + 1]) by {
                if owed {
                    assert(t == out.push(' ').push(c));
                    if i < out.len() {
                        assert(t[i] == out[i]);
                        assert(t[i - 1] == out[i - 1]);
                        if i + 1 < out.len() {
                            assert(t[i + 1] == out[i + 1]);
                        }
                    }
                } else {
                    assert(t == out.push(c));
                    if i < out.len() {
                        assert(t[i] == out[i]);
                        assert(t[i - 1] == out[i - 1]);
                        assert(t[i + 1] == out[i + 1]);
                    }
                }
            }
        }
    }
}

/// Whether every character of a text is ASCII.
pub open spec fn is_ascii_text(s: Seq<char>) -> bool {
    forall|i: int| 0 <= i < s.len() ==> (#[trigger] s[i] as u32) < 128
}

/// The small letter of an ASCII capital; any other character as it is.
pub open spec fn lower_char(c: char) -> char {
    if 'A' <= c && c <= 'Z' {
        ((c as u32) + 32) as char
    } else {
        c
    }
}

/// A text with each ASCII capital replaced by its small letter.
pub open spec fn ascii_lower(s: Seq<char>) -> Seq<char> {
    s.map_values(|c: char| lower_char(c))
}

/// What `str::to_lowercase` gives for a text holding a character beyond
/// ASCII.
pub uninterp spec fn unicode_lowercase(s: Seq<char>) -> Seq<char>;

/// What `str::to_lowercase` gives for a text: for an ASCII text, each
/// capital letter replaced by its small letter (the Unicode lower-case
/// mapping of ASCII); for any other text, [`unicode_lowercase`].
pub open spec fn lowercase(s: Seq<char>) -> Seq<char> {
    if is_ascii_text(s) {
        ascii_lower(s)
    } else {
        unicode_lowercase(s)
    }
}

/// Lower-cases a text: `str::to_lowercase`. For an ASCII text the result
/// is stated ([`lowercase`]); for any other, the Unicode case mapping is
/// not restated but named [`unicode_lowercase`].
#[verifier::external_body]
pub(crate) fn to_lowercase(s: &str) -> (r: String)
    ensures
        is_ascii_text(s@) ==> r@ == ascii_lower(s@),
        !is_ascii_text(s@) ==> r@ == unicode_lowercase(s@),
        r@ == lowercase(s@),
{
    s.to_lowercase()
}

/// The normalised fingerprint of a goal: its words joined by single spaces,
/// lower-cased.
pub open spec fn fingerprint(goal: Seq<char>) -> Seq<char> {
    lowercase(collapse_ws(goal))
}

/// Normalises a goal into the fingerprint under which learning aggregates:
/// trimmed, white space collapsed, lower-cased.
pub fn goal_fingerprint(goal: &str) -> (r: String)
    ensures
        r@ == fingerprint(goal@),
{
    let n = goal.unicode_len();
    let mut out: Vec<char> = Vec::new();
    let mut owed = false;
    let mut i: usize = 0;
    while i < n
        invariant
            n == goal@.len(),
            i <= n,
            (out@, owed) == collapse_state(goal@.take(i as int)),
        decreases n - i,
    {
        let c = goal.get_char(i);
        proof {
            assert(goal@.take(i + 1).drop_last() =~= goal@.take(i as int));
            assert(goal@.take(i + 1).last() == c);
        }
        if is_space_char(c) {
            owed = out.len() > 0;
        } else {
            if owed {
                out.push(' ');
            }
            out.push(c);
            owed = false;
        }
        i = i + 1;
    }
    proof {
        assert(goal@.take(n as int) =~= goal@);
    }
    let collapsed = string_of(out.as_slice());
    to_lowercase(collapsed.as_str())
}

/// What `DefaultHasher::new()` gives after hashing a text (`str::hash`,
/// then `finish`). `DefaultHasher::new()` starts from fixed keys.
pub uninterp spec fn default_hash(s: Seq<char>) -> u64;

/// The stable hash of a text: a fresh `DefaultHasher` fed the text, then
/// finished. The value is named [`default_hash`] of the text.
#[verifier::external_body]
pub(crate) fn hash_text(text: &str) -> (r: u64)
    ensures
        r == default_hash(text@),
{
    let mut hasher = std::collections::hash_map::DefaultHasher::new();
    text.hash(&mut hasher);
    hasher.finish()
}

/// The stable hash of a text as decimal text: the key of the embedding
/// cache and of the vector index.
pub fn text_hash(text: &str) -> (r: String)
    ensures
        r@ == decimal(default_hash(text@) as nat),
{
    let h = hash_text(text);
    let mut out: Vec<char> = Vec::new();
    push_decimal(h, &mut out);
    string_of(out.as_slice())
}

/// Kinds of failure patterns over remembered runs.
#[derive(Debug, Clone, Copy, PartialEq, Eq, Structural)]
pub enum FailurePatternType {
    /// A goal that failed more often than it succeeded, with at least two
    /// failures.
    RepeatedFailure,
    /// A goal with enough samples whose success rate is below half.
    UnstableWorkflow,
    /// A goal whose remembered plans carry low planner confidence.
    LowConfidencePlan,
}

/// The text of a failure pattern type.
pub open spec fn failure_pattern_text(t: FailurePatternType) -> Seq<char> {
    match t {
        FailurePatternType::RepeatedFailure => "repeated_failure"@,
        FailurePatternType::UnstableWorkflow => "unstable_workflow"@,
        FailurePatternType::LowConfidencePlan => "low_confidence_plan"@,
    }
}

impl FailurePatternType {
    /// The text of the pattern type.
    pub fn as_str(&self) -> (r: &'static str)
        ensures
            r@ == failure_pattern_text(*self),
    {
        match self {
            FailurePatternType::RepeatedFailure => "repeated_failure",
            FailurePatternType::UnstableWorkflow => "unstable_workflow",
            FailurePatternType::LowConfidencePlan => "low_confidence_plan",
        }
    }
}

/// Outcome of a duplicate merge pass.
#[derive(Clone, Copy)]
pub struct MergeResult {
    /// Duplicate groups merged.
    pub groups_merged: usize,
    /// Records removed as duplicates.
    pub records_merged: usize,
}

impl Default for MergeResult {
    fn default() -> (r: Self)
        ensures
            r.groups_merged == 0 && r.records_merged == 0,
    {
        MergeResult { groups_merged: 0, records_merged: 0 }
    }
}

/// Lower-casing keeps white space, and what is not white space.
proof fn lemma_lower_char(c: char)
    ensures
        is_space(lower_char(c)) == is_space(c),
        lower_char(lower_char(c)) == lower_char(c),
        (c as u32) < 128 ==> (lower_char(c) as u32) < 128,
{
}

/// Collapsing white space and lower-casing ASCII capitals commute.
proof fn lemma_collapse_lower(s: Seq<char>)
    ensures
        collapse_state(ascii_lower(s)).0 == ascii_lower(collapse_state(s).0),
        collapse_state(ascii_lower(s)).1 == collapse_state(s).1,
    decreases s.len(),
{
    if s.len() > 0 {
        let p = s.drop_last();
        lemma_collapse_lower(p);
        assert(ascii_lower(s).drop_last() =~= ascii_lower(p));
        let c = s.last();
        assert(ascii_lower(s).last() == lower_char(c));
        lemma_lower_char(c);
        let out = collapse_state(p).0;
        assert(ascii_lower(out.push(' ').push(c)) =~= ascii_lower(out).push(' ').push(lower_char(c)));
        assert(ascii_lower(out.push(c)) =~= ascii_lower(out).push(lower_char(c)));
    }
}

/// Collapsing white space keeps a text ASCII.
proof fn lemma_collapse_ascii(s: Seq<char>)
    requires
        is_ascii_text(s),
    ensures
        is_ascii_text(collapse_state(s).0),
    decreases s.len(),
{
    if s.len() > 0 {
        let p = s.drop_last();
        assert(is_ascii_text(p)) by {
            assert forall|i: int| 0 <= i < p.len() implies (#[trigger] p[i] as u32) < 128 by {
                assert(p[i] == s[i]);
            }
        }
        lemma_collapse_ascii(p);
        let c = s.last();
        assert((c as u32) < 128);
        let out = collapse_state(p).0;
        let t = collapse_state(s).0;
        assert forall|i: int| 0 <= i < t.len() implies (#[trigger] t[i] as u32) < 128 by {
            if i < out.len() {
                assert(t[i] == out[i]);
            }
        }
    }
}

/// A collapsed text collapses to itself.
proof fn lemma_collapse_collapsed(t: Seq<char>, k: int)
    requires
        is_collapsed(t),
        0 <= k <= t.len(),
    ensures
        collapse_state(t.take(k)) == if k > 0 && t[k - 1] == ' ' {
            (t.take(k - 1), true)
        } else {
            (t.take(k), false)
        },
    decreases k,
{
    if k > 0 {
        lemma_collapse_collapsed(t, k - 1);
        let p = t.take(k);
        assert(p.drop_last() =~= t.take(k - 1));
        assert(p.last() == t[k - 1]);
        let c = t[k - 1];
        if is_space(c) {
            assert(c == ' ' && k - 1 > 0 && !is_space(t[k - 2]));
        } else if k > 1 && t[k - 2] == ' ' {
            assert(k - 2 > 0);
            assert(t.take(k - 2).push(' ').push(c) =~= t.take(k));
        } else {
            assert(t.take(k - 1).push(c) =~= t.take(k));
            if k > 1 {
                assert(!is_space(t[k - 2]) || t[k - 2] == ' ');
            }
        }
    }
}

/// An ASCII goal's fingerprint is its collapsed text with capitals made
/// small: it is ASCII and collapsed, and fingerprinting it again gives it
/// back.
pub proof fn lemma_fingerprint_idempotent(goal: Seq<char>)
    requires
        is_ascii_text(goal),
    ensures
        fingerprint(goal) == ascii_lower(collapse_ws(goal)),
        is_ascii_text(fingerprint(goal)),
        is_collapsed(fingerprint(goal)),
        fingerprint(fingerprint(goal)) == fingerprint(goal),
{
    let c = collapse_ws(goal);
    lemma_collapse_ascii(goal);
    lemma_collapse_shape(goal);
    let f = ascii_lower(c);
    assert(is_ascii_text(f)) by {
        assert forall|i: int| 0 <= i < f.len() implies (#[trigger] f[i] as u32) < 128 by {
            lemma_lower_char(c[i]);
        }
    }
    assert(is_collapsed(f)) by {
        assert forall|i: int| 0 <= i < f.len() && is_space(#[trigger] f[i]) implies f[i] == ' ' && 0 < i < f.len()
            - 1 && !is_space(f[i - 1]) && !is_space(f[i + 1]) by {
            lemma_lower_char(c[i]);
            assert(is_space(c[i]));
            lemma_lower_char(c[i - 1]);
            lemma_lower_char(c[i + 1]);
        }
    }
    lemma_collapse_lower(c);
    lemma_collapse_collapsed(c, c.len() as int);
    assert(c.take(c.len() as int) =~= c);
    if c.len() > 0 {
        assert(!is_space(c[c.len() - 1]));
    }
    assert(collapse_ws(f) == f);
    assert(ascii_lower(f) =~= f) by {
        assert forall|i: int| 0 <= i < f.len() implies #[trigger] ascii_lower(f)[i] == f[i] by {
            lemma_lower_char(c[i]);
        }
    }
}

/// ASCII goals that differ only in the case of their letters have the same
/// fingerprint.
pub proof fn lemma_fingerprint_ignores_case(a: Seq<char>, b: Seq<char>)
    requires
        is_ascii_text(a),
        is_ascii_text(b),
        ascii_lower(a) == ascii_lower(b),
    ensures
        fingerprint(a) == fingerprint(b),
{
    lemma_collapse_ascii(a);
    lemma_collapse_ascii(b);
    lemma_collapse_lower(a);
    lemma_collapse_lower(b);
}

} // verus!
