//! Workflow families: learned workflows grouped by the tools their runs
//! share (or, for workflows without tools, by how close their goals
//! embed), so that recurring work shows as one family.
//!
//! Greedy single-link clustering: the workflows are taken in the order in
//! which they are learned, and each joins the first family holding a
//! member similar to it, or starts a family of its own. Two workflows with
//! tools are similar when the tools they share are at least half of all the
//! tools either uses (a Jaccard overlap of at least one half); two without
//! tools are similar when their goal embeddings are close, which the caller
//! decides.

use vstd::prelude::*;
use crate::learning::{
    LearnedWorkflow, learned_from, learned_workflows, lemma_count_bound, lemma_members_len, members_with, workflow_before,
};
use crate::memory::{MemoryRecord, MemoryStatus, fingerprint, goal_fingerprint};
use crate::order::{lemma_lex_antisymmetric, lemma_lex_total, lemma_lex_transitive, lex_le, string_le};
use crate::text::{
    count_of, distinct_texts, lemma_distinct_texts_unique, position_of, string_eq, strings_view, tally_texts,
};

verus! {

/// The tools used by the runs of `records` whose goal fingerprint is one
/// of `fps`, in run order, repeats included.
pub open spec fn tool_uses(records: Seq<MemoryRecord>, fps: Seq<Seq<char>>) -> Seq<Seq<char>>
    decreases records.len(),
{
    if records.len() == 0 {
        Seq::empty()
    } else {
        let rest = tool_uses(records.drop_last(), fps);
        if fps.contains(fingerprint(records.last().goal@)) {
            rest + strings_view(records.last().tools_used@)
        } else {
            rest
        }
    }
}

/// The tools of the workflow with fingerprint `fp`, each once.
pub open spec fn workflow_tools(records: Seq<MemoryRecord>, fp: Seq<char>) -> Seq<Seq<char>> {
    distinct_texts(tool_uses(records, seq![fp]))
}

/// How many texts of `a` occur in `b`.
pub open spec fn shared_count(a: Seq<Seq<char>>, b: Seq<Seq<char>>) -> nat
    decreases a.len(),
{
    if a.len() == 0 {
        0
    } else {
        shared_count(a.drop_last(), b) + if b.contains(a.last()) {
            1nat
        } else {
            0nat
        }
    }
}

/// Whether the caller marked workflows `a` and `b` as embedding close
/// together; a missing entry is no.
pub open spec fn close_at(close: Seq<Seq<bool>>, a: int, b: int) -> bool {
    0 <= a < close.len() && 0 <= b < close[a].len() && close[a][b]
}

/// Whether workflows `a` and `b` may share a family: a workflow is
/// always like itself; when either has tools, both must, and the tools
/// they share must be at least half of all the tools either uses (the
/// union of their tool sets); when neither has, their goals must embed
/// close together.
pub open spec fn alike(tools: Seq<Seq<Seq<char>>>, close: Seq<Seq<bool>>, a: int, b: int) -> bool {
    if a == b {
        true
    } else if tools[a].len() > 0 || tools[b].len() > 0 {
        tools[a].len() > 0 && tools[b].len() > 0 && 2 * shared_count(tools[a], tools[b]) >= tools[a].len()
            + tools[b].len() - shared_count(tools[a], tools[b])
    } else {
        close_at(close, a, b)
    }
}

/// Whether a family holds a member like workflow `index`.
pub open spec fn joins(family: Seq<int>, index: int, tools: Seq<Seq<Seq<char>>>, close: Seq<Seq<bool>>) -> bool {
    exists|m: int| 0 <= m < family.len() && alike(tools, close, #[trigger] family[m], index)
}

/// The first family that workflow `index` joins, or the number of
/// families when it joins none.
pub open spec fn first_joinable(
    fams: Seq<Seq<int>>,
    index: int,
    tools: Seq<Seq<Seq<char>>>,
    close: Seq<Seq<bool>>,
) -> int
    decreases fams.len(),
{
    if fams.len() == 0 {
        0
    } else {
        let j = first_joinable(fams.drop_last(), index, tools, close);
        if j < fams.len() - 1 {
            j
        } else if joins(fams.last(), index, tools, close) {
            fams.len() - 1
        } else {
            fams.len() as int
        }
    }
}

/// The families of workflows `0..k`, each family listing its members in
/// order.
pub open spec fn clusters(k: nat, tools: Seq<Seq<Seq<char>>>, close: Seq<Seq<bool>>) -> Seq<Seq<int>>
    decreases k,
{
    if k == 0 {
        Seq::empty()
    } else {
        let fams = clusters((k - 1) as nat, tools, close);
        let j = first_joinable(fams, k - 1, tools, close);
        if j < fams.len() {
            fams.update(j, fams[j].push(k - 1))
        } else {
            fams.push(seq![k - 1])
        }
    }
}

/// The views of lists of strings.
pub open spec fn lists_view(v: Seq<Vec<String>>) -> Seq<Seq<Seq<char>>> {
    v.map_values(|l: Vec<String>| strings_view(l@))
}

/// The views of rows of flags.
pub open spec fn rows_view(v: Seq<Vec<bool>>) -> Seq<Seq<bool>> {
    v.map_values(|r: Vec<bool>| r@)
}

/// The fingerprints of the records' goals.
fn fingerprints(records: &[MemoryRecord]) -> (fps: Vec<String>)
    ensures
        fps@.len() == records@.len(),
        forall|i: int| 0 <= i < records@.len() ==> (#[trigger] fps@[i])@ == fingerprint(records@[i].goal@),
{
    let mut fps: Vec<String> = Vec::new();
    let mut i: usize = 0;
    while i < records.len()
        invariant
            i <= records@.len(),
            fps@.len() == i,
            forall|k: int| 0 <= k < i ==> (#[trigger] fps@[k])@ == fingerprint(records@[k].goal@),
        decreases records@.len() - i,
    {
        fps.push(goal_fingerprint(records[i].goal.as_str()));
        i = i + 1;
    }
    fps
}

/// The tools used by the runs whose fingerprint is one of `wanted` (see
/// [`tool_uses`]).
fn collect_tool_uses(records: &[MemoryRecord], fps: &Vec<String>, wanted: &Vec<String>) -> (r: Vec<String>)
    requires
        fps@.len() == records@.len(),
        forall|i: int| 0 <= i < records@.len() ==> (#[trigger] fps@[i])@ == fingerprint(records@[i].goal@),
    ensures
        strings_view(r@) == tool_uses(records@, strings_view(wanted@)),
{
    let ghost fw = strings_view(wanted@);
    let mut out: Vec<String> = Vec::new();
    let mut i: usize = 0;
    while i < records.len()
        invariant
            i <= records@.len(),
            fps@.len() == records@.len(),
            forall|k: int| 0 <= k < records@.len() ==> (#[trigger] fps@[k])@ == fingerprint(records@[k].goal@),
            fw == strings_view(wanted@),
            strings_view(out@) == tool_uses(records@.take(i as int), fw),
        decreases records@.len() - i,
    {
        let record = &records[i];
        proof {
            assert(records@.take(i + 1).drop_last() =~= records@.take(i as int));
            assert(records@.take(i + 1).last() == records@[i as int]);
        }
        let found = position_of(wanted, &fps[i]);
        match found {
            Some(j) => {
                proof {
                    assert(fw[j as int] == fps@[i as int]@);
                    assert(fw.contains(fingerprint(record.goal@)));
                }
                let ghost before = out@;
                let mut t: usize = 0;
                while t < record.tools_used.len()
                    invariant
                        t <= record.tools_used@.len(),
                        strings_view(out@) == strings_view(before) + strings_view(record.tools_used@).take(t as int),
                    decreases record.tools_used@.len() - t,
                {
                    let tool = record.tools_used[t].clone();
                    let ghost prev = out@;
                    out.push(tool);
                    proof {
                        assert(strings_view(out@) =~= strings_view(prev).push(record.tools_used@[t as int]@));
                        assert(strings_view(record.tools_used@).take(t + 1) =~= strings_view(record.tools_used@).take(
                            t as int,
                        ).push(record.tools_used@[t as int]@));
                        assert(strings_view(out@) =~= strings_view(before) + strings_view(record.tools_used@).take(
                            t + 1,
                        ));
                    }
                    t = t + 1;
                }
                proof {
                    assert(strings_view(record.tools_used@).take(record.tools_used@.len() as int) =~= strings_view(
                        record.tools_used@,
                    ));
                }
            },
            None => {},
        }
        i = i + 1;
    }
    proof {
        assert(records@.take(records@.len() as int) =~= records@);
    }
    out
}

/// How many texts of `a` occur in `b`.
fn count_shared(a: &Vec<String>, b: &Vec<String>) -> (r: usize)
    ensures
        r == shared_count(strings_view(a@), strings_view(b@)),
        r <= a@.len(),
{
    let ghost sa = strings_view(a@);
    let mut n: usize = 0;
    let mut i: usize = 0;
    while i < a.len()
        invariant
            i <= a@.len(),
            sa == strings_view(a@),
            n == shared_count(sa.take(i as int), strings_view(b@)),
            n <= i,
        decreases a@.len() - i,
    {
        proof {
            assert(sa.take(i + 1).drop_last() =~= sa.take(i as int));
            assert(sa.take(i + 1).last() == a@[i as int]@);
        }
        if position_of(b, &a[i]).is_some() {
            proof {
                let j = choose|j: int| 0 <= j < b@.len() && b@[j]@ == a@[i as int]@;
                assert(strings_view(b@)[j] == a@[i as int]@);
            }
            n = n + 1;
        }
        i = i + 1;
    }
    proof {
        assert(sa.take(a@.len() as int) =~= sa);
    }
    n
}

/// Workflow positions as integers.
pub open spec fn positions_view(f: Seq<usize>) -> Seq<int> {
    f.map_values(|m: usize| m as int)
}

/// The views of families of workflow positions.
pub open spec fn families_view(v: Seq<Vec<usize>>) -> Seq<Seq<int>> {
    v.map_values(|f: Vec<usize>| positions_view(f@))
}

/// [`first_joinable`] is the first family that the workflow joins, or the
/// number of families when it joins none.
proof fn lemma_first_joinable(fams: Seq<Seq<int>>, index: int, tools: Seq<Seq<Seq<char>>>, close: Seq<Seq<bool>>)
    ensures
        0 <= first_joinable(fams, index, tools, close) <= fams.len(),
        first_joinable(fams, index, tools, close) < fams.len() ==> joins(
            fams[first_joinable(fams, index, tools, close)],
            index,
            tools,
            close,
        ),
        forall|j: int|
            0 <= j < first_joinable(fams, index, tools, close) ==> !joins(#[trigger] fams[j], index, tools, close),
    decreases fams.len(),
{
    if fams.len() > 0 {
        let prefix = fams.drop_last();
        lemma_first_joinable(prefix, index, tools, close);
        assert forall|j: int| 0 <= j < prefix.len() implies #[trigger] fams[j] == prefix[j] by {}
    }
}

/// Whether workflows `a` and `b` may share a family (see [`alike`]).
fn is_alike(tools: &Vec<Vec<String>>, close: &Vec<Vec<bool>>, a: usize, b: usize) -> (r: bool)
    requires
        a < tools@.len(),
        b < tools@.len(),
    ensures
        r == alike(lists_view(tools@), rows_view(close@), a as int, b as int),
{
    if a == b {
        return true;
    }
    let ta = &tools[a];
    let tb = &tools[b];
    proof {
        assert(lists_view(tools@)[a as int] == strings_view(ta@));
        assert(lists_view(tools@)[b as int] == strings_view(tb@));
    }
    if ta.len() > 0 || tb.len() > 0 {
        if ta.len() == 0 || tb.len() == 0 {
            return false;
        }
        let shared = count_shared(ta, tb) as u128;
        3 * shared >= (ta.len() as u128) + (tb.len() as u128)
    } else {
        if a < close.len() && b < close[a].len() {
            proof {
                assert(rows_view(close@)[a as int] == close@[a as int]@);
            }
            close[a][b]
        } else {
            proof {
                if a < close@.len() {
                    assert(rows_view(close@)[a as int] == close@[a as int]@);
                }
            }
            false
        }
    }
}

/// A copy of `v` with `x` added at the end.
fn copy_push(v: &Vec<usize>, x: usize) -> (r: Vec<usize>)
    ensures
        r@ == v@.push(x),
{
    let mut r: Vec<usize> = Vec::new();
    let mut i: usize = 0;
    while i < v.len()
        invariant
            i <= v@.len(),
            r@ == v@.take(i as int),
        decreases v@.len() - i,
    {
        r.push(v[i]);
        proof {
            assert(r@ =~= v@.take(i + 1));
        }
        i = i + 1;
    }
    proof {
        assert(v@.take(v@.len() as int) =~= v@);
    }
    r.push(x);
    r
}

/// The families of all workflows (see [`clusters`]).
fn place_workflows(tools: &Vec<Vec<String>>, close: &Vec<Vec<bool>>) -> (fams: Vec<Vec<usize>>)
    ensures
        families_view(fams@) == clusters(tools@.len() as nat, lists_view(tools@), rows_view(close@)),
        forall|f: int, m: int|
            0 <= f < fams@.len() && 0 <= m < fams@[f]@.len() ==> #[trigger] fams@[f]@[m] < tools@.len(),
        forall|f: int| 0 <= f < fams@.len() ==> 0 < (#[trigger] fams@[f])@.len() <= tools@.len(),
{
    let ghost tv = lists_view(tools@);
    let ghost cv = rows_view(close@);
    let mut fams: Vec<Vec<usize>> = Vec::new();
    let mut index: usize = 0;
    while index < tools.len()
        invariant
            index <= tools@.len(),
            tv == lists_view(tools@),
            cv == rows_view(close@),
            families_view(fams@) == clusters(index as nat, tv, cv),
            forall|f: int, m: int| 0 <= f < fams@.len() && 0 <= m < fams@[f]@.len() ==> #[trigger] fams@[f]@[m] < index,
            forall|f: int| 0 <= f < fams@.len() ==> 0 < (#[trigger] fams@[f])@.len() <= index,
        decreases tools@.len() - index,
    {
        let ghost fv = families_view(fams@);
        proof {
            lemma_first_joinable(fv, index as int, tv, cv);
        }
        let mut joined: Option<usize> = None;
        let mut j: usize = 0;
        while j < fams.len() && joined.is_none()
            invariant
                index < tools@.len(),
                j <= fams@.len(),
                fv == families_view(fams@),
                tv == lists_view(tools@),
                cv == rows_view(close@),
                forall|f: int, m: int| 0 <= f < fams@.len() && 0 <= m < fams@[f]@.len() ==> #[trigger] fams@[f]@[m] < index,
                match joined {
                    Some(x) => x < fams@.len() && joins(fv[x as int], index as int, tv, cv) && forall|y: int|
                        0 <= y < x ==> !joins(#[trigger] fv[y], index as int, tv, cv),
                    None => forall|y: int| 0 <= y < j ==> !joins(#[trigger] fv[y], index as int, tv, cv),
                },
            decreases fams@.len() - j,
        {
            let family = &fams[j];
            proof {
                assert(fv[j as int] == positions_view(family@));
            }
            let mut found = false;
            let mut m: usize = 0;
            while m < family.len() && !found
                invariant
                    index < tools@.len(),
                    j < fams@.len(),
                    fv.len() == fams@.len(),
                    m <= family@.len(),
                    forall|x: int| 0 <= x < family@.len() ==> #[trigger] family@[x] < index,
                    fv[j as int] == positions_view(family@),
                    tv == lists_view(tools@),
                    cv == rows_view(close@),
                    found ==> joins(fv[j as int], index as int, tv, cv),
                    !found ==> forall|x: int| 0 <= x < m ==> !alike(tv, cv, #[trigger] fv[j as int][x], index as int),
                decreases family@.len() - m + if found {
                    0int
                } else {
                    1int
                },
            {
                proof {
                    assert(fv[j as int][m as int] == family@[m as int] as int);
                }
                if is_alike(tools, close, family[m], index) {
                    found = true;
                } else {
                    m = m + 1;
                }
            }
            if found {
                joined = Some(j);
            } else {
                proof {
                    assert(fv[j as int].len() == family@.len());
                    assert(!joins(fv[j as int], index as int, tv, cv));
                }
            }
            j = j + 1;
        }
        let ghost fj = first_joinable(fv, index as int, tv, cv);
        match joined {
            Some(x) => {
                proof {
                    assert(fj == x) by {
                        if fj < x {
                            assert(!joins(fv[fj], index as int, tv, cv));
                        } else if fj > x {
                            assert(!joins(fv[x as int], index as int, tv, cv));
                        }
                    }
                }
                let grown = copy_push(&fams[x], index);
                let ghost before = fams@;
                fams.set(x, grown);
                proof {
                    assert(positions_view(grown@) =~= positions_view(before[x as int]@).push(index as int));
                    assert(families_view(fams@) =~= fv.update(x as int, fv[x as int].push(index as int)));
                }
            },
            None => {
                proof {
                    assert(fj == fv.len()) by {
                        if fj < fv.len() {
                            assert(!joins(fv[fj], index as int, tv, cv));
                        }
                    }
                }
                let mut single: Vec<usize> = Vec::new();
                single.push(index);
                let ghost before = fams@;
                proof {
                    assert(positions_view(single@) =~= seq![index as int]);
                }
                fams.push(single);
                proof {
                    assert(families_view(fams@) =~= fv.push(seq![index as int]));
                }
            },
        }
        index = index + 1;
    }
    fams
}

/// Text `a`, occurring `ca` times, ranks before text `b`, occurring `cb`
/// times: more occurrences first, then the smaller text.
pub open spec fn ranks_before(ca: nat, a: Seq<char>, cb: nat, b: Seq<char>) -> bool {
    ca > cb || (ca == cb && lex_le(a, b) && a != b)
}

/// Ranking is transitive.
proof fn lemma_ranks_transitive(ca: nat, a: Seq<char>, cb: nat, b: Seq<char>, cc: nat, c: Seq<char>)
    requires
        ranks_before(ca, a, cb, b),
        ranks_before(cb, b, cc, c),
    ensures
        ranks_before(ca, a, cc, c),
{
    if ca == cb && cb == cc {
        lemma_lex_transitive(a, b, c);
        if a == c {
            lemma_lex_antisymmetric(a, b);
        }
    }
}

/// Ranking is asymmetric.
proof fn lemma_ranks_asymmetric(ca: nat, a: Seq<char>, cb: nat, b: Seq<char>)
    requires
        ranks_before(ca, a, cb, b),
    ensures
        !ranks_before(cb, b, ca, a),
{
    if ca == cb && lex_le(b, a) {
        lemma_lex_antisymmetric(a, b);
    }
}

/// Two different texts rank one way or the other.
proof fn lemma_ranks_total(ca: nat, a: Seq<char>, cb: nat, b: Seq<char>)
    requires
        a != b,
    ensures
        ranks_before(ca, a, cb, b) || ranks_before(cb, b, ca, a),
{
    lemma_lex_total(a, b);
}

/// Position `p` of `keys` ranks before position `q`.
pub open spec fn key_before(keys: Seq<Seq<char>>, counts: Seq<usize>, p: int, q: int) -> bool {
    ranks_before(counts[p] as nat, keys[p], counts[q] as nat, keys[q])
}

/// Whether position `p` of `keys` ranks before position `q`.
fn key_before_exec(keys: &Vec<String>, counts: &Vec<usize>, p: usize, q: usize) -> (r: bool)
    requires
        p < keys@.len(),
        q < keys@.len(),
        counts@.len() == keys@.len(),
    ensures
        r == key_before(strings_view(keys@), counts@, p as int, q as int),
{
    proof {
        assert(strings_view(keys@)[p as int] == keys@[p as int]@);
        assert(strings_view(keys@)[q as int] == keys@[q as int]@);
    }
    counts[p] > counts[q] || (counts[p] == counts[q] && string_le(&keys[p], &keys[q]) && !string_eq(
        &keys[p],
        &keys[q],
    ))
}

/// The positions of distinct `keys`, ranked by their counts, most first,
/// then by text.
fn ranked_positions(keys: &Vec<String>, counts: &Vec<usize>) -> (order: Vec<usize>)
    requires
        counts@.len() == keys@.len(),
        forall|a: int, b: int| 0 <= a < b < keys@.len() ==> #[trigger] keys@[a]@ != #[trigger] keys@[b]@,
    ensures
        order@.len() == keys@.len(),
        forall|p: int| 0 <= p < order@.len() ==> #[trigger] order@[p] < keys@.len(),
        forall|x: usize| x < keys@.len() ==> order@.contains(x),
        forall|p: int, q: int|
            0 <= p < q < order@.len() ==> key_before(
                strings_view(keys@),
                counts@,
                #[trigger] order@[p] as int,
                #[trigger] order@[q] as int,
            ),
{
    let ghost kv = strings_view(keys@);
    let mut order: Vec<usize> = Vec::new();
    let mut k: usize = 0;
    while k < keys.len()
        invariant
            k <= keys@.len(),
            counts@.len() == keys@.len(),
            kv == strings_view(keys@),
            forall|a: int, b: int| 0 <= a < b < keys@.len() ==> #[trigger] keys@[a]@ != #[trigger] keys@[b]@,
            order@.len() == k,
            forall|p: int| 0 <= p < order@.len() ==> #[trigger] order@[p] < k,
            forall|x: usize| x < k ==> order@.contains(x),
            forall|p: int, q: int|
                0 <= p < q < order@.len() ==> key_before(kv, counts@, #[trigger] order@[p] as int, #[trigger] order@[q] as int),
        decreases keys@.len() - k,
    {
        let mut pos: usize = 0;
        while pos < order.len() && key_before_exec(keys, counts, order[pos], k)
            invariant
                pos <= order@.len(),
                k < keys@.len(),
                counts@.len() == keys@.len(),
                kv == strings_view(keys@),
                forall|p: int| 0 <= p < order@.len() ==> #[trigger] order@[p] < k,
                forall|x: int| 0 <= x < pos ==> key_before(kv, counts@, #[trigger] order@[x] as int, k as int),
            decreases order@.len() - pos,
        {
            pos = pos + 1;
        }
        let ghost old_order = order@;
        proof {
            if pos < old_order.len() {
                let o = old_order[pos as int] as int;
                assert(kv[o] == keys@[o]@ && kv[k as int] == keys@[k as int]@);
                assert(keys@[o]@ != keys@[k as int]@);
                lemma_ranks_total(counts@[o] as nat, kv[o], counts@[k as int] as nat, kv[k as int]);
                assert(key_before(kv, counts@, k as int, o));
                assert forall|q: int| pos <= q < old_order.len() implies key_before(
                    kv,
                    counts@,
                    k as int,
                    #[trigger] old_order[q] as int,
                ) by {
                    if q > pos {
                        let oq = old_order[q] as int;
                        assert(key_before(kv, counts@, o, oq));
                        lemma_ranks_transitive(
                            counts@[k as int] as nat,
                            kv[k as int],
                            counts@[o] as nat,
                            kv[o],
                            counts@[oq] as nat,
                            kv[oq],
                        );
                    }
                }
            }
        }
        order.insert(pos, k);
        proof {
            assert forall|p: int, q: int| 0 <= p < q < order@.len() implies key_before(
                kv,
                counts@,
                #[trigger] order@[p] as int,
                #[trigger] order@[q] as int,
            ) by {
                if q < pos {
                    assert(order@[p] == old_order[p] && order@[q] == old_order[q]);
                } else if q == pos {
                    assert(order@[p] == old_order[p]);
                } else if p < pos {
                    assert(order@[p] == old_order[p] && order@[q] == old_order[q - 1]);
                    let op = old_order[p] as int;
                    let oq = old_order[q - 1] as int;
                    assert(key_before(kv, counts@, op, k as int));
                    assert(key_before(kv, counts@, k as int, oq));
                    lemma_ranks_transitive(
                        counts@[op] as nat,
                        kv[op],
                        counts@[k as int] as nat,
                        kv[k as int],
                        counts@[oq] as nat,
                        kv[oq],
                    );
                } else if p == pos {
                    assert(order@[q] == old_order[q - 1]);
                } else {
                    assert(order@[p] == old_order[p - 1] && order@[q] == old_order[q - 1]);
                }
            }
            assert forall|x: usize| x < k + 1 implies order@.contains(x) by {
                if x < k {
                    assert(old_order.contains(x));
                    let p = choose|p: int| 0 <= p < old_order.len() && old_order[p] == x;
                    if p < pos {
                        assert(order@[p] == x);
                    } else {
                        assert(order@[p + 1] == x);
                    }
                } else {
                    assert(order@[pos as int] == x);
                }
            }
            assert forall|p: int| 0 <= p < order@.len() implies #[trigger] order@[p] < k + 1 by {
                if p < pos {
                    assert(order@[p] == old_order[p]);
                } else if p > pos {
                    assert(order@[p] == old_order[p - 1]);
                }
            }
        }
        k = k + 1;
    }
    order
}

/// A family of related workflows. Confidences are in thousandths.
pub struct WorkflowFamily {
    /// Position of the family in the ranked list.
    pub family_id: usize,
    /// The most common member goal (the smallest, on a tie).
    pub name: String,
    /// Number of member workflows.
    pub member_count: usize,
    /// The goal of each member workflow, in member order.
    pub goals: Vec<String>,
    /// Tools used by the members' runs at least twice (at least once in a
    /// family of one), most used first, then by name.
    pub shared_tools: Vec<String>,
    /// Successful runs across the family.
    pub total_successes: u64,
    /// Failed runs across the family.
    pub total_failures: u64,
    /// Sum of the plan confidences of the family's runs that have a plan.
    pub confidence_total: u64,
    /// Number of the family's runs that have a plan.
    pub confidence_samples: u64,
    /// Mean completion time, in whole seconds, of the family's runs whose
    /// time is known (0 when none is).
    pub avg_duration_seconds: u64,
}

/// The distinct texts are exactly the texts.
proof fn lemma_distinct_contains(ts: Seq<Seq<char>>)
    ensures
        forall|t: Seq<char>| #[trigger] distinct_texts(ts).contains(t) <==> ts.contains(t),
    decreases ts.len(),
{
    if ts.len() > 0 {
        let prefix = ts.drop_last();
        let x = ts.last();
        lemma_distinct_contains(prefix);
        let rest = distinct_texts(prefix);
        assert forall|t: Seq<char>| #[trigger] distinct_texts(ts).contains(t) <==> ts.contains(t) by {
            if ts.contains(t) {
                let i = choose|i: int| 0 <= i < ts.len() && ts[i] == t;
                if i < ts.len() - 1 {
                    assert(prefix[i] == t);
                    assert(prefix.contains(t));
                }
            }
            if prefix.contains(t) {
                let i = choose|i: int| 0 <= i < prefix.len() && prefix[i] == t;
                assert(ts[i] == t);
            }
            if t == x {
                assert(ts[ts.len() - 1] == t);
            }
            assert(rest.contains(t) <==> prefix.contains(t));
            if !rest.contains(x) {
                let d = rest.push(x);
                if d.contains(t) {
                    let j = choose|j: int| 0 <= j < d.len() && d[j] == t;
                    if j < rest.len() {
                        assert(rest[j] == t);
                    }
                }
                if rest.contains(t) {
                    let j = choose|j: int| 0 <= j < rest.len() && rest[j] == t;
                    assert(d[j] == t);
                }
                if t == x {
                    assert(d[rest.len() as int] == t);
                }
            }
        }
    }
}

/// The goals of the member workflows.
pub open spec fn member_goals(ws: Seq<LearnedWorkflow>, members: Seq<int>) -> Seq<Seq<char>> {
    members.map_values(|m: int| ws[m].goal@)
}

/// The fingerprints of the member workflows.
pub open spec fn member_fingerprints(ws: Seq<LearnedWorkflow>, members: Seq<int>) -> Seq<Seq<char>> {
    members.map_values(|m: int| ws[m].goal_fingerprint@)
}

/// The successful runs of the member workflows.
pub open spec fn successes_of(ws: Seq<LearnedWorkflow>, members: Seq<int>) -> nat
    decreases members.len(),
{
    if members.len() == 0 {
        0
    } else {
        successes_of(ws, members.drop_last()) + (ws[members.last()].success_count as nat)
    }
}

/// The failed runs of the member workflows.
pub open spec fn failures_of(ws: Seq<LearnedWorkflow>, members: Seq<int>) -> nat
    decreases members.len(),
{
    if members.len() == 0 {
        0
    } else {
        failures_of(ws, members.drop_last()) + (ws[members.last()].failure_count as nat)
    }
}

/// The sum of the plan confidences of the runs with one of `fps` that
/// have a plan, and how many such runs there are.
pub open spec fn plan_confidences(records: Seq<MemoryRecord>, fps: Seq<Seq<char>>) -> (nat, nat)
    decreases records.len(),
{
    if records.len() == 0 {
        (0, 0)
    } else {
        let (total, samples) = plan_confidences(records.drop_last(), fps);
        let r = records.last();
        if fps.contains(fingerprint(r.goal@)) && r.plan is Some {
            (total + (r.plan->Some_0.confidence as nat), samples + 1)
        } else {
            (total, samples)
        }
    }
}

/// The sum and the number of the known (positive) completion times of the
/// runs with one of `fps`.
pub open spec fn run_durations(records: Seq<MemoryRecord>, fps: Seq<Seq<char>>) -> (nat, nat)
    decreases records.len(),
{
    if records.len() == 0 {
        (0, 0)
    } else {
        let (total, samples) = run_durations(records.drop_last(), fps);
        let r = records.last();
        if fps.contains(fingerprint(r.goal@)) && r.outcome.duration_seconds > 0 {
            (total + (r.outcome.duration_seconds as nat), samples + 1)
        } else {
            (total, samples)
        }
    }
}

/// The mean known completion time of the runs with one of `fps`, rounded
/// down; 0 when none is known.
pub open spec fn mean_duration(records: Seq<MemoryRecord>, fps: Seq<Seq<char>>) -> nat {
    let (total, samples) = run_durations(records, fps);
    if samples == 0 {
        0
    } else {
        total / samples
    }
}

/// The sum of the completion times of all the runs.
pub open spec fn total_duration(records: Seq<MemoryRecord>) -> nat
    decreases records.len(),
{
    if records.len() == 0 {
        0
    } else {
        total_duration(records.drop_last()) + (records.last().outcome.duration_seconds as nat)
    }
}

/// A family's known times sum to no more than all the times, over every
/// prefix of the runs.
proof fn lemma_durations_bounded(records: Seq<MemoryRecord>, fps: Seq<Seq<char>>, i: int)
    requires
        0 <= i <= records.len(),
    ensures
        run_durations(records.take(i), fps).0 <= total_duration(records.take(i)),
        run_durations(records.take(i), fps).1 <= i,
        total_duration(records.take(i)) <= total_duration(records),
    decreases records.len() - i,
{
    if i < records.len() {
        lemma_durations_bounded(records, fps, i + 1);
        assert(records.take(i + 1).drop_last() =~= records.take(i));
    } else {
        assert(records.take(i) =~= records);
    }
    if i > 0 {
        lemma_durations_prefix(records.take(i), fps);
    }
}

/// The known times sum to no more than all the times.
proof fn lemma_durations_prefix(records: Seq<MemoryRecord>, fps: Seq<Seq<char>>)
    ensures
        run_durations(records, fps).0 <= total_duration(records),
        run_durations(records, fps).1 <= records.len(),
    decreases records.len(),
{
    if records.len() > 0 {
        lemma_durations_prefix(records.drop_last(), fps);
    }
}

/// The sum and the number of the known completion times of the runs whose
/// fingerprint is one of `member_fps`.
fn family_durations(records: &[MemoryRecord], fps: &Vec<String>, member_fps: &Vec<String>) -> (r: (u64, u64))
    requires
        fps@.len() == records@.len(),
        forall|k: int| 0 <= k < records@.len() ==> (#[trigger] fps@[k])@ == fingerprint(records@[k].goal@),
        total_duration(records@) <= u64::MAX,
    ensures
        (r.0 as nat, r.1 as nat) == run_durations(records@, strings_view(member_fps@)),
{
    let ghost fw = strings_view(member_fps@);
    let mut total: u64 = 0;
    let mut samples: u64 = 0;
    let mut i: usize = 0;
    while i < records.len()
        invariant
            fps@.len() == records@.len(),
            forall|k: int| 0 <= k < records@.len() ==> (#[trigger] fps@[k])@ == fingerprint(records@[k].goal@),
            total_duration(records@) <= u64::MAX,
            fw == strings_view(member_fps@),
            i <= records@.len(),
            (total as nat, samples as nat) == run_durations(records@.take(i as int), fw),
        decreases records@.len() - i,
    {
        let record = &records[i];
        proof {
            assert(records@.take(i + 1).drop_last() =~= records@.take(i as int));
            assert(records@.take(i + 1).last() == records@[i as int]);
            lemma_durations_bounded(records@, fw, i + 1);
        }
        if record.outcome.duration_seconds > 0 {
            match position_of(member_fps, &fps[i]) {
                Some(j) => {
                    proof {
                        assert(fw[j as int] == fps@[i as int]@);
                        assert(fw.contains(fingerprint(record.goal@)));
                    }
                    total = total + record.outcome.duration_seconds;
                    samples = samples + 1;
                },
                None => {},
            }
        }
        i = i + 1;
    }
    proof {
        assert(records@.take(records@.len() as int) =~= records@);
    }
    (total, samples)
}

/// `t` is among `all`, and no text of `all` ranks before it.
pub open spec fn is_top(all: Seq<Seq<char>>, t: Seq<char>) -> bool {
    &&& all.contains(t)
    &&& forall|i: int| 0 <= i < all.len() ==> !ranks_before(count_of(all, #[trigger] all[i]), all[i], count_of(all, t), t)
}

/// `r` lists, ranked, the texts occurring in `all` at least `least` times.
pub open spec fn ranked_common(all: Seq<Seq<char>>, least: nat, r: Seq<Seq<char>>) -> bool {
    &&& forall|a: int, b: int|
        0 <= a < b < r.len() ==> ranks_before(count_of(all, #[trigger] r[a]), r[a], count_of(all, #[trigger] r[b]), r[b])
    &&& forall|t: Seq<char>| #[trigger] r.contains(t) <==> (all.contains(t) && count_of(all, t) >= least)
}

/// How often a tool must be used to count as shared in a family of `n`.
pub open spec fn shared_threshold(n: nat) -> nat {
    if n < 2 {
        n
    } else {
        2
    }
}

/// `f` summarises the family of workflows at positions `members` of
/// `ws`, learned from `records` (its position in the list aside).
pub open spec fn describes_family(
    records: Seq<MemoryRecord>,
    ws: Seq<LearnedWorkflow>,
    members: Seq<int>,
    f: WorkflowFamily,
) -> bool {
    let goals = member_goals(ws, members);
    let fps = member_fingerprints(ws, members);
    &&& f.member_count == members.len()
    &&& strings_view(f.goals@) == goals
    &&& is_top(goals, f.name@)
    &&& ranked_common(tool_uses(records, fps), shared_threshold(members.len()), strings_view(f.shared_tools@))
    &&& f.total_successes == successes_of(ws, members)
    &&& f.total_failures == failures_of(ws, members)
    &&& f.confidence_total == plan_confidences(records, fps).0
    &&& f.confidence_samples == plan_confidences(records, fps).1
    &&& f.avg_duration_seconds == mean_duration(records, fps)
}

/// A running sum of at most `n` terms, each at most `n`, stays below the
/// square of `n`.
proof fn lemma_sum_step(total: int, c: int, p: int, n: int)
    by (nonlinear_arith)
    requires
        0 <= total <= p * n,
        0 <= c <= n,
        0 <= p,
        p + 1 <= n,
        n <= 0xffff_ffff,
    ensures
        total + c <= (p + 1) * n,
        (p + 1) * n <= 0xffff_ffff * 0xffff_ffff,
{
}

/// The text ranked first among `keys`, the distinct texts of `all`.
fn top_text(all: Ghost<Seq<Seq<char>>>, keys: &Vec<String>, counts: &Vec<usize>) -> (r: String)
    requires
        keys@.len() > 0,
        strings_view(keys@) == distinct_texts(all@),
        counts@.len() == keys@.len(),
        forall|j: int| 0 <= j < counts@.len() ==> #[trigger] counts@[j] == count_of(all@, keys@[j]@),
    ensures
        is_top(all@, r@),
{
    proof {
        lemma_distinct_texts_unique(all@);
        assert forall|a: int, b: int| 0 <= a < b < keys@.len() implies #[trigger] keys@[a]@ != #[trigger] keys@[b]@ by {
            assert(strings_view(keys@)[a] == keys@[a]@ && strings_view(keys@)[b] == keys@[b]@);
        }
    }
    let order = ranked_positions(keys, counts);
    let top = order[0];
    let r = keys[top].clone();
    let n = keys.len();
    proof {
        let kv = strings_view(keys@);
        assert(kv.len() == n);
        lemma_distinct_contains(all@);
        assert(kv[top as int] == r@);
        assert(kv.contains(r@));
        assert forall|i: int| 0 <= i < all@.len() implies !ranks_before(
            count_of(all@, #[trigger] all@[i]),
            all@[i],
            count_of(all@, r@),
            r@,
        ) by {
            let t = all@[i];
            assert(all@.contains(t));
            assert(kv.contains(t));
            let o = choose|o: int| 0 <= o < kv.len() && kv[o] == t;
            assert(order@.contains(o as usize));
            let q = choose|q: int| 0 <= q < order@.len() && order@[q] == o as usize;
            assert(kv[o] == keys@[o]@);
            assert(order@[q] as int == o);
            assert(top as int == order@[0] as int);
            if q > 0 {
                assert(key_before(kv, counts@, order@[0] as int, order@[q] as int));
                lemma_ranks_asymmetric(counts@[top as int] as nat, kv[top as int], counts@[o] as nat, kv[o]);
            }
        }
    }
    r
}

/// The texts occurring in `all` at least `least` times, ranked; `keys`
/// are the distinct texts of `all` and `counts` their numbers.
fn ranked_common_texts(all: Ghost<Seq<Seq<char>>>, keys: &Vec<String>, counts: &Vec<usize>, least: usize) -> (r: Vec<
    String,
>)
    requires
        strings_view(keys@) == distinct_texts(all@),
        counts@.len() == keys@.len(),
        forall|j: int| 0 <= j < counts@.len() ==> #[trigger] counts@[j] == count_of(all@, keys@[j]@),
    ensures
        ranked_common(all@, least as nat, strings_view(r@)),
{
    let ghost kv = strings_view(keys@);
    proof {
        lemma_distinct_texts_unique(all@);
        assert forall|a: int, b: int| 0 <= a < b < keys@.len() implies #[trigger] keys@[a]@ != #[trigger] keys@[b]@ by {
            assert(kv[a] == keys@[a]@ && kv[b] == keys@[b]@);
        }
    }
    let order = ranked_positions(keys, counts);
    let n = keys.len();
    let mut out: Vec<String> = Vec::new();
    let ghost mut src: Seq<int> = Seq::empty();
    let mut p: usize = 0;
    while p < order.len()
        invariant
            n == keys@.len(),
            kv == strings_view(keys@),
            kv.len() == n,
            counts@.len() == n,
            order@.len() == n,
            forall|x: int| 0 <= x < order@.len() ==> #[trigger] order@[x] < n,
            p <= order@.len(),
            strings_view(out@).len() == src.len(),
            forall|a: int| 0 <= a < src.len() ==> 0 <= #[trigger] src[a] < p,
            forall|a: int, b: int| 0 <= a < b < src.len() ==> #[trigger] src[a] < #[trigger] src[b],
            forall|a: int|
                0 <= a < src.len() ==> #[trigger] strings_view(out@)[a] == kv[order@[src[a]] as int] && counts@[order@[src[a]] as int]
                    >= least,
            forall|x: int|
                0 <= x < p && counts@[#[trigger] order@[x] as int] >= least ==> strings_view(out@).contains(
                    kv[order@[x] as int],
                ),
        decreases order@.len() - p,
    {
        let o = order[p];
        if counts[o] >= least {
            let ghost before = out@;
            let t = keys[o].clone();
            out.push(t);
            proof {
                assert(strings_view(out@) =~= strings_view(before).push(kv[o as int]));
                src = src.push(p as int);
                assert(strings_view(out@)[src.len() - 1] == kv[o as int]);
                assert forall|x: int|
                    0 <= x < p + 1 && counts@[#[trigger] order@[x] as int] >= least implies strings_view(out@).contains(
                    kv[order@[x] as int],
                ) by {
                    if x < p {
                        let a = choose|a: int| 0 <= a < strings_view(before).len() && strings_view(before)[a] == kv[order@[x] as int];
                        assert(strings_view(out@)[a] == kv[order@[x] as int]);
                    } else {
                        assert(strings_view(out@)[src.len() - 1] == kv[order@[x] as int]);
                    }
                }
            }
        }
        p = p + 1;
    }
    proof {
        let rv = strings_view(out@);
        lemma_distinct_contains(all@);
        assert forall|a: int, b: int| 0 <= a < b < rv.len() implies ranks_before(
            count_of(all@, #[trigger] rv[a]),
            rv[a],
            count_of(all@, #[trigger] rv[b]),
            rv[b],
        ) by {
            let oa = order@[src[a]] as int;
            let ob = order@[src[b]] as int;
            assert(key_before(kv, counts@, oa, ob));
            assert(kv[oa] == keys@[oa]@ && kv[ob] == keys@[ob]@);
        }
        assert forall|t: Seq<char>| #[trigger] rv.contains(t) <==> (all@.contains(t) && count_of(all@, t) >= least) by {
            if rv.contains(t) {
                let a = choose|a: int| 0 <= a < rv.len() && rv[a] == t;
                let o = order@[src[a]] as int;
                assert(kv[o] == keys@[o]@);
                assert(kv.contains(t));
            }
            if all@.contains(t) && count_of(all@, t) >= least {
                assert(kv.contains(t));
                let o = choose|o: int| 0 <= o < kv.len() && kv[o] == t;
                assert(kv[o] == keys@[o]@);
                assert(order@.contains(o as usize));
                let q = choose|q: int| 0 <= q < order@.len() && order@[q] == o as usize;
                assert(order@[q] as int == o);
            }
        }
    }
    out
}

/// Summarises the family of workflows at positions `members` of `ws`
/// (see [`describes_family`]).
#[verifier::spinoff_prover]
#[verifier::rlimit(40)]
fn build_family(records: &[MemoryRecord], fps: &Vec<String>, ws: &Vec<LearnedWorkflow>, members: &Vec<usize>) -> (f:
    WorkflowFamily)
    requires
        fps@.len() == records@.len(),
        forall|i: int| 0 <= i < records@.len() ==> (#[trigger] fps@[i])@ == fingerprint(records@[i].goal@),
        members@.len() > 0,
        members@.len() <= records@.len(),
        records@.len() <= 0xffff_ffff,
        total_duration(records@) <= u64::MAX,
        forall|p: int| 0 <= p < members@.len() ==> #[trigger] members@[p] < ws@.len(),
        forall|p: int|
            0 <= p < ws@.len() ==> (#[trigger] ws@[p]).success_count <= records@.len() && ws@[p].failure_count
                <= records@.len(),
    ensures
        describes_family(records@, ws@, positions_view(members@), f),
        f.family_id == 0,
{
    let ghost mv = positions_view(members@);
    let ghost n = records@.len();
    let mut goals: Vec<String> = Vec::new();
    let mut member_fps: Vec<String> = Vec::new();
    let mut successes: u64 = 0;
    let mut failures: u64 = 0;
    let mut p: usize = 0;
    while p < members.len()
        invariant
            mv == positions_view(members@),
            n == records@.len(),
            members@.len() <= n,
            n <= 0xffff_ffff,
            forall|q: int| 0 <= q < members@.len() ==> #[trigger] members@[q] < ws@.len(),
            forall|q: int|
                0 <= q < ws@.len() ==> (#[trigger] ws@[q]).success_count <= n && ws@[q].failure_count <= n,
            p <= members@.len(),
            strings_view(goals@) == member_goals(ws@, mv.take(p as int)),
            strings_view(member_fps@) == member_fingerprints(ws@, mv.take(p as int)),
            successes == successes_of(ws@, mv.take(p as int)),
            failures == failures_of(ws@, mv.take(p as int)),
            successes <= p * n,
            failures <= p * n,
        decreases members@.len() - p,
    {
        let m = members[p];
        let w = &ws[m];
        let ghost t = mv.take(p + 1);
        proof {
            assert(t.drop_last() =~= mv.take(p as int));
            assert(t.last() == m as int);
            lemma_sum_step(successes as int, w.success_count as int, p as int, n as int);
            lemma_sum_step(failures as int, w.failure_count as int, p as int, n as int);
        }
        let ghost g0 = goals@;
        let ghost f0 = member_fps@;
        goals.push(w.goal.clone());
        member_fps.push(w.goal_fingerprint.clone());
        successes = successes + w.success_count;
        failures = failures + w.failure_count;
        proof {
            assert(strings_view(goals@) =~= strings_view(g0).push(w.goal@));
            assert(strings_view(member_fps@) =~= strings_view(f0).push(w.goal_fingerprint@));
            assert(member_goals(ws@, t) =~= member_goals(ws@, mv.take(p as int)).push(ws@[m as int].goal@));
            assert(member_fingerprints(ws@, t) =~= member_fingerprints(ws@, mv.take(p as int)).push(
                ws@[m as int].goal_fingerprint@,
            ));
        }
        p = p + 1;
    }
    proof {
        assert(mv.take(members@.len() as int) =~= mv);
    }
    let ghost goal_seq = member_goals(ws@, mv);
    let ghost fp_seq = member_fingerprints(ws@, mv);
    let (goal_keys, goal_counts) = tally_texts(&goals);
    proof {
        assert(goal_seq.len() > 0);
        assert(goal_seq[0] == distinct_texts(goal_seq)[0] || distinct_texts(goal_seq).len() > 0) by {
            lemma_distinct_contains(goal_seq);
            assert(goal_seq.contains(goal_seq[0]));
            assert(distinct_texts(goal_seq).contains(goal_seq[0]));
        }
    }
    let name = top_text(Ghost(goal_seq), &goal_keys, &goal_counts);
    let uses = collect_tool_uses(records, fps, &member_fps);
    let (tool_keys, tool_counts) = tally_texts(&uses);
    let least: usize = if members.len() < 2 {
        members.len()
    } else {
        2
    };
    let shared_tools = ranked_common_texts(Ghost(tool_uses(records@, fp_seq)), &tool_keys, &tool_counts, least);
    let mut confidence_total: u64 = 0;
    let mut confidence_samples: u64 = 0;
    let mut i: usize = 0;
    while i < records.len()
        invariant
            n == records@.len(),
            n <= 0xffff_ffff,
            fps@.len() == n,
            forall|k: int| 0 <= k < n ==> (#[trigger] fps@[k])@ == fingerprint(records@[k].goal@),
            fp_seq == strings_view(member_fps@),
            i <= n,
            (confidence_total as nat, confidence_samples as nat) == plan_confidences(records@.take(i as int), fp_seq),
            confidence_total <= i * 0xffff_ffff,
            confidence_samples <= i,
        decreases n - i,
    {
        let record = &records[i];
        proof {
            assert(records@.take(i + 1).drop_last() =~= records@.take(i as int));
            assert(records@.take(i + 1).last() == records@[i as int]);
        }
        let wanted = position_of(&member_fps, &fps[i]);
        match (&record.plan, wanted) {
            (Some(plan), Some(j)) => {
                proof {
                    assert(fp_seq[j as int] == fps@[i as int]@);
                    assert(fp_seq.contains(fingerprint(record.goal@)));
                    lemma_sum_step(confidence_total as int, plan.confidence as int, i as int, 0xffff_ffff);
                }
                confidence_total = confidence_total + plan.confidence as u64;
                confidence_samples = confidence_samples + 1;
            },
            (_, found) => {
                proof {
                    if found is Some {
                        assert(record.plan is None);
                    } else {
                        assert(!fp_seq.contains(fps@[i as int]@));
                    }
                    assert(0 <= i * 0xffff_ffff <= (i + 1) * 0xffff_ffff) by (nonlinear_arith)
                        requires
                            i >= 0,
                    ;
                }
            },
        }
        i = i + 1;
    }
    proof {
        assert(records@.take(n as int) =~= records@);
    }
    let (duration_total, duration_samples) = family_durations(records, fps, &member_fps);
    let avg_duration_seconds: u64 = if duration_samples == 0 {
        0
    } else {
        duration_total / duration_samples
    };
    WorkflowFamily {
        family_id: 0,
        name,
        member_count: members.len(),
        goals,
        shared_tools,
        total_successes: successes,
        total_failures: failures,
        confidence_total,
        confidence_samples,
        avg_duration_seconds,
    }
}

/// `ws` is what [`learned_workflows`] gives for `records`: one workflow per
/// goal fingerprint, learned from its runs, ranked.
pub open spec fn learned_list(records: Seq<MemoryRecord>, ws: Seq<LearnedWorkflow>) -> bool {
    &&& forall|p: int| 0 <= p < ws.len() ==> learned_from(records, #[trigger] ws[p])
    &&& forall|i: int|
        #![trigger records[i]]
        0 <= i < records.len() ==> exists|p: int|
            0 <= p < ws.len() && (#[trigger] ws[p]).goal_fingerprint@ == fingerprint(records[i].goal@)
    &&& forall|p: int, q: int|
        0 <= p < q < ws.len() ==> (#[trigger] ws[p]).goal_fingerprint@ != (#[trigger] ws[q]).goal_fingerprint@
    &&& forall|p: int, q: int| 0 <= p < q < ws.len() ==> workflow_before(#[trigger] ws[p], #[trigger] ws[q])
}

/// The tool lists of the workflows.
pub open spec fn workflow_tool_lists(records: Seq<MemoryRecord>, ws: Seq<LearnedWorkflow>) -> Seq<Seq<Seq<char>>> {
    ws.map_values(|w: LearnedWorkflow| workflow_tools(records, w.goal_fingerprint@))
}

/// Family `a` is listed no later than family `b`: more members first, then
/// more successes, then by name.
pub open spec fn family_before(a: WorkflowFamily, b: WorkflowFamily) -> bool {
    ||| a.member_count > b.member_count
    ||| (a.member_count == b.member_count && a.total_successes > b.total_successes)
    ||| (a.member_count == b.member_count && a.total_successes == b.total_successes && lex_le(a.name@, b.name@))
}

/// Whether family `a` is listed no later than family `b`.
fn family_before_exec(a: &WorkflowFamily, b: &WorkflowFamily) -> (r: bool)
    ensures
        r == family_before(*a, *b),
{
    a.member_count > b.member_count || (a.member_count == b.member_count && a.total_successes > b.total_successes)
        || (a.member_count == b.member_count && a.total_successes == b.total_successes && string_le(&a.name, &b.name))
}

/// `r` lists, ranked and numbered, the families into which the workflows
/// `ws` fall (see [`clusters`]), `close` telling which goals embed close
/// together.
pub open spec fn families_from(
    records: Seq<MemoryRecord>,
    ws: Seq<LearnedWorkflow>,
    close: Seq<Seq<bool>>,
    r: Seq<WorkflowFamily>,
) -> bool {
    let fams = clusters(ws.len(), workflow_tool_lists(records, ws), close);
    &&& r.len() == fams.len()
    &&& forall|p: int| 0 <= p < r.len() ==> (#[trigger] r[p]).family_id == p
    &&& forall|p: int, q: int| 0 <= p < q < r.len() ==> family_before(#[trigger] r[p], #[trigger] r[q])
    &&& exists|src: Seq<int>|
        #![trigger src.len()]
        src.len() == fams.len() && (forall|x: int| 0 <= x < fams.len() ==> src.contains(x)) && (forall|p: int|
            0 <= p < r.len() ==> 0 <= #[trigger] src[p] < fams.len() && describes_family(
                records,
                ws,
                fams[src[p]],
                r[p],
            ))
}

/// Groups the learned workflows of `records` into families and ranks them:
/// most members first, then most successes, then by name; each family is
/// numbered by its rank. `close[a][b]` tells whether the goals of
/// workflows `a` and `b`, in the order of [`learned_workflows`], embed
/// close together; a missing entry counts as no.
#[verifier::spinoff_prover]
#[verifier::rlimit(40)]
pub fn workflow_families(records: &[MemoryRecord], close: &Vec<Vec<bool>>) -> (r: Vec<WorkflowFamily>)
    requires
        records@.len() <= 0xffff_ffff,
        total_duration(records@) <= u64::MAX,
    ensures
        exists|ws: Seq<LearnedWorkflow>| learned_list(records@, ws) && families_from(records@, ws, rows_view(close@), r@),
{
    let ws = learned_workflows(records);
    let fps = fingerprints(records);
    let mut tools: Vec<Vec<String>> = Vec::new();
    let mut i: usize = 0;
    while i < ws.len()
        invariant
            i <= ws@.len(),
            fps@.len() == records@.len(),
            forall|k: int| 0 <= k < records@.len() ==> (#[trigger] fps@[k])@ == fingerprint(records@[k].goal@),
            lists_view(tools@) == workflow_tool_lists(records@, ws@.take(i as int)),
        decreases ws@.len() - i,
    {
        let mut one: Vec<String> = Vec::new();
        one.push(ws[i].goal_fingerprint.clone());
        proof {
            assert(strings_view(one@) =~= seq![ws@[i as int].goal_fingerprint@]);
        }
        let uses = collect_tool_uses(records, &fps, &one);
        let (keys, _) = tally_texts(&uses);
        let ghost before = tools@;
        tools.push(keys);
        proof {
            assert(lists_view(tools@) =~= lists_view(before).push(strings_view(keys@)));
            assert(workflow_tool_lists(records@, ws@.take(i + 1)) =~= workflow_tool_lists(records@, ws@.take(i as int)).push(
                workflow_tools(records@, ws@[i as int].goal_fingerprint@),
            ));
        }
        i = i + 1;
    }
    proof {
        assert(ws@.take(ws@.len() as int) =~= ws@);
    }
    let ghost tv = workflow_tool_lists(records@, ws@);
    let ghost cv = rows_view(close@);
    let fams = place_workflows(&tools, close);
    let ghost fv = families_view(fams@);
    proof {
        assert forall|p: int| 0 <= p < ws@.len() implies (#[trigger] ws@[p]).success_count <= records@.len()
            && ws@[p].failure_count <= records@.len() by {
            let runs = members_with(records@, ws@[p].goal_fingerprint@);
            lemma_members_len(records@, ws@[p].goal_fingerprint@);
            lemma_count_bound(runs, Some(MemoryStatus::Success), None);
            lemma_count_bound(runs, Some(MemoryStatus::Failed), None);
        }
    }
    let mut out: Vec<WorkflowFamily> = Vec::new();
    let ghost mut src: Seq<int> = Seq::empty();
    let mut f: usize = 0;
    while f < fams.len()
        invariant
            f <= fams@.len(),
            records@.len() <= 0xffff_ffff,
            total_duration(records@) <= u64::MAX,
            ws@.len() <= records@.len(),
            fps@.len() == records@.len(),
            forall|k: int| 0 <= k < records@.len() ==> (#[trigger] fps@[k])@ == fingerprint(records@[k].goal@),
            forall|p: int|
                0 <= p < ws@.len() ==> (#[trigger] ws@[p]).success_count <= records@.len() && ws@[p].failure_count
                    <= records@.len(),
            tools@.len() == ws@.len(),
            fv == families_view(fams@),
            forall|g: int, m: int|
                0 <= g < fams@.len() && 0 <= m < fams@[g]@.len() ==> #[trigger] fams@[g]@[m] < tools@.len(),
            forall|g: int| 0 <= g < fams@.len() ==> 0 < (#[trigger] fams@[g])@.len() <= tools@.len(),
            out@.len() == f,
            src.len() == f,
            forall|x: int| 0 <= x < f ==> src.contains(x),
            forall|p: int|
                0 <= p < out@.len() ==> 0 <= #[trigger] src[p] < f && describes_family(
                    records@,
                    ws@,
                    fv[src[p]],
                    out@[p],
                ),
            forall|p: int, q: int| 0 <= p < q < out@.len() ==> family_before(#[trigger] out@[p], #[trigger] out@[q]),
        decreases fams@.len() - f,
    {
        proof {
            assert(fv[f as int] == positions_view(fams@[f as int]@));
        }
        let family = build_family(records, &fps, &ws, &fams[f]);
        let mut pos: usize = 0;
        while pos < out.len() && family_before_exec(&out[pos], &family)
            invariant
                pos <= out@.len(),
                forall|x: int| 0 <= x < pos ==> family_before(#[trigger] out@[x], family),
            decreases out@.len() - pos,
        {
            pos = pos + 1;
        }
        let ghost old_out = out@;
        let ghost old_src = src;
        proof {
            if pos < old_out.len() {
                lemma_family_total(old_out[pos as int], family);
                assert forall|q: int| pos <= q < old_out.len() implies family_before(family, #[trigger] old_out[q]) by {
                    if q > pos {
                        lemma_family_transitive(family, old_out[pos as int], old_out[q]);
                    }
                }
            }
        }
        out.insert(pos, family);
        proof {
            src = old_src.insert(pos as int, f as int);
            assert forall|p: int, q: int| 0 <= p < q < out@.len() implies family_before(
                #[trigger] out@[p],
                #[trigger] out@[q],
            ) by {
                if q < pos {
                    assert(out@[p] == old_out[p] && out@[q] == old_out[q]);
                } else if q == pos {
                    assert(out@[p] == old_out[p]);
                } else if p < pos {
                    assert(out@[p] == old_out[p] && out@[q] == old_out[q - 1]);
                    lemma_family_transitive(old_out[p], out@[pos as int], old_out[q - 1]);
                } else if p == pos {
                    assert(out@[q] == old_out[q - 1]);
                } else {
                    assert(out@[p] == old_out[p - 1] && out@[q] == old_out[q - 1]);
                }
            }
            assert forall|x: int| 0 <= x < f + 1 implies src.contains(x) by {
                if x < f {
                    assert(old_src.contains(x));
                    let p = choose|p: int| 0 <= p < old_src.len() && old_src[p] == x;
                    if p < pos {
                        assert(src[p] == x);
                    } else {
                        assert(src[p + 1] == x);
                    }
                } else {
                    assert(src[pos as int] == x);
                }
            }
            assert forall|p: int| 0 <= p < out@.len() implies 0 <= #[trigger] src[p] < f + 1 && describes_family(
                records@,
                ws@,
                fv[src[p]],
                out@[p],
            ) by {
                if p < pos {
                    assert(out@[p] == old_out[p] && src[p] == old_src[p]);
                } else if p > pos {
                    assert(out@[p] == old_out[p - 1] && src[p] == old_src[p - 1]);
                }
            }
        }
        f = f + 1;
    }
    let ghost sorted = out@;
    let total = fams.len();
    let mut ranked: Vec<WorkflowFamily> = Vec::new();
    let mut k: usize = 0;
    while out.len() > 0
        invariant
            sorted.len() == fams@.len(),
            sorted.len() == total,
            src.len() == sorted.len(),
            fv.len() == sorted.len(),
            forall|p: int| 0 <= p < sorted.len() ==> 0 <= #[trigger] src[p] < fv.len(),
            k + out@.len() == sorted.len(),
            out@ == sorted.skip(k as int),
            ranked@.len() == k,
            forall|p: int|
                0 <= p < k ==> (#[trigger] ranked@[p]).family_id == p && ranked@[p].member_count == sorted[p].member_count
                    && ranked@[p].total_successes == sorted[p].total_successes && ranked@[p].name@ == sorted[p].name@
                    && describes_family(records@, ws@, fv[src[p]], ranked@[p]),
            forall|p: int|
                0 <= p < sorted.len() ==> describes_family(records@, ws@, fv[src[p]], #[trigger] sorted[p]),
        decreases out@.len(),
    {
        let ghost before = out@;
        let mut family = out.remove(0);
        proof {
            assert(family == sorted[k as int]);
            assert(out@ =~= sorted.skip(k + 1));
        }
        family.family_id = k;
        ranked.push(family);
        k = k + 1;
    }
    proof {
        assert(clusters(ws@.len() as nat, tv, cv) == fv);
        assert forall|p: int, q: int| 0 <= p < q < ranked@.len() implies family_before(
            #[trigger] ranked@[p],
            #[trigger] ranked@[q],
        ) by {
            assert(family_before(sorted[p], sorted[q]));
        }
        assert(learned_list(records@, ws@));
        assert(families_from(records@, ws@, cv, ranked@)) by {
            assert(src.len() == fv.len());
        }
    }
    ranked
}

/// Listing order is total.
proof fn lemma_family_total(a: WorkflowFamily, b: WorkflowFamily)
    ensures
        family_before(a, b) || family_before(b, a),
{
    lemma_lex_total(a.name@, b.name@);
}

/// Listing order is transitive.
proof fn lemma_family_transitive(a: WorkflowFamily, b: WorkflowFamily, c: WorkflowFamily)
    requires
        family_before(a, b),
        family_before(b, c),
    ensures
        family_before(a, c),
{
    if a.member_count == b.member_count && b.member_count == c.member_count && a.total_successes
        == b.total_successes && b.total_successes == c.total_successes {
        lemma_lex_transitive(a.name@, b.name@, c.name@);
    }
}

/// Whether some family holds workflow `x`.
pub open spec fn placed(fams: Seq<Seq<int>>, x: int) -> bool {
    exists|f: int, m: int| 0 <= f < fams.len() && 0 <= m < fams[f].len() && #[trigger] fams[f][m] == x
}

/// Every workflow falls into exactly one family: the families hold the
/// positions `0..k`, each once, and none is empty.
pub proof fn lemma_clusters_partition(k: nat, tools: Seq<Seq<Seq<char>>>, close: Seq<Seq<bool>>)
    ensures
        forall|f: int| 0 <= f < clusters(k, tools, close).len() ==> #[trigger] clusters(k, tools, close)[f].len() > 0,
        forall|f: int, m: int|
            0 <= f < clusters(k, tools, close).len() && 0 <= m < clusters(k, tools, close)[f].len() ==> 0
                <= #[trigger] clusters(k, tools, close)[f][m] < k,
        forall|x: int| 0 <= x < k ==> #[trigger] placed(clusters(k, tools, close), x),
        forall|f1: int, m1: int, f2: int, m2: int|
            0 <= f1 < clusters(k, tools, close).len() && 0 <= m1 < clusters(k, tools, close)[f1].len() && 0 <= f2
                < clusters(k, tools, close).len() && 0 <= m2 < clusters(k, tools, close)[f2].len() && (f1 != f2
                || m1 != m2) ==> #[trigger] clusters(k, tools, close)[f1][m1] != #[trigger] clusters(
                k,
                tools,
                close,
            )[f2][m2],
    decreases k,
{
    if k > 0 {
        let prev = clusters((k - 1) as nat, tools, close);
        lemma_clusters_partition((k - 1) as nat, tools, close);
        lemma_first_joinable(prev, k - 1, tools, close);
        let j = first_joinable(prev, k - 1, tools, close);
        let cur = clusters(k, tools, close);
        let x_new = k - 1;
        if j < prev.len() {
            assert(cur == prev.update(j, prev[j].push(x_new)));
            assert forall|f: int, m: int| 0 <= f < cur.len() && 0 <= m < cur[f].len() implies (f == j && m
                == prev[j].len() && #[trigger] cur[f][m] == x_new) || (m < prev[f].len() && cur[f][m] == prev[f][m]) by {
                if f == j {
                    assert(cur[f] == prev[j].push(x_new));
                }
            }
            assert forall|x: int| 0 <= x < k implies #[trigger] placed(cur, x) by {
                if x < k - 1 {
                    assert(placed(prev, x));
                    let (f, m) = choose|f: int, m: int|
                        0 <= f < prev.len() && 0 <= m < prev[f].len() && #[trigger] prev[f][m] == x;
                    if f == j {
                        assert(cur[f] == prev[j].push(x_new));
                        assert(cur[f][m] == x);
                    } else {
                        assert(cur[f][m] == x);
                    }
                } else {
                    assert(cur[j] == prev[j].push(x_new));
                    assert(cur[j][prev[j].len() as int] == x);
                }
            }
        } else {
            assert(cur == prev.push(seq![x_new]));
            assert forall|f: int, m: int| 0 <= f < cur.len() && 0 <= m < cur[f].len() implies (f == prev.len() && m
                == 0 && #[trigger] cur[f][m] == x_new) || (f < prev.len() && cur[f][m] == prev[f][m]) by {}
            assert forall|x: int| 0 <= x < k implies #[trigger] placed(cur, x) by {
                if x < k - 1 {
                    assert(placed(prev, x));
                    let (f, m) = choose|f: int, m: int|
                        0 <= f < prev.len() && 0 <= m < prev[f].len() && #[trigger] prev[f][m] == x;
                    assert(cur[f][m] == x);
                } else {
                    assert(cur[prev.len() as int][0] == x);
                }
            }
        }
    }
}

} // verus!
