//! Memory lineage: the evolution graph of one memory over the records and
//! the persisted lineage edges: its version ancestry (through `parent_id`),
//! its direct descendants, and its merge history.

use vstd::prelude::*;
use crate::memory::{MemoryRecord, MemoryStatus, RetentionPolicy};
use crate::plan::contains_id;

verus! {

/// How one memory relates to another.
#[derive(Debug, Clone, Copy, PartialEq, Eq, Structural)]
pub enum LineageRelation {
    /// A newer version derived from the other memory.
    Parent,
    /// A duplicate merged into the other memory.
    Merged,
}

/// One persisted lineage edge.
#[derive(Debug, Clone, Copy, PartialEq, Eq, Structural)]
pub struct LineageEdge {
    pub memory_id: u128,
    pub parent_id: u128,
    pub relation: LineageRelation,
}

/// A memory as it appears in a lineage.
pub struct LineageNode {
    pub id: u128,
    pub goal: String,
    pub status: MemoryStatus,
    pub retention: RetentionPolicy,
    pub version: u32,
    pub created_at: i128,
    pub relation: Option<LineageRelation>,
}

/// The lineage of one memory.
pub struct MemoryLineage {
    pub memory_id: u128,
    /// The oldest ancestor, when there is one.
    pub root_id: Option<u128>,
    pub version: u32,
    /// The version ancestry, oldest first.
    pub ancestors: Vec<LineageNode>,
    /// Direct descendants, newest first.
    pub children: Vec<LineageNode>,
    /// Memories merged into this one, newest first.
    pub merged_into: Vec<LineageNode>,
    /// The memory this one was merged into, if any.
    pub merged_into_id: Option<u128>,
}

/// The lineage node of a record.
pub open spec fn node_of(r: MemoryRecord, relation: Option<LineageRelation>) -> LineageNode {
    LineageNode {
        id: r.id,
        goal: r.goal,
        status: r.status,
        retention: r.retention,
        version: r.version,
        created_at: r.created_at,
        relation,
    }
}

/// The position of the record that a lookup by `id` finds (the last one
/// with that id), or -1.
pub open spec fn find_record(records: Seq<MemoryRecord>, id: u128) -> int
    decreases records.len(),
{
    if records.len() == 0 {
        -1
    } else if records.last().id == id {
        records.len() - 1
    } else {
        find_record(records.drop_last(), id)
    }
}

/// One step up the parent chain: the parent of the record at `cursor`;
/// the chain ends where there is no cursor or no record.
pub open spec fn parent_after(records: Seq<MemoryRecord>, cursor: Option<u128>) -> Option<u128> {
    match cursor {
        None => None,
        Some(id) => {
            let k = find_record(records, id);
            if k < 0 {
                None
            } else {
                records[k].parent_id
            }
        },
    }
}

/// Where the parent chain from `cursor` stands after `n` steps.
pub open spec fn walk(records: Seq<MemoryRecord>, cursor: Option<u128>, n: nat) -> Option<u128>
    decreases n,
{
    if n == 0 {
        cursor
    } else {
        walk(records, parent_after(records, cursor), (n - 1) as nat)
    }
}

/// The parent chain from `cursor` comes to an end.
pub open spec fn chain_ends(records: Seq<MemoryRecord>, cursor: Option<u128>) -> bool {
    exists|n: nat| #[trigger] walk(records, cursor, n) is None
}

/// The positions of the records met on the first `n` steps of the parent
/// chain from `cursor`, nearest first.
pub open spec fn chain_upto(records: Seq<MemoryRecord>, cursor: Option<u128>, n: nat) -> Seq<int>
    decreases n,
{
    if n == 0 {
        Seq::empty()
    } else {
        match cursor {
            None => Seq::empty(),
            Some(id) => {
                let k = find_record(records, id);
                if k < 0 {
                    Seq::empty()
                } else {
                    seq![k] + chain_upto(records, records[k].parent_id, (n - 1) as nat)
                }
            },
        }
    }
}

/// The positions of the records on the whole parent chain from `cursor`,
/// nearest first.
pub open spec fn chain_of(records: Seq<MemoryRecord>, cursor: Option<u128>) -> Seq<int> {
    chain_upto(records, cursor, choose|n: nat| #[trigger] walk(records, cursor, n) is None)
}

/// The position of the record with `id`, as a lookup finds it.
fn find_record_exec(records: &[MemoryRecord], id: u128) -> (k: Option<usize>)
    ensures
        match k {
            Some(k) => k == find_record(records@, id),
            None => find_record(records@, id) < 0,
        },
        find_record(records@, id) < records@.len(),
{
    let mut found: Option<usize> = None;
    let mut k: usize = 0;
    while k < records.len()
        invariant
            k <= records@.len(),
            match found {
                Some(f) => f == find_record(records@.take(k as int), id),
                None => find_record(records@.take(k as int), id) < 0,
            },
            find_record(records@.take(k as int), id) < k,
        decreases records@.len() - k,
    {
        proof {
            assert(records@.take(k + 1).drop_last() =~= records@.take(k as int));
        }
        if records[k].id == id {
            found = Some(k);
        }
        k = k + 1;
    }
    proof {
        assert(records@.take(records@.len() as int) =~= records@);
    }
    found
}

/// The positions of the records on the parent chain from `start`, nearest
/// first.
fn chain_positions(records: &[MemoryRecord], start: Option<u128>) -> (v: Vec<usize>)
    requires
        chain_ends(records@, start),
    ensures
        v@.len() == chain_of(records@, start).len(),
        forall|k: int| 0 <= k < v@.len() ==> #[trigger] v@[k] == chain_of(records@, start)[k],
        forall|k: int| 0 <= k < v@.len() ==> #[trigger] v@[k] < records@.len(),
{
    let ghost fuel = choose|n: nat| #[trigger] walk(records@, start, n) is None;
    let ghost full = chain_upto(records@, start, fuel);
    let mut v: Vec<usize> = Vec::new();
    let mut cursor = start;
    let ghost mut left: nat = fuel;
    while cursor.is_some()
        invariant
            walk(records@, cursor, left) is None,
            v@.map_values(|u: usize| u as int) + chain_upto(records@, cursor, left) == full,
            full == chain_upto(records@, start, fuel),
            forall|k: int| 0 <= k < v@.len() ==> #[trigger] v@[k] < records@.len(),
        decreases left,
    {
        let id = cursor.unwrap();
        proof {
            if left == 0 {
                assert(walk(records@, cursor, 0) == cursor);
            }
        }
        match find_record_exec(records, id) {
            None => {
                proof {
                    assert(chain_upto(records@, cursor, left) =~= Seq::<int>::empty());
                    assert(v@.map_values(|u: usize| u as int) =~= full);
                }
                cursor = None;
                proof {
                    left = 0;
                    assert(chain_upto(records@, cursor, left) =~= Seq::<int>::empty());
                }
            },
            Some(k) => {
                let ghost before = v@;
                v.push(k);
                proof {
                    assert(v@.map_values(|u: usize| u as int) =~= before.map_values(|u: usize| u as int).push(k as int));
                    assert(chain_upto(records@, cursor, left) == seq![k as int] + chain_upto(records@, records@[k as int].parent_id, (left - 1) as nat));
                    assert(before.map_values(|u: usize| u as int).push(k as int) + chain_upto(records@, records@[k as int].parent_id, (left - 1) as nat)
                        =~= before.map_values(|u: usize| u as int) + (seq![k as int] + chain_upto(records@, records@[k as int].parent_id, (left - 1) as nat)));
                }
                cursor = records[k].parent_id;
                proof {
                    left = (left - 1) as nat;
                }
            },
        }
    }
    proof {
        assert(chain_upto(records@, cursor, left) =~= Seq::<int>::empty());
        assert(v@.map_values(|u: usize| u as int) + Seq::<int>::empty() =~= v@.map_values(|u: usize| u as int));
        assert forall|k: int| 0 <= k < v@.len() implies #[trigger] v@[k] == chain_of(records@, start)[k] by {
            assert(v@.map_values(|u: usize| u as int)[k] == v@[k] as int);
        }
    }
    v
}

/// The ids of the records at the positions `ps`.
pub open spec fn ids_at(records: Seq<MemoryRecord>, ps: Seq<int>) -> Seq<u128> {
    ps.map_values(|p: int| records[p].id)
}

/// The positions of the records derived from memory `m`, in record order,
/// each id once.
pub open spec fn record_children(records: Seq<MemoryRecord>, m: u128) -> Seq<int>
    decreases records.len(),
{
    if records.len() == 0 {
        Seq::empty()
    } else {
        let rest = record_children(records.drop_last(), m);
        let r = records.last();
        if r.parent_id == Some(m) && !ids_at(records, rest).contains(r.id) {
            rest.push(records.len() - 1)
        } else {
            rest
        }
    }
}

/// An edge that records a memory derived from `m`.
pub open spec fn derived_edge(e: LineageEdge, m: u128) -> bool {
    e.parent_id == m && e.relation == LineageRelation::Parent
}

/// The memory ids of the edges that record a memory derived from `m`.
pub open spec fn derived_ids(edges: Seq<LineageEdge>, m: u128) -> Seq<u128>
    decreases edges.len(),
{
    if edges.len() == 0 {
        Seq::empty()
    } else {
        let rest = derived_ids(edges.drop_last(), m);
        if derived_edge(edges.last(), m) {
            rest.push(edges.last().memory_id)
        } else {
            rest
        }
    }
}

/// The positions of the records that the edges name as derived from `m`,
/// leaving out the ids in `seen` and those an earlier edge named.
pub open spec fn edge_children(
    records: Seq<MemoryRecord>,
    edges: Seq<LineageEdge>,
    m: u128,
    seen: Seq<u128>,
) -> Seq<int>
    decreases edges.len(),
{
    if edges.len() == 0 {
        Seq::empty()
    } else {
        let rest = edge_children(records, edges.drop_last(), m, seen);
        let e = edges.last();
        let k = find_record(records, e.memory_id);
        if derived_edge(e, m) && !seen.contains(e.memory_id) && !derived_ids(
            edges.drop_last(),
            m,
        ).contains(e.memory_id) && k >= 0 {
            rest.push(k)
        } else {
            rest
        }
    }
}

/// The direct descendants of `m`: the records derived from it, then the
/// ones the edges name, each id once.
pub open spec fn child_candidates(records: Seq<MemoryRecord>, edges: Seq<LineageEdge>, m: u128) -> Seq<int> {
    let from_records = record_children(records, m);
    from_records + edge_children(records, edges, m, ids_at(records, from_records))
}

/// The positions of the records that the edges name as merged into `m`.
pub open spec fn merged_candidates(records: Seq<MemoryRecord>, edges: Seq<LineageEdge>, m: u128) -> Seq<int>
    decreases edges.len(),
{
    if edges.len() == 0 {
        Seq::empty()
    } else {
        let rest = merged_candidates(records, edges.drop_last(), m);
        let e = edges.last();
        let k = find_record(records, e.memory_id);
        if e.parent_id == m && e.relation == LineageRelation::Merged && k >= 0 {
            rest.push(k)
        } else {
            rest
        }
    }
}

/// The memory that the last merge edge from `m` names as its keeper.
pub open spec fn merged_into_of(edges: Seq<LineageEdge>, m: u128) -> Option<u128>
    decreases edges.len(),
{
    if edges.len() == 0 {
        None
    } else if edges.last().memory_id == m && edges.last().relation == LineageRelation::Merged {
        Some(edges.last().parent_id)
    } else {
        merged_into_of(edges.drop_last(), m)
    }
}

/// Between the candidates at `a` and `b`: the newer record first, then the
/// earlier candidate.
pub open spec fn newer_first(records: Seq<MemoryRecord>, cand: Seq<int>, a: int, b: int) -> bool {
    records[cand[a]].created_at > records[cand[b]].created_at || (records[cand[a]].created_at
        == records[cand[b]].created_at && a < b)
}

/// `order` lists every candidate once, newest first.
pub open spec fn arranges(records: Seq<MemoryRecord>, cand: Seq<int>, order: Seq<int>) -> bool {
    &&& order.len() == cand.len()
    &&& forall|k: int| 0 <= k < order.len() ==> 0 <= #[trigger] order[k] < cand.len()
    &&& forall|k: int, l: int|
        0 <= k < l < order.len() ==> newer_first(records, cand, #[trigger] order[k], #[trigger] order[l])
}

/// `nodes` are the nodes of the candidate records, newest first, keeping
/// the candidates' order between records of the same instant.
pub open spec fn nodes_newest_first(
    records: Seq<MemoryRecord>,
    cand: Seq<int>,
    nodes: Seq<LineageNode>,
    relation: Option<LineageRelation>,
) -> bool {
    exists|order: Seq<int>|
        #[trigger] arranges(records, cand, order) && nodes.len() == cand.len() && forall|k: int|
            0 <= k < nodes.len() ==> #[trigger] nodes[k] == node_of(records[cand[order[k]]], relation)
}

/// The lineage node of a record.
fn node(r: &MemoryRecord, relation: Option<LineageRelation>) -> (n: LineageNode)
    ensures
        n == node_of(*r, relation),
{
    LineageNode {
        id: r.id,
        goal: r.goal.clone(),
        status: r.status,
        retention: r.retention,
        version: r.version,
        created_at: r.created_at,
        relation,
    }
}

/// The nodes of the candidate records at `cand`, newest first.
fn newest_first(records: &[MemoryRecord], cand: &Vec<usize>, relation: Option<LineageRelation>) -> (nodes: Vec<LineageNode>)
    requires
        forall|k: int| 0 <= k < cand@.len() ==> #[trigger] cand@[k] < records@.len(),
    ensures
        nodes_newest_first(records@, cand@.map_values(|u: usize| u as int), nodes@, relation),
{
    let ghost c = cand@.map_values(|u: usize| u as int);
    let n = cand.len();
    let mut order: Vec<usize> = Vec::new();
    let mut j: usize = 0;
    while j < n
        invariant
            n == cand@.len(),
            c == cand@.map_values(|u: usize| u as int),
            forall|k: int| 0 <= k < cand@.len() ==> #[trigger] cand@[k] < records@.len(),
            j <= n,
            order@.len() == j,
            forall|k: int| 0 <= k < order@.len() ==> #[trigger] order@[k] < j,
            forall|k: int, l: int|
                0 <= k < l < order@.len() ==> newer_first(
                    records@,
                    c,
                    #[trigger] order@[k] as int,
                    #[trigger] order@[l] as int,
                ),
        decreases n - j,
    {
        let mut pos: usize = 0;
        while pos < order.len() && !(records[cand[j]].created_at > records[cand[order[pos]]].created_at)
            invariant
                n == cand@.len(),
                c == cand@.map_values(|u: usize| u as int),
                forall|k: int| 0 <= k < cand@.len() ==> #[trigger] cand@[k] < records@.len(),
                j < n,
                pos <= order@.len(),
                forall|k: int| 0 <= k < order@.len() ==> #[trigger] order@[k] < j,
                forall|k: int|
                    0 <= k < pos ==> records@[c[#[trigger] order@[k] as int]].created_at
                        >= records@[c[j as int]].created_at,
            decreases order@.len() - pos,
        {
            pos = pos + 1;
        }
        let ghost old_o = order@;
        proof {
            assert forall|l: int| pos <= l < old_o.len() implies records@[c[j as int]].created_at
                > records@[c[#[trigger] old_o[l] as int]].created_at by {
                if l > pos {
                    assert(newer_first(records@, c, old_o[pos as int] as int, old_o[l] as int));
                }
            }
        }
        order.insert(pos, j);
        proof {
            assert forall|k: int, l: int| 0 <= k < l < order@.len() implies newer_first(
                records@,
                c,
                #[trigger] order@[k] as int,
                #[trigger] order@[l] as int,
            ) by {
                if l < pos {
                    assert(order@[k] == old_o[k] && order@[l] == old_o[l]);
                } else if l == pos {
                    assert(order@[k] == old_o[k]);
                } else if k == pos {
                    assert(order@[l] == old_o[l - 1]);
                } else if k < pos {
                    assert(order@[k] == old_o[k] && order@[l] == old_o[l - 1]);
                } else {
                    assert(order@[k] == old_o[k - 1] && order@[l] == old_o[l - 1]);
                }
            }
            assert forall|k: int| 0 <= k < order@.len() implies #[trigger] order@[k] < j + 1 by {
                if k < pos {
                    assert(order@[k] == old_o[k]);
                } else if k > pos {
                    assert(order@[k] == old_o[k - 1]);
                }
            }
        }
        j = j + 1;
    }
    let ghost o = order@.map_values(|u: usize| u as int);
    let mut nodes: Vec<LineageNode> = Vec::new();
    let mut k: usize = 0;
    while k < n
        invariant
            n == cand@.len(),
            n == order@.len(),
            c == cand@.map_values(|u: usize| u as int),
            o == order@.map_values(|u: usize| u as int),
            forall|x: int| 0 <= x < cand@.len() ==> #[trigger] cand@[x] < records@.len(),
            forall|x: int| 0 <= x < order@.len() ==> #[trigger] order@[x] < n,
            k <= n,
            nodes@.len() == k,
            forall|x: int| 0 <= x < k ==> #[trigger] nodes@[x] == node_of(records@[c[o[x]]], relation),
        decreases n - k,
    {
        nodes.push(node(&records[cand[order[k]]], relation));
        k = k + 1;
    }
    proof {
        assert(arranges(records@, c, o)) by {
            assert forall|x: int| 0 <= x < o.len() implies 0 <= #[trigger] o[x] < c.len() by {
                assert(o[x] == order@[x] as int);
            }
            assert forall|x: int, y: int| 0 <= x < y < o.len() implies newer_first(records@, c, #[trigger] o[x], #[trigger] o[y]) by {
                assert(o[x] == order@[x] as int);
                assert(o[y] == order@[y] as int);
            }
        }
    }
    nodes
}

/// Whether `(a + b)` holds `x`.
proof fn lemma_concat_contains(a: Seq<u128>, b: Seq<u128>, x: u128)
    ensures
        (a + b).contains(x) <==> (a.contains(x) || b.contains(x)),
{
    if (a + b).contains(x) {
        let i = choose|i: int| 0 <= i < (a + b).len() && (a + b)[i] == x;
        if i >= a.len() {
            assert(b[i - a.len()] == x);
        }
    }
    if a.contains(x) {
        let i = choose|i: int| 0 <= i < a.len() && a[i] == x;
        assert((a + b)[i] == x);
    }
    if b.contains(x) {
        let i = choose|i: int| 0 <= i < b.len() && b[i] == x;
        assert((a + b)[a.len() + i] == x);
    }
}

/// The positions of the direct descendants of `m`.
fn children_of(records: &[MemoryRecord], edges: &[LineageEdge], m: u128) -> (c: Vec<usize>)
    ensures
        c@.map_values(|u: usize| u as int) == child_candidates(records@, edges@, m),
        forall|k: int| 0 <= k < c@.len() ==> #[trigger] c@[k] < records@.len(),
{
    let mut c: Vec<usize> = Vec::new();
    let mut seen: Vec<u128> = Vec::new();
    let mut k: usize = 0;
    while k < records.len()
        invariant
            k <= records@.len(),
            c@.map_values(|u: usize| u as int) == record_children(records@.take(k as int), m),
            seen@ == ids_at(records@, c@.map_values(|u: usize| u as int)),
            forall|x: int| 0 <= x < c@.len() ==> #[trigger] c@[x] < k,
        decreases records@.len() - k,
    {
        let ghost cs = c@.map_values(|u: usize| u as int);
        proof {
            assert(records@.take(k + 1).drop_last() =~= records@.take(k as int));
            assert forall|x: int| 0 <= x < cs.len() implies #[trigger] cs[x] < k by {
                assert(cs[x] == c@[x] as int);
            }
            assert(ids_at(records@.take(k + 1), cs) =~= ids_at(records@, cs));
        }
        let fresh = match records[k].parent_id {
            Some(p) => p == m && !contains_id(&seen, records[k].id),
            None => false,
        };
        if fresh {
            seen.push(records[k].id);
            c.push(k);
            proof {
                assert(c@.map_values(|u: usize| u as int) =~= cs.push(k as int));
                assert(ids_at(records@, cs.push(k as int)) =~= ids_at(records@, cs).push(records@[k as int].id));
            }
        }
        k = k + 1;
    }
    proof {
        assert(records@.take(records@.len() as int) =~= records@);
    }
    let ghost rc = c@.map_values(|u: usize| u as int);
    let ghost seen0 = seen@;
    let mut e: usize = 0;
    proof {
        assert(rc + edge_children(records@, edges@.take(0), m, seen0) =~= rc);
        assert(seen0 + derived_ids(edges@.take(0), m) =~= seen0);
    }
    while e < edges.len()
        invariant
            e <= edges@.len(),
            rc == record_children(records@, m),
            seen0 == ids_at(records@, rc),
            c@.map_values(|u: usize| u as int) == rc + edge_children(records@, edges@.take(e as int), m, seen0),
            seen@ == seen0 + derived_ids(edges@.take(e as int), m),
            forall|x: int| 0 <= x < c@.len() ==> #[trigger] c@[x] < records@.len(),
        decreases edges@.len() - e,
    {
        let ghost before = c@.map_values(|u: usize| u as int);
        let ghost seen_before = seen@;
        let edge = edges[e];
        proof {
            assert(edges@.take(e + 1).drop_last() =~= edges@.take(e as int));
            assert(edges@.take(e + 1).last() == edge);
            lemma_concat_contains(seen0, derived_ids(edges@.take(e as int), m), edge.memory_id);
        }
        if edge.parent_id == m && edge.relation == LineageRelation::Parent {
            let fresh = !contains_id(&seen, edge.memory_id);
            seen.push(edge.memory_id);
            proof {
                assert(seen@ =~= seen0 + derived_ids(edges@.take(e + 1), m));
            }
            if fresh {
                match find_record_exec(records, edge.memory_id) {
                    Some(k) => {
                        c.push(k);
                        proof {
                            assert(c@.map_values(|u: usize| u as int) =~= before.push(k as int));
                            assert(rc + edge_children(records@, edges@.take(e + 1), m, seen0)
                                =~= (rc + edge_children(records@, edges@.take(e as int), m, seen0)).push(k as int));
                        }
                    },
                    None => {},
                }
            }
        }
        e = e + 1;
    }
    proof {
        assert(edges@.take(edges@.len() as int) =~= edges@);
    }
    c
}

/// The positions of the records merged into `m`.
fn merged_of(records: &[MemoryRecord], edges: &[LineageEdge], m: u128) -> (c: Vec<usize>)
    ensures
        c@.map_values(|u: usize| u as int) == merged_candidates(records@, edges@, m),
        forall|k: int| 0 <= k < c@.len() ==> #[trigger] c@[k] < records@.len(),
{
    let mut c: Vec<usize> = Vec::new();
    let mut e: usize = 0;
    while e < edges.len()
        invariant
            e <= edges@.len(),
            c@.map_values(|u: usize| u as int) == merged_candidates(records@, edges@.take(e as int), m),
            forall|x: int| 0 <= x < c@.len() ==> #[trigger] c@[x] < records@.len(),
        decreases edges@.len() - e,
    {
        let ghost before = c@.map_values(|u: usize| u as int);
        let edge = edges[e];
        proof {
            assert(edges@.take(e + 1).drop_last() =~= edges@.take(e as int));
        }
        if edge.parent_id == m && edge.relation == LineageRelation::Merged {
            match find_record_exec(records, edge.memory_id) {
                Some(k) => {
                    c.push(k);
                    proof {
                        assert(c@.map_values(|u: usize| u as int) =~= before.push(k as int));
                    }
                },
                None => {},
            }
        }
        e = e + 1;
    }
    proof {
        assert(edges@.take(edges@.len() as int) =~= edges@);
    }
    c
}

/// The keeper named by the last merge edge from `m`.
fn merged_into_exec(edges: &[LineageEdge], m: u128) -> (r: Option<u128>)
    ensures
        r == merged_into_of(edges@, m),
{
    let mut r: Option<u128> = None;
    let mut e: usize = 0;
    while e < edges.len()
        invariant
            e <= edges@.len(),
            r == merged_into_of(edges@.take(e as int), m),
        decreases edges@.len() - e,
    {
        proof {
            assert(edges@.take(e + 1).drop_last() =~= edges@.take(e as int));
        }
        if edges[e].memory_id == m && edges[e].relation == LineageRelation::Merged {
            r = Some(edges[e].parent_id);
        }
        e = e + 1;
    }
    proof {
        assert(edges@.take(edges@.len() as int) =~= edges@);
    }
    r
}

/// The parent chain of memory `m` can be walked to its end, so that its
/// lineage can be built.
pub open spec fn lineage_walkable(records: Seq<MemoryRecord>, m: u128) -> bool {
    find_record(records, m) >= 0 ==> chain_ends(records, records[find_record(records, m)].parent_id)
}

/// `l` is the lineage of memory `m`: its version, its ancestry oldest
/// first with the oldest as root, its direct descendants and the memories
/// merged into it (both newest first), and the memory it was merged into.
pub open spec fn describes_lineage(
    records: Seq<MemoryRecord>,
    edges: Seq<LineageEdge>,
    m: u128,
    l: MemoryLineage,
) -> bool {
    let current = records[find_record(records, m)];
    let chain = chain_of(records, current.parent_id);
    &&& l.memory_id == m
    &&& l.version == current.version
    &&& l.ancestors@.len() == chain.len()
    &&& forall|k: int|
        0 <= k < chain.len() ==> #[trigger] l.ancestors@[k] == node_of(
            records[chain[chain.len() - 1 - k]],
            Some(LineageRelation::Parent),
        )
    &&& l.root_id == (if chain.len() > 0 {
        Some(records[chain.last()].id)
    } else {
        None
    })
    &&& nodes_newest_first(
        records,
        child_candidates(records, edges, m),
        l.children@,
        Some(LineageRelation::Parent),
    )
    &&& nodes_newest_first(
        records,
        merged_candidates(records, edges, m),
        l.merged_into@,
        Some(LineageRelation::Merged),
    )
    &&& l.merged_into_id == merged_into_of(edges, m)
}

/// Builds the lineage of `memory_id` over the records and edges; `None`
/// when no record has that id.
pub fn build_lineage(records: &[MemoryRecord], edges: &[LineageEdge], memory_id: u128) -> (r: Option<MemoryLineage>)
    requires
        lineage_walkable(records@, memory_id),
    ensures
        r is None <==> find_record(records@, memory_id) < 0,
        r matches Some(l) ==> describes_lineage(records@, edges@, memory_id, l),
{
    let current = match find_record_exec(records, memory_id) {
        Some(k) => k,
        None => return None,
    };
    let chain = chain_positions(records, records[current].parent_id);
    let ghost ch = chain_of(records@, records@[current as int].parent_id);
    let n = chain.len();
    let mut ancestors: Vec<LineageNode> = Vec::new();
    let mut k: usize = 0;
    while k < n
        invariant
            n == chain@.len(),
            n == ch.len(),
            forall|x: int| 0 <= x < n ==> #[trigger] chain@[x] == ch[x],
            forall|x: int| 0 <= x < n ==> #[trigger] chain@[x] < records@.len(),
            k <= n,
            ancestors@.len() == k,
            forall|x: int|
                0 <= x < k ==> #[trigger] ancestors@[x] == node_of(
                    records@[ch[n - 1 - x]],
                    Some(LineageRelation::Parent),
                ),
        decreases n - k,
    {
        ancestors.push(node(&records[chain[n - 1 - k]], Some(LineageRelation::Parent)));
        k = k + 1;
    }
    let root_id = if n > 0 {
        Some(records[chain[n - 1]].id)
    } else {
        None
    };
    let child_positions = children_of(records, edges, memory_id);
    let children = newest_first(records, &child_positions, Some(LineageRelation::Parent));
    let merged_positions = merged_of(records, edges, memory_id);
    let merged_into = newest_first(records, &merged_positions, Some(LineageRelation::Merged));
    let merged_into_id = merged_into_exec(edges, memory_id);
    Some(MemoryLineage {
        memory_id,
        root_id,
        version: records[current].version,
        ancestors,
        children,
        merged_into,
        merged_into_id,
    })
}

/// Whether the parent chain of memory `memory_id` ends within as many
/// steps as there are records; when it does, `build_lineage` may be called.
pub fn lineage_is_walkable(records: &[MemoryRecord], memory_id: u128) -> (r: bool)
    ensures
        r == (find_record(records@, memory_id) < 0 || walk(
            records@,
            records@[find_record(records@, memory_id)].parent_id,
            records@.len() as nat,
        ) is None),
        r ==> lineage_walkable(records@, memory_id),
{
    let current = match find_record_exec(records, memory_id) {
        Some(k) => k,
        None => return true,
    };
    let ghost start = records@[current as int].parent_id;
    let bound = records.len();
    let mut cursor = records[current].parent_id;
    let mut steps: usize = 0;
    while steps < bound
        invariant
            bound == records@.len(),
            steps <= bound,
            cursor == walk(records@, start, steps as nat),
        decreases bound - steps,
    {
        proof {
            lemma_walk_step(records@, start, steps as nat);
        }
        cursor = match cursor {
            None => None,
            Some(id) => match find_record_exec(records, id) {
                None => None,
                Some(k) => records[k].parent_id,
            },
        };
        steps = steps + 1;
    }
    let ends = cursor.is_none();
    proof {
        if ends {
            assert(walk(records@, start, bound as nat) is None);
        }
    }
    ends
}

/// One more step of a walk is one step after it.
proof fn lemma_walk_step(records: Seq<MemoryRecord>, cursor: Option<u128>, n: nat)
    ensures
        walk(records, cursor, n + 1) == parent_after(records, walk(records, cursor, n)),
    decreases n,
{
    assert(walk(records, cursor, n + 1) == walk(records, parent_after(records, cursor), n));
    if n > 0 {
        lemma_walk_step(records, parent_after(records, cursor), (n - 1) as nat);
        assert(walk(records, cursor, n) == walk(records, parent_after(records, cursor), (n - 1) as nat));
    }
}

} // verus!
