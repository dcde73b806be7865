//! Kahn's algorithm over a dependency graph given as, for each node, the
//! list of nodes it depends on (by index).

use vstd::prelude::*;

verus! {

/// The views of the dependency lists.
pub open spec fn deps_view(deps: Seq<Vec<usize>>) -> Seq<Seq<usize>> {
    deps.map_values(|v: Vec<usize>| v@)
}

/// The lists are well formed for `n` nodes.
pub open spec fn deps_in_range(d: Seq<Seq<usize>>, n: nat) -> bool {
    &&& d.len() == n
    &&& forall|i: int, k: int| 0 <= i < n && 0 <= k < d[i].len() ==> #[trigger] d[i][k] < n
}

/// `order` lists distinct nodes below `n`.
pub open spec fn distinct_nodes(order: Seq<usize>, n: nat) -> bool {
    &&& forall|p: int| 0 <= p < order.len() ==> #[trigger] order[p] < n
    &&& forall|p: int, q: int| 0 <= p < q < order.len() ==> order[p] != order[q]
}

/// Every dependency of a node in `order` is listed earlier in `order`.
pub open spec fn deps_listed_before(d: Seq<Seq<usize>>, order: Seq<usize>) -> bool {
    forall|p: int, k: int|
        #![trigger d[order[p] as int][k]]
        0 <= p < order.len() && 0 <= k < d[order[p] as int].len() ==> order.take(p).contains(
            d[order[p] as int][k],
        )
}

/// `order` is a linearization of all `n` nodes.
pub open spec fn is_linearization(d: Seq<Seq<usize>>, order: Seq<usize>) -> bool {
    &&& order.len() == d.len()
    &&& distinct_nodes(order, d.len())
    &&& deps_listed_before(d, order)
}

/// Number of entries of `d` naming a node not yet marked in `done`.
pub open spec fn pending_count(d: Seq<usize>, done: Seq<bool>) -> nat
    decreases d.len(),
{
    if d.len() == 0 {
        0
    } else {
        pending_count(d.drop_last(), done) + if done[d.last() as int] {
            0nat
        } else {
            1nat
        }
    }
}

/// Number of entries of `d` equal to `u`.
pub open spec fn occurrences(d: Seq<usize>, u: usize) -> nat
    decreases d.len(),
{
    if d.len() == 0 {
        0
    } else {
        occurrences(d.drop_last(), u) + if d.last() == u {
            1nat
        } else {
            0nat
        }
    }
}

proof fn lemma_pending_zero(d: Seq<usize>, done: Seq<bool>)
    requires
        forall|k: int| 0 <= k < d.len() ==> #[trigger] d[k] < done.len(),
    ensures
        pending_count(d, done) == 0 <==> forall|k: int| 0 <= k < d.len() ==> done[#[trigger] d[k] as int],
    decreases d.len(),
{
    if d.len() > 0 {
        lemma_pending_zero(d.drop_last(), done);
        assert forall|k: int| 0 <= k < d.drop_last().len() implies d.drop_last()[k] == d[k] by {}
    }
}

proof fn lemma_pending_mark(d: Seq<usize>, done: Seq<bool>, u: usize)
    requires
        u < done.len(),
        !done[u as int],
        forall|k: int| 0 <= k < d.len() ==> #[trigger] d[k] < done.len(),
    ensures
        pending_count(d, done.update(u as int, true)) + occurrences(d, u) == pending_count(d, done),
        occurrences(d, u) <= pending_count(d, done),
    decreases d.len(),
{
    if d.len() > 0 {
        lemma_pending_mark(d.drop_last(), done, u);
    }
}

proof fn lemma_pending_same(d: Seq<usize>, done1: Seq<bool>, done2: Seq<bool>)
    requires
        forall|k: int| 0 <= k < d.len() ==> #[trigger] d[k] < done1.len(),
        done1.len() == done2.len(),
        forall|k: int| 0 <= k < d.len() ==> done1[#[trigger] d[k] as int] == done2[d[k] as int],
    ensures
        pending_count(d, done1) == pending_count(d, done2),
    decreases d.len(),
{
    if d.len() > 0 {
        lemma_pending_same(d.drop_last(), done1, done2);
    }
}

proof fn lemma_occurrences_zero(d: Seq<usize>, u: usize)
    requires
        occurrences(d, u) == 0,
    ensures
        forall|k: int| 0 <= k < d.len() ==> d[k] != u,
    decreases d.len(),
{
    if d.len() > 0 {
        lemma_occurrences_zero(d.drop_last(), u);
        assert forall|k: int| 0 <= k < d.len() implies d[k] != u by {
            if k < d.len() - 1 {
                assert(d.drop_last()[k] == d[k]);
            }
        }
    }
}

/// A list of distinct nodes below `n` holds at most `n` entries.
proof fn lemma_distinct_bounded(s: Seq<usize>, n: nat)
    requires
        distinct_nodes(s, n),
    ensures
        s.len() <= n,
    decreases n,
{
    if n == 0 {
        if s.len() > 0 {
            assert(s[0] < 0);
        }
    } else {
        let top = (n - 1) as usize;
        if exists|j: int| 0 <= j < s.len() && s[j] == top {
            let j = choose|j: int| 0 <= j < s.len() && s[j] == top;
            let t = s.remove(j);
            assert forall|p: int| 0 <= p < t.len() implies #[trigger] t[p] < (n - 1) as nat by {
                if p < j {
                    assert(t[p] == s[p]);
                } else {
                    assert(t[p] == s[p + 1]);
                }
            }
            assert forall|p: int, q: int| 0 <= p < q < t.len() implies t[p] != t[q] by {
                if q < j {
                } else if p < j {
                    assert(t[q] == s[q + 1]);
                } else {
                    assert(t[p] == s[p + 1] && t[q] == s[q + 1]);
                }
            }
            lemma_distinct_bounded(t, (n - 1) as nat);
        } else {
            assert forall|p: int| 0 <= p < s.len() implies #[trigger] s[p] < (n - 1) as nat by {}
            lemma_distinct_bounded(s, (n - 1) as nat);
        }
    }
}

/// A list shorter than `n` misses some node below `n`.
proof fn lemma_missing_node(s: Seq<usize>, n: nat) -> (m: usize)
    requires
        s.len() < n,
        n <= usize::MAX + 1,
    ensures
        m < n,
        forall|p: int| 0 <= p < s.len() ==> s[p] != m,
    decreases n,
{
    let top = (n - 1) as usize;
    if exists|j: int| 0 <= j < s.len() && s[j] == top {
        let j = choose|j: int| 0 <= j < s.len() && s[j] == top;
        let t = s.remove(j);
        let m = lemma_missing_node(t, (n - 1) as nat);
        assert forall|p: int| 0 <= p < s.len() implies s[p] != m by {
            if p < j {
                assert(t[p] == s[p]);
            } else if p > j {
                assert(t[p - 1] == s[p]);
            }
        }
        m
    } else {
        top
    }
}

proof fn lemma_pending_all(d: Seq<usize>, done: Seq<bool>)
    requires
        forall|k: int| 0 <= k < d.len() ==> #[trigger] d[k] < done.len(),
        forall|j: int| 0 <= j < done.len() ==> !#[trigger] done[j],
    ensures
        pending_count(d, done) == d.len(),
    decreases d.len(),
{
    if d.len() > 0 {
        lemma_pending_all(d.drop_last(), done);
    }
}

/// A list of `n` distinct nodes below `n` names every node below `n`.
proof fn lemma_covers(s: Seq<usize>, n: nat, m: usize)
    requires
        distinct_nodes(s, n),
        s.len() == n,
        m < n,
    ensures
        exists|p: int| 0 <= p < s.len() && s[p] == m,
{
    if !(exists|p: int| 0 <= p < s.len() && s[p] == m) {
        let t = s.map_values(|x: usize| if x > m { (x - 1) as usize } else { x });
        assert forall|p: int, q: int| 0 <= p < q < t.len() implies t[p] != t[q] by {
            assert(s[p] != s[q] && s[p] != m && s[q] != m);
        }
        assert forall|p: int| 0 <= p < t.len() implies #[trigger] t[p] < (n - 1) as nat by {
            assert(s[p] != m);
        }
        lemma_distinct_bounded(t, (n - 1) as nat);
    }
}

/// When the queue is exhausted, every node of a linearization was taken.
proof fn lemma_linearization_all_done(
    d: Seq<Seq<usize>>,
    o: Seq<usize>,
    done: Seq<bool>,
    queue: Seq<usize>,
    upto: int,
)
    requires
        deps_in_range(d, d.len()),
        is_linearization(d, o),
        done.len() == d.len(),
        0 <= upto <= o.len(),
        forall|j: int| 0 <= j < d.len() ==> (#[trigger] done[j] <==> exists|p: int|
            0 <= p < queue.len() && queue[p] == j),
        forall|j: int|
            0 <= j < d.len() ==> ((exists|p: int| 0 <= p < queue.len() && queue[p] == j) <==> (
            pending_count(#[trigger] d[j], done) == 0)),
    ensures
        forall|p: int| 0 <= p < upto ==> done[#[trigger] o[p] as int],
    decreases upto,
{
    if upto > 0 {
        lemma_linearization_all_done(d, o, done, queue, upto - 1);
        let x = o[upto - 1];
        assert forall|k: int| 0 <= k < d[x as int].len() implies done[#[trigger] d[x as int][k] as int] by {
            let w = d[o[upto - 1] as int][k];
            assert(o.take(upto - 1).contains(w));
            let q = choose|q: int| 0 <= q < o.take(upto - 1).len() && #[trigger] o.take(upto - 1)[q] == w;
            assert(o[q] == w);
            assert(done[o[q] as int]);
        }
        lemma_pending_zero(d[x as int], done);
    }
}

/// The dependencies of the first `upto` nodes of `order` are listed
/// earlier in `order`.
pub open spec fn listed_before_upto(d: Seq<Seq<usize>>, order: Seq<usize>, upto: int) -> bool {
    forall|p: int, k: int|
        #![trigger d[order[p] as int][k]]
        0 <= p < upto && 0 <= k < d[order[p] as int].len() ==> order.take(p).contains(
            d[order[p] as int][k],
        )
}

proof fn lemma_listed_extend(d: Seq<Seq<usize>>, order: Seq<usize>, upto: int)
    requires
        listed_before_upto(d, order, upto),
        0 <= upto < order.len(),
        forall|k: int|
            0 <= k < d[order[upto] as int].len() ==> order.take(upto).contains(
                #[trigger] d[order[upto] as int][k],
            ),
    ensures
        listed_before_upto(d, order, upto + 1),
{
}

/// Kahn's algorithm with a first-in first-out queue. Nodes with no pending
/// dependency enter the queue in index order; when a node is taken from the
/// queue, the nodes whose last pending dependency it was join the queue in
/// index order. Returns the order in which nodes left the queue; it holds
/// every node exactly when the graph has no cycle.
pub fn kahn_order(deps: &Vec<Vec<usize>>) -> (order: Vec<usize>)
    requires
        deps_in_range(deps_view(deps@), deps@.len()),
    ensures
        distinct_nodes(order@, deps@.len()),
        deps_listed_before(deps_view(deps@), order@),
        order@.len() == deps@.len() <==> exists|o: Seq<usize>|
            #[trigger] is_linearization(deps_view(deps@), o),
{
    let ghost d = deps_view(deps@);
    let n = deps.len();
    let mut done: Vec<bool> = Vec::new();
    let mut indeg: Vec<usize> = Vec::new();
    let mut queue: Vec<usize> = Vec::new();
    let mut i: usize = 0;
    while i < n
        invariant
            n == deps@.len(),
            d == deps_view(deps@),
            deps_in_range(d, n as nat),
            i <= n,
            done@.len() == i,
            indeg@.len() == i,
            forall|j: int| 0 <= j < i ==> !done@[j],
            forall|j: int| 0 <= j < i ==> #[trigger] indeg@[j] == d[j].len(),
            distinct_nodes(queue@, i as nat),
            forall|j: int|
                0 <= j < i ==> ((exists|p: int| 0 <= p < queue@.len() && queue@[p] == j) <==> (
                #[trigger] indeg@[j] == 0)),
        decreases n - i,
    {
        let ghost before = queue@;
        done.push(false);
        indeg.push(deps[i].len());
        if deps[i].len() == 0 {
            queue.push(i);
            proof {
                assert(queue@[before.len() as int] == i);
            }
        }
        proof {
            assert forall|j: int|
                0 <= j < i + 1 implies ((exists|p: int| 0 <= p < queue@.len() && queue@[p] == j) <==> (
                #[trigger] indeg@[j] == 0)) by {
                if j < i {
                    if exists|p: int| 0 <= p < queue@.len() && queue@[p] == j {
                        let p = choose|p: int| 0 <= p < queue@.len() && queue@[p] == j;
                        assert(p < before.len());
                        assert(before[p] == j);
                    }
                    if exists|p: int| 0 <= p < before.len() && before[p] == j {
                        let p = choose|p: int| 0 <= p < before.len() && before[p] == j;
                        assert(queue@[p] == j);
                    }
                } else if deps@[i as int].len() == 0 {
                    assert(queue@[before.len() as int] == j);
                } else {
                    assert(indeg@[j] == d[j].len());
                }
            }
        }
        i = i + 1;
    }
    proof {
        assert forall|j: int| 0 <= j < n implies #[trigger] indeg@[j] == pending_count(d[j], done@) by {
            lemma_pending_all(d[j], done@);
        }
    }
    let mut head: usize = 0;
    while head < queue.len()
        invariant
            n == deps@.len(),
            d == deps_view(deps@),
            deps_in_range(d, n as nat),
            done@.len() == n,
            indeg@.len() == n,
            head <= queue@.len(),
            distinct_nodes(queue@, n as nat),
            forall|j: int|
                0 <= j < n ==> (#[trigger] done@[j] <==> exists|p: int|
                    0 <= p < head && queue@[p] == j),
            forall|j: int|
                0 <= j < n ==> ((exists|p: int| 0 <= p < queue@.len() && queue@[p] == j) <==> (
                #[trigger] indeg@[j] == 0)),
            forall|j: int| 0 <= j < n ==> #[trigger] indeg@[j] == pending_count(d[j], done@),
            listed_before_upto(d, queue@, head as int),
        decreases n - head,
    {
        proof {
            lemma_distinct_bounded(queue@, n as nat);
        }
        let u = queue[head];
        let ghost old_done = done@;
        let ghost old_queue = queue@;
        proof {
            assert(indeg@[u as int] == 0);
            lemma_pending_zero(d[u as int], done@);
            assert forall|k: int| 0 <= k < d[u as int].len() implies queue@.take(head as int).contains(
                #[trigger] d[u as int][k],
            ) by {
                let w = d[u as int][k];
                assert(done@[w as int]);
                let q = choose|q: int| 0 <= q < head && queue@[q] == w;
                assert(queue@.take(head as int)[q] == w);
            }
            lemma_listed_extend(d, queue@, head as int);
            assert(listed_before_upto(d, old_queue, head + 1));
        }
        done.set(u, true);
        head = head + 1;
        proof {
            assert forall|j: int| 0 <= j < n implies (#[trigger] done@[j] <==> exists|p: int|
                0 <= p < head && queue@[p] == j) by {
                if j == u {
                    assert(queue@[head - 1] == j);
                } else if exists|p: int| 0 <= p < head && queue@[p] == j {
                    let p = choose|p: int| 0 <= p < head && queue@[p] == j;
                    assert(p < head - 1);
                }
            }
        }
        let mut v: usize = 0;
        while v < n
            invariant
                n == deps@.len(),
                d == deps_view(deps@),
                deps_in_range(d, n as nat),
                done@.len() == n,
                old_done.len() == n,
                indeg@.len() == n,
                u < n,
                !old_done[u as int],
                done@ == old_done.update(u as int, true),
                head <= old_queue.len(),
                old_queue.len() <= queue@.len(),
                forall|p: int| 0 <= p < old_queue.len() ==> #[trigger] queue@[p] == old_queue[p],
                v <= n,
                distinct_nodes(queue@, n as nat),
                forall|j: int| 0 <= j < n ==> (#[trigger] done@[j] <==> exists|p: int| 0 <= p < head && old_queue[p] == j),
                forall|j: int|
                    0 <= j < n ==> ((exists|p: int| 0 <= p < queue@.len() && queue@[p] == j) <==> (
                    #[trigger] indeg@[j] == 0)),
                forall|j: int| 0 <= j < v ==> #[trigger] indeg@[j] == pending_count(d[j], done@),
                forall|j: int| v <= j < n ==> #[trigger] indeg@[j] == pending_count(d[j], old_done),
                listed_before_upto(d, old_queue, head as int),
            decreases n - v,
        {
            let mut c: usize = 0;
            let mut k: usize = 0;
            let ghost dv = d[v as int];
            while k < deps[v].len()
                invariant
                    dv == deps@[v as int]@,
                    v < n,
                    n == deps@.len(),
                    k <= dv.len(),
                    c == occurrences(dv.subrange(0, k as int), u),
                    c <= k,
                decreases dv.len() - k,
            {
                proof {
                    assert(dv.subrange(0, k + 1).drop_last() =~= dv.subrange(0, k as int));
                }
                if deps[v][k] == u {
                    c = c + 1;
                }
                k = k + 1;
            }
            proof {
                assert(dv.subrange(0, dv.len() as int) =~= dv);
                lemma_pending_mark(dv, old_done, u);
            }
            if c > 0 {
                let cur = indeg[v];
                indeg.set(v, cur - c);
                if cur - c == 0 {
                    let ghost before = queue@;
                    queue.push(v);
                    proof {
                        assert(!(exists|p: int| 0 <= p < before.len() && before[p] == v));
                        assert forall|p: int, q: int| 0 <= p < q < queue@.len() implies queue@[p] != queue@[q] by {
                            if q == before.len() {
                                assert(before[p] == queue@[p]);
                            }
                        }
                        assert forall|j: int|
                            0 <= j < n implies ((exists|p: int| 0 <= p < queue@.len() && queue@[p] == j) <==> (
                            #[trigger] indeg@[j] == 0)) by {
                            if j == v {
                                assert(queue@[before.len() as int] == j);
                            } else {
                                if exists|p: int| 0 <= p < queue@.len() && queue@[p] == j {
                                    let p = choose|p: int| 0 <= p < queue@.len() && queue@[p] == j;
                                    assert(p < before.len());
                                    assert(before[p] == j);
                                }
                                if exists|p: int| 0 <= p < before.len() && before[p] == j {
                                    let p = choose|p: int| 0 <= p < before.len() && before[p] == j;
                                    assert(queue@[p] == j);
                                }
                            }
                        }
                    }
                }
            } else {
                proof {
                    lemma_occurrences_zero(dv, u);
                    lemma_pending_same(dv, old_done, done@);
                }
            }
            v = v + 1;
        }
        proof {
            assert forall|j: int|
                0 <= j < n implies (#[trigger] done@[j] <==> exists|p: int| 0 <= p < head && queue@[p] == j) by {
                if exists|p: int| 0 <= p < head && old_queue[p] == j {
                    let p = choose|p: int| 0 <= p < head && old_queue[p] == j;
                    assert(queue@[p] == j);
                }
                if exists|p: int| 0 <= p < head && queue@[p] == j {
                    let p = choose|p: int| 0 <= p < head && queue@[p] == j;
                    assert(old_queue[p] == j);
                }
            }
            assert forall|p: int, k: int|
                #![trigger d[queue@[p] as int][k]]
                0 <= p < head && 0 <= k < d[queue@[p] as int].len() implies queue@.take(p).contains(
                    d[queue@[p] as int][k],
                ) by {
                assert(queue@[p] == old_queue[p]);
                assert(queue@.take(p) =~= old_queue.take(p));
                let w = d[old_queue[p] as int][k];
                assert(old_queue.take(p).contains(w));
            }
        }
    }
    proof {
        assert(queue@.take(head as int) =~= queue@);
        if queue@.len() == n {
            assert(is_linearization(d, queue@));
        } else {
            if exists|o: Seq<usize>| #[trigger] is_linearization(d, o) {
                let o = choose|o: Seq<usize>| #[trigger] is_linearization(d, o);
                assert forall|j: int| 0 <= j < n implies ((exists|p: int| 0 <= p < queue@.len() && queue@[p] == j) <==> (
                    pending_count(#[trigger] d[j], done@) == 0)) by {
                    assert(indeg@[j] == pending_count(d[j], done@));
                }
                lemma_linearization_all_done(d, o, done@, queue@, o.len() as int);
                lemma_distinct_bounded(queue@, n as nat);
                let m = lemma_missing_node(queue@, n as nat);
                lemma_covers(o, n as nat, m);
                let p = choose|p: int| 0 <= p < o.len() && o[p] == m;
                assert(done@[o[p] as int]);
            }
        }
    }
    queue
}

} // verus!
