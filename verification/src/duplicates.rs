//! Duplicate memories: records that are identical (same goal fingerprint,
//! outcome status, step sequence and tools) are grouped; the best record of
//! each group survives and the merge plan lists the others for removal.

use vstd::prelude::*;
use crate::chars::{decimal, push_decimal};
use crate::json_text::push_str;
use crate::memory::{MemoryRecord, fingerprint, goal_fingerprint};
use crate::order::{lex_le, string_le, lemma_lex_total, lemma_lex_transitive};
use crate::retention::{same_content, identical_content};
use crate::text::string_of;

verus! {

/// A set of identical memories with the record chosen to survive.
pub struct DuplicateGroup<'a> {
    /// Fingerprint shared by all members.
    pub goal_fingerprint: String,
    /// All identical records, newest first.
    pub records: Vec<&'a MemoryRecord>,
    /// Id of the record that survives the merge.
    pub keep_id: u128,
    /// Why the group is considered duplicate.
    pub reason: String,
    /// Where the members stand in the records the group was drawn from.
    pub positions: Ghost<Seq<int>>,
}

/// Within a group, record `a` is listed before record `b`: newer first,
/// and between records of the same instant, the earlier one in the input.
pub open spec fn comes_before(records: Seq<MemoryRecord>, a: int, b: int) -> bool {
    records[a].created_at > records[b].created_at || (records[a].created_at
        == records[b].created_at && a < b)
}

/// `idx` lists, in group order, exactly the positions of the records
/// identical to `records[idx[0]]`.
pub open spec fn lists_class(records: Seq<MemoryRecord>, idx: Seq<int>) -> bool {
    &&& idx.len() > 0
    &&& forall|k: int| 0 <= k < idx.len() ==> 0 <= #[trigger] idx[k] < records.len()
    &&& forall|k: int|
        0 <= k < idx.len() ==> same_content(records[idx[0]], records[#[trigger] idx[k]])
    &&& forall|j: int|
        0 <= j < records.len() && same_content(records[idx[0]], #[trigger] records[j])
            ==> idx.contains(j)
    &&& forall|k: int, l: int|
        0 <= k < l < idx.len() ==> comes_before(records, #[trigger] idx[k], #[trigger] idx[l])
}

/// `a` is a better record to keep than `b`: more completed steps, then
/// more replays, then newer.
pub open spec fn outranks(a: MemoryRecord, b: MemoryRecord) -> bool {
    a.outcome.completed > b.outcome.completed || (a.outcome.completed == b.outcome.completed && (
    a.replay_count > b.replay_count || (a.replay_count == b.replay_count && a.created_at
        > b.created_at)))
}

/// The position of the record to keep: the first of the best records, the
/// one that no record outranks and that outranks every record before it.
pub open spec fn best_position(members: Seq<MemoryRecord>) -> int
    decreases members.len(),
{
    if members.len() <= 1 {
        0
    } else {
        let p = best_position(members.drop_last());
        if outranks(members.last(), members[p]) {
            members.len() - 1
        } else {
            p
        }
    }
}

/// The records at the positions `idx`.
pub open spec fn members_of(records: Seq<MemoryRecord>, idx: Seq<int>) -> Seq<MemoryRecord> {
    idx.map_values(|i: int| records[i])
}

/// Why a group was reported.
pub open spec fn reason_text(count: nat, goal_fingerprint: Seq<char>) -> Seq<char> {
    decimal(count) + " identical run(s) of '"@ + goal_fingerprint + "' with the same outcome"@
}

/// `g` is the group of the identical records at `g.positions@`: the
/// members in group order, the best of them to keep, its fingerprint and
/// the reason text.
pub open spec fn describes(records: Seq<MemoryRecord>, g: DuplicateGroup) -> bool {
    let idx = g.positions@;
    let members = members_of(records, idx);
    let keeper = members[best_position(members)];
    &&& idx.len() >= 2
    &&& lists_class(records, idx)
    &&& g.records@.len() == idx.len()
    &&& forall|k: int| 0 <= k < idx.len() ==> *#[trigger] g.records@[k] == records[idx[k]]
    &&& g.keep_id == keeper.id
    &&& g.goal_fingerprint@ == fingerprint(keeper.goal@)
    &&& g.reason@ == reason_text(idx.len(), g.goal_fingerprint@)
}

/// Groups are listed larger first, then by fingerprint.
pub open spec fn listed_before(a: DuplicateGroup, b: DuplicateGroup) -> bool {
    a.records@.len() > b.records@.len() || (a.records@.len() == b.records@.len() && lex_le(
        a.goal_fingerprint@,
        b.goal_fingerprint@,
    ))
}

/// The record to keep lies in the group, no member outranks it, and it
/// outranks every member listed before it.
pub proof fn lemma_keeper_is_best(members: Seq<MemoryRecord>)
    requires
        members.len() > 0,
    ensures
        0 <= best_position(members) < members.len(),
        forall|q: int| 0 <= q < members.len() ==> !outranks(#[trigger] members[q], members[best_position(members)]),
        forall|q: int| 0 <= q < best_position(members) ==> outranks(members[best_position(members)], #[trigger] members[q]),
    decreases members.len(),
{
    if members.len() > 1 {
        let init = members.drop_last();
        lemma_keeper_is_best(init);
        assert forall|q: int| 0 <= q < members.len() implies !outranks(
            #[trigger] members[q],
            members[best_position(members)],
        ) by {
            if q < members.len() - 1 {
                assert(members[q] == init[q]);
            }
        }
        assert forall|q: int| 0 <= q < best_position(members) implies outranks(
            members[best_position(members)],
            #[trigger] members[q],
        ) by {
            assert(members[q] == init[q]);
            assert(members[best_position(init)] == init[best_position(init)]);
        }
    }
}

/// Groups listed in order.
pub open spec fn groups_sorted(gs: Seq<DuplicateGroup>) -> bool {
    forall|p: int, q: int| 0 <= p < q < gs.len() ==> listed_before(#[trigger] gs[p], #[trigger] gs[q])
}

/// No two groups hold identical records.
pub open spec fn groups_distinct(records: Seq<MemoryRecord>, gs: Seq<DuplicateGroup>) -> bool {
    forall|p: int, q: int|
        0 <= p < q < gs.len() ==> !same_content(
            records[(#[trigger] gs[p]).positions@[0]],
            records[(#[trigger] gs[q]).positions@[0]],
        )
}

proof fn lemma_listed_total(a: DuplicateGroup, b: DuplicateGroup)
    ensures
        listed_before(a, b) || listed_before(b, a),
{
    lemma_lex_total(a.goal_fingerprint@, b.goal_fingerprint@);
}

proof fn lemma_listed_transitive(a: DuplicateGroup, b: DuplicateGroup, c: DuplicateGroup)
    requires
        listed_before(a, b),
        listed_before(b, c),
    ensures
        listed_before(a, c),
{
    if a.records@.len() == b.records@.len() && b.records@.len() == c.records@.len() {
        lemma_lex_transitive(a.goal_fingerprint@, b.goal_fingerprint@, c.goal_fingerprint@);
    }
}

/// Whether some other record of `records` is identical to `records[j]`.
pub open spec fn has_twin(records: Seq<MemoryRecord>, j: int) -> bool {
    exists|o: int| 0 <= o < records.len() && o != j && #[trigger] same_content(records[j], records[o])
}

/// Whether some record before position `i` is identical to `records[j]`.
pub open spec fn claimed_before(records: Seq<MemoryRecord>, i: int, j: int) -> bool {
    exists|r: int| 0 <= r < i && #[trigger] same_content(records[r], records[j])
}

proof fn lemma_claim_step(records: Seq<MemoryRecord>, i: int, x: int)
    requires
        0 <= i < records.len(),
    ensures
        claimed_before(records, i + 1, x) <==> (claimed_before(records, i, x) || same_content(
            records[i],
            records[x],
        )),
{
    if claimed_before(records, i + 1, x) {
        let r = choose|r: int| 0 <= r < i + 1 && #[trigger] same_content(records[r], records[x]);
        if r < i {
            assert(claimed_before(records, i, x));
        }
    }
    if claimed_before(records, i, x) {
        let r = choose|r: int| 0 <= r < i && #[trigger] same_content(records[r], records[x]);
        assert(same_content(records[r], records[x]));
    }
    if same_content(records[i], records[x]) {
        assert(same_content(records[i], records[x]));
    }
}

/// The positions `i..` of the records identical to `records[i]`, newest
/// first.
fn class_from(records: &[MemoryRecord], i: usize) -> (m: Vec<usize>)
    requires
        i < records@.len(),
    ensures
        m@.len() > 0,
        forall|k: int|
            0 <= k < m@.len() ==> i <= #[trigger] m@[k] < records@.len() && same_content(
                records@[i as int],
                records@[m@[k] as int],
            ),
        forall|j: int|
            i <= j < records@.len() && same_content(records@[i as int], #[trigger] records@[j])
                ==> m@.contains(j as usize),
        forall|k: int, l: int|
            0 <= k < l < m@.len() ==> comes_before(
                records@,
                #[trigger] m@[k] as int,
                #[trigger] m@[l] as int,
            ),
{
    let n = records.len();
    let mut m: Vec<usize> = Vec::new();
    let mut j = i;
    while j < n
        invariant
            n == records@.len(),
            i < n,
            i <= j <= n,
            j > i ==> m@.len() > 0,
            forall|k: int|
                0 <= k < m@.len() ==> i <= #[trigger] m@[k] < j && same_content(
                    records@[i as int],
                    records@[m@[k] as int],
                ),
            forall|x: int|
                i <= x < j && same_content(records@[i as int], #[trigger] records@[x])
                    ==> m@.contains(x as usize),
            forall|k: int, l: int|
                0 <= k < l < m@.len() ==> comes_before(
                    records@,
                    #[trigger] m@[k] as int,
                    #[trigger] m@[l] as int,
                ),
        decreases n - j,
    {
        if identical_content(&records[i], &records[j]) {
            let mut pos: usize = 0;
            while pos < m.len() && !(records[j].created_at > records[m[pos]].created_at)
                invariant
                    n == records@.len(),
                    j < n,
                    pos <= m@.len(),
                    forall|k: int| 0 <= k < m@.len() ==> #[trigger] m@[k] < n,
                    forall|k: int|
                        0 <= k < pos ==> records@[#[trigger] m@[k] as int].created_at
                            >= records@[j as int].created_at,
                decreases m@.len() - pos,
            {
                pos = pos + 1;
            }
            let ghost old_m = m@;
            proof {
                assert forall|l: int| pos <= l < old_m.len() implies records@[j as int].created_at
                    > records@[#[trigger] old_m[l] as int].created_at by {
                    if l > pos {
                        assert(comes_before(records@, old_m[pos as int] as int, old_m[l] as int));
                    }
                }
            }
            m.insert(pos, j);
            proof {
                assert forall|k: int, l: int| 0 <= k < l < m@.len() implies comes_before(
                    records@,
                    #[trigger] m@[k] as int,
                    #[trigger] m@[l] as int,
                ) by {
                    if l < pos {
                        assert(m@[k] == old_m[k] && m@[l] == old_m[l]);
                    } else if l == pos {
                        assert(m@[k] == old_m[k]);
                    } else if k == pos {
                        assert(m@[l] == old_m[l - 1]);
                    } else if k < pos {
                        assert(m@[k] == old_m[k] && m@[l] == old_m[l - 1]);
                    } else {
                        assert(m@[k] == old_m[k - 1] && m@[l] == old_m[l - 1]);
                    }
                }
                assert forall|x: int|
                    i <= x < j + 1 && same_content(
                        records@[i as int],
                        #[trigger] records@[x],
                    ) implies m@.contains(x as usize) by {
                    if x == j {
                        assert(m@[pos as int] == j);
                    } else {
                        let k = choose|k: int| 0 <= k < old_m.len() && old_m[k] == x as usize;
                        if k < pos {
                            assert(m@[k] == x as usize);
                        } else {
                            assert(m@[k + 1] == x as usize);
                        }
                    }
                }
                assert forall|k: int| 0 <= k < m@.len() implies i <= #[trigger] m@[k] < j + 1
                    && same_content(records@[i as int], records@[m@[k] as int]) by {
                    if k < pos {
                        assert(m@[k] == old_m[k]);
                    } else if k > pos {
                        assert(m@[k] == old_m[k - 1]);
                    }
                }
            }
        }
        j = j + 1;
    }
    m
}

/// Whether `a` outranks `b` as the record to keep.
fn outranks_exec(a: &MemoryRecord, b: &MemoryRecord) -> (r: bool)
    ensures
        r == outranks(*a, *b),
{
    a.outcome.completed > b.outcome.completed || (a.outcome.completed == b.outcome.completed && (
    a.replay_count > b.replay_count || (a.replay_count == b.replay_count && a.created_at
        > b.created_at)))
}

/// Whether group `a` is listed no later than group `b`.
fn listed_before_exec(a: &DuplicateGroup, b: &DuplicateGroup) -> (r: bool)
    ensures
        r == listed_before(*a, *b),
{
    a.records.len() > b.records.len() || (a.records.len() == b.records.len() && string_le(
        &a.goal_fingerprint,
        &b.goal_fingerprint,
    ))
}

/// Inserts `g` into the ordered `groups` after every group listed no later
/// than it; returns where it went.
fn insert_group<'a>(groups: &mut Vec<DuplicateGroup<'a>>, g: DuplicateGroup<'a>) -> (pos: usize)
    requires
        groups_sorted(old(groups)@),
    ensures
        pos <= old(groups)@.len(),
        final(groups)@ == old(groups)@.insert(pos as int, g),
        groups_sorted(final(groups)@),
{
    let mut pos: usize = 0;
    while pos < groups.len() && listed_before_exec(&groups[pos], &g)
        invariant
            pos <= groups@.len(),
            forall|k: int| 0 <= k < pos ==> listed_before(#[trigger] groups@[k], g),
        decreases groups@.len() - pos,
    {
        pos = pos + 1;
    }
    let ghost old_g = groups@;
    proof {
        if pos < old_g.len() {
            lemma_listed_total(old_g[pos as int], g);
        }
        assert forall|l: int| pos <= l < old_g.len() implies listed_before(g, #[trigger] old_g[l]) by {
            if l > pos {
                lemma_listed_transitive(g, old_g[pos as int], old_g[l]);
            }
        }
    }
    groups.insert(pos, g);
    proof {
        assert forall|k: int, l: int| 0 <= k < l < groups@.len() implies listed_before(
            #[trigger] groups@[k],
            #[trigger] groups@[l],
        ) by {
            if l < pos {
                assert(groups@[k] == old_g[k] && groups@[l] == old_g[l]);
            } else if l == pos {
                assert(groups@[k] == old_g[k]);
            } else if k == pos {
                assert(groups@[l] == old_g[l - 1]);
            } else if k < pos {
                assert(groups@[k] == old_g[k] && groups@[l] == old_g[l - 1]);
                lemma_listed_transitive(old_g[k], g, old_g[l - 1]);
            } else {
                assert(groups@[k] == old_g[k - 1] && groups@[l] == old_g[l - 1]);
            }
        }
    }
    pos
}

/// The group of the records at `m`, which list a class of at least two
/// identical records.
fn make_group<'a>(records: &'a [MemoryRecord], m: &Vec<usize>) -> (g: DuplicateGroup<'a>)
    requires
        m@.len() >= 2,
        lists_class(records@, m@.map_values(|u: usize| u as int)),
    ensures
        g.positions@ == m@.map_values(|u: usize| u as int),
        describes(records@, g),
{
    let ghost idx = m@.map_values(|u: usize| u as int);
    let ghost members = members_of(records@, idx);
    proof {
        assert forall|x: int| 0 <= x < m@.len() implies #[trigger] m@[x] < records@.len() by {
            assert(idx[x] == m@[x] as int);
        }
    }
    let mut refs: Vec<&'a MemoryRecord> = Vec::new();
    let mut k: usize = 0;
    while k < m.len()
        invariant
            k <= m@.len(),
            idx == m@.map_values(|u: usize| u as int),
            forall|x: int| 0 <= x < m@.len() ==> #[trigger] m@[x] < records@.len(),
            refs@.len() == k,
            forall|x: int| 0 <= x < k ==> *#[trigger] refs@[x] == records@[idx[x]],
        decreases m@.len() - k,
    {
        refs.push(&records[m[k]]);
        k = k + 1;
    }
    let mut best: usize = 0;
    let mut k: usize = 1;
    proof {
        assert(members.take(1).len() == 1);
    }
    while k < refs.len()
        invariant
            1 <= k <= refs@.len(),
            refs@.len() == m@.len(),
            members == members_of(records@, idx),
            idx.len() == m@.len(),
            forall|x: int| 0 <= x < refs@.len() ==> *#[trigger] refs@[x] == members[x],
            best == best_position(members.take(k as int)),
            best < k,
        decreases refs@.len() - k,
    {
        proof {
            assert(members.take(k + 1).drop_last() =~= members.take(k as int));
        }
        if outranks_exec(refs[k], refs[best]) {
            best = k;
        }
        k = k + 1;
    }
    proof {
        assert(members.take(refs@.len() as int) =~= members);
    }
    let keeper: &MemoryRecord = refs[best];
    let fp = goal_fingerprint(keeper.goal.as_str());
    let mut text: Vec<char> = Vec::new();
    push_decimal(m.len() as u64, &mut text);
    push_str(&mut text, " identical run(s) of '");
    push_str(&mut text, fp.as_str());
    push_str(&mut text, "' with the same outcome");
    let reason = string_of(text.as_slice());
    DuplicateGroup {
        goal_fingerprint: fp,
        records: refs,
        keep_id: keeper.id,
        reason,
        positions: Ghost(idx),
    }
}

/// Groups identical memories together, larger groups first, then by
/// fingerprint; groups of one are not reported.
#[verifier::spinoff_prover]
#[verifier::rlimit(30)]
pub fn duplicate_groups<'a>(records: &'a [MemoryRecord]) -> (r: Vec<DuplicateGroup<'a>>)
    ensures
        forall|p: int| 0 <= p < r@.len() ==> describes(records@, #[trigger] r@[p]),
        forall|j: int|
            0 <= j < records@.len() && has_twin(records@, j) ==> exists|p: int|
                0 <= p < r@.len() && (#[trigger] r@[p]).positions@.contains(j),
        groups_distinct(records@, r@),
        groups_sorted(r@),
{
    let n = records.len();
    let mut taken: Vec<bool> = Vec::new();
    let mut t: usize = 0;
    while t < n
        invariant
            t <= n,
            taken@.len() == t,
            forall|x: int| 0 <= x < t ==> !#[trigger] taken@[x],
        decreases n - t,
    {
        taken.push(false);
        t = t + 1;
    }
    let mut groups: Vec<DuplicateGroup<'a>> = Vec::new();
    let mut i: usize = 0;
    while i < n
        invariant
            n == records@.len(),
            i <= n,
            taken@.len() == n,
            forall|x: int| 0 <= x < n ==> (#[trigger] taken@[x] <==> claimed_before(records@, i as int, x)),
            forall|p: int| 0 <= p < groups@.len() ==> describes(records@, #[trigger] groups@[p]),
            forall|p: int|
                0 <= p < groups@.len() ==> claimed_before(
                    records@,
                    i as int,
                    (#[trigger] groups@[p]).positions@[0],
                ),
            forall|x: int|
                0 <= x < n && has_twin(records@, x) && claimed_before(records@, i as int, x)
                    ==> exists|p: int|
                    0 <= p < groups@.len() && (#[trigger] groups@[p]).positions@.contains(x),
            groups_distinct(records@, groups@),
            groups_sorted(groups@),
        decreases n - i,
    {
        let ghost old_taken = taken@;
        let ghost old_groups = groups@;
        if !taken[i] {
            let m = class_from(records, i);
            let ghost idx = m@.map_values(|u: usize| u as int);
            proof {
                assert(!claimed_before(records@, i as int, i as int));
                // every record identical to `records[i]` lies at or after `i`
                assert forall|x: int| 0 <= x < n && same_content(records@[i as int], records@[x]) implies i <= x by {
                    if x < i {
                        assert(same_content(records@[x], records@[i as int]));
                    }
                }
            }
            let mut k: usize = 0;
            while k < m.len()
                invariant
                    n == records@.len(),
                    taken@.len() == n,
                    k <= m@.len(),
                    forall|y: int| 0 <= y < m@.len() ==> #[trigger] m@[y] < n,
                    forall|x: int|
                        0 <= x < n ==> (#[trigger] taken@[x] <==> (old_taken[x] || exists|y: int|
                            0 <= y < k && m@[y] == x)),
                decreases m@.len() - k,
            {
                taken.set(m[k], true);
                k = k + 1;
            }
            proof {
                assert forall|x: int| 0 <= x < n implies (#[trigger] taken@[x] <==> claimed_before(
                    records@,
                    i + 1,
                    x,
                )) by {
                    if taken@[x] && !old_taken[x] {
                        let y = choose|y: int| 0 <= y < m@.len() && m@[y] == x;
                        assert(same_content(records@[i as int], records@[x]));
                    }
                    if claimed_before(records@, i + 1, x) && !claimed_before(records@, i as int, x) {
                        let r = choose|r: int| 0 <= r < i + 1 && #[trigger] same_content(records@[r], records@[x]);
                        assert(r == i);
                        assert(m@.contains(x as usize));
                    }
                    if claimed_before(records@, i as int, x) {
                        let r = choose|r: int| 0 <= r < i && #[trigger] same_content(records@[r], records@[x]);
                        assert(same_content(records@[r], records@[x]));
                    }
                }
                assert(lists_class(records@, idx)) by {
                    assert forall|kk: int| 0 <= kk < idx.len() implies 0 <= #[trigger] idx[kk] < records@.len() by {
                        assert(idx[kk] == m@[kk] as int);
                    }
                    assert forall|kk: int| 0 <= kk < idx.len() implies same_content(records@[idx[0]], records@[#[trigger] idx[kk]]) by {
                        assert(idx[kk] == m@[kk] as int);
                        assert(idx[0] == m@[0] as int);
                    }
                    assert forall|j: int| 0 <= j < records@.len() && same_content(records@[idx[0]], #[trigger] records@[j]) implies idx.contains(j) by {
                        assert(idx[0] == m@[0] as int);
                        assert(same_content(records@[i as int], records@[j]));
                        assert(m@.contains(j as usize));
                        let y = choose|y: int| 0 <= y < m@.len() && m@[y] == j as usize;
                        assert(idx[y] == j);
                    }
                    assert forall|kk: int, l: int| 0 <= kk < l < idx.len() implies comes_before(records@, #[trigger] idx[kk], #[trigger] idx[l]) by {
                        assert(idx[kk] == m@[kk] as int);
                        assert(idx[l] == m@[l] as int);
                    }
                }
            }
            proof {
                // a record with a twin that is identical to `records[i]` makes
                // the class at least two strong
                assert forall|x: int| 0 <= x < n && has_twin(records@, x) && same_content(records@[i as int], records@[x]) implies m@.len() >= 2 && #[trigger] m@.contains(x as usize) by {
                    let o = choose|o: int| 0 <= o < records@.len() && o != x && #[trigger] same_content(records@[x], records@[o]);
                    assert(same_content(records@[i as int], records@[o]));
                    assert(m@.contains(x as usize));
                    assert(m@.contains(o as usize));
                    if m@.len() < 2 {
                        let y1 = choose|y: int| 0 <= y < m@.len() && m@[y] == x as usize;
                        let y2 = choose|y: int| 0 <= y < m@.len() && m@[y] == o as usize;
                        assert(y1 == 0 && y2 == 0);
                    }
                }
            }
            if m.len() >= 2 {
                let g = make_group(records, &m);
                let pos = insert_group(&mut groups, g);
                proof {
                    assert(g.positions@ == idx);
                    assert(same_content(records@[i as int], records@[idx[0]])) by {
                        assert(idx[0] == m@[0] as int);
                    }
                    assert forall|p: int| 0 <= p < groups@.len() implies describes(records@, #[trigger] groups@[p]) by {
                        if p < pos {
                            assert(groups@[p] == old_groups[p]);
                        } else if p > pos {
                            assert(groups@[p] == old_groups[p - 1]);
                        }
                    }
                    assert forall|p: int| 0 <= p < groups@.len() implies claimed_before(records@, i + 1, (#[trigger] groups@[p]).positions@[0]) by {
                        let rep = groups@[p].positions@[0];
                        if p == pos {
                            assert(same_content(records@[i as int], records@[rep]));
                        } else {
                            if p < pos {
                                assert(groups@[p] == old_groups[p]);
                            } else {
                                assert(groups@[p] == old_groups[p - 1]);
                            }
                            let r = choose|r: int| 0 <= r < i && #[trigger] same_content(records@[r], records@[rep]);
                            assert(same_content(records@[r], records@[rep]));
                        }
                    }
                    assert forall|p: int, q: int| 0 <= p < q < groups@.len() implies !same_content(
                        records@[(#[trigger] groups@[p]).positions@[0]],
                        records@[(#[trigger] groups@[q]).positions@[0]],
                    ) by {
                        if p != pos && q != pos {
                            let p0 = if p < pos { p } else { p - 1 };
                            let q0 = if q < pos { q } else { q - 1 };
                            assert(groups@[p] == old_groups[p0]);
                            assert(groups@[q] == old_groups[q0]);
                        } else {
                            let o = if p == pos { q } else { p };
                            let o0 = if o < pos { o } else { o - 1 };
                            assert(groups@[o] == old_groups[o0]);
                            let rep = old_groups[o0].positions@[0];
                            let r = choose|r: int| 0 <= r < i && #[trigger] same_content(records@[r], records@[rep]);
                            if same_content(records@[idx[0]], records@[rep]) {
                                assert(same_content(records@[r], records@[i as int]));
                                assert(claimed_before(records@, i as int, i as int));
                            }
                        }
                    }
                    assert forall|x: int| 0 <= x < n && has_twin(records@, x) && claimed_before(records@, i + 1, x) implies exists|p: int|
                        0 <= p < groups@.len() && (#[trigger] groups@[p]).positions@.contains(x) by {
                        lemma_claim_step(records@, i as int, x);
                        if claimed_before(records@, i as int, x) {
                            let p = choose|p: int| 0 <= p < old_groups.len() && (#[trigger] old_groups[p]).positions@.contains(x);
                            if p < pos {
                                assert(groups@[p] == old_groups[p]);
                            } else {
                                assert(groups@[p + 1] == old_groups[p]);
                            }
                        } else {
                            assert(m@.contains(x as usize));
                            let y = choose|y: int| 0 <= y < m@.len() && m@[y] == x as usize;
                            assert(idx[y] == x);
                            assert(groups@[pos as int].positions@.contains(x));
                        }
                    }
                }
            } else {
                proof {
                    assert forall|p: int| 0 <= p < groups@.len() implies claimed_before(records@, i + 1, (#[trigger] groups@[p]).positions@[0]) by {
                        lemma_claim_step(records@, i as int, groups@[p].positions@[0]);
                    }
                    assert forall|x: int| 0 <= x < n && has_twin(records@, x) && claimed_before(records@, i + 1, x) implies exists|p: int|
                        0 <= p < groups@.len() && (#[trigger] groups@[p]).positions@.contains(x) by {
                        lemma_claim_step(records@, i as int, x);
                    }
                }
            }
        } else {
            proof {
                let r0 = choose|r: int| 0 <= r < i && #[trigger] same_content(records@[r], records@[i as int]);
                assert forall|x: int| 0 <= x < n implies (#[trigger] taken@[x] <==> claimed_before(records@, i + 1, x)) by {
                    lemma_claim_step(records@, i as int, x);
                    if same_content(records@[i as int], records@[x]) {
                        assert(same_content(records@[r0], records@[x]));
                    }
                }
                assert forall|p: int| 0 <= p < groups@.len() implies claimed_before(records@, i + 1, (#[trigger] groups@[p]).positions@[0]) by {
                    lemma_claim_step(records@, i as int, groups@[p].positions@[0]);
                }
                assert forall|x: int| 0 <= x < n && has_twin(records@, x) && claimed_before(records@, i + 1, x) implies exists|p: int|
                    0 <= p < groups@.len() && (#[trigger] groups@[p]).positions@.contains(x) by {
                    lemma_claim_step(records@, i as int, x);
                    if same_content(records@[i as int], records@[x]) {
                        assert(same_content(records@[r0], records@[x]));
                    }
                }
            }
        }
        i = i + 1;
    }
    proof {
        assert forall|j: int| 0 <= j < records@.len() && has_twin(records@, j) implies exists|p: int|
            0 <= p < groups@.len() && (#[trigger] groups@[p]).positions@.contains(j) by {
            assert(same_content(records@[j], records@[j]));
        }
    }
    groups
}

/// The ids of the members other than the keeper, in group order.
pub open spec fn removals_in(members: Seq<&MemoryRecord>, keep: u128) -> Seq<u128>
    decreases members.len(),
{
    if members.len() == 0 {
        Seq::empty()
    } else {
        let rest = removals_in(members.drop_last(), keep);
        if members.last().id != keep {
            rest.push(members.last().id)
        } else {
            rest
        }
    }
}

/// For every group with something to remove, the keeper and the ids to
/// remove, in group order.
pub open spec fn merge_entries(groups: Seq<DuplicateGroup>) -> Seq<(u128, Seq<u128>)>
    decreases groups.len(),
{
    if groups.len() == 0 {
        Seq::empty()
    } else {
        let rest = merge_entries(groups.drop_last());
        let g = groups.last();
        let removals = removals_in(g.records@, g.keep_id);
        if removals.len() > 0 {
            rest.push((g.keep_id, removals))
        } else {
            rest
        }
    }
}

/// The ids of the members of `g` other than its keeper.
fn removals_of(g: &DuplicateGroup) -> (r: Vec<u128>)
    ensures
        r@ == removals_in(g.records@, g.keep_id),
{
    let mut r: Vec<u128> = Vec::new();
    let mut k: usize = 0;
    while k < g.records.len()
        invariant
            k <= g.records@.len(),
            r@ == removals_in(g.records@.take(k as int), g.keep_id),
        decreases g.records@.len() - k,
    {
        proof {
            assert(g.records@.take(k + 1).drop_last() =~= g.records@.take(k as int));
        }
        if g.records[k].id != g.keep_id {
            r.push(g.records[k].id);
        }
        k = k + 1;
    }
    proof {
        assert(g.records@.take(g.records@.len() as int) =~= g.records@);
    }
    r
}

/// The merge plan: for every duplicate group, its keeper and the records to
/// remove (every member but the keeper); groups with nothing to remove are
/// left out.
pub fn merge_plan(groups: &[DuplicateGroup]) -> (r: Vec<(u128, Vec<u128>)>)
    ensures
        r@.len() == merge_entries(groups@).len(),
        forall|k: int|
            0 <= k < r@.len() ==> (#[trigger] r@[k]).0 == merge_entries(groups@)[k].0 && r@[k].1@
                == merge_entries(groups@)[k].1,
{
    let mut r: Vec<(u128, Vec<u128>)> = Vec::new();
    let mut p: usize = 0;
    while p < groups.len()
        invariant
            p <= groups@.len(),
            r@.len() == merge_entries(groups@.take(p as int)).len(),
            forall|k: int|
                0 <= k < r@.len() ==> (#[trigger] r@[k]).0 == merge_entries(groups@.take(p as int))[k].0
                    && r@[k].1@ == merge_entries(groups@.take(p as int))[k].1,
        decreases groups@.len() - p,
    {
        proof {
            assert(groups@.take(p + 1).drop_last() =~= groups@.take(p as int));
        }
        let removals = removals_of(&groups[p]);
        if removals.len() > 0 {
            r.push((groups[p].keep_id, removals));
        }
        p = p + 1;
    }
    proof {
        assert(groups@.take(groups@.len() as int) =~= groups@);
    }
    r
}

} // verus!
