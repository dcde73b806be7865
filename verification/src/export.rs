//! The portable memory export format and the plan of an import: records
//! whose ids the store already holds are skipped, the others imported.

use std::collections::{HashMap, HashSet};
use vstd::prelude::*;
use crate::chars::{decimal, push_decimal};
use crate::ids::now_nanos;
use crate::json_text::push_str;
use crate::text::string_of;
use crate::memory::MemoryRecord;

verus! {

/// How often a remembered workflow was accepted or rejected.
#[derive(Clone, Copy)]
pub struct MemoryAcceptance {
    pub accepted: u64,
    pub rejected: u64,
}

/// The acceptance ledger entry of one memory.
#[derive(Clone, Copy)]
pub struct MemoryAcceptanceEntry {
    pub memory_id: u128,
    pub acceptance: MemoryAcceptance,
}

/// A versioned export payload: records and the acceptance ledger.
pub struct MemoryExport {
    pub schema_version: u32,
    /// Nanoseconds since the Unix epoch.
    pub exported_at: i128,
    pub records: Vec<MemoryRecord>,
    pub acceptance: Vec<MemoryAcceptanceEntry>,
}

/// The version of the export format this build writes; payloads of a
/// newer version are refused.
pub const MEMORY_EXPORT_SCHEMA_VERSION: u32 = 1;

/// `entries` hold exactly the pairs of `ledger`, in ascending memory id.
pub open spec fn ledger_entries(entries: Seq<MemoryAcceptanceEntry>, ledger: Map<u128, MemoryAcceptance>) -> bool {
    &&& entries.len() == ledger.dom().len()
    &&& forall|k: int|
        0 <= k < entries.len() ==> ledger.contains_key(#[trigger] entries[k].memory_id)
            && ledger[entries[k].memory_id] == entries[k].acceptance
    &&& forall|id: u128|
        #[trigger] ledger.contains_key(id) ==> exists|k: int|
            0 <= k < entries.len() && (#[trigger] entries[k]).memory_id == id
    &&& forall|k: int, l: int|
        0 <= k < l < entries.len() ==> (#[trigger] entries[k]).memory_id < (#[trigger] entries[l]).memory_id
}

/// `v` holds the pairs of `ledger`, each key once.
pub open spec fn ledger_pairs(v: Seq<(u128, MemoryAcceptance)>, ledger: Map<u128, MemoryAcceptance>) -> bool {
    &&& v.len() == ledger.dom().len()
    &&& forall|k: int|
        0 <= k < v.len() ==> ledger.contains_key(#[trigger] v[k].0) && ledger[v[k].0] == v[k].1
    &&& forall|id: u128|
        #[trigger] ledger.contains_key(id) ==> exists|k: int| 0 <= k < v.len() && (#[trigger] v[k]).0 == id
    &&& forall|k: int, l: int| 0 <= k < l < v.len() ==> (#[trigger] v[k]).0 != (#[trigger] v[l]).0
}

/// The pairs of the ledger, in the map's own order.
fn pairs_of(acceptance: &HashMap<u128, MemoryAcceptance>) -> (v: Vec<(u128, MemoryAcceptance)>)
    ensures
        ledger_pairs(v@, acceptance@),
{
    broadcast use vstd::std_specs::hash::group_hash_axioms;
    let mut v: Vec<(u128, MemoryAcceptance)> = Vec::new();
    proof {
        if acceptance@.dom().len() == 0 {
            assert forall|id: u128| #[trigger] acceptance@.contains_key(id) implies false by {
                vstd::set_lib::lemma_set_empty_equivalency_len(acceptance@.dom());
            }
        }
    }
    for pair in it: acceptance.iter()
        invariant
            it.seq().len() == acceptance@.dom().len(),
            it.seq().no_duplicates(),
            forall|i: int|
                #![trigger it.seq()[i]]
                0 <= i < it.seq().len() ==> acceptance@.contains_key(*it.seq()[i].0)
                    && acceptance@[*it.seq()[i].0] == *it.seq()[i].1,
            v@.len() == it.index(),
            forall|k: int|
                0 <= k < v@.len() ==> (#[trigger] v@[k]).0 == *it.seq()[k].0 && v@[k].1 == *it.seq()[k].1,
            it.index() == it.seq().len() ==> ledger_pairs(v@, acceptance@),
    {
        let ghost idx = it.index();
        let (id, acc) = pair;
        v.push((*id, *acc));
        proof {
            assert forall|k: int| idx + 1 == it.seq().len() && 0 <= k < v@.len() implies acceptance@.contains_key(
                #[trigger] v@[k].0,
            ) && acceptance@[v@[k].0] == v@[k].1 by {
                assert(v@[k].0 == *it.seq()[k].0);
            }
            assert forall|x: u128| idx + 1 == it.seq().len() && #[trigger] acceptance@.contains_key(x) implies exists|k: int|
                0 <= k < v@.len() && (#[trigger] v@[k]).0 == x by {
                assert(it.seq().contains((&x, &acceptance@[x])));
                let i = choose|i: int| 0 <= i < it.seq().len() && it.seq()[i] == (&x, &acceptance@[x]);
                assert(v@[i].0 == *it.seq()[i].0);
            }
            assert forall|k: int, l: int| idx + 1 == it.seq().len() && 0 <= k < l < v@.len() implies (#[trigger] v@[k]).0
                != (#[trigger] v@[l]).0 by {
                if v@[k].0 == v@[l].0 {
                    assert(v@[k].0 == *it.seq()[k].0 && v@[l].0 == *it.seq()[l].0);
                    assert(acceptance@[*it.seq()[k].0] == *it.seq()[k].1);
                    assert(acceptance@[*it.seq()[l].0] == *it.seq()[l].1);
                    assert(it.seq()[k] == it.seq()[l]);
                }
            }
        }
    }
    v
}

/// Builds a versioned export payload from the records and the acceptance
/// ledger, whose entries are listed by memory id.
#[verifier::spinoff_prover]
pub fn build_export(records: Vec<MemoryRecord>, acceptance: HashMap<u128, MemoryAcceptance>) -> (r: MemoryExport)
    ensures
        r.schema_version == MEMORY_EXPORT_SCHEMA_VERSION,
        r.records == records,
        ledger_entries(r.acceptance@, acceptance@),
{
    let pairs = pairs_of(&acceptance);
    let mut entries: Vec<MemoryAcceptanceEntry> = Vec::new();
    // `src[k]`: the pair entry `k` came from; `dst[i]`: where pair `i` went
    let ghost mut src: Seq<int> = Seq::empty();
    let ghost mut dst: Seq<int> = Seq::empty();
    let mut j: usize = 0;
    while j < pairs.len()
        invariant
            ledger_pairs(pairs@, acceptance@),
            j <= pairs@.len(),
            entries@.len() == j,
            src.len() == j,
            dst.len() == j,
            forall|k: int|
                0 <= k < j ==> 0 <= #[trigger] src[k] < j && pairs@[src[k]].0 == entries@[k].memory_id
                    && pairs@[src[k]].1 == entries@[k].acceptance,
            forall|i: int|
                0 <= i < j ==> 0 <= #[trigger] dst[i] < j && entries@[dst[i]].memory_id == pairs@[i].0,
            forall|k: int, l: int|
                0 <= k < l < entries@.len() ==> (#[trigger] entries@[k]).memory_id < (#[trigger] entries@[l]).memory_id,
        decreases pairs@.len() - j,
    {
        let (id, acc) = pairs[j];
        proof {
            assert forall|k: int| 0 <= k < entries@.len() implies (#[trigger] entries@[k]).memory_id != id by {
                assert(src[k] < j);
                assert(pairs@[src[k]].0 != pairs@[j as int].0);
            }
        }
        let mut pos: usize = 0;
        while pos < entries.len() && entries[pos].memory_id < id
            invariant
                pos <= entries@.len(),
                forall|k: int| 0 <= k < pos ==> (#[trigger] entries@[k]).memory_id < id,
            decreases entries@.len() - pos,
        {
            pos = pos + 1;
        }
        let ghost old_e = entries@;
        proof {
            assert forall|l: int| pos <= l < old_e.len() implies id < (#[trigger] old_e[l]).memory_id by {
                if l > pos {
                    assert(old_e[pos as int].memory_id < old_e[l].memory_id);
                }
                assert(old_e[l].memory_id != id);
            }
        }
        entries.insert(pos, MemoryAcceptanceEntry { memory_id: id, acceptance: acc });
        proof {
            let old_src = src;
            let old_dst = dst;
            src = old_src.insert(pos as int, j as int);
            dst = Seq::new(
                (j + 1) as nat,
                |i: int|
                    if i == j {
                        pos as int
                    } else if old_dst[i] >= pos {
                        old_dst[i] + 1
                    } else {
                        old_dst[i]
                    },
            );
            assert forall|k: int, l: int| 0 <= k < l < entries@.len() implies (#[trigger] entries@[k]).memory_id
                < (#[trigger] entries@[l]).memory_id by {
                if l < pos {
                    assert(entries@[k] == old_e[k] && entries@[l] == old_e[l]);
                } else if l == pos {
                    assert(entries@[k] == old_e[k]);
                } else if k == pos {
                    assert(entries@[l] == old_e[l - 1]);
                } else if k < pos {
                    assert(entries@[k] == old_e[k] && entries@[l] == old_e[l - 1]);
                } else {
                    assert(entries@[k] == old_e[k - 1] && entries@[l] == old_e[l - 1]);
                }
            }
            assert forall|k: int| 0 <= k < j + 1 implies 0 <= #[trigger] src[k] < j + 1 && pairs@[src[k]].0
                == entries@[k].memory_id && pairs@[src[k]].1 == entries@[k].acceptance by {
                if k < pos {
                    assert(src[k] == old_src[k] && entries@[k] == old_e[k]);
                } else if k > pos {
                    assert(src[k] == old_src[k - 1] && entries@[k] == old_e[k - 1]);
                }
            }
            assert forall|i: int| 0 <= i < j + 1 implies 0 <= #[trigger] dst[i] < j + 1 && entries@[dst[i]].memory_id
                == pairs@[i].0 by {
                if i < j {
                    if old_dst[i] >= pos {
                        assert(entries@[old_dst[i] + 1] == old_e[old_dst[i]]);
                    } else {
                        assert(entries@[old_dst[i]] == old_e[old_dst[i]]);
                    }
                }
            }
        }
        j = j + 1;
    }
    proof {
        assert forall|k: int| 0 <= k < entries@.len() implies acceptance@.contains_key(#[trigger] entries@[k].memory_id)
            && acceptance@[entries@[k].memory_id] == entries@[k].acceptance by {
            assert(acceptance@.contains_key(pairs@[src[k]].0));
        }
        assert forall|x: u128| #[trigger] acceptance@.contains_key(x) implies exists|k: int|
            0 <= k < entries@.len() && (#[trigger] entries@[k]).memory_id == x by {
            let i = choose|i: int| 0 <= i < pairs@.len() && (#[trigger] pairs@[i]).0 == x;
            assert(entries@[dst[i]].memory_id == x);
        }
    }
    MemoryExport {
        schema_version: MEMORY_EXPORT_SCHEMA_VERSION,
        exported_at: now_nanos(),
        records,
        acceptance: entries,
    }
}

/// Why a payload of a newer export format is refused.
pub open spec fn unsupported_schema_text(version: u32) -> Seq<char> {
    "unsupported memory export schema "@ + decimal(version as nat) + " (this build supports up to "@
        + decimal(MEMORY_EXPORT_SCHEMA_VERSION as nat) + ")"@
}

/// Accepts a parsed export payload unless it comes from a newer format
/// than this build writes, which could silently corrupt the store.
pub fn check_export_schema(export: MemoryExport) -> (r: Result<MemoryExport, String>)
    ensures
        export.schema_version <= MEMORY_EXPORT_SCHEMA_VERSION ==> r == Ok::<MemoryExport, String>(export),
        export.schema_version > MEMORY_EXPORT_SCHEMA_VERSION ==> (r matches Err(m) && m@
            == unsupported_schema_text(export.schema_version)),
{
    if export.schema_version > MEMORY_EXPORT_SCHEMA_VERSION {
        let mut text: Vec<char> = Vec::new();
        push_str(&mut text, "unsupported memory export schema ");
        push_decimal(export.schema_version as u64, &mut text);
        push_str(&mut text, " (this build supports up to ");
        push_decimal(MEMORY_EXPORT_SCHEMA_VERSION as u64, &mut text);
        push_str(&mut text, ")");
        return Err(string_of(text.as_slice()));
    }
    Ok(export)
}

/// What an import did.
#[derive(Clone, Copy)]
pub struct ImportResult {
    pub imported: u64,
    pub skipped: u64,
    pub acceptance_restored: u64,
}

/// The records of `records` whose id is in `ids` (when `inside`) or not in
/// it (otherwise), in order.
pub open spec fn records_by_membership(records: Seq<MemoryRecord>, ids: Set<u128>, inside: bool) -> Seq<MemoryRecord>
    decreases records.len(),
{
    if records.len() == 0 {
        Seq::empty()
    } else {
        let rest = records_by_membership(records.drop_last(), ids, inside);
        if ids.contains(records.last().id) == inside {
            rest.push(records.last())
        } else {
            rest
        }
    }
}

/// Partitions an export's records against the ids already in the store:
/// those to import (new ids) and those to skip (existing ids), each in
/// export order.
pub fn import_plan<'a>(export: &'a MemoryExport, existing: &HashSet<u128>) -> (r: (
    Vec<&'a MemoryRecord>,
    Vec<&'a MemoryRecord>,
))
    ensures
        r.0@.map_values(|x: &MemoryRecord| *x) == records_by_membership(export.records@, existing@, false),
        r.1@.map_values(|x: &MemoryRecord| *x) == records_by_membership(export.records@, existing@, true),
{
    broadcast use vstd::std_specs::hash::group_hash_axioms;
    let mut imported: Vec<&'a MemoryRecord> = Vec::new();
    let mut skipped: Vec<&'a MemoryRecord> = Vec::new();
    let mut i: usize = 0;
    while i < export.records.len()
        invariant
            i <= export.records@.len(),
            imported@.map_values(|x: &MemoryRecord| *x) == records_by_membership(
                export.records@.take(i as int),
                existing@,
                false,
            ),
            skipped@.map_values(|x: &MemoryRecord| *x) == records_by_membership(
                export.records@.take(i as int),
                existing@,
                true,
            ),
        decreases export.records.len() - i,
    {
        let record = &export.records[i];
        proof {
            assert(export.records@.take(i + 1).drop_last() =~= export.records@.take(i as int));
            assert(export.records@.take(i + 1).last() == *record);
        }
        let ghost si = skipped@;
        let ghost ii = imported@;
        if existing.contains(&record.id) {
            skipped.push(record);
            proof {
                assert(skipped@.map_values(|x: &MemoryRecord| *x) =~= si.map_values(|x: &MemoryRecord| *x).push(
                    *record,
                ));
            }
        } else {
            imported.push(record);
            proof {
                assert(imported@.map_values(|x: &MemoryRecord| *x) =~= ii.map_values(|x: &MemoryRecord| *x).push(
                    *record,
                ));
            }
        }
        i = i + 1;
    }
    proof {
        assert(export.records@.take(i as int) =~= export.records@);
    }
    (imported, skipped)
}

/// Summarises an applied import plan.
pub fn import_result(imported: usize, skipped: usize, acceptance_restored: usize) -> (r: ImportResult)
    ensures
        r.imported == imported,
        r.skipped == skipped,
        r.acceptance_restored == acceptance_restored,
{
    ImportResult {
        imported: imported as u64,
        skipped: skipped as u64,
        acceptance_restored: acceptance_restored as u64,
    }
}

/// An import plan splits the exported records: every record is either
/// imported or skipped, never both.
pub proof fn lemma_import_plan_partitions(records: Seq<MemoryRecord>, ids: Set<u128>)
    ensures
        records_by_membership(records, ids, false).len() + records_by_membership(records, ids, true).len()
            == records.len(),
        forall|i: int|
            0 <= i < records_by_membership(records, ids, false).len() ==> !ids.contains(
                #[trigger] records_by_membership(records, ids, false)[i].id,
            ),
        forall|i: int|
            0 <= i < records_by_membership(records, ids, true).len() ==> ids.contains(
                #[trigger] records_by_membership(records, ids, true)[i].id,
            ),
    decreases records.len(),
{
    if records.len() > 0 {
        lemma_import_plan_partitions(records.drop_last(), ids);
        let a = records_by_membership(records.drop_last(), ids, false);
        let b = records_by_membership(records.drop_last(), ids, true);
        assert forall|i: int|
            0 <= i < records_by_membership(records, ids, false).len() implies !ids.contains(
                #[trigger] records_by_membership(records, ids, false)[i].id,
            ) by {
            if i < a.len() {
                assert(records_by_membership(records, ids, false)[i] == a[i]);
            }
        }
        assert forall|i: int|
            0 <= i < records_by_membership(records, ids, true).len() implies ids.contains(
                #[trigger] records_by_membership(records, ids, true)[i].id,
            ) by {
            if i < b.len() {
                assert(records_by_membership(records, ids, true)[i] == b[i]);
            }
        }
    }
}

/// Imports are idempotent by record id: once every exported record's id is
/// in the store, importing the export again imports nothing and skips
/// every record.
pub proof fn lemma_reimport_skips_everything(records: Seq<MemoryRecord>, ids: Set<u128>)
    requires
        forall|i: int| 0 <= i < records.len() ==> ids.contains(#[trigger] records[i].id),
    ensures
        records_by_membership(records, ids, false) == Seq::<MemoryRecord>::empty(),
        records_by_membership(records, ids, true) == records,
    decreases records.len(),
{
    if records.len() > 0 {
        let init = records.drop_last();
        assert forall|i: int| 0 <= i < init.len() implies ids.contains(#[trigger] init[i].id) by {
            assert(init[i] == records[i]);
        }
        lemma_reimport_skips_everything(init, ids);
        assert(ids.contains(records[records.len() - 1].id));
        assert(init.push(records.last()) =~= records);
    }
}

/// Into a store that holds none of the exported ids, every record is
/// imported and none skipped.
pub proof fn lemma_fresh_import_takes_everything(records: Seq<MemoryRecord>, ids: Set<u128>)
    requires
        forall|i: int| 0 <= i < records.len() ==> !ids.contains(#[trigger] records[i].id),
    ensures
        records_by_membership(records, ids, false) == records,
        records_by_membership(records, ids, true) == Seq::<MemoryRecord>::empty(),
    decreases records.len(),
{
    if records.len() > 0 {
        let init = records.drop_last();
        assert forall|i: int| 0 <= i < init.len() implies !ids.contains(#[trigger] init[i].id) by {
            assert(init[i] == records[i]);
        }
        lemma_fresh_import_takes_everything(init, ids);
        assert(!ids.contains(records[records.len() - 1].id));
        assert(init.push(records.last()) =~= records);
    }
}

} // verus!
