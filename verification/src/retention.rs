//! Retention and compression rules over memory records: when a temporary
//! memory is due for expiry, which archived memories duplicate a preferred
//! copy, when a history is large enough to compress, and the summary that
//! replaces a compressed history.

use vstd::prelude::*;
use crate::chars::{decimal, push_decimal};
use crate::json_text::push_str;
use crate::memory::{MemoryRecord, MemoryStatus, RetentionPolicy, fingerprint, goal_fingerprint};
use crate::text::{string_eq, string_of, strings_view};

verus! {

/// Reasoning entries from which a record is compressible.
pub const COMPRESS_REASONING_THRESHOLD: usize = 80;

/// Step entries from which a record is compressible.
pub const COMPRESS_STEPS_THRESHOLD: usize = 150;

/// How many leading and trailing entries a summary keeps.
pub const SUMMARY_HEAD_TAIL: usize = 5;

/// Whether a temporary record's deadline has passed at `now`.
pub open spec fn due_expiry(retention: RetentionPolicy, until: Option<i128>, now: i128) -> bool {
    retention == RetentionPolicy::Temporary && (until matches Some(u) && u <= now)
}

/// Whether a temporary record has passed its retention deadline, so that
/// cleanup marks it expired.
pub fn is_due_expiry(record: &MemoryRecord, now: i128) -> (r: bool)
    ensures
        r == due_expiry(record.retention, record.retention_until, now),
{
    match (record.retention, record.retention_until) {
        (RetentionPolicy::Temporary, Some(until)) => until <= now,
        _ => false,
    }
}

/// Whether two records are exact duplicates for cleanup: same status, goal
/// fingerprint, steps and tools.
pub open spec fn same_content(a: MemoryRecord, b: MemoryRecord) -> bool {
    &&& a.status == b.status
    &&& fingerprint(a.goal@) == fingerprint(b.goal@)
    &&& strings_view(a.steps@) == strings_view(b.steps@)
    &&& strings_view(a.tools_used@) == strings_view(b.tools_used@)
}

/// Whether two lists of strings are equal.
pub fn strings_equal(a: &Vec<String>, b: &Vec<String>) -> (r: bool)
    ensures
        r == (strings_view(a@) == strings_view(b@)),
{
    if a.len() != b.len() {
        proof {
            assert(strings_view(a@).len() != strings_view(b@).len());
        }
        return false;
    }
    let mut i: usize = 0;
    while i < a.len()
        invariant
            a@.len() == b@.len(),
            i <= a@.len(),
            forall|k: int| 0 <= k < i ==> #[trigger] a@[k]@ == b@[k]@,
        decreases a.len() - i,
    {
        if !string_eq(&a[i], &b[i]) {
            proof {
                assert(strings_view(a@)[i as int] != strings_view(b@)[i as int]);
            }
            return false;
        }
        i = i + 1;
    }
    proof {
        assert forall|k: int| 0 <= k < a@.len() implies #[trigger] strings_view(a@)[k] == strings_view(b@)[k] by {
            assert(a@[k]@ == b@[k]@);
        }
        assert(strings_view(a@) =~= strings_view(b@));
    }
    true
}

/// Whether two records are exact duplicates for cleanup purposes.
pub fn identical_content(a: &MemoryRecord, b: &MemoryRecord) -> (r: bool)
    ensures
        r == same_content(*a, *b),
{
    a.status == b.status && string_eq(&goal_fingerprint(a.goal.as_str()), &goal_fingerprint(b.goal.as_str()))
        && strings_equal(&a.steps, &b.steps) && strings_equal(&a.tools_used, &b.tools_used)
}

/// Whether `candidate` is the copy to keep over the archived `reference`:
/// a live copy always is; between archived copies, the later archived one
/// is.
pub open spec fn preferred(candidate: MemoryRecord, reference: MemoryRecord) -> bool {
    if candidate.retention != RetentionPolicy::Archived {
        true
    } else {
        match (candidate.archived_at, reference.archived_at) {
            (Some(c), Some(r)) => c > r,
            (Some(_), None) => true,
            _ => false,
        }
    }
}

/// Whether `other` is a kept duplicate of `r`: another, unexpired record
/// with the same content that is preferred over `r`.
pub open spec fn kept_duplicate(r: MemoryRecord, other: MemoryRecord) -> bool {
    &&& other.id != r.id
    &&& other.retention != RetentionPolicy::Expired
    &&& same_content(r, other)
    &&& preferred(other, r)
}

/// Whether some record of `records` is a kept duplicate of `r`.
pub open spec fn has_kept_duplicate(records: Seq<MemoryRecord>, r: MemoryRecord) -> bool {
    exists|j: int| 0 <= j < records.len() && #[trigger] kept_duplicate(r, records[j])
}

/// The ids, in record order, of the archived records of `prefix` that a
/// record of `records` duplicates and is preferred over.
pub open spec fn removable_archives(records: Seq<MemoryRecord>, prefix: Seq<MemoryRecord>) -> Seq<u128>
    decreases prefix.len(),
{
    if prefix.len() == 0 {
        Seq::empty()
    } else {
        let r = prefix.last();
        let rest = removable_archives(records, prefix.drop_last());
        if r.retention == RetentionPolicy::Archived && has_kept_duplicate(records, r) {
            rest.push(r.id)
        } else {
            rest
        }
    }
}

/// A memory is removed as a duplicate only if it is archived and another
/// copy of it with the same content, not expired, is preferred over it: an
/// expired copy never causes a removal.
pub proof fn lemma_removed_archives_have_a_live_copy(records: Seq<MemoryRecord>, prefix: Seq<MemoryRecord>, x: u128)
    requires
        removable_archives(records, prefix).contains(x),
    ensures
        exists|i: int|
            0 <= i < prefix.len() && (#[trigger] prefix[i]).id == x && prefix[i].retention == RetentionPolicy::Archived
                && exists|j: int|
                0 <= j < records.len() && #[trigger] records[j].id != prefix[i].id && records[j].retention
                    != RetentionPolicy::Expired && same_content(prefix[i], records[j]) && preferred(
                    records[j],
                    prefix[i],
                ),
    decreases prefix.len(),
{
    let rest = prefix.drop_last();
    let r = prefix.last();
    let last = prefix.len() - 1;
    assert(prefix[last] == r);
    if r.retention == RetentionPolicy::Archived && has_kept_duplicate(records, r) && x == r.id {
        let j = choose|j: int| 0 <= j < records.len() && #[trigger] kept_duplicate(r, records[j]);
        assert(records[j].id != prefix[last].id);
    } else {
        if r.retention == RetentionPolicy::Archived && has_kept_duplicate(records, r) {
            assert(removable_archives(records, prefix) == removable_archives(records, rest).push(r.id));
            assert(removable_archives(records, rest).contains(x)) by {
                let k = choose|k: int| 0 <= k < removable_archives(records, prefix).len()
                    && removable_archives(records, prefix)[k] == x;
                assert(k < removable_archives(records, rest).len());
                assert(removable_archives(records, rest)[k] == x);
            }
        }
        lemma_removed_archives_have_a_live_copy(records, rest, x);
        let i = choose|i: int|
            0 <= i < rest.len() && (#[trigger] rest[i]).id == x && rest[i].retention == RetentionPolicy::Archived
                && exists|j: int|
                0 <= j < records.len() && #[trigger] records[j].id != rest[i].id && records[j].retention
                    != RetentionPolicy::Expired && same_content(rest[i], records[j]) && preferred(records[j], rest[i]);
        assert(prefix[i] == rest[i]);
    }
}

/// Every archived memory that has another copy with the same content, not
/// expired and preferred over it, is removed.
pub proof fn lemma_archives_with_a_live_copy_are_removed(
    records: Seq<MemoryRecord>,
    prefix: Seq<MemoryRecord>,
    i: int,
    j: int,
)
    requires
        0 <= i < prefix.len(),
        prefix[i].retention == RetentionPolicy::Archived,
        0 <= j < records.len(),
        records[j].id != prefix[i].id,
        records[j].retention != RetentionPolicy::Expired,
        same_content(prefix[i], records[j]),
        preferred(records[j], prefix[i]),
    ensures
        removable_archives(records, prefix).contains(prefix[i].id),
    decreases prefix.len(),
{
    let rest = prefix.drop_last();
    let last = prefix.len() - 1;
    if i == last {
        assert(kept_duplicate(prefix.last(), records[j]));
        assert(removable_archives(records, prefix).last() == prefix[i].id);
    } else {
        assert(prefix[i] == rest[i]);
        lemma_archives_with_a_live_copy_are_removed(records, rest, i, j);
        let k = choose|k: int| 0 <= k < removable_archives(records, rest).len()
            && removable_archives(records, rest)[k] == prefix[i].id;
        if prefix.last().retention == RetentionPolicy::Archived && has_kept_duplicate(records, prefix.last()) {
            assert(removable_archives(records, prefix)[k] == prefix[i].id);
        }
    }
}

/// Whether `candidate` is preferred over `reference`.
fn is_preferred(candidate: &MemoryRecord, reference: &MemoryRecord) -> (r: bool)
    ensures
        r == preferred(*candidate, *reference),
{
    if candidate.retention != RetentionPolicy::Archived {
        return true;
    }
    match (candidate.archived_at, reference.archived_at) {
        (Some(c), Some(r)) => c > r,
        (Some(_), None) => true,
        _ => false,
    }
}

/// The archived memories that duplicate a preferred, unexpired copy: the
/// candidates the cleanup pass deletes.
pub fn duplicate_archives(records: &Vec<MemoryRecord>) -> (r: Vec<u128>)
    ensures
        r@ == removable_archives(records@, records@),
        forall|x: u128|
            #[trigger] r@.contains(x) ==> exists|i: int|
                0 <= i < records@.len() && (#[trigger] records@[i]).id == x && records@[i].retention
                    == RetentionPolicy::Archived && exists|j: int|
                    0 <= j < records@.len() && #[trigger] records@[j].id != records@[i].id && records@[j].retention
                        != RetentionPolicy::Expired && same_content(records@[i], records@[j]) && preferred(
                        records@[j],
                        records@[i],
                    ),
        forall|i: int, j: int|
            0 <= i < records@.len() && 0 <= j < records@.len() && records@[i].retention == RetentionPolicy::Archived
                && records@[j].id != records@[i].id && records@[j].retention != RetentionPolicy::Expired
                && same_content(#[trigger] records@[i], #[trigger] records@[j]) && preferred(records@[j], records@[i])
                ==> r@.contains(records@[i].id),
{
    let mut out: Vec<u128> = Vec::new();
    let mut i: usize = 0;
    while i < records.len()
        invariant
            i <= records@.len(),
            out@ == removable_archives(records@, records@.take(i as int)),
        decreases records.len() - i,
    {
        let record = &records[i];
        proof {
            assert(records@.take(i + 1).drop_last() =~= records@.take(i as int));
            assert(records@.take(i + 1).last() == *record);
        }
        if record.retention == RetentionPolicy::Archived {
            let mut found = false;
            let mut j: usize = 0;
            while j < records.len()
                invariant
                    j <= records@.len(),
                    *record == records@[i as int],
                    i < records@.len(),
                    !found ==> forall|q: int| 0 <= q < j ==> !#[trigger] kept_duplicate(*record, records@[q]),
                    found ==> has_kept_duplicate(records@, *record),
                decreases records.len() - j,
            {
                let other = &records[j];
                if !found && other.id != record.id && other.retention != RetentionPolicy::Expired
                    && identical_content(record, other) && is_preferred(other, record) {
                    assert(kept_duplicate(*record, records@[j as int]));
                    found = true;
                }
                j = j + 1;
            }
            if found {
                out.push(record.id);
            }
        }
        i = i + 1;
    }
    proof {
        assert(records@.take(i as int) =~= records@);
        assert forall|x: u128| #[trigger] out@.contains(x) implies exists|i: int|
            0 <= i < records@.len() && (#[trigger] records@[i]).id == x && records@[i].retention
                == RetentionPolicy::Archived && exists|j: int|
                0 <= j < records@.len() && #[trigger] records@[j].id != records@[i].id && records@[j].retention
                    != RetentionPolicy::Expired && same_content(records@[i], records@[j]) && preferred(
                    records@[j],
                    records@[i],
                ) by {
            lemma_removed_archives_have_a_live_copy(records@, records@, x);
        }
        assert forall|i: int, j: int|
            0 <= i < records@.len() && 0 <= j < records@.len() && records@[i].retention == RetentionPolicy::Archived
                && records@[j].id != records@[i].id && records@[j].retention != RetentionPolicy::Expired
                && same_content(#[trigger] records@[i], #[trigger] records@[j]) && preferred(records@[j], records@[i])
            implies out@.contains(records@[i].id) by {
            lemma_archives_with_a_live_copy_are_removed(records@, records@, i, j);
        }
    }
    out
}

/// Whether a record's history is large enough to compress.
pub open spec fn compressible(record: MemoryRecord) -> bool {
    record.compressed_at is None && (record.reasoning@.len() >= COMPRESS_REASONING_THRESHOLD
        || record.steps@.len() >= COMPRESS_STEPS_THRESHOLD)
}

/// Whether a record is compressible: not compressed yet, and its reasoning
/// or step history reaches its threshold.
pub fn is_compressible(record: &MemoryRecord) -> (r: bool)
    ensures
        r == compressible(*record),
{
    record.compressed_at.is_none() && (record.reasoning.len() >= COMPRESS_REASONING_THRESHOLD
        || record.steps.len() >= COMPRESS_STEPS_THRESHOLD)
}

/// The entries joined by `" | "`.
pub open spec fn joined(s: Seq<Seq<char>>) -> Seq<char>
    decreases s.len(),
{
    if s.len() == 0 {
        Seq::empty()
    } else if s.len() == 1 {
        s[0]
    } else {
        joined(s.drop_last()) + " | "@ + s.last()
    }
}

/// The summary of a compressed history: the entry count and kind, then the
/// entries themselves when there are at most ten, or else the first five
/// and the last five.
pub open spec fn summary_text(kind: Seq<char>, entries: Seq<Seq<char>>) -> Seq<char> {
    let total = entries.len();
    let head = entries.take(if total < SUMMARY_HEAD_TAIL {
        total as int
    } else {
        SUMMARY_HEAD_TAIL as int
    });
    let tail = entries.skip(if total < SUMMARY_HEAD_TAIL {
        0
    } else {
        total - SUMMARY_HEAD_TAIL
    });
    if total <= SUMMARY_HEAD_TAIL * 2 {
        decimal(total) + " "@ + kind + ": "@ + joined(entries)
    } else {
        decimal(total) + " "@ + kind + " (first "@ + joined(head) + " … last "@ + joined(tail) + ")"@
    }
}

/// Appends the entries `from..to` of `entries` joined by `" | "`.
fn push_joined(out: &mut Vec<char>, entries: &Vec<String>, from: usize, to: usize)
    requires
        from <= to <= entries@.len(),
    ensures
        final(out)@ == old(out)@ + joined(strings_view(entries@).subrange(from as int, to as int)),
{
    let ghost sv = strings_view(entries@);
    let mut i = from;
    proof {
        assert(sv.subrange(from as int, from as int) =~= Seq::<Seq<char>>::empty());
    }
    while i < to
        invariant
            from <= i <= to,
            to <= entries@.len(),
            sv == strings_view(entries@),
            out@ == old(out)@ + joined(sv.subrange(from as int, i as int)),
        decreases to - i,
    {
        proof {
            assert(sv.subrange(from as int, i + 1).drop_last() =~= sv.subrange(from as int, i as int));
            assert(sv[i as int] == entries@[i as int]@);
            if i == from {
                assert(sv.subrange(from as int, i + 1) =~= seq![sv[i as int]]);
            }
        }
        if i > from {
            push_str(out, " | ");
        }
        push_str(out, entries[i].as_str());
        i = i + 1;
    }
}

/// Builds the human-readable summary of a compressed history.
pub fn build_summary(kind: &str, entries: &Vec<String>) -> (r: String)
    ensures
        r@ == summary_text(kind@, strings_view(entries@)),
{
    let total = entries.len();
    let ghost sv = strings_view(entries@);
    let head_end = if total < SUMMARY_HEAD_TAIL {
        total
    } else {
        SUMMARY_HEAD_TAIL
    };
    let tail_start = if total < SUMMARY_HEAD_TAIL {
        0
    } else {
        total - SUMMARY_HEAD_TAIL
    };
    let mut out: Vec<char> = Vec::new();
    push_decimal(total as u64, &mut out);
    push_str(&mut out, " ");
    push_str(&mut out, kind);
    if total <= SUMMARY_HEAD_TAIL * 2 {
        push_str(&mut out, ": ");
        push_joined(&mut out, entries, 0, total);
    } else {
        push_str(&mut out, " (first ");
        push_joined(&mut out, entries, 0, head_end);
        push_str(&mut out, " … last ");
        push_joined(&mut out, entries, tail_start, total);
        push_str(&mut out, ")");
    }
    proof {
        assert(sv.subrange(0, total as int) =~= sv);
        assert(sv.subrange(0, head_end as int) =~= sv.take(head_end as int));
        assert(sv.subrange(tail_start as int, total as int) =~= sv.skip(tail_start as int));
    }
    string_of(out.as_slice())
}

} // verus!
