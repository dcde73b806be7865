//! Memory aging by whole days: how old a memory is, and how the store
//! splits into fresh, aging and archived memories.

use vstd::prelude::*;
use crate::memory::MemoryRecord;
use crate::ids::{millis, millis_of};

verus! {

/// Milliseconds in a day.
pub const DAY_MS: i64 = 86_400_000;

/// Age from which a memory is aging.
pub const AGING_AFTER_DAYS: i64 = 30;

/// Age from which a memory is archived.
pub const ARCHIVE_AFTER_DAYS: i64 = 180;

/// Whole days between `created` and `now_ms` (0 for a future time), both
/// counted in whole milliseconds since the Unix epoch.
pub open spec fn days_between(created: i128, now_ms: i64) -> int {
    let elapsed = now_ms - millis(created);
    if elapsed < 0 {
        0
    } else {
        elapsed / (DAY_MS as int)
    }
}

/// The difference between `now_ms` and the whole milliseconds of `created`
/// fits in an `i64`.
pub open spec fn age_fits(created: i128, now_ms: i64) -> bool {
    i64::MIN <= now_ms - millis(created) <= i64::MAX
}

/// The age of a record in whole days (0 for a future timestamp).
pub fn age_days(record: &MemoryRecord, now_ms: i64) -> (r: i64)
    requires
        age_fits(record.created_at, now_ms),
    ensures
        r == days_between(record.created_at, now_ms),
        r >= 0,
{
    let elapsed = (now_ms as i128 - millis_of(record.created_at)) as i64;
    let elapsed = if elapsed < 0 {
        0
    } else {
        elapsed
    };
    elapsed / DAY_MS
}

/// How the store splits by age. Ages are in whole days.
#[derive(Clone, Copy)]
pub struct AgingCounts {
    pub total_records: u64,
    /// Memories younger than [`AGING_AFTER_DAYS`].
    pub fresh_records: u64,
    /// Memories from [`AGING_AFTER_DAYS`] to [`ARCHIVE_AFTER_DAYS`].
    pub aging_records: u64,
    /// Memories from [`ARCHIVE_AFTER_DAYS`] on.
    pub archived_records: u64,
    /// Age of the oldest memory (0 for an empty store).
    pub oldest_days: i64,
    /// Age of the newest memory (0 for an empty store).
    pub newest_days: i64,
}

/// How many records have an age in days within `[low, high)`.
pub open spec fn count_aged(records: Seq<MemoryRecord>, now_ms: i64, low: int, high: int) -> nat
    decreases records.len(),
{
    if records.len() == 0 {
        0
    } else {
        let d = days_between(records.last().created_at, now_ms);
        count_aged(records.drop_last(), now_ms, low, high) + if low <= d < high {
            1nat
        } else {
            0nat
        }
    }
}

/// The greatest age in days among the records (0 for none).
pub open spec fn oldest_age(records: Seq<MemoryRecord>, now_ms: i64) -> int
    decreases records.len(),
{
    if records.len() == 0 {
        0
    } else {
        let d = days_between(records.last().created_at, now_ms);
        let rest = oldest_age(records.drop_last(), now_ms);
        if records.len() == 1 || d > rest {
            d
        } else {
            rest
        }
    }
}

/// The least age in days among the records (0 for none).
pub open spec fn newest_age(records: Seq<MemoryRecord>, now_ms: i64) -> int
    decreases records.len(),
{
    if records.len() == 0 {
        0
    } else {
        let d = days_between(records.last().created_at, now_ms);
        let rest = newest_age(records.drop_last(), now_ms);
        if records.len() == 1 || d < rest {
            d
        } else {
            rest
        }
    }
}

proof fn lemma_count_aged_bound(records: Seq<MemoryRecord>, now_ms: i64, low: int, high: int)
    ensures
        count_aged(records, now_ms, low, high) <= records.len(),
    decreases records.len(),
{
    if records.len() > 0 {
        lemma_count_aged_bound(records.drop_last(), now_ms, low, high);
    }
}

/// Splits the store into fresh, aging and archived memories, with the ages
/// of the oldest and the newest.
pub fn aging_counts(records: &[MemoryRecord], now_ms: i64) -> (r: AgingCounts)
    requires
        forall|i: int| 0 <= i < records@.len() ==> age_fits(#[trigger] records@[i].created_at, now_ms),
    ensures
        r.total_records == records@.len(),
        r.fresh_records == count_aged(records@, now_ms, 0, AGING_AFTER_DAYS as int),
        r.aging_records == count_aged(records@, now_ms, AGING_AFTER_DAYS as int, ARCHIVE_AFTER_DAYS as int),
        r.archived_records == count_aged(records@, now_ms, ARCHIVE_AFTER_DAYS as int, i64::MAX as int + 1),
        r.oldest_days == oldest_age(records@, now_ms),
        r.newest_days == newest_age(records@, now_ms),
{
    let mut counts = AgingCounts {
        total_records: records.len() as u64,
        fresh_records: 0,
        aging_records: 0,
        archived_records: 0,
        oldest_days: 0,
        newest_days: 0,
    };
    let mut i: usize = 0;
    while i < records.len()
        invariant
            i <= records@.len(),
            forall|k: int| 0 <= k < records@.len() ==> age_fits(#[trigger] records@[k].created_at, now_ms),
            counts.total_records == records@.len(),
            counts.fresh_records == count_aged(records@.take(i as int), now_ms, 0, AGING_AFTER_DAYS as int),
            counts.aging_records == count_aged(records@.take(i as int), now_ms, AGING_AFTER_DAYS as int, ARCHIVE_AFTER_DAYS as int),
            counts.archived_records == count_aged(records@.take(i as int), now_ms, ARCHIVE_AFTER_DAYS as int, i64::MAX as int + 1),
            counts.oldest_days == oldest_age(records@.take(i as int), now_ms),
            counts.newest_days == newest_age(records@.take(i as int), now_ms),
        decreases records@.len() - i,
    {
        let ghost prefix = records@.take(i as int);
        proof {
            assert(records@.take(i + 1).drop_last() =~= prefix);
            assert(records@.take(i + 1).last() == records@[i as int]);
            lemma_count_aged_bound(prefix, now_ms, 0, AGING_AFTER_DAYS as int);
            lemma_count_aged_bound(prefix, now_ms, AGING_AFTER_DAYS as int, ARCHIVE_AFTER_DAYS as int);
            lemma_count_aged_bound(prefix, now_ms, ARCHIVE_AFTER_DAYS as int, i64::MAX as int + 1);
        }
        let days = age_days(&records[i], now_ms);
        if days >= ARCHIVE_AFTER_DAYS {
            counts.archived_records = counts.archived_records + 1;
        } else if days >= AGING_AFTER_DAYS {
            counts.aging_records = counts.aging_records + 1;
        } else {
            counts.fresh_records = counts.fresh_records + 1;
        }
        if i == 0 || days > counts.oldest_days {
            counts.oldest_days = days;
        }
        if i == 0 || days < counts.newest_days {
            counts.newest_days = days;
        }
        i = i + 1;
    }
    proof {
        assert(records@.take(records@.len() as int) =~= records@);
    }
    counts
}

} // verus!
