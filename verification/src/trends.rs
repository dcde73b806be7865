//! Success history by UTC day: the successes and failures remembered for
//! each of the last two weeks.

use vstd::prelude::*;
use crate::aging::DAY_MS;
use crate::ids::{millis, millis_of};
use crate::memory::{MemoryRecord, MemoryStatus};

verus! {

/// Days of success history covered by the trend.
pub const TREND_DAYS: i64 = 14;

/// One day of success history.
pub struct DayTally {
    /// The UTC date, `YYYY-MM-DD`.
    pub date: String,
    pub successes: u64,
    pub failures: u64,
}

/// Whole days since the Unix epoch of a time in whole milliseconds,
/// rounded toward zero (integer division).
pub open spec fn day_number(ms: int) -> int {
    if ms >= 0 {
        ms / (DAY_MS as int)
    } else {
        -((-ms) / (DAY_MS as int))
    }
}

/// The day number of a time in whole milliseconds.
pub fn day_number_of(ms: i128) -> (d: i128)
    requires
        ms > i128::MIN,
    ensures
        d == day_number(ms as int),
{
    if ms >= 0 {
        ms / (DAY_MS as i128)
    } else {
        -((-ms) / (DAY_MS as i128))
    }
}

/// The records of day `day` with status `status`.
pub open spec fn day_count(records: Seq<MemoryRecord>, day: int, status: MemoryStatus) -> nat
    decreases records.len(),
{
    if records.len() == 0 {
        0
    } else {
        day_count(records.drop_last(), day, status) + if day_number(millis(records.last().created_at)) == day
            && records.last().status == status {
            1nat
        } else {
            0nat
        }
    }
}

/// The UTC calendar date, `YYYY-MM-DD`, of a time in whole seconds since
/// the Unix epoch, as chrono formats it; empty when chrono cannot
/// represent the time.
pub uninterp spec fn iso_date(seconds: i64) -> Seq<char>;

/// Formats a date: `chrono::DateTime::from_timestamp(seconds, 0)` rendered
/// with `%Y-%m-%d`, or the empty text when chrono returns no date. The
/// text is named [`iso_date`] of the seconds; its form is not stated.
#[verifier::external_body]
fn iso_date_text(seconds: i64) -> (r: String)
    ensures
        r@ == iso_date(seconds),
{
    match chrono::DateTime::from_timestamp(seconds, 0) {
        Some(dt) => dt.format("%Y-%m-%d").to_string(),
        None => String::new(),
    }
}

/// The successes and failures remembered for each of the last
/// [`TREND_DAYS`] days up to the day of `now_ms`, oldest first, with each
/// day's date. A record counts on the day of its creation; cancelled runs
/// count on no side.
pub fn success_trends(records: &[MemoryRecord], now_ms: i64) -> (r: Vec<DayTally>)
    requires
        now_ms >= i64::MIN + 13 * DAY_MS,
    ensures
        r@.len() == TREND_DAYS,
        forall|k: int|
            0 <= k < TREND_DAYS ==> {
                let day = day_number(now_ms as int) - (TREND_DAYS - 1) + k;
                &&& (#[trigger] r@[k]).successes == day_count(records@, day, MemoryStatus::Success)
                &&& r@[k].failures == day_count(records@, day, MemoryStatus::Failed)
                &&& r@[k].date@ == iso_date((day * 86_400) as i64)
            },
{
    let now_day = day_number_of(now_ms as i128) as i64;
    let mut out: Vec<DayTally> = Vec::new();
    let mut offset: i64 = TREND_DAYS - 1;
    while offset >= 0
        invariant
            -1 <= offset < TREND_DAYS,
            now_day == day_number(now_ms as int),
            now_ms >= i64::MIN + 13 * DAY_MS,
            out@.len() == TREND_DAYS - 1 - offset,
            forall|k: int|
                0 <= k < out@.len() ==> {
                    let day = day_number(now_ms as int) - (TREND_DAYS - 1) + k;
                    &&& (#[trigger] out@[k]).successes == day_count(records@, day, MemoryStatus::Success)
                    &&& out@[k].failures == day_count(records@, day, MemoryStatus::Failed)
                    &&& out@[k].date@ == iso_date((day * 86_400) as i64)
                },
        decreases offset + 1,
    {
        let day = now_day - offset;
        let mut successes: u64 = 0;
        let mut failures: u64 = 0;
        let mut i: usize = 0;
        while i < records.len()
            invariant
                i <= records@.len(),
                successes == day_count(records@.take(i as int), day as int, MemoryStatus::Success),
                failures == day_count(records@.take(i as int), day as int, MemoryStatus::Failed),
                successes <= i,
                failures <= i,
            decreases records@.len() - i,
        {
            let record = &records[i];
            proof {
                assert(records@.take(i + 1).drop_last() =~= records@.take(i as int));
                assert(records@.take(i + 1).last() == records@[i as int]);
            }
            if day_number_of(millis_of(record.created_at)) == day as i128 {
                match record.status {
                    MemoryStatus::Success => successes = successes + 1,
                    MemoryStatus::Failed => failures = failures + 1,
                    MemoryStatus::Cancelled => {},
                }
            }
            i = i + 1;
        }
        proof {
            assert(records@.take(records@.len() as int) =~= records@);
            assert(day * 86_400_000 >= i64::MIN);
        }
        let date = iso_date_text(day * (DAY_MS / 1000));
        out.push(DayTally { date, successes, failures });
        offset = offset - 1;
    }
    out
}

} // verus!
