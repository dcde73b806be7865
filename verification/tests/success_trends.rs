use copilot_core::memory::{MemoryKind, MemoryOutcome, MemoryRecord, MemoryStatus, RetentionPolicy};
use copilot_core::trends::{day_number_of, success_trends, TREND_DAYS};

const DAY: i64 = 86_400_000;
const NOW: i64 = 1_700_000_000_000;

fn record(status: MemoryStatus, created_ms: i64) -> MemoryRecord {
    MemoryRecord {
        id: uuid::Uuid::new_v4().as_u128(),
        kind: MemoryKind::Execution,
        source_id: uuid::Uuid::new_v4().as_u128(),
        workspace_id: None,
        goal: "g".into(),
        status,
        plan: None,
        steps: vec![],
        reasoning: vec![],
        tools_used: vec![],
        failed_steps: vec![],
        error: None,
        outcome: MemoryOutcome::default(),
        replay_count: 0,
        created_at: i128::from(created_ms) * 1_000_000,
        updated_at: i128::from(created_ms) * 1_000_000,
        retention: RetentionPolicy::Permanent,
        retention_until: None,
        archived_at: None,
        expired_at: None,
        summary: None,
        compressed_at: None,
        version: 1,
        parent_id: None,
    }
}

#[test]
fn trends_count_the_runs_of_today() {
    let records = vec![
        record(MemoryStatus::Success, NOW),
        record(MemoryStatus::Success, NOW),
        record(MemoryStatus::Failed, NOW),
    ];
    let trends = success_trends(&records, NOW);
    assert_eq!(trends.len(), TREND_DAYS as usize);
    assert_eq!(trends.last().unwrap().successes, 2);
    assert_eq!(trends.last().unwrap().failures, 1);
}

#[test]
fn trend_days_are_dated_oldest_first() {
    let trends = success_trends(&[], NOW);
    assert_eq!(trends[0].date, "2023-11-01");
    assert_eq!(trends[13].date, "2023-11-14");
    assert!(trends.iter().all(|t| t.successes == 0 && t.failures == 0));
}

#[test]
fn records_outside_the_window_and_cancelled_runs_do_not_count() {
    let records = vec![
        record(MemoryStatus::Success, NOW - 13 * DAY),
        record(MemoryStatus::Success, NOW - 14 * DAY),
        record(MemoryStatus::Failed, NOW + DAY),
        record(MemoryStatus::Cancelled, NOW),
    ];
    let trends = success_trends(&records, NOW);
    assert_eq!(trends[0].successes, 1);
    assert_eq!(trends.iter().map(|t| t.successes).sum::<u64>(), 1);
    assert_eq!(trends.iter().map(|t| t.failures).sum::<u64>(), 0);
}

#[test]
fn day_numbers_round_toward_zero() {
    assert_eq!(day_number_of(0), 0);
    assert_eq!(day_number_of(i128::from(DAY + 1)), 1);
    assert_eq!(day_number_of(-1), 0);
    assert_eq!(day_number_of(i128::from(-DAY - 1)), -1);
    assert_eq!(day_number_of(i128::from(i64::MIN)), i128::from(i64::MIN / DAY));
    assert_eq!(day_number_of(i128::from(NOW)), 19_675);
}
