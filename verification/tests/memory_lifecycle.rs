use copilot_core::export::{
    build_export, check_export_schema, import_plan, import_result, MemoryAcceptance,
    MEMORY_EXPORT_SCHEMA_VERSION,
};
use copilot_core::memory::{MemoryKind, MemoryOutcome, MemoryRecord, MemoryStatus, RetentionPolicy};
use copilot_core::retention::{
    build_summary, duplicate_archives, identical_content, is_compressible, is_due_expiry,
    COMPRESS_REASONING_THRESHOLD, COMPRESS_STEPS_THRESHOLD,
};

const DAY_NS: i128 = 24 * 60 * 60 * 1_000_000_000;
const MINUTE_NS: i128 = 60 * 1_000_000_000;

fn now() -> i128 {
    i128::from(chrono::Utc::now().timestamp_nanos_opt().unwrap())
}

fn record(goal: &str) -> MemoryRecord {
    MemoryRecord {
        id: uuid::Uuid::new_v4().as_u128(),
        kind: MemoryKind::Execution,
        source_id: uuid::Uuid::new_v4().as_u128(),
        workspace_id: None,
        goal: goal.to_string(),
        status: MemoryStatus::Success,
        plan: None,
        steps: vec!["step one".into(), "step two".into()],
        reasoning: vec![],
        tools_used: vec!["tool_a".into(), "tool_b".into()],
        failed_steps: vec![],
        error: None,
        outcome: MemoryOutcome::default(),
        replay_count: 0,
        created_at: now(),
        updated_at: now(),
        retention: RetentionPolicy::Permanent,
        retention_until: None,
        archived_at: None,
        expired_at: None,
        summary: None,
        compressed_at: None,
        version: 1,
        parent_id: None,
    }
}

fn copy(r: &MemoryRecord) -> MemoryRecord {
    MemoryRecord {
        id: r.id,
        kind: r.kind,
        source_id: r.source_id,
        workspace_id: r.workspace_id,
        goal: r.goal.clone(),
        status: r.status,
        plan: None,
        steps: r.steps.clone(),
        reasoning: r.reasoning.clone(),
        tools_used: r.tools_used.clone(),
        failed_steps: r.failed_steps.clone(),
        error: r.error.clone(),
        outcome: r.outcome,
        replay_count: r.replay_count,
        created_at: r.created_at,
        updated_at: r.updated_at,
        retention: r.retention,
        retention_until: r.retention_until,
        archived_at: r.archived_at,
        expired_at: r.expired_at,
        summary: r.summary.clone(),
        compressed_at: r.compressed_at,
        version: r.version,
        parent_id: r.parent_id,
    }
}

#[test]
fn due_expiry_only_for_temporary_past_deadline() {
    let now = now();
    let mut temp = record("g");
    temp.retention = RetentionPolicy::Temporary;
    temp.retention_until = Some(now + DAY_NS);
    assert!(!is_due_expiry(&temp, now));

    temp.retention_until = Some(now - MINUTE_NS);
    assert!(is_due_expiry(&temp, now), "deadline passed");

    temp.retention = RetentionPolicy::Permanent;
    assert!(!is_due_expiry(&temp, now), "permanent never expires");

    temp.retention_until = None;
    assert!(!is_due_expiry(&temp, now), "no deadline");
}

#[test]
fn duplicate_archives_keeps_the_preferred_copy() {
    let live = record("resume my focus session");
    let mut archived = record("  RESUME My Focus Session ");
    archived.retention = RetentionPolicy::Archived;
    archived.archived_at = Some(now());

    let removals = duplicate_archives(&vec![copy(&live), copy(&archived)]);
    assert_eq!(removals, vec![archived.id]);

    let mut older = copy(&archived);
    older.id = uuid::Uuid::new_v4().as_u128();
    older.archived_at = Some(now() - 2 * DAY_NS);
    let removals = duplicate_archives(&vec![copy(&archived), copy(&older)]);
    assert_eq!(removals, vec![older.id]);

    let mut different = copy(&archived);
    different.steps = vec!["something else".into()];
    assert!(duplicate_archives(&vec![copy(&live), different]).is_empty());
}

#[test]
fn compression_rules_and_summary() {
    let mut record = record("g");
    record.reasoning = vec!["r".into(); COMPRESS_REASONING_THRESHOLD];
    assert!(is_compressible(&record));

    record.reasoning = vec!["r".into(); 10];
    record.steps = vec!["s".into(); COMPRESS_STEPS_THRESHOLD];
    assert!(is_compressible(&record), "large steps compress too");

    record.compressed_at = Some(now());
    assert!(!is_compressible(&record), "already compressed");

    record.compressed_at = None;
    record.steps = vec!["s".into(); 3];
    assert!(!is_compressible(&record), "small history stays");

    let entries = (0..12).map(|i| format!("event {i}")).collect::<Vec<_>>();
    let summary = build_summary("reasoning events", &entries);
    assert!(summary.contains("12 reasoning events"));
    assert!(summary.contains("event 0") && summary.contains("event 11"));
    assert!(summary.contains("…"), "head/tail separator");

    let short = build_summary("steps", &entries[..3].to_vec());
    assert!(short.contains("3 steps") && !short.contains("…"));
}

#[test]
fn summaries_have_their_exact_shape() {
    let entries = (0..12).map(|i| format!("e{i}")).collect::<Vec<_>>();
    assert_eq!(
        build_summary("events", &entries),
        "12 events (first e0 | e1 | e2 | e3 | e4 … last e7 | e8 | e9 | e10 | e11)"
    );
    assert_eq!(build_summary("steps", &entries[..2].to_vec()), "2 steps: e0 | e1");
    assert_eq!(build_summary("steps", &vec![]), "0 steps: ");
    assert_eq!(
        build_summary("steps", &entries[..10].to_vec()),
        "10 steps: e0 | e1 | e2 | e3 | e4 | e5 | e6 | e7 | e8 | e9"
    );
    let eight = (0..8).map(|i| format!("s{i}")).collect::<Vec<_>>();
    let summary = build_summary("steps", &eight);
    assert!(summary.starts_with("8 steps"));
    assert!(summary.contains("s0") && summary.contains("s7"));
}

#[test]
fn identical_content_compares_fingerprints_steps_and_tools() {
    let a = record("Plan the Day");
    let mut b = record(" plan   the day ");
    assert!(identical_content(&a, &b));
    b.status = MemoryStatus::Failed;
    assert!(!identical_content(&a, &b));
    b.status = MemoryStatus::Success;
    b.tools_used.push("tool_c".into());
    assert!(!identical_content(&a, &b));
}

#[test]
fn import_plan_partitions_by_existing_id() {
    let a = record("a");
    let b = record("b");
    let mut existing = std::collections::HashSet::new();
    existing.insert(a.id);
    let export = build_export(vec![a, b], std::collections::HashMap::new());
    let (imported, skipped) = import_plan(&export, &existing);
    assert_eq!(imported.len(), 1);
    assert_eq!(imported[0].goal, "b");
    assert_eq!(skipped.len(), 1);
    assert_eq!(skipped[0].goal, "a");
}

#[test]
fn import_result_counts_what_was_applied() {
    let result = import_result(4, 2, 1);
    assert_eq!((result.imported, result.skipped, result.acceptance_restored), (4, 2, 1));
}

#[test]
fn export_lists_the_ledger_by_memory_id() {
    let record = record("resume my focus session");
    let record_id = record.id;
    let mut acceptance = std::collections::HashMap::new();
    acceptance.insert(record_id, MemoryAcceptance { accepted: 3, rejected: 1 });
    acceptance.insert(7, MemoryAcceptance { accepted: 0, rejected: 2 });
    acceptance.insert(2, MemoryAcceptance { accepted: 1, rejected: 0 });
    let before = now();
    let export = build_export(vec![record], acceptance);
    assert_eq!(export.schema_version, MEMORY_EXPORT_SCHEMA_VERSION);
    assert!(export.exported_at >= before);
    assert_eq!(export.records.len(), 1);
    assert_eq!(export.records[0].id, record_id);
    let ids: Vec<u128> = export.acceptance.iter().map(|e| e.memory_id).collect();
    let mut expected = vec![2, 7, record_id];
    expected.sort();
    assert_eq!(ids, expected);
    let entry = export.acceptance.iter().find(|e| e.memory_id == record_id).unwrap();
    assert_eq!((entry.acceptance.accepted, entry.acceptance.rejected), (3, 1));
}

#[test]
fn payloads_from_a_newer_format_are_refused() {
    let export = build_export(vec![], std::collections::HashMap::new());
    assert!(check_export_schema(export).is_ok());

    let mut newer = build_export(vec![], std::collections::HashMap::new());
    newer.schema_version = MEMORY_EXPORT_SCHEMA_VERSION + 1;
    match check_export_schema(newer) {
        Err(message) => assert_eq!(
            message,
            format!(
                "unsupported memory export schema {} (this build supports up to {})",
                MEMORY_EXPORT_SCHEMA_VERSION + 1,
                MEMORY_EXPORT_SCHEMA_VERSION
            )
        ),
        Ok(_) => panic!("a newer schema must be refused"),
    }
}

#[test]
fn importing_twice_skips_everything_the_second_time() {
    let export = build_export(vec![record("a"), record("b")], std::collections::HashMap::new());
    let mut store = std::collections::HashSet::new();
    let (first, skipped) = import_plan(&export, &store);
    assert_eq!((first.len(), skipped.len()), (2, 0));
    for r in &first {
        store.insert(r.id);
    }
    let (again, skipped) = import_plan(&export, &store);
    assert!(again.is_empty());
    assert_eq!(skipped.len(), 2);
}
