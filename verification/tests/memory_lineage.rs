use copilot_core::lineage::{build_lineage, lineage_is_walkable, LineageEdge, LineageRelation};
use copilot_core::memory::{MemoryKind, MemoryOutcome, MemoryRecord, MemoryStatus, RetentionPolicy};

fn new_id() -> u128 {
    uuid::Uuid::new_v4().as_u128()
}

fn record(goal: &str) -> MemoryRecord {
    let now = i128::from(chrono::Utc::now().timestamp_nanos_opt().unwrap());
    MemoryRecord {
        id: new_id(),
        kind: MemoryKind::Execution,
        source_id: new_id(),
        workspace_id: None,
        goal: goal.to_string(),
        status: MemoryStatus::Success,
        plan: None,
        steps: vec![],
        reasoning: vec![],
        tools_used: vec![],
        failed_steps: vec![],
        error: None,
        outcome: MemoryOutcome::default(),
        replay_count: 0,
        created_at: now,
        updated_at: now,
        retention: RetentionPolicy::Permanent,
        retention_until: None,
        archived_at: None,
        expired_at: None,
        summary: None,
        compressed_at: None,
        version: 1,
        parent_id: None,
    }
}

fn copy(r: &MemoryRecord) -> MemoryRecord {
    MemoryRecord {
        goal: r.goal.clone(),
        steps: r.steps.clone(),
        reasoning: r.reasoning.clone(),
        tools_used: r.tools_used.clone(),
        failed_steps: r.failed_steps.clone(),
        error: r.error.clone(),
        summary: r.summary.clone(),
        plan: None,
        ..*r
    }
}

#[test]
fn lineage_walks_ancestry_and_children() {
    let v1 = record("organize receipts");
    let mut v2 = record("organize receipts");
    v2.parent_id = Some(v1.id);
    v2.version = 2;
    let mut v3 = record("organize receipts");
    v3.parent_id = Some(v2.id);
    v3.version = 3;
    let mut unrelated = record("plan vacation");
    unrelated.id = new_id();

    let (v1_id, v2_id, v3_id) = (v1.id, v2.id, v3.id);
    let records = vec![copy(&v1), copy(&v2), copy(&v3), unrelated];
    let lineage = build_lineage(&records, &[], v3_id).expect("memory exists");
    assert_eq!(lineage.version, 3);
    assert_eq!(lineage.root_id, Some(v1_id));
    let ancestors: Vec<u128> = lineage.ancestors.iter().map(|n| n.id).collect();
    assert_eq!(ancestors, vec![v1_id, v2_id], "oldest first");

    let lineage_v1 = build_lineage(&records, &[], v1_id).expect("memory exists");
    let children: Vec<u128> = lineage_v1.children.iter().map(|n| n.id).collect();
    assert_eq!(children, vec![v2_id]);
    assert!(lineage_v1.ancestors.is_empty());
    assert_eq!(lineage_v1.root_id, None, "the root has no root");
}

#[test]
fn lineage_tracks_merges() {
    let keeper = record("resume focus");
    let mut duplicate = record("resume focus");
    duplicate.id = new_id();
    let edge = LineageEdge {
        memory_id: duplicate.id,
        parent_id: keeper.id,
        relation: LineageRelation::Merged,
    };
    let records = [copy(&keeper), copy(&duplicate)];
    let lineage = build_lineage(&records, &[edge], keeper.id).expect("keeper exists");
    assert_eq!(lineage.merged_into.len(), 1);
    assert_eq!(lineage.merged_into[0].id, duplicate.id);

    let merged_lineage = build_lineage(&records, &[edge], duplicate.id).expect("duplicate exists");
    assert_eq!(merged_lineage.merged_into_id, Some(keeper.id));
}

#[test]
fn lineage_unknown_memory_returns_none() {
    let records = vec![record("g")];
    assert!(build_lineage(&records, &[], new_id()).is_none());
}

#[test]
fn children_come_newest_first_and_once_each() {
    let root = record("root");
    let mut old_child = record("child");
    old_child.parent_id = Some(root.id);
    old_child.created_at = 1_000;
    let mut new_child = record("child");
    new_child.parent_id = Some(root.id);
    new_child.created_at = 2_000;
    let mut edge_child = record("edge child");
    edge_child.created_at = 1_500;
    let edges = [
        // names a child the records already list: not repeated
        LineageEdge { memory_id: old_child.id, parent_id: root.id, relation: LineageRelation::Parent },
        LineageEdge { memory_id: edge_child.id, parent_id: root.id, relation: LineageRelation::Parent },
        // a second edge to the same child is ignored
        LineageEdge { memory_id: edge_child.id, parent_id: root.id, relation: LineageRelation::Parent },
        // an edge to a memory that is gone adds nothing
        LineageEdge { memory_id: new_id(), parent_id: root.id, relation: LineageRelation::Parent },
    ];
    let ids = (root.id, old_child.id, new_child.id, edge_child.id);
    let records = [root, old_child, new_child, edge_child];
    let lineage = build_lineage(&records, &edges, ids.0).expect("root exists");
    let children: Vec<u128> = lineage.children.iter().map(|n| n.id).collect();
    assert_eq!(children, vec![ids.2, ids.3, ids.1]);
    assert!(lineage
        .children
        .iter()
        .all(|n| n.relation == Some(LineageRelation::Parent)));
    assert_eq!(lineage.children[1].goal, "edge child");
    assert!(lineage.merged_into.is_empty());
    assert_eq!(lineage.merged_into_id, None);
}

#[test]
fn ancestry_stops_at_a_missing_parent() {
    let mut orphan = record("orphan");
    orphan.parent_id = Some(new_id());
    let mut child = record("child");
    child.parent_id = Some(orphan.id);
    let (orphan_id, child_id) = (orphan.id, child.id);
    let records = [orphan, child];
    assert!(lineage_is_walkable(&records, child_id));
    let lineage = build_lineage(&records, &[], child_id).expect("child exists");
    let ancestors: Vec<u128> = lineage.ancestors.iter().map(|n| n.id).collect();
    assert_eq!(ancestors, vec![orphan_id]);
    assert_eq!(lineage.root_id, Some(orphan_id));
}

#[test]
fn a_parent_cycle_is_not_walkable() {
    let mut a = record("a");
    let mut b = record("b");
    a.parent_id = Some(b.id);
    b.parent_id = Some(a.id);
    let a_id = a.id;
    let records = [a, b];
    assert!(!lineage_is_walkable(&records, a_id));
    assert!(lineage_is_walkable(&records, new_id()));
}
