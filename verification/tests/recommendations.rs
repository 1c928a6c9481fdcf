use kodex::conflicts::KnowledgeConflict;
use kodex::recommend::{compute_recommendations, RecallItem};

fn item(uuid: &str, title: &str, t: &str, desc: &str, pct: u32) -> RecallItem {
    RecallItem { uuid: uuid.into(), title: title.into(), knowledge_type: t.into(), description: desc.into(), confidence_pct: pct }
}

#[test]
fn recommendations_ordered_by_priority() {
    let items = vec![
        item("a", "Use AppError", "convention", "Errors go through AppError\nsecond line", 90),
        item("b", "Off by one", "bug_pattern", "Loop bound", 50),
        item("c", "JWT", "decision", "Chose JWT", 70),
        item("d", "Layers", "architecture", "Three layers", 70),
        item("e", "Old code", "tech_debt", "Legacy", 70),
        item("f", "Misc", "note", "Nothing", 70),
    ];
    let conflicts = vec![KnowledgeConflict {
        uuid_a: "a".into(),
        title_a: "X".into(),
        uuid_b: "b".into(),
        title_b: "Y".into(),
        conflict_type: "contradicts".into(),
        description: "They disagree".into(),
    }];
    let recs = compute_recommendations(&items, &conflicts, "bugfix");
    let got: Vec<(String, u8, String)> = recs.iter().map(|r| (r.action.clone(), r.priority, r.category.clone())).collect();
    assert_eq!(
        got,
        vec![
            ("Resolve conflict: X vs Y".to_string(), 10, "conflict".to_string()),
            ("Follow: Use AppError".to_string(), 9, "rule".to_string()),
            ("Watch for: Off by one".to_string(), 9, "hazard".to_string()),
            ("Add test for: Off by one".to_string(), 8, "test".to_string()),
            ("Architecture: Layers".to_string(), 6, "constraint".to_string()),
        ]
    );
    assert_eq!(recs[1].reason, "Errors go through AppError");
    assert_eq!(recs[0].knowledge_uuid, "a");
    let refactor = compute_recommendations(&items, &vec![], "refactor");
    let actions: Vec<&str> = refactor.iter().map(|r| r.action.as_str()).collect();
    assert_eq!(
        actions,
        vec!["Follow: Use AppError", "Watch for: Off by one", "Respect decision: JWT", "Architecture: Layers", "Opportunity: address Old code"]
    );
    let low = compute_recommendations(&vec![item("a", "T", "convention", "d", 80)], &vec![], "");
    assert_eq!(low[0].priority, 7);
}
