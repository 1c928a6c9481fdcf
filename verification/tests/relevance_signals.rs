use kodex::relevance::relevance_signals;
use kodex::types::{KnowledgeEntry, FULL_CONFIDENCE_BITS};

const DAY: u64 = 86400;
const NOW: u64 = 1000 * DAY;

fn entry() -> KnowledgeEntry {
    KnowledgeEntry {
        uuid: "k".into(),
        title: "Retry in Client.rs".into(),
        knowledge_type: "bug_pattern".into(),
        description: "Backoff when the socket closes".into(),
        confidence_bits: FULL_CONFIDENCE_BITS,
        observations: 1,
        tags: vec!["project:demo".into()],
        scope: "file".into(),
        status: "needs_review".into(),
        source: "agent".into(),
        last_validated_at: 0,
        applies_when: "Editing the NETWORK layer".into(),
        supersedes: String::new(),
        superseded_by: String::new(),
        evidence: String::new(),
        created_at: NOW - 200 * DAY,
        updated_at: NOW - 3 * DAY,
        author: String::new(),
        trigger: String::new(),
        fetch_count: 7,
        last_fetched: 0,
    }
}

fn strs(v: &[&str]) -> Vec<String> {
    v.iter().map(|s| s.to_string()).collect()
}

#[test]
fn signals_of_a_matching_entry() {
    let s = relevance_signals(
        &entry(),
        &strs(&["n1", "n2"]),
        &strs(&["n2", "n3", "n4"]),
        1,
        &strs(&["Client.rs"]),
        &strs(&["network", "socket", "retry", "zzz"]),
        "demo",
        NOW,
    );
    assert_eq!(s.node_overlap, 1);
    assert!(s.file_mention);
    assert_eq!(s.scope_points, 10);
    assert_eq!(s.applies_when_matches, 1);
    assert_eq!(s.keyword_matches, 2);
    assert_eq!(s.type_points, 5);
    assert_eq!(s.age_days, Some(3));
    assert_eq!(s.recency_points, 10);
    assert!(s.project_match);
    assert!(s.needs_review);
    assert_eq!(
        s.reasons,
        strs(&[
            "retrieved 7\u{d7} before",
            "linked to code in scope",
            "mentions touched file",
            "file/node-scoped",
            "applies_when match",
            "matches query",
            "recently active",
            "same project",
            "needs_review penalty",
        ])
    );
}

#[test]
fn signals_of_an_unrelated_old_entry() {
    let mut e = entry();
    e.updated_at = NOW - 200 * DAY;
    e.status = "active".into();
    e.fetch_count = 0;
    e.tags = vec![];
    e.knowledge_type = "note".into();
    let s = relevance_signals(&e, &[], &[], 0, &[], &[], "", NOW);
    assert_eq!(s.scope_points, 0);
    assert_eq!(s.type_points, 0);
    assert_eq!(s.age_days, Some(200));
    assert_eq!(s.recency_points, -10);
    assert!(!s.project_match);
    assert_eq!(s.reasons, strs(&["stale (200d since activity)"]));
    let mut fresh = e;
    fresh.created_at = 0;
    fresh.updated_at = 0;
    let s = relevance_signals(&fresh, &[], &[], 0, &[], &[], "", NOW);
    assert_eq!(s.age_days, None);
    assert_eq!(s.reasons, strs(&["high confidence"]));
}
