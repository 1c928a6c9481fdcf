use kodex::forget::forget_knowledge;
use kodex::knowledge_type::KnowledgeType;
use kodex::learn::{link_knowledge_to_knowledge, update_knowledge, KnowledgeUpdates};
use kodex::learning::{append_knowledge_with_uuid, learn, learn_supersedes, learn_with_uuid};
use kodex::recall::query_knowledge;
use kodex::types::{ExtractionResult, KnowledgeEntry, KnowledgeLink, KodexData};

fn empty() -> KodexData {
    KodexData { extraction: ExtractionResult::empty(), knowledge: vec![], links: vec![], review_queue: vec![] }
}

fn confidence(d: &KodexData, uuid: &str) -> f64 {
    f64::from_bits(d.knowledge.iter().find(|k| k.uuid == uuid).unwrap().confidence_bits)
}

/// What a caller does when `learn_with_uuid` reports a reinforcement.
fn reinforce_confidence(d: &mut KodexData, uuid: &str) {
    let k = d.knowledge.iter_mut().find(|k| k.uuid == uuid).unwrap();
    let c = f64::from_bits(k.confidence_bits);
    k.confidence_bits = (1.0 - (1.0 - c) * 0.8).to_bits();
}

#[test]
fn test_learn_and_load() {
    let mut db = empty();
    learn(
        &mut db,
        &KnowledgeType::Pattern,
        "Repository Pattern",
        "All data access goes through Repository classes",
        &["user_repo".to_string()],
        &["architecture".to_string()],
        &[],
    )
    .unwrap();
    let items = query_knowledge(&db, "", None);
    assert_eq!(items.len(), 1);
    assert_eq!(items[0].title, "Repository Pattern");
    assert_eq!(items[0].observations, 1);
    let conf1 = f64::from_bits(items[0].confidence_bits);
    let uuid = items[0].uuid.clone();
    let (_, reinforced) = learn_with_uuid(
        &mut db,
        Some(&uuid),
        &KnowledgeType::Pattern,
        "Repository Pattern",
        "Confirmed: ProductRepo also follows this",
        Some(&["product_repo".to_string()]),
        &[],
        None,
        &[],
    )
    .unwrap();
    assert!(reinforced);
    reinforce_confidence(&mut db, &uuid);
    let items = query_knowledge(&db, "", None);
    assert_eq!(items.len(), 1);
    assert_eq!(items[0].observations, 2);
    assert!(f64::from_bits(items[0].confidence_bits) > conf1, "Confidence should increase");
}

#[test]
fn test_query_knowledge() {
    let mut db = empty();
    learn(&mut db, &KnowledgeType::Pattern, "Singleton", "Global state", &[], &["design".to_string()], &[]).unwrap();
    learn(&mut db, &KnowledgeType::Convention, "Error Handling", "Use AppError", &[], &["rust".to_string()], &[])
        .unwrap();
    learn(&mut db, &KnowledgeType::Decision, "JWT Auth", "Chose JWT", &[], &["auth".to_string()], &[]).unwrap();
    let all = query_knowledge(&db, "", None);
    assert_eq!(all.len(), 3);
    let patterns = query_knowledge(&db, "", Some("pattern"));
    assert_eq!(patterns.len(), 1);
    let auth = query_knowledge(&db, "auth", None);
    assert_eq!(auth.len(), 1);
}

#[test]
fn test_query_knowledge_multi_token() {
    let mut db = empty();
    learn(
        &mut db,
        &KnowledgeType::Architecture,
        "PVA wire format encoding",
        "How epics-pva-rs encodes the protocol buffer for pvxs interop.",
        &[],
        &[],
        &[],
    )
    .unwrap();
    learn(
        &mut db,
        &KnowledgeType::Pattern,
        "Connection retry logic",
        "Exponential backoff for reconnect after socket close.",
        &[],
        &[],
        &[],
    )
    .unwrap();
    learn(
        &mut db,
        &KnowledgeType::Decision,
        "Use SQLite over HDF5",
        "Switched storage backend for portability.",
        &[],
        &[],
        &[],
    )
    .unwrap();
    let r = query_knowledge(&db, "pva wire format epics-pva-rs pvxs", None);
    assert!(
        r.iter().any(|k| k.title.contains("PVA wire format")),
        "multi-token query should find PVA item, got {:?}",
        r.iter().map(|k| &k.title).collect::<Vec<_>>()
    );
    let r = query_knowledge(&db, "backoff", None);
    assert_eq!(r.len(), 1);
    assert!(r[0].title.contains("Connection retry"));
    let r = query_knowledge(&db, "pva backoff", None);
    assert!(r.len() >= 2);
    assert!(
        r[0].title.contains("PVA"),
        "title-token hit should rank first, got {:?}",
        r.iter().map(|k| &k.title).collect::<Vec<_>>()
    );
}

#[test]
fn test_learn_supersedes_propagates_back_reference() {
    let mut db = empty();
    let (old_uuid, _) = learn_with_uuid(
        &mut db,
        None,
        &KnowledgeType::Convention,
        "Use HDF5 backend",
        "All knowledge stored in HDF5 files",
        None,
        &[],
        None,
        &[],
    )
    .unwrap();
    let (new_uuid, decays) = learn_supersedes(
        &mut db,
        &KnowledgeType::Convention,
        "Use SQLite backend",
        "All knowledge stored in SQLite (replaces HDF5)",
        None,
        &[],
        &old_uuid,
        &[],
    )
    .unwrap();
    if decays {
        let k = db.knowledge.iter_mut().find(|k| k.uuid == old_uuid).unwrap();
        k.confidence_bits = (f64::from_bits(k.confidence_bits) * 0.7).to_bits();
    }
    let old = db.knowledge.iter().find(|k| k.uuid == old_uuid).unwrap();
    let new = db.knowledge.iter().find(|k| k.uuid == new_uuid).unwrap();
    assert_eq!(old.status, "obsolete");
    assert_eq!(old.superseded_by, new_uuid);
    assert!(confidence(&db, &old_uuid) < 0.6, "obsolete entry confidence should decay: {}", confidence(&db, &old_uuid));
    assert_eq!(new.supersedes, old_uuid);
}

#[test]
fn test_update_knowledge_rejects_unknown_superseded_by() {
    let mut db = empty();
    let (uuid, _) = learn_with_uuid(&mut db, None, &KnowledgeType::Pattern, "x", "y", None, &[], None, &[]).unwrap();
    let mut updates = KnowledgeUpdates::none();
    updates.superseded_by = Some("does-not-exist".to_string());
    let res = update_knowledge(&mut db, &uuid, &updates);
    assert!(res.is_err(), "unknown target should error");
}

#[test]
fn test_knowledge_links_exclude_knowledge_targets() {
    let mut db = empty();
    let (k1, _) = learn_with_uuid(
        &mut db,
        None,
        &KnowledgeType::Pattern,
        "Pattern A",
        "desc",
        Some(&["node-1".to_string()]),
        &[],
        None,
        &[],
    )
    .unwrap();
    let (k2, _) = learn_with_uuid(
        &mut db,
        None,
        &KnowledgeType::Pattern,
        "Pattern B",
        "desc",
        Some(&["node-2".to_string()]),
        &[],
        None,
        &[],
    )
    .unwrap();
    link_knowledge_to_knowledge(&mut db, &k1, &k2, "supports", true).unwrap();
    let items = query_knowledge(&db, "", None);
    for item in &items {
        assert!(!item.related_nodes.contains(&k1), "k1 UUID leaked into related_nodes");
        assert!(!item.related_nodes.contains(&k2), "k2 UUID leaked into related_nodes");
    }
    let a = items.iter().find(|k| k.title == "Pattern A").unwrap();
    assert_eq!(a.related_nodes, vec!["node-1"]);
    let b = items.iter().find(|k| k.title == "Pattern B").unwrap();
    assert_eq!(b.related_nodes, vec!["node-2"]);
}

#[test]
fn test_links_clear_vs_noop() {
    let mut data = empty();
    data.knowledge.push(KnowledgeEntry {
        uuid: "k-1".into(),
        title: "Pattern".into(),
        knowledge_type: "pattern".into(),
        description: "desc".into(),
        confidence_bits: 0.6f64.to_bits(),
        observations: 1,
        tags: vec![],
        scope: String::new(),
        status: "active".into(),
        source: String::new(),
        last_validated_at: 0,
        applies_when: String::new(),
        supersedes: String::new(),
        superseded_by: String::new(),
        evidence: String::new(),
        created_at: 0,
        updated_at: 0,
        author: String::new(),
        trigger: String::new(),
        fetch_count: 0,
        last_fetched: 0,
    });
    data.links.push(KnowledgeLink {
        knowledge_uuid: "k-1".into(),
        node_uuid: "n-1".into(),
        relation: "related_to".into(),
        target_type: String::new(),
        confidence_bits: 1.0f64.to_bits(),
        created_at: 0,
        linked_body_hash: String::new(),
        linked_logical_key: String::new(),
        source: String::new(),
        reason: String::new(),
    });
    let c = 0.6f64.to_bits();
    append_knowledge_with_uuid(&mut data, Some("k-1"), "Pattern", "pattern", "more info", c, None, &[], &[]).unwrap();
    assert_eq!(data.links.len(), 1, "None should not touch links");
    append_knowledge_with_uuid(&mut data, Some("k-1"), "Pattern", "pattern", "", c, Some(&[]), &[], &[]).unwrap();
    assert_eq!(data.links.len(), 0, "Some(&[]) should clear links");
    append_knowledge_with_uuid(&mut data, Some("k-1"), "Pattern", "pattern", "", c, Some(&["n-2".to_string()]), &[], &[])
        .unwrap();
    assert_eq!(data.links.len(), 1);
    assert_eq!(data.links[0].node_uuid, "n-2");
}

#[test]
fn test_knowledge_learn_and_recall() {
    let mut db = empty();
    learn(
        &mut db,
        &KnowledgeType::Pattern,
        "Test Pattern",
        "A test pattern description",
        &["node_a".to_string()],
        &["test".to_string()],
        &[],
    )
    .unwrap();
    let results = query_knowledge(&db, "test", None);
    assert_eq!(results.len(), 1);
    assert_eq!(results[0].title, "Test Pattern");
    let uuid = results[0].uuid.clone();
    learn_with_uuid(
        &mut db,
        Some(&uuid),
        &KnowledgeType::Pattern,
        "Test Pattern",
        "Seen again",
        Some(&["node_b".to_string()]),
        &[],
        None,
        &[],
    )
    .unwrap();
    let results = query_knowledge(&db, "test", None);
    assert_eq!(results.len(), 1);
    assert_eq!(results[0].observations, 2);
}

#[test]
fn test_thought_chain_formation() {
    let mut db = empty();
    let (k1, _) = learn_with_uuid(&mut db, None, &KnowledgeType::Pattern, "Step 1", "first", None, &[], None, &[]).unwrap();
    let (k2, _) =
        learn_with_uuid(&mut db, None, &KnowledgeType::Decision, "Step 2", "second", None, &[], Some(&k1), &[]).unwrap();
    let (k3, _) =
        learn_with_uuid(&mut db, None, &KnowledgeType::Convention, "Step 3", "third", None, &[], Some(&k2), &[]).unwrap();
    let chain = kodex::chain::thought_chain(&db, &k2);
    assert_eq!(chain.len(), 3);
    assert_eq!(chain[0].uuid, k1);
    assert_eq!(chain[1].uuid, k2);
    assert_eq!(chain[2].uuid, k3);
    assert_eq!(chain[0].relation_to_next.as_deref(), Some("leads_to"));
    assert_eq!(chain[1].relation_to_next.as_deref(), Some("leads_to"));
    assert!(chain[2].relation_to_next.is_none());
}

#[test]
fn thought_chain_stops_at_cycles_and_unknown_entries() {
    let mut db = empty();
    let (a, _) = learn_with_uuid(&mut db, None, &KnowledgeType::Pattern, "A", "a", None, &[], None, &[]).unwrap();
    let (b, _) = learn_with_uuid(&mut db, None, &KnowledgeType::Pattern, "B", "b", None, &[], Some(&a), &[]).unwrap();
    kodex::learn::link_knowledge_to_knowledge(&mut db, &b, &a, "because", false).unwrap();
    let chain = kodex::chain::thought_chain(&db, &a);
    assert_eq!(chain.len(), 2);
    assert_eq!(chain[0].uuid, b);
    assert_eq!(chain[1].uuid, a);
    assert_eq!(chain[1].relation_to_next.as_deref(), Some("leads_to"));
    let lone = kodex::chain::thought_chain(&db, "ghost");
    assert_eq!(lone.len(), 1);
    assert_eq!(lone[0].title, "");
    assert_eq!(lone[0].confidence_bits, 0);
}

#[test]
fn test_forget_knowledge_and_logic() {
    let mut db = empty();
    learn(&mut db, &KnowledgeType::Pattern, "Foo Pattern", "desc", &[], &[], &[]).unwrap();
    learn(&mut db, &KnowledgeType::Decision, "Bar Decision", "desc", &[], &[], &[]).unwrap();
    learn(&mut db, &KnowledgeType::Pattern, "Baz Pattern", "desc", &[], &[], &[]).unwrap();
    let removed = forget_knowledge(&mut db, Some("Foo"), Some("pattern"), None, None);
    assert_eq!(removed, 1, "AND logic: only Foo Pattern matches title=Foo AND type=pattern");
    let remaining = query_knowledge(&db, "", None);
    assert_eq!(remaining.len(), 2);
    assert!(remaining.iter().any(|k| k.title == "Bar Decision"));
    assert!(remaining.iter().any(|k| k.title == "Baz Pattern"));
    let removed = forget_knowledge(&mut db, None, Some("pattern"), None, None);
    assert_eq!(removed, 1, "Baz Pattern should be removed");
    let remaining = query_knowledge(&db, "", None);
    assert_eq!(remaining.len(), 1);
    assert_eq!(remaining[0].title, "Bar Decision");
    let removed = forget_knowledge(&mut db, None, None, None, None);
    assert_eq!(removed, 0, "No criteria = no deletion");
}

#[test]
fn forget_removes_links_and_uses_confidence_flags() {
    let mut db = empty();
    let (a, _) = learn_with_uuid(&mut db, None, &KnowledgeType::Pattern, "A", "in proj-x", Some(&["n1".to_string()]), &[], None, &[]).unwrap();
    let (b, _) = learn_with_uuid(&mut db, None, &KnowledgeType::Pattern, "B", "other", None, &[], Some(&a), &[]).unwrap();
    assert_eq!(db.links.len(), 2);
    let removed = forget_knowledge(&mut db, None, None, Some("proj-x"), None);
    assert_eq!(removed, 1);
    assert!(db.links.is_empty());
    assert_eq!(db.knowledge[0].uuid, b);
    let removed = forget_knowledge(&mut db, None, None, None, Some(&[false]));
    assert_eq!(removed, 0);
    let removed = forget_knowledge(&mut db, None, None, None, Some(&[true]));
    assert_eq!(removed, 1);
    assert!(db.knowledge.is_empty());
}

#[test]
fn learn_same_title_reinforces() {
    let mut db = empty();
    let first = learn(&mut db, &KnowledgeType::Pattern, "Retry Loop", "Back off", &[], &[], &[]).unwrap();
    assert!(!first);
    let second = learn(&mut db, &KnowledgeType::Pattern, "Retry Loop", "Seen in the client too", &[], &[], &[]).unwrap();
    assert!(second);
    assert_eq!(db.knowledge.len(), 1);
    assert_eq!(db.knowledge[0].observations, 2);
    assert_eq!(db.knowledge[0].description, "Back off\n---\nSeen in the client too");
    let third = learn(&mut db, &KnowledgeType::Pattern, "Other", "x", &[], &[], &[]).unwrap();
    assert!(!third);
    assert_eq!(db.knowledge.len(), 2);
}

#[test]
fn chain_links_get_no_reverse() {
    let mut db = empty();
    learn(&mut db, &KnowledgeType::Pattern, "Cause", "a", &[], &[], &[]).unwrap();
    learn(&mut db, &KnowledgeType::Pattern, "Effect", "b", &[], &[], &[]).unwrap();
    let a = db.knowledge[0].uuid.clone();
    let b = db.knowledge[1].uuid.clone();
    let before = db.links.len();
    link_knowledge_to_knowledge(&mut db, &a, &b, "leads_to", true).unwrap();
    assert_eq!(db.links.len(), before + 1);
    link_knowledge_to_knowledge(&mut db, &a, &b, "supports", true).unwrap();
    assert_eq!(db.links.len(), before + 3);
    assert!(db.links.iter().any(|l| l.knowledge_uuid == b && l.node_uuid == a && l.relation == "supported_by"));
    assert!(!db.links.iter().any(|l| l.knowledge_uuid == b && l.relation == "leads_to"));
}
