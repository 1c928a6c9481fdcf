use kodex::types::{Confidence, FileType, Node};
use kodex::conflicts::{detect_conflicts, refresh_review_queue_at, scope_overlap_candidates};
use kodex::knowledge_type::{parse_knowledge_type, KnowledgeType};
use kodex::learn::{
    clear_knowledge_links, complete_review, enqueue_review_at, get_review_queue, knowledge_neighbors,
    link_knowledge_to_knowledge_at, link_knowledge_to_nodes_at, mark_obsolete_at, merge_knowledge_at,
    remove_link, update_knowledge_at, validate_knowledge_at, KnowledgeUpdates,
};
use kodex::learning::{learn_supersedes_at, learn_with_uuid_at};
use kodex::store::forget_project;
use kodex::types::{ExtractionResult, KnowledgeEntry, KodexData, KodexError, FULL_CONFIDENCE_BITS};

fn entry(uuid: &str, title: &str, scope: &str) -> KnowledgeEntry {
    KnowledgeEntry {
        uuid: uuid.into(),
        title: title.into(),
        knowledge_type: "pattern".into(),
        description: "desc".into(),
        confidence_bits: FULL_CONFIDENCE_BITS,
        observations: 1,
        tags: vec![],
        scope: scope.into(),
        status: "active".into(),
        source: "agent".into(),
        last_validated_at: 0,
        applies_when: String::new(),
        supersedes: String::new(),
        superseded_by: String::new(),
        evidence: String::new(),
        created_at: 1,
        updated_at: 1,
        author: String::new(),
        trigger: String::new(),
        fetch_count: 0,
        last_fetched: 0,
    }
}

fn data_with(entries: Vec<KnowledgeEntry>) -> KodexData {
    KodexData { extraction: ExtractionResult::empty(), knowledge: entries, links: vec![], review_queue: vec![] }
}

#[test]
fn learn_creates_new_entry() {
    let mut d = data_with(vec![]);
    let tags = vec!["imported".to_string()];
    let r = learn_with_uuid_at(&mut d, None, &KnowledgeType::Pattern, "Title", "Body", None, &tags, None, &[], 42);
    let (u, reinforced) = r.unwrap();
    assert!(!reinforced);
    assert_eq!(u.chars().count(), 36);
    assert_eq!(d.knowledge.len(), 1);
    let e = &d.knowledge[0];
    assert_eq!(e.uuid, u);
    assert_eq!(e.title, "Title");
    assert_eq!(e.knowledge_type, "pattern");
    assert_eq!(e.observations, 1);
    assert_eq!(e.status, "active");
    assert_eq!(e.source, "imported");
    assert_eq!(e.created_at, 42);
}

#[test]
fn learn_twice_gives_distinct_uuids() {
    let mut d = data_with(vec![]);
    let (a, _) = learn_with_uuid_at(&mut d, None, &KnowledgeType::Decision, "A", "x", None, &[], None, &[], 1).unwrap();
    let (b, _) = learn_with_uuid_at(&mut d, None, &KnowledgeType::Decision, "B", "y", None, &[], None, &[], 1).unwrap();
    assert_ne!(a, b);
    assert_eq!(d.knowledge[1].source, "agent");
}

#[test]
fn learn_reinforces_existing_entry() {
    let mut d = data_with(vec![entry("k1", "Old", "")]);
    let tags = vec!["t".to_string()];
    let r = learn_with_uuid_at(&mut d, Some("k1"), &KnowledgeType::Lesson, "", "more", None, &tags, None, &[], 9);
    assert_eq!(r.unwrap(), ("k1".to_string(), true));
    let e = &d.knowledge[0];
    assert_eq!(e.observations, 2);
    assert_eq!(e.title, "Old");
    assert_eq!(e.knowledge_type, "lesson");
    assert_eq!(e.description, "desc\n---\nmore");
    assert_eq!(e.tags, vec!["t".to_string()]);
    assert_eq!(e.updated_at, 9);
}

#[test]
fn learn_unknown_uuid_is_error() {
    let mut d = data_with(vec![entry("k1", "Old", "")]);
    let r = learn_with_uuid_at(&mut d, Some("nope"), &KnowledgeType::Ops, "t", "d", None, &[], None, &[], 1);
    assert!(matches!(r, Err(KodexError::UuidNotFound(ref x)) if x == "nope"));
    assert_eq!(d.knowledge.len(), 1);
}

#[test]
fn learn_rejects_long_description() {
    let mut d = data_with(vec![]);
    let long: String = "x".repeat(2001);
    let r = learn_with_uuid_at(&mut d, None, &KnowledgeType::Ops, "t", &long, None, &[], None, &[], 1);
    assert!(matches!(r, Err(KodexError::DescriptionTooLong(2001))));
    assert!(d.knowledge.is_empty());
    let ok: String = "x".repeat(2000);
    assert!(learn_with_uuid_at(&mut d, None, &KnowledgeType::Ops, "t", &ok, None, &[], None, &[], 1).is_ok());
}

#[test]
fn learn_supersedes_marks_old_entry() {
    let mut d = data_with(vec![entry("old", "Old way", "")]);
    let r = learn_supersedes_at(&mut d, &KnowledgeType::Decision, "New way", "d", None, &[], "old", &[], 5);
    let (u, _) = r.unwrap();
    let old = d.knowledge.iter().find(|k| k.uuid == "old").unwrap();
    assert_eq!(old.status, "obsolete");
    assert_eq!(old.superseded_by, u);
    assert!(d.knowledge.iter().any(|k| k.uuid == u && k.title == "New way"));
}

#[test]
fn update_sets_fields_and_reports_missing() {
    let mut d = data_with(vec![entry("k1", "T", ""), entry("k2", "U", "")]);
    let mut up = KnowledgeUpdates::none();
    up.scope = Some("src/".into());
    up.status = Some("tentative".into());
    assert!(update_knowledge_at(&mut d, "k1", &up, 3).is_ok());
    assert_eq!(d.knowledge[0].scope, "src/");
    assert_eq!(d.knowledge[0].status, "tentative");
    let r = update_knowledge_at(&mut d, "zz", &up, 3);
    assert!(matches!(r, Err(KodexError::UuidNotFound(_))));
    let mut bad = KnowledgeUpdates::none();
    bad.superseded_by = Some("missing".into());
    let r = update_knowledge_at(&mut d, "k1", &bad, 3);
    assert!(matches!(r, Err(KodexError::SupersededByNotFound(ref x)) if x == "missing"));
}

#[test]
fn validate_and_obsolete() {
    let mut d = data_with(vec![entry("k1", "T", "")]);
    assert!(validate_knowledge_at(&mut d, "k1", Some("checked"), 77).is_ok());
    assert_eq!(d.knowledge[0].last_validated_at, 77);
    assert!(matches!(validate_knowledge_at(&mut d, "x", None, 1), Err(KodexError::UuidNotFound(_))));
    assert!(mark_obsolete_at(&mut d, "k1", "outdated", 80).is_ok());
    assert_eq!(d.knowledge[0].status, "obsolete");
    assert!(mark_obsolete_at(&mut d, "x", "r", 1).is_err());
}

#[test]
fn bidirectional_link_shows_both_ways() {
    let mut d = data_with(vec![entry("a", "A", ""), entry("b", "B", "")]);
    assert!(link_knowledge_to_knowledge_at(&mut d, "a", "b", "depends_on", true, 1).is_ok());
    let na = knowledge_neighbors(&d, "a");
    let nb = knowledge_neighbors(&d, "b");
    assert!(na.contains(&("b".to_string(), "depends_on".to_string(), "outgoing".to_string())));
    assert!(nb.contains(&("a".to_string(), "depended_by".to_string(), "outgoing".to_string())));
    assert!(nb.contains(&("a".to_string(), "depends_on".to_string(), "incoming".to_string())));
}

#[test]
fn link_errors_name_missing_end() {
    let mut d = data_with(vec![entry("a", "A", "")]);
    let r = link_knowledge_to_knowledge_at(&mut d, "x", "a", "supports", false, 1);
    assert!(matches!(r, Err(KodexError::SourceNotFound(ref s)) if s == "x"));
    let r = link_knowledge_to_knowledge_at(&mut d, "a", "y", "supports", false, 1);
    assert!(matches!(r, Err(KodexError::TargetNotFound(ref s)) if s == "y"));
    assert!(d.links.is_empty());
}

#[test]
fn node_links_clear_and_remove() {
    let mut d = data_with(vec![entry("a", "A", ""), entry("b", "B", "")]);
    let nodes = vec!["n1".to_string(), "n2".to_string()];
    assert!(link_knowledge_to_nodes_at(&mut d, "a", &nodes, "involves", 1).is_ok());
    assert_eq!(d.links.len(), 2);
    assert!(matches!(link_knowledge_to_nodes_at(&mut d, "zz", &nodes, "involves", 1), Err(KodexError::UuidNotFound(_))));
    assert!(remove_link(&mut d, "a", "n1", None));
    assert!(!remove_link(&mut d, "a", "n1", None));
    assert_eq!(d.links.len(), 1);
    assert_eq!(clear_knowledge_links(&mut d, "a"), 1);
    assert!(d.links.is_empty());
}

#[test]
fn review_queue_keeps_one_pending_per_entry() {
    let mut d = data_with(vec![entry("a", "A", "")]);
    assert!(enqueue_review_at(&mut d, "a", "stale", 2, 10));
    assert!(!enqueue_review_at(&mut d, "a", "again", 3, 11));
    assert_eq!(get_review_queue(&d).len(), 1);
    complete_review(&mut d, "a");
    assert!(get_review_queue(&d).is_empty());
    assert!(enqueue_review_at(&mut d, "a", "new", 1, 12));
    assert_eq!(get_review_queue(&d).len(), 1);
}

#[test]
fn merge_combines_two_entries() {
    let mut keep = entry("k", "Keep", "");
    keep.tags = vec!["x".into()];
    let mut absorb = entry("a", "Absorb", "");
    absorb.tags = vec!["y".into()];
    absorb.observations = 3;
    let mut d = data_with(vec![keep, absorb]);
    let r = merge_knowledge_at(&mut d, "k", "a", 50);
    assert!(r.is_ok());
    let k = d.knowledge.iter().find(|e| e.uuid == "k").unwrap();
    assert_eq!(k.observations, 4);
    assert!(k.tags.contains(&"y".to_string()));
    assert!(matches!(merge_knowledge_at(&mut d, "k", "zz", 50), Err(KodexError::UuidNotFound(_))));
}

#[test]
fn scope_overlap_and_conflicts() {
    let mut a = entry("a", "Use tabs", "src/");
    a.knowledge_type = "decision".into();
    let mut b = entry("b", "Use spaces", "src/");
    b.knowledge_type = "decision".into();
    let d = data_with(vec![a, b, entry("c", "Other", "docs/")]);
    let cands = scope_overlap_candidates(&d);
    assert!(cands.contains(&(0, 1)));
    assert!(!cands.iter().any(|&(i, j)| i == 2 || j == 2));
    let flags = vec![true; cands.len()];
    let conflicts = detect_conflicts(&d, &flags);
    assert!(!conflicts.is_empty());
    let none = detect_conflicts(&d, &vec![false; cands.len()]);
    assert!(none.iter().all(|c| c.conflict_type != "scope_overlap"));
}

#[test]
fn refresh_queues_stale_entries() {
    let mut d = data_with(vec![entry("a", "A", "")]);
    let cands = scope_overlap_candidates(&d);
    let stale = vec![("a".to_string(), "body changed".to_string())];
    let n = refresh_review_queue_at(&mut d, &stale, &vec![false; cands.len()], &[], 5);
    assert_eq!(n, 1);
    assert_eq!(get_review_queue(&d).len(), 1);
    let n = refresh_review_queue_at(&mut d, &stale, &vec![false; cands.len()], &[], 6);
    assert_eq!(n, 0);
}

#[test]
fn forget_project_drops_its_nodes() {
    let mk = |id: &str, file: &str| Node {
        id: id.into(),
        label: id.into(),
        file_type: FileType::Code,
        source_file: file.into(),
        source_location: None,
        confidence: Some(Confidence::EXTRACTED),
        community: None,
        norm_label: None,
        degree: None,
        uuid: Some(format!("u-{id}")),
        fingerprint: None,
        logical_key: None,
        body_hash: None,
    };
    let mut d = data_with(vec![entry("a", "A", "")]);
    d.extraction.nodes = vec![mk("x", "/proj/one/src/x.rs"), mk("y", "/other/y.rs")];
    let nodes = vec!["u-x".to_string(), "u-y".to_string()];
    link_knowledge_to_nodes_at(&mut d, "a", &nodes, "involves", 1).unwrap();
    let removed = forget_project(&mut d, "/proj/one");
    assert_eq!(removed, 1);
    assert_eq!(d.extraction.nodes.len(), 1);
    assert_eq!(d.extraction.nodes[0].id, "y");
    assert_eq!(d.links.len(), 1);
    assert_eq!(d.links[0].node_uuid, "u-y");
    assert_eq!(d.knowledge.len(), 1);
}

#[test]
fn knowledge_type_round_trip() {
    for t in [KnowledgeType::Architecture, KnowledgeType::BugPattern, KnowledgeType::TechDebt, KnowledgeType::Api] {
        assert_eq!(parse_knowledge_type(&t.name()).name(), t.name());
    }
    assert_eq!(KnowledgeType::BugPattern.name(), "bug_pattern");
    assert!(matches!(parse_knowledge_type("bug_pattern"), KnowledgeType::BugPattern));
    assert!(matches!(parse_knowledge_type("weird"), KnowledgeType::Custom(ref s) if s == "weird"));
    assert_eq!(parse_knowledge_type("weird").name(), "weird");
}

#[test]
fn append_keeps_long_descriptions_and_confidence() {
    let mut d = data_with(vec![]);
    let long = "y".repeat(3000);
    kodex::learning::append_knowledge(&mut d, "T", "lesson", &long, 0x3FE0_0000_0000_0000, 1, &[], &[], &[]).unwrap();
    assert_eq!(d.knowledge[0].description.len(), 3000);
    assert_eq!(d.knowledge[0].confidence_bits, 0x3FE0_0000_0000_0000);
    assert_eq!(d.knowledge[0].knowledge_type, "lesson");
    let r = kodex::learning::append_knowledge_with_uuid_at(&mut d, Some("nope"), "x", "t", "d", 0, None, &[], &[], 3);
    assert!(matches!(r, Err(KodexError::UuidNotFound(_))));
    let u = d.knowledge[0].uuid.clone();
    let r = kodex::learning::append_knowledge_with_uuid_at(&mut d, Some(&u), "", "", "more", 0, None, &[], &[], 4);
    assert_eq!(r.unwrap(), u);
    assert_eq!(d.knowledge[0].observations, 2);
    assert_eq!(d.knowledge[0].knowledge_type, "lesson");
}
