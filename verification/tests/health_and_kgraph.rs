use kodex::health::knowledge_health_at;
use kodex::kgraph::traverse_knowledge_graph;
use kodex::types::{
    Confidence, ExtractionResult, FileType, KnowledgeEntry, KnowledgeLink, KodexData, Node, FULL_CONFIDENCE_BITS,
};

const DAY: u64 = 86400;
const NOW: u64 = 1000 * DAY;

fn entry(uuid: &str, status: &str) -> KnowledgeEntry {
    KnowledgeEntry {
        uuid: uuid.into(),
        title: format!("T-{uuid}"),
        knowledge_type: "pattern".into(),
        description: String::new(),
        confidence_bits: FULL_CONFIDENCE_BITS,
        observations: 2,
        tags: vec![],
        scope: String::new(),
        status: status.into(),
        source: "agent".into(),
        last_validated_at: 0,
        applies_when: String::new(),
        supersedes: String::new(),
        superseded_by: String::new(),
        evidence: String::new(),
        created_at: NOW - 40 * DAY,
        updated_at: NOW - 40 * DAY,
        author: String::new(),
        trigger: String::new(),
        fetch_count: 0,
        last_fetched: 0,
    }
}

fn klink(from: &str, to: &str, relation: &str) -> KnowledgeLink {
    KnowledgeLink {
        knowledge_uuid: from.into(),
        node_uuid: to.into(),
        relation: relation.into(),
        target_type: "knowledge".into(),
        confidence_bits: FULL_CONFIDENCE_BITS,
        created_at: 0,
        linked_body_hash: String::new(),
        linked_logical_key: String::new(),
        source: String::new(),
        reason: String::new(),
    }
}

fn nlink(from: &str, node: &str) -> KnowledgeLink {
    let mut l = klink(from, node, "involves");
    l.target_type = String::new();
    l
}

fn node(uuid: &str, label: &str) -> Node {
    Node {
        id: uuid.into(),
        label: label.into(),
        file_type: FileType::Code,
        source_file: "a.rs".into(),
        source_location: None,
        confidence: Some(Confidence::EXTRACTED),
        community: None,
        norm_label: None,
        degree: None,
        uuid: Some(uuid.into()),
        fingerprint: None,
        logical_key: None,
        body_hash: None,
    }
}

fn sample() -> KodexData {
    let mut x = ExtractionResult::empty();
    x.nodes = vec![node("n1", "alpha()")];
    let mut recent = entry("d", "tentative");
    recent.updated_at = NOW - 2 * DAY;
    let mut overdue = entry("e", "active");
    overdue.last_validated_at = NOW - 100 * DAY;
    KodexData {
        extraction: x,
        knowledge: vec![entry("a", "active"), entry("b", "active"), entry("c", "obsolete"), recent, overdue],
        links: vec![
            klink("a", "b", "depends_on"),
            klink("b", "c", "supports"),
            klink("a", "zz", "supports"),
            nlink("a", "n1"),
            nlink("b", "gone"),
        ],
        review_queue: vec![],
    }
}

#[test]
fn health_counts() {
    let d = sample();
    let cands = kodex::conflicts::scope_overlap_candidates(&d);
    let h = knowledge_health_at(&d, NOW, 3, &vec![false; cands.len()]);
    assert_eq!(h.total_knowledge, 5);
    assert_eq!(h.active, 3);
    assert_eq!(h.tentative, 1);
    assert_eq!(h.needs_review, 0);
    assert_eq!(h.obsolete, 1);
    assert_eq!(h.total_links, 5);
    assert_eq!(h.node_links, 2);
    assert_eq!(h.knowledge_links, 3);
    assert_eq!(h.orphan_node_links, 1);
    assert_eq!(h.orphan_knowledge_links, 1);
    assert_eq!(h.duplicate_candidates, 3);
    assert_eq!(h.total_observations, 10);
    assert_eq!(h.total_nodes, 1);
    assert_eq!(h.validation_overdue, 1);
    assert_eq!(h.recently_changed_7d, 1);
    assert_eq!(h.recently_changed_30d, 1);
}

#[test]
fn traversal_from_start_respects_depth() {
    let d = sample();
    let g = traverse_knowledge_graph(&d, Some("c"), 1);
    let ids: Vec<&str> = g.iter().map(|n| n.uuid.as_str()).collect();
    assert_eq!(ids, vec!["b", "c"]);
    let g = traverse_knowledge_graph(&d, Some("c"), 2);
    let ids: Vec<&str> = g.iter().map(|n| n.uuid.as_str()).collect();
    assert_eq!(ids, vec!["a", "b", "c"]);
    let g = traverse_knowledge_graph(&d, Some("c"), 0);
    assert_eq!(g.len(), 1);
    assert!(traverse_knowledge_graph(&d, Some("missing"), 5).is_empty());
}

#[test]
fn traversal_lists_links_with_titles() {
    let d = sample();
    let g = traverse_knowledge_graph(&d, None, 0);
    assert_eq!(g.len(), 5);
    let a = &g[0];
    assert_eq!(a.links_out.len(), 2);
    assert_eq!(a.links_out[0].target_uuid, "b");
    assert_eq!(a.links_out[0].target_title, "T-b");
    assert_eq!(a.links_out[0].relation, "depends_on");
    assert_eq!(a.links_out[1].target_title, "");
    assert_eq!(a.node_links.len(), 1);
    assert_eq!(a.node_links[0].target_title, "alpha()");
    let b = &g[1];
    assert_eq!(b.links_in.len(), 1);
    assert_eq!(b.links_in[0].target_uuid, "a");
    assert_eq!(b.node_links[0].target_title, "gone");
    assert_eq!(g[0].confidence_bits, FULL_CONFIDENCE_BITS);
}
