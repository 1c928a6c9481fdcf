use kodex::knowledge_type::KnowledgeType;
use kodex::stale::detect_stale_at;
use kodex::types::{
    Confidence, ExtractionResult, FileType, KnowledgeEntry, KnowledgeLink, KodexData, Node, FULL_CONFIDENCE_BITS,
};

const DAY: u64 = 86400;
const NOW: u64 = 1000 * DAY;

fn entry(uuid: &str) -> KnowledgeEntry {
    KnowledgeEntry {
        uuid: uuid.into(),
        title: format!("T-{uuid}"),
        knowledge_type: "pattern".into(),
        description: String::new(),
        confidence_bits: FULL_CONFIDENCE_BITS,
        observations: 1,
        tags: vec![],
        scope: String::new(),
        status: "active".into(),
        source: "agent".into(),
        last_validated_at: 0,
        applies_when: String::new(),
        supersedes: String::new(),
        superseded_by: String::new(),
        evidence: String::new(),
        created_at: NOW - DAY,
        updated_at: NOW - DAY,
        author: String::new(),
        trigger: String::new(),
        fetch_count: 0,
        last_fetched: 0,
    }
}

fn link(k: &str, node: &str, body: &str) -> KnowledgeLink {
    KnowledgeLink {
        knowledge_uuid: k.into(),
        node_uuid: node.into(),
        relation: "involves".into(),
        target_type: "node".into(),
        confidence_bits: FULL_CONFIDENCE_BITS,
        created_at: 0,
        linked_body_hash: body.into(),
        linked_logical_key: String::new(),
        source: String::new(),
        reason: String::new(),
    }
}

fn node(uuid: &str, body: &str) -> Node {
    Node {
        id: uuid.into(),
        label: uuid.into(),
        file_type: FileType::Code,
        source_file: "a.rs".into(),
        source_location: None,
        confidence: Some(Confidence::EXTRACTED),
        community: None,
        norm_label: None,
        degree: None,
        uuid: Some(uuid.into()),
        fingerprint: None,
        logical_key: None,
        body_hash: Some(body.into()),
    }
}

fn data(knowledge: Vec<KnowledgeEntry>, links: Vec<KnowledgeLink>, nodes: Vec<Node>) -> KodexData {
    let mut x = ExtractionResult::empty();
    x.nodes = nodes;
    KodexData { extraction: x, knowledge, links, review_queue: vec![] }
}

#[test]
fn all_nodes_gone_flags_for_review() {
    let mut d = data(vec![entry("a")], vec![link("a", "n1", ""), link("a", "n2", "")], vec![]);
    let (infos, scales) = detect_stale_at(&mut d, NOW);
    assert_eq!(infos.len(), 1);
    assert_eq!(infos[0].reason, "All 2 linked nodes deleted");
    assert_eq!((infos[0].staleness_num, infos[0].staleness_den), (1, 1));
    assert_eq!(scales, vec![900]);
    assert_eq!(d.knowledge[0].status, "needs_review");
    assert!(d.links.is_empty());
}

#[test]
fn partial_loss_over_half() {
    let nodes = vec![node("n1", "h")];
    let links = vec![link("a", "n1", ""), link("a", "n2", ""), link("a", "n3", "")];
    let mut d = data(vec![entry("a")], links, nodes);
    let (infos, scales) = detect_stale_at(&mut d, NOW);
    assert_eq!(infos.len(), 1);
    assert_eq!(infos[0].reason, "2/3 linked nodes deleted");
    assert_eq!((infos[0].staleness_num, infos[0].staleness_den), (14, 30));
    assert_eq!(scales, vec![950]);
    assert_eq!(d.links.len(), 1);
    assert_eq!(d.links[0].node_uuid, "n1");
}

#[test]
fn partial_loss_of_half_is_fine() {
    let links = vec![link("a", "n1", ""), link("a", "n2", "")];
    let mut d = data(vec![entry("a")], links, vec![node("n1", "h")]);
    let (infos, scales) = detect_stale_at(&mut d, NOW);
    assert!(infos.is_empty());
    assert_eq!(scales, vec![1000]);
    assert_eq!(d.knowledge[0].status, "active");
    assert_eq!(d.links.len(), 2);
}

#[test]
fn changed_body_is_reported() {
    let links = vec![link("a", "n1", "old"), link("a", "n2", "same"), link("a", "n3", "")];
    let nodes = vec![node("n1", "new"), node("n2", "same"), node("n3", "x")];
    let mut d = data(vec![entry("a")], links, nodes);
    let (infos, scales) = detect_stale_at(&mut d, NOW);
    assert_eq!(infos.len(), 1);
    assert_eq!(infos[0].reason, "1/2 linked nodes have changed body since link was created");
    assert_eq!((infos[0].staleness_num, infos[0].staleness_den), (7, 20));
    assert_eq!(scales, vec![1000]);
    assert_eq!(d.knowledge[0].status, "active");

    let mut d = data(vec![entry("b")], vec![link("b", "n1", "old")], vec![node("n1", "new")]);
    let (infos, scales) = detect_stale_at(&mut d, NOW);
    assert_eq!(infos[0].reason, "1/1 linked nodes have changed body since link was created");
    assert_eq!(scales, vec![1000]);
    assert_eq!(d.knowledge[0].status, "active");
}

#[test]
fn unvalidated_and_unretrieved_entries() {
    let mut old = entry("a");
    old.last_validated_at = NOW - 91 * DAY;
    let mut idle = entry("b");
    idle.created_at = NOW - 100 * DAY;
    let mut fetched = entry("c");
    fetched.created_at = NOW - 300 * DAY;
    fetched.last_fetched = NOW - 95 * DAY;
    fetched.fetch_count = 4;
    let links = vec![link("b", "n1", ""), link("c", "n1", "")];
    let mut d = data(vec![old, idle, fetched], links, vec![node("n1", "h")]);
    let (infos, _) = detect_stale_at(&mut d, NOW);
    let reasons: Vec<&str> = infos.iter().map(|i| i.reason.as_str()).collect();
    assert_eq!(
        reasons,
        vec![
            "Not validated for 91 days",
            "Never retrieved in 100 days since creation",
            "Not retrieved in 95 days (last fetch_count=4)"
        ]
    );
    assert!(d.knowledge.iter().all(|k| k.status == "needs_review"));
}

#[test]
fn obsolete_entries_are_left_alone() {
    let mut e = entry("a");
    e.status = "obsolete".into();
    let mut d = data(vec![e], vec![link("a", "gone", "")], vec![]);
    let (infos, scales) = detect_stale_at(&mut d, NOW);
    assert!(infos.is_empty());
    assert_eq!(scales, vec![1000]);
    assert_eq!(d.knowledge[0].status, "obsolete");
    assert_eq!(d.links.len(), 1);
}

#[test]
fn test_stale_detection_ignores_knowledge_links() {
    let mut d = data(vec![], vec![], vec![]);
    let (k1, _) = kodex::learning::learn_with_uuid(
        &mut d,
        None,
        &KnowledgeType::Pattern,
        "Pure Knowledge",
        "no nodes",
        None,
        &[],
        None,
        &[],
    )
    .unwrap();
    let (k2, _) = kodex::learning::learn_with_uuid(
        &mut d,
        None,
        &KnowledgeType::Decision,
        "Another",
        "also no nodes",
        None,
        &[],
        None,
        &[],
    )
    .unwrap();
    kodex::learn::link_knowledge_to_knowledge(&mut d, &k1, &k2, "depends_on", false).unwrap();
    let stale = kodex::stale::detect_stale_knowledge(&mut d);
    assert_eq!(stale, 0, "knowledge-only entries should not be marked stale");
    let k = d.knowledge.iter().find(|k| k.title == "Pure Knowledge").unwrap();
    assert_eq!(k.uuid, k1);
    assert_eq!(k.status, "active");
}
