use kodex::store::merge_project_data;
use kodex::types::{
    Confidence, Edge, ExtractionResult, FileType, KnowledgeLink, KodexData, KodexError, Node, FULL_CONFIDENCE_BITS,
};

fn node(uuid: &str, file: &str) -> Node {
    Node {
        id: uuid.into(),
        label: uuid.into(),
        file_type: FileType::Code,
        source_file: file.into(),
        source_location: None,
        confidence: Some(Confidence::EXTRACTED),
        community: None,
        norm_label: None,
        degree: None,
        uuid: Some(uuid.into()),
        fingerprint: None,
        logical_key: None,
        body_hash: None,
    }
}

fn edge(a: &str, b: &str, file: &str) -> Edge {
    Edge {
        source: a.into(),
        target: b.into(),
        relation: "calls".into(),
        confidence: Confidence::EXTRACTED,
        source_file: file.into(),
        source_location: None,
        confidence_score_bits: None,
        weight_bits: kodex::types::WEIGHT_ONE_BITS,
        original_src: None,
        original_tgt: None,
    }
}

fn link(k: &str, n: &str) -> KnowledgeLink {
    KnowledgeLink {
        knowledge_uuid: k.into(),
        node_uuid: n.into(),
        relation: "involves".into(),
        target_type: "node".into(),
        confidence_bits: FULL_CONFIDENCE_BITS,
        created_at: 0,
        linked_body_hash: String::new(),
        linked_logical_key: String::new(),
        source: String::new(),
        reason: String::new(),
    }
}

fn store(nodes: Vec<Node>, edges: Vec<Edge>, links: Vec<KnowledgeLink>) -> KodexData {
    let mut x = ExtractionResult::empty();
    x.nodes = nodes;
    x.edges = edges;
    KodexData { extraction: x, knowledge: vec![], links, review_queue: vec![] }
}

#[test]
fn merge_replaces_only_this_project() {
    let mut d = store(
        vec![node("a1", "/p/a/x.rs"), node("b1", "/p/ab/y.rs"), node("a2", "/p/a/z.rs")],
        vec![edge("a1", "a2", "/p/a/x.rs"), edge("b1", "b1", "/p/ab/y.rs")],
        vec![link("k", "a1"), link("k", "a2"), link("k", "b1")],
    );
    let r = merge_project_data(&mut d, "/p/a", vec![node("a1", "/p/a/x.rs"), node("a3", "/p/a/w.rs")], vec![], false);
    assert!(r.is_ok());
    let ids: Vec<&str> = d.extraction.nodes.iter().map(|n| n.id.as_str()).collect();
    // "/p/ab" is another project, though its path starts with the same letters.
    assert_eq!(ids, vec!["b1", "a1", "a3"]);
    assert_eq!(d.extraction.edges.len(), 1);
    assert_eq!(d.extraction.edges[0].source_file, "/p/ab/y.rs");
    let linked: Vec<&str> = d.links.iter().map(|l| l.node_uuid.as_str()).collect();
    assert_eq!(linked, vec!["a1", "b1"]);
}

#[test]
fn shrink_guard_refuses_large_loss() {
    let old: Vec<Node> = (0..60).map(|i| node(&format!("n{i}"), &format!("/p/a/f{i}.rs"))).collect();
    let mut d = store(old, vec![], vec![]);
    let fresh: Vec<Node> = (0..29).map(|i| node(&format!("n{i}"), "/p/a/f.rs")).collect();
    match merge_project_data(&mut d, "/p/a", fresh, vec![], false) {
        Err(KodexError::ShrinkGuard(p, o, n)) => assert_eq!((p.as_str(), o, n), ("/p/a", 60, 29)),
        other => panic!("expected the shrink guard, got {other:?}"),
    }
    assert_eq!(d.extraction.nodes.len(), 60);
    let fresh: Vec<Node> = (0..30).map(|i| node(&format!("n{i}"), "/p/a/f.rs")).collect();
    assert!(merge_project_data(&mut d, "/p/a", fresh, vec![], false).is_ok());
    assert_eq!(d.extraction.nodes.len(), 30);
    let fresh: Vec<Node> = (0..1).map(|i| node(&format!("n{i}"), "/p/a/f.rs")).collect();
    assert!(merge_project_data(&mut d, "/p/a", fresh, vec![], true).is_ok());
    assert_eq!(d.extraction.nodes.len(), 1);
}
