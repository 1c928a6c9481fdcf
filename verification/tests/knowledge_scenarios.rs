use kodex::chain::thought_chain;
use kodex::kgraph::{render_knowledge_graph, traverse_knowledge_graph, KnowledgeGraphEdge, KnowledgeGraphNode};
use kodex::knowledge_type::KnowledgeType;
use kodex::learn::{
    knowledge_neighbors, link_knowledge_to_knowledge, merge_knowledge, remove_link, update_knowledge,
    KnowledgeUpdates,
};
use kodex::learning::learn_with_uuid;
use kodex::recall::query_knowledge;
use kodex::stale::detect_stale_knowledge;
use kodex::types::{Confidence, Edge, ExtractionResult, FileType, KodexData, Node, WEIGHT_ONE_BITS};

fn empty() -> KodexData {
    KodexData { extraction: ExtractionResult::empty(), knowledge: vec![], links: vec![], review_queue: vec![] }
}

fn strs(v: &[&str]) -> Vec<String> {
    v.iter().map(|s| s.to_string()).collect()
}

fn learn_new(db: &mut KodexData, kt: KnowledgeType, title: &str, desc: &str, nodes: Option<&[String]>, tags: &[&str]) -> String {
    learn_with_uuid(db, None, &kt, title, desc, nodes, &strs(tags), None, &[]).unwrap().0
}

#[test]
fn test_update_knowledge_timestamps() {
    let mut db = empty();
    let k = learn_new(&mut db, KnowledgeType::Pattern, "Test", "desc", None, &[]);
    let entry1 = db.knowledge.iter().find(|e| e.uuid == k).unwrap();
    assert!(entry1.created_at > 0, "created_at should be set");
    let created = entry1.created_at;
    let mut updates = KnowledgeUpdates::none();
    updates.scope = Some("module".into());
    update_knowledge(&mut db, &k, &updates).unwrap();
    let entry2 = db.knowledge.iter().find(|e| e.uuid == k).unwrap();
    assert_eq!(entry2.created_at, created, "created_at should not change");
    assert!(entry2.updated_at >= created, "updated_at should be set after update");
    assert_eq!(entry2.scope, "module");
}

#[test]
fn test_merge_preserves_knowledge_links() {
    let mut db = empty();
    let k1 = learn_new(&mut db, KnowledgeType::Pattern, "Auth Pattern", "desc", None, &[]);
    let k2 = learn_new(&mut db, KnowledgeType::Decision, "JWT Decision", "desc", None, &[]);
    let k3 = learn_new(&mut db, KnowledgeType::Convention, "Token Convention", "desc", None, &[]);
    link_knowledge_to_knowledge(&mut db, &k1, &k2, "depends_on", false).unwrap();
    link_knowledge_to_knowledge(&mut db, &k3, &k2, "supports", false).unwrap();
    merge_knowledge(&mut db, &k1, &k2).unwrap();
    let k3_supports: Vec<_> =
        db.links.iter().filter(|l| l.knowledge_uuid == k3 && l.relation == "supports" && l.is_knowledge_link()).collect();
    assert_eq!(k3_supports.len(), 1);
    assert_eq!(k3_supports[0].node_uuid, k1, "Incoming knowledge link should be rewritten to keeper UUID");
    let k1_deps: Vec<_> =
        db.links.iter().filter(|l| l.knowledge_uuid == k1 && l.relation == "depends_on" && l.is_knowledge_link()).collect();
    assert!(k1_deps.is_empty() || k1_deps.iter().all(|l| l.node_uuid != k2), "Self-referential link should not exist after merge");
}

#[test]
fn test_duplicate_merge_preserves_links() {
    let mut db = empty();
    let k1 = learn_new(
        &mut db,
        KnowledgeType::Pattern,
        "Repository Pattern",
        "All data access through repos",
        Some(&strs(&["node-a"])),
        &["arch"],
    );
    let k2 = learn_new(
        &mut db,
        KnowledgeType::Pattern,
        "Repository Pattern Design",
        "Data access via repository classes",
        Some(&strs(&["node-b"])),
        &["arch", "design"],
    );
    merge_knowledge(&mut db, &k1, &k2).unwrap();
    let kept = db.knowledge.iter().find(|k| k.uuid == k1).unwrap();
    assert!(kept.observations >= 2, "Should absorb observations");
    assert!(kept.tags.contains(&"design".to_string()), "Should absorb tags");
    let absorbed = db.knowledge.iter().find(|k| k.uuid == k2).unwrap();
    assert_eq!(absorbed.status, "obsolete");
    assert_eq!(absorbed.superseded_by, k1);
    let k1_links: Vec<_> =
        db.links.iter().filter(|l| l.knowledge_uuid == k1 && !l.is_knowledge_link()).map(|l| l.node_uuid.as_str()).collect();
    assert!(k1_links.contains(&"node-a"), "Should keep original link");
    assert!(k1_links.contains(&"node-b"), "Should absorb merged link");
    let supersedes = db.links.iter().any(|l| l.knowledge_uuid == k1 && l.node_uuid == k2 && l.relation == "supersedes");
    assert!(supersedes, "Should have supersedes link");
}

#[test]
fn test_auto_link_knowledge_cluster() {
    let mut db = empty();
    let a = learn_new(
        &mut db,
        KnowledgeType::BugPattern,
        "epics-pva-rs handshake bug",
        "client failed pvxs handshake when bitset decode misaligned",
        None,
        &["pva", "epics"],
    );
    // The caller's similarity ranking names `a` as the entry most like `b`.
    let b = learn_with_uuid(
        &mut db,
        None,
        &KnowledgeType::BugPattern,
        "epics-pva-rs bitset decode bug",
        "bitset decode misaligned during pvxs handshake",
        None,
        &strs(&["pva", "epics"]),
        None,
        &[a.clone()],
    )
    .unwrap()
    .0;
    // An unrelated entry has no similar entry and gets no knowledge link.
    let _c = learn_new(&mut db, KnowledgeType::Convention, "Use AppError", "for error handling in rust modules", None, &["rust"]);
    let kk_links: Vec<_> = db.links.iter().filter(|l| l.is_knowledge_link()).collect();
    assert!(!kk_links.is_empty(), "expected at least one auto knowledge\u{2194}knowledge link");
    assert!(
        kk_links.iter().any(|l| l.knowledge_uuid == b && l.node_uuid == a),
        "expected b\u{2192}a auto-link, got: {:?}",
        kk_links.iter().map(|l| (l.knowledge_uuid.clone(), l.node_uuid.clone())).collect::<Vec<_>>()
    );
}

fn node(id: &str, label: &str, file: &str, loc: &str, uuid: &str, fp: &str, key: &str, body: &str) -> Node {
    Node {
        id: id.into(),
        label: label.into(),
        file_type: FileType::Code,
        source_file: file.into(),
        source_location: Some(loc.into()),
        confidence: Some(Confidence::EXTRACTED),
        community: None,
        norm_label: None,
        degree: None,
        uuid: Some(uuid.into()),
        fingerprint: Some(fp.into()),
        logical_key: Some(key.into()),
        body_hash: Some(body.into()),
    }
}

#[test]
fn test_knowledge_graph_scenario() {
    let mut extraction = ExtractionResult::empty();
    extraction.nodes = vec![
        node("auth_handler", "AuthHandler", "project/auth.py", "L10", "node-auth", "fp-auth", "project/auth.py::AuthHandler", "abcd1234"),
        node("user_repo", "UserRepo", "project/repo.py", "L5", "node-repo", "fp-repo", "project/repo.py::UserRepo", "efgh5678"),
    ];
    extraction.edges = vec![Edge {
        source: "auth_handler".into(),
        target: "user_repo".into(),
        relation: "calls".into(),
        confidence: Confidence::EXTRACTED,
        source_file: "project/auth.py".into(),
        source_location: Some("L15".into()),
        confidence_score_bits: Some(1.0f64.to_bits()),
        weight_bits: WEIGHT_ONE_BITS,
        original_src: None,
        original_tgt: None,
    }];
    let mut db = KodexData { extraction, knowledge: vec![], links: vec![], review_queue: vec![] };
    let k1 = learn_new(
        &mut db,
        KnowledgeType::Pattern,
        "Repository Pattern",
        "All data access through repo classes",
        Some(&strs(&["node-repo"])),
        &["architecture"],
    );
    let k2 = learn_with_uuid(
        &mut db,
        None,
        &KnowledgeType::Decision,
        "JWT Auth",
        "Chose JWT for stateless auth",
        Some(&strs(&["node-auth"])),
        &strs(&["auth"]),
        Some(&k1),
        &[],
    )
    .unwrap()
    .0;
    let k3 = learn_with_uuid(
        &mut db,
        None,
        &KnowledgeType::Convention,
        "Always validate tokens",
        "Every endpoint must validate",
        Some(&strs(&["node-auth"])),
        &[],
        Some(&k2),
        &[],
    )
    .unwrap()
    .0;
    link_knowledge_to_knowledge(&mut db, &k1, &k2, "supports", true).unwrap();

    let chain = thought_chain(&db, &k2);
    assert_eq!(chain.len(), 3, "Chain should have 3 steps");
    assert_eq!(chain[0].title, "Repository Pattern");
    assert_eq!(chain[2].title, "Always validate tokens");

    let all = query_knowledge(&db, "", None);
    for item in &all {
        for r in &item.related_nodes {
            assert!(r.starts_with("node-"), "related_nodes should be node UUIDs, got: {r}");
        }
    }

    let graph_nodes = traverse_knowledge_graph(&db, Some(&k1), 2);
    assert!(graph_nodes.len() >= 2, "Should reach k2 from k1 within 2 hops");
    let k1_node = graph_nodes.iter().find(|n| n.uuid == k1).unwrap();
    assert!(!k1_node.links_out.is_empty(), "k1 should have outgoing knowledge links");
    assert!(!k1_node.node_links.is_empty(), "k1 should have node links");
    assert_eq!(k1_node.node_links[0].target_title, "UserRepo");

    let stale = detect_stale_knowledge(&mut db);
    assert_eq!(stale, 0, "No stale knowledge when all nodes exist");
    db.extraction.nodes.retain(|n| n.uuid.as_deref() != Some("node-auth"));
    let stale = detect_stale_knowledge(&mut db);
    assert!(stale >= 1, "Should detect stale knowledge after node deletion");
    let k1_entry = query_knowledge(&db, "Repository Pattern", None);
    assert!(!k1_entry.is_empty());

    let mut updates = KnowledgeUpdates::none();
    updates.status = Some("active".into());
    updates.applies_when = Some("any endpoint modification".into());
    updates.validate = true;
    update_knowledge(&mut db, &k3, &updates).unwrap();
    let k3_entry = db.knowledge.iter().find(|k| k.uuid == k3).unwrap();
    assert_eq!(k3_entry.status, "active");
    assert_eq!(k3_entry.applies_when, "any endpoint modification");
    assert!(k3_entry.last_validated_at > 0);

    assert!(remove_link(&mut db, &k1, &k2, Some("supports")));
    let neighbors = knowledge_neighbors(&db, &k1);
    let support_links: Vec<_> = neighbors.iter().filter(|(_, r, _)| r == "supports").collect();
    assert!(support_links.is_empty(), "supports link should be removed");
    let chain_after = thought_chain(&db, &k1);
    assert!(chain_after.len() >= 2, "Chain should survive supports link removal");

    let pct: Vec<u32> = graph_nodes.iter().map(|n| (f64::from_bits(n.confidence_bits) * 100.0) as u32).collect();
    let graph_md = render_knowledge_graph(&graph_nodes, &pct);
    assert!(graph_md.contains("Knowledge Graph"));
}

fn kedge(uuid: &str, title: &str, rel: &str) -> KnowledgeGraphEdge {
    KnowledgeGraphEdge { target_uuid: uuid.into(), target_title: title.into(), relation: rel.into() }
}

#[test]
fn knowledge_graph_markdown() {
    assert_eq!(render_knowledge_graph(&vec![], &vec![]), "No knowledge in graph.");
    let nodes = vec![KnowledgeGraphNode {
        uuid: "k1".into(),
        title: "Repo".into(),
        knowledge_type: "pattern".into(),
        confidence_bits: 0.6f64.to_bits(),
        status: "active".into(),
        links_out: vec![kedge("k2", "JWT", "supports")],
        links_in: vec![kedge("k3", "Tokens", "leads_to")],
        node_links: vec![kedge("n1", "UserRepo", "related_to"), kedge("n2", "Db", "related_to")],
    }];
    assert_eq!(
        render_knowledge_graph(&nodes, &vec![60]),
        "## Knowledge Graph (1 entries)\n\n### Repo (pattern, 60%)\n  \u{2192} supports **JWT**\n  \u{2190} leads_to **Tokens**\n  code: UserRepo, Db\n\n"
    );
}
