use kodex::graph::KodexGraph;
use kodex::sync::vault_user_links;
use kodex::types::{Confidence, Edge, FileType, Node};

fn node(id: &str, label: &str) -> Node {
    Node {
        id: id.into(),
        label: label.into(),
        file_type: FileType::Code,
        source_file: "a.rs".into(),
        source_location: None,
        confidence: Some(Confidence::EXTRACTED),
        community: None,
        norm_label: None,
        degree: None,
        uuid: None,
        fingerprint: None,
        logical_key: None,
        body_hash: None,
    }
}

fn notes() -> Vec<(String, String)> {
    vec![
        ("Alpha".to_string(), "see [[Beta]] and [[Alpha]] and [[_COMMUNITY_x]] and [[Nowhere]]".to_string()),
        ("index".to_string(), "[[Beta]]".to_string()),
        ("_COMMUNITY_c".to_string(), "[[Alpha]]".to_string()),
        ("Beta".to_string(), "back to [[Alpha|the first]]".to_string()),
    ]
}

#[test]
fn user_links_found_in_notes() {
    let g = KodexGraph { nodes: vec![node("alpha_id", "Alpha"), node("beta_id", "Beta")], edges: vec![] };
    let links = vault_user_links(&g, &notes());
    assert_eq!(
        links,
        vec![("alpha_id".to_string(), "beta_id".to_string()), ("beta_id".to_string(), "alpha_id".to_string())]
    );
}

#[test]
fn known_edges_are_not_repeated() {
    let e = Edge {
        source: "beta_id".into(),
        target: "alpha_id".into(),
        relation: "calls".into(),
        confidence: Confidence::EXTRACTED,
        source_file: "a.rs".into(),
        source_location: None,
        confidence_score_bits: None,
        weight_bits: kodex::types::WEIGHT_ONE_BITS,
        original_src: None,
        original_tgt: None,
    };
    let g = KodexGraph { nodes: vec![node("alpha_id", "Alpha"), node("beta_id", "Beta")], edges: vec![e] };
    assert!(vault_user_links(&g, &notes()).is_empty());
}
