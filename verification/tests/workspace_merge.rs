use kodex::types::{Confidence, ExtractionResult, FileType, Node};
use kodex::workspace::cross_project_edges;

fn node(id: &str, label: &str) -> Node {
    Node {
        id: id.into(),
        label: label.into(),
        file_type: FileType::Code,
        source_file: "f.rs".into(),
        source_location: None,
        confidence: None,
        community: None,
        norm_label: None,
        degree: None,
        uuid: None,
        fingerprint: None,
        logical_key: None,
        body_hash: None,
    }
}

fn project(name: &str, nodes: Vec<Node>) -> (String, ExtractionResult) {
    let mut x = ExtractionResult::empty();
    x.nodes = nodes;
    (name.to_string(), x)
}

#[test]
fn shared_names_are_joined_across_projects() {
    let ps = vec![
        project("a", vec![node("a1", "Config"), node("a2", "parse()"), node("a3", "main.rs")]),
        project("b", vec![node("b1", "Config"), node("b2", "parse()")]),
        project("c", vec![node("c1", "Config"), node("c2", "Other")]),
    ];
    let es = cross_project_edges(&ps);
    assert_eq!(es.len(), 2);
    assert_eq!((es[0].source.as_str(), es[0].target.as_str()), ("a1", "b1"));
    assert_eq!(es[0].source_file, "a \u{2194} b");
    assert_eq!((es[1].source.as_str(), es[1].target.as_str()), ("a1", "c1"));
    assert_eq!(es[1].source_file, "a \u{2194} c");
    assert_eq!(es[1].relation, "shared_across_projects");
    assert!(matches!(es[1].confidence, Confidence::INFERRED));
    assert_eq!(es[1].weight_bits, 0.7f64.to_bits());
    assert_eq!(es[1].confidence_score_bits, Some(0.7f64.to_bits()));
}
