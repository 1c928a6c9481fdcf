use kodex::schema::{assert_valid, validate_extraction, Json};
use kodex::types::KodexError;

fn s(x: &str) -> Json {
    Json::Str(x.into())
}

fn obj(fields: Vec<(&str, Json)>) -> Json {
    Json::Object(fields.into_iter().map(|(k, v)| (k.to_string(), v)).collect())
}

fn node(id: &str, file_type: &str) -> Json {
    obj(vec![("id", s(id)), ("label", s("A")), ("file_type", s(file_type)), ("source_file", s("a.py"))])
}

fn edge(source: &str, target: &str, confidence: &str) -> Json {
    obj(vec![
        ("source", s(source)),
        ("target", s(target)),
        ("relation", s("r")),
        ("confidence", s(confidence)),
        ("source_file", s("a.py")),
    ])
}

#[test]
fn test_valid_extraction() {
    let data = obj(vec![
        (
            "nodes",
            Json::Array(vec![obj(vec![
                ("id", s("foo")),
                ("label", s("Foo")),
                ("file_type", s("code")),
                ("source_file", s("foo.py")),
            ])]),
        ),
        (
            "edges",
            Json::Array(vec![obj(vec![
                ("source", s("foo")),
                ("target", s("foo")),
                ("relation", s("contains")),
                ("confidence", s("EXTRACTED")),
                ("source_file", s("foo.py")),
            ])]),
        ),
    ]);
    assert!(validate_extraction(&data).is_empty());
}

#[test]
fn test_missing_nodes() {
    let data = obj(vec![("edges", Json::Array(vec![]))]);
    let errs = validate_extraction(&data);
    assert!(errs.iter().any(|e| e.contains("Missing required key 'nodes'")));
}

#[test]
fn test_invalid_file_type() {
    let data = obj(vec![("nodes", Json::Array(vec![node("a", "unknown")])), ("edges", Json::Array(vec![]))]);
    let errs = validate_extraction(&data);
    assert!(errs.iter().any(|e| e.contains("invalid file_type")));
}

#[test]
fn test_invalid_confidence() {
    let data = obj(vec![
        ("nodes", Json::Array(vec![node("a", "code")])),
        ("edges", Json::Array(vec![edge("a", "a", "BAD")])),
    ]);
    let errs = validate_extraction(&data);
    assert!(errs.iter().any(|e| e.contains("invalid confidence")));
}

#[test]
fn test_dangling_edge() {
    let data = obj(vec![
        ("nodes", Json::Array(vec![node("a", "code")])),
        ("edges", Json::Array(vec![edge("a", "missing", "EXTRACTED")])),
    ]);
    let errs = validate_extraction(&data);
    assert!(errs.iter().any(|e| e.contains("does not match any node id")));
}

#[test]
fn test_links_fallback() {
    let data = obj(vec![
        ("nodes", Json::Array(vec![node("a", "code")])),
        ("links", Json::Array(vec![edge("a", "a", "EXTRACTED")])),
    ]);
    assert!(validate_extraction(&data).is_empty());
}

#[test]
fn exact_messages() {
    assert_eq!(validate_extraction(&Json::Null), vec!["Extraction must be a JSON object".to_string()]);
    let data = obj(vec![
        ("nodes", Json::Array(vec![s("x"), obj(vec![("label", s("L")), ("file_type", s("blob"))])])),
        ("edges", Json::Bool(true)),
    ]);
    assert_eq!(
        validate_extraction(&data),
        vec![
            "Node 0 must be an object".to_string(),
            "Node 1 (id=\"?\") missing required field 'id'".to_string(),
            "Node 1 (id=\"?\") missing required field 'source_file'".to_string(),
            "Node 1 (id=\"?\") has invalid file_type 'blob' - must be one of [\"code\", \"document\", \"image\", \"paper\", \"rationale\", \"video\"]".to_string(),
            "'edges' must be a list".to_string(),
        ]
    );
    let data = obj(vec![
        ("nodes", Json::Array(vec![node("a\"b", "code")])),
        ("edges", Json::Array(vec![Json::Number("3".into()), obj(vec![("source", s("zz"))])])),
    ]);
    assert_eq!(
        validate_extraction(&data),
        vec![
            "Edge 0 must be an object".to_string(),
            "Edge 1 missing required field 'target'".to_string(),
            "Edge 1 missing required field 'relation'".to_string(),
            "Edge 1 missing required field 'confidence'".to_string(),
            "Edge 1 missing required field 'source_file'".to_string(),
            "Edge 1 source 'zz' does not match any node id".to_string(),
        ]
    );
    let no_edges = obj(vec![("nodes", Json::Array(vec![node("a\"b", "image")]))]);
    assert_eq!(validate_extraction(&no_edges), vec!["Missing required key 'edges'".to_string()]);
    let bad_id = obj(vec![
        ("nodes", Json::Array(vec![obj(vec![("id", s("q\"t")), ("label", s("L")), ("source_file", s("f"))])])),
        ("edges", Json::Array(vec![])),
    ]);
    assert_eq!(
        validate_extraction(&bad_id),
        vec!["Node 0 (id=\"q\\\"t\") missing required field 'file_type'".to_string()]
    );
}

#[test]
fn assert_valid_lists_errors() {
    let ok = obj(vec![("nodes", Json::Array(vec![])), ("edges", Json::Array(vec![]))]);
    assert!(assert_valid(&ok).is_ok());
    let bad = obj(vec![("nodes", Json::Null)]);
    match assert_valid(&bad) {
        Err(KodexError::Validation(m)) => assert_eq!(
            m,
            "Extraction JSON has 2 error(s):\n  \u{2022} 'nodes' must be a list\n  \u{2022} Missing required key 'edges'"
        ),
        other => panic!("unexpected {other:?}"),
    }
}
