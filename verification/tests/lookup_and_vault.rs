use kodex::registry::{drift, entry_for_dir, global_db, list, register_at, ProjectEntry, Registry};
use kodex::source_lookup::{parse_line_number, read_snippet_text, resolve_source_path, snippet_for, source_path_candidates};
use kodex::types::Confidence;
use kodex::vault::{
    extract_frontmatter_field, extract_title, graph_from_vault, inject_frontmatter_field, parse_connections,
    parse_frontmatter, parse_frontmatter_and_body, VaultFile,
};

#[test]
fn parses_line_number_variants() {
    assert_eq!(parse_line_number("L42"), Some(42));
    assert_eq!(parse_line_number("42"), Some(42));
    assert_eq!(parse_line_number("L100-L105"), Some(100));
    assert_eq!(parse_line_number("  L7  "), Some(7));
    assert_eq!(parse_line_number(""), None);
    assert_eq!(parse_line_number("not-a-number"), None);
}

#[test]
fn snippet_around_a_line() {
    let text = "one\ntwo  \nthree\nfour\nfive";
    assert_eq!(read_snippet_text(text, 3, 1, 1), Some("two\nthree\nfour".to_string()));
    assert_eq!(read_snippet_text(text, 1, 5, 0), Some("one".to_string()));
    assert_eq!(read_snippet_text(text, 5, 0, 9), Some("five".to_string()));
    assert_eq!(read_snippet_text(text, 0, 1, 1), None);
    assert_eq!(read_snippet_text(text, 6, 1, 1), None);
    assert_eq!(snippet_for(Some(text), Some("L2"), 0, 0), Some("two".to_string()));
    assert_eq!(snippet_for(None, Some("L2"), 0, 0), None);
    assert_eq!(snippet_for(Some(text), None, 0, 0), None);
}

#[test]
fn registry_register_and_lookup() {
    let mut reg = Registry::new();
    let key = register_at(&mut reg, "/home/u/proj", Some("abc".into()), 10);
    assert_eq!(key, "proj");
    let e = entry_for_dir(&reg, "/home/u/proj").unwrap();
    assert_eq!(e.path, "/home/u/proj");
    assert_eq!(e.last_run, 10);
    assert_eq!(e.last_indexed_commit.as_deref(), Some("abc"));
    register_at(&mut reg, "/home/u/proj", None, 20);
    assert_eq!(list(&reg).len(), 1);
    assert_eq!(entry_for_dir(&reg, "/home/u/proj").unwrap().last_run, 20);
    assert!(entry_for_dir(&reg, "/elsewhere").is_none());
    assert_eq!(global_db("/home/u"), "/home/u/.kodex/kodex.db");
}

#[test]
fn drift_reports_new_head() {
    let e = ProjectEntry { path: "/p".into(), last_run: 0, last_indexed_commit: Some("aaa".into()) };
    assert_eq!(drift(&e, Some("bbb")), Some("bbb".to_string()));
    assert_eq!(drift(&e, Some("aaa")), None);
    assert_eq!(drift(&e, None), None);
    let none = ProjectEntry { path: "/p".into(), last_run: 0, last_indexed_commit: None };
    assert_eq!(drift(&none, Some("bbb")), None);
}

#[test]
fn source_paths_through_registry() {
    let mut reg = Registry::new();
    register_at(&mut reg, "/work/app", None, 1);
    let c = source_path_candidates("app/src/main.rs", &reg);
    assert_eq!(c, vec!["/work/app/src/main.rs".to_string(), "/work/app/app/src/main.rs".to_string()]);
    assert_eq!(source_path_candidates("/abs/x.rs", &reg), vec!["/abs/x.rs".to_string()]);
    let existing = vec!["/work/app/app/src/main.rs".to_string()];
    assert_eq!(resolve_source_path("app/src/main.rs", &reg, &existing), Some("/work/app/app/src/main.rs".to_string()));
    assert_eq!(resolve_source_path("other/x.rs", &reg, &existing), None);
}

#[test]
fn test_parse_frontmatter() {
    let content = "---\nid: foo\nfile_type: code\nsource_file: foo.py\n---\n# Foo\n";
    let fm = parse_frontmatter(content);
    assert_eq!(fm.get("id").unwrap(), "foo");
    assert_eq!(fm.get("file_type").unwrap(), "code");
}

#[test]
fn test_extract_title() {
    assert_eq!(extract_title("---\n---\n# Hello\nBody"), Some("Hello".to_string()));
    assert_eq!(extract_title("No heading"), None);
}

#[test]
fn frontmatter_fields_read_and_write() {
    let content = "---\ntitle: \"Quoted\"\nstatus: active\n---\nbody text\n";
    assert_eq!(extract_frontmatter_field(content, "title"), Some("Quoted".to_string()));
    assert_eq!(extract_frontmatter_field(content, "missing"), None);
    let (fm, body) = parse_frontmatter_and_body(content);
    assert_eq!(fm.get("status").unwrap(), "active");
    assert!(body.contains("body text"));
    let injected = inject_frontmatter_field(content, "owner", "me");
    assert_eq!(extract_frontmatter_field(&injected, "owner"), Some("me".to_string()));
    assert!(parse_frontmatter("no front matter").get("id").is_none());
}

#[test]
fn connections_section_gives_edges() {
    let content = "# A\n\n## Connections\n- [[B]] - calls [INFERRED]\n- [[C|see]] - uses [EXTRACTED]\n- [[Missing]] - uses [EXTRACTED]\n## Other\n- [[B]] - later [AMBIGUOUS]\n";
    let names = vec![("B".to_string(), "b_id".to_string()), ("C".to_string(), "c_id".to_string())];
    let conns = parse_connections(content, &names);
    assert_eq!(conns.len(), 2);
    assert_eq!(conns[0].0, "b_id");
    assert_eq!(conns[0].1, "calls");
    assert!(matches!(conns[0].2, Confidence::INFERRED));
    assert_eq!(conns[1].0, "c_id");
    assert!(matches!(conns[1].2, Confidence::EXTRACTED));
}

#[test]
fn vault_round_trip_builds_graph() {
    let files = vec![
        VaultFile {
            path: "v/Alpha.md".into(),
            stem: "Alpha".into(),
            content: Some("---\nid: alpha\nfile_type: code\nsource_file: a.rs\n---\n# Alpha\nSee [[Beta]] and [[Beta]].\n".into()),
        },
        VaultFile {
            path: "v/Beta.md".into(),
            stem: "Beta".into(),
            content: Some("---\nid: beta\nfile_type: document\n---\n# Beta\n".into()),
        },
        VaultFile { path: "v/index.md".into(), stem: "index".into(), content: Some("[[Alpha]]".into()) },
        VaultFile { path: "v/Gone.md".into(), stem: "Gone".into(), content: None },
    ];
    let g = graph_from_vault(&files);
    assert_eq!(g.nodes.len(), 2);
    assert_eq!(g.nodes[0].id, "alpha");
    assert_eq!(g.nodes[0].label, "Alpha");
    assert_eq!(g.nodes[0].source_file, "a.rs");
    assert_eq!(g.nodes[1].id, "beta");
    assert_eq!(g.edges.len(), 1);
    assert_eq!(g.edges[0].source, "alpha");
    assert_eq!(g.edges[0].target, "beta");
    assert_eq!(g.edges[0].relation, "linked");
    assert_eq!(g.edges[0].source_file, "v/Alpha.md");
}

#[test]
fn injected_field_is_extracted_back() {
    let plain = kodex::vault::inject_frontmatter_field("Body text\n", "uuid", "abc-1");
    assert_eq!(kodex::vault::extract_frontmatter_field(&plain, "uuid"), Some("abc-1".to_string()));
    let with_fm = "---\ntitle: T\ntags: x\n---\n\nBody";
    let injected = kodex::vault::inject_frontmatter_field(with_fm, "uuid", "abc-2");
    assert_eq!(kodex::vault::extract_frontmatter_field(&injected, "uuid"), Some("abc-2".to_string()));
    assert_eq!(kodex::vault::extract_frontmatter_field(&injected, "title"), Some("T".to_string()));
}
