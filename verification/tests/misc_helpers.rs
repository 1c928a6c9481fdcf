use kodex::graph::KodexGraph;
use kodex::types::{Confidence, FileType, Node};
use kodex::misc::{
    add_edge, chrono_free_date, civil_date, date_from_unix_secs, classify_commit, date_text, detect_url_type, find_node_by_filename,
    first_line, global_hooks_dir, hook_with_kodex, hook_without_kodex, is_url, safe_community_name, safe_filename,
    save_note, uninstall,
};
use kodex::paths::{component_count, file_name_of, join_path, starts_with_path};

#[test]
fn url_kinds() {
    assert_eq!(detect_url_type("https://twitter.com/a/status/1"), "tweet");
    assert_eq!(detect_url_type("https://arxiv.org/abs/1234"), "arxiv");
    assert_eq!(detect_url_type("https://GitHub.com/o/r"), "github");
    assert_eq!(detect_url_type("https://youtu.be/xyz"), "youtube");
    assert_eq!(detect_url_type("https://example.com/paper.PDF"), "pdf");
    assert_eq!(detect_url_type("https://example.com/pic.jpeg"), "image");
    assert_eq!(detect_url_type("https://example.com/"), "webpage");
    assert!(is_url("https://x"));
    assert!(is_url("www.example.com"));
    assert!(!is_url("src/main.rs"));
}

#[test]
fn commit_classification() {
    assert_eq!(classify_commit("Merge branch 'main' into dev"), ("", false));
    assert_eq!(classify_commit("fix"), ("", false));
    assert_eq!(classify_commit("Fix crash when parsing empty files"), ("bug_pattern", true));
    assert_eq!(classify_commit("Refactor the storage layer"), ("decision", true));
    assert_eq!(classify_commit("Add support for vault imports"), ("architecture", true));
    assert_eq!(classify_commit("Optimize graph traversal loops"), ("performance", true));
    assert_eq!(classify_commit("Update readme text somewhat"), ("", false));
}

#[test]
fn names_and_lines() {
    assert_eq!(first_line("a\nb"), "a");
    assert_eq!(first_line(""), "");
    assert_eq!(safe_filename("a/b:c d"), "a_b_c_d");
    assert_eq!(safe_community_name("My Notes.md"), "My_Notes");
    assert_eq!(global_hooks_dir("/home/u"), "/home/u/.kodex/git-hooks");
}

#[test]
fn notes_and_edges() {
    let (path, text) = save_note(Some("vault"), "Idea", "body", &["n1".to_string()]);
    assert!(path.starts_with("vault/"));
    assert!(text.contains("body"));
    assert!(text.contains("[[n1]]"));
    let (path, text) = add_edge("a", "b", "calls", None);
    assert!(path.starts_with("kodex-out/vault/_INSIGHT_"));
    assert!(text.contains("[[a]]"));
    assert!(text.contains("[[b]]"));
    assert!(text.contains("pattern: calls"));
}

#[test]
fn uninstall_report() {
    assert_eq!(uninstall(false, "x", "y"), "Not a git repository");
    assert_eq!(uninstall(true, "removed", "absent"), "post-commit: removed\npost-checkout: absent");
}

#[test]
fn dates_from_day_numbers() {
    assert_eq!(date_text(0), "1970-01-01");
    assert_eq!(civil_date(0), (1970, 1, 1));
    assert_eq!(civil_date(59), (1970, 3, 1));
    assert_eq!(date_text(11016), "2000-02-29");
    assert_eq!(date_text(19723), "2024-01-01");
    let today = chrono_free_date().unwrap();
    assert_eq!(today.len(), 10);
    assert!(today.as_str() >= "2024-01-01");
}

#[test]
fn dates_from_unix_seconds() {
    assert_eq!(date_from_unix_secs(0), Some("1970-01-01".to_string()));
    assert_eq!(date_from_unix_secs(86399), Some("1970-01-01".to_string()));
    assert_eq!(date_from_unix_secs(19723 * 86400 + 3600), Some("2024-01-01".to_string()));
    assert_eq!(date_from_unix_secs(u64::MAX), None);
}

#[test]
fn hook_section_added_and_removed() {
    let added = hook_with_kodex("").unwrap();
    assert!(added.starts_with("#!/bin/sh\n"));
    assert!(added.contains("# >>> kodex >>>"));
    assert_eq!(hook_with_kodex(&added), None);
    let (rest, delete) = hook_without_kodex(&added).unwrap();
    assert!(delete);
    assert!(!rest.contains("kodex"));
    let custom = "#!/bin/sh\necho hi\n";
    let with = hook_with_kodex(custom).unwrap();
    let (rest, delete) = hook_without_kodex(&with).unwrap();
    assert!(!delete);
    assert!(rest.contains("echo hi"));
    assert_eq!(hook_without_kodex(custom), None);
}

#[test]
fn path_helpers() {
    assert_eq!(join_path("/a", "b"), "/a/b");
    assert_eq!(join_path("/a/", "b"), "/a/b");
    assert_eq!(join_path("/a", "/b"), "/b");
    assert!(starts_with_path("/a/b/c", "/a/b"));
    assert!(!starts_with_path("/a/bc", "/a/b"));
    assert_eq!(component_count("/a/b/c"), 4);
    assert_eq!(file_name_of("/a/b/c.rs"), Some("c.rs".to_string()));
    assert_eq!(file_name_of("/"), None);
}

#[test]
fn node_by_filename() {
    let n = Node {
        id: "main_rs".into(),
        label: "main.rs".into(),
        file_type: FileType::Code,
        source_file: "src/main.rs".into(),
        source_location: None,
        confidence: Some(Confidence::EXTRACTED),
        community: None,
        norm_label: None,
        degree: None,
        uuid: None,
        fingerprint: None,
        logical_key: None,
        body_hash: None,
    };
    let g = KodexGraph { nodes: vec![n], edges: vec![] };
    assert_eq!(find_node_by_filename(&g, "main.rs"), Some("main_rs".to_string()));
    assert_eq!(find_node_by_filename(&g, "other.rs"), None);
}

#[test]
fn file_type_names_parse_in_any_case() {
    for name in ["code", "document", "paper", "image", "video", "rationale"] {
        let t = kodex::types::FileType::from_str_loose(name).unwrap();
        assert_eq!(t.name(), name);
        assert_eq!(kodex::types::FileType::from_str_loose(&name.to_uppercase()).unwrap().name(), name);
    }
    assert!(kodex::types::FileType::from_str_loose("binary").is_none());
}

#[test]
fn hook_section_round_trip_gives_the_hook_back() {
    let hook = "#!/bin/bash\necho checked";
    let added = hook_with_kodex(hook).unwrap();
    let (rest, delete) = hook_without_kodex(&added).unwrap();
    assert_eq!(rest, "#!/bin/bash\necho checked\n");
    assert!(!delete);
}
