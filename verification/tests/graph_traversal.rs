use kodex::fuzzy::{label_match_indices, score_nodes, score_nodes_filtered};
use kodex::graph::KodexGraph;
use kodex::render::{subgraph_to_mermaid, subgraph_to_text, truncate_utf8};
use kodex::traversal::{bfs, bfs_filtered, communities_from_graph, dfs, top_degree_in_filter, TraversalFilter};
use kodex::types::{Confidence, Edge, FileType, Node};

fn node(id: &str, label: &str, source_file: &str) -> Node {
    Node {
        id: id.into(),
        label: label.into(),
        file_type: FileType::Code,
        source_file: source_file.into(),
        source_location: Some("L1".into()),
        confidence: Some(Confidence::EXTRACTED),
        community: None,
        norm_label: None,
        degree: None,
        uuid: None,
        fingerprint: None,
        logical_key: None,
        body_hash: None,
    }
}

fn edge(source: &str, target: &str, relation: &str, file: &str) -> Edge {
    Edge {
        source: source.into(),
        target: target.into(),
        relation: relation.into(),
        confidence: Confidence::EXTRACTED,
        source_file: file.into(),
        source_location: None,
        confidence_score_bits: None,
        weight_bits: kodex::types::WEIGHT_ONE_BITS,
        original_src: None,
        original_tgt: None,
    }
}

fn graph_with_hub() -> KodexGraph {
    let mut nodes = vec![node("seed", "seed", "domain.rs"), node("hub", "ok", "util.rs")];
    let mut edges = vec![edge("seed", "hub", "calls", "domain.rs")];
    for i in 0..15 {
        nodes.push(node(&format!("noise_{i}"), &format!("noise_{i}"), "util.rs"));
        edges.push(edge("hub", &format!("noise_{i}"), "calls", "util.rs"));
    }
    KodexGraph { nodes, edges }
}

fn small_graph() -> KodexGraph {
    KodexGraph {
        nodes: vec![node("a-mod.foo", "foo()", "a.py"), node("b-mod.bar", "bar()", "b.py")],
        edges: vec![edge("a-mod.foo", "b-mod.bar", "calls", "a.py")],
    }
}

#[test]
fn filter_is_active_detects_constraints() {
    assert!(!TraversalFilter::default().is_active());
    assert!(TraversalFilter { source_pattern: Some("x".into()), ..Default::default() }.is_active());
    assert!(TraversalFilter { community: Some(7), ..Default::default() }.is_active());
    assert!(!TraversalFilter { hub_threshold: Some(50), ..Default::default() }.is_active());
}

#[test]
fn bfs_unfiltered_explodes_through_hub() {
    let g = graph_with_hub();
    let (visited, _) = bfs(&g, &["seed".to_string()], 2);
    assert!(visited.len() >= 16, "should pull in all noise: {visited:?}");
}

#[test]
fn bfs_with_hub_threshold_stops_at_hub() {
    let g = graph_with_hub();
    let filter = TraversalFilter { hub_threshold: Some(5), ..Default::default() };
    let (visited, edges) = bfs_filtered(&g, &["seed".to_string()], 2, &filter);
    assert!(visited.contains(&"seed".to_string()));
    assert!(visited.contains(&"hub".to_string()));
    assert!(!visited.iter().any(|v| v.starts_with("noise_")), "noise leaked: {visited:?}");
    assert_eq!(edges, vec![("seed".to_string(), "hub".to_string())]);
}

#[test]
fn bfs_with_source_pattern_skips_unmatched_files() {
    let g = graph_with_hub();
    let filter = TraversalFilter { source_pattern: Some("domain".into()), ..Default::default() };
    let (visited, _) = bfs_filtered(&g, &["seed".to_string()], 3, &filter);
    assert_eq!(visited, vec!["seed".to_string()]);
}

#[test]
fn bfs_depth_zero_keeps_distinct_starts() {
    let g = graph_with_hub();
    let starts = vec!["seed".to_string(), "seed".to_string(), "ghost".to_string()];
    let (visited, edges) = bfs(&g, &starts, 0);
    assert_eq!(visited, vec!["seed".to_string(), "ghost".to_string()]);
    assert!(edges.is_empty());
}

#[test]
fn dfs_follows_edges_depth_first_once_each() {
    let g = KodexGraph {
        nodes: vec![node("a", "a", "x.rs"), node("b", "b", "x.rs"), node("c", "c", "x.rs"), node("d", "d", "x.rs")],
        edges: vec![edge("a", "b", "calls", "x.rs"), edge("b", "c", "calls", "x.rs"), edge("a", "d", "calls", "x.rs")],
    };
    let (visited, edges) = dfs(&g, &["a".to_string()], 3);
    assert_eq!(visited, vec!["a", "b", "c", "d"]);
    assert_eq!(
        edges,
        vec![
            ("a".to_string(), "b".to_string()),
            ("b".to_string(), "c".to_string()),
            ("a".to_string(), "d".to_string()),
        ]
    );
    let (shallow, _) = dfs(&g, &["a".to_string()], 1);
    assert_eq!(shallow, vec!["a"]);
}

#[test]
fn top_degree_in_filter_returns_high_degree_in_scope() {
    let mut nodes = vec![node("a", "in_scope_hub", "domain.rs"), node("b", "out_of_scope", "other.rs")];
    let mut edges = Vec::new();
    for i in 0..6 {
        nodes.push(node(&format!("u{i}"), &format!("user{i}"), "domain.rs"));
        edges.push(edge("a", &format!("u{i}"), "calls", "domain.rs"));
        edges.push(edge("b", &format!("u{i}"), "calls", "other.rs"));
    }
    let g = KodexGraph { nodes, edges };
    let filter = TraversalFilter { source_pattern: Some("domain".into()), ..Default::default() };
    let top = top_degree_in_filter(&g, &filter, 3);
    assert!(top.contains(&"a".to_string()), "in-scope hub must seed: {top:?}");
    assert!(!top.contains(&"b".to_string()), "out-of-scope must not seed: {top:?}");
    assert_eq!(top[0], "a");
    assert_eq!(top.len(), 3);
}

#[test]
fn source_pattern_ignores_case() {
    let g = KodexGraph { nodes: vec![node("a", "A", "Src/Domain.RS")], edges: vec![] };
    let f = TraversalFilter { source_pattern: Some("domain.rs".into()), ..Default::default() };
    assert!(f.matches_node(&g, "a"));
    assert!(!f.matches_node(&g, "missing"));
    let c = TraversalFilter { community: Some(3), ..Default::default() };
    assert!(!c.matches_node(&g, "a"));
}

#[test]
fn nucleo_ranks_camelcase_boundary_match_above_buried_substring() {
    let g = KodexGraph {
        nodes: vec![node("a", "tickSearch()", "client.cpp"), node("b", "internal_tickSearchCallback()", "client.cpp")],
        edges: vec![],
    };
    let scored = score_nodes(&g, &["ticksearch".into()]);
    assert!(!scored.is_empty());
    assert_eq!(scored[0].1, "a");
}

#[test]
fn empty_terms_returns_empty() {
    let g = small_graph();
    assert!(score_nodes(&g, &[]).is_empty());
    let f = TraversalFilter { source_pattern: Some("b.py".into()), ..Default::default() };
    let scored = score_nodes_filtered(&g, &["foo".into()], &f);
    assert!(scored.iter().all(|(_, id)| id == "b-mod.bar"));
}

#[test]
fn label_match_indices_marks_matched_chars() {
    assert_eq!(label_match_indices("close_file", "close"), vec![0, 1, 2, 3, 4]);
}

#[test]
fn label_match_indices_empty_query_returns_empty() {
    assert!(label_match_indices("anything", "").is_empty());
}

#[test]
fn test_subgraph_to_mermaid_renders_flowchart() {
    let graph = small_graph();
    let nodes = vec!["a-mod.foo".to_string(), "b-mod.bar".to_string()];
    let edges = vec![("a-mod.foo".to_string(), "b-mod.bar".to_string())];
    let out = subgraph_to_mermaid(&graph, &nodes, &edges);
    assert!(out.starts_with("flowchart LR"));
    assert!(out.contains("foo()"));
    assert!(out.contains("bar()"));
    assert!(out.contains("|calls|"));
    assert_eq!(
        out,
        "flowchart LR\n    a_mod_foo[\"foo()\"]\n    b_mod_bar[\"bar()\"]\n    a_mod_foo -->|calls| b_mod_bar"
    );
    let digits = subgraph_to_mermaid(&graph, &vec!["9lives".to_string()], &[]);
    assert_eq!(digits, "flowchart LR\n    n_9lives[\"9lives\"]");
}

#[test]
fn subgraph_to_text_lists_and_truncates() {
    let graph = small_graph();
    let nodes = vec!["a-mod.foo".to_string(), "b-mod.bar".to_string(), "ghost".to_string()];
    let full = subgraph_to_text(&graph, &nodes, &[], 1000);
    assert_eq!(
        full,
        "NODE foo() src=a.py loc=L1\nNODE bar() src=b.py loc=L1\nEDGE foo() --calls--> bar() [EXTRACTED]"
    );
    let cut = subgraph_to_text(&graph, &nodes, &[], 2);
    assert_eq!(cut, "NODE foo");
    assert_eq!(truncate_utf8("aé😀b", 3), "aé");
    assert_eq!(truncate_utf8("aé😀b", 7), "aé😀");
}

#[test]
fn communities_group_nodes_in_order() {
    let mut a = node("a", "a", "x");
    a.community = Some(2);
    let b = node("b", "b", "x");
    let mut c = node("c", "c", "x");
    c.community = Some(2);
    let g = KodexGraph { nodes: vec![a, b, c], edges: vec![] };
    let comms = communities_from_graph(&g);
    assert_eq!(comms, vec![(2, vec!["a".to_string(), "c".to_string()]), (0, vec!["b".to_string()])]);
}

#[test]
fn neighbours_and_degree_are_undirected() {
    let g = graph_with_hub();
    assert_eq!(g.degree("hub"), 16);
    assert_eq!(g.neighbors("seed"), vec!["hub".to_string()]);
    assert_eq!(g.neighbors("hub")[0], "seed");
    assert!(g.get_node("nope").is_none());
}
