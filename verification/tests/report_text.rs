use kodex::graph::KodexGraph;
use kodex::report::{report_markdown, Community, CorpusFacts, GodNode, HyperedgeLine};
use kodex::types::{Confidence, Edge, FileType, Node};

fn node(id: &str, label: &str) -> Node {
    Node {
        id: id.into(),
        label: label.into(),
        file_type: FileType::Code,
        source_file: "f.rs".into(),
        source_location: None,
        confidence: None,
        community: None,
        norm_label: None,
        degree: None,
        uuid: None,
        fingerprint: None,
        logical_key: None,
        body_hash: None,
    }
}

fn edge(a: &str, b: &str, c: Confidence, file: &str, rel: &str) -> Edge {
    Edge {
        source: a.into(),
        target: b.into(),
        relation: rel.into(),
        confidence: c,
        source_file: file.into(),
        source_location: None,
        confidence_score_bits: None,
        weight_bits: kodex::types::WEIGHT_ONE_BITS,
        original_src: None,
        original_tgt: None,
    }
}

#[test]
fn report_of_a_small_graph() {
    let g = KodexGraph {
        nodes: vec![node("a", "A"), node("b", "B")],
        edges: vec![
            edge("a", "b", Confidence::EXTRACTED, "f.rs", "calls"),
            edge("b", "a", Confidence::AMBIGUOUS, "g.rs", "uses"),
        ],
    };
    // Given out of order: the report lists communities by id.
    let communities = vec![
        Community { id: 1, nodes: vec!["b".into()], label: None, cohesion_centi: None },
        Community { id: 0, nodes: vec!["a".into(), "b".into()], label: Some("Core".into()), cohesion_centi: Some(50) },
    ];
    let gods = vec![GodNode { label: "A".into(), degree: 2 }];
    let hyper = vec![HyperedgeLine { label: "H".into(), nodes: vec!["a".into(), "b".into()], score_centi: Some(75) }];
    let corpus = CorpusFacts { total_files: 3, total_words: 100, warning: None };
    let text = report_markdown(
        &g,
        "/p",
        "2024-01-01",
        &corpus,
        communities,
        &gods,
        &vec![],
        &hyper,
        &vec![],
        &Some(vec!["Why?".to_string()]),
        0,
        10,
        20,
    );
    let expected = [
        "# Graph Report - /p  (2024-01-01)\n\n",
        "## Corpus Check\n\n- 3 files \u{00b7} ~100 words\n\n",
        "## Summary\n\n- 2 nodes \u{00b7} 2 edges \u{00b7} 2 communities detected\n",
        "- Extraction: 50% EXTRACTED \u{00b7} 0% INFERRED \u{00b7} 50% AMBIGUOUS\n",
        "- Token cost: 10 input \u{00b7} 20 output\n\n",
        "## Community Hubs\n\n- [[_COMMUNITY_Core|Core]]\n- [[_COMMUNITY_Community_1|Community 1]]\n\n",
        "## God Nodes (most connected)\n\n1. `A` - 2 edges\n\n",
        "## Hyperedges\n\n- **H** \u{2014} a, b [0.75]\n\n",
        "## Communities\n\n### Community 0 - \"Core\"\n\nCohesion: 0.50\nNodes (2): A, B\n\n",
        "### Community 1 - \"Community 1\"\n\nCohesion: 0.00\nNodes (1): B\n\n",
        "## Ambiguous Edges - Review These\n\n- `B` \u{2192} `A` [AMBIGUOUS]\n  g.rs \u{00b7} relation: uses\n\n",
        "## Knowledge Gaps\n\n- Thin community `Core` (2 nodes)\n- Thin community `Community 1` (1 nodes)\n",
        "- High ambiguity: 50% of edges are AMBIGUOUS\n\n",
        "## Suggested Questions\n\n- **Why?**\n\n",
    ]
    .concat();
    assert_eq!(text, expected);
}

#[test]
fn report_with_inferred_edges_and_isolated_nodes() {
    let g = KodexGraph {
        nodes: vec![node("a", "A")],
        edges: vec![
            edge("a", "x", Confidence::INFERRED, "f.rs", "r"),
            edge("a", "a", Confidence::EXTRACTED, "f.rs", "r"),
            edge("a", "a", Confidence::EXTRACTED, "f.rs", "r"),
        ],
    };
    let isolated: Vec<String> = (0..12).map(|i| format!("n{i}")).collect();
    let corpus = CorpusFacts { total_files: 1, total_words: 5, warning: Some("small corpus".into()) };
    let text = report_markdown(&g, "r", "d", &corpus, vec![], &vec![], &vec![], &vec![], &isolated, &None, 85, 0, 0);
    assert!(text.contains("- \u{26a0}\u{fe0f} small corpus\n"));
    assert!(text.contains("- Extraction: 67% EXTRACTED \u{00b7} 33% INFERRED \u{00b7} 0% AMBIGUOUS\n"));
    assert!(text.contains("- INFERRED: 1 edges (avg confidence: 0.85)\n"));
    assert!(text.contains("- 12 isolated node(s): n0, n1, n2, n3, n4, n5, n6, n7, n8, n9 +2 more\n"));
    assert!(!text.contains("Suggested Questions"));
}

#[test]
fn communities_are_sorted_by_id() {
    let cs = vec![
        Community { id: 7, nodes: vec![], label: None, cohesion_centi: None },
        Community { id: 2, nodes: vec![], label: None, cohesion_centi: None },
        Community { id: 5, nodes: vec![], label: None, cohesion_centi: None },
    ];
    let ids: Vec<u64> = kodex::report::sort_communities(cs).iter().map(|c| c.id).collect();
    assert_eq!(ids, vec![2, 5, 7]);
}
