//! Fuzzy ranking of graph nodes against a query, through nucleo-matcher.
use vstd::prelude::*;

use nucleo_matcher::pattern::{CaseMatching, Normalization, Pattern};
use nucleo_matcher::{Config, Matcher, Utf32Str};

use crate::graph::KodexGraph;
use crate::text::join_with;
use crate::traversal::TraversalFilter;
use crate::types::strings_view;

verus! {

/// What nucleo-matcher gives for `query` against `text`: the pattern parsed
/// with smart case matching and smart normalisation, matched with the default
/// configuration, or the path configuration when `paths`.
pub uninterp spec fn fuzzy_score(query: Seq<char>, text: Seq<char>, paths: bool) -> Option<u32>;

/// What nucleo-matcher's `Pattern::indices` appends for `query` against `text`
/// with the default configuration: the matched character positions.
pub uninterp spec fn fuzzy_indices(query: Seq<char>, text: Seq<char>) -> Seq<u32>;

/// nucleo-matcher's `Pattern::score` for `query` against `text`. The score is
/// a function of the query, the text and the configuration; the contract names
/// it and claims nothing more. A pattern sums one `u16` per query word into a
/// `u32`, so the query length is bounded to keep that sum from overflowing.
#[verifier::external_body]
fn score_text(query: &str, text: &str, paths: bool) -> (r: Option<u32>)
    requires
        query@.len() < 131072,
    ensures
        r == fuzzy_score(query@, text@, paths),
{
    let pattern = Pattern::parse(query, CaseMatching::Smart, Normalization::Smart);
    let config = if paths { Config::DEFAULT.match_paths() } else { Config::DEFAULT };
    let mut matcher = Matcher::new(config);
    let mut buf: Vec<char> = Vec::new();
    pattern.score(Utf32Str::new(text, &mut buf), &mut matcher)
}

/// nucleo-matcher's `Pattern::indices` for `query` against `text` with the
/// default configuration: the match positions it appends to an empty list.
/// Named, with nothing more claimed.
#[verifier::external_body]
fn match_indices(query: &str, text: &str) -> (r: Vec<u32>)
    requires
        query@.len() < 131072,
    ensures
        r@ == fuzzy_indices(query@, text@),
{
    let pattern = Pattern::parse(query, CaseMatching::Smart, Normalization::Smart);
    let mut matcher = Matcher::new(Config::DEFAULT);
    let mut buf: Vec<char> = Vec::new();
    let mut indices: Vec<u32> = Vec::new();
    pattern.indices(Utf32Str::new(text, &mut buf), &mut matcher, &mut indices);
    indices
}

/// A score, 0 for no match.
pub open spec fn or_zero(o: Option<u32>) -> int {
    match o {
        Some(v) => v as int,
        None => 0,
    }
}

/// The rank of node `id` for the query `q`: twice its label score plus
/// its path score and its logical-key score.
pub open spec fn node_total(g: &KodexGraph, q: Seq<char>, id: Seq<char>) -> int {
    let n = g.nodes@[g.spec_node_index(id)];
    2 * or_zero(fuzzy_score(q, n.label@, false)) + or_zero(fuzzy_score(q, n.source_file@, true))
        + match n.logical_key {
        Some(k) => or_zero(fuzzy_score(q, k@, true)),
        None => 0,
    }
}

/// The nodes that pass the filter and score above 0, in node order.
pub open spec fn score_candidates(g: &KodexGraph, f: &TraversalFilter, q: Seq<char>) -> Seq<Seq<char>> {
    g.spec_ids().filter(|id: Seq<char>| f.spec_matches(g, id) && node_total(g, q, id) > 0)
}

/// The ranks of a list of nodes, as sort keys.
pub open spec fn total_keys(g: &KodexGraph, q: Seq<char>, c: Seq<Seq<char>>) -> Seq<u128> {
    Seq::new(c.len(), |i: int| node_total(g, q, c[i]) as u128)
}

/// `r` ranks the candidates for the query `q` by descending rank, ties in
/// node order, each with its rank.
pub open spec fn ranked(g: &KodexGraph, f: &TraversalFilter, q: Seq<char>, r: Seq<(u64, String)>) -> bool {
    let c = score_candidates(g, f, q);
    exists|ord: Seq<usize>|
        #[trigger] crate::sort::stable_desc_order(total_keys(g, q, c), ord) && r.len() == c.len()
            && forall|i: int|
            0 <= i < r.len() ==> r[i].1@ == c[ord[i] as int] && r[i].0 == node_total(
                g,
                q,
                c[ord[i] as int],
            )
}

/// The query of a list of search terms: the terms joined by spaces.
pub open spec fn query_of(terms: Seq<String>) -> Seq<char> {
    join_with(strings_view(terms), seq![' '])
}

fn node_rank(g: &KodexGraph, q: &str, i: usize) -> (r: u64)
    requires
        i < g.nodes@.len(),
        q@.len() < 131072,
    ensures
        r as int == 2 * or_zero(fuzzy_score(q@, g.nodes@[i as int].label@, false)) + or_zero(
            fuzzy_score(q@, g.nodes@[i as int].source_file@, true),
        ) + match g.nodes@[i as int].logical_key {
            Some(k) => or_zero(fuzzy_score(q@, k@, true)),
            None => 0,
        },
{
    let node = &g.nodes[i];
    let label = match score_text(q, node.label.as_str(), false) {
        Some(v) => v as u64,
        None => 0,
    };
    let path = match score_text(q, node.source_file.as_str(), true) {
        Some(v) => v as u64,
        None => 0,
    };
    let logical = match &node.logical_key {
        Some(k) => match score_text(q, k.as_str(), true) {
            Some(v) => v as u64,
            None => 0,
        },
        None => 0,
    };
    2 * label + path + logical
}

/// Rank the nodes that pass `filter` by fuzzy matching of the terms (joined
/// by spaces) against their label (weight 2), source file and logical key
/// (path matching, weight 1 each). Nodes scoring 0 are left out; the rest come
/// highest first, ties in node order. No terms give no result.
pub fn score_nodes_filtered(graph: &KodexGraph, terms: &[String], filter: &TraversalFilter) -> (r: Vec<
    (u64, String),
>)
    requires
        query_of(terms@).len() < 131072,
    ensures
        terms@.len() == 0 ==> r@.len() == 0,
        terms@.len() > 0 ==> ranked(graph, filter, query_of(terms@), r@),
{
    if terms.len() == 0 {
        return Vec::new();
    }
    let query = crate::text::join_strings(terms, " ");
    proof {
        reveal_strlit(" ");
        assert(" "@ =~= seq![' ']);
    }
    let ghost q = query@;
    let ghost ids = graph.spec_ids();
    let ghost pred = |id: Seq<char>| filter.spec_matches(graph, id) && node_total(graph, q, id) > 0;
    let mut cand: Vec<String> = Vec::new();
    let mut totals: Vec<u64> = Vec::new();
    let mut keys: Vec<u128> = Vec::new();
    let len = graph.nodes.len();
    for i in 0..len
        invariant
            len == graph.nodes@.len(),
            ids == graph.spec_ids(),
            q == query@,
            q.len() < 131072,
            pred == (|id: Seq<char>| filter.spec_matches(graph, id) && node_total(graph, q, id) > 0),
            strings_view(cand@) == ids.take(i as int).filter(pred),
            keys@ == total_keys(graph, q, strings_view(cand@)),
            totals@.len() == cand@.len(),
            forall|j: int| 0 <= j < totals@.len() ==> totals@[j] as int == node_total(graph, q, strings_view(cand@)[j]),
    {
        let id = &graph.nodes[i].id;
        assert(ids[i as int] == id@);
        proof {
            reveal(Seq::filter);
            assert(ids.take(i + 1).drop_last() =~= ids.take(i as int));
        }
        if filter.matches_node(graph, id.as_str()) {
            let k = match graph.node_index(id.as_str()) {
                Some(k) => k,
                None => {
                    assert(false);
                    0
                },
            };
            let t = node_rank(graph, query.as_str(), k);
            assert(t as int == node_total(graph, q, id@));
            if t > 0 {
                let ghost b = cand@;
                cand.push(id.clone());
                totals.push(t);
                keys.push(t as u128);
                assert(strings_view(cand@) =~= strings_view(b).push(id@));
                assert(keys@ =~= total_keys(graph, q, strings_view(cand@)));
            }
        }
    }
    assert(ids.take(len as int) =~= ids);
    let ghost c = strings_view(cand@);
    assert(c == score_candidates(graph, filter, q));
    let ord = crate::sort::stable_order_desc(&keys);
    let m = cand.len();
    let mut out: Vec<(u64, String)> = Vec::new();
    for i in 0..m
        invariant
            m == cand@.len(),
            c == strings_view(cand@),
            crate::sort::stable_desc_order(keys@, ord@),
            keys@.len() == m,
            totals@.len() == m,
            forall|j: int| 0 <= j < m ==> totals@[j] as int == node_total(graph, q, c[j]),
            out@.len() == i,
            forall|j: int| 0 <= j < i ==> (#[trigger] out@[j]).1@ == c[ord@[j] as int],
            forall|j: int| 0 <= j < i ==> (#[trigger] out@[j]).0 as int == node_total(graph, q, c[ord@[j] as int]),
    {
        let k = ord[i];
        assert(k < m);
        out.push((totals[k], cand[k].clone()));
    }
    assert(crate::sort::stable_desc_order(total_keys(graph, q, c), ord@));
    out
}

/// [`score_nodes_filtered`] without a filter.
pub fn score_nodes(graph: &KodexGraph, terms: &[String]) -> (r: Vec<(u64, String)>)
    requires
        query_of(terms@).len() < 131072,
    ensures
        terms@.len() == 0 ==> r@.len() == 0,
        terms@.len() > 0 ==> exists|f: TraversalFilter|
            f.source_pattern is None && f.community is None && f.hub_threshold is None
                && #[trigger] ranked(graph, &f, query_of(terms@), r@),
{
    let f = TraversalFilter::default();
    score_nodes_filtered(graph, terms, &f)
}

/// `r` is strictly increasing.
pub open spec fn strictly_increasing(r: Seq<u32>) -> bool {
    forall|i: int, j: int| 0 <= i < j < r.len() ==> r[i] < r[j]
}

/// The character positions of `label` that `query` matches, sorted and each
/// once. An empty query matches nothing.
pub fn label_match_indices(label: &str, query: &str) -> (r: Vec<u32>)
    requires
        query@.len() < 131072,
    ensures
        query@.len() == 0 ==> r@.len() == 0,
        query@.len() > 0 ==> strictly_increasing(r@) && r@.to_set() == fuzzy_indices(
            query@,
            label@,
        ).to_set(),
{
    if query.is_empty() {
        return Vec::new();
    }
    let raw = match_indices(query, label);
    let mut out: Vec<u32> = Vec::new();
    let n = raw.len();
    assert(out@.to_set() =~= raw@.take(0).to_set());
    for i in 0..n
        invariant
            n == raw@.len(),
            strictly_increasing(out@),
            out@.to_set() == raw@.take(i as int).to_set(),
    {
        let x = raw[i];
        proof {
            assert(raw@.take(i + 1) =~= raw@.take(i as int).push(x));
            raw@.take(i as int).lemma_push_to_set_commute(x);
        }
        let mut p: usize = 0;
        while p < out.len() && out[p] < x
            invariant
                p <= out@.len(),
                strictly_increasing(out@),
                forall|a: int| 0 <= a < p ==> out@[a] < x,
            decreases out@.len() - p,
        {
            p = p + 1;
        }
        if p < out.len() && out[p] == x {
            assert(out@.to_set().contains(x)) by {
                assert(out@[p as int] == x);
            }
            assert(out@.to_set() =~= raw@.take(i + 1).to_set());
        } else {
            let ghost b = out@;
            out.insert(p, x);
            proof {
                assert(out@ == b.take(p as int).push(x).add(b.skip(p as int)));
                assert forall|a: int, c: int| 0 <= a < c < out@.len() implies out@[a] < out@[c] by {
                    if c < p {
                        assert(out@[a] == b[a] && out@[c] == b[c]);
                    } else if c == p {
                        assert(out@[a] == b[a]);
                    } else if a > p {
                        assert(out@[a] == b[a - 1] && out@[c] == b[c - 1]);
                    } else if a == p {
                        assert(out@[c] == b[c - 1]);
                        assert(b[p as int] > x);
                        if c - 1 > p {
                            assert(b[p as int] < b[c - 1]);
                        }
                    } else {
                        assert(out@[a] == b[a] && out@[c] == b[c - 1]);
                    }
                }
                assert forall|y: u32| out@.to_set().contains(y) == b.to_set().insert(x).contains(y) by {
                    if out@.contains(y) {
                        let w = choose|w: int| 0 <= w < out@.len() && out@[w] == y;
                        if w < p {
                            assert(b[w] == y);
                        } else if w > p {
                            assert(b[w - 1] == y);
                        }
                    }
                    if b.contains(y) {
                        let w = choose|w: int| 0 <= w < b.len() && b[w] == y;
                        if w < p {
                            assert(out@[w] == y);
                        } else {
                            assert(out@[w + 1] == y);
                        }
                    }
                    if y == x {
                        assert(out@[p as int] == x);
                    }
                }
                assert(out@.to_set() =~= raw@.take(i + 1).to_set());
            }
        }
    }
    assert(raw@.take(n as int) =~= raw@);
    out
}

} // verus!
