//! Properties that hold across the library's operations.
use vstd::prelude::*;

use crate::id::{collapse, is_ascii_alnum, lower_all, spec_make_id, spec_normalize_id, strip_trail_char, trim_char};
use crate::learn::{chain_relation, has_pending, k2k_outcome, reverse_relation};
use crate::security::label::{is_control, spec_sanitize_label, strip_controls};
use crate::seqs::has_link;
use crate::text::strip_lead_char;
use crate::traversal::{bfs_levels, dfs_list, dfs_node, dfs_starts, DfsState, TraversalFilter};
use crate::forget::{doomed, entry_survives};
use crate::kgraph::{kg_nodes, within};
use crate::recall::{found_entries};
use crate::stale::{needs_review, stale_scan};
use crate::types::{ascii_lower, links_view, queue_view, EntryView, KodexData, KodexError, LinkView, Node, ReviewView};

verus! {

// ---------------------------------------------------------------------------
// Identifiers
// ---------------------------------------------------------------------------

/// An identifier in normal form: letters, digits and single `_` between
/// them, no `_` at either end, no upper-case letter.
pub open spec fn is_normal_id(t: Seq<char>) -> bool {
    &&& forall|i: int| 0 <= i < t.len() ==> is_ascii_alnum(#[trigger] t[i]) || t[i] == '_'
    &&& forall|i: int| 0 <= i < t.len() - 1 ==> !(#[trigger] t[i] == '_' && t[i + 1] == '_')
    &&& t.len() > 0 ==> t[0] != '_' && t.last() != '_'
    &&& forall|i: int| 0 <= i < t.len() ==> !('A' <= #[trigger] t[i] && t[i] <= 'Z')
}

/// Characters are letters, digits or `_`, with no two `_` in a row.
pub open spec fn underscore_runs_single(t: Seq<char>) -> bool {
    &&& forall|i: int| 0 <= i < t.len() ==> is_ascii_alnum(#[trigger] t[i]) || t[i] == '_'
    &&& forall|i: int| 0 <= i < t.len() - 1 ==> !(#[trigger] t[i] == '_' && t[i + 1] == '_')
}

proof fn lemma_collapse_shape(s: Seq<char>)
    ensures
        underscore_runs_single(collapse(s)),
        s.len() > 0 ==> collapse(s).len() > 0 && (collapse(s).last() == '_' <==> !is_ascii_alnum(s.last())),
    decreases s.len(),
{
    if s.len() > 0 {
        lemma_collapse_shape(s.drop_last());
        let p = collapse(s.drop_last());
        let c = collapse(s);
        if is_ascii_alnum(s.last()) {
            assert forall|i: int| 0 <= i < c.len() implies is_ascii_alnum(#[trigger] c[i]) || c[i] == '_' by {
                if i < p.len() {
                    assert(c[i] == p[i]);
                }
            }
            assert forall|i: int| 0 <= i < c.len() - 1 implies !(#[trigger] c[i] == '_' && c[i + 1] == '_') by {
                assert(c[i] == p[i]);
            }
        } else if s.len() >= 2 && !is_ascii_alnum(s[s.len() - 2]) {
            assert(s.drop_last().last() == s[s.len() - 2]);
        } else {
            assert forall|i: int| 0 <= i < c.len() implies is_ascii_alnum(#[trigger] c[i]) || c[i] == '_' by {
                if i < p.len() {
                    assert(c[i] == p[i]);
                }
            }
            assert forall|i: int| 0 <= i < c.len() - 1 implies !(#[trigger] c[i] == '_' && c[i + 1] == '_') by {
                assert(c[i] == p[i]);
                if i == c.len() - 2 {
                    if s.len() >= 2 {
                        assert(s.drop_last().last() == s[s.len() - 2]);
                    }
                }
            }
        }
    }
}

proof fn lemma_strip_lead_shape(s: Seq<char>)
    requires
        underscore_runs_single(s),
    ensures
        underscore_runs_single(strip_lead_char(s, '_')),
        strip_lead_char(s, '_').len() > 0 ==> strip_lead_char(s, '_')[0] != '_',
        strip_lead_char(s, '_').len() > 0 && s.len() > 0 ==> strip_lead_char(s, '_').last() == s.last(),
    decreases s.len(),
{
    if s.len() > 0 && s[0] == '_' {
        let t = s.drop_first();
        assert forall|i: int| 0 <= i < t.len() implies is_ascii_alnum(#[trigger] t[i]) || t[i] == '_' by {
            assert(t[i] == s[i + 1]);
        }
        assert forall|i: int| 0 <= i < t.len() - 1 implies !(#[trigger] t[i] == '_' && t[i + 1] == '_') by {
            assert(t[i] == s[i + 1] && t[i + 1] == s[i + 2]);
        }
        lemma_strip_lead_shape(t);
    }
}

proof fn lemma_strip_trail_shape(s: Seq<char>)
    requires
        underscore_runs_single(s),
        s.len() > 0 ==> s[0] != '_',
    ensures
        underscore_runs_single(strip_trail_char(s, '_')),
        strip_trail_char(s, '_').len() > 0 ==> strip_trail_char(s, '_').last() != '_'
            && strip_trail_char(s, '_')[0] != '_',
    decreases s.len(),
{
    if s.len() > 0 && s.last() == '_' {
        let t = s.drop_last();
        assert forall|i: int| 0 <= i < t.len() implies is_ascii_alnum(#[trigger] t[i]) || t[i] == '_' by {
            assert(t[i] == s[i]);
        }
        assert forall|i: int| 0 <= i < t.len() - 1 implies !(#[trigger] t[i] == '_' && t[i + 1] == '_') by {
            assert(t[i] == s[i] && t[i + 1] == s[i + 1]);
        }
        if t.len() > 0 {
            assert(t[0] == s[0]);
        }
        lemma_strip_trail_shape(t);
    }
}

proof fn lemma_normal_form(s: Seq<char>)
    ensures
        is_normal_id(spec_normalize_id(s)),
{
    lemma_collapse_shape(s);
    let c = collapse(s);
    lemma_strip_lead_shape(c);
    let a = strip_lead_char(c, '_');
    lemma_strip_trail_shape(a);
    let t = trim_char(c, '_');
    let n = lower_all(t);
    assert forall|i: int| 0 <= i < n.len() implies (is_ascii_alnum(#[trigger] n[i]) || n[i] == '_') && !('A' <= n[i]
        && n[i] <= 'Z') by {
        assert(n[i] == ascii_lower(t[i]));
        if 'A' <= t[i] && t[i] <= 'Z' {
            assert(((t[i] as u32) + 32) as char == ascii_lower(t[i]));
        }
    }
    assert forall|i: int| 0 <= i < n.len() - 1 implies !(#[trigger] n[i] == '_' && n[i + 1] == '_') by {
        assert(n[i] == ascii_lower(t[i]) && n[i + 1] == ascii_lower(t[i + 1]));
    }
    if n.len() > 0 {
        assert(n[0] == ascii_lower(t[0]));
        assert(n.last() == ascii_lower(t.last()));
    }
}

proof fn lemma_collapse_fixed(t: Seq<char>)
    requires
        underscore_runs_single(t),
    ensures
        collapse(t) == t,
    decreases t.len(),
{
    if t.len() > 0 {
        let p = t.drop_last();
        assert forall|i: int| 0 <= i < p.len() implies is_ascii_alnum(#[trigger] p[i]) || p[i] == '_' by {
            assert(p[i] == t[i]);
        }
        assert forall|i: int| 0 <= i < p.len() - 1 implies !(#[trigger] p[i] == '_' && p[i + 1] == '_') by {
            assert(p[i] == t[i] && p[i + 1] == t[i + 1]);
        }
        lemma_collapse_fixed(p);
        if !is_ascii_alnum(t.last()) {
            assert(t.last() == '_');
            if t.len() >= 2 {
                assert(t[t.len() - 2] == '_' ==> false);
            }
        }
        assert(t =~= p.push(t.last()));
    }
}

/// Normalising an identifier twice gives what normalising once gives.
pub proof fn law_normalize_idempotent(s: Seq<char>)
    ensures
        spec_normalize_id(spec_normalize_id(s)) == spec_normalize_id(s),
{
    lemma_normal_form(s);
    let n = spec_normalize_id(s);
    lemma_collapse_fixed(n);
    assert(strip_lead_char(n, '_') == n);
    assert(strip_trail_char(n, '_') == n);
    assert(lower_all(n) =~= n) by {
        assert forall|i: int| 0 <= i < n.len() implies ascii_lower(n[i]) == n[i] by {}
    }
}

/// An identifier made from parts is already in normal form.
pub proof fn law_make_id_is_normal(parts: Seq<Seq<char>>)
    ensures
        spec_normalize_id(spec_make_id(parts)) == spec_make_id(parts),
        is_normal_id(spec_make_id(parts)),
{
    law_normalize_idempotent(crate::id::join_us(crate::id::id_pieces(parts)));
    lemma_normal_form(crate::id::join_us(crate::id::id_pieces(parts)));
}

// ---------------------------------------------------------------------------
// Labels
// ---------------------------------------------------------------------------

proof fn lemma_strip_controls_clean(s: Seq<char>)
    ensures
        forall|i: int| 0 <= i < strip_controls(s).len() ==> !is_control(#[trigger] strip_controls(s)[i]),
        strip_controls(strip_controls(s)) == strip_controls(s),
    decreases s.len(),
{
    if s.len() > 0 {
        lemma_strip_controls_clean(s.drop_last());
        let p = strip_controls(s.drop_last());
        if !is_control(s.last()) {
            let c = p.push(s.last());
            assert forall|i: int| 0 <= i < c.len() implies !is_control(#[trigger] c[i]) by {
                if i < p.len() {
                    assert(c[i] == p[i]);
                }
            }
            assert(c.drop_last() =~= p);
        }
    }
}

proof fn lemma_strip_controls_prefix(s: Seq<char>, k: int)
    requires
        0 <= k <= s.len(),
        forall|i: int| 0 <= i < s.len() ==> !is_control(#[trigger] s[i]),
    ensures
        strip_controls(s.take(k)) == s.take(k),
    decreases k,
{
    if k > 0 {
        lemma_strip_controls_prefix(s, k - 1);
        assert(s.take(k).drop_last() =~= s.take(k - 1));
        assert(s.take(k) =~= s.take(k - 1).push(s[k - 1]));
    }
}

/// A sanitised label holds no control character and at most 256 characters,
/// and sanitising it again changes nothing.
pub proof fn law_sanitize_label_clean(s: Seq<char>)
    ensures
        spec_sanitize_label(s).len() <= 256,
        forall|i: int| 0 <= i < spec_sanitize_label(s).len() ==> !is_control(#[trigger] spec_sanitize_label(s)[i]),
        spec_sanitize_label(spec_sanitize_label(s)) == spec_sanitize_label(s),
{
    lemma_strip_controls_clean(s);
    let c = strip_controls(s);
    let r = spec_sanitize_label(s);
    assert forall|i: int| 0 <= i < r.len() implies !is_control(#[trigger] r[i]) by {
        assert(r[i] == c[i]);
    }
    lemma_strip_controls_prefix(r, r.len() as int);
    assert(r.take(r.len() as int) =~= r);
}

// ---------------------------------------------------------------------------
// Knowledge links
// ---------------------------------------------------------------------------

/// After a successful bidirectional link between two entries, the link is
/// there; its reverse (with the reverse relation) is there too unless the
/// relation is a chain-of-thought one, which leaves the links as a one-way
/// link would.
pub proof fn law_bidirectional_link_both_ways(
    a: &KodexData,
    b: &KodexData,
    s: Seq<char>,
    t: Seq<char>,
    rel: Seq<char>,
    now: u64,
)
    requires
        k2k_outcome(a, b, s, t, rel, true, now, Ok(())),
    ensures
        has_link(links_view(b.links@), s, t, rel, true),
        !chain_relation(rel) ==> has_link(links_view(b.links@), t, s, reverse_relation(rel), true),
        chain_relation(rel) ==> links_view(b.links@) == crate::learn::with_knowledge_link(
            links_view(a.links@),
            s,
            t,
            rel,
            now,
        ),
{
    let l0 = links_view(a.links@);
    let f = crate::learn::with_knowledge_link(l0, s, t, rel, now);
    assert(has_link(f, s, t, rel, true)) by {
        if !has_link(l0, s, t, rel, true) {
            assert(f[f.len() - 1] == crate::learn::knowledge_link(s, t, rel, now));
        }
    }
    if !chain_relation(rel) {
        let g = crate::learn::with_knowledge_link(f, t, s, reverse_relation(rel), now);
        assert(has_link(g, s, t, rel, true)) by {
            let i = choose|i: int|
                0 <= i < f.len() && (#[trigger] f[i]).knowledge_uuid == s && f[i].node_uuid == t && f[i].relation
                    == rel && (true ==> f[i].is_knowledge_link());
            if !has_link(f, t, s, reverse_relation(rel), true) {
                assert(g[i] == f[i]);
            }
        }
        assert(has_link(g, t, s, reverse_relation(rel), true)) by {
            if !has_link(f, t, s, reverse_relation(rel), true) {
                assert(g[g.len() - 1] == crate::learn::knowledge_link(t, s, reverse_relation(rel), now));
            }
        }
    }
}

/// After adding node links, every node named has a link with that relation.
proof fn lemma_add_node_links_covers(
    ls: Seq<LinkView>,
    u: Seq<char>,
    ns: Seq<Seq<char>>,
    rel: Seq<char>,
    nodes: Seq<Node>,
    now: u64,
)
    ensures
        forall|j: int|
            0 <= j < ns.len() ==> has_link(
                crate::learn::add_node_links(ls, u, ns, rel, nodes, now),
                u,
                #[trigger] ns[j],
                rel,
                false,
            ),
    decreases ns.len(),
{
    if ns.len() > 0 {
        let q = ns.drop_last();
        lemma_add_node_links_covers(ls, u, q, rel, nodes, now);
        let p = crate::learn::add_node_links(ls, u, q, rel, nodes, now);
        let r = crate::learn::add_node_links(ls, u, ns, rel, nodes, now);
        assert forall|j: int| 0 <= j < ns.len() implies has_link(r, u, #[trigger] ns[j], rel, false) by {
            if j < ns.len() - 1 {
                assert(q[j] == ns[j]);
                assert(has_link(p, u, q[j], rel, false));
                if !has_link(p, u, ns.last(), rel, false) {
                    let i = choose|i: int|
                        0 <= i < p.len() && (#[trigger] p[i]).knowledge_uuid == u && p[i].node_uuid == q[j]
                            && p[i].relation == rel && (!false || p[i].is_knowledge_link());
                    assert(r[i] == p[i]);
                }
            } else if !has_link(p, u, ns.last(), rel, false) {
                assert(r[r.len() - 1] == crate::learn::node_link(u, ns.last(), rel, nodes, now));
            }
        }
    }
}

/// Adding links to nodes that all have one already changes nothing.
proof fn lemma_add_node_links_noop(
    ls: Seq<LinkView>,
    u: Seq<char>,
    ns: Seq<Seq<char>>,
    rel: Seq<char>,
    nodes: Seq<Node>,
    now: u64,
)
    requires
        forall|j: int| 0 <= j < ns.len() ==> has_link(ls, u, #[trigger] ns[j], rel, false),
    ensures
        crate::learn::add_node_links(ls, u, ns, rel, nodes, now) == ls,
    decreases ns.len(),
{
    if ns.len() > 0 {
        let q = ns.drop_last();
        assert forall|j: int| 0 <= j < q.len() implies has_link(ls, u, #[trigger] q[j], rel, false) by {
            assert(q[j] == ns[j]);
        }
        lemma_add_node_links_noop(ls, u, q, rel, nodes, now);
        assert(has_link(ls, u, ns[ns.len() - 1], rel, false));
    }
}

/// Linking an entry to the same nodes with the same relation a second time
/// changes nothing.
pub proof fn law_link_nodes_idempotent(
    a: &KodexData,
    b: &KodexData,
    c: &KodexData,
    u: Seq<char>,
    ns: Seq<Seq<char>>,
    rel: Seq<char>,
    t1: u64,
    t2: u64,
)
    requires
        crate::learn::node_links_outcome(a, b, u, ns, rel, t1, Ok(())),
        crate::learn::node_links_outcome(b, c, u, ns, rel, t2, Ok(())),
    ensures
        links_view(c.links@) == links_view(b.links@),
        crate::types::entries_view(c.knowledge@) == crate::types::entries_view(b.knowledge@),
        queue_view(c.review_queue@) == queue_view(b.review_queue@),
        c.extraction == b.extraction,
{
    lemma_add_node_links_covers(links_view(a.links@), u, ns, rel, a.extraction.nodes@, t1);
    lemma_add_node_links_noop(links_view(b.links@), u, ns, rel, b.extraction.nodes@, t2);
}

// ---------------------------------------------------------------------------
// Review queue
// ---------------------------------------------------------------------------

/// No entry has two pending review items.
pub open spec fn single_pending(q: Seq<ReviewView>) -> bool {
    forall|i: int, j: int|
        0 <= i < q.len() && 0 <= j < q.len() && !q[i].completed && !q[j].completed && (#[trigger] q[i]).knowledge_uuid
            == (#[trigger] q[j]).knowledge_uuid ==> i == j
}

/// Enqueueing keeps every entry to at most one pending review item.
pub proof fn law_enqueue_keeps_single_pending(
    a: &KodexData,
    b: &KodexData,
    u: Seq<char>,
    reason: Seq<char>,
    priority: u8,
    now: u64,
    r: bool,
)
    requires
        single_pending(queue_view(a.review_queue@)),
        crate::learn::enqueue_outcome(a, b, u, reason, priority, now, r),
    ensures
        single_pending(queue_view(b.review_queue@)),
{
    let q = queue_view(a.review_queue@);
    let q2 = queue_view(b.review_queue@);
    if r {
        assert forall|i: int, j: int|
            0 <= i < q2.len() && 0 <= j < q2.len() && !q2[i].completed && !q2[j].completed && (#[trigger] q2[i]).knowledge_uuid
                == (#[trigger] q2[j]).knowledge_uuid implies i == j by {
            if i < q.len() && j < q.len() {
                assert(q2[i] == q[i] && q2[j] == q[j]);
            } else if i < q.len() {
                assert(q2[i] == q[i]);
                assert(has_pending(q, u));
            } else if j < q.len() {
                assert(q2[j] == q[j]);
                assert(has_pending(q, u));
            }
        }
    }
}

/// After completing an entry's reviews, it has no pending review item.
pub proof fn law_complete_clears_pending(q0: Seq<ReviewView>, q1: Seq<ReviewView>, u: Seq<char>)
    requires
        q1 == Seq::new(
            q0.len(),
            |i: int|
                {
                    let q = q0[i];
                    if q.knowledge_uuid == u {
                        ReviewView { completed: true, ..q }
                    } else {
                        q
                    }
                },
        ),
    ensures
        !has_pending(q1, u),
{
}

// ---------------------------------------------------------------------------
// Traversal
// ---------------------------------------------------------------------------

/// Breadth-first traversal visits its start nodes; every edge it follows
/// leaves a non-hub node for a node that passes the filter and is then
/// visited; every node it visits is a start node or passes the filter.
pub proof fn law_bfs_respects_filter(
    g: &crate::graph::KodexGraph,
    f: &TraversalFilter,
    starts: Set<Seq<char>>,
    k: nat,
)
    ensures
        starts.subset_of(bfs_levels(g, f, starts, k).visited),
        forall|e: (Seq<char>, Seq<char>)|
            #[trigger] bfs_levels(g, f, starts, k).edges.contains(e) ==> f.spec_expands(g, e.0)
                && f.spec_matches(g, e.1) && bfs_levels(g, f, starts, k).visited.contains(e.1),
        forall|n: Seq<char>|
            #[trigger] bfs_levels(g, f, starts, k).visited.contains(n) ==> starts.contains(n)
                || f.spec_matches(g, n),
    decreases k,
{
    if k > 0 {
        law_bfs_respects_filter(g, f, starts, (k - 1) as nat);
        let p = bfs_levels(g, f, starts, (k - 1) as nat);
        let st = bfs_levels(g, f, starts, k);
        assert forall|e: (Seq<char>, Seq<char>)| #[trigger] st.edges.contains(e) implies f.spec_expands(g, e.0)
            && f.spec_matches(g, e.1) && st.visited.contains(e.1) by {
            if !p.edges.contains(e) {
                assert(crate::traversal::steps_from(g, f, p.visited, p.frontier).contains(e));
                assert(crate::traversal::reached_from(g, f, p.visited, p.frontier).contains(e.1));
            }
        }
    }
}

/// Depth-first visiting keeps the visited list free of repeats.
proof fn lemma_dfs_no_dup(g: &crate::graph::KodexGraph, node: Seq<char>, depth: nat, st: DfsState)
    requires
        st.visited.no_duplicates(),
    ensures
        dfs_node(g, node, depth, st).visited.no_duplicates(),
    decreases depth, 0int,
{
    if !(depth == 0 || st.visited.contains(node)) {
        let st1 = DfsState { visited: st.visited.push(node), edges: st.edges };
        assert(st1.visited.no_duplicates()) by {
            assert forall|i: int, j: int| 0 <= i < j < st1.visited.len() implies st1.visited[i] != st1.visited[j] by {
                if j == st1.visited.len() - 1 {
                    assert(st1.visited[i] == st.visited[i]);
                } else {
                    assert(st1.visited[i] == st.visited[i] && st1.visited[j] == st.visited[j]);
                }
            }
        }
        lemma_dfs_list_no_dup(g, node, g.spec_neighbors(node), 0, (depth - 1) as nat, st1);
    }
}

proof fn lemma_dfs_list_no_dup(
    g: &crate::graph::KodexGraph,
    from: Seq<char>,
    ns: Seq<Seq<char>>,
    i: int,
    depth: nat,
    st: DfsState,
)
    requires
        st.visited.no_duplicates(),
    ensures
        dfs_list(g, from, ns, i, depth, st).visited.no_duplicates(),
    decreases depth, ns.len() - i + 1,
{
    if !(i < 0 || i >= ns.len()) {
        let m = ns[i];
        if st.visited.contains(m) {
            lemma_dfs_list_no_dup(g, from, ns, i + 1, depth, st);
        } else {
            let st0 = DfsState { visited: st.visited, edges: st.edges.push((from, m)) };
            lemma_dfs_no_dup(g, m, depth, st0);
            lemma_dfs_list_no_dup(g, from, ns, i + 1, depth, dfs_node(g, m, depth, st0));
        }
    }
}

/// A depth-first traversal visits each node at most once.
pub proof fn law_dfs_visits_once(g: &crate::graph::KodexGraph, starts: Seq<Seq<char>>, depth: nat)
    ensures
        dfs_starts(g, starts, depth).visited.no_duplicates(),
    decreases starts.len(),
{
    if starts.len() > 0 {
        law_dfs_visits_once(g, starts.drop_last(), depth);
        lemma_dfs_no_dup(g, starts.last(), depth, dfs_starts(g, starts.drop_last(), depth));
    }
}

// ---------------------------------------------------------------------------
// Registry, store and merging
// ---------------------------------------------------------------------------

/// After a project is registered at a path, looking that directory up finds
/// a project at exactly that path.
pub proof fn law_register_then_lookup(
    a: &crate::registry::Registry,
    b: &crate::registry::Registry,
    path: Seq<char>,
    head: Option<Seq<char>>,
    now: u64,
    key: Seq<char>,
)
    requires
        crate::registry::registered(a, b, path, head, now, key),
    ensures
        crate::registry::direct_pos(b, path) >= 0,
        b.projects@[crate::registry::direct_pos(b, path)].1@.path == path,
{
    let rv = crate::registry::registry_view(b);
    let p = |e: (Seq<char>, crate::registry::ProjectView)| e.1.path == path;
    crate::seqs::lemma_first_where(rv, p);
    let k = crate::registry::key_pos(a, key);
    crate::seqs::lemma_first_where(crate::registry::registry_keys(a), crate::graph::is_id(key));
    let e = crate::registry::ProjectView { path, last_run: now, last_indexed_commit: head };
    let idx = if k >= 0 {
        k
    } else {
        crate::registry::registry_view(a).len() as int
    };
    assert(rv[idx] == (key, e));
    assert(p(rv[idx]));
    let d = crate::registry::direct_pos(b, path);
    assert(0 <= d < rv.len());
    assert(rv[d] == (b.projects@[d].0@, b.projects@[d].1@));
}

/// A successfully learned entry is in the store under the UUID returned.
pub proof fn law_learned_entry_present(
    a: &KodexData,
    b: &KodexData,
    ku: Option<Seq<char>>,
    knowledge_type: Seq<char>,
    title: Seq<char>,
    description: Seq<char>,
    related: Option<Seq<Seq<char>>>,
    tags: Seq<Seq<char>>,
    context: Option<Seq<char>>,
    similar: Seq<Seq<char>>,
    now: u64,
    u: String,
    reinforced: bool,
)
    requires
        crate::learning::learn_outcome(
            a,
            b,
            ku,
            knowledge_type,
            title,
            description,
            related,
            tags,
            context,
            similar,
            now,
            Ok((u, reinforced)),
        ),
    ensures
        crate::seqs::entry_pos(crate::types::entries_view(b.knowledge@), u@) >= 0,
{
    let k = crate::types::entries_view(a.knowledge@);
    let kb = crate::types::entries_view(b.knowledge@);
    let p = |e: crate::types::EntryView| e.uuid == u@;
    crate::seqs::lemma_first_where(kb, p);
    match ku {
        Some(v) => {
            let i = crate::seqs::entry_pos(k, v);
            crate::seqs::lemma_first_where(k, |e: crate::types::EntryView| e.uuid == v);
            assert(p(kb[i]));
        },
        None => {
            assert(p(kb[kb.len() - 1]));
        },
    }
}

proof fn lemma_dedup_from(s: Seq<crate::types::LinkView>)
    ensures
        forall|i: int|
            0 <= i < crate::learn::dedup_links(s).len() ==> s.contains(#[trigger] crate::learn::dedup_links(s)[i]),
    decreases s.len(),
{
    if s.len() > 0 {
        lemma_dedup_from(s.drop_last());
        let p = crate::learn::dedup_links(s.drop_last());
        let d = crate::learn::dedup_links(s);
        assert forall|i: int| 0 <= i < d.len() implies s.contains(#[trigger] d[i]) by {
            if i < p.len() {
                assert(d[i] == p[i]);
                let j = choose|j: int| 0 <= j < s.drop_last().len() && s.drop_last()[j] == p[i];
                assert(s[j] == p[i]);
            } else {
                assert(d[i] == s.last());
                assert(s[s.len() - 1] == s.last());
            }
        }
    }
}

/// After merging one entry into another, no link joins an entry to itself.
pub proof fn law_merge_no_self_links(a: &KodexData, b: &KodexData, keep: Seq<char>, ab: Seq<char>, now: u64, n: u32)
    requires
        crate::learn::merge_outcome(a, b, keep, ab, now, Ok(n)),
        keep != ab,
    ensures
        forall|i: int|
            0 <= i < links_view(b.links@).len() ==> !((#[trigger] links_view(b.links@)[i]).is_knowledge_link()
                && links_view(b.links@)[i].knowledge_uuid == links_view(b.links@)[i].node_uuid),
{
    let ls = links_view(a.links@);
    let l1 = Seq::new(ls.len(), |i: int| crate::learn::rewritten_link(ls[i], keep, ab));
    let f = l1.filter(crate::learn::not_self_link());
    let d = crate::learn::dedup_links(f);
    lemma_dedup_from(f);
    let out = links_view(b.links@);
    assert forall|i: int| 0 <= i < out.len() implies !((#[trigger] out[i]).is_knowledge_link()
        && out[i].knowledge_uuid == out[i].node_uuid) by {
        if i < d.len() {
            assert(out[i] == d[i]);
            let j = choose|j: int| 0 <= j < f.len() && f[j] == d[i];
            l1.lemma_filter_pred(crate::learn::not_self_link(), j);
        } else {
            assert(out[i] == crate::learn::supersedes_link(keep, ab, now));
        }
    }
}

/// After forgetting a project, no node or edge of the graph comes from it.
pub proof fn law_forget_removes_project(a: &KodexData, b: &KodexData, p: Seq<char>)
    requires
        b.extraction.nodes@ == a.extraction.nodes@.filter(crate::store::node_outside(p)),
        b.extraction.edges@ == a.extraction.edges@.filter(crate::store::edge_outside(p)),
    ensures
        forall|i: int|
            0 <= i < b.extraction.nodes@.len() ==> !crate::text::starts_with(
                (#[trigger] b.extraction.nodes@[i]).source_file@,
                p,
            ),
        forall|i: int|
            0 <= i < b.extraction.edges@.len() ==> !crate::text::starts_with(
                (#[trigger] b.extraction.edges@[i]).source_file@,
                p,
            ),
{
    assert forall|i: int| 0 <= i < b.extraction.nodes@.len() implies !crate::text::starts_with(
        (#[trigger] b.extraction.nodes@[i]).source_file@,
        p,
    ) by {
        a.extraction.nodes@.lemma_filter_pred(crate::store::node_outside(p), i);
    }
    assert forall|i: int| 0 <= i < b.extraction.edges@.len() implies !crate::text::starts_with(
        (#[trigger] b.extraction.edges@[i]).source_file@,
        p,
    ) by {
        a.extraction.edges@.lemma_filter_pred(crate::store::edge_outside(p), i);
    }
}


/// Assessing staleness keeps every entry but its status, sets no status but
/// `needs_review`, and leaves obsolete entries as they are.
pub proof fn law_stale_only_flags_for_review(k: Seq<EntryView>, ls: Seq<LinkView>, ns: Seq<Node>, now: u64)
    ensures
        stale_scan(k, ls, ns, now).0.len() == k.len(),
        forall|i: int|
            0 <= i < k.len() ==> {
                let e2 = #[trigger] stale_scan(k, ls, ns, now).0[i];
                &&& e2 == EntryView { status: e2.status, ..k[i] }
                &&& (e2.status == k[i].status || e2.status == needs_review())
                &&& (k[i].status == "obsolete"@ ==> e2.status == k[i].status)
            },
    decreases k.len(),
{
    if k.len() > 0 {
        law_stale_only_flags_for_review(k.drop_last(), ls, ns, now);
        let p = stale_scan(k.drop_last(), ls, ns, now);
        assert forall|i: int| 0 <= i < k.len() - 1 implies #[trigger] stale_scan(k, ls, ns, now).0[i] == p.0[i] by {}
        assert forall|i: int| 0 <= i < k.len() - 1 implies k.drop_last()[i] == k[i] by {}
    }
}


/// Without a start entry, the knowledge graph holds every entry, in order.
pub proof fn law_traverse_without_start_is_whole(
    es: Seq<EntryView>,
    k: Seq<EntryView>,
    ls: Seq<LinkView>,
    ns: Seq<Node>,
    max_depth: nat,
)
    ensures
        kg_nodes(es, k, ls, ns, None, max_depth).len() == es.len(),
        forall|i: int| 0 <= i < es.len() ==> (#[trigger] kg_nodes(es, k, ls, ns, None, max_depth)[i]).uuid == es[i].uuid,
    decreases es.len(),
{
    if es.len() > 0 {
        law_traverse_without_start_is_whole(es.drop_last(), k, ls, ns, max_depth);
        assert forall|i: int| 0 <= i < es.len() - 1 implies es.drop_last()[i] == es[i] by {}
    }
}

/// Going one link further keeps every entry reached before: the entries
/// within `d` links of the start are within `e >= d` links too.
pub proof fn law_within_grows(ls: Seq<LinkView>, start: Seq<char>, d: nat, e: nat)
    requires
        d <= e,
    ensures
        within(ls, start, d).subset_of(within(ls, start, e)),
    decreases e - d,
{
    if e > d {
        law_within_grows(ls, start, d, (e - 1) as nat);
    }
}


/// Forgetting with no criterion forgets nothing: every entry survives.
pub proof fn law_forget_without_criteria_keeps_all(k: Seq<EntryView>)
    ensures
        doomed(k, None, None, None, None) == Seq::<Seq<char>>::empty(),
        k.filter(entry_survives(doomed(k, None, None, None, None))) == k,
{
    assert(doomed(k, None, None, None, None) =~= Seq::<Seq<char>>::empty());
    lemma_filter_all(k, entry_survives(Seq::<Seq<char>>::empty()));
}

proof fn lemma_filter_all(k: Seq<EntryView>, p: spec_fn(EntryView) -> bool)
    requires
        forall|e: EntryView| #[trigger] p(e),
    ensures
        k.filter(p) == k,
    decreases k.len(),
{
    reveal(Seq::filter);
    if k.len() > 0 {
        lemma_filter_all(k.drop_last(), p);
        assert(k.drop_last().push(k.last()) =~= k);
    } else {
        assert(k.filter(p) =~= k);
    }
}

/// An empty query without a type filter finds every entry, in order.
pub proof fn law_empty_query_finds_all(es: Seq<EntryView>, k: Seq<EntryView>)
    ensures
        found_entries(es, k, seq![], None) == es,
    decreases es.len(),
{
    if es.len() > 0 {
        law_empty_query_finds_all(es.drop_last(), k);
        assert(es.drop_last().push(es.last()) =~= es);
    } else {
        assert(found_entries(es, k, seq![], None) =~= es);
    }
}

// ---------------------------------------------------------------------------
// File types
// ---------------------------------------------------------------------------

/// The ASCII upper-case form of a character; other characters are unchanged.
pub open spec fn ascii_upper(c: char) -> char {
    if 'a' <= c && c <= 'z' {
        ((c as u32) - 32) as char
    } else {
        c
    }
}

/// Every character ASCII-upper-cased.
pub open spec fn upper_all(s: Seq<char>) -> Seq<char> {
    Seq::new(s.len(), |i: int| ascii_upper(s[i]))
}

proof fn lemma_not_ignore_case(s: Seq<char>, w: Seq<char>, i: int)
    requires
        s.len() != w.len() || (0 <= i < s.len() && ascii_lower(s[i]) != w[i]),
    ensures
        !crate::types::eq_ignore_case(s, w),
{
}

/// A file type's name parses back to it, in lower case as in upper case.
pub proof fn law_file_type_name_parses(t: crate::types::FileType)
    ensures
        crate::types::spec_file_type_from(crate::types::file_type_name(t)) == Some(t),
        crate::types::spec_file_type_from(upper_all(crate::types::file_type_name(t))) == Some(t),
{
    let n = crate::types::file_type_name(t);
    let u = upper_all(n);
    assert(crate::types::eq_ignore_case(n, n));
    assert(crate::types::eq_ignore_case(u, n));
    let code = crate::types::file_type_name(crate::types::FileType::Code);
    let document = crate::types::file_type_name(crate::types::FileType::Document);
    let paper = crate::types::file_type_name(crate::types::FileType::Paper);
    let image = crate::types::file_type_name(crate::types::FileType::Image);
    let video = crate::types::file_type_name(crate::types::FileType::Video);
    match t {
        crate::types::FileType::Code => {},
        crate::types::FileType::Document => {
            lemma_not_ignore_case(n, code, 0);
            lemma_not_ignore_case(u, code, 0);
        },
        crate::types::FileType::Paper => {
            lemma_not_ignore_case(n, code, 0);
            lemma_not_ignore_case(u, code, 0);
            lemma_not_ignore_case(n, document, 0);
            lemma_not_ignore_case(u, document, 0);
        },
        crate::types::FileType::Image => {
            lemma_not_ignore_case(n, code, 0);
            lemma_not_ignore_case(u, code, 0);
            lemma_not_ignore_case(n, document, 0);
            lemma_not_ignore_case(u, document, 0);
            lemma_not_ignore_case(n, paper, 0);
            lemma_not_ignore_case(u, paper, 0);
        },
        crate::types::FileType::Video => {
            lemma_not_ignore_case(n, code, 0);
            lemma_not_ignore_case(u, code, 0);
            lemma_not_ignore_case(n, document, 0);
            lemma_not_ignore_case(u, document, 0);
            lemma_not_ignore_case(n, paper, 0);
            lemma_not_ignore_case(u, paper, 0);
            lemma_not_ignore_case(n, image, 0);
            lemma_not_ignore_case(u, image, 0);
        },
        crate::types::FileType::Rationale => {
            lemma_not_ignore_case(n, code, 0);
            lemma_not_ignore_case(u, code, 0);
            lemma_not_ignore_case(n, document, 0);
            lemma_not_ignore_case(u, document, 0);
            lemma_not_ignore_case(n, paper, 0);
            lemma_not_ignore_case(u, paper, 0);
            lemma_not_ignore_case(n, image, 0);
            lemma_not_ignore_case(u, image, 0);
            lemma_not_ignore_case(n, video, 0);
            lemma_not_ignore_case(u, video, 0);
        },
    }
}

// ---------------------------------------------------------------------------
// Front matter
// ---------------------------------------------------------------------------

/// `trim_end` only removes characters.
proof fn lemma_trim_end_len(s: Seq<char>)
    ensures
        crate::text::trim_end(s).len() <= s.len(),
    decreases s.len(),
{
    if s.len() > 0 && crate::text::is_whitespace(s.last()) {
        lemma_trim_end_len(s.drop_last());
    }
}

/// A text that trims to itself neither starts nor ends with white space.
proof fn lemma_trimmed(v: Seq<char>)
    requires
        v.len() > 0,
        crate::text::trim(v) == v,
    ensures
        crate::text::lead_ws(v) == 0,
        crate::text::trim_end(v) == v,
{
    crate::text::lemma_lead_ws(v);
    lemma_trim_end_len(crate::text::trim_start(v));
    if crate::text::lead_ws(v) > 0 {
        assert(crate::text::trim_start(v).len() < v.len());
    }
    assert(crate::text::trim_start(v) =~= v);
}

/// A key and value that can be written as a front-matter line and read back:
/// both non-empty and trimmed; the key holds no `:` or line break and does
/// not start with `-`; the value holds no line break and neither starts nor
/// ends with `"`.
pub open spec fn field_writable(k: Seq<char>, v: Seq<char>) -> bool {
    &&& k.len() > 0 && crate::text::trim(k) == k && k[0] != '-'
    &&& forall|i: int| 0 <= i < k.len() ==> #[trigger] k[i] != ':' && k[i] != '\n'
    &&& v.len() > 0 && crate::text::trim(v) == v && v[0] != '"' && v.last() != '"'
    &&& forall|i: int| 0 <= i < v.len() ==> #[trigger] v[i] != '\n'
}

/// A field injected into a note without front matter is what extracting
/// that field from the new note gives back (and the new note's front matter
/// can be cut out safely).
pub proof fn law_inject_then_extract_new_front_matter(c: Seq<char>, k: Seq<char>, v: Seq<char>)
    requires
        field_writable(k, v),
        !crate::text::starts_with(c, "---"@),
    ensures
        crate::vault::frontmatter_safe(crate::vault::injected(c, k, v)),
        crate::vault::frontmatter_field(crate::vault::injected(c, k, v), k) == Some(v),
{
    reveal_strlit("---");
    reveal_strlit("---\n");
    reveal_strlit(": ");
    reveal_strlit("\n---\n\n");
    reveal_strlit("\n---");
    let t = crate::vault::injected(c, k, v);
    assert(t == "---\n"@ + k + ": "@ + v + "\n---\n\n"@ + c);
    assert(t.subrange(0, 3) =~= "---"@);
    assert(crate::text::starts_with(t, "---"@));
    let h = t.skip(3);
    let n = "\n---"@;
    let l: int = (1 + k.len() + 2 + v.len()) as int;
    assert(h.subrange(l, l + 4) =~= n);
    assert forall|j: int| 0 <= j < l implies !crate::text::occurs_at(h, n, j) by {
        if j == 0 {
            assert(h[1] == k[0]);
            assert(h.subrange(0, 4)[1] == h[1]);
        } else {
            assert(h.subrange(j, j + 4)[0] == h[j]);
            if j <= k.len() {
                assert(h[j] == k[j - 1]);
            } else if j < k.len() + 3 {
                assert(h[j] == ": "@[j - k.len() - 1]);
            } else {
                assert(h[j] == v[j - k.len() - 3]);
            }
        }
    }
    crate::security::url::lemma_find_from_found(h, n, 0, l);
    assert(crate::vault::close_pos(t) == l);
    assert(t[3] == '\n');
    let line = k + ": "@ + v;
    assert(t.subrange(4, 3 + l) =~= line);
    assert forall|i: int| 0 <= i < line.len() implies line[i] != '\n' by {
        if i < k.len() {
            assert(line[i] == k[i]);
        } else if i < k.len() + 2 {
            assert(line[i] == ": "@[i - k.len()]);
        } else {
            assert(line[i] == v[i - k.len() - 2]);
        }
    }
    crate::text::lemma_first_pos(line, '\n');
    assert(crate::text::split_on(line, '\n') =~= seq![line]);
    assert(crate::text::lines(line) =~= seq![line]);
    crate::text::lemma_first_pos(line, ':');
    assert(line[k.len() as int] == ':');
    assert forall|i: int| 0 <= i < k.len() implies line[i] != ':' by {
        assert(line[i] == k[i]);
    }
    assert(crate::text::first_pos(line, ':') == k.len());
    let after = " "@ + v;
    reveal_strlit(" ");
    assert(crate::text::before_first(line, ':') =~= k);
    assert(crate::text::after_first(line, ':') =~= after);
    lemma_trimmed(v);
    assert(after.drop_first() =~= v);
    assert(crate::text::is_whitespace(after[0]));
    assert(crate::text::lead_ws(after) == 1 + crate::text::lead_ws(v));
    assert(crate::text::trim_start(after) =~= v);
    assert(crate::text::trim(after) == v);
    assert(crate::text::strip_lead_char(v, '"') == v);
    assert(crate::id::strip_trail_char(v, '"') == v);
    assert(crate::id::trim_char(v, '"') == v);
    let ls = crate::text::lines(t.subrange(4, 3 + crate::vault::close_pos(t)));
    assert(ls =~= seq![line]);
    assert(crate::vault::first_field(ls, k) == Some(v));
}

/// The line names the field `k`.
pub open spec fn names_key(x: Seq<char>, k: Seq<char>) -> bool {
    crate::text::split_once(x, ':') matches Some(p) && crate::text::trim(p.0) == k
}

/// A search that finds `k` passed no earlier occurrence.
proof fn lemma_find_from_first(h: Seq<char>, n: Seq<char>, i: int)
    requires
        0 <= i,
        crate::security::url::find_from(h, n, i) >= 0,
    ensures
        forall|j: int|
            i <= j < crate::security::url::find_from(h, n, i) ==> !crate::text::occurs_at(h, n, j),
    decreases h.len() + 1 - i,
{
    if i <= h.len() && !crate::text::occurs_at(h, n, i) {
        lemma_find_from_first(h, n, i + 1);
    }
}

/// Splitting `a`, a separator and `b` splits `a` and `b`.
proof fn lemma_split_concat(a: Seq<char>, c: char, b: Seq<char>)
    ensures
        crate::text::split_on(a + seq![c] + b, c) == crate::text::split_on(a, c) + crate::text::split_on(b, c),
    decreases a.len(),
{
    let w = a + seq![c] + b;
    crate::text::lemma_first_pos(a, c);
    let fa = crate::text::first_pos(a, c);
    if fa >= a.len() {
        assert forall|j: int| 0 <= j < a.len() implies w[j] != c by {
            assert(w[j] == a[j]);
        }
        crate::text::lemma_first_pos_unique(w, c, a.len() as int);
        assert(w.take(a.len() as int) =~= a);
        assert(w.skip((a.len() + 1) as int) =~= b);
        assert(crate::text::split_on(a, c) =~= seq![a]);
    } else {
        assert forall|j: int| 0 <= j < fa implies w[j] != c by {
            assert(w[j] == a[j]);
        }
        assert(w[fa] == a[fa]);
        crate::text::lemma_first_pos_unique(w, c, fa);
        assert(w.take(fa) =~= a.take(fa));
        assert(w.skip(fa + 1) =~= a.skip(fa + 1) + seq![c] + b);
        lemma_split_concat(a.skip(fa + 1), c, b);
    }
}

/// Looking a field up in two lists of lines: past lines that name no key.
proof fn lemma_first_field_append(a: Seq<Seq<char>>, b: Seq<Seq<char>>, k: Seq<char>)
    requires
        forall|i: int| 0 <= i < a.len() ==> !names_key(#[trigger] a[i], k),
    ensures
        crate::vault::first_field(a + b, k) == crate::vault::first_field(b, k),
    decreases a.len(),
{
    if a.len() > 0 {
        assert((a + b).drop_first() =~= a.drop_first() + b);
        assert((a + b)[0] == a[0]);
        assert(!names_key(a[0], k));
        assert forall|i: int| 0 <= i < a.drop_first().len() implies !names_key(#[trigger] a.drop_first()[i], k) by {
            assert(a.drop_first()[i] == a[i + 1]);
        }
        lemma_first_field_append(a.drop_first(), b, k);
    } else {
        assert(a + b =~= b);
    }
}

/// Lines in which the field is not found name no such key.
proof fn lemma_first_field_none(a: Seq<Seq<char>>, k: Seq<char>)
    requires
        crate::vault::first_field(a, k) is None,
    ensures
        forall|i: int| 0 <= i < a.len() ==> !names_key(#[trigger] a[i], k),
    decreases a.len(),
{
    if a.len() > 0 {
        lemma_first_field_none(a.drop_first(), k);
        assert forall|i: int| 0 <= i < a.len() implies !names_key(#[trigger] a[i], k) by {
            if i > 0 {
                assert(a[i] == a.drop_first()[i - 1]);
            }
        }
    }
}

/// Dropping a trailing carriage return does not make a line name a key.
proof fn lemma_strip_cr_key(x: Seq<char>, k: Seq<char>)
    requires
        names_key(crate::text::strip_last(x, '\r'), k),
    ensures
        names_key(x, k),
{
    let y = crate::text::strip_last(x, '\r');
    if y != x {
        crate::text::lemma_first_pos(y, ':');
        let f = crate::text::first_pos(y, ':');
        assert forall|j: int| 0 <= j < f implies x[j] != ':' by {
            assert(x[j] == y[j]);
        }
        assert(x[f] == y[f]);
        crate::text::lemma_first_pos_unique(x, ':', f);
        assert(x.take(f) =~= y.take(f));
    }
}

/// The lines of `f`, a line break and a non-empty `line` without breaks:
/// the pieces of `f` (each without a trailing carriage return), then `line`.
proof fn lemma_lines_then(f: Seq<char>, line: Seq<char>)
    requires
        line.len() > 0,
        forall|i: int| 0 <= i < line.len() ==> #[trigger] line[i] != '\n',
    ensures
        crate::text::lines(f + seq!['\n'] + line) == Seq::new(
            crate::text::split_on(f, '\n').len(),
            |i: int| crate::text::strip_last(crate::text::split_on(f, '\n')[i], '\r'),
        ).push(line),
{
    crate::text::lemma_first_pos(line, '\n');
    assert(crate::text::split_on(line, '\n') =~= seq![line]);
    lemma_split_concat(f, '\n', line);
    let p = crate::text::split_on(f, '\n');
    let parts = crate::text::split_on(f + seq!['\n'] + line, '\n');
    assert(parts == p + seq![line]);
    assert(crate::text::lines(f + seq!['\n'] + line) =~= Seq::new(
        p.len(),
        |i: int| crate::text::strip_last(p[i], '\r'),
    ).push(line));
}

/// The front-matter line `k: v` holds no line break and gives `v` for `k`.
proof fn lemma_line_gives_value(k: Seq<char>, v: Seq<char>)
    requires
        field_writable(k, v),
    ensures
        forall|i: int| 0 <= i < (k + ": "@ + v).len() ==> #[trigger] (k + ": "@ + v)[i] != '\n',
        crate::vault::first_field(seq![k + ": "@ + v], k) == Some(v),
{
    reveal_strlit(": ");
    reveal_strlit(" ");
    let line = k + ": "@ + v;
    assert forall|i: int| 0 <= i < line.len() implies line[i] != '\n' by {
        if i < k.len() {
            assert(line[i] == k[i]);
        } else if i < k.len() + 2 {
            assert(line[i] == ": "@[i - k.len()]);
        } else {
            assert(line[i] == v[i - k.len() - 2]);
        }
    }
    crate::text::lemma_first_pos(line, ':');
    assert(line[k.len() as int] == ':');
    assert forall|i: int| 0 <= i < k.len() implies line[i] != ':' by {
        assert(line[i] == k[i]);
    }
    assert(crate::text::first_pos(line, ':') == k.len());
    let after = " "@ + v;
    assert(crate::text::before_first(line, ':') =~= k);
    assert(crate::text::after_first(line, ':') =~= after);
    lemma_trimmed(v);
    assert(after.drop_first() =~= v);
    assert(crate::text::is_whitespace(after[0]));
    assert(crate::text::trim_start(after) =~= v);
    assert(crate::text::trim(after) == v);
    assert(crate::text::strip_lead_char(v, '"') == v);
    assert(crate::id::strip_trail_char(v, '"') == v);
    assert(seq![line].drop_first() =~= Seq::<Seq<char>>::empty());
}

/// After inserting the line `k: v` before the closing `\n---`, the front
/// matter closes right after it.
#[verifier::rlimit(60)]
#[verifier::spinoff_prover]
proof fn lemma_close_after_insert(c: Seq<char>, k: Seq<char>, v: Seq<char>)
    requires
        field_writable(k, v),
        crate::text::starts_with(c, "---"@),
        crate::vault::close_pos(c) >= 0,
    ensures
        crate::text::starts_with(crate::vault::injected(c, k, v), "---"@),
        crate::vault::close_pos(crate::vault::injected(c, k, v)) == crate::vault::close_pos(c) + 1 + (k
            + ": "@ + v).len(),
        crate::vault::injected(c, k, v) == c.take(3 + crate::vault::close_pos(c)) + ("\n"@ + (k + ": "@
            + v)) + c.skip(3 + crate::vault::close_pos(c)),
        3 + crate::vault::close_pos(c) + 4 <= c.len(),
{
    reveal_strlit("---");
    reveal_strlit("\n---");
    reveal_strlit("\n");
    lemma_line_gives_value(k, v);
    let n = "\n---"@;
    let hc = c.skip(3);
    let cp = crate::vault::close_pos(c);
    crate::security::url::lemma_find_from_occurs(hc, n, 0);
    lemma_find_from_first(hc, n, 0);
    let p = 3 + cp;
    let line = k + ": "@ + v;
    let ins = "\n"@ + line;
    let t = crate::vault::injected(c, k, v);
    assert(t =~= c.take(p) + ins + c.skip(p));
    assert(t.subrange(0, 3) =~= c.subrange(0, 3));
    let h = t.skip(3);
    let l: int = ins.len() as int;
    assert forall|j: int| 0 <= j < cp + l implies !crate::text::occurs_at(h, n, j) by {
        if crate::text::occurs_at(h, n, j) {
            assert(h.subrange(j, j + 4) == n);
            if j + 4 <= cp {
                assert forall|x: int| 0 <= x < 4 implies #[trigger] h.subrange(j, j + 4)[x] == hc.subrange(j, j + 4)[x] by {
                    assert(h[j + x] == t[3 + j + x]);
                    assert(t[3 + j + x] == c[3 + j + x]);
                }
                assert(hc.subrange(j, j + 4) =~= n);
                assert(crate::text::occurs_at(hc, n, j));
            } else if j < cp {
                assert(h.subrange(j, j + 4)[cp - j] == h[cp]);
                assert(h[cp] == t[p]);
                assert(t[p] == ins[0]);
            } else if j == cp {
                assert(h.subrange(j, j + 4)[1] == h[cp + 1]);
                assert(h[cp + 1] == t[p + 1]);
                assert(t[p + 1] == ins[1]);
                assert(ins[1] == k[0]);
            } else {
                assert(h.subrange(j, j + 4)[0] == h[j]);
                assert(h[j] == t[3 + j]);
                assert(t[3 + j] == ins[j - cp]);
                assert(ins[j - cp] == line[j - cp - 1]);
            }
        }
    }
    assert forall|x: int| 0 <= x < 4 implies #[trigger] h.subrange(cp + l, cp + l + 4)[x] == hc.subrange(cp, cp + 4)[x] by {
        assert(h[cp + l + x] == t[p + l + x]);
        assert(t[p + l + x] == c[p + x]);
    }
    assert(h.subrange(cp + l, cp + l + 4) =~= hc.subrange(cp, cp + 4));
    crate::security::url::lemma_find_from_found(h, n, 0, cp + l);
    assert(crate::vault::close_pos(t) == cp + l);
}

/// A field injected into a note whose front matter is closed and has no
/// field of that name is what extracting that field from the new note gives
/// back; the new note's front matter can be cut out safely when the old
/// one's could.
#[verifier::spinoff_prover]
pub proof fn law_inject_then_extract_existing_front_matter(c: Seq<char>, k: Seq<char>, v: Seq<char>)
    requires
        field_writable(k, v),
        crate::text::starts_with(c, "---"@),
        crate::vault::close_pos(c) >= 0,
        crate::vault::close_pos(c) >= 1 ==> crate::vault::frontmatter_field(c, k) is None,
    ensures
        crate::vault::frontmatter_field(crate::vault::injected(c, k, v), k) == Some(v),
        crate::vault::frontmatter_safe(c) ==> crate::vault::frontmatter_safe(crate::vault::injected(c, k, v)),
{
    lemma_close_after_insert(c, k, v);
    lemma_line_gives_value(k, v);
    let cp = crate::vault::close_pos(c);
    let p = 3 + cp;
    let line = k + ": "@ + v;
    let t = crate::vault::injected(c, k, v);
    let l: int = (1 + line.len()) as int;
    reveal_strlit("\n");
    if cp >= 1 {
        let f = c.subrange(4, p);
        assert(t.subrange(4, 3 + cp + l) =~= f + seq!['\n'] + line);
        lemma_lines_then(f, line);
        let pf = crate::text::split_on(f, '\n');
        let stripped = Seq::new(pf.len(), |i: int| crate::text::strip_last(pf[i], '\r'));
        let lf = crate::text::lines(f);
        lemma_first_field_none(lf, k);
        crate::text::lemma_split_on_nonempty(f, '\n');
        assert forall|i: int| 0 <= i < stripped.len() implies !names_key(#[trigger] stripped[i], k) by {
            if i < pf.len() - 1 {
                assert(lf[i] == stripped[i]);
            } else {
                if names_key(stripped[i], k) {
                    lemma_strip_cr_key(pf[i], k);
                    if pf[i].len() == 0 {
                        crate::text::lemma_first_pos(pf[i], ':');
                    } else {
                        assert(lf[i] == pf[i]);
                    }
                }
            }
        }
        lemma_first_field_append(stripped, seq![line], k);
        assert(stripped.push(line) =~= stripped + seq![line]);
    } else {
        assert(t.subrange(4, 3 + cp + l) =~= line);
        crate::text::lemma_first_pos(line, '\n');
        assert(crate::text::split_on(line, '\n') =~= seq![line]);
        assert(crate::text::lines(line) =~= seq![line]);
    }
    if cp >= 1 {
        assert(t[3] == c[3]);
    }
}

// ---------------------------------------------------------------------------
// Git hook sections
// ---------------------------------------------------------------------------

/// A line with no `#` after its first character, whose opening does not
/// match the marker's, holds no marker (a line starting with `#`).
proof fn lemma_no_marker(s: Seq<char>, m: Seq<char>)
    requires
        m.len() >= 3,
        m[0] == '#',
        forall|i: int| 1 <= i < s.len() ==> s[i] != '#',
        s.len() < 3 || s[0] != '#' || s[2] != m[2],
    ensures
        !crate::text::contains(s, m),
{
    if crate::text::contains(s, m) {
        let i = choose|i: int| crate::text::occurs_at(s, m, i);
        assert(s.subrange(i, i + m.len())[0] == s[i]);
        if i == 0 {
            assert(s.subrange(i, i + m.len())[2] == s[2]);
        }
    }
}

/// The pieces of `x` between line breaks, each followed by a line break.
pub open spec fn with_breaks(ps: Seq<Seq<char>>) -> Seq<char>
    decreases ps.len(),
{
    if ps.len() == 0 {
        seq![]
    } else {
        ps[0] + seq!['\n'] + with_breaks(ps.drop_first())
    }
}

/// Putting the breaks back after the pieces of `x` gives `x` and a break.
proof fn lemma_with_breaks(x: Seq<char>)
    ensures
        with_breaks(crate::text::split_on(x, '\n')) == x + seq!['\n'],
    decreases x.len(),
{
    crate::text::lemma_first_pos(x, '\n');
    let k = crate::text::first_pos(x, '\n');
    let ps = crate::text::split_on(x, '\n');
    if k >= x.len() {
        assert(ps =~= seq![x]);
        assert(ps.drop_first() =~= Seq::<Seq<char>>::empty());
        assert(with_breaks(ps) == ps[0] + seq!['\n'] + with_breaks(ps.drop_first()));
        assert(with_breaks(ps) =~= x + seq!['\n']);
    } else {
        lemma_with_breaks(x.skip(k + 1));
        assert(ps.drop_first() =~= crate::text::split_on(x.skip(k + 1), '\n'));
        assert(ps[0] == x.take(k));
        assert(with_breaks(ps) == ps[0] + seq!['\n'] + with_breaks(ps.drop_first()));
        assert(x =~= x.take(k) + seq!['\n'] + x.skip(k + 1));
        assert(with_breaks(ps) =~= x + seq!['\n']);
    }
}

/// Lines outside any section, before the rest: written out one by one.
proof fn lemma_outside_prefix(a: Seq<Seq<char>>, b: Seq<Seq<char>>)
    requires
        forall|i: int|
            0 <= i < a.len() ==> !crate::text::contains(#[trigger] a[i], crate::misc::hook_marker())
                && !crate::text::contains(a[i], crate::misc::hook_marker_end()),
    ensures
        crate::misc::outside_section(a + b, false) == with_breaks(a) + crate::misc::outside_section(b, false),
    decreases a.len(),
{
    if a.len() == 0 {
        assert(a + b =~= b);
    } else {
        assert((a + b).drop_first() =~= a.drop_first() + b);
        assert((a + b)[0] == a[0]);
        assert(!crate::text::contains(a[0], crate::misc::hook_marker()));
        assert forall|i: int| 0 <= i < a.drop_first().len() implies !crate::text::contains(
            #[trigger] a.drop_first()[i],
            crate::misc::hook_marker(),
        ) && !crate::text::contains(a.drop_first()[i], crate::misc::hook_marker_end()) by {
            assert(a.drop_first()[i] == a[i + 1]);
        }
        lemma_outside_prefix(a.drop_first(), b);
        assert(crate::misc::outside_section(a + b, false) == a[0] + "\n"@ + crate::misc::outside_section(
            a.drop_first() + b,
            false,
        ));
        reveal_strlit("\n");
        assert(with_breaks(a) == a[0] + seq!['\n'] + with_breaks(a.drop_first()));
        assert(crate::misc::outside_section(a + b, false) =~= with_breaks(a) + crate::misc::outside_section(
            b,
            false,
        ));
    }
}


/// A text without line breaks splits into itself.
proof fn lemma_split_single(s: Seq<char>)
    requires
        forall|i: int| 0 <= i < s.len() ==> s[i] != '\n',
    ensures
        crate::text::split_on(s, '\n') == seq![s],
{
    crate::text::lemma_first_pos(s, '\n');
}

/// The lines of a hook after the section was added: the hook's own pieces,
/// then the section's lines.
#[verifier::spinoff_prover]
proof fn lemma_hook_lines(x: Seq<char>)
    requires
        forall|i: int|
            0 <= i < crate::text::split_on(x, '\n').len() ==> crate::text::strip_last(
                #[trigger] crate::text::split_on(x, '\n')[i],
                '\r',
            ) == crate::text::split_on(x, '\n')[i],
    ensures
        crate::text::lines(x + "\n"@ + crate::misc::hook_marker() + crate::misc::hook_script()
            + crate::misc::hook_marker_end() + "\n"@) == crate::text::split_on(x, '\n') + seq![
            crate::misc::hook_marker(),
            "# Auto-rebuild kodex graph if this project is registered (no-op otherwise)."@,
            "if command -v kodex >/dev/null 2>&1; then"@,
            "    kodex auto-update &"@,
            "fi"@,
            crate::misc::hook_marker_end(),
        ],
{
    let m = "# >>> kodex >>>"@;
    let s1 = "# Auto-rebuild kodex graph if this project is registered (no-op otherwise)."@;
    let s2 = "if command -v kodex >/dev/null 2>&1; then"@;
    let s3 = "    kodex auto-update &"@;
    let s4 = "fi"@;
    let e = "# <<< kodex <<<"@;
    reveal_strlit("# >>> kodex >>>");
    reveal_strlit("# Auto-rebuild kodex graph if this project is registered (no-op otherwise).");
    reveal_strlit("if command -v kodex >/dev/null 2>&1; then");
    reveal_strlit("    kodex auto-update &");
    reveal_strlit("fi");
    reveal_strlit("# <<< kodex <<<");
    reveal_strlit("\n");
    reveal_strlit(
        "\n# Auto-rebuild kodex graph if this project is registered (no-op otherwise).\nif command -v kodex >/dev/null 2>&1; then\n    kodex auto-update &\nfi\n",
    );
    let nl = seq!['\n'];
    let empty = Seq::<char>::empty();
    let r6 = e + nl + empty;
    let r5 = s4 + nl + r6;
    let r4 = s3 + nl + r5;
    let r3 = s2 + nl + r4;
    let r2 = s1 + nl + r3;
    let r1 = m + nl + r2;
    let y = x + "\n"@ + crate::misc::hook_marker() + crate::misc::hook_script() + crate::misc::hook_marker_end()
        + "\n"@;
    assert(y =~= x + nl + r1);
    lemma_split_concat(x, '\n', r1);
    lemma_split_concat(m, '\n', r2);
    lemma_split_concat(s1, '\n', r3);
    lemma_split_concat(s2, '\n', r4);
    lemma_split_concat(s3, '\n', r5);
    lemma_split_concat(s4, '\n', r6);
    lemma_split_concat(e, '\n', empty);
    assert forall|i: int| 0 <= i < m.len() implies m[i] != '\n' by {}
    assert forall|i: int| 0 <= i < s1.len() implies s1[i] != '\n' by {}
    assert forall|i: int| 0 <= i < s2.len() implies s2[i] != '\n' by {}
    assert forall|i: int| 0 <= i < s3.len() implies s3[i] != '\n' by {}
    assert forall|i: int| 0 <= i < s4.len() implies s4[i] != '\n' by {}
    assert forall|i: int| 0 <= i < e.len() implies e[i] != '\n' by {}
    lemma_split_single(m);
    lemma_split_single(s1);
    lemma_split_single(s2);
    lemma_split_single(s3);
    lemma_split_single(s4);
    lemma_split_single(e);
    lemma_split_single(empty);
    let p = crate::text::split_on(x, '\n');
    let parts = crate::text::split_on(y, '\n');
    assert(parts =~= p + seq![m, s1, s2, s3, s4, e, empty]);
    let tail = seq![m, s1, s2, s3, s4, e];
    assert(crate::text::lines(y) =~= p + tail);
}

/// Adding this tool's section to a git hook and removing it again gives the
/// hook back, followed by a line break (so the same text up to trailing
/// white space), for a non-empty hook none of whose lines holds a section
/// marker or ends with a carriage return.
#[verifier::spinoff_prover]
pub proof fn law_hook_section_round_trip(x: Seq<char>)
    requires
        x.len() > 0,
        !crate::text::contains(x, crate::misc::hook_marker()),
        forall|i: int|
            0 <= i < crate::text::split_on(x, '\n').len() ==> !crate::text::contains(
                #[trigger] crate::text::split_on(x, '\n')[i],
                crate::misc::hook_marker(),
            ) && !crate::text::contains(crate::text::split_on(x, '\n')[i], crate::misc::hook_marker_end())
                && crate::text::strip_last(crate::text::split_on(x, '\n')[i], '\r') == crate::text::split_on(
                x,
                '\n',
            )[i],
    ensures
        crate::misc::with_hook_section(x) matches Some(y) && crate::misc::without_hook_section(y) matches Some(
            r,
        ) && r.0 == x + "\n"@ && crate::text::trim_end(r.0) == crate::text::trim_end(x),
{
    reveal_strlit("\n");
    reveal_strlit("# >>> kodex >>>");
    reveal_strlit("# <<< kodex <<<");
    reveal_strlit("# Auto-rebuild kodex graph if this project is registered (no-op otherwise).");
    reveal_strlit("if command -v kodex >/dev/null 2>&1; then");
    reveal_strlit("    kodex auto-update &");
    let m = crate::misc::hook_marker();
    let e = crate::misc::hook_marker_end();
    let y = x + "\n"@ + m + crate::misc::hook_script() + e + "\n"@;
    assert(crate::misc::with_hook_section(x) == Some(y));
    lemma_hook_lines(x);
    let p = crate::text::split_on(x, '\n');
    let s1 = "# Auto-rebuild kodex graph if this project is registered (no-op otherwise)."@;
    let s2 = "if command -v kodex >/dev/null 2>&1; then"@;
    let s3 = "    kodex auto-update &"@;
    let tail = seq![m, s1, s2, s3, "fi"@, e];
    lemma_outside_prefix(p, tail);
    let at: int = (x.len() + 1) as int;
    assert(y.subrange(at, at + m.len()) =~= m);
    assert(crate::text::occurs_at(y, m, at));
    assert(crate::text::contains(y, m));
    assert(m.subrange(0, m.len() as int) =~= m);
    assert(crate::text::occurs_at(m, m, 0));
    lemma_no_marker(s1, e);
    lemma_no_marker(s2, e);
    lemma_no_marker(s3, e);
    assert(tail.drop_first() =~= seq![s1, s2, s3, "fi"@, e]);
    assert(crate::misc::outside_section(tail, false) =~= Seq::<char>::empty()) by {
        let t1 = tail.drop_first();
        let t2 = t1.drop_first();
        let t3 = t2.drop_first();
        let t4 = t3.drop_first();
        let t5 = t4.drop_first();
        let t6 = t5.drop_first();
        assert(t2 =~= seq![s2, s3, "fi"@, e]);
        assert(t3 =~= seq![s3, "fi"@, e]);
        assert(t4 =~= seq!["fi"@, e]);
        assert(t5 =~= seq![e]);
        assert(t6 =~= Seq::<Seq<char>>::empty());
        assert(crate::misc::outside_section(t6, true) == Seq::<char>::empty());
        assert(crate::misc::outside_section(t6, false) == Seq::<char>::empty());
        assert(crate::misc::outside_section(t5, true) == Seq::<char>::empty());
        assert(crate::misc::outside_section(t5, false) == Seq::<char>::empty()) by {
            assert(e.subrange(0, e.len() as int) =~= e);
            assert(crate::text::occurs_at(e, e, 0));
        }
        assert(crate::misc::outside_section(t4, true) == Seq::<char>::empty());
        assert(crate::misc::outside_section(t3, true) == Seq::<char>::empty());
        assert(crate::misc::outside_section(t2, true) == Seq::<char>::empty());
        assert(crate::misc::outside_section(t1, true) == Seq::<char>::empty());
    }
    lemma_with_breaks(x);
    assert(crate::misc::outside_section(crate::text::lines(y), false) =~= x + "\n"@);
    let r = x + "\n"@;
    assert(r.drop_last() =~= x);
    assert(crate::text::is_whitespace(r.last()));
}

// ---------------------------------------------------------------------------
// Identifiers from parts
// ---------------------------------------------------------------------------

/// An identifier's words joined by `_`, before lower-casing: runs outside
/// `[a-zA-Z0-9]` become `_`, and `_` at either end is removed.
pub open spec fn id_core(s: Seq<char>) -> Seq<char> {
    trim_char(collapse(s), '_')
}

/// Two cores joined by `_`, an empty one contributing nothing.
pub open spec fn join_cores(p: Seq<char>, q: Seq<char>) -> Seq<char> {
    if p.len() == 0 {
        q
    } else if q.len() == 0 {
        p
    } else {
        p + seq!['_'] + q
    }
}

/// The cores of parts, joined in order.
pub open spec fn fold_cores(ts: Seq<Seq<char>>) -> Seq<char>
    decreases ts.len(),
{
    if ts.len() == 0 {
        seq![]
    } else {
        join_cores(fold_cores(ts.drop_last()), ts.last())
    }
}

/// The cores of a list of parts.
pub open spec fn cores(ps: Seq<Seq<char>>) -> Seq<Seq<char>> {
    Seq::new(ps.len(), |i: int| id_core(ps[i]))
}

proof fn lemma_strip_lead_push(x: Seq<char>, d: char)
    ensures
        strip_lead_char(x.push(d), '_') == if d == '_' && strip_lead_char(x, '_').len() == 0 {
            Seq::<char>::empty()
        } else {
            strip_lead_char(x, '_').push(d)
        },
    decreases x.len(),
{
    if x.len() == 0 {
        assert(x.push(d) =~= seq![d]);
        assert(strip_lead_char(x, '_') == x);
        if d == '_' {
            assert(seq![d].drop_first() =~= Seq::<char>::empty());
            assert(strip_lead_char(seq![d], '_') == strip_lead_char(seq![d].drop_first(), '_'));
            assert(strip_lead_char(Seq::<char>::empty(), '_') == Seq::<char>::empty());
        } else {
            assert(strip_lead_char(seq![d], '_') == seq![d]);
            assert(x.push(d) =~= strip_lead_char(x, '_').push(d));
        }
    } else if x[0] == '_' {
        assert(x.push(d)[0] == '_');
        assert(x.push(d).drop_first() =~= x.drop_first().push(d));
        lemma_strip_lead_push(x.drop_first(), d);
    } else {
        assert(x.push(d)[0] == x[0]);
    }
}

proof fn lemma_strip_lead_keeps_last(x: Seq<char>)
    requires
        x.len() > 0,
        x.last() != '_',
    ensures
        strip_lead_char(x, '_').len() > 0,
        strip_lead_char(x, '_').last() == x.last(),
    decreases x.len(),
{
    if x[0] == '_' {
        assert(x.drop_first().len() > 0);
        assert(x.drop_first().last() == x.last());
        lemma_strip_lead_keeps_last(x.drop_first());
    }
}

proof fn lemma_core_empty()
    ensures
        id_core(Seq::<char>::empty()) == Seq::<char>::empty(),
{
}

/// How the core grows by one character.
proof fn lemma_core_step(s: Seq<char>, d: char)
    ensures
        !is_ascii_alnum(d) ==> id_core(s.push(d)) == id_core(s),
        is_ascii_alnum(d) && s.len() > 0 && is_ascii_alnum(s.last()) ==> id_core(s).len() > 0 && id_core(s.push(d))
            == id_core(s).push(d),
        is_ascii_alnum(d) && !(s.len() > 0 && is_ascii_alnum(s.last())) ==> id_core(s.push(d)) == join_cores(
            id_core(s),
            seq![d],
        ),
{
    let t = s.push(d);
    assert(t.drop_last() =~= s);
    let c = collapse(s);
    lemma_collapse_shape(s);
    lemma_strip_lead_shape(c);
    let l = strip_lead_char(c, '_');
    if is_ascii_alnum(d) {
        assert(collapse(t) == c.push(d));
        lemma_strip_lead_push(c, d);
        assert(strip_lead_char(c.push(d), '_') == l.push(d));
        assert(strip_trail_char(l.push(d), '_') == l.push(d));
        if s.len() > 0 && is_ascii_alnum(s.last()) {
            assert(c.last() != '_');
            lemma_strip_lead_keeps_last(c);
            assert(strip_trail_char(l, '_') == l);
        } else if s.len() == 0 {
            assert(c =~= Seq::<char>::empty());
            assert(l =~= Seq::<char>::empty());
            assert(l.push(d) =~= seq![d]);
        } else {
            assert(c.last() == '_');
            if l.len() == 0 {
                assert(l.push(d) =~= seq![d]);
            } else {
                assert(l.last() == c.last());
                assert(l[0] != '_');
                assert(l.len() >= 2);
                assert(l[l.len() - 2] != '_');
                let m = l.drop_last();
                assert(m.last() == l[l.len() - 2]);
                assert(strip_trail_char(l, '_') == strip_trail_char(m, '_'));
                assert(strip_trail_char(m, '_') == m);
                assert(l.push(d) =~= m + seq!['_'] + seq![d]);
            }
        }
    } else {
        if s.len() >= 1 && !is_ascii_alnum(s.last()) {
            assert(t[t.len() - 2] == s.last());
            assert(collapse(t) == c);
        } else {
            assert(collapse(t) == c.push('_'));
            lemma_strip_lead_push(c, '_');
            if l.len() > 0 {
                assert(l.push('_').drop_last() =~= l);
                assert(strip_trail_char(l.push('_'), '_') == strip_trail_char(l, '_'));
            }
        }
    }
}

proof fn lemma_join_cores_assoc(p: Seq<char>, q: Seq<char>, r: Seq<char>)
    ensures
        join_cores(join_cores(p, q), r) == join_cores(p, join_cores(q, r)),
{
    if p.len() > 0 && q.len() > 0 && r.len() > 0 {
        assert((p + seq!['_'] + q) + seq!['_'] + r =~= p + seq!['_'] + (q + seq!['_'] + r));
    }
}

/// The core of two texts joined by `_` joins their cores.
proof fn lemma_core_join(a: Seq<char>, b: Seq<char>)
    ensures
        id_core(a + seq!['_'] + b) == join_cores(id_core(a), id_core(b)),
    decreases b.len(),
{
    lemma_core_empty();
    if b.len() == 0 {
        assert(a + seq!['_'] + b =~= a.push('_'));
        lemma_core_step(a, '_');
    } else {
        let b1 = b.drop_last();
        let d = b.last();
        let x = a + seq!['_'] + b1;
        assert(a + seq!['_'] + b =~= x.push(d));
        assert(b =~= b1.push(d));
        lemma_core_join(a, b1);
        lemma_core_step(x, d);
        lemma_core_step(b1, d);
        if b1.len() > 0 {
            assert(x.last() == b1.last());
        } else {
            assert(x.last() == '_');
            assert(b1 =~= Seq::<char>::empty());
        }
        if is_ascii_alnum(d) {
            if b1.len() > 0 && is_ascii_alnum(b1.last()) {
                if id_core(a).len() > 0 {
                    assert((id_core(a) + seq!['_'] + id_core(b1)).push(d) =~= id_core(a) + seq!['_'] + id_core(
                        b1,
                    ).push(d));
                }
            } else {
                lemma_join_cores_assoc(id_core(a), id_core(b1), seq![d]);
            }
        }
    }
}

/// The core of parts joined by `_` joins the parts' cores.
proof fn lemma_core_join_all(ps: Seq<Seq<char>>)
    ensures
        id_core(crate::id::join_us(ps)) == fold_cores(cores(ps)),
    decreases ps.len(),
{
    lemma_core_empty();
    if ps.len() == 0 {
        assert(crate::id::join_us(ps) == Seq::<char>::empty());
        assert(cores(ps) =~= Seq::<Seq<char>>::empty());
    } else if ps.len() == 1 {
        assert(cores(ps).drop_last() =~= Seq::<Seq<char>>::empty());
        assert(cores(ps).last() == id_core(ps[0]));
        assert(crate::id::join_us(ps) == ps[0]);
        assert(fold_cores(cores(ps)) == join_cores(fold_cores(cores(ps).drop_last()), cores(ps).last()));
        assert(fold_cores(Seq::<Seq<char>>::empty()) == Seq::<char>::empty());
    } else {
        lemma_core_join_all(ps.drop_last());
        lemma_core_join(crate::id::join_us(ps.drop_last()), ps.last());
        assert(cores(ps).drop_last() =~= cores(ps.drop_last()));
        assert(cores(ps).last() == id_core(ps.last()));
        assert(fold_cores(cores(ps)) == join_cores(fold_cores(cores(ps).drop_last()), cores(ps).last()));
        assert(crate::id::join_us(ps) == crate::id::join_us(ps.drop_last()) + seq!['_'] + ps.last());
    }
}

/// Texts alike in which characters are letters or digits, and equal in those.
pub open spec fn same_shape(x: Seq<char>, y: Seq<char>) -> bool {
    &&& x.len() == y.len()
    &&& forall|i: int|
        0 <= i < x.len() ==> is_ascii_alnum(#[trigger] x[i]) == is_ascii_alnum(y[i]) && (is_ascii_alnum(x[i])
            ==> x[i] == y[i])
}

proof fn lemma_collapse_shape_only(x: Seq<char>, y: Seq<char>)
    requires
        same_shape(x, y),
    ensures
        collapse(x) == collapse(y),
    decreases x.len(),
{
    if x.len() > 0 {
        assert(same_shape(x.drop_last(), y.drop_last())) by {
            assert forall|i: int| 0 <= i < x.drop_last().len() implies is_ascii_alnum(#[trigger] x.drop_last()[i])
                == is_ascii_alnum(y.drop_last()[i]) && (is_ascii_alnum(x.drop_last()[i]) ==> x.drop_last()[i]
                == y.drop_last()[i]) by {
                assert(x.drop_last()[i] == x[i]);
                assert(y.drop_last()[i] == y[i]);
            }
        }
        lemma_collapse_shape_only(x.drop_last(), y.drop_last());
        assert(is_ascii_alnum(x[x.len() - 1]) == is_ascii_alnum(y[y.len() - 1]));
        if x.len() >= 2 {
            assert(is_ascii_alnum(x[x.len() - 2]) == is_ascii_alnum(y[y.len() - 2]));
        }
    }
}

/// Trimming a part of its `_` and `.` ends leaves its core as it is.
proof fn lemma_core_trim_part(p: Seq<char>)
    ensures
        id_core(crate::id::trim_part(p)) == id_core(p),
{
    lemma_core_lead(p);
    lemma_core_trail(p.skip(crate::id::lead_edges(p)));
}

proof fn lemma_core_lead(p: Seq<char>)
    ensures
        0 <= crate::id::lead_edges(p) <= p.len(),
        id_core(p.skip(crate::id::lead_edges(p))) == id_core(p),
    decreases p.len(),
{
    lemma_core_empty();
    if p.len() > 0 && crate::id::is_part_edge(p[0]) {
        let r = p.drop_first();
        lemma_core_lead(r);
        assert(p.skip(crate::id::lead_edges(p)) =~= r.skip(crate::id::lead_edges(r)));
        let q = Seq::<char>::empty() + seq!['_'] + r;
        assert(same_shape(p, q)) by {
            assert forall|i: int| 0 <= i < p.len() implies is_ascii_alnum(#[trigger] p[i]) == is_ascii_alnum(q[i])
                && (is_ascii_alnum(p[i]) ==> p[i] == q[i]) by {
                if i > 0 {
                    assert(p[i] == r[i - 1]);
                    assert(q[i] == r[i - 1]);
                }
            }
        }
        lemma_collapse_shape_only(p, q);
        lemma_core_join(Seq::<char>::empty(), r);
    } else {
        assert(p.skip(0) =~= p);
    }
}

proof fn lemma_core_trail(p: Seq<char>)
    ensures
        id_core(crate::id::strip_trail_edges(p)) == id_core(p),
    decreases p.len(),
{
    if p.len() > 0 && crate::id::is_part_edge(p.last()) {
        lemma_core_trail(p.drop_last());
        lemma_core_step(p.drop_last(), p.last());
        assert(p.drop_last().push(p.last()) =~= p);
    }
}

/// Dropping empty parts and trimming the others leaves the joined cores.
proof fn lemma_fold_pieces(parts: Seq<Seq<char>>)
    ensures
        fold_cores(cores(crate::id::id_pieces(parts))) == fold_cores(cores(parts)),
    decreases parts.len(),
{
    lemma_core_empty();
    if parts.len() > 0 {
        lemma_fold_pieces(parts.drop_last());
        assert(cores(parts).drop_last() =~= cores(parts.drop_last()));
        let pc = crate::id::id_pieces(parts.drop_last());
        if parts.last().len() == 0 {
            assert(parts.last() =~= Seq::<char>::empty());
        } else {
            lemma_core_trim_part(parts.last());
            assert(cores(pc.push(crate::id::trim_part(parts.last()))).drop_last() =~= cores(pc));
        }
    }
}

/// An identifier made from parts is the normal form of the parts joined by
/// `_` (what `normalize_id(&parts.join("_"))` gives).
pub proof fn law_make_id_normalizes_joined(parts: Seq<Seq<char>>)
    ensures
        spec_make_id(parts) == spec_normalize_id(crate::id::join_us(parts)),
        spec_make_id(parts) == spec_normalize_id(crate::text::join_with(parts, "_"@)),
{
    lemma_core_join_all(crate::id::id_pieces(parts));
    lemma_core_join_all(parts);
    lemma_fold_pieces(parts);
    lemma_join_us_is_join(parts);
}

/// Joining with `_` is joining with the text `"_"`.
proof fn lemma_join_us_is_join(parts: Seq<Seq<char>>)
    ensures
        crate::id::join_us(parts) == crate::text::join_with(parts, "_"@),
    decreases parts.len(),
{
    reveal_strlit("_");
    if parts.len() >= 2 {
        lemma_join_us_is_join(parts.drop_last());
    }
}

/// The normal form of any text is an identifier in normal form: letters,
/// digits and single `_` between them, no `_` at either end, no upper-case
/// letter.
pub proof fn law_normalize_is_normal(s: Seq<char>)
    ensures
        is_normal_id(spec_normalize_id(s)),
{
    lemma_normal_form(s);
}

/// The file type that a name gives back, by its exact lower-case name.
pub open spec fn file_type_named(w: Seq<char>) -> Option<crate::types::FileType> {
    if w == crate::types::file_type_name(crate::types::FileType::Code) {
        Some(crate::types::FileType::Code)
    } else if w == crate::types::file_type_name(crate::types::FileType::Document) {
        Some(crate::types::FileType::Document)
    } else if w == crate::types::file_type_name(crate::types::FileType::Paper) {
        Some(crate::types::FileType::Paper)
    } else if w == crate::types::file_type_name(crate::types::FileType::Image) {
        Some(crate::types::FileType::Image)
    } else if w == crate::types::file_type_name(crate::types::FileType::Video) {
        Some(crate::types::FileType::Video)
    } else if w == crate::types::file_type_name(crate::types::FileType::Rationale) {
        Some(crate::types::FileType::Rationale)
    } else {
        None
    }
}

proof fn lemma_ignore_case_is_lower(s: Seq<char>, w: Seq<char>)
    ensures
        crate::types::eq_ignore_case(s, w) == (lower_all(s) == w),
{
    if crate::types::eq_ignore_case(s, w) {
        assert(lower_all(s) =~= w);
    }
    if lower_all(s) == w {
        assert forall|i: int| 0 <= i < s.len() implies ascii_lower(#[trigger] s[i]) == w[i] by {
            assert(lower_all(s)[i] == ascii_lower(s[i]));
        }
    }
}

/// Parsing a file type name ignores case: it gives the type whose name is
/// the text lower-cased (ASCII letters), and nothing when no name is.
pub proof fn law_file_type_parse_is_lowercase_lookup(s: Seq<char>)
    ensures
        crate::types::spec_file_type_from(s) == file_type_named(lower_all(s)),
{
    lemma_ignore_case_is_lower(s, crate::types::file_type_name(crate::types::FileType::Code));
    lemma_ignore_case_is_lower(s, crate::types::file_type_name(crate::types::FileType::Document));
    lemma_ignore_case_is_lower(s, crate::types::file_type_name(crate::types::FileType::Paper));
    lemma_ignore_case_is_lower(s, crate::types::file_type_name(crate::types::FileType::Image));
    lemma_ignore_case_is_lower(s, crate::types::file_type_name(crate::types::FileType::Video));
    lemma_ignore_case_is_lower(s, crate::types::file_type_name(crate::types::FileType::Rationale));
}

} // verus!
