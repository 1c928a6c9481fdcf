//! Filters and traversals over the code graph.
use vstd::prelude::*;

use crate::graph::KodexGraph;
use crate::text::{contains, lowercase};
use crate::types::strings_view;

verus! {

/// Optional constraints on graph traversal.
///
/// `source_pattern` and `community` constrain both seeding and expansion.
/// `hub_threshold` only constrains expansion: a traversal visits a hub but
/// does not go on through it.
#[derive(Debug)]
pub struct TraversalFilter {
    pub source_pattern: Option<String>,
    pub community: Option<usize>,
    pub hub_threshold: Option<usize>,
}

impl Default for TraversalFilter {
    fn default() -> (r: TraversalFilter)
        ensures
            r.source_pattern is None,
            r.community is None,
            r.hub_threshold is None,
    {
        TraversalFilter { source_pattern: None, community: None, hub_threshold: None }
    }
}

impl TraversalFilter {
    /// A node passes the filter: it exists, its source file contains the
    /// source pattern (both lower-cased), and it is in the community.
    pub open spec fn spec_matches(&self, g: &KodexGraph, id: Seq<char>) -> bool {
        let i = g.spec_node_index(id);
        &&& i >= 0
        &&& match self.source_pattern {
            Some(sp) => contains(lowercase(g.nodes@[i].source_file@), lowercase(sp@)),
            None => true,
        }
        &&& match self.community {
            Some(c) => g.nodes@[i].community == Some(c),
            None => true,
        }
    }

    /// A traversal may go on through `id`: it is not a hub.
    pub open spec fn spec_expands(&self, g: &KodexGraph, id: Seq<char>) -> bool {
        match self.hub_threshold {
            Some(t) => g.spec_degree(id) <= t,
            None => true,
        }
    }

    /// Whether the node `id` passes the filter (see [`Self::spec_matches`]).
    pub fn matches_node(&self, graph: &KodexGraph, id: &str) -> (r: bool)
        ensures
            r == self.spec_matches(graph, id@),
    {
        let node = match graph.get_node(id) {
            Some(n) => n,
            None => return false,
        };
        match &self.source_pattern {
            Some(sp) => {
                let hay = crate::text::str_chars(crate::text::to_lower(node.source_file.as_str()).as_str());
                let pat = crate::text::str_chars(crate::text::to_lower(sp.as_str()).as_str());
                if !crate::text::contains_exec(hay.as_slice(), pat.as_slice()) {
                    return false;
                }
            },
            None => {},
        }
        match self.community {
            Some(cid) => {
                match node.community {
                    Some(c) => {
                        if c != cid {
                            return false;
                        }
                    },
                    None => {
                        return false;
                    },
                }
            },
            None => {},
        }
        true
    }

    /// Whether the filter constrains which nodes are selected: a source
    /// pattern or a community is set (a hub threshold alone does not count).
    pub fn is_active(&self) -> (r: bool)
        ensures
            r == (self.source_pattern is Some || self.community is Some),
    {
        self.source_pattern.is_some() || self.community.is_some()
    }

    /// Whether a traversal may expand `id` (see [`Self::spec_expands`]).
    pub fn expands(&self, graph: &KodexGraph, id: &str) -> (r: bool)
        ensures
            r == self.spec_expands(graph, id@),
    {
        match self.hub_threshold {
            Some(t) => graph.degree(id) <= t,
            None => true,
        }
    }
}

/// The character sequences of a list of strings, as a set.
pub open spec fn vset(v: Seq<String>) -> Set<Seq<char>> {
    strings_view(v).to_set()
}

/// The pairs of a list of string pairs, as sequences.
pub open spec fn pairs_view(v: Seq<(String, String)>) -> Seq<(Seq<char>, Seq<char>)> {
    Seq::new(v.len(), |i: int| (v[i].0@, v[i].1@))
}

/// The pairs of a list of string pairs, as a set.
pub open spec fn pset(v: Seq<(String, String)>) -> Set<(Seq<char>, Seq<char>)> {
    pairs_view(v).to_set()
}

/// One level of a breadth-first traversal: the nodes visited so far, the
/// nodes reached last, and the edges followed so far.
pub struct BfsState {
    pub visited: Set<Seq<char>>,
    pub frontier: Set<Seq<char>>,
    pub edges: Set<(Seq<char>, Seq<char>)>,
}

/// With `visited` seen so far, a traversal may step from `n` to `m`: `n` is
/// not a hub, `m` is unvisited and passes the filter.
pub open spec fn may_step(
    g: &KodexGraph,
    f: &TraversalFilter,
    visited: Set<Seq<char>>,
    n: Seq<char>,
    m: Seq<char>,
) -> bool {
    f.spec_expands(g, n) && !visited.contains(m) && f.spec_matches(g, m)
}

/// The edges (n, m) followed from the nodes `ns`: `m` is a neighbour of `n`
/// and the step is allowed.
pub open spec fn steps_from(
    g: &KodexGraph,
    f: &TraversalFilter,
    visited: Set<Seq<char>>,
    ns: Set<Seq<char>>,
) -> Set<(Seq<char>, Seq<char>)> {
    Set::new(
        |e: (Seq<char>, Seq<char>)|
            ns.contains(e.0) && g.spec_neighbors(e.0).contains(e.1) && may_step(g, f, visited, e.0, e.1),
    )
}

/// The nodes reached from `ns` in one step.
pub open spec fn reached_from(
    g: &KodexGraph,
    f: &TraversalFilter,
    visited: Set<Seq<char>>,
    ns: Set<Seq<char>>,
) -> Set<Seq<char>> {
    Set::new(
        |m: Seq<char>|
            exists|n: Seq<char>|
                #![trigger ns.contains(n), g.spec_neighbors(n)]
                ns.contains(n) && g.spec_neighbors(n).contains(m) && may_step(g, f, visited, n, m),
    )
}

/// The state of a breadth-first traversal from `starts` after `k` levels:
/// each level visits the nodes reached from the previous level's nodes.
pub open spec fn bfs_levels(
    g: &KodexGraph,
    f: &TraversalFilter,
    starts: Set<Seq<char>>,
    k: nat,
) -> BfsState
    decreases k,
{
    if k == 0 {
        BfsState { visited: starts, frontier: starts, edges: Set::empty() }
    } else {
        let p = bfs_levels(g, f, starts, (k - 1) as nat);
        BfsState {
            visited: p.visited.union(reached_from(g, f, p.visited, p.frontier)),
            frontier: reached_from(g, f, p.visited, p.frontier),
            edges: p.edges.union(steps_from(g, f, p.visited, p.frontier)),
        }
    }
}

/// The nodes that `n` alone reaches in one step.
pub open spec fn reached_by(
    g: &KodexGraph,
    f: &TraversalFilter,
    visited: Set<Seq<char>>,
    n: Seq<char>,
) -> Set<Seq<char>> {
    Set::new(|m: Seq<char>| g.spec_neighbors(n).contains(m) && may_step(g, f, visited, n, m))
}

/// The edges that `n` alone contributes in one step.
pub open spec fn steps_by(
    g: &KodexGraph,
    f: &TraversalFilter,
    visited: Set<Seq<char>>,
    n: Seq<char>,
) -> Set<(Seq<char>, Seq<char>)> {
    Set::new(
        |e: (Seq<char>, Seq<char>)|
            e.0 == n && g.spec_neighbors(n).contains(e.1) && may_step(g, f, visited, n, e.1),
    )
}

proof fn lemma_reached_insert(
    g: &KodexGraph,
    f: &TraversalFilter,
    v: Set<Seq<char>>,
    t: Set<Seq<char>>,
    n: Seq<char>,
)
    ensures
        reached_from(g, f, v, t.insert(n)) == reached_from(g, f, v, t).union(reached_by(g, f, v, n)),
        steps_from(g, f, v, t.insert(n)) == steps_from(g, f, v, t).union(steps_by(g, f, v, n)),
{
    let a = reached_from(g, f, v, t.insert(n));
    let b = reached_from(g, f, v, t).union(reached_by(g, f, v, n));
    assert forall|m: Seq<char>| a.contains(m) implies b.contains(m) by {
        let w = choose|w: Seq<char>|
            #![trigger t.insert(n).contains(w), g.spec_neighbors(w)]
            t.insert(n).contains(w) && g.spec_neighbors(w).contains(m) && may_step(g, f, v, w, m);
        if w != n {
            assert(t.contains(w));
        }
    }
    assert forall|m: Seq<char>| b.contains(m) implies a.contains(m) by {
        if reached_by(g, f, v, n).contains(m) {
            assert(t.insert(n).contains(n));
        } else {
            let w = choose|w: Seq<char>|
                #![trigger t.contains(w), g.spec_neighbors(w)]
                t.contains(w) && g.spec_neighbors(w).contains(m) && may_step(g, f, v, w, m);
            assert(t.insert(n).contains(w));
        }
    }
    assert(a =~= b);
    assert(steps_from(g, f, v, t.insert(n)) =~= steps_from(g, f, v, t).union(steps_by(g, f, v, n)));
}

/// One level: the nodes reached from `frontier` (each once, in the order
/// found), with the edges followed appended to `edges`.
fn bfs_level(
    g: &KodexGraph,
    f: &TraversalFilter,
    visited: &Vec<String>,
    frontier: &Vec<String>,
    edges: &mut Vec<(String, String)>,
) -> (next: Vec<String>)
    ensures
        vset(next@) == reached_from(g, f, vset(visited@), vset(frontier@)),
        strings_view(next@).no_duplicates(),
        pset(final(edges)@) == pset(old(edges)@).union(
            steps_from(g, f, vset(visited@), vset(frontier@)),
        ),
{
    let ghost v = vset(visited@);
    let ghost fr = strings_view(frontier@);
    let ghost e0 = pset(edges@);
    let mut next: Vec<String> = Vec::new();
    let len = frontier.len();
    proof {
        assert(fr.take(0).to_set() =~= Set::empty());
        assert(reached_from(g, f, v, Set::empty()) =~= Set::empty());
        assert(steps_from(g, f, v, Set::empty()) =~= Set::empty());
        assert(vset(next@) =~= Set::empty());
        assert(e0.union(Set::empty()) =~= e0);
    }
    for i in 0..len
        invariant
            len == frontier@.len(),
            fr == strings_view(frontier@),
            v == vset(visited@),
            vset(next@) == reached_from(g, f, v, fr.take(i as int).to_set()),
            strings_view(next@).no_duplicates(),
            pset(edges@) == e0.union(steps_from(g, f, v, fr.take(i as int).to_set())),
    {
        let n = &frontier[i];
        let ghost t = fr.take(i as int).to_set();
        proof {
            assert(fr.take(i + 1) =~= fr.take(i as int).push(n@));
            fr.take(i as int).lemma_push_to_set_commute(n@);
            lemma_reached_insert(g, f, v, t, n@);
        }
        if f.expands(g, n) {
            let nb = g.neighbors(n.as_str());
            let ghost nbv = strings_view(nb@);
            let ghost r0 = vset(next@);
            let ghost p0 = pset(edges@);
            let nlen = nb.len();
            proof {
                assert(Set::new(|m: Seq<char>| nbv.take(0).contains(m) && may_step(g, f, v, n@, m))
                    =~= Set::empty());
                assert(r0.union(Set::empty()) =~= r0);
                assert(Set::new(
                    |e: (Seq<char>, Seq<char>)|
                        e.0 == n@ && nbv.take(0).contains(e.1) && may_step(g, f, v, n@, e.1),
                ) =~= Set::empty());
                assert(p0.union(Set::empty()) =~= p0);
            }
            for j in 0..nlen
                invariant
                    nlen == nb@.len(),
                    nbv == strings_view(nb@),
                    nbv == g.spec_neighbors(n@),
                    v == vset(visited@),
                    f.spec_expands(g, n@),
                    strings_view(next@).no_duplicates(),
                    vset(next@) == r0.union(
                        Set::new(|m: Seq<char>| nbv.take(j as int).contains(m) && may_step(g, f, v, n@, m)),
                    ),
                    pset(edges@) == p0.union(
                        Set::new(
                            |e: (Seq<char>, Seq<char>)|
                                e.0 == n@ && nbv.take(j as int).contains(e.1) && may_step(
                                    g,
                                    f,
                                    v,
                                    n@,
                                    e.1,
                                ),
                        ),
                    ),
            {
                let m = &nb[j];
                assert(nbv[j as int] == m@);
                proof {
                    assert(nbv.take(j + 1) =~= nbv.take(j as int).push(m@));
                    nbv.take(j as int).lemma_push_to_set_commute(m@);
                    assert(nbv.take(j + 1)[j as int] == m@);
                    assert(nbv.take(j + 1).contains(m@));
                    assert forall|x: Seq<char>| nbv.take(j + 1).contains(x) == (nbv.take(j as int).contains(x) || x == m@) by {
                        assert(nbv.take(j + 1).to_set().contains(x) == nbv.take(j as int).to_set().insert(m@).contains(x));
                    }
                }
                let seen = crate::learn::strings_contain(visited, m.as_str());
                if !seen && f.matches_node(g, m.as_str()) {
                    let ghost eb = edges@;
                    edges.push((n.clone(), m.clone()));
                    proof {
                        assert(pairs_view(edges@) =~= pairs_view(eb).push((n@, m@)));
                        pairs_view(eb).lemma_push_to_set_commute((n@, m@));
                        assert(may_step(g, f, v, n@, m@));
                    }
                    if !crate::learn::strings_contain(&next, m.as_str()) {
                        let ghost nx = next@;
                        next.push(m.clone());
                        proof {
                            assert(strings_view(next@) =~= strings_view(nx).push(m@));
                            strings_view(nx).lemma_push_to_set_commute(m@);
                        }
                    } else {
                        assert(vset(next@).contains(m@));
                    }
                    assert(vset(next@) =~= r0.union(
                        Set::new(|x: Seq<char>| nbv.take(j + 1).contains(x) && may_step(g, f, v, n@, x)),
                    ));
                    assert(pset(edges@) =~= p0.union(
                        Set::new(
                            |e: (Seq<char>, Seq<char>)|
                                e.0 == n@ && nbv.take(j + 1).contains(e.1) && may_step(g, f, v, n@, e.1),
                        ),
                    ));
                } else {
                    assert(!may_step(g, f, v, n@, m@));
                    assert(vset(next@) =~= r0.union(
                        Set::new(|x: Seq<char>| nbv.take(j + 1).contains(x) && may_step(g, f, v, n@, x)),
                    ));
                    assert(pset(edges@) =~= p0.union(
                        Set::new(
                            |e: (Seq<char>, Seq<char>)|
                                e.0 == n@ && nbv.take(j + 1).contains(e.1) && may_step(g, f, v, n@, e.1),
                        ),
                    ));
                }
            }
            proof {
                assert(nbv.take(nlen as int) =~= nbv);
                assert(Set::new(|m: Seq<char>| nbv.take(nlen as int).contains(m) && may_step(g, f, v, n@, m))
                    =~= reached_by(g, f, v, n@));
                assert(Set::new(
                    |e: (Seq<char>, Seq<char>)|
                        e.0 == n@ && nbv.take(nlen as int).contains(e.1) && may_step(g, f, v, n@, e.1),
                ) =~= steps_by(g, f, v, n@));
                assert(vset(next@) =~= reached_from(g, f, v, fr.take(i + 1).to_set()));
                assert(pset(edges@) =~= e0.union(steps_from(g, f, v, fr.take(i + 1).to_set())));
            }
        } else {
            proof {
                assert(reached_by(g, f, v, n@) =~= Set::empty());
                assert(steps_by(g, f, v, n@) =~= Set::empty());
                assert(vset(next@) =~= reached_from(g, f, v, fr.take(i + 1).to_set()));
                assert(pset(edges@) =~= e0.union(steps_from(g, f, v, fr.take(i + 1).to_set())));
            }
        }
    }
    assert(fr.take(len as int) =~= fr);
    next
}

/// Breadth-first traversal from `start_nodes`, `depth` levels deep, under a
/// filter: neighbours that fail the filter are dropped, and nodes above the
/// hub threshold are visited but not expanded.
///
/// Returns the visited nodes (each once: the distinct start nodes first, then
/// each level's new nodes) and the edges followed. As sets they are those of
/// [`bfs_levels`] after `depth` levels.
pub fn bfs_filtered(
    graph: &KodexGraph,
    start_nodes: &[String],
    depth: usize,
    filter: &TraversalFilter,
) -> (r: (Vec<String>, Vec<(String, String)>))
    ensures
        vset(r.0@) == bfs_levels(graph, filter, vset(start_nodes@), depth as nat).visited,
        strings_view(r.0@).no_duplicates(),
        pset(r.1@) == bfs_levels(graph, filter, vset(start_nodes@), depth as nat).edges,
{
    let ghost starts = vset(start_nodes@);
    let ghost sv = strings_view(start_nodes@);
    let mut visited: Vec<String> = Vec::new();
    let n = start_nodes.len();
    assert(vset(visited@) =~= sv.take(0).to_set());
    for i in 0..n
        invariant
            n == start_nodes@.len(),
            sv == strings_view(start_nodes@),
            vset(visited@) == sv.take(i as int).to_set(),
            strings_view(visited@).no_duplicates(),
    {
        let s = &start_nodes[i];
        assert(sv[i as int] == s@);
        proof {
            assert(sv.take(i + 1) =~= sv.take(i as int).push(s@));
            sv.take(i as int).lemma_push_to_set_commute(s@);
        }
        if !crate::learn::strings_contain(&visited, s.as_str()) {
            let ghost b = visited@;
            visited.push(s.clone());
            proof {
                assert(strings_view(visited@) =~= strings_view(b).push(s@));
                strings_view(b).lemma_push_to_set_commute(s@);
            }
        } else {
            assert(vset(visited@).contains(s@));
            assert(vset(visited@) =~= sv.take(i + 1).to_set());
        }
    }
    assert(sv.take(n as int) =~= sv);
    let mut frontier = crate::types::clone_strings(&visited);
    let mut edges: Vec<(String, String)> = Vec::new();
    assert(pset(edges@) =~= Set::empty());
    for k in 0..depth
        invariant
            starts == vset(start_nodes@),
            vset(visited@) == bfs_levels(graph, filter, starts, k as nat).visited,
            vset(frontier@) == bfs_levels(graph, filter, starts, k as nat).frontier,
            pset(edges@) == bfs_levels(graph, filter, starts, k as nat).edges,
            strings_view(visited@).no_duplicates(),
    {
        let ghost st = bfs_levels(graph, filter, starts, k as nat);
        let next = bfs_level(graph, filter, &visited, &frontier, &mut edges);
        let ghost nv = strings_view(next@);
        let ghost v0 = strings_view(visited@);
        let m = next.len();
        proof {
            assert forall|x: int| 0 <= x < nv.len() implies !st.visited.contains(#[trigger] nv[x]) by {
                assert(nv.to_set().contains(nv[x]));
            }
        }
        for j in 0..m
            invariant
                m == next@.len(),
                nv == strings_view(next@),
                nv.no_duplicates(),
                strings_view(visited@) == v0 + nv.take(j as int),
                strings_view(visited@).no_duplicates(),
                forall|x: int| 0 <= x < nv.len() ==> !st.visited.contains(#[trigger] nv[x]),
                v0.to_set() == st.visited,
        {
            let x = &next[j];
            assert(nv[j as int] == x@);
            let ghost b = visited@;
            visited.push(x.clone());
            proof {
                assert(strings_view(visited@) =~= strings_view(b).push(x@));
                assert(nv.take(j + 1) =~= nv.take(j as int).push(x@));
                assert(strings_view(visited@) =~= v0 + nv.take(j + 1));
                assert forall|a: int, c: int| 0 <= a < c < strings_view(visited@).len() implies
                    strings_view(visited@)[a] != strings_view(visited@)[c] by {
                    if c == strings_view(visited@).len() - 1 {
                        if a < v0.len() {
                            assert(st.visited.contains(v0[a]));
                        } else {
                            assert(nv[a - v0.len()] == strings_view(visited@)[a]);
                        }
                    } else {
                        assert(strings_view(b)[a] == strings_view(visited@)[a]);
                        assert(strings_view(b)[c] == strings_view(visited@)[c]);
                    }
                }
            }
        }
        proof {
            assert(nv.take(m as int) =~= nv);
            assert forall|x: Seq<char>| vset(visited@).contains(x) == st.visited.union(nv.to_set()).contains(x) by {
                vstd::seq_lib::lemma_seq_concat_contains_all_elements(v0, nv, x);
            }
            assert(vset(visited@) =~= st.visited.union(nv.to_set()));
        }
        frontier = next;
    }
    (visited, edges)
}

/// Breadth-first traversal without a filter (see [`bfs_filtered`]).
pub fn bfs(graph: &KodexGraph, start_nodes: &[String], depth: usize) -> (r: (Vec<String>, Vec<(String, String)>))
    ensures
        exists|f: TraversalFilter|
            f.source_pattern is None && f.community is None && f.hub_threshold is None && vset(r.0@)
                == bfs_levels(graph, &f, vset(start_nodes@), depth as nat).visited && pset(r.1@)
                == #[trigger] bfs_levels(graph, &f, vset(start_nodes@), depth as nat).edges,
        strings_view(r.0@).no_duplicates(),
{
    let f = TraversalFilter::default();
    bfs_filtered(graph, start_nodes, depth, &f)
}

/// The state of a depth-first traversal: the nodes visited, in the order
/// first visited, and the edges followed, in order.
pub struct DfsState {
    pub visited: Seq<Seq<char>>,
    pub edges: Seq<(Seq<char>, Seq<char>)>,
}

/// Depth-first visit of `node` with `depth` levels left: nothing happens when
/// no level is left or `node` was visited; otherwise `node` is visited and
/// each unvisited neighbour in turn is reached by an edge and visited with one
/// level less.
pub open spec fn dfs_node(g: &KodexGraph, node: Seq<char>, depth: nat, st: DfsState) -> DfsState
    decreases depth, 0int,
{
    if depth == 0 || st.visited.contains(node) {
        st
    } else {
        dfs_list(
            g,
            node,
            g.spec_neighbors(node),
            0,
            (depth - 1) as nat,
            DfsState { visited: st.visited.push(node), edges: st.edges },
        )
    }
}

/// The visits from `from` to its neighbours `ns[i..]`, each with `depth`
/// levels left.
pub open spec fn dfs_list(
    g: &KodexGraph,
    from: Seq<char>,
    ns: Seq<Seq<char>>,
    i: int,
    depth: nat,
    st: DfsState,
) -> DfsState
    decreases depth, ns.len() - i + 1,
{
    if i < 0 || i >= ns.len() {
        st
    } else {
        let m = ns[i];
        let st1 = if st.visited.contains(m) {
            st
        } else {
            dfs_node(g, m, depth, DfsState { visited: st.visited, edges: st.edges.push((from, m)) })
        };
        dfs_list(g, from, ns, i + 1, depth, st1)
    }
}

/// Depth-first visits from each of `starts` in turn.
pub open spec fn dfs_starts(g: &KodexGraph, starts: Seq<Seq<char>>, depth: nat) -> DfsState
    decreases starts.len(),
{
    if starts.len() == 0 {
        DfsState { visited: seq![], edges: seq![] }
    } else {
        dfs_node(g, starts.last(), depth, dfs_starts(g, starts.drop_last(), depth))
    }
}

fn dfs_recurse(
    g: &KodexGraph,
    node: &str,
    depth: usize,
    visited: &mut Vec<String>,
    edges: &mut Vec<(String, String)>,
)
    ensures
        strings_view(final(visited)@) == dfs_node(
            g,
            node@,
            depth as nat,
            DfsState { visited: strings_view(old(visited)@), edges: pairs_view(old(edges)@) },
        ).visited,
        pairs_view(final(edges)@) == dfs_node(
            g,
            node@,
            depth as nat,
            DfsState { visited: strings_view(old(visited)@), edges: pairs_view(old(edges)@) },
        ).edges,
    decreases depth,
{
    if depth == 0 || crate::learn::strings_contain(visited, node) {
        return;
    }
    let ghost b = visited@;
    visited.push(String::from_str(node));
    assert(strings_view(visited@) =~= strings_view(b).push(node@));
    let nb = g.neighbors(node);
    let ghost nbv = strings_view(nb@);
    let ghost d = (depth - 1) as nat;
    let ghost init = DfsState { visited: strings_view(visited@), edges: pairs_view(edges@) };
    let ghost goal = dfs_list(g, node@, nbv, 0, d, init);
    let n = nb.len();
    let mut i: usize = 0;
    while i < n
        invariant
            n == nb@.len(),
            nbv == strings_view(nb@),
            nbv == g.spec_neighbors(node@),
            d == depth - 1,
            depth > 0,
            i <= n,
            dfs_list(
                g,
                node@,
                nbv,
                i as int,
                d,
                DfsState { visited: strings_view(visited@), edges: pairs_view(edges@) },
            ) == goal,
        decreases n - i,
    {
        let m = &nb[i];
        assert(nbv[i as int] == m@);
        let ghost cur = DfsState { visited: strings_view(visited@), edges: pairs_view(edges@) };
        if !crate::learn::strings_contain(visited, m.as_str()) {
            let ghost eb = edges@;
            edges.push((String::from_str(node), m.clone()));
            assert(pairs_view(edges@) =~= pairs_view(eb).push((node@, m@)));
            dfs_recurse(g, m.as_str(), depth - 1, visited, edges);
        }
        i = i + 1;
    }
    assert(dfs_node(
        g,
        node@,
        depth as nat,
        DfsState { visited: strings_view(b), edges: init.edges },
    ) == goal);
}

/// Depth-first traversal from each start node in turn, at most `depth` nodes
/// deep along each path: see [`dfs_starts`]. Returns the nodes visited, in the
/// order first visited, and the edges followed, in order.
pub fn dfs(graph: &KodexGraph, start_nodes: &[String], depth: usize) -> (r: (
    Vec<String>,
    Vec<(String, String)>,
))
    ensures
        strings_view(r.0@) == dfs_starts(graph, strings_view(start_nodes@), depth as nat).visited,
        pairs_view(r.1@) == dfs_starts(graph, strings_view(start_nodes@), depth as nat).edges,
{
    let ghost sv = strings_view(start_nodes@);
    let mut visited: Vec<String> = Vec::new();
    let mut edges: Vec<(String, String)> = Vec::new();
    let n = start_nodes.len();
    assert(strings_view(visited@) =~= seq![]);
    assert(pairs_view(edges@) =~= seq![]);
    for i in 0..n
        invariant
            n == start_nodes@.len(),
            sv == strings_view(start_nodes@),
            strings_view(visited@) == dfs_starts(graph, sv.take(i as int), depth as nat).visited,
            pairs_view(edges@) == dfs_starts(graph, sv.take(i as int), depth as nat).edges,
    {
        let s = &start_nodes[i];
        assert(sv[i as int] == s@);
        assert(sv.take(i + 1).drop_last() =~= sv.take(i as int));
        dfs_recurse(graph, s.as_str(), depth, &mut visited, &mut edges);
    }
    assert(sv.take(n as int) =~= sv);
    (visited, edges)
}

/// The filter-passing node ids with at least one edge, in node order.
pub open spec fn degree_candidates(g: &KodexGraph, f: &TraversalFilter) -> Seq<Seq<char>> {
    g.spec_ids().filter(|id: Seq<char>| f.spec_matches(g, id) && g.spec_degree(id) > 0)
}

/// The degrees of a list of node ids, as sort keys.
pub open spec fn degree_keys(g: &KodexGraph, c: Seq<Seq<char>>) -> Seq<u128> {
    Seq::new(c.len(), |i: int| g.spec_degree(c[i]) as u128)
}

/// `r` is the first `n` of the candidates by descending degree, ties in node
/// order.
pub open spec fn top_degree_spec(g: &KodexGraph, f: &TraversalFilter, n: nat, r: Seq<Seq<char>>) -> bool {
    let c = degree_candidates(g, f);
    exists|ord: Seq<usize>|
        #[trigger] crate::sort::stable_desc_order(degree_keys(g, c), ord) && r.len() == (if n
            < c.len() {
            n
        } else {
            c.len()
        }) && forall|i: int| 0 <= i < r.len() ==> r[i] == c[ord[i] as int]
}

/// The `n` filter-passing nodes of highest degree (nodes without edges left
/// out), ties in node order: seeds for a traversal when fuzzy scoring finds
/// nothing within the filter's scope.
pub fn top_degree_in_filter(graph: &KodexGraph, filter: &TraversalFilter, n: usize) -> (r: Vec<
    String,
>)
    ensures
        top_degree_spec(graph, filter, n as nat, strings_view(r@)),
{
    let ghost ids = graph.spec_ids();
    let ghost pred = |id: Seq<char>| filter.spec_matches(graph, id) && graph.spec_degree(id) > 0;
    let mut cand: Vec<String> = Vec::new();
    let mut keys: Vec<u128> = Vec::new();
    let len = graph.nodes.len();
    for i in 0..len
        invariant
            len == graph.nodes@.len(),
            ids == graph.spec_ids(),
            pred == (|id: Seq<char>| filter.spec_matches(graph, id) && graph.spec_degree(id) > 0),
            strings_view(cand@) == ids.take(i as int).filter(pred),
            keys@ == degree_keys(graph, strings_view(cand@)),
    {
        let id = &graph.nodes[i].id;
        assert(ids[i as int] == id@);
        proof {
            reveal(Seq::filter);
            assert(ids.take(i + 1).drop_last() =~= ids.take(i as int));
        }
        if filter.matches_node(graph, id.as_str()) {
            let d = graph.degree(id.as_str());
            if d > 0 {
                let ghost b = cand@;
                cand.push(id.clone());
                keys.push(d as u128);
                assert(strings_view(cand@) =~= strings_view(b).push(id@));
                assert(keys@ =~= degree_keys(graph, strings_view(cand@)));
            }
        }
    }
    assert(ids.take(len as int) =~= ids);
    let ghost c = strings_view(cand@);
    assert(c == degree_candidates(graph, filter));
    let ord = crate::sort::stable_order_desc(&keys);
    let m = if n < cand.len() {
        n
    } else {
        cand.len()
    };
    let mut out: Vec<String> = Vec::new();
    for i in 0..m
        invariant
            m <= cand@.len(),
            c == strings_view(cand@),
            crate::sort::stable_desc_order(keys@, ord@),
            keys@.len() == cand@.len(),
            out@.len() == i,
            forall|j: int| 0 <= j < i ==> (#[trigger] out@[j])@ == c[ord@[j] as int],
    {
        let k = ord[i];
        assert(k < cand@.len());
        out.push(cand[k].clone());
    }
    assert(crate::sort::stable_desc_order(degree_keys(graph, c), ord@));
    assert(strings_view(out@).len() == m);
    assert(forall|j: int| 0 <= j < m ==> strings_view(out@)[j] == c[ord@[j] as int]);
    out
}

/// The community of a node (0 when it has none).
pub open spec fn community_of(n: crate::types::Node) -> usize {
    match n.community {
        Some(c) => c,
        None => 0,
    }
}

/// The ids of the nodes of `ns` in community `c`, in node order.
pub open spec fn community_members(ns: Seq<crate::types::Node>, c: usize) -> Seq<Seq<char>>
    decreases ns.len(),
{
    if ns.len() == 0 {
        seq![]
    } else {
        let p = community_members(ns.drop_last(), c);
        if community_of(ns.last()) == c {
            p.push(ns.last().id@)
        } else {
            p
        }
    }
}

/// The communities of a list of nodes.
pub open spec fn communities_of(ns: Seq<crate::types::Node>) -> Set<usize> {
    Set::new(|c: usize| exists|i: int| 0 <= i < ns.len() && community_of(#[trigger] ns[i]) == c)
}

/// The communities of the graph and their members: each community id once
/// (in order of first appearance), with the ids of its nodes in node order.
pub fn communities_from_graph(graph: &KodexGraph) -> (r: Vec<(usize, Vec<String>)>)
    ensures
        Seq::new(r@.len(), |i: int| r@[i].0).no_duplicates(),
        Seq::new(r@.len(), |i: int| r@[i].0).to_set() == communities_of(graph.nodes@),
        forall|i: int|
            0 <= i < r@.len() ==> strings_view((#[trigger] r@[i]).1@) == community_members(
                graph.nodes@,
                r@[i].0,
            ),
{
    let ghost ns = graph.nodes@;
    let mut keys: Vec<usize> = Vec::new();
    let mut groups: Vec<Vec<String>> = Vec::new();
    let len = graph.nodes.len();
    proof {
        assert(keys@.to_set() =~= communities_of(ns.take(0)));
    }
    for i in 0..len
        invariant
            len == ns.len(),
            ns == graph.nodes@,
            keys@.len() == groups@.len(),
            keys@.no_duplicates(),
            keys@.to_set() == communities_of(ns.take(i as int)),
            forall|k: int|
                0 <= k < keys@.len() ==> strings_view((#[trigger] groups@[k])@) == community_members(
                    ns.take(i as int),
                    keys@[k],
                ),
    {
        let node = &graph.nodes[i];
        let c = match node.community {
            Some(c) => c,
            None => 0,
        };
        assert(c == community_of(ns[i as int]));
        let ghost pre = ns.take(i as int);
        let ghost post = ns.take(i + 1);
        assert(post.drop_last() =~= pre);
        assert(post.last() == ns[i as int]);
        let mut k: usize = 0;
        while k < keys.len() && keys[k] != c
            invariant
                k <= keys@.len(),
                forall|x: int| 0 <= x < k ==> keys@[x] != c,
            decreases keys@.len() - k,
        {
            k = k + 1;
        }
        if k < keys.len() {
            let mut grp = crate::types::clone_strings(&groups[k]);
            let ghost gb = grp@;
            grp.push(node.id.clone());
            assert(strings_view(grp@) =~= strings_view(gb).push(node.id@));
            let ghost gs = groups@;
            groups.set(k, grp);
            proof {
                assert forall|cc: usize| communities_of(post).contains(cc) == communities_of(pre).contains(cc) by {
                    if communities_of(post).contains(cc) && !communities_of(pre).contains(cc) {
                        let w = choose|w: int| 0 <= w < post.len() && community_of(#[trigger] post[w]) == cc;
                        if w < pre.len() {
                            assert(pre[w] == post[w]);
                        } else {
                            assert(keys@[k as int] == c);
                            assert(keys@.to_set().contains(c));
                        }
                    }
                    if communities_of(pre).contains(cc) {
                        let w = choose|w: int| 0 <= w < pre.len() && community_of(#[trigger] pre[w]) == cc;
                        assert(post[w] == pre[w]);
                    }
                }
                assert(keys@.to_set() =~= communities_of(post));
                assert forall|kk: int| 0 <= kk < keys@.len() implies strings_view(
                    (#[trigger] groups@[kk])@,
                ) == community_members(post, keys@[kk]) by {
                    if kk != k {
                        assert(groups@[kk] == gs[kk]);
                    }
                }
            }
        } else {
            let mut grp: Vec<String> = Vec::new();
            grp.push(node.id.clone());
            let ghost kb = keys@;
            let ghost gs = groups@;
            keys.push(c);
            groups.push(grp);
            proof {
                assert(!kb.contains(c));
                kb.lemma_push_to_set_commute(c);
                assert forall|cc: usize| communities_of(post).contains(cc) == communities_of(pre).insert(c).contains(cc) by {
                    if communities_of(post).contains(cc) && cc != c {
                        let w = choose|w: int| 0 <= w < post.len() && community_of(#[trigger] post[w]) == cc;
                        if w < pre.len() {
                            assert(pre[w] == post[w]);
                        }
                    }
                    if communities_of(pre).contains(cc) {
                        let w = choose|w: int| 0 <= w < pre.len() && community_of(#[trigger] pre[w]) == cc;
                        assert(post[w] == pre[w]);
                    }
                    if cc == c {
                        assert(community_of(post[i as int]) == c);
                    }
                }
                assert(keys@.to_set() =~= communities_of(post));
                assert(community_members(pre, c) =~= seq![]) by {
                    lemma_members_absent(pre, c);
                }
                assert(strings_view(grp@) =~= seq![node.id@]);
                assert forall|kk: int| 0 <= kk < keys@.len() implies strings_view(
                    (#[trigger] groups@[kk])@,
                ) == community_members(post, keys@[kk]) by {
                    if kk < kb.len() {
                        assert(groups@[kk] == gs[kk]);
                        assert(keys@[kk] != c);
                    }
                }
            }
        }
    }
    assert(ns.take(len as int) =~= ns);
    let mut out: Vec<(usize, Vec<String>)> = Vec::new();
    let m = keys.len();
    for i in 0..m
        invariant
            m == keys@.len(),
            m == groups@.len(),
            out@.len() == i,
            forall|j: int| 0 <= j < i ==> (#[trigger] out@[j]).0 == keys@[j],
            forall|j: int| 0 <= j < i ==> strings_view((#[trigger] out@[j]).1@) == strings_view(groups@[j]@),
    {
        out.push((keys[i], crate::types::clone_strings(&groups[i])));
    }
    assert(Seq::new(out@.len(), |i: int| out@[i].0) =~= keys@);
    out
}

proof fn lemma_members_absent(ns: Seq<crate::types::Node>, c: usize)
    requires
        !communities_of(ns).contains(c),
    ensures
        community_members(ns, c) == Seq::<Seq<char>>::empty(),
    decreases ns.len(),
{
    if ns.len() > 0 {
        let p = ns.drop_last();
        assert(!communities_of(p).contains(c)) by {
            if communities_of(p).contains(c) {
                let w = choose|w: int| 0 <= w < p.len() && community_of(#[trigger] p[w]) == c;
                assert(ns[w] == p[w]);
            }
        }
        lemma_members_absent(p, c);
        assert(community_of(ns[ns.len() - 1]) != c);
    }
}

} // verus!
