//! The code graph: nodes and undirected edges, looked up by node id.
use vstd::prelude::*;

use crate::seqs::{first_where, lemma_first_where, lemma_first_where_is};
use crate::types::{Edge, ExtractionResult, Node};

verus! {

/// A code graph. Edges are undirected: an edge joins its source and target,
/// and each endpoint is a neighbour of the other.
#[derive(Debug)]
pub struct KodexGraph {
    pub nodes: Vec<Node>,
    pub edges: Vec<Edge>,
}

/// The ids of a list of nodes, in order.
pub open spec fn ids_of(ns: Seq<Node>) -> Seq<Seq<char>> {
    Seq::new(ns.len(), |i: int| ns[i].id@)
}

/// The (source, target) ids of a list of edges, in order.
pub open spec fn ends_of(es: Seq<Edge>) -> Seq<(Seq<char>, Seq<char>)> {
    Seq::new(es.len(), |i: int| (es[i].source@, es[i].target@))
}

/// The neighbours of `id` along the edges `es`: for each edge touching `id`,
/// in edge order, its other endpoint (a loop gives `id` itself once).
pub open spec fn nbrs(es: Seq<(Seq<char>, Seq<char>)>, id: Seq<char>) -> Seq<Seq<char>>
    decreases es.len(),
{
    if es.len() == 0 {
        seq![]
    } else {
        let p = nbrs(es.drop_last(), id);
        let e = es.last();
        if e.0 == id {
            p.push(e.1)
        } else if e.1 == id {
            p.push(e.0)
        } else {
            p
        }
    }
}

/// Equality with `id`, as a predicate.
pub open spec fn is_id(id: Seq<char>) -> spec_fn(Seq<char>) -> bool {
    |x: Seq<char>| x == id
}

impl KodexGraph {
    /// The node ids in order.
    pub open spec fn spec_ids(&self) -> Seq<Seq<char>> {
        ids_of(self.nodes@)
    }

    /// The edges' endpoints in order.
    pub open spec fn spec_ends(&self) -> Seq<(Seq<char>, Seq<char>)> {
        ends_of(self.edges@)
    }

    /// The index of the first node with id `id`, or -1.
    pub open spec fn spec_node_index(&self, id: Seq<char>) -> int {
        first_where(self.spec_ids(), is_id(id))
    }

    /// The neighbours of `id`.
    pub open spec fn spec_neighbors(&self, id: Seq<char>) -> Seq<Seq<char>> {
        nbrs(self.spec_ends(), id)
    }

    /// The number of edges touching `id`.
    pub open spec fn spec_degree(&self, id: Seq<char>) -> nat {
        self.spec_neighbors(id).len()
    }

    /// A graph made of the nodes and edges of an extraction.
    pub fn from_extraction(x: ExtractionResult) -> (g: KodexGraph)
        ensures
            g.nodes@ == x.nodes@,
            g.edges@ == x.edges@,
    {
        KodexGraph { nodes: x.nodes, edges: x.edges }
    }

    pub fn node_count(&self) -> (r: usize)
        ensures
            r == self.nodes@.len(),
    {
        self.nodes.len()
    }

    pub fn edge_count(&self) -> (r: usize)
        ensures
            r == self.edges@.len(),
    {
        self.edges.len()
    }

    /// The index of the first node with id `id`.
    pub fn node_index(&self, id: &str) -> (r: Option<usize>)
        ensures
            match r {
                Some(i) => i < self.nodes@.len() && i as int == self.spec_node_index(id@)
                    && self.nodes@[i as int].id@ == id@,
                None => self.spec_node_index(id@) == -1,
            },
    {
        let ghost ids = self.spec_ids();
        let ghost p = is_id(id@);
        let n = self.nodes.len();
        for i in 0..n
            invariant
                n == self.nodes@.len(),
                ids == self.spec_ids(),
                p == is_id(id@),
                forall|j: int| 0 <= j < i ==> !p(#[trigger] ids[j]),
        {
            if crate::text::str_eq(self.nodes[i].id.as_str(), id) {
                proof {
                    lemma_first_where_is(ids, p, i as int);
                }
                return Some(i);
            }
        }
        proof {
            lemma_first_where_is(ids, p, -1);
        }
        None
    }

    /// The first node with id `id`.
    pub fn get_node(&self, id: &str) -> (r: Option<&Node>)
        ensures
            match r {
                Some(n) => self.spec_node_index(id@) >= 0 && *n == self.nodes@[self.spec_node_index(
                    id@,
                )],
                None => self.spec_node_index(id@) == -1,
            },
    {
        match self.node_index(id) {
            Some(i) => Some(&self.nodes[i]),
            None => None,
        }
    }

    /// The neighbours of `id` (see [`nbrs`]).
    pub fn neighbors(&self, id: &str) -> (r: Vec<String>)
        ensures
            crate::types::strings_view(r@) == self.spec_neighbors(id@),
    {
        let ghost es = self.spec_ends();
        let mut out: Vec<String> = Vec::new();
        let n = self.edges.len();
        for i in 0..n
            invariant
                n == self.edges@.len(),
                es == self.spec_ends(),
                crate::types::strings_view(out@) == nbrs(es.take(i as int), id@),
        {
            let e = &self.edges[i];
            assert(es.take(i + 1).drop_last() =~= es.take(i as int));
            assert(es.take(i + 1).last() == (e.source@, e.target@));
            let ghost before = out@;
            if crate::text::str_eq(e.source.as_str(), id) {
                out.push(e.target.clone());
                assert(crate::types::strings_view(out@) =~= crate::types::strings_view(before).push(
                    e.target@,
                ));
            } else if crate::text::str_eq(e.target.as_str(), id) {
                out.push(e.source.clone());
                assert(crate::types::strings_view(out@) =~= crate::types::strings_view(before).push(
                    e.source@,
                ));
            }
        }
        assert(es.take(n as int) =~= es);
        out
    }

    /// The number of edges touching `id`.
    pub fn degree(&self, id: &str) -> (r: usize)
        ensures
            r == self.spec_degree(id@),
    {
        let ghost es = self.spec_ends();
        let mut d: usize = 0;
        let n = self.edges.len();
        for i in 0..n
            invariant
                n == self.edges@.len(),
                es == self.spec_ends(),
                d == nbrs(es.take(i as int), id@).len(),
                d <= i,
        {
            let e = &self.edges[i];
            assert(es.take(i + 1).drop_last() =~= es.take(i as int));
            assert(es.take(i + 1).last() == (e.source@, e.target@));
            if crate::text::str_eq(e.source.as_str(), id) || crate::text::str_eq(
                e.target.as_str(),
                id,
            ) {
                d = d + 1;
            }
        }
        assert(es.take(n as int) =~= es);
        d
    }
}

/// The first occurrence of `id` in `ids` is a node with that id.
pub proof fn lemma_node_index(g: &KodexGraph, id: Seq<char>)
    ensures
        -1 <= g.spec_node_index(id) < g.nodes@.len(),
        g.spec_node_index(id) >= 0 ==> g.nodes@[g.spec_node_index(id)].id@ == id,
        g.spec_node_index(id) == -1 ==> forall|j: int|
            0 <= j < g.nodes@.len() ==> (#[trigger] g.nodes@[j]).id@ != id,
{
    let ids = g.spec_ids();
    lemma_first_where(ids, is_id(id));
    if g.spec_node_index(id) == -1 {
        assert forall|j: int| 0 <= j < g.nodes@.len() implies (#[trigger] g.nodes@[j]).id@ != id by {
            assert(ids[j] == g.nodes@[j].id@);
        }
    }
}

} // verus!
