//! Merging the graphs of a workspace's projects: names shared across
//! projects are joined by inferred edges.
use vstd::prelude::*;
use vstd::string::StringExecFns;

use crate::text::{contains, ends_with};
use crate::types::{Confidence, Edge, ExtractionResult, Node};

verus! {

/// A node name that can be shared across projects: not a function call
/// (`…()`) and not a dotted (file or member) name.
pub open spec fn shareable(label: Seq<char>) -> bool {
    !ends_with(label, "()"@) && !contains(label, "."@)
}

/// An occurrence of a shareable name: the project, the node id, the label.
pub type Occurrence = (Seq<char>, Seq<char>, Seq<char>);

/// The shareable nodes of project `name`, in order.
pub open spec fn project_occurrences(name: Seq<char>, ns: Seq<Node>) -> Seq<Occurrence>
    decreases ns.len(),
{
    if ns.len() == 0 {
        seq![]
    } else {
        let p = project_occurrences(name, ns.drop_last());
        if shareable(ns.last().label@) {
            p.push((name, ns.last().id@, ns.last().label@))
        } else {
            p
        }
    }
}

/// The shareable nodes of all projects, project by project.
pub open spec fn occurrences(ps: Seq<(String, ExtractionResult)>) -> Seq<Occurrence>
    decreases ps.len(),
{
    if ps.len() == 0 {
        seq![]
    } else {
        occurrences(ps.drop_last()) + project_occurrences(ps.last().0@, ps.last().1.nodes@)
    }
}

/// The position of the first occurrence of `label`, or -1.
pub open spec fn first_label(occ: Seq<Occurrence>, label: Seq<char>) -> int {
    crate::seqs::first_where(occ, |o: Occurrence| o.2 == label)
}

/// The edges joining shared names: each later occurrence of a name gets an
/// edge from the first occurrence of that name, as (source id, target id,
/// `<first project> ↔ <project>`), in the order of the later occurrences.
pub open spec fn shared_edges(occ: Seq<Occurrence>) -> Seq<(Seq<char>, Seq<char>, Seq<char>)>
    decreases occ.len(),
{
    if occ.len() == 0 {
        seq![]
    } else {
        let prev = occ.drop_last();
        let p = shared_edges(prev);
        let o = occ.last();
        let k = first_label(prev, o.2);
        if k >= 0 {
            p.push((prev[k].1, o.1, prev[k].0 + " \u{2194} "@ + o.0))
        } else {
            p
        }
    }
}

/// The bit pattern of the float 0.7, the score and weight of an edge
/// joining projects.
pub const SHARED_EDGE_BITS: u64 = 0x3FE6_6666_6666_6666u64;

/// `e` is an inferred `shared_across_projects` edge with no location, and
/// score and weight 0.7.
pub open spec fn is_shared_edge(e: Edge) -> bool {
    &&& e.relation@ == "shared_across_projects"@
    &&& e.confidence == Confidence::INFERRED
    &&& e.confidence_score_bits == Some(SHARED_EDGE_BITS)
    &&& e.weight_bits == SHARED_EDGE_BITS
    &&& e.source_location is None
    &&& e.original_src is None
    &&& e.original_tgt is None
}

/// The text of the occurrences kept while merging.
pub open spec fn occ_view(v: Seq<(String, String, String)>) -> Seq<Occurrence> {
    Seq::new(v.len(), |i: int| (v[i].0@, v[i].1@, v[i].2@))
}

fn shareable_exec(label: &str) -> (r: bool)
    ensures
        r == shareable(label@),
{
    let l = crate::text::str_chars(label);
    let call = crate::text::str_chars("()");
    let dot = crate::text::str_chars(".");
    !crate::text::ends_with_exec(l.as_slice(), call.as_slice()) && !crate::text::contains_exec(
        l.as_slice(),
        dot.as_slice(),
    )
}

fn first_label_exec(occ: &Vec<(String, String, String)>, label: &str) -> (r: Option<usize>)
    ensures
        match r {
            Some(k) => k < occ@.len() && k as int == first_label(occ_view(occ@), label@),
            None => first_label(occ_view(occ@), label@) == -1,
        },
{
    let ghost ov = occ_view(occ@);
    let ghost p = |o: Occurrence| o.2 == label@;
    let n = occ.len();
    for i in 0..n
        invariant
            n == occ@.len(),
            ov == occ_view(occ@),
            p == (|o: Occurrence| o.2 == label@),
            forall|j: int| 0 <= j < i ==> !p(#[trigger] ov[j]),
    {
        if crate::text::str_eq(occ[i].2.as_str(), label) {
            proof {
                crate::seqs::lemma_first_where_is(ov, p, i as int);
            }
            return Some(i);
        }
    }
    proof {
        crate::seqs::lemma_first_where_is(ov, p, -1);
    }
    None
}

/// The edges that join names shared across the projects' graphs (see
/// [`shared_edges`]): every later node with the name of an earlier one
/// (counting only names that are not calls and hold no dot) is joined to
/// the first node of that name by an inferred `shared_across_projects` edge
/// whose source file names both projects.
pub fn cross_project_edges(projects: &Vec<(String, ExtractionResult)>) -> (r: Vec<Edge>)
    ensures
        r@.len() == shared_edges(occurrences(projects@)).len(),
        forall|i: int|
            0 <= i < r@.len() ==> is_shared_edge(#[trigger] r@[i]) && (r@[i].source@, r@[i].target@, r@[i].source_file@)
                == shared_edges(occurrences(projects@))[i],
{
    let ghost ps = projects@;
    let mut occ: Vec<(String, String, String)> = Vec::new();
    let mut out: Vec<Edge> = Vec::new();
    let n = projects.len();
    for i in 0..n
        invariant
            n == ps.len(),
            ps == projects@,
            occ_view(occ@) == occurrences(ps.take(i as int)),
            out@.len() == shared_edges(occ_view(occ@)).len(),
            forall|j: int|
                0 <= j < out@.len() ==> is_shared_edge(#[trigger] out@[j]) && (
                    out@[j].source@,
                    out@[j].target@,
                    out@[j].source_file@,
                ) == shared_edges(occ_view(occ@))[j],
    {
        assert(ps.take(i + 1).drop_last() =~= ps.take(i as int));
        assert(ps.take(i + 1).last() == ps[i as int]);
        let name = &projects[i].0;
        let ns = &projects[i].1.nodes;
        let ghost base = occ_view(occ@);
        let m = ns.len();
        assert(ns@.take(0) =~= Seq::<Node>::empty());
        assert(base + project_occurrences(name@, ns@.take(0)) =~= base);
        for j in 0..m
            invariant
                m == ns@.len(),
                occ_view(occ@) == base + project_occurrences(name@, ns@.take(j as int)),
                out@.len() == shared_edges(occ_view(occ@)).len(),
                forall|q: int|
                    0 <= q < out@.len() ==> is_shared_edge(#[trigger] out@[q]) && (
                        out@[q].source@,
                        out@[q].target@,
                        out@[q].source_file@,
                    ) == shared_edges(occ_view(occ@))[q],
        {
            assert(ns@.take(j + 1).drop_last() =~= ns@.take(j as int));
            assert(ns@.take(j + 1).last() == ns@[j as int]);
            let node = &ns[j];
            if shareable_exec(node.label.as_str()) {
                let ghost before = occ_view(occ@);
                let ghost o: Occurrence = (name@, node.id@, node.label@);
                match first_label_exec(&occ, node.label.as_str()) {
                    Some(k) => {
                        let mut file = occ[k].0.clone();
                        file.append(" \u{2194} ");
                        file.append(name.as_str());
                        let e = Edge {
                            source: occ[k].1.clone(),
                            target: node.id.clone(),
                            relation: String::from_str("shared_across_projects"),
                            confidence: Confidence::INFERRED,
                            source_file: file,
                            source_location: None,
                            confidence_score_bits: Some(SHARED_EDGE_BITS),
                            weight_bits: SHARED_EDGE_BITS,
                            original_src: None,
                            original_tgt: None,
                        };
                        out.push(e);
                    },
                    None => {},
                }
                occ.push((name.clone(), node.id.clone(), node.label.clone()));
                assert(occ_view(occ@) =~= before.push(o));
                assert(occ_view(occ@).drop_last() =~= before);
                assert(occ_view(occ@) =~= base + project_occurrences(name@, ns@.take(j + 1)));
            }
        }
        assert(ns@.take(m as int) =~= ns@);
        assert(occ_view(occ@) =~= occurrences(ps.take(i + 1)));
    }
    assert(ps.take(n as int) =~= ps);
    out
}

} // verus!
