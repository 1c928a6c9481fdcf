//! Links that a user added by editing the vault's notes, to be brought back
//! into the graph.
use vstd::prelude::*;

use crate::conflicts::pairs_of;
use crate::graph::KodexGraph;
use crate::misc::names_file;
use crate::seqs::first_where;
use crate::text::{starts_with, vecs_view};
use crate::vault::wikilinks_from;

verus! {

/// The id of the first node that answers to the file name `f` (see
/// [`names_file`]).
pub open spec fn node_for_file(g: &KodexGraph, f: Seq<char>) -> Option<Seq<char>> {
    let k = first_where(g.spec_ids(), |id: Seq<char>| names_file(g, id, f));
    if k >= 0 {
        Some(g.spec_ids()[k])
    } else {
        None
    }
}

/// The graph has an edge from `s` to `t`.
pub open spec fn has_edge(g: &KodexGraph, s: Seq<char>, t: Seq<char>) -> bool {
    exists|i: int| 0 <= i < g.edges@.len() && (#[trigger] g.edges@[i]).source@ == s && g.edges@[i].target@ == t
}

/// The links of note `stem` to the targets `ts`, leaving out links to
/// itself and to community overviews.
pub open spec fn link_pairs(stem: Seq<char>, ts: Seq<Seq<char>>) -> Seq<(Seq<char>, Seq<char>)>
    decreases ts.len(),
{
    if ts.len() == 0 {
        seq![]
    } else {
        let p = link_pairs(stem, ts.drop_last());
        let t = ts.last();
        if t != stem && !starts_with(t, "_COMMUNITY_"@) {
            p.push((stem, t))
        } else {
            p
        }
    }
}

/// The links written in the notes `(stem, text)`, in order; community
/// overviews and the index are not read.
pub open spec fn vault_links(notes: Seq<(Seq<char>, Seq<char>)>) -> Seq<(Seq<char>, Seq<char>)>
    decreases notes.len(),
{
    if notes.len() == 0 {
        seq![]
    } else {
        let p = vault_links(notes.drop_last());
        let (stem, text) = notes.last();
        if starts_with(stem, "_COMMUNITY_"@) || stem == "index"@ {
            p
        } else {
            p + link_pairs(stem, wikilinks_from(text, 0))
        }
    }
}

/// The links between notes that name nodes, as pairs of node ids, that the
/// graph has in neither direction, in order.
pub open spec fn new_links(g: &KodexGraph, ls: Seq<(Seq<char>, Seq<char>)>) -> Seq<(Seq<char>, Seq<char>)>
    decreases ls.len(),
{
    if ls.len() == 0 {
        seq![]
    } else {
        let p = new_links(g, ls.drop_last());
        match (node_for_file(g, ls.last().0), node_for_file(g, ls.last().1)) {
            (Some(a), Some(b)) => if !has_edge(g, a, b) && !has_edge(g, b, a) {
                p.push((a, b))
            } else {
                p
            },
            _ => p,
        }
    }
}

fn has_edge_exec(g: &KodexGraph, s: &str, t: &str) -> (r: bool)
    ensures
        r == has_edge(g, s@, t@),
{
    let n = g.edges.len();
    for i in 0..n
        invariant
            n == g.edges@.len(),
            forall|j: int| 0 <= j < i ==> !((#[trigger] g.edges@[j]).source@ == s@ && g.edges@[j].target@ == t@),
    {
        if crate::text::str_eq(g.edges[i].source.as_str(), s) && crate::text::str_eq(g.edges[i].target.as_str(), t) {
            return true;
        }
    }
    false
}

fn node_for_file_exec(g: &KodexGraph, f: &str) -> (r: Option<String>)
    ensures
        match r {
            Some(id) => node_for_file(g, f@) == Some(id@),
            None => node_for_file(g, f@) is None,
        },
{
    crate::misc::find_node_by_filename(g, f)
}

fn push_pair(v: &mut Vec<(String, String)>, a: String, b: String)
    ensures
        pairs_of(final(v)@) == pairs_of(old(v)@).push((a@, b@)),
{
    v.push((a, b));
    assert(pairs_of(v@) =~= pairs_of(old(v)@).push((a@, b@)));
}

fn note_links_exec(stem: &String, text: &String, out: &mut Vec<(String, String)>)
    ensures
        pairs_of(final(out)@) == pairs_of(old(out)@) + link_pairs(stem@, wikilinks_from(text@, 0)),
{
    let cs = crate::text::str_chars(text.as_str());
    let ts = crate::vault::wikilinks(cs.as_slice());
    let ghost tv = vecs_view(ts@);
    let ghost o = pairs_of(out@);
    let prefix = crate::text::str_chars("_COMMUNITY_");
    let sc = crate::text::str_chars(stem.as_str());
    let n = ts.len();
    assert(tv.take(0) =~= Seq::<Seq<char>>::empty());
    assert(pairs_of(out@) =~= o + link_pairs(stem@, tv.take(0)));
    for i in 0..n
        invariant
            n == ts@.len(),
            tv == vecs_view(ts@),
            prefix@ == "_COMMUNITY_"@,
            sc@ == stem@,
            pairs_of(out@) == o + link_pairs(stem@, tv.take(i as int)),
    {
        assert(tv.take(i + 1).drop_last() =~= tv.take(i as int));
        assert(tv.take(i + 1).last() == ts@[i as int]@);
        let t = &ts[i];
        if !crate::text::chars_eq(t.as_slice(), sc.as_slice()) && !crate::text::starts_with_exec(
            t.as_slice(),
            prefix.as_slice(),
        ) {
            push_pair(out, stem.clone(), crate::text::chars_to_string(t.as_slice()));
        }
        assert(pairs_of(out@) =~= o + link_pairs(stem@, tv.take(i + 1)));
    }
    assert(tv.take(n as int) =~= tv);
}

/// The links written in the notes `(stem, text)` (see [`vault_links`]).
pub fn vault_links_exec(notes: &[(String, String)]) -> (r: Vec<(String, String)>)
    ensures
        pairs_of(r@) == vault_links(pairs_of(notes@)),
{
    let ghost nv = pairs_of(notes@);
    let mut out: Vec<(String, String)> = Vec::new();
    let n = notes.len();
    assert(nv.take(0) =~= Seq::<(Seq<char>, Seq<char>)>::empty());
    assert(pairs_of(out@) =~= Seq::<(Seq<char>, Seq<char>)>::empty());
    for i in 0..n
        invariant
            n == notes@.len(),
            nv == pairs_of(notes@),
            pairs_of(out@) == vault_links(nv.take(i as int)),
    {
        assert(nv.take(i + 1).drop_last() =~= nv.take(i as int));
        assert(nv.take(i + 1).last() == (notes@[i as int].0@, notes@[i as int].1@));
        let stem = &notes[i].0;
        let skip = {
            let sc = crate::text::str_chars(stem.as_str());
            let pc = crate::text::str_chars("_COMMUNITY_");
            crate::text::starts_with_exec(sc.as_slice(), pc.as_slice()) || crate::text::str_eq(stem.as_str(), "index")
        };
        if !skip {
            note_links_exec(stem, &notes[i].1, &mut out);
        } else {
            assert(pairs_of(out@) =~= vault_links(nv.take(i + 1)));
        }
    }
    assert(nv.take(n as int) =~= nv);
    out
}

/// The links that a user added to the vault's notes `(stem, text)`: the
/// links between notes that name nodes (see [`vault_links`],
/// [`new_links`]), as pairs of node ids, that the graph has in neither
/// direction, in the order they are written.
pub fn vault_user_links(graph: &KodexGraph, notes: &[(String, String)]) -> (r: Vec<(String, String)>)
    ensures
        pairs_of(r@) == new_links(graph, vault_links(pairs_of(notes@))),
{
    let ls = vault_links_exec(notes);
    let ghost lv = pairs_of(ls@);
    let mut out: Vec<(String, String)> = Vec::new();
    let n = ls.len();
    assert(lv.take(0) =~= Seq::<(Seq<char>, Seq<char>)>::empty());
    assert(pairs_of(out@) =~= Seq::<(Seq<char>, Seq<char>)>::empty());
    for i in 0..n
        invariant
            n == ls@.len(),
            lv == pairs_of(ls@),
            pairs_of(out@) == new_links(graph, lv.take(i as int)),
    {
        assert(lv.take(i + 1).drop_last() =~= lv.take(i as int));
        assert(lv.take(i + 1).last() == (ls@[i as int].0@, ls@[i as int].1@));
        let a = node_for_file_exec(graph, ls[i].0.as_str());
        let b = node_for_file_exec(graph, ls[i].1.as_str());
        match (a, b) {
            (Some(a), Some(b)) => {
                if !has_edge_exec(graph, a.as_str(), b.as_str()) && !has_edge_exec(graph, b.as_str(), a.as_str()) {
                    push_pair(&mut out, a, b);
                }
            },
            _ => {},
        }
    }
    assert(lv.take(n as int) =~= lv);
    out
}

} // verus!
