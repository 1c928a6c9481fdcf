//! Whole-store operations: forgetting a project and saving knowledge.
use vstd::prelude::*;
use vstd::string::StringExecFns;

use crate::text::starts_with;
use crate::paths::path_starts_with;
use crate::types::{links_view, Edge, KnowledgeLink, KodexData, KodexError, LinkView, Node};

verus! {

/// The elements of `s` whose flag is set, in order.
pub open spec fn keep_by_flags<T>(s: Seq<T>, flags: Seq<bool>) -> Seq<T>
    decreases s.len(),
{
    if s.len() == 0 {
        seq![]
    } else {
        let p = keep_by_flags(s.drop_last(), flags);
        if flags[s.len() - 1] {
            p.push(s.last())
        } else {
            p
        }
    }
}

proof fn lemma_keep_prefix<T>(s: Seq<T>, flags: Seq<bool>, j: int)
    requires
        0 <= j < s.len(),
    ensures
        keep_by_flags(s.take(j + 1), flags) == if flags[j] {
            keep_by_flags(s.take(j), flags).push(s[j])
        } else {
            keep_by_flags(s.take(j), flags)
        },
{
    assert(s.take(j + 1).drop_last() =~= s.take(j));
}

/// Keeping by flags is filtering by the property the flags record.
pub proof fn lemma_keep_filter<T>(s: Seq<T>, flags: Seq<bool>, p: spec_fn(T) -> bool)
    requires
        flags.len() == s.len(),
        forall|i: int| 0 <= i < s.len() ==> flags[i] == p(#[trigger] s[i]),
    ensures
        keep_by_flags(s, flags) == s.filter(p),
    decreases s.len(),
{
    reveal(Seq::filter);
    if s.len() > 0 {
        let t = s.drop_last();
        assert forall|i: int| 0 <= i < t.len() implies flags[i] == p(#[trigger] t[i]) by {
            assert(t[i] == s[i]);
        }
        lemma_keep_filter_prefix(s, flags, p, s.len() - 1);
        assert(s.take(s.len() - 1) =~= t);
        assert(s.filter(p) == t.filter(p).push(s.last()) || s.filter(p) == t.filter(p));
    }
}

proof fn lemma_keep_filter_prefix<T>(s: Seq<T>, flags: Seq<bool>, p: spec_fn(T) -> bool, k: int)
    requires
        0 <= k <= s.len(),
        flags.len() == s.len(),
        forall|i: int| 0 <= i < s.len() ==> flags[i] == p(#[trigger] s[i]),
    ensures
        keep_by_flags(s.take(k), flags) == s.take(k).filter(p),
    decreases k,
{
    reveal(Seq::filter);
    if k > 0 {
        lemma_keep_filter_prefix(s, flags, p, k - 1);
        lemma_keep_prefix(s, flags, k - 1);
        assert(s.take(k).drop_last() =~= s.take(k - 1));
    } else {
        assert(s.take(0) =~= Seq::<T>::empty());
    }
}

/// Views commute with keeping by flags.
pub(crate) proof fn lemma_keep_links_view(ls: Seq<KnowledgeLink>, flags: Seq<bool>)
    ensures
        links_view(keep_by_flags(ls, flags)) == keep_by_flags(links_view(ls), flags),
    decreases ls.len(),
{
    if ls.len() > 0 {
        lemma_keep_links_view(ls.drop_last(), flags);
        assert(links_view(ls.drop_last()) =~= links_view(ls).drop_last());
        let p = keep_by_flags(ls.drop_last(), flags);
        assert(links_view(p.push(ls.last())) =~= links_view(p).push(ls.last()@));
    }
}

/// Keeps the elements of `v` whose flag is set, in order.
pub fn retain_flags<T>(v: &mut Vec<T>, flags: &Vec<bool>)
    requires
        flags@.len() == old(v)@.len(),
    ensures
        final(v)@ == keep_by_flags(old(v)@, flags@),
{
    let ghost s = v@;
    let n = flags.len();
    let mut i: usize = 0;
    let mut j: usize = 0;
    assert(s.take(0) =~= Seq::<T>::empty());
    assert(v@ =~= keep_by_flags(s.take(0), flags@) + s.skip(0));
    while j < n
        invariant
            n == flags@.len(),
            n == s.len(),
            j <= n,
            i == keep_by_flags(s.take(j as int), flags@).len(),
            v@ == keep_by_flags(s.take(j as int), flags@) + s.skip(j as int),
        decreases n - j,
    {
        proof {
            lemma_keep_prefix(s, flags@, j as int);
        }
        assert(v@[i as int] == s[j as int]);
        let vlen = v.len();
        assert(i < vlen);
        if flags[j] {
            i = i + 1;
            assert(v@ =~= keep_by_flags(s.take(j + 1), flags@) + s.skip(j + 1));
        } else {
            let ghost b = v@;
            v.remove(i);
            assert(v@ =~= keep_by_flags(s.take(j + 1), flags@) + s.skip(j + 1));
        }
        j = j + 1;
    }
    assert(s.take(n as int) =~= s);
    assert(v@ =~= keep_by_flags(s, flags@));
}

/// The node is outside the project: its source file does not start with `p`.
pub open spec fn node_outside(p: Seq<char>) -> spec_fn(Node) -> bool {
    |n: Node| !starts_with(n.source_file@, p)
}

/// The edge is outside the project.
pub open spec fn edge_outside(p: Seq<char>) -> spec_fn(Edge) -> bool {
    |e: Edge| !starts_with(e.source_file@, p)
}

/// The node UUIDs present among `ns`.
pub open spec fn node_uuids(ns: Seq<Node>) -> Set<Seq<char>> {
    Set::new(|u: Seq<char>| exists|i: int| 0 <= i < ns.len() && ((#[trigger] ns[i]).uuid matches Some(x) && x@ == u))
}

/// A link survives a change of the graph to nodes with UUIDs `valid`: it
/// links two knowledge entries, or its node is still there, or it names no
/// node.
pub open spec fn link_survives(valid: Set<Seq<char>>) -> spec_fn(LinkView) -> bool {
    |l: LinkView| l.is_knowledge_link() || valid.contains(l.node_uuid) || l.node_uuid.len() == 0
}

pub(crate) fn uuid_present(ns: &Vec<Node>, u: &str) -> (r: bool)
    ensures
        r == node_uuids(ns@).contains(u@),
{
    let n = ns.len();
    for i in 0..n
        invariant
            n == ns@.len(),
            forall|j: int| 0 <= j < i ==> !((#[trigger] ns@[j]).uuid matches Some(x) && x@ == u@),
    {
        match &ns[i].uuid {
            Some(x) => {
                if crate::text::str_eq(x.as_str(), u) {
                    return true;
                }
            },
            None => {},
        }
    }
    false
}

/// Drops the links that do not survive the current nodes (see
/// [`link_survives`]).
pub fn prune_links(data: &mut KodexData)
    ensures
        links_view(final(data).links@) == links_view(old(data).links@).filter(
            link_survives(node_uuids(old(data).extraction.nodes@)),
        ),
        final(data).extraction == old(data).extraction,
        final(data).knowledge@ == old(data).knowledge@,
        final(data).review_queue@ == old(data).review_queue@,
{
    let ghost valid = node_uuids(data.extraction.nodes@);
    let ghost lv = links_view(data.links@);
    let mut flags: Vec<bool> = Vec::new();
    let n = data.links.len();
    for i in 0..n
        invariant
            n == data.links@.len(),
            lv == links_view(data.links@),
            valid == node_uuids(data.extraction.nodes@),
            flags@.len() == i,
            forall|j: int| 0 <= j < i ==> flags@[j] == link_survives(valid)(#[trigger] lv[j]),
    {
        let l = &data.links[i];
        assert(lv[i as int] == l@);
        let keep = l.is_knowledge_link() || uuid_present(&data.extraction.nodes, l.node_uuid.as_str())
            || l.node_uuid.as_str().is_empty();
        flags.push(keep);
    }
    let ghost before = data.links@;
    retain_flags(&mut data.links, &flags);
    proof {
        lemma_keep_links_view(before, flags@);
        lemma_keep_filter(lv, flags@, link_survives(valid));
    }
}

/// Forget a project: remove the nodes and edges whose source file starts with
/// `project_path`, then the links to node UUIDs that are gone (knowledge
/// links and links naming no node stay). Returns the number of nodes removed.
pub fn forget_project(data: &mut KodexData, project_path: &str) -> (r: usize)
    ensures
        final(data).extraction.nodes@ == old(data).extraction.nodes@.filter(node_outside(project_path@)),
        final(data).extraction.edges@ == old(data).extraction.edges@.filter(edge_outside(project_path@)),
        links_view(final(data).links@) == links_view(old(data).links@).filter(
            link_survives(node_uuids(final(data).extraction.nodes@)),
        ),
        r == old(data).extraction.nodes@.len() - final(data).extraction.nodes@.len(),
        final(data).knowledge@ == old(data).knowledge@,
        final(data).review_queue@ == old(data).review_queue@,
        final(data).extraction.hyperedges@ == old(data).extraction.hyperedges@,
{
    let p = crate::text::str_chars(project_path);
    let before = data.extraction.nodes.len();
    let ghost ns = data.extraction.nodes@;
    let mut nflags: Vec<bool> = Vec::new();
    for i in 0..before
        invariant
            before == ns.len(),
            ns == data.extraction.nodes@,
            p@ == project_path@,
            nflags@.len() == i,
            forall|j: int| 0 <= j < i ==> nflags@[j] == node_outside(project_path@)(#[trigger] ns[j]),
    {
        let f = crate::text::str_chars(data.extraction.nodes[i].source_file.as_str());
        nflags.push(!crate::text::starts_with_exec(f.as_slice(), p.as_slice()));
    }
    retain_flags(&mut data.extraction.nodes, &nflags);
    proof {
        lemma_keep_filter(ns, nflags@, node_outside(project_path@));
    }
    let ghost es = data.extraction.edges@;
    let m = data.extraction.edges.len();
    let mut eflags: Vec<bool> = Vec::new();
    for i in 0..m
        invariant
            m == es.len(),
            es == data.extraction.edges@,
            p@ == project_path@,
            eflags@.len() == i,
            forall|j: int| 0 <= j < i ==> eflags@[j] == edge_outside(project_path@)(#[trigger] es[j]),
    {
        let f = crate::text::str_chars(data.extraction.edges[i].source_file.as_str());
        eflags.push(!crate::text::starts_with_exec(f.as_slice(), p.as_slice()));
    }
    retain_flags(&mut data.extraction.edges, &eflags);
    proof {
        lemma_keep_filter(es, eflags@, edge_outside(project_path@));
        ns.lemma_filter_len(node_outside(project_path@));
    }
    prune_links(data);
    before - data.extraction.nodes.len()
}

/// The node belongs to the project at path `p`: its source file lies under
/// `p`, component by component.
pub open spec fn node_in_project(p: Seq<char>) -> spec_fn(Node) -> bool {
    |n: Node| path_starts_with(n.source_file@, p)
}

/// The node lies outside the project at path `p`.
pub open spec fn node_off_project(p: Seq<char>) -> spec_fn(Node) -> bool {
    |n: Node| !path_starts_with(n.source_file@, p)
}

/// The edge lies outside the project at path `p`.
pub open spec fn edge_off_project(p: Seq<char>) -> spec_fn(Edge) -> bool {
    |e: Edge| !path_starts_with(e.source_file@, p)
}

/// The number of nodes below which a project may shrink freely.
pub const SHRINK_GUARD_MIN_OLD_NODES: usize = 50;

/// The shrink guard: without `force`, a project of more than 50 nodes may not
/// shrink to less than half of them.
pub open spec fn shrink_refused(old_n: nat, new_n: nat, force: bool) -> bool {
    !force && old_n > SHRINK_GUARD_MIN_OLD_NODES && 2 * new_n < old_n
}

/// What [`merge_project_data`] promises.
pub open spec fn merge_outcome(
    a: &KodexData,
    b: &KodexData,
    p: Seq<char>,
    nodes: Seq<Node>,
    edges: Seq<Edge>,
    force: bool,
    r: Result<(), KodexError>,
) -> bool {
    let old_n = a.extraction.nodes@.filter(node_in_project(p)).len();
    match r {
        Ok(()) => {
            &&& !shrink_refused(old_n, nodes.len(), force)
            &&& b.extraction.nodes@ == a.extraction.nodes@.filter(node_off_project(p)) + nodes
            &&& b.extraction.edges@ == a.extraction.edges@.filter(edge_off_project(p)) + edges
            &&& links_view(b.links@) == links_view(a.links@).filter(
                link_survives(node_uuids(b.extraction.nodes@)),
            )
            &&& b.extraction.hyperedges@ == a.extraction.hyperedges@
            &&& b.knowledge@ == a.knowledge@
            &&& b.review_queue@ == a.review_queue@
        },
        Err(KodexError::ShrinkGuard(name, o, n)) => {
            &&& shrink_refused(old_n, nodes.len(), force)
            &&& name@ == p
            &&& o == old_n
            &&& n == nodes.len()
            &&& b == a
        },
        Err(_) => false,
    }
}

fn path_flags_nodes(ns: &Vec<Node>, p: &str) -> (r: Vec<bool>)
    ensures
        r@.len() == ns@.len(),
        forall|j: int| 0 <= j < ns@.len() ==> r@[j] == node_off_project(p@)(#[trigger] ns@[j]),
{
    let mut flags: Vec<bool> = Vec::new();
    let n = ns.len();
    for i in 0..n
        invariant
            n == ns@.len(),
            flags@.len() == i,
            forall|j: int| 0 <= j < i ==> flags@[j] == node_off_project(p@)(#[trigger] ns@[j]),
    {
        flags.push(!crate::paths::starts_with_path(ns[i].source_file.as_str(), p));
    }
    flags
}

fn path_flags_edges(es: &Vec<Edge>, p: &str) -> (r: Vec<bool>)
    ensures
        r@.len() == es@.len(),
        forall|j: int| 0 <= j < es@.len() ==> r@[j] == edge_off_project(p@)(#[trigger] es@[j]),
{
    let mut flags: Vec<bool> = Vec::new();
    let n = es.len();
    for i in 0..n
        invariant
            n == es@.len(),
            flags@.len() == i,
            forall|j: int| 0 <= j < i ==> flags@[j] == edge_off_project(p@)(#[trigger] es@[j]),
    {
        flags.push(!crate::paths::starts_with_path(es[i].source_file.as_str(), p));
    }
    flags
}

/// Merge a fresh extraction of one project into the store, keeping the other
/// projects: the nodes and edges whose source file lies under the path
/// `project` (component by component) are replaced by `nodes` and `edges`
/// (whose UUIDs the caller has already made stable), and the links to nodes
/// that are gone are dropped. Unless `force_shrink`, a project of more than
/// 50 nodes that would keep less than half of them is refused with
/// [`KodexError::ShrinkGuard`], and the store is left as it was.
pub fn merge_project_data(
    data: &mut KodexData,
    project: &str,
    nodes: Vec<Node>,
    edges: Vec<Edge>,
    force_shrink: bool,
) -> (r: Result<(), KodexError>)
    ensures
        merge_outcome(old(data), final(data), project@, nodes@, edges@, force_shrink, r),
{
    let ghost ns = data.extraction.nodes@;
    let ghost es = data.extraction.edges@;
    let nflags = path_flags_nodes(&data.extraction.nodes, project);
    let total = data.extraction.nodes.len();
    let mut old_n: usize = 0;
    for i in 0..total
        invariant
            total == ns.len(),
            ns == data.extraction.nodes@,
            nflags@.len() == total,
            forall|j: int| 0 <= j < total ==> nflags@[j] == node_off_project(project@)(#[trigger] ns[j]),
            old_n <= i,
            old_n == ns.take(i as int).filter(node_in_project(project@)).len(),
    {
        proof {
            reveal(Seq::filter);
            assert(ns.take(i + 1).drop_last() =~= ns.take(i as int));
        }
        if !nflags[i] {
            old_n = old_n + 1;
        }
    }
    assert(ns.take(total as int) =~= ns);
    if !force_shrink && old_n > SHRINK_GUARD_MIN_OLD_NODES && nodes.len() < old_n
        && nodes.len() < old_n - nodes.len() {
        return Err(KodexError::ShrinkGuard(String::from_str(project), old_n, nodes.len()));
    }
    retain_flags(&mut data.extraction.nodes, &nflags);
    proof {
        lemma_keep_filter(ns, nflags@, node_off_project(project@));
    }
    let eflags = path_flags_edges(&data.extraction.edges, project);
    retain_flags(&mut data.extraction.edges, &eflags);
    proof {
        lemma_keep_filter(es, eflags@, edge_off_project(project@));
    }
    let mut nodes = nodes;
    let mut edges = edges;
    data.extraction.nodes.append(&mut nodes);
    data.extraction.edges.append(&mut edges);
    prune_links(data);
    Ok(())
}

} // verus!
