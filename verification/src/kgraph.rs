//! The graph of knowledge entries: which entries a start entry reaches
//! through links between entries, and each entry with its links.
use vstd::prelude::*;
use vstd::string::StringExecFns;

use crate::seqs::first_where;
use crate::types::{entries_view, links_view, strings_view, EntryView, KnowledgeEntry, KnowledgeLink, KodexData, LinkView, Node};

verus! {

/// A link of an entry in the knowledge graph: the other end, its title (or
/// label) and the relation.
#[derive(Debug)]
pub struct KnowledgeGraphEdge {
    pub target_uuid: String,
    pub target_title: String,
    pub relation: String,
}

/// The mathematical value of a [`KnowledgeGraphEdge`].
pub open spec fn kedge_view(e: KnowledgeGraphEdge) -> (Seq<char>, Seq<char>, Seq<char>) {
    (e.target_uuid@, e.target_title@, e.relation@)
}

/// The views of a list of edges.
pub open spec fn kedges_view(v: Seq<KnowledgeGraphEdge>) -> Seq<(Seq<char>, Seq<char>, Seq<char>)> {
    Seq::new(v.len(), |i: int| kedge_view(v[i]))
}

/// An entry of the knowledge graph with its links: to other entries, from
/// other entries, and to code nodes.
#[derive(Debug)]
pub struct KnowledgeGraphNode {
    pub uuid: String,
    pub title: String,
    pub knowledge_type: String,
    pub confidence_bits: u64,
    pub status: String,
    pub links_out: Vec<KnowledgeGraphEdge>,
    pub links_in: Vec<KnowledgeGraphEdge>,
    pub node_links: Vec<KnowledgeGraphEdge>,
}

/// The mathematical value of a [`KnowledgeGraphNode`].
pub struct KgNodeView {
    pub uuid: Seq<char>,
    pub title: Seq<char>,
    pub knowledge_type: Seq<char>,
    pub confidence_bits: u64,
    pub status: Seq<char>,
    pub links_out: Seq<(Seq<char>, Seq<char>, Seq<char>)>,
    pub links_in: Seq<(Seq<char>, Seq<char>, Seq<char>)>,
    pub node_links: Seq<(Seq<char>, Seq<char>, Seq<char>)>,
}

/// The mathematical value of a [`KnowledgeGraphNode`].
pub open spec fn kgnode_view(n: KnowledgeGraphNode) -> KgNodeView {
    KgNodeView {
        uuid: n.uuid@,
        title: n.title@,
        knowledge_type: n.knowledge_type@,
        confidence_bits: n.confidence_bits,
        status: n.status@,
        links_out: kedges_view(n.links_out@),
        links_in: kedges_view(n.links_in@),
        node_links: kedges_view(n.node_links@),
    }
}

/// The views of a list of graph nodes.
pub open spec fn kgnodes_view(v: Seq<KnowledgeGraphNode>) -> Seq<KgNodeView> {
    Seq::new(v.len(), |i: int| kgnode_view(v[i]))
}

/// The position of the last entry with UUID `u`, or -1.
pub open spec fn last_entry_pos(k: Seq<EntryView>, u: Seq<char>) -> int
    decreases k.len(),
{
    if k.len() == 0 {
        -1
    } else if k.last().uuid == u {
        k.len() - 1
    } else {
        last_entry_pos(k.drop_last(), u)
    }
}

/// The title of the (last) entry with UUID `u`; empty when there is none.
pub open spec fn title_of(k: Seq<EntryView>, u: Seq<char>) -> Seq<char> {
    let i = last_entry_pos(k, u);
    if 0 <= i < k.len() {
        k[i].title
    } else {
        seq![]
    }
}

/// A node with UUID `u`.
pub open spec fn node_has_uuid(u: Seq<char>) -> spec_fn(Node) -> bool {
    |n: Node| n.uuid matches Some(x) && x@ == u
}

/// The label of the first node with UUID `u`; `u` itself when there is none.
pub open spec fn label_of(ns: Seq<Node>, u: Seq<char>) -> Seq<char> {
    let i = first_where(ns, node_has_uuid(u));
    if 0 <= i < ns.len() {
        ns[i].label@
    } else {
        u
    }
}

/// The links from entry `u` to other entries, in link order.
pub open spec fn out_edges(ls: Seq<LinkView>, k: Seq<EntryView>, u: Seq<char>) -> Seq<(Seq<char>, Seq<char>, Seq<char>)>
    decreases ls.len(),
{
    if ls.len() == 0 {
        seq![]
    } else {
        let p = out_edges(ls.drop_last(), k, u);
        let l = ls.last();
        if l.is_knowledge_link() && l.knowledge_uuid == u {
            p.push((l.node_uuid, title_of(k, l.node_uuid), l.relation))
        } else {
            p
        }
    }
}

/// The links to entry `u` from other entries, in link order.
pub open spec fn in_edges(ls: Seq<LinkView>, k: Seq<EntryView>, u: Seq<char>) -> Seq<(Seq<char>, Seq<char>, Seq<char>)>
    decreases ls.len(),
{
    if ls.len() == 0 {
        seq![]
    } else {
        let p = in_edges(ls.drop_last(), k, u);
        let l = ls.last();
        if l.is_knowledge_link() && l.node_uuid == u {
            p.push((l.knowledge_uuid, title_of(k, l.knowledge_uuid), l.relation))
        } else {
            p
        }
    }
}

/// The links from entry `u` to code nodes, in link order, with the nodes'
/// labels.
pub open spec fn node_edges(ls: Seq<LinkView>, ns: Seq<Node>, u: Seq<char>) -> Seq<(Seq<char>, Seq<char>, Seq<char>)>
    decreases ls.len(),
{
    if ls.len() == 0 {
        seq![]
    } else {
        let p = node_edges(ls.drop_last(), ns, u);
        let l = ls.last();
        if !l.is_knowledge_link() && l.knowledge_uuid == u {
            p.push((l.node_uuid, label_of(ns, l.node_uuid), l.relation))
        } else {
            p
        }
    }
}

/// A link between entries joins `u` and `v`, in either direction.
pub open spec fn k_adjacent(ls: Seq<LinkView>, u: Seq<char>, v: Seq<char>) -> bool {
    exists|i: int|
        0 <= i < ls.len() && (#[trigger] ls[i]).is_knowledge_link() && ((ls[i].knowledge_uuid == u && ls[i].node_uuid
            == v) || (ls[i].node_uuid == u && ls[i].knowledge_uuid == v))
}

/// One step out of the set `s`: `s` and the entries a link joins to one of
/// its members.
pub open spec fn step(ls: Seq<LinkView>, s: Set<Seq<char>>) -> Set<Seq<char>> {
    s.union(Set::new(|v: Seq<char>| exists|u: Seq<char>| s.contains(u) && k_adjacent(ls, u, v)))
}

/// The entries at most `d` links away from `start` (links between entries,
/// followed either way).
pub open spec fn within(ls: Seq<LinkView>, start: Seq<char>, d: nat) -> Set<Seq<char>>
    decreases d,
{
    if d == 0 {
        set![start]
    } else {
        step(ls, within(ls, start, (d - 1) as nat))
    }
}

/// Whether entry `u` belongs to the traversal: it is within `max_depth`
/// links of the start, or every entry does when there is no start.
pub open spec fn included(ls: Seq<LinkView>, start: Option<Seq<char>>, max_depth: nat, u: Seq<char>) -> bool {
    match start {
        Some(s) => within(ls, s, max_depth).contains(u),
        None => true,
    }
}

/// The graph node of entry `e`, with its links.
pub open spec fn kg_node(e: EntryView, k: Seq<EntryView>, ls: Seq<LinkView>, ns: Seq<Node>) -> KgNodeView {
    KgNodeView {
        uuid: e.uuid,
        title: e.title,
        knowledge_type: e.knowledge_type,
        confidence_bits: e.confidence_bits,
        status: e.status,
        links_out: out_edges(ls, k, e.uuid),
        links_in: in_edges(ls, k, e.uuid),
        node_links: node_edges(ls, ns, e.uuid),
    }
}

/// The graph nodes of the entries of `es` that are included, in order
/// (`k` is the whole list of entries, for titles).
pub open spec fn kg_nodes(
    es: Seq<EntryView>,
    k: Seq<EntryView>,
    ls: Seq<LinkView>,
    ns: Seq<Node>,
    start: Option<Seq<char>>,
    max_depth: nat,
) -> Seq<KgNodeView>
    decreases es.len(),
{
    if es.len() == 0 {
        seq![]
    } else {
        let p = kg_nodes(es.drop_last(), k, ls, ns, start, max_depth);
        if included(ls, start, max_depth, es.last().uuid) {
            p.push(kg_node(es.last(), k, ls, ns))
        } else {
            p
        }
    }
}

pub(crate) proof fn lemma_push_contains(s: Seq<Seq<char>>, a: Seq<char>, x: Seq<char>)
    ensures
        s.push(a).contains(x) <==> (s.contains(x) || x == a),
{
    if s.push(a).contains(x) {
        let k = choose|k: int| 0 <= k < s.push(a).len() && s.push(a)[k] == x;
        if k < s.len() {
            assert(s[k] == x);
        }
    }
    if s.contains(x) {
        let k = choose|k: int| 0 <= k < s.len() && s[k] == x;
        assert(s.push(a)[k] == x);
    }
    if x == a {
        assert(s.push(a)[s.len() as int] == x);
    }
}

/// Link `l` joins a member of `s` to `v`.
pub open spec fn link_joins(l: LinkView, s: Set<Seq<char>>, v: Seq<char>) -> bool {
    l.is_knowledge_link() && ((s.contains(l.knowledge_uuid) && l.node_uuid == v) || (s.contains(l.node_uuid)
        && l.knowledge_uuid == v))
}

fn push_new(next: &mut Vec<String>, v: &String) -> (grew: bool)
    ensures
        forall|x: Seq<char>| strings_view(final(next)@).contains(x) <==> (strings_view(old(next)@).contains(x) || x == v@),
        !grew ==> strings_view(final(next)@) == strings_view(old(next)@),
{
    let ghost sv = strings_view(next@);
    if crate::learn::strings_contain(next, v.as_str()) {
        false
    } else {
        next.push(v.clone());
        assert(strings_view(next@) =~= sv.push(v@));
        assert forall|x: Seq<char>| strings_view(next@).contains(x) <==> (sv.contains(x) || x == v@) by {
            lemma_push_contains(sv, v@, x);
        }
        true
    }
}

fn step_exec(ls: &Vec<KnowledgeLink>, cur: &Vec<String>, Ghost(cs): Ghost<Set<Seq<char>>>) -> (r: (Vec<String>, bool))
    requires
        forall|x: Seq<char>| strings_view(cur@).contains(x) <==> cs.contains(x),
    ensures
        forall|x: Seq<char>| strings_view(r.0@).contains(x) <==> step(links_view(ls@), cs).contains(x),
        !r.1 ==> forall|x: Seq<char>| strings_view(r.0@).contains(x) <==> cs.contains(x),
{
    let ghost lv = links_view(ls@);
    let mut next: Vec<String> = Vec::new();
    let n = cur.len();
    for i in 0..n
        invariant
            n == cur@.len(),
            strings_view(next@) == strings_view(cur@).take(i as int),
    {
        let ghost before = strings_view(next@);
        let c = cur[i].clone();
        assert(c@ == strings_view(cur@)[i as int]);
        next.push(c);
        assert(strings_view(next@) =~= before.push(c@));
        assert(strings_view(cur@).take(i + 1) =~= strings_view(cur@).take(i as int).push(c@));
    }
    assert(strings_view(cur@).take(n as int) =~= strings_view(cur@));
    let mut grew = false;
    let m = ls.len();
    for j in 0..m
        invariant
            m == ls@.len(),
            lv == links_view(ls@),
            forall|x: Seq<char>| strings_view(cur@).contains(x) <==> cs.contains(x),
            forall|x: Seq<char>|
                #![trigger strings_view(next@).contains(x)]
                strings_view(next@).contains(x) <==> (cs.contains(x) || exists|i: int|
                    0 <= i < j && link_joins(#[trigger] lv[i], cs, x)),
            !grew ==> forall|x: Seq<char>| strings_view(next@).contains(x) <==> cs.contains(x),
    {
        let l = &ls[j];
        assert(lv[j as int] == l@);
        let ghost sv0 = strings_view(next@);
        let ghost c1 = l@.is_knowledge_link() && cs.contains(l@.knowledge_uuid);
        let ghost c2 = l@.is_knowledge_link() && cs.contains(l@.node_uuid);
        let ghost mut sv1 = sv0;
        if l.is_knowledge_link() {
            if crate::learn::strings_contain(cur, l.knowledge_uuid.as_str()) {
                let g = push_new(&mut next, &l.node_uuid);
                grew = grew || g;
            }
            proof {
                sv1 = strings_view(next@);
            }
            assert forall|x: Seq<char>| sv1.contains(x) <==> (sv0.contains(x) || (c1 && x == l@.node_uuid)) by {}
            if crate::learn::strings_contain(cur, l.node_uuid.as_str()) {
                let g = push_new(&mut next, &l.knowledge_uuid);
                grew = grew || g;
            }
            assert forall|x: Seq<char>| strings_view(next@).contains(x) <==> (sv1.contains(x) || (c2 && x == l@.knowledge_uuid)) by {}
        }
        assert forall|x: Seq<char>|
            strings_view(next@).contains(x) <==> (sv0.contains(x) || (c1 && x == l@.node_uuid) || (c2 && x
                == l@.knowledge_uuid)) by {
            if l@.is_knowledge_link() {
                assert(sv1.contains(x) == (sv0.contains(x) || (c1 && x == l@.node_uuid)));
            }
        }
        assert forall|x: Seq<char>| link_joins(lv[j as int], cs, x) <==> ((c1 && x == l@.node_uuid) || (c2 && x
            == l@.knowledge_uuid)) by {}
        assert forall|x: Seq<char>|
            #![trigger strings_view(next@).contains(x)]
            strings_view(next@).contains(x) <==> (cs.contains(x) || exists|i: int|
                0 <= i < j + 1 && link_joins(#[trigger] lv[i], cs, x)) by {
            if exists|i: int| 0 <= i < j + 1 && link_joins(#[trigger] lv[i], cs, x) {
                let i = choose|i: int| 0 <= i < j + 1 && link_joins(#[trigger] lv[i], cs, x);
                if i < j {
                    assert(exists|i: int| 0 <= i < j && link_joins(#[trigger] lv[i], cs, x));
                }
            }
            if exists|i: int| 0 <= i < j && link_joins(#[trigger] lv[i], cs, x) {
                let i = choose|i: int| 0 <= i < j && link_joins(#[trigger] lv[i], cs, x);
                assert(0 <= i < j + 1 && link_joins(lv[i], cs, x));
            }
        }
    }
    assert forall|x: Seq<char>| strings_view(next@).contains(x) <==> step(lv, cs).contains(x) by {
        if exists|i: int| 0 <= i < m && link_joins(#[trigger] lv[i], cs, x) {
            let i = choose|i: int| 0 <= i < m && link_joins(#[trigger] lv[i], cs, x);
            if cs.contains(lv[i].knowledge_uuid) && lv[i].node_uuid == x {
                assert(k_adjacent(lv, lv[i].knowledge_uuid, x));
            } else {
                assert(k_adjacent(lv, lv[i].node_uuid, x));
            }
        }
        if exists|u: Seq<char>| cs.contains(u) && k_adjacent(lv, u, x) {
            let u = choose|u: Seq<char>| cs.contains(u) && k_adjacent(lv, u, x);
            let i = choose|i: int|
                0 <= i < lv.len() && (#[trigger] lv[i]).is_knowledge_link() && ((lv[i].knowledge_uuid == u
                    && lv[i].node_uuid == x) || (lv[i].node_uuid == u && lv[i].knowledge_uuid == x));
            assert(link_joins(lv[i], cs, x));
        }
    }
    (next, grew)
}

proof fn lemma_within_stable(ls: Seq<LinkView>, start: Seq<char>, d: nat, e: nat)
    requires
        d <= e,
        within(ls, start, d + 1) == within(ls, start, d),
    ensures
        within(ls, start, e) == within(ls, start, d),
    decreases e - d,
{
    if e > d {
        lemma_within_stable(ls, start, d, (e - 1) as nat);
    }
}

fn reach(ls: &Vec<KnowledgeLink>, start: &str, max_depth: usize) -> (r: Vec<String>)
    ensures
        forall|x: Seq<char>| strings_view(r@).contains(x) <==> within(links_view(ls@), start@, max_depth as nat).contains(x),
{
    let ghost lv = links_view(ls@);
    let mut cur: Vec<String> = Vec::new();
    cur.push(String::from_str(start));
    assert forall|x: Seq<char>| strings_view(cur@).contains(x) <==> within(lv, start@, 0).contains(x) by {
        if strings_view(cur@).contains(x) {
            let k = choose|k: int| 0 <= k < strings_view(cur@).len() && strings_view(cur@)[k] == x;
            assert(k == 0);
        }
        if x == start@ {
            assert(strings_view(cur@)[0] == x);
        }
    }
    let mut d: usize = 0;
    while d < max_depth
        invariant
            d <= max_depth,
            lv == links_view(ls@),
            forall|x: Seq<char>| strings_view(cur@).contains(x) <==> within(lv, start@, d as nat).contains(x),
        decreases max_depth - d,
    {
        let (next, grew) = step_exec(ls, &cur, Ghost(within(lv, start@, d as nat)));
        assert(within(lv, start@, (d + 1) as nat) == step(lv, within(lv, start@, d as nat)));
        if !grew {
            proof {
                assert(within(lv, start@, (d + 1) as nat) =~= within(lv, start@, d as nat));
                lemma_within_stable(lv, start@, d as nat, max_depth as nat);
            }
            return cur;
        }
        cur = next;
        d = d + 1;
    }
    cur
}

fn title_of_exec(k: &Vec<KnowledgeEntry>, u: &str) -> (r: String)
    ensures
        r@ == title_of(entries_view(k@), u@),
{
    let ghost kv = entries_view(k@);
    let mut j = k.len();
    assert(kv.take(j as int) =~= kv);
    while j > 0
        invariant
            j <= k@.len(),
            kv == entries_view(k@),
            last_entry_pos(kv, u@) == last_entry_pos(kv.take(j as int), u@),
        decreases j,
    {
        assert(kv.take(j as int).drop_last() =~= kv.take(j - 1));
        assert(kv.take(j as int).last() == k@[j - 1]@);
        if crate::text::str_eq(k[j - 1].uuid.as_str(), u) {
            return k[j - 1].title.clone();
        }
        j = j - 1;
    }
    String::new()
}

fn label_of_exec(ns: &Vec<Node>, u: &str) -> (r: String)
    ensures
        r@ == label_of(ns@, u@),
{
    let ghost p = node_has_uuid(u@);
    let n = ns.len();
    for i in 0..n
        invariant
            n == ns@.len(),
            p == node_has_uuid(u@),
            forall|j: int| 0 <= j < i ==> !p(#[trigger] ns@[j]),
    {
        let hit = match &ns[i].uuid {
            Some(x) => crate::text::str_eq(x.as_str(), u),
            None => false,
        };
        if hit {
            proof {
                crate::seqs::lemma_first_where_is(ns@, p, i as int);
            }
            return ns[i].label.clone();
        }
    }
    proof {
        crate::seqs::lemma_first_where_is(ns@, p, -1);
    }
    String::from_str(u)
}

fn push_edge(v: &mut Vec<KnowledgeGraphEdge>, target: &String, title: String, relation: &String)
    ensures
        kedges_view(final(v)@) == kedges_view(old(v)@).push((target@, title@, relation@)),
{
    v.push(KnowledgeGraphEdge { target_uuid: target.clone(), target_title: title, relation: relation.clone() });
    assert(kedges_view(v@) =~= kedges_view(old(v)@).push((target@, title@, relation@)));
}

fn edges_of(data: &KodexData, u: &str) -> (r: (Vec<KnowledgeGraphEdge>, Vec<KnowledgeGraphEdge>, Vec<KnowledgeGraphEdge>))
    ensures
        kedges_view(r.0@) == out_edges(links_view(data.links@), entries_view(data.knowledge@), u@),
        kedges_view(r.1@) == in_edges(links_view(data.links@), entries_view(data.knowledge@), u@),
        kedges_view(r.2@) == node_edges(links_view(data.links@), data.extraction.nodes@, u@),
{
    let ghost lv = links_view(data.links@);
    let ghost k = entries_view(data.knowledge@);
    let mut o: Vec<KnowledgeGraphEdge> = Vec::new();
    let mut i: Vec<KnowledgeGraphEdge> = Vec::new();
    let mut nl: Vec<KnowledgeGraphEdge> = Vec::new();
    let m = data.links.len();
    assert(lv.take(0) =~= Seq::<LinkView>::empty());
    for j in 0..m
        invariant
            m == data.links@.len(),
            lv == links_view(data.links@),
            k == entries_view(data.knowledge@),
            kedges_view(o@) == out_edges(lv.take(j as int), k, u@),
            kedges_view(i@) == in_edges(lv.take(j as int), k, u@),
            kedges_view(nl@) == node_edges(lv.take(j as int), data.extraction.nodes@, u@),
    {
        assert(lv.take(j + 1).drop_last() =~= lv.take(j as int));
        assert(lv.take(j + 1).last() == lv[j as int]);
        let l = &data.links[j];
        assert(lv[j as int] == l@);
        if l.is_knowledge_link() {
            if crate::text::str_eq(l.knowledge_uuid.as_str(), u) {
                let t = title_of_exec(&data.knowledge, l.node_uuid.as_str());
                push_edge(&mut o, &l.node_uuid, t, &l.relation);
            }
            if crate::text::str_eq(l.node_uuid.as_str(), u) {
                let t = title_of_exec(&data.knowledge, l.knowledge_uuid.as_str());
                push_edge(&mut i, &l.knowledge_uuid, t, &l.relation);
            }
        } else if crate::text::str_eq(l.knowledge_uuid.as_str(), u) {
            let t = label_of_exec(&data.extraction.nodes, l.node_uuid.as_str());
            push_edge(&mut nl, &l.node_uuid, t, &l.relation);
        }
    }
    assert(lv.take(m as int) =~= lv);
    (o, i, nl)
}

/// The knowledge graph from `start_uuid`: the entries within `max_depth`
/// links of it (links between entries, followed either way), or all entries
/// when there is no start, in entry order, each with its links (see
/// [`kg_nodes`]).
pub fn traverse_knowledge_graph(data: &KodexData, start_uuid: Option<&str>, max_depth: usize) -> (r: Vec<
    KnowledgeGraphNode,
>)
    ensures
        kgnodes_view(r@) == kg_nodes(
            entries_view(data.knowledge@),
            entries_view(data.knowledge@),
            links_view(data.links@),
            data.extraction.nodes@,
            crate::learn::opt_str(start_uuid),
            max_depth as nat,
        ),
{
    let ghost k = entries_view(data.knowledge@);
    let ghost lv = links_view(data.links@);
    let ghost st = crate::learn::opt_str(start_uuid);
    let reached = match start_uuid {
        Some(s) => reach(&data.links, s, max_depth),
        None => Vec::new(),
    };
    let mut out: Vec<KnowledgeGraphNode> = Vec::new();
    let n = data.knowledge.len();
    assert(k.take(0) =~= Seq::<EntryView>::empty());
    for i in 0..n
        invariant
            n == data.knowledge@.len(),
            k == entries_view(data.knowledge@),
            lv == links_view(data.links@),
            st == crate::learn::opt_str(start_uuid),
            start_uuid is Some ==> forall|x: Seq<char>|
                strings_view(reached@).contains(x) <==> within(lv, start_uuid.unwrap()@, max_depth as nat).contains(x),
            kgnodes_view(out@) == kg_nodes(k.take(i as int), k, lv, data.extraction.nodes@, st, max_depth as nat),
    {
        assert(k.take(i + 1).drop_last() =~= k.take(i as int));
        assert(k.take(i + 1).last() == k[i as int]);
        let e = &data.knowledge[i];
        assert(k[i as int] == e@);
        let inc = match start_uuid {
            Some(_) => crate::learn::strings_contain(&reached, e.uuid.as_str()),
            None => true,
        };
        if inc {
            let (lo, li, ln) = edges_of(data, e.uuid.as_str());
            let node = KnowledgeGraphNode {
                uuid: e.uuid.clone(),
                title: e.title.clone(),
                knowledge_type: e.knowledge_type.clone(),
                confidence_bits: e.confidence_bits,
                status: e.status.clone(),
                links_out: lo,
                links_in: li,
                node_links: ln,
            };
            let ghost before = out@;
            out.push(node);
            assert(kgnodes_view(out@) =~= kgnodes_view(before).push(kgnode_view(node)));
        }
    }
    assert(k.take(n as int) =~= k);
    out
}

// ---------------------------------------------------------------------------
// Rendering
// ---------------------------------------------------------------------------

/// A link out of an entry, as a line.
pub open spec fn out_line(e: KnowledgeGraphEdge) -> Seq<char> {
    "  \u{2192} "@ + e.relation@ + " **"@ + e.target_title@ + "**\n"@
}

/// A link into an entry, as a line.
pub open spec fn in_line(e: KnowledgeGraphEdge) -> Seq<char> {
    "  \u{2190} "@ + e.relation@ + " **"@ + e.target_title@ + "**\n"@
}

/// The titles of a list of links.
pub open spec fn edge_titles(v: Seq<KnowledgeGraphEdge>) -> Seq<Seq<char>> {
    Seq::new(v.len(), |i: int| v[i].target_title@)
}

/// One entry of the rendered graph, with its confidence in whole percent:
/// its title line, its links out and in, and the labels of its code nodes.
pub open spec fn kg_node_text(n: KnowledgeGraphNode, pct: u32) -> Seq<char> {
    "### "@ + n.title@ + " ("@ + n.knowledge_type@ + ", "@ + crate::misc::decimal(pct as nat) + "%)\n"@
        + crate::report::concat_map(n.links_out@, |e: KnowledgeGraphEdge| out_line(e))
        + crate::report::concat_map(n.links_in@, |e: KnowledgeGraphEdge| in_line(e)) + if n.node_links@.len() > 0 {
        "  code: "@ + crate::text::join_with(edge_titles(n.node_links@), ", "@) + "\n"@
    } else {
        seq![]
    } + "\n"@
}

/// The first `k` entries rendered, each with its percentage.
pub open spec fn kg_nodes_text(ns: Seq<KnowledgeGraphNode>, ps: Seq<u32>, k: int) -> Seq<char>
    decreases k,
{
    if k <= 0 {
        seq![]
    } else {
        kg_nodes_text(ns, ps, k - 1) + kg_node_text(ns[k - 1], ps[k - 1])
    }
}

/// The knowledge graph as Markdown; `No knowledge in graph.` when empty.
pub open spec fn kg_markdown(ns: Seq<KnowledgeGraphNode>, ps: Seq<u32>) -> Seq<char> {
    if ns.len() == 0 {
        "No knowledge in graph."@
    } else {
        "## Knowledge Graph ("@ + crate::misc::decimal(ns.len()) + " entries)\n\n"@ + kg_nodes_text(
            ns,
            ps,
            ns.len() as int,
        )
    }
}

fn edge_lines_exec(out: &mut String, v: &Vec<KnowledgeGraphEdge>, outgoing: bool)
    ensures
        final(out)@ == old(out)@ + if outgoing {
            crate::report::concat_map(v@, |e: KnowledgeGraphEdge| out_line(e))
        } else {
            crate::report::concat_map(v@, |e: KnowledgeGraphEdge| in_line(e))
        },
{
    let ghost start = out@;
    let ghost f = if outgoing {
        |e: KnowledgeGraphEdge| out_line(e)
    } else {
        |e: KnowledgeGraphEdge| in_line(e)
    };
    let n = v.len();
    for i in 0..n
        invariant
            n == v@.len(),
            f == (if outgoing {
                |e: KnowledgeGraphEdge| out_line(e)
            } else {
                |e: KnowledgeGraphEdge| in_line(e)
            }),
            out@ == start + crate::report::concat_map(v@.take(i as int), f),
    {
        proof {
            crate::report::lemma_concat_step(v@, f, i as int);
        }
        let ghost before = out@;
        if outgoing {
            out.append("  \u{2192} ");
        } else {
            out.append("  \u{2190} ");
        }
        out.append(v[i].relation.as_str());
        out.append(" **");
        out.append(v[i].target_title.as_str());
        out.append("**\n");
        assert(out@ =~= before + f(v@[i as int]));
    }
    assert(v@.take(n as int) =~= v@);
}

fn edge_titles_exec(v: &Vec<KnowledgeGraphEdge>) -> (r: Vec<String>)
    ensures
        strings_view(r@) == edge_titles(v@),
{
    let mut out: Vec<String> = Vec::new();
    let n = v.len();
    for i in 0..n
        invariant
            n == v@.len(),
            strings_view(out@) == edge_titles(v@).take(i as int),
    {
        let ghost before = out@;
        let t = v[i].target_title.clone();
        assert(t@ == v@[i as int].target_title@);
        out.push(t);
        assert(strings_view(out@) =~= strings_view(before).push(t@));
        assert(strings_view(out@) =~= edge_titles(v@).take(i + 1));
    }
    assert(edge_titles(v@).take(n as int) =~= edge_titles(v@));
    out
}

fn kg_node_exec(out: &mut String, n: &KnowledgeGraphNode, pct: u32)
    ensures
        final(out)@ == old(out)@ + kg_node_text(*n, pct),
{
    let ghost before = out@;
    out.append("### ");
    out.append(n.title.as_str());
    out.append(" (");
    out.append(n.knowledge_type.as_str());
    out.append(", ");
    out.append(crate::misc::decimal_exec(pct as u64).as_str());
    out.append("%)\n");
    let ghost head = out@;
    edge_lines_exec(out, &n.links_out, true);
    edge_lines_exec(out, &n.links_in, false);
    let ghost mid = out@;
    if n.node_links.len() > 0 {
        out.append("  code: ");
        let titles = edge_titles_exec(&n.node_links);
        out.append(crate::text::join_strings(titles.as_slice(), ", ").as_str());
        out.append("\n");
    }
    out.append("\n");
    assert(out@ =~= before + kg_node_text(*n, pct));
}

/// The knowledge graph as Markdown (see [`kg_markdown`]), each entry shown
/// with its confidence in whole percent, `confidence_pct[i]` for `nodes[i]`.
pub fn render_knowledge_graph(nodes: &Vec<KnowledgeGraphNode>, confidence_pct: &Vec<u32>) -> (r: String)
    requires
        confidence_pct@.len() == nodes@.len(),
    ensures
        r@ == kg_markdown(nodes@, confidence_pct@),
{
    let n = nodes.len();
    if n == 0 {
        return String::from_str("No knowledge in graph.");
    }
    let mut out = String::from_str("## Knowledge Graph (");
    out.append(crate::misc::decimal_exec(n as u64).as_str());
    out.append(" entries)\n\n");
    let ghost head = out@;
    for i in 0..n
        invariant
            n == nodes@.len(),
            n == confidence_pct@.len(),
            out@ == head + kg_nodes_text(nodes@, confidence_pct@, i as int),
    {
        kg_node_exec(&mut out, &nodes[i], confidence_pct[i]);
    }
    out
}

} // verus!
