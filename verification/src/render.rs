//! Text renderings of a subgraph: a Mermaid flowchart and a plain listing.
use vstd::prelude::*;
use vstd::string::StringExecFns;

use crate::graph::KodexGraph;
use crate::text::{join_with, push_char, unicode_alnum, unicode_numeric};
use crate::types::{confidence_name, strings_view, Edge};

verus! {

/// A character of a Mermaid id: letters, digits and `_` stay, anything else
/// becomes `_`.
pub open spec fn mermaid_char(c: char) -> char {
    if unicode_alnum(c) || c == '_' {
        c
    } else {
        '_'
    }
}

/// A Mermaid node id for `raw`: its characters made safe, prefixed by `n_`
/// when empty or starting with a digit.
pub open spec fn mermaid_id(raw: Seq<char>) -> Seq<char> {
    let s = raw.map_values(|c: char| mermaid_char(c));
    if s.len() == 0 || unicode_numeric(s[0]) {
        seq!['n', '_'] + s
    } else {
        s
    }
}

/// A label with each double quote replaced by a single quote.
pub open spec fn escape_label(s: Seq<char>) -> Seq<char> {
    s.map_values(|c: char| if c == '"' { '\'' } else { c })
}

/// The label of node `id`, or `id` itself when the graph has no such node.
pub open spec fn label_or_id(g: &KodexGraph, id: Seq<char>) -> Seq<char> {
    let i = g.spec_node_index(id);
    if i >= 0 {
        g.nodes@[i].label@
    } else {
        id
    }
}

/// The Mermaid line declaring node `id`.
pub open spec fn mermaid_node_line(g: &KodexGraph, id: Seq<char>) -> Seq<char> {
    "    "@ + mermaid_id(id) + "[\""@ + escape_label(label_or_id(g, id)) + "\"]"@
}

/// The Mermaid line of an edge.
pub open spec fn mermaid_edge_line(e: Edge) -> Seq<char> {
    "    "@ + mermaid_id(e.source@) + " -->|"@ + escape_label(e.relation@) + "| "@ + mermaid_id(
        e.target@,
    )
}

/// The edges of `es` with both ends among `ns`, in order.
pub open spec fn edges_within(es: Seq<Edge>, ns: Set<Seq<char>>) -> Seq<Edge>
    decreases es.len(),
{
    if es.len() == 0 {
        seq![]
    } else {
        let p = edges_within(es.drop_last(), ns);
        if ns.contains(es.last().source@) && ns.contains(es.last().target@) {
            p.push(es.last())
        } else {
            p
        }
    }
}

/// The lines of the Mermaid flowchart of the nodes `ns` (in the given order)
/// and the graph's edges between them.
pub open spec fn mermaid_lines(g: &KodexGraph, ns: Seq<Seq<char>>) -> Seq<Seq<char>> {
    seq!["flowchart LR"@] + ns.map_values(|id: Seq<char>| mermaid_node_line(g, id)) + edges_within(
        g.edges@,
        ns.to_set(),
    ).map_values(|e: Edge| mermaid_edge_line(e))
}

fn mermaid_id_exec(raw: &str) -> (r: String)
    ensures
        r@ == mermaid_id(raw@),
{
    let cs = crate::text::str_chars(raw);
    let mut s = String::new();
    let n = cs.len();
    for i in 0..n
        invariant
            n == cs@.len(),
            cs@ == raw@,
            s@ == raw@.take(i as int).map_values(|c: char| mermaid_char(c)),
    {
        let c = cs[i];
        let keep = crate::text::is_alnum(c) || c == '_';
        let d = if keep {
            c
        } else {
            '_'
        };
        push_char(&mut s, d);
        assert(raw@.take(i + 1).map_values(|c: char| mermaid_char(c)) =~= raw@.take(
            i as int,
        ).map_values(|c: char| mermaid_char(c)).push(d));
    }
    assert(raw@.take(n as int) =~= raw@);
    let sc = crate::text::str_chars(s.as_str());
    let numeric_first = if sc.len() == 0 {
        true
    } else {
        crate::text::is_numeric(sc[0])
    };
    if numeric_first {
        let mut p = String::from_str("n_");
        proof {
            reveal_strlit("n_");
        }
        p.append(s.as_str());
        assert(p@ =~= seq!['n', '_'] + s@);
        p
    } else {
        s
    }
}

fn escape_exec(raw: &str) -> (r: String)
    ensures
        r@ == escape_label(raw@),
{
    let cs = crate::text::str_chars(raw);
    let mut s = String::new();
    let n = cs.len();
    for i in 0..n
        invariant
            n == cs@.len(),
            cs@ == raw@,
            s@ == raw@.take(i as int).map_values(|c: char| if c == '"' { '\'' } else { c }),
    {
        let c = cs[i];
        let d = if c == '"' {
            '\''
        } else {
            c
        };
        push_char(&mut s, d);
        assert(raw@.take(i + 1).map_values(|c: char| if c == '"' { '\'' } else { c }) =~= raw@.take(
            i as int,
        ).map_values(|c: char| if c == '"' { '\'' } else { c }).push(d));
    }
    assert(raw@.take(n as int) =~= raw@);
    s
}

fn label_or_id_exec(g: &KodexGraph, id: &str) -> (r: String)
    ensures
        r@ == label_or_id(g, id@),
{
    match g.get_node(id) {
        Some(n) => n.label.clone(),
        None => String::from_str(id),
    }
}

/// The edges of the graph with both ends among `nodes`.
fn edges_within_exec(g: &KodexGraph, nodes: &Vec<String>) -> (r: Vec<usize>)
    ensures
        r@.len() == edges_within(g.edges@, strings_view(nodes@).to_set()).len(),
        forall|i: int|
            0 <= i < r@.len() ==> (#[trigger] r@[i]) < g.edges@.len() && g.edges@[r@[i] as int]
                == edges_within(g.edges@, strings_view(nodes@).to_set())[i],
{
    let ghost ns = strings_view(nodes@).to_set();
    let ghost es = g.edges@;
    let mut out: Vec<usize> = Vec::new();
    let n = g.edges.len();
    for i in 0..n
        invariant
            n == es.len(),
            es == g.edges@,
            ns == strings_view(nodes@).to_set(),
            out@.len() == edges_within(es.take(i as int), ns).len(),
            forall|j: int|
                0 <= j < out@.len() ==> (#[trigger] out@[j]) < i && es[out@[j] as int]
                    == edges_within(es.take(i as int), ns)[j],
    {
        let e = &g.edges[i];
        assert(es.take(i + 1).drop_last() =~= es.take(i as int));
        assert(es.take(i + 1).last() == es[i as int]);
        if crate::learn::strings_contain(nodes, e.source.as_str())
            && crate::learn::strings_contain(nodes, e.target.as_str()) {
            out.push(i);
        }
    }
    assert(es.take(n as int) =~= es);
    out
}

/// A Mermaid flowchart of the nodes `nodes` (in order) and the graph's edges
/// between them: a `flowchart LR` header, one line per node with a sanitised
/// id and its quoted label (double quotes made single), one line per edge
/// with its relation.
pub fn subgraph_to_mermaid(graph: &KodexGraph, nodes: &Vec<String>, edges: &[(String, String)]) -> (r:
    String)
    ensures
        r@ == join_with(mermaid_lines(graph, strings_view(nodes@)), seq!['\n']),
{
    let ghost ns = strings_view(nodes@);
    let mut lines: Vec<String> = Vec::new();
    lines.push(String::from_str("flowchart LR"));
    let n = nodes.len();
    for i in 0..n
        invariant
            n == nodes@.len(),
            ns == strings_view(nodes@),
            strings_view(lines@) == seq!["flowchart LR"@] + ns.take(i as int).map_values(
                |id: Seq<char>| mermaid_node_line(graph, id),
            ),
    {
        let id = &nodes[i];
        let mut line = String::from_str("    ");
        line.append(mermaid_id_exec(id.as_str()).as_str());
        line.append("[\"");
        line.append(escape_exec(label_or_id_exec(graph, id.as_str()).as_str()).as_str());
        line.append("\"]");
        let ghost b = lines@;
        lines.push(line);
        assert(ns[i as int] == id@);
        assert(strings_view(lines@) =~= strings_view(b).push(mermaid_node_line(graph, id@)));
        assert(ns.take(i + 1).map_values(|id: Seq<char>| mermaid_node_line(graph, id)) =~= ns.take(
            i as int,
        ).map_values(|id: Seq<char>| mermaid_node_line(graph, id)).push(mermaid_node_line(graph, id@)));
    }
    assert(ns.take(n as int) =~= ns);
    let within = edges_within_exec(graph, nodes);
    let ghost ew = edges_within(graph.edges@, ns.to_set());
    let ghost head = strings_view(lines@);
    let m = within.len();
    for j in 0..m
        invariant
            m == within@.len(),
            m == ew.len(),
            ew == edges_within(graph.edges@, ns.to_set()),
            forall|i: int|
                0 <= i < m ==> (#[trigger] within@[i]) < graph.edges@.len() && graph.edges@[within@[i] as int]
                    == ew[i],
            strings_view(lines@) == head + ew.take(j as int).map_values(|e: Edge| mermaid_edge_line(e)),
    {
        let e = &graph.edges[within[j]];
        assert(*e == ew[j as int]);
        let mut line = String::from_str("    ");
        line.append(mermaid_id_exec(e.source.as_str()).as_str());
        line.append(" -->|");
        line.append(escape_exec(e.relation.as_str()).as_str());
        line.append("| ");
        line.append(mermaid_id_exec(e.target.as_str()).as_str());
        let ghost b = lines@;
        lines.push(line);
        assert(strings_view(lines@) =~= strings_view(b).push(mermaid_edge_line(*e)));
        assert(ew.take(j + 1).map_values(|e: Edge| mermaid_edge_line(e)) =~= ew.take(j as int).map_values(
            |e: Edge| mermaid_edge_line(e),
        ).push(mermaid_edge_line(*e)));
    }
    assert(ew.take(m as int) =~= ew);
    let r = crate::text::join_strings(lines.as_slice(), "\n");
    proof {
        reveal_strlit("\n");
        assert("\n"@ =~= seq!['\n']);
    }
    r
}

/// The number of bytes of `c` in UTF-8.
pub open spec fn utf8_len(c: char) -> nat {
    if (c as u32) < 0x80 {
        1
    } else if (c as u32) < 0x800 {
        2
    } else if (c as u32) < 0x10000 {
        3
    } else {
        4
    }
}

/// The number of bytes of `s` in UTF-8.
pub open spec fn byte_len(s: Seq<char>) -> nat
    decreases s.len(),
{
    if s.len() == 0 {
        0
    } else {
        byte_len(s.drop_last()) + utf8_len(s.last())
    }
}

/// A prefix takes no more bytes than the whole.
pub proof fn lemma_byte_len_prefix(s: Seq<char>, k: int)
    requires
        0 <= k <= s.len(),
    ensures
        byte_len(s.take(k)) <= byte_len(s),
    decreases s.len() - k,
{
    if k < s.len() {
        lemma_byte_len_prefix(s, k + 1);
        assert(s.take(k + 1).drop_last() =~= s.take(k));
    } else {
        assert(s.take(k) =~= s);
    }
}

pub(crate) fn utf8_len_exec(c: char) -> (r: usize)
    ensures
        r == utf8_len(c),
        1 <= r <= 4,
{
    let v = c as u32;
    if v < 0x80 {
        1
    } else if v < 0x800 {
        2
    } else if v < 0x10000 {
        3
    } else {
        4
    }
}

/// Whether `s` takes more than `limit` bytes in UTF-8.
pub fn byte_len_exceeds(s: &[char], limit: usize) -> (r: bool)
    requires
        limit <= usize::MAX - 4,
    ensures
        r == (byte_len(s@) > limit),
{
    let n = s.len();
    let mut acc: usize = 0;
    let mut i: usize = 0;
    assert(s@.take(0) =~= seq![]);
    while i < n && acc <= limit
        invariant
            n == s@.len(),
            i <= n,
            limit <= usize::MAX - 4,
            acc <= limit + 4,
            acc == byte_len(s@.take(i as int)),
        decreases n - i,
    {
        assert(s@.take(i + 1).drop_last() =~= s@.take(i as int));
        acc = acc + utf8_len_exec(s[i]);
        i = i + 1;
    }
    proof {
        lemma_byte_len_prefix(s@, i as int);
        if i == n {
            assert(s@.take(n as int) =~= s@);
        }
    }
    acc > limit
}

/// `text` cut to its longest prefix of at most `max` UTF-8 bytes (whole
/// characters only).
pub fn truncate_utf8(text: &str, max: usize) -> (r: String)
    ensures
        r@ == text@.take(r@.len() as int),
        byte_len(text@) <= max ==> r@ == text@,
        byte_len(text@) > max ==> byte_len(r@) <= max && r@.len() < text@.len() && byte_len(
            text@.take(r@.len() as int + 1),
        ) > max,
{
    let cs = crate::text::str_chars(text);
    let n = cs.len();
    let mut acc: usize = 0;
    let mut k: usize = 0;
    assert(cs@.take(0) =~= seq![]);
    while k < n && utf8_len_exec(cs[k]) <= max - acc
        invariant
            n == cs@.len(),
            cs@ == text@,
            k <= n,
            acc <= max,
            acc == byte_len(cs@.take(k as int)),
        decreases n - k,
    {
        assert(cs@.take(k + 1).drop_last() =~= cs@.take(k as int));
        acc = acc + utf8_len_exec(cs[k]);
        k = k + 1;
    }
    if k < n {
        assert(cs@.take(k + 1).drop_last() =~= cs@.take(k as int));
        assert(cs@.take(k + 1).last() == cs@[k as int]);
        assert(utf8_len(cs@[k as int]) > max - acc);
        assert(byte_len(cs@.take(k + 1)) > max);
    } else {
        assert(cs@.take(n as int) =~= cs@);
    }
    proof {
        if byte_len(text@) > max && k == n {
            assert(false);
        }
    }
    let pre = crate::text::sub_vec(cs.as_slice(), 0, k);
    assert(pre@ =~= cs@.take(k as int));
    let r = crate::text::chars_to_string(pre.as_slice());
    proof {
        if k < n {
            lemma_byte_len_prefix(cs@, k + 1);
        }
    }
    r
}

/// The listing line of a node.
pub open spec fn text_node_line(n: crate::types::Node) -> Seq<char> {
    "NODE "@ + n.label@ + " src="@ + n.source_file@ + " loc="@ + match n.source_location {
        Some(l) => l@,
        None => seq![],
    }
}

/// The listing line of an edge.
pub open spec fn text_edge_line(g: &KodexGraph, e: Edge) -> Seq<char> {
    "EDGE "@ + label_or_id(g, e.source@) + " --"@ + e.relation@ + "--> "@ + label_or_id(
        g,
        e.target@,
    ) + " ["@ + confidence_name(e.confidence) + "]"@
}

/// The ids of `ns` that are nodes of the graph, in order.
pub open spec fn known_ids(g: &KodexGraph, ns: Seq<Seq<char>>) -> Seq<Seq<char>> {
    ns.filter(|id: Seq<char>| g.spec_node_index(id) >= 0)
}

/// The lines of the plain listing of the nodes `ns` and the graph's edges
/// between them.
pub open spec fn text_lines(g: &KodexGraph, ns: Seq<Seq<char>>) -> Seq<Seq<char>> {
    known_ids(g, ns).map_values(|id: Seq<char>| text_node_line(g.nodes@[g.spec_node_index(id)]))
        + edges_within(g.edges@, ns.to_set()).map_values(|e: Edge| text_edge_line(g, e))
}

fn text_node_line_exec(n: &crate::types::Node) -> (r: String)
    ensures
        r@ == text_node_line(*n),
{
    let mut line = String::from_str("NODE ");
    line.append(n.label.as_str());
    line.append(" src=");
    line.append(n.source_file.as_str());
    line.append(" loc=");
    match &n.source_location {
        Some(l) => line.append(l.as_str()),
        None => {},
    }
    line
}

fn text_edge_line_exec(g: &KodexGraph, e: &Edge) -> (r: String)
    ensures
        r@ == text_edge_line(g, *e),
{
    let mut line = String::from_str("EDGE ");
    line.append(label_or_id_exec(g, e.source.as_str()).as_str());
    line.append(" --");
    line.append(e.relation.as_str());
    line.append("--> ");
    line.append(label_or_id_exec(g, e.target.as_str()).as_str());
    line.append(" [");
    line.append(e.confidence.name());
    line.append("]");
    line
}

/// A plain listing of the nodes `nodes` (in order; ids the graph lacks are
/// skipped) and of the graph's edges between them, one per line, cut to
/// `token_budget * 4` bytes at a character boundary.
pub fn subgraph_to_text(
    graph: &KodexGraph,
    nodes: &Vec<String>,
    edges: &[(String, String)],
    token_budget: usize,
) -> (r: String)
    requires
        token_budget * 4 <= usize::MAX,
    ensures
        ({
            let full = join_with(text_lines(graph, strings_view(nodes@)), seq!['\n']);
            let max = token_budget * 4;
            &&& r@ == full.take(r@.len() as int)
            &&& byte_len(full) <= max ==> r@ == full
            &&& byte_len(full) > max ==> byte_len(r@) <= max && byte_len(full.take(r@.len() as int + 1)) > max
        }),
{
    let max_chars = token_budget * 4;
    let ghost ns = strings_view(nodes@);
    let ghost pred = |id: Seq<char>| graph.spec_node_index(id) >= 0;
    let mut lines: Vec<String> = Vec::new();
    let n = nodes.len();
    for i in 0..n
        invariant
            n == nodes@.len(),
            ns == strings_view(nodes@),
            pred == (|id: Seq<char>| graph.spec_node_index(id) >= 0),
            strings_view(lines@) == ns.take(i as int).filter(pred).map_values(
                |id: Seq<char>| text_node_line(graph.nodes@[graph.spec_node_index(id)]),
            ),
    {
        let id = &nodes[i];
        assert(ns[i as int] == id@);
        proof {
            reveal(Seq::filter);
            assert(ns.take(i + 1).drop_last() =~= ns.take(i as int));
        }
        match graph.get_node(id.as_str()) {
            Some(node) => {
                let line = text_node_line_exec(node);
                let ghost b = lines@;
                lines.push(line);
                assert(strings_view(lines@) =~= strings_view(b).push(line@));
                assert(ns.take(i + 1).filter(pred) == ns.take(i as int).filter(pred).push(id@));
                assert(ns.take(i + 1).filter(pred).map_values(
                    |id: Seq<char>| text_node_line(graph.nodes@[graph.spec_node_index(id)]),
                ) =~= ns.take(i as int).filter(pred).map_values(
                    |id: Seq<char>| text_node_line(graph.nodes@[graph.spec_node_index(id)]),
                ).push(line@));
            },
            None => {
                assert(ns.take(i + 1).filter(pred) == ns.take(i as int).filter(pred));
            },
        }
    }
    assert(ns.take(n as int) =~= ns);
    let within = edges_within_exec(graph, nodes);
    let ghost ew = edges_within(graph.edges@, ns.to_set());
    let ghost head = strings_view(lines@);
    let m = within.len();
    for j in 0..m
        invariant
            m == within@.len(),
            m == ew.len(),
            ew == edges_within(graph.edges@, ns.to_set()),
            forall|i: int|
                0 <= i < m ==> (#[trigger] within@[i]) < graph.edges@.len() && graph.edges@[within@[i] as int]
                    == ew[i],
            strings_view(lines@) == head + ew.take(j as int).map_values(|e: Edge| text_edge_line(graph, e)),
    {
        let e = &graph.edges[within[j]];
        assert(*e == ew[j as int]);
        let line = text_edge_line_exec(graph, e);
        let ghost b = lines@;
        lines.push(line);
        assert(strings_view(lines@) =~= strings_view(b).push(text_edge_line(graph, *e)));
        assert(ew.take(j + 1).map_values(|e: Edge| text_edge_line(graph, e)) =~= ew.take(j as int).map_values(
            |e: Edge| text_edge_line(graph, e),
        ).push(text_edge_line(graph, *e)));
    }
    assert(ew.take(m as int) =~= ew);
    assert(strings_view(lines@) =~= text_lines(graph, ns));
    let full = crate::text::join_strings(lines.as_slice(), "\n");
    proof {
        reveal_strlit("\n");
        assert("\n"@ =~= seq!['\n']);
    }
    truncate_utf8(full.as_str(), max_chars)
}

} // verus!
