//! The Markdown report of a graph (`GRAPH_REPORT.md`): corpus, summary,
//! community hubs, most connected nodes, surprising connections,
//! hyperedges, communities, ambiguous edges, knowledge gaps and suggested
//! questions.
use vstd::prelude::*;
use vstd::string::StringExecFns;

use crate::graph::KodexGraph;
use crate::misc::{community_file_name, decimal, decimal_exec, two_digits};
use crate::seqs::count_where;
use crate::text::{join_strings, join_with};
use crate::types::{strings_view, Confidence, Edge};

verus! {

// ---------------------------------------------------------------------------
// Inputs
// ---------------------------------------------------------------------------

/// What was found in the corpus.
pub struct CorpusFacts {
    pub total_files: u64,
    pub total_words: u64,
    pub warning: Option<String>,
}

/// A community: its id, its node ids, its label and its cohesion in
/// hundredths, where known.
pub struct Community {
    pub id: u64,
    pub nodes: Vec<String>,
    pub label: Option<String>,
    pub cohesion_centi: Option<u32>,
}

/// A most connected node: its label and degree.
pub struct GodNode {
    pub label: String,
    pub degree: u64,
}

/// A surprising connection between two nodes.
pub struct Surprise {
    pub source: String,
    pub target: String,
    pub relation: String,
    pub confidence: String,
    pub reasons: Vec<String>,
}

/// A hyperedge: its label, its node ids and its score in hundredths.
pub struct HyperedgeLine {
    pub label: String,
    pub nodes: Vec<String>,
    pub score_centi: Option<u32>,
}

// ---------------------------------------------------------------------------
// The text, as spec functions
// ---------------------------------------------------------------------------

/// The texts `f(x)` of the elements of `s`, one after another.
pub open spec fn concat_map<T>(s: Seq<T>, f: spec_fn(T) -> Seq<char>) -> Seq<char>
    decreases s.len(),
{
    if s.len() == 0 {
        seq![]
    } else {
        concat_map(s.drop_last(), f) + f(s.last())
    }
}

/// `x / 100` with two decimals (`{:.2}` of a value given in hundredths).
pub open spec fn centi(x: nat) -> Seq<char> {
    decimal(x / 100) + "."@ + two_digits(x % 100)
}

/// `100 * c / n` (with `n` at least 1) rounded to a whole number, halves to
/// even (`{:.0}` of the percentage).
pub open spec fn percent(c: nat, n: nat) -> nat {
    let t = if n == 0 {
        1
    } else {
        n
    };
    let q = (100 * c) / t;
    let r = (100 * c) % t;
    if 2 * r > t || (2 * r == t && q % 2 == 1) {
        q + 1
    } else {
        q
    }
}

/// A node's label, or `id` itself when no node has that id.
pub open spec fn label_or_id(g: &KodexGraph, id: Seq<char>) -> Seq<char> {
    let i = g.spec_node_index(id);
    if i >= 0 {
        g.nodes@[i].label@
    } else {
        id
    }
}

/// The labels of the nodes among `ids` that the graph has, in order.
pub open spec fn found_labels(g: &KodexGraph, ids: Seq<Seq<char>>) -> Seq<Seq<char>>
    decreases ids.len(),
{
    if ids.len() == 0 {
        seq![]
    } else {
        let p = found_labels(g, ids.drop_last());
        let i = g.spec_node_index(ids.last());
        if i >= 0 {
            p.push(g.nodes@[i].label@)
        } else {
            p
        }
    }
}

/// A community's label: the one given, or `Community <id>`.
pub open spec fn community_label(c: Community) -> Seq<char> {
    match c.label {
        Some(l) => l@,
        None => "Community "@ + decimal(c.id as nat),
    }
}

/// The edges of a confidence level.
pub open spec fn has_confidence(k: Confidence) -> spec_fn(Edge) -> bool {
    |e: Edge| e.confidence == k
}

/// `, `-joined texts.
pub open spec fn comma_list(xs: Seq<Seq<char>>) -> Seq<char> {
    join_with(xs, ", "@)
}

/// ` +<n> more` for the `n` items past the first `shown`, if any.
pub open spec fn more_text(len: nat, shown: nat) -> Seq<char> {
    if len > shown {
        " +"@ + decimal((len - shown) as nat) + " more"@
    } else {
        seq![]
    }
}

/// The title line and the corpus section.
pub open spec fn corpus_text(root: Seq<char>, today: Seq<char>, c: CorpusFacts) -> Seq<char> {
    "# Graph Report - "@ + root + "  ("@ + today + ")\n\n"@ + "## Corpus Check\n\n"@ + "- "@ + decimal(
        c.total_files as nat,
    ) + " files \u{00b7} ~"@ + decimal(c.total_words as nat) + " words\n"@ + match c.warning {
        Some(w) => "- \u{26a0}\u{fe0f} "@ + w@ + "\n"@,
        None => seq![],
    } + "\n"@
}

/// The summary section.
pub open spec fn summary_text(
    g: &KodexGraph,
    n_communities: nat,
    inferred_avg_centi: u32,
    input_tokens: u64,
    output_tokens: u64,
) -> Seq<char> {
    let es = g.edges@;
    let ext = count_where(es, has_confidence(Confidence::EXTRACTED));
    let inf = count_where(es, has_confidence(Confidence::INFERRED));
    let amb = count_where(es, has_confidence(Confidence::AMBIGUOUS));
    "## Summary\n\n"@ + "- "@ + decimal(g.nodes@.len()) + " nodes \u{00b7} "@ + decimal(es.len()) + " edges \u{00b7} "@
        + decimal(n_communities) + " communities detected\n"@ + "- Extraction: "@ + decimal(percent(ext, es.len()))
        + "% EXTRACTED \u{00b7} "@ + decimal(percent(inf, es.len())) + "% INFERRED \u{00b7} "@ + decimal(
        percent(amb, es.len()),
    ) + "% AMBIGUOUS\n"@ + if inf > 0 {
        "- INFERRED: "@ + decimal(inf) + " edges (avg confidence: "@ + centi(inferred_avg_centi as nat) + ")\n"@
    } else {
        seq![]
    } + "- Token cost: "@ + decimal(input_tokens as nat) + " input \u{00b7} "@ + decimal(output_tokens as nat)
        + " output\n\n"@
}

/// A link to a community's overview note.
pub open spec fn hub_line(c: Community) -> Seq<char> {
    "- [[_COMMUNITY_"@ + community_file_name(community_label(c)) + "|"@ + community_label(c) + "]]\n"@
}

/// The numbered list of the most connected nodes.
pub open spec fn god_lines(gs: Seq<GodNode>) -> Seq<char>
    decreases gs.len(),
{
    if gs.len() == 0 {
        seq![]
    } else {
        god_lines(gs.drop_last()) + decimal(gs.len()) + ". `"@ + gs.last().label@ + "` - "@ + decimal(
            gs.last().degree as nat,
        ) + " edges\n"@
    }
}

/// One surprising connection, with its reasons when there are any.
pub open spec fn surprise_text(g: &KodexGraph, s: Surprise) -> Seq<char> {
    "- `"@ + label_or_id(g, s.source@) + "` --"@ + s.relation@ + "-->  `"@ + label_or_id(g, s.target@) + "` ["@
        + s.confidence@ + "]\n"@ + if s.reasons@.len() > 0 {
        "  "@ + comma_list(strings_view(s.reasons@)) + "\n"@
    } else {
        seq![]
    }
}

/// One hyperedge, with its score when known.
pub open spec fn hyperedge_text(h: HyperedgeLine) -> Seq<char> {
    "- **"@ + h.label@ + "** \u{2014} "@ + comma_list(strings_view(h.nodes@)) + match h.score_centi {
        Some(x) => " ["@ + centi(x as nat) + "]"@,
        None => seq![],
    } + "\n"@
}

/// A community's title line and cohesion line.
pub open spec fn community_head(c: Community) -> Seq<char> {
    "### Community "@ + decimal(c.id as nat) + " - \""@ + community_label(c) + "\"\n\n"@ + "Cohesion: "@ + centi(
        match c.cohesion_centi {
            Some(x) => x as nat,
            None => 0,
        },
    ) + "\n"@
}

/// A community's size and the labels of its first eight nodes.
pub open spec fn community_nodes(g: &KodexGraph, c: Community) -> Seq<char> {
    let ids = strings_view(c.nodes@);
    "Nodes ("@ + decimal(ids.len()) + "): "@ + comma_list(
        found_labels(g, ids.take(if ids.len() > 8 { 8 } else { ids.len() as int })),
    ) + more_text(ids.len(), 8) + "\n\n"@
}

/// One community: its title, cohesion, size and the labels of its first
/// eight nodes.
pub open spec fn community_text(g: &KodexGraph, c: Community) -> Seq<char> {
    community_head(c) + community_nodes(g, c)
}

/// One ambiguous edge to review.
pub open spec fn ambiguous_text(g: &KodexGraph, e: Edge) -> Seq<char> {
    "- `"@ + label_or_id(g, e.source@) + "` \u{2192} `"@ + label_or_id(g, e.target@) + "` [AMBIGUOUS]\n"@ + "  "@
        + e.source_file@ + " \u{00b7} relation: "@ + e.relation@ + "\n"@
}

/// A community of fewer than three nodes.
pub open spec fn is_thin(c: Community) -> bool {
    c.nodes@.len() < 3
}

/// The line for a thin community (empty for others).
pub open spec fn thin_text(c: Community) -> Seq<char> {
    if is_thin(c) {
        "- Thin community `"@ + community_label(c) + "` ("@ + decimal(c.nodes@.len()) + " nodes)\n"@
    } else {
        seq![]
    }
}

/// The line naming the isolated nodes (the first ten), if there are any.
pub open spec fn isolated_line(isolated: Seq<Seq<char>>) -> Seq<char> {
    if isolated.len() > 0 {
        "- "@ + decimal(isolated.len()) + " isolated node(s): "@ + comma_list(
            isolated.take(if isolated.len() > 10 { 10 } else { isolated.len() as int }),
        ) + more_text(isolated.len(), 10) + "\n"@
    } else {
        seq![]
    }
}

/// The line warning of a high share (over 20%) of ambiguous edges.
pub open spec fn high_ambiguity_line(g: &KodexGraph) -> Seq<char> {
    let es = g.edges@;
    let amb = count_where(es, has_confidence(Confidence::AMBIGUOUS));
    if 5 * amb > es.len() {
        "- High ambiguity: "@ + decimal(percent(amb, es.len())) + "% of edges are AMBIGUOUS\n"@
    } else {
        seq![]
    }
}

/// The knowledge-gaps section: isolated nodes (the first ten named), thin
/// communities, and a high share (over 20%) of ambiguous edges; empty when
/// there is none of these.
pub open spec fn gaps_text(g: &KodexGraph, cs: Seq<Community>, isolated: Seq<Seq<char>>) -> Seq<char> {
    let es = g.edges@;
    let amb = count_where(es, has_confidence(Confidence::AMBIGUOUS));
    let thin = count_where(cs, |c: Community| is_thin(c));
    let high = 5 * amb > es.len();
    if isolated.len() > 0 || thin > 0 || high {
        "## Knowledge Gaps\n\n"@ + isolated_line(isolated) + concat_map(cs, |c: Community| thin_text(c))
            + high_ambiguity_line(g) + "\n"@
    } else {
        seq![]
    }
}

/// A section that is left out when it has no item.
pub open spec fn optional_section(title: Seq<char>, n: nat, body: Seq<char>) -> Seq<char> {
    if n > 0 {
        title + body + "\n"@
    } else {
        seq![]
    }
}

/// The whole report. `communities` are in increasing id order;
/// `isolated` are the labels of the nodes that count as isolated.
pub open spec fn report_text(
    g: &KodexGraph,
    root: Seq<char>,
    today: Seq<char>,
    corpus: CorpusFacts,
    communities: Seq<Community>,
    gods: Seq<GodNode>,
    surprises: Seq<Surprise>,
    hyperedges: Seq<HyperedgeLine>,
    isolated: Seq<Seq<char>>,
    questions: Option<Seq<Seq<char>>>,
    inferred_avg_centi: u32,
    input_tokens: u64,
    output_tokens: u64,
) -> Seq<char> {
    let amb_edges = g.edges@.filter(has_confidence(Confidence::AMBIGUOUS));
    corpus_text(root, today, corpus) + summary_text(
        g,
        communities.len(),
        inferred_avg_centi,
        input_tokens,
        output_tokens,
    ) + "## Community Hubs\n\n"@ + concat_map(communities, |c: Community| hub_line(c)) + "\n"@
        + "## God Nodes (most connected)\n\n"@ + god_lines(gods) + "\n"@ + optional_section(
        "## Surprising Connections\n\n"@,
        surprises.len(),
        concat_map(surprises, |s: Surprise| surprise_text(g, s)),
    ) + optional_section(
        "## Hyperedges\n\n"@,
        hyperedges.len(),
        concat_map(hyperedges, |h: HyperedgeLine| hyperedge_text(h)),
    ) + "## Communities\n\n"@ + concat_map(communities, |c: Community| community_text(g, c))
        + optional_section(
        "## Ambiguous Edges - Review These\n\n"@,
        amb_edges.len(),
        concat_map(amb_edges, |e: Edge| ambiguous_text(g, e)),
    ) + gaps_text(g, communities, isolated) + match questions {
        Some(qs) => optional_section(
            "## Suggested Questions\n\n"@,
            qs.len(),
            concat_map(qs, |q: Seq<char>| "- **"@ + q + "**\n"@),
        ),
        None => seq![],
    }
}

// ---------------------------------------------------------------------------
// Building the text
// ---------------------------------------------------------------------------

pub proof fn lemma_concat_step<T>(s: Seq<T>, f: spec_fn(T) -> Seq<char>, i: int)
    requires
        0 <= i < s.len(),
    ensures
        concat_map(s.take(i + 1), f) == concat_map(s.take(i), f) + f(s[i]),
{
    assert(s.take(i + 1).drop_last() =~= s.take(i));
    assert(s.take(i + 1).last() == s[i]);
}

fn push_num(out: &mut String, n: u64)
    ensures
        final(out)@ == old(out)@ + decimal(n as nat),
{
    let d = decimal_exec(n);
    out.append(d.as_str());
}

fn centi_exec(x: u32) -> (r: String)
    ensures
        r@ == centi(x as nat),
{
    let mut s = decimal_exec((x / 100) as u64);
    s.append(".");
    let m = x % 100;
    if m < 10 {
        s.append("0");
        proof {
            reveal_strlit("0");
        }
    }
    s.append(decimal_exec(m as u64).as_str());
    assert(s@ =~= centi(x as nat));
    s
}

fn percent_exec(c: usize, n: usize) -> (r: u64)
    requires
        c <= n,
    ensures
        r as nat == percent(c as nat, n as nat),
{
    let t: u128 = if n == 0 {
        1
    } else {
        n as u128
    };
    let hc: u128 = 100 * (c as u128);
    let q = hc / t;
    let rem = hc % t;
    assert(q <= 100) by (nonlinear_arith)
        requires
            q == hc / t,
            hc == 100 * (c as u128),
            c <= t || c == 0,
            t >= 1,
    ;
    if 2 * rem > t || (2 * rem == t && q % 2 == 1) {
        (q + 1) as u64
    } else {
        q as u64
    }
}

fn label_or_id_exec(g: &KodexGraph, id: &str) -> (r: String)
    ensures
        r@ == label_or_id(g, id@),
{
    match g.node_index(id) {
        Some(i) => g.nodes[i].label.clone(),
        None => String::from_str(id),
    }
}

fn count_confidence(es: &Vec<Edge>, k: Confidence) -> (r: usize)
    ensures
        r as nat == count_where(es@, has_confidence(k)),
        r <= es@.len(),
{
    let mut c: usize = 0;
    let n = es.len();
    for i in 0..n
        invariant
            n == es@.len(),
            c as nat == count_where(es@.take(i as int), has_confidence(k)),
            c <= i,
    {
        proof {
            crate::seqs::lemma_count_where_step(es@, has_confidence(k), i as int);
        }
        let hit = match (es[i].confidence, k) {
            (Confidence::EXTRACTED, Confidence::EXTRACTED) => true,
            (Confidence::INFERRED, Confidence::INFERRED) => true,
            (Confidence::AMBIGUOUS, Confidence::AMBIGUOUS) => true,
            _ => false,
        };
        if hit {
            c = c + 1;
        }
    }
    assert(es@.take(n as int) =~= es@);
    c
}

fn corpus_exec(root: &str, today: &str, c: &CorpusFacts) -> (r: String)
    ensures
        r@ == corpus_text(root@, today@, *c),
{
    let mut s = String::from_str("# Graph Report - ");
    s.append(root);
    s.append("  (");
    s.append(today);
    s.append(")\n\n");
    s.append("## Corpus Check\n\n");
    s.append("- ");
    push_num(&mut s, c.total_files);
    s.append(" files \u{00b7} ~");
    push_num(&mut s, c.total_words);
    s.append(" words\n");
    match &c.warning {
        Some(w) => {
            s.append("- \u{26a0}\u{fe0f} ");
            s.append(w.as_str());
            s.append("\n");
        },
        None => {},
    }
    s.append("\n");
    assert(s@ =~= corpus_text(root@, today@, *c));
    s
}

fn summary_exec(g: &KodexGraph, n_communities: usize, inferred_avg_centi: u32, input_tokens: u64, output_tokens: u64) -> (r: String)
    ensures
        r@ == summary_text(g, n_communities as nat, inferred_avg_centi, input_tokens, output_tokens),
{
    let ext = count_confidence(&g.edges, Confidence::EXTRACTED);
    let inf = count_confidence(&g.edges, Confidence::INFERRED);
    let amb = count_confidence(&g.edges, Confidence::AMBIGUOUS);
    let ne = g.edges.len();
    let mut s = String::from_str("## Summary\n\n");
    s.append("- ");
    push_num(&mut s, g.nodes.len() as u64);
    s.append(" nodes \u{00b7} ");
    push_num(&mut s, ne as u64);
    s.append(" edges \u{00b7} ");
    push_num(&mut s, n_communities as u64);
    s.append(" communities detected\n");
    s.append("- Extraction: ");
    push_num(&mut s, percent_exec(ext, ne));
    s.append("% EXTRACTED \u{00b7} ");
    push_num(&mut s, percent_exec(inf, ne));
    s.append("% INFERRED \u{00b7} ");
    push_num(&mut s, percent_exec(amb, ne));
    s.append("% AMBIGUOUS\n");
    if inf > 0 {
        s.append("- INFERRED: ");
        push_num(&mut s, inf as u64);
        s.append(" edges (avg confidence: ");
        s.append(centi_exec(inferred_avg_centi).as_str());
        s.append(")\n");
    }
    s.append("- Token cost: ");
    push_num(&mut s, input_tokens);
    s.append(" input \u{00b7} ");
    push_num(&mut s, output_tokens);
    s.append(" output\n\n");
    assert(s@ =~= summary_text(g, n_communities as nat, inferred_avg_centi, input_tokens, output_tokens));
    s
}

fn community_label_exec(c: &Community) -> (r: String)
    ensures
        r@ == community_label(*c),
{
    match &c.label {
        Some(l) => l.clone(),
        None => {
            let mut s = String::from_str("Community ");
            push_num(&mut s, c.id);
            s
        },
    }
}

fn hubs_exec(out: &mut String, cs: &Vec<Community>)
    ensures
        final(out)@ == old(out)@ + concat_map(cs@, |c: Community| hub_line(c)),
{
    let ghost start = out@;
    let n = cs.len();
    for i in 0..n
        invariant
            n == cs@.len(),
            out@ == start + concat_map(cs@.take(i as int), |c: Community| hub_line(c)),
    {
        proof {
            lemma_concat_step(cs@, |c: Community| hub_line(c), i as int);
        }
        let label = community_label_exec(&cs[i]);
        let ghost before = out@;
        out.append("- [[_COMMUNITY_");
        out.append(crate::misc::safe_community_name(label.as_str()).as_str());
        out.append("|");
        out.append(label.as_str());
        out.append("]]\n");
        assert(out@ =~= before + hub_line(cs@[i as int]));
    }
    assert(cs@.take(n as int) =~= cs@);
}

fn gods_exec(out: &mut String, gs: &Vec<GodNode>)
    ensures
        final(out)@ == old(out)@ + god_lines(gs@),
{
    let ghost start = out@;
    let n = gs.len();
    for i in 0..n
        invariant
            n == gs@.len(),
            out@ == start + god_lines(gs@.take(i as int)),
    {
        assert(gs@.take(i + 1).drop_last() =~= gs@.take(i as int));
        assert(gs@.take(i + 1).last() == gs@[i as int]);
        let ghost before = out@;
        push_num(out, (i + 1) as u64);
        out.append(". `");
        out.append(gs[i].label.as_str());
        out.append("` - ");
        push_num(out, gs[i].degree);
        out.append(" edges\n");
        assert(out@ =~= start + god_lines(gs@.take(i + 1)));
    }
    assert(gs@.take(n as int) =~= gs@);
}

fn surprise_exec(out: &mut String, g: &KodexGraph, x: &Surprise)
    ensures
        final(out)@ == old(out)@ + surprise_text(g, *x),
{
    let ghost before = out@;
    out.append("- `");
    out.append(label_or_id_exec(g, x.source.as_str()).as_str());
    out.append("` --");
    out.append(x.relation.as_str());
    out.append("-->  `");
    out.append(label_or_id_exec(g, x.target.as_str()).as_str());
    out.append("` [");
    out.append(x.confidence.as_str());
    out.append("]\n");
    if x.reasons.len() > 0 {
        out.append("  ");
        out.append(join_strings(x.reasons.as_slice(), ", ").as_str());
        out.append("\n");
    }
    assert(out@ =~= before + surprise_text(g, *x));
}

fn surprises_exec(out: &mut String, g: &KodexGraph, xs: &Vec<Surprise>)
    ensures
        final(out)@ == old(out)@ + optional_section(
            "## Surprising Connections\n\n"@,
            xs@.len(),
            concat_map(xs@, |s: Surprise| surprise_text(g, s)),
        ),
{
    let ghost start = out@;
    let n = xs.len();
    if n == 0 {
        assert(out@ =~= start + Seq::<char>::empty());
        return;
    }
    out.append("## Surprising Connections\n\n");
    let ghost head = out@;
    for i in 0..n
        invariant
            n == xs@.len(),
            out@ == head + concat_map(xs@.take(i as int), |s: Surprise| surprise_text(g, s)),
    {
        proof {
            lemma_concat_step(xs@, |s: Surprise| surprise_text(g, s), i as int);
        }
        surprise_exec(out, g, &xs[i]);
    }
    assert(xs@.take(n as int) =~= xs@);
    out.append("\n");
}

fn hyperedge_exec(out: &mut String, h: &HyperedgeLine)
    ensures
        final(out)@ == old(out)@ + hyperedge_text(*h),
{
    let ghost before = out@;
    out.append("- **");
    out.append(h.label.as_str());
    out.append("** \u{2014} ");
    out.append(join_strings(h.nodes.as_slice(), ", ").as_str());
    match h.score_centi {
        Some(x) => {
            out.append(" [");
            out.append(centi_exec(x).as_str());
            out.append("]");
        },
        None => {},
    }
    out.append("\n");
    assert(out@ =~= before + hyperedge_text(*h));
}

fn hyperedges_exec(out: &mut String, hs: &Vec<HyperedgeLine>)
    ensures
        final(out)@ == old(out)@ + optional_section(
            "## Hyperedges\n\n"@,
            hs@.len(),
            concat_map(hs@, |h: HyperedgeLine| hyperedge_text(h)),
        ),
{
    let ghost start = out@;
    let n = hs.len();
    if n == 0 {
        assert(out@ =~= start + Seq::<char>::empty());
        return;
    }
    out.append("## Hyperedges\n\n");
    let ghost head = out@;
    for i in 0..n
        invariant
            n == hs@.len(),
            out@ == head + concat_map(hs@.take(i as int), |h: HyperedgeLine| hyperedge_text(h)),
    {
        proof {
            lemma_concat_step(hs@, |h: HyperedgeLine| hyperedge_text(h), i as int);
        }
        hyperedge_exec(out, &hs[i]);
    }
    assert(hs@.take(n as int) =~= hs@);
    out.append("\n");
}

fn found_labels_exec(g: &KodexGraph, ids: &Vec<String>, m: usize) -> (r: Vec<String>)
    requires
        m <= ids@.len(),
    ensures
        strings_view(r@) == found_labels(g, strings_view(ids@).take(m as int)),
{
    let ghost iv = strings_view(ids@);
    let mut out: Vec<String> = Vec::new();
    for i in 0..m
        invariant
            m <= ids@.len(),
            iv == strings_view(ids@),
            strings_view(out@) == found_labels(g, iv.take(i as int)),
    {
        assert(iv.take(i + 1).drop_last() =~= iv.take(i as int));
        assert(iv.take(i + 1).last() == ids@[i as int]@);
        match g.node_index(ids[i].as_str()) {
            Some(j) => {
                let ghost before = out@;
                out.push(g.nodes[j].label.clone());
                assert(strings_view(out@) =~= strings_view(before).push(g.nodes@[j as int].label@));
            },
            None => {},
        }
    }
    out
}

fn community_head_exec(out: &mut String, c: &Community)
    ensures
        final(out)@ == old(out)@ + community_head(*c),
{
    let ghost before = out@;
    let label = community_label_exec(c);
    out.append("### Community ");
    push_num(out, c.id);
    out.append(" - \"");
    out.append(label.as_str());
    out.append("\"\n\n");
    out.append("Cohesion: ");
    let coh = match c.cohesion_centi {
        Some(x) => x,
        None => 0,
    };
    out.append(centi_exec(coh).as_str());
    out.append("\n");
    assert(out@ =~= before + community_head(*c));
}

fn community_nodes_exec(out: &mut String, g: &KodexGraph, c: &Community)
    ensures
        final(out)@ == old(out)@ + community_nodes(g, *c),
{
    let ghost before = out@;
    out.append("Nodes (");
    let len = c.nodes.len();
    push_num(out, len as u64);
    out.append("): ");
    let shown = if len > 8 {
        8
    } else {
        len
    };
    let labels = found_labels_exec(g, &c.nodes, shown);
    out.append(join_strings(labels.as_slice(), ", ").as_str());
    let ghost mid = out@;
    if len > 8 {
        out.append(" +");
        push_num(out, (len - 8) as u64);
        out.append(" more");
    }
    assert(out@ =~= mid + more_text(len as nat, 8));
    out.append("\n\n");
    assert(out@ =~= before + community_nodes(g, *c));
}

fn community_exec(out: &mut String, g: &KodexGraph, c: &Community)
    ensures
        final(out)@ == old(out)@ + community_text(g, *c),
{
    let ghost before = out@;
    community_head_exec(out, c);
    community_nodes_exec(out, g, c);
    assert(out@ =~= before + community_text(g, *c));
}

fn communities_exec(out: &mut String, g: &KodexGraph, cs: &Vec<Community>)
    ensures
        final(out)@ == old(out)@ + concat_map(cs@, |c: Community| community_text(g, c)),
{
    let ghost start = out@;
    let n = cs.len();
    for i in 0..n
        invariant
            n == cs@.len(),
            out@ == start + concat_map(cs@.take(i as int), |c: Community| community_text(g, c)),
    {
        proof {
            lemma_concat_step(cs@, |c: Community| community_text(g, c), i as int);
        }
        community_exec(out, g, &cs[i]);
    }
    assert(cs@.take(n as int) =~= cs@);
}

proof fn lemma_concat_push<T>(s: Seq<T>, x: T, f: spec_fn(T) -> Seq<char>)
    ensures
        concat_map(s.push(x), f) == concat_map(s, f) + f(x),
{
    assert(s.push(x).drop_last() =~= s);
}

fn ambiguous_line_exec(out: &mut String, g: &KodexGraph, e: &Edge)
    ensures
        final(out)@ == old(out)@ + ambiguous_text(g, *e),
{
    let ghost before = out@;
    out.append("- `");
    out.append(label_or_id_exec(g, e.source.as_str()).as_str());
    out.append("` \u{2192} `");
    out.append(label_or_id_exec(g, e.target.as_str()).as_str());
    out.append("` [AMBIGUOUS]\n");
    out.append("  ");
    out.append(e.source_file.as_str());
    out.append(" \u{00b7} relation: ");
    out.append(e.relation.as_str());
    out.append("\n");
    assert(out@ =~= before + ambiguous_text(g, *e));
}

fn ambiguous_exec(out: &mut String, g: &KodexGraph)
    ensures
        final(out)@ == old(out)@ + optional_section(
            "## Ambiguous Edges - Review These\n\n"@,
            g.edges@.filter(has_confidence(Confidence::AMBIGUOUS)).len(),
            concat_map(
                g.edges@.filter(has_confidence(Confidence::AMBIGUOUS)),
                |e: Edge| ambiguous_text(g, e),
            ),
        ),
{
    let ghost es = g.edges@;
    let ghost p = has_confidence(Confidence::AMBIGUOUS);
    let ghost f = |e: Edge| ambiguous_text(g, e);
    let mut body = String::new();
    let mut k: usize = 0;
    let n = g.edges.len();
    for i in 0..n
        invariant
            n == es.len(),
            es == g.edges@,
            p == has_confidence(Confidence::AMBIGUOUS),
            f == (|e: Edge| ambiguous_text(g, e)),
            body@ == concat_map(es.take(i as int).filter(p), f),
            k as nat == es.take(i as int).filter(p).len(),
            k <= i,
    {
        proof {
            reveal(Seq::filter);
            assert(es.take(i + 1).drop_last() =~= es.take(i as int));
            assert(es.take(i + 1).last() == es[i as int]);
        }
        let e = &g.edges[i];
        let amb = match e.confidence {
            Confidence::AMBIGUOUS => true,
            _ => false,
        };
        if amb {
            let ghost before = body@;
            ambiguous_line_exec(&mut body, g, e);
            proof {
                lemma_concat_push(es.take(i as int).filter(p), *e, f);
            }
            assert(body@ =~= before + ambiguous_text(g, *e));
            k = k + 1;
        }
    }
    assert(es.take(n as int) =~= es);
    if k > 0 {
        out.append("## Ambiguous Edges - Review These\n\n");
        out.append(body.as_str());
        out.append("\n");
    } else {
        let ghost o = out@;
        assert(out@ =~= o + Seq::<char>::empty());
    }
}

fn first_strings(v: &Vec<String>, m: usize) -> (r: Vec<String>)
    requires
        m <= v@.len(),
    ensures
        strings_view(r@) == strings_view(v@).take(m as int),
{
    let mut out: Vec<String> = Vec::new();
    for i in 0..m
        invariant
            m <= v@.len(),
            strings_view(out@) == strings_view(v@).take(i as int),
    {
        let ghost before = out@;
        let x = v[i].clone();
        assert(x@ == v@[i as int]@);
        out.push(x);
        assert(strings_view(out@) =~= strings_view(before).push(x@));
        assert(strings_view(out@) =~= strings_view(v@).take(i + 1));
    }
    out
}

fn thin_exec(out: &mut String, cs: &Vec<Community>) -> (r: usize)
    ensures
        final(out)@ == old(out)@ + concat_map(cs@, |c: Community| thin_text(c)),
        r as nat == count_where(cs@, |c: Community| is_thin(c)),
{
    let ghost start = out@;
    let ghost f = |c: Community| thin_text(c);
    let ghost p = |c: Community| is_thin(c);
    let mut k: usize = 0;
    let n = cs.len();
    for i in 0..n
        invariant
            n == cs@.len(),
            f == (|c: Community| thin_text(c)),
            p == (|c: Community| is_thin(c)),
            out@ == start + concat_map(cs@.take(i as int), f),
            k as nat == count_where(cs@.take(i as int), p),
            k <= i,
    {
        proof {
            lemma_concat_step(cs@, f, i as int);
            crate::seqs::lemma_count_where_step(cs@, p, i as int);
        }
        let c = &cs[i];
        let ghost before = out@;
        if c.nodes.len() < 3 {
            out.append("- Thin community `");
            out.append(community_label_exec(c).as_str());
            out.append("` (");
            push_num(out, c.nodes.len() as u64);
            out.append(" nodes)\n");
            k = k + 1;
        }
        assert(out@ =~= before + thin_text(*c));
    }
    assert(cs@.take(n as int) =~= cs@);
    k
}

fn isolated_exec(out: &mut String, isolated: &Vec<String>)
    ensures
        final(out)@ == old(out)@ + isolated_line(strings_view(isolated@)),
{
    let ghost start = out@;
    let ni = isolated.len();
    if ni == 0 {
        assert(out@ =~= start + Seq::<char>::empty());
        return;
    }
    out.append("- ");
    push_num(out, ni as u64);
    out.append(" isolated node(s): ");
    let m = if ni > 10 {
        10
    } else {
        ni
    };
    out.append(join_strings(first_strings(isolated, m).as_slice(), ", ").as_str());
    let ghost mid = out@;
    if ni > 10 {
        out.append(" +");
        push_num(out, (ni - 10) as u64);
        out.append(" more");
    }
    assert(out@ =~= mid + more_text(ni as nat, 10));
    out.append("\n");
    assert(out@ =~= start + isolated_line(strings_view(isolated@)));
}

fn high_exec(out: &mut String, g: &KodexGraph) -> (r: bool)
    ensures
        final(out)@ == old(out)@ + high_ambiguity_line(g),
        r == (5 * count_where(g.edges@, has_confidence(Confidence::AMBIGUOUS)) > g.edges@.len()),
{
    let ghost start = out@;
    let amb = count_confidence(&g.edges, Confidence::AMBIGUOUS);
    let ne = g.edges.len();
    if 5 * (amb as u128) > ne as u128 {
        out.append("- High ambiguity: ");
        push_num(out, percent_exec(amb, ne));
        out.append("% of edges are AMBIGUOUS\n");
        assert(out@ =~= start + high_ambiguity_line(g));
        true
    } else {
        assert(out@ =~= start + Seq::<char>::empty());
        false
    }
}

fn gaps_exec(out: &mut String, g: &KodexGraph, cs: &Vec<Community>, isolated: &Vec<String>)
    ensures
        final(out)@ == old(out)@ + gaps_text(g, cs@, strings_view(isolated@)),
{
    let ghost start = out@;
    let mut body = String::new();
    isolated_exec(&mut body, isolated);
    let thin = thin_exec(&mut body, cs);
    let high = high_exec(&mut body, g);
    if isolated.len() == 0 && thin == 0 && !high {
        assert(out@ =~= start + Seq::<char>::empty());
        return;
    }
    out.append("## Knowledge Gaps\n\n");
    out.append(body.as_str());
    out.append("\n");
    assert(out@ =~= start + gaps_text(g, cs@, strings_view(isolated@)));
}

fn questions_exec(out: &mut String, qs: &Option<Vec<String>>)
    ensures
        final(out)@ == old(out)@ + match qs {
            Some(v) => optional_section(
                "## Suggested Questions\n\n"@,
                strings_view(v@).len(),
                concat_map(strings_view(v@), |q: Seq<char>| "- **"@ + q + "**\n"@),
            ),
            None => seq![],
        },
{
    let ghost start = out@;
    match qs {
        Some(v) => {
            let ghost sv = strings_view(v@);
            let ghost f = |q: Seq<char>| "- **"@ + q + "**\n"@;
            let n = v.len();
            if n == 0 {
                assert(out@ =~= start + Seq::<char>::empty());
                return;
            }
            out.append("## Suggested Questions\n\n");
            let ghost head = out@;
            for i in 0..n
                invariant
                    n == v@.len(),
                    sv == strings_view(v@),
                    f == (|q: Seq<char>| "- **"@ + q + "**\n"@),
                    out@ == head + concat_map(sv.take(i as int), f),
            {
                proof {
                    lemma_concat_step(sv, f, i as int);
                }
                let ghost before = out@;
                out.append("- **");
                out.append(v[i].as_str());
                out.append("**\n");
                assert(out@ =~= before + f(sv[i as int]));
            }
            assert(sv.take(n as int) =~= sv);
            out.append("\n");
        },
        None => {
            assert(out@ =~= start + Seq::<char>::empty());
        },
    }
}

/// The text of an optional list of questions.
pub open spec fn questions_view(qs: Option<Vec<String>>) -> Option<Seq<Seq<char>>> {
    match qs {
        Some(v) => Some(strings_view(v@)),
        None => None,
    }
}

/// The position of the community with the smallest id (the first such).
pub open spec fn min_id_pos(cs: Seq<Community>) -> int
    decreases cs.len(),
{
    if cs.len() <= 1 {
        0
    } else {
        let p = min_id_pos(cs.drop_last());
        if cs.last().id < cs[p].id {
            cs.len() - 1
        } else {
            p
        }
    }
}

/// The communities ordered by id, smallest first (equal ids keep their
/// order).
pub open spec fn sort_by_id(cs: Seq<Community>) -> Seq<Community>
    decreases cs.len(),
{
    if cs.len() == 0 {
        seq![]
    } else {
        let m = min_id_pos(cs);
        proof {
            lemma_min_id_pos(cs);
        }
        seq![cs[m]] + sort_by_id(cs.remove(m))
    }
}

/// The smallest id is at [`min_id_pos`].
pub proof fn lemma_min_id_pos(cs: Seq<Community>)
    requires
        cs.len() > 0,
    ensures
        0 <= min_id_pos(cs) < cs.len(),
        forall|k: int| 0 <= k < cs.len() ==> cs[min_id_pos(cs)].id <= (#[trigger] cs[k]).id,
    decreases cs.len(),
{
    if cs.len() > 1 {
        lemma_min_id_pos(cs.drop_last());
        assert forall|k: int| 0 <= k < cs.len() implies cs[min_id_pos(cs)].id <= (#[trigger] cs[k]).id by {
            if k < cs.len() - 1 {
                assert(cs[k] == cs.drop_last()[k]);
            }
            assert(cs.drop_last()[min_id_pos(cs.drop_last())] == cs[min_id_pos(cs.drop_last())]);
        }
    }
}

/// Ordering by id keeps every community and puts the ids in order.
pub proof fn lemma_sort_by_id(cs: Seq<Community>)
    ensures
        sort_by_id(cs).len() == cs.len(),
        forall|i: int| 0 <= i < cs.len() ==> exists|j: int| 0 <= j < cs.len() && #[trigger] sort_by_id(cs)[i] == cs[j],
        forall|i: int, j: int|
            0 <= i < j < cs.len() ==> (#[trigger] sort_by_id(cs)[i]).id <= (#[trigger] sort_by_id(cs)[j]).id,
    decreases cs.len(),
{
    if cs.len() > 0 {
        lemma_min_id_pos(cs);
        let m = min_id_pos(cs);
        let r = cs.remove(m);
        lemma_sort_by_id(r);
        let s = sort_by_id(cs);
        assert(s == seq![cs[m]] + sort_by_id(r));
        assert forall|i: int| 0 <= i < cs.len() implies exists|j: int| 0 <= j < cs.len() && #[trigger] s[i] == cs[j] by {
            if i == 0 {
                assert(s[0] == cs[m]);
            } else {
                let j = choose|j: int| 0 <= j < r.len() && sort_by_id(r)[i - 1] == r[j];
                assert(s[i] == sort_by_id(r)[i - 1]);
                if j < m {
                    assert(r[j] == cs[j]);
                } else {
                    assert(r[j] == cs[j + 1]);
                }
            }
        }
        assert forall|i: int, j: int| 0 <= i < j < cs.len() implies (#[trigger] s[i]).id <= (#[trigger] s[j]).id by {
            assert(s[j] == sort_by_id(r)[j - 1]);
            let q = choose|q: int| 0 <= q < r.len() && sort_by_id(r)[j - 1] == r[q];
            if q < m {
                assert(r[q] == cs[q]);
            } else {
                assert(r[q] == cs[q + 1]);
            }
            if i > 0 {
                assert(s[i] == sort_by_id(r)[i - 1]);
            }
        }
    }
}

fn min_id_pos_exec(cs: &Vec<Community>) -> (r: usize)
    requires
        cs@.len() > 0,
    ensures
        r as int == min_id_pos(cs@),
{
    let mut p: usize = 0;
    let n = cs.len();
    let mut i: usize = 1;
    assert(cs@.take(1).drop_last() =~= Seq::<Community>::empty());
    while i < n
        invariant
            1 <= i <= n,
            n == cs@.len(),
            p as int == min_id_pos(cs@.take(i as int)),
            p < i,
        decreases n - i,
    {
        let ghost t = cs@.take(i + 1);
        assert(t.drop_last() =~= cs@.take(i as int));
        assert(t.last() == cs@[i as int]);
        assert(t[p as int] == cs@[p as int]);
        if cs[i].id < cs[p].id {
            p = i;
        }
        i = i + 1;
    }
    assert(cs@.take(n as int) =~= cs@);
    p
}

/// The communities ordered by id (see [`sort_by_id`]).
pub fn sort_communities(cs: Vec<Community>) -> (r: Vec<Community>)
    ensures
        r@ == sort_by_id(cs@),
{
    let ghost orig = cs@;
    let mut rem = cs;
    let mut out: Vec<Community> = Vec::new();
    assert(out@ + sort_by_id(rem@) =~= sort_by_id(orig));
    while rem.len() > 0
        invariant
            out@ + sort_by_id(rem@) == sort_by_id(orig),
        decreases rem@.len(),
    {
        let m = min_id_pos_exec(&rem);
        proof {
            lemma_min_id_pos(rem@);
        }
        let ghost before = rem@;
        let c = rem.remove(m);
        let ghost o = out@;
        out.push(c);
        assert(sort_by_id(before) == seq![before[m as int]] + sort_by_id(before.remove(m as int)));
        assert(out@ + sort_by_id(rem@) =~= o + sort_by_id(before));
    }
    assert(sort_by_id(rem@) =~= Seq::<Community>::empty());
    assert(out@ =~= sort_by_id(orig));
    out
}

fn report_in_order(
    g: &KodexGraph,
    root: &str,
    today: &str,
    corpus: &CorpusFacts,
    communities: &Vec<Community>,
    gods: &Vec<GodNode>,
    surprises: &Vec<Surprise>,
    hyperedges: &Vec<HyperedgeLine>,
    isolated: &Vec<String>,
    questions: &Option<Vec<String>>,
    inferred_avg_centi: u32,
    input_tokens: u64,
    output_tokens: u64,
) -> (r: String)
    ensures
        r@ == report_text(
            g,
            root@,
            today@,
            *corpus,
            communities@,
            gods@,
            surprises@,
            hyperedges@,
            strings_view(isolated@),
            questions_view(*questions),
            inferred_avg_centi,
            input_tokens,
            output_tokens,
        ),
{
    let mut md = corpus_exec(root, today, corpus);
    let ghost s1 = md@;
    md.append(summary_exec(g, communities.len(), inferred_avg_centi, input_tokens, output_tokens).as_str());
    let ghost s2 = md@;
    md.append("## Community Hubs\n\n");
    hubs_exec(&mut md, communities);
    md.append("\n");
    let ghost s3 = md@;
    md.append("## God Nodes (most connected)\n\n");
    gods_exec(&mut md, gods);
    md.append("\n");
    let ghost s4 = md@;
    surprises_exec(&mut md, g, surprises);
    hyperedges_exec(&mut md, hyperedges);
    let ghost s5 = md@;
    md.append("## Communities\n\n");
    communities_exec(&mut md, g, communities);
    let ghost s6 = md@;
    ambiguous_exec(&mut md, g);
    gaps_exec(&mut md, g, communities, isolated);
    let ghost s7 = md@;
    questions_exec(&mut md, questions);
    assert(md@ =~= report_text(
        g,
        root@,
        today@,
        *corpus,
        communities@,
        gods@,
        surprises@,
        hyperedges@,
        strings_view(isolated@),
        questions_view(*questions),
        inferred_avg_centi,
        input_tokens,
        output_tokens,
    ));
    md
}

/// The Markdown report of the graph `g` of the project at `root`, dated
/// `today` (see [`report_text`]). The analyses that feed it come as plain
/// values: the communities (in any order: the report lists them by id, see
/// [`sort_by_id`]), the most connected nodes, the surprising connections,
/// the hyperedges, the labels of the isolated nodes, the suggested
/// questions, and the average confidence of the inferred edges in
/// hundredths. Percentages are whole numbers, ties rounded to even.
pub fn report_markdown(
    g: &KodexGraph,
    root: &str,
    today: &str,
    corpus: &CorpusFacts,
    communities: Vec<Community>,
    gods: &Vec<GodNode>,
    surprises: &Vec<Surprise>,
    hyperedges: &Vec<HyperedgeLine>,
    isolated: &Vec<String>,
    questions: &Option<Vec<String>>,
    inferred_avg_centi: u32,
    input_tokens: u64,
    output_tokens: u64,
) -> (r: String)
    ensures
        r@ == report_text(
            g,
            root@,
            today@,
            *corpus,
            sort_by_id(communities@),
            gods@,
            surprises@,
            hyperedges@,
            strings_view(isolated@),
            questions_view(*questions),
            inferred_avg_centi,
            input_tokens,
            output_tokens,
        ),
{
    let sorted = sort_communities(communities);
    report_in_order(
        g,
        root,
        today,
        corpus,
        &sorted,
        gods,
        surprises,
        hyperedges,
        isolated,
        questions,
        inferred_avg_centi,
        input_tokens,
        output_tokens,
    )
}

/// The report dated today by the system clock (see [`report_markdown`] and
/// [`crate::misc::chrono_free_date`]); the date is left empty when the clock
/// reads past the dates that can be written.
pub fn generate(
    g: &KodexGraph,
    root: &str,
    corpus: &CorpusFacts,
    communities: Vec<Community>,
    gods: &Vec<GodNode>,
    surprises: &Vec<Surprise>,
    hyperedges: &Vec<HyperedgeLine>,
    isolated: &Vec<String>,
    questions: &Option<Vec<String>>,
    inferred_avg_centi: u32,
    input_tokens: u64,
    output_tokens: u64,
) -> (r: String)
    ensures
        exists|today: Seq<char>|
            (today.len() == 0 || crate::misc::some_date_text(today)) && r@ == #[trigger] report_text(
                g,
                root@,
                today,
                *corpus,
                sort_by_id(communities@),
                gods@,
                surprises@,
                hyperedges@,
                strings_view(isolated@),
                questions_view(*questions),
                inferred_avg_centi,
                input_tokens,
                output_tokens,
            ),
{
    let today = match crate::misc::chrono_free_date() {
        Some(d) => d,
        None => String::new(),
    };
    report_markdown(
        g,
        root,
        today.as_str(),
        corpus,
        communities,
        gods,
        surprises,
        hyperedges,
        isolated,
        questions,
        inferred_avg_centi,
        input_tokens,
        output_tokens,
    )
}

} // verus!
