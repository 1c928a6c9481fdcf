//! Saving knowledge: creating or reinforcing an entry and linking it.
use vstd::prelude::*;
use vstd::string::StringExecFns;

use crate::knowledge_type::{kt_name, kt_view, KnowledgeType};
use crate::learn::{
    merged_tags, node_body_hash, node_link, node_logical_key, opt_view, strings_contain,
    with_knowledge_link,
};
use crate::render::byte_len;
use crate::seqs::{entry_pos, find_entry, has_link};
use crate::store::{keep_by_flags, lemma_keep_filter, retain_flags};
use crate::text::{contains, lines, lowercase, split_words, vecs_view};
use crate::types::{
    entries_view, knowledge_word, links_view, queue_view, strings_view, EntryView, KnowledgeEntry,
    KnowledgeLink, KodexData, KodexError, LinkView, Node,
};

verus! {

/// The bit pattern of the confidence `0.7` given to links found by label.
pub const LABEL_LINK_CONFIDENCE_BITS: u64 = 0x3FE6_6666_6666_6666u64;

/// The bit pattern of the confidence `0.6`: that of links to similar entries
/// and of newly learned entries.
pub const SIMILAR_CONFIDENCE_BITS: u64 = 0x3FE3_3333_3333_3333u64;

/// The longest description, in characters, that learning accepts.
pub const MAX_DESCRIPTION_CHARS: usize = 2000;

/// The most links to similar entries that a new entry gets.
pub const MAX_SIMILAR_LINKS: usize = 3;

/// The most links to code nodes found by label.
pub const MAX_LABEL_LINKS: usize = 5;

/// A random version-4 UUID in its hyphenated text form (uuid's
/// `Uuid::new_v4` and `to_string`). Only its length, 36, is claimed: the
/// value is random.
#[verifier::external_body]
fn new_uuid_v4() -> (r: String)
    ensures
        r@.len() == 36,
{
    uuid::Uuid::new_v4().to_string()
}

/// A new entry learned at `now`.
pub open spec fn new_entry(
    uuid: Seq<char>,
    title: Seq<char>,
    knowledge_type: Seq<char>,
    description: Seq<char>,
    confidence_bits: u64,
    tags: Seq<Seq<char>>,
    now: u64,
) -> EntryView {
    EntryView {
        uuid,
        title,
        knowledge_type,
        description,
        confidence_bits,
        observations: 1,
        tags,
        scope: seq![],
        status: "active"@,
        source: if tags.contains("imported"@) {
            "imported"@
        } else {
            "agent"@
        },
        last_validated_at: 0,
        applies_when: seq![],
        supersedes: seq![],
        superseded_by: seq![],
        evidence: seq![],
        created_at: now,
        updated_at: now,
        author: seq![],
        trigger: seq![],
        fetch_count: 0,
        last_fetched: 0,
    }
}

/// An entry observed once more at `now`: one more observation; a non-empty
/// title or type replaces the old one; a non-empty, different description is
/// appended after a `---` line; new tags are added. Its confidence is raised
/// by the caller (see [`learn_with_uuid_at`]).
pub open spec fn reinforced_entry(
    e: EntryView,
    title: Seq<char>,
    knowledge_type: Seq<char>,
    description: Seq<char>,
    tags: Seq<Seq<char>>,
    now: u64,
) -> EntryView {
    EntryView {
        observations: (e.observations + 1) as u32,
        updated_at: now,
        title: if title.len() > 0 {
            title
        } else {
            e.title
        },
        knowledge_type: if knowledge_type.len() > 0 {
            knowledge_type
        } else {
            e.knowledge_type
        },
        description: if description.len() > 0 && e.description != description {
            e.description + "\n---\n"@ + description
        } else {
            e.description
        },
        tags: merged_tags(e.tags, tags),
        ..e
    }
}

/// The first line of `s`, empty when `s` has no line.
pub open spec fn first_line(s: Seq<char>) -> Seq<char> {
    let ls = lines(s);
    if ls.len() > 0 {
        ls[0]
    } else {
        seq![]
    }
}

/// A word long enough to look for in labels: more than three UTF-8 bytes.
pub open spec fn long_word() -> spec_fn(Seq<char>) -> bool {
    |t: Seq<char>| byte_len(t) > 3
}

/// The words of a title and of the first line of a description, lower-cased,
/// that are looked for in node labels.
pub open spec fn label_words(title: Seq<char>, description: Seq<char>) -> Seq<Seq<char>> {
    (split_words(lowercase(title)) + split_words(first_line(lowercase(description)))).filter(
        long_word(),
    )
}

/// The lower-cased label holds one of the words.
pub open spec fn label_hit(label: Seq<char>, words: Seq<Seq<char>>) -> bool {
    exists|i: int| 0 <= i < words.len() && contains(lowercase(label), #[trigger] words[i])
}

/// Some link goes from `k` to `n` (any relation).
pub open spec fn has_pair(ls: Seq<LinkView>, k: Seq<char>, n: Seq<char>) -> bool {
    exists|i: int| 0 <= i < ls.len() && (#[trigger] ls[i]).knowledge_uuid == k && ls[i].node_uuid == n
}

/// The link to a code node found by its label.
pub open spec fn label_link(k: Seq<char>, n: Node, now: u64) -> LinkView {
    LinkView {
        knowledge_uuid: k,
        node_uuid: opt_view(n.uuid),
        relation: "related_to"@,
        target_type: seq![],
        confidence_bits: LABEL_LINK_CONFIDENCE_BITS,
        created_at: now,
        linked_body_hash: opt_view(n.body_hash),
        linked_logical_key: opt_view(n.logical_key),
        source: "inferred"@,
        reason: seq![],
    }
}

/// The links from `k` to the nodes whose label holds one of `words`: in node
/// order, nodes with a UUID and not yet linked from `k` in `ls`, at most five.
pub open spec fn label_links(
    nodes: Seq<Node>,
    ls: Seq<LinkView>,
    k: Seq<char>,
    words: Seq<Seq<char>>,
    now: u64,
) -> Seq<LinkView>
    decreases nodes.len(),
{
    if nodes.len() == 0 {
        seq![]
    } else {
        let p = label_links(nodes.drop_last(), ls, k, words, now);
        let n = nodes.last();
        if p.len() < MAX_LABEL_LINKS && label_hit(n.label@, words) && n.uuid is Some && !has_pair(
            ls,
            k,
            opt_view(n.uuid),
        ) {
            p.push(label_link(k, n, now))
        } else {
            p
        }
    }
}

pub(crate) fn first_line_exec(s: &[char]) -> (r: Vec<char>)
    ensures
        r@ == first_line(s@),
{
    let ls = crate::text::lines_exec(s);
    if ls.len() > 0 {
        ls[0].clone()
    } else {
        Vec::new()
    }
}

fn long_words(parts: &Vec<Vec<char>>, out: &mut Vec<Vec<char>>)
    ensures
        vecs_view(final(out)@) == vecs_view(old(out)@) + vecs_view(parts@).filter(long_word()),
{
    let ghost pv = vecs_view(parts@);
    let ghost o0 = vecs_view(out@);
    let n = parts.len();
    assert(vecs_view(out@) =~= o0 + pv.take(0).filter(long_word()));
    for i in 0..n
        invariant
            n == parts@.len(),
            pv == vecs_view(parts@),
            vecs_view(out@) == o0 + pv.take(i as int).filter(long_word()),
    {
        proof {
            reveal(Seq::filter);
            assert(pv.take(i + 1).drop_last() =~= pv.take(i as int));
        }
        assert(pv[i as int] == parts@[i as int]@);
        if crate::render::byte_len_exceeds(parts[i].as_slice(), 3) {
            let ghost b = out@;
            out.push(parts[i].clone());
            assert(vecs_view(out@) =~= vecs_view(b).push(pv[i as int]));
        }
    }
    assert(pv.take(n as int) =~= pv);
}

fn has_pair_exec(ls: &Vec<KnowledgeLink>, k: &str, n: &str) -> (r: bool)
    ensures
        r == has_pair(links_view(ls@), k@, n@),
{
    let ghost lv = links_view(ls@);
    let len = ls.len();
    for i in 0..len
        invariant
            len == ls@.len(),
            lv == links_view(ls@),
            forall|j: int| 0 <= j < i ==> !((#[trigger] lv[j]).knowledge_uuid == k@ && lv[j].node_uuid == n@),
    {
        assert(lv[i as int] == ls@[i as int]@);
        if crate::text::str_eq(ls[i].knowledge_uuid.as_str(), k) && crate::text::str_eq(
            ls[i].node_uuid.as_str(),
            n,
        ) {
            return true;
        }
    }
    false
}

/// The links from `k_uuid` to code nodes whose label holds a word of the
/// title or of the description's first line (see [`label_links`]).
pub fn auto_link_knowledge(data: &KodexData, k_uuid: &str, title: &str, description: &str, now: u64) -> (r: Vec<
    KnowledgeLink,
>)
    ensures
        links_view(r@) == label_links(
            data.extraction.nodes@,
            links_view(data.links@),
            k_uuid@,
            label_words(title@, description@),
            now,
        ),
{
    let tl = crate::text::str_chars(crate::text::to_lower(title).as_str());
    let dl = crate::text::str_chars(crate::text::to_lower(description).as_str());
    let first = first_line_exec(dl.as_slice());
    let tparts = crate::text::split_words_exec(tl.as_slice());
    let dparts = crate::text::split_words_exec(first.as_slice());
    let mut words: Vec<Vec<char>> = Vec::new();
    assert(vecs_view(words@) =~= seq![]);
    long_words(&tparts, &mut words);
    long_words(&dparts, &mut words);
    proof {
        Seq::<Seq<char>>::filter_distributes_over_add(vecs_view(tparts@), vecs_view(dparts@), long_word());
        assert(vecs_view(words@) =~= label_words(title@, description@));
    }
    let ghost wv = vecs_view(words@);
    let ghost ns = data.extraction.nodes@;
    let ghost lv = links_view(data.links@);
    let mut out: Vec<KnowledgeLink> = Vec::new();
    let n = data.extraction.nodes.len();
    for i in 0..n
        invariant
            n == ns.len(),
            ns == data.extraction.nodes@,
            lv == links_view(data.links@),
            wv == vecs_view(words@),
            links_view(out@) == label_links(ns.take(i as int), lv, k_uuid@, wv, now),
    {
        let node = &data.extraction.nodes[i];
        assert(ns.take(i + 1).drop_last() =~= ns.take(i as int));
        assert(ns.take(i + 1).last() == *node);
        if out.len() < MAX_LABEL_LINKS {
            let label = crate::text::str_chars(crate::text::to_lower(node.label.as_str()).as_str());
            let mut hit = false;
            let m = words.len();
            for j in 0..m
                invariant
                    m == words@.len(),
                    wv == vecs_view(words@),
                    label@ == lowercase(node.label@),
                    hit == exists|x: int| 0 <= x < j && contains(label@, #[trigger] wv[x]),
            {
                assert(wv[j as int] == words@[j as int]@);
                if !hit && crate::text::contains_exec(label.as_slice(), words[j].as_slice()) {
                    hit = true;
                }
            }
            if hit {
                match &node.uuid {
                    Some(u) => {
                        if !has_pair_exec(&data.links, k_uuid, u.as_str()) {
                            let link = KnowledgeLink {
                                knowledge_uuid: String::from_str(k_uuid),
                                node_uuid: u.clone(),
                                relation: String::from_str("related_to"),
                                target_type: String::new(),
                                confidence_bits: LABEL_LINK_CONFIDENCE_BITS,
                                created_at: now,
                                linked_body_hash: crate::learn::opt_clone(&node.body_hash),
                                linked_logical_key: crate::learn::opt_clone(&node.logical_key),
                                source: String::from_str("inferred"),
                                reason: String::new(),
                            };
                            let ghost b = out@;
                            out.push(link);
                            assert(links_view(out@) =~= links_view(b).push(label_link(k_uuid@, *node, now)));
                        }
                    },
                    None => {},
                }
            }
        }
    }
    assert(ns.take(n as int) =~= ns);
    out
}

/// Some knowledge link goes from `k` to `t` (any relation).
pub open spec fn has_knowledge_pair(ls: Seq<LinkView>, k: Seq<char>, t: Seq<char>) -> bool {
    exists|i: int|
        0 <= i < ls.len() && (#[trigger] ls[i]).knowledge_uuid == k && ls[i].node_uuid == t
            && ls[i].is_knowledge_link()
}

/// The link from a new entry `k` to a similar entry `t`.
pub open spec fn similar_link(k: Seq<char>, t: Seq<char>, now: u64) -> LinkView {
    LinkView {
        knowledge_uuid: k,
        node_uuid: t,
        relation: "related_to"@,
        target_type: knowledge_word(),
        confidence_bits: SIMILAR_CONFIDENCE_BITS,
        created_at: now,
        linked_body_hash: seq![],
        linked_logical_key: seq![],
        source: "inferred"@,
        reason: seq![],
    }
}

/// The links from a new entry `k` to the first three of the `similar`
/// entries (best first), leaving out those already linked from `k` in `ls`.
pub open spec fn similar_links(ls: Seq<LinkView>, k: Seq<char>, similar: Seq<Seq<char>>, now: u64) -> Seq<
    LinkView,
> {
    let top = if similar.len() <= MAX_SIMILAR_LINKS {
        similar
    } else {
        similar.take(MAX_SIMILAR_LINKS as int)
    };
    top.filter(|t: Seq<char>| !has_knowledge_pair(ls, k, t)).map_values(
        |t: Seq<char>| similar_link(k, t, now),
    )
}

/// A link that stays when an entry's node links are replaced: it does not
/// start at `u`, or it links two knowledge entries.
pub open spec fn not_node_link_of(u: Seq<char>) -> spec_fn(LinkView) -> bool {
    |l: LinkView| l.knowledge_uuid != u || l.is_knowledge_link()
}

/// The links after saving entry `u`: a new entry without given nodes gets
/// links to code nodes found by label; a new entry gets links to similar
/// entries; given nodes replace the entry's node links.
pub open spec fn learned_links(
    ls: Seq<LinkView>,
    nodes: Seq<Node>,
    is_new: bool,
    related: Option<Seq<Seq<char>>>,
    u: Seq<char>,
    title: Seq<char>,
    description: Seq<char>,
    similar: Seq<Seq<char>>,
    now: u64,
) -> Seq<LinkView> {
    let l1 = if related is None && is_new {
        ls + label_links(nodes, ls, u, label_words(title, description), now)
    } else {
        ls
    };
    let l2 = if is_new {
        l1 + similar_links(l1, u, similar, now)
    } else {
        l1
    };
    match related {
        Some(ns) => l2.filter(not_node_link_of(u)) + ns.map_values(
            |n: Seq<char>| node_link(u, n, "related_to"@, nodes, now),
        ),
        None => l2,
    }
}

/// The text of an optional list of strings.
pub open spec fn opt_strings(o: Option<&[String]>) -> Option<Seq<Seq<char>>> {
    match o {
        Some(v) => Some(strings_view(v@)),
        None => None,
    }
}

/// Reinforcing an existing entry keeps its observation count within `u32`.
pub open spec fn learn_fits(k: Seq<EntryView>, ku: Option<Seq<char>>) -> bool {
    match ku {
        Some(u) => entry_pos(k, u) >= 0 ==> k[entry_pos(k, u)].observations < u32::MAX,
        None => true,
    }
}

/// What [`learn_with_uuid_at`] promises.
pub open spec fn learn_outcome(
    a: &KodexData,
    b: &KodexData,
    ku: Option<Seq<char>>,
    knowledge_type: Seq<char>,
    title: Seq<char>,
    description: Seq<char>,
    related: Option<Seq<Seq<char>>>,
    tags: Seq<Seq<char>>,
    context: Option<Seq<char>>,
    similar: Seq<Seq<char>>,
    now: u64,
    r: Result<(String, bool), KodexError>,
) -> bool {
    let k = entries_view(a.knowledge@);
    match r {
        Err(KodexError::DescriptionTooLong(n)) => {
            &&& description.len() > MAX_DESCRIPTION_CHARS
            &&& n == description.len()
            &&& crate::learn::unchanged(a, b)
        },
        Err(KodexError::UuidNotFound(x)) => {
            &&& description.len() <= MAX_DESCRIPTION_CHARS
            &&& ku == Some(x@)
            &&& entry_pos(k, x@) == -1
            &&& crate::learn::unchanged(a, b)
        },
        Ok((u, reinforced)) => {
            let kb = entries_view(b.knowledge@);
            let l = learned_links(
                links_view(a.links@),
                a.extraction.nodes@,
                ku is None,
                related,
                u@,
                title,
                description,
                similar,
                now,
            );
            &&& description.len() <= MAX_DESCRIPTION_CHARS
            &&& match ku {
                Some(v) => {
                    &&& entry_pos(k, v) >= 0
                    &&& u@ == v
                    &&& reinforced
                    &&& kb == k.update(
                        entry_pos(k, v),
                        reinforced_entry(k[entry_pos(k, v)], title, knowledge_type, description, tags, now),
                    )
                },
                None => {
                    &&& !reinforced
                    &&& u@.len() == 36
                    &&& kb == k.push(
                        new_entry(u@, title, knowledge_type, description, SIMILAR_CONFIDENCE_BITS, tags, now),
                    )
                },
            }
            &&& links_view(b.links@) == match context {
                Some(c) => if c != u@ && entry_pos(kb, c) >= 0 && entry_pos(kb, u@) >= 0 {
                    with_knowledge_link(l, c, u@, "leads_to"@, now)
                } else {
                    l
                },
                None => l,
            }
            &&& queue_view(b.review_queue@) == queue_view(a.review_queue@)
            &&& b.extraction == a.extraction
        },
        Err(_) => false,
    }
}

pub(crate) fn contains_str(v: &[String], s: &str) -> (r: bool)
    ensures
        r == strings_view(v@).contains(s@),
{
    let ghost sv = strings_view(v@);
    let n = v.len();
    for i in 0..n
        invariant
            n == v@.len(),
            sv == strings_view(v@),
            forall|j: int| 0 <= j < i ==> sv[j] != s@,
    {
        if crate::text::str_eq(v[i].as_str(), s) {
            assert(sv[i as int] == s@);
            return true;
        }
    }
    false
}

fn copy_strings(v: &[String]) -> (r: Vec<String>)
    ensures
        strings_view(r@) == strings_view(v@),
{
    let mut r: Vec<String> = Vec::new();
    let n = v.len();
    for i in 0..n
        invariant
            n == v@.len(),
            r@.len() == i,
            forall|j: int| 0 <= j < i ==> r@[j]@ == v@[j]@,
    {
        r.push(v[i].clone());
    }
    assert(strings_view(r@) =~= strings_view(v@));
    r
}

fn reinforce(e: &KnowledgeEntry, title: &str, knowledge_type: &str, description: &str, tags: &[String], now: u64) -> (r:
    KnowledgeEntry)
    requires
        e.observations < u32::MAX,
    ensures
        r@ == reinforced_entry(e@, title@, knowledge_type@, description@, strings_view(tags@), now),
{
    let mut x = e.duplicate();
    x.observations = e.observations + 1;
    x.updated_at = now;
    if !title.is_empty() {
        x.title = String::from_str(title);
    }
    if !knowledge_type.is_empty() {
        x.knowledge_type = String::from_str(knowledge_type);
    }
    if !description.is_empty() && !crate::text::str_eq(e.description.as_str(), description) {
        x.description.append("\n---\n");
        x.description.append(description);
    }
    let ghost kt = strings_view(e.tags@);
    let ghost at = strings_view(tags@);
    let n = tags.len();
    for i in 0..n
        invariant
            n == tags@.len(),
            at == strings_view(tags@),
            strings_view(x.tags@) == merged_tags(kt, at.take(i as int)),
            x@ == (EntryView { tags: strings_view(x.tags@), ..reinforced_entry(e@, title@, knowledge_type@, description@, at, now) }),
    {
        assert(at.take(i + 1).drop_last() =~= at.take(i as int));
        assert(at[i as int] == tags@[i as int]@);
        if !strings_contain(&x.tags, tags[i].as_str()) {
            let t = tags[i].clone();
            let ghost before = x.tags@;
            x.tags.push(t);
            assert(strings_view(x.tags@) =~= strings_view(before).push(t@));
        }
    }
    assert(at.take(n as int) =~= at);
    x
}

fn similar_links_exec(ls: &Vec<KnowledgeLink>, k: &str, similar: &[String], now: u64) -> (r: Vec<
    KnowledgeLink,
>)
    ensures
        links_view(r@) == similar_links(links_view(ls@), k@, strings_view(similar@), now),
{
    let ghost lv = links_view(ls@);
    let ghost sv = strings_view(similar@);
    let top = if similar.len() <= MAX_SIMILAR_LINKS {
        similar.len()
    } else {
        MAX_SIMILAR_LINKS
    };
    let ghost tv = if sv.len() <= MAX_SIMILAR_LINKS {
        sv
    } else {
        sv.take(MAX_SIMILAR_LINKS as int)
    };
    assert(tv =~= sv.take(top as int));
    let ghost pred = |t: Seq<char>| !has_knowledge_pair(lv, k@, t);
    let mut out: Vec<KnowledgeLink> = Vec::new();
    for i in 0..top
        invariant
            top <= similar@.len(),
            sv == strings_view(similar@),
            tv == sv.take(top as int),
            lv == links_view(ls@),
            pred == (|t: Seq<char>| !has_knowledge_pair(lv, k@, t)),
            links_view(out@) == tv.take(i as int).filter(pred).map_values(|t: Seq<char>| similar_link(k@, t, now)),
    {
        let t = &similar[i];
        assert(tv[i as int] == t@);
        proof {
            reveal(Seq::filter);
            assert(tv.take(i + 1).drop_last() =~= tv.take(i as int));
        }
        let ghost lvv = lv;
        let mut found = false;
        let m = ls.len();
        for j in 0..m
            invariant
                m == ls@.len(),
                lv == links_view(ls@),
                found == exists|x: int|
                    0 <= x < j && (#[trigger] lv[x]).knowledge_uuid == k@ && lv[x].node_uuid == t@
                        && lv[x].is_knowledge_link(),
        {
            assert(lv[j as int] == ls@[j as int]@);
            if !found && crate::text::str_eq(ls[j].knowledge_uuid.as_str(), k) && crate::text::str_eq(
                ls[j].node_uuid.as_str(),
                t.as_str(),
            ) && ls[j].is_knowledge_link() {
                found = true;
            }
        }
        if !found {
            let link = KnowledgeLink {
                knowledge_uuid: String::from_str(k),
                node_uuid: t.clone(),
                relation: String::from_str("related_to"),
                target_type: String::from_str("knowledge"),
                confidence_bits: SIMILAR_CONFIDENCE_BITS,
                created_at: now,
                linked_body_hash: String::new(),
                linked_logical_key: String::new(),
                source: String::from_str("inferred"),
                reason: String::new(),
            };
            proof {
                reveal_strlit("knowledge");
                assert("knowledge"@ =~= knowledge_word());
            }
            let ghost b = out@;
            out.push(link);
            assert(links_view(out@) =~= links_view(b).push(similar_link(k@, t@, now)));
            assert(tv.take(i + 1).filter(pred) =~= tv.take(i as int).filter(pred).push(t@));
            assert(tv.take(i + 1).filter(pred).map_values(|t: Seq<char>| similar_link(k@, t, now))
                =~= tv.take(i as int).filter(pred).map_values(|t: Seq<char>| similar_link(k@, t, now)).push(
                similar_link(k@, t@, now),
            ));
        } else {
            assert(tv.take(i + 1).filter(pred) =~= tv.take(i as int).filter(pred));
        }
    }
    assert(tv.take(top as int) =~= tv);
    out
}

fn append_links(ls: &mut Vec<KnowledgeLink>, more: Vec<KnowledgeLink>)
    ensures
        links_view(final(ls)@) == links_view(old(ls)@) + links_view(more@),
{
    let ghost l0 = links_view(ls@);
    let ghost mv = links_view(more@);
    let n = more.len();
    for i in 0..n
        invariant
            n == more@.len(),
            mv == links_view(more@),
            links_view(ls@) == l0 + mv.take(i as int),
    {
        let l = more[i].duplicate();
        let ghost b = ls@;
        ls.push(l);
        assert(links_view(ls@) =~= links_view(b).push(mv[i as int]));
        assert(mv.take(i + 1) =~= mv.take(i as int).push(mv[i as int]));
    }
    assert(mv.take(n as int) =~= mv);
}

fn replace_node_links(data: &mut KodexData, u: &str, nodes: &[String], now: u64)
    ensures
        links_view(final(data).links@) == links_view(old(data).links@).filter(not_node_link_of(u@))
            + strings_view(nodes@).map_values(
            |n: Seq<char>| node_link(u@, n, "related_to"@, old(data).extraction.nodes@, now),
        ),
        final(data).extraction == old(data).extraction,
        final(data).knowledge@ == old(data).knowledge@,
        final(data).review_queue@ == old(data).review_queue@,
{
    let ghost lv = links_view(data.links@);
    let mut flags: Vec<bool> = Vec::new();
    let n = data.links.len();
    for i in 0..n
        invariant
            n == data.links@.len(),
            lv == links_view(data.links@),
            flags@.len() == i,
            forall|j: int| 0 <= j < i ==> flags@[j] == not_node_link_of(u@)(#[trigger] lv[j]),
    {
        let l = &data.links[i];
        assert(lv[i as int] == l@);
        flags.push(!crate::text::str_eq(l.knowledge_uuid.as_str(), u) || l.is_knowledge_link());
    }
    let ghost before = data.links@;
    retain_flags(&mut data.links, &flags);
    proof {
        crate::store::lemma_keep_links_view(before, flags@);
        lemma_keep_filter(lv, flags@, not_node_link_of(u@));
    }
    let ghost l1 = links_view(data.links@);
    let ghost nv = strings_view(nodes@);
    let ghost x0 = data.extraction;
    let ghost k0 = data.knowledge@;
    let ghost q0 = data.review_queue@;
    let m = nodes.len();
    for i in 0..m
        invariant
            data.extraction == x0,
            data.knowledge@ == k0,
            data.review_queue@ == q0,
            m == nodes@.len(),
            nv == strings_view(nodes@),
            links_view(data.links@) == l1 + nv.take(i as int).map_values(
                |n: Seq<char>| node_link(u@, n, "related_to"@, data.extraction.nodes@, now),
            ),
    {
        let node_ref = &nodes[i];
        assert(nv[i as int] == node_ref@);
        let (bh, lk) = crate::learn::node_snapshot(&data.extraction.nodes, node_ref.as_str());
        let link = KnowledgeLink {
            knowledge_uuid: String::from_str(u),
            node_uuid: node_ref.clone(),
            relation: String::from_str("related_to"),
            target_type: String::new(),
            confidence_bits: crate::types::FULL_CONFIDENCE_BITS,
            created_at: now,
            linked_body_hash: bh,
            linked_logical_key: lk,
            source: String::from_str("agent"),
            reason: String::new(),
        };
        let ghost b = data.links@;
        data.links.push(link);
        assert(links_view(data.links@) =~= links_view(b).push(
            node_link(u@, node_ref@, "related_to"@, data.extraction.nodes@, now),
        ));
        assert(nv.take(i + 1).map_values(
            |n: Seq<char>| node_link(u@, n, "related_to"@, data.extraction.nodes@, now),
        ) =~= nv.take(i as int).map_values(
            |n: Seq<char>| node_link(u@, n, "related_to"@, data.extraction.nodes@, now),
        ).push(node_link(u@, node_ref@, "related_to"@, data.extraction.nodes@, now)));
    }
    assert(nv.take(m as int) =~= nv);
}

/// What [`append_knowledge_with_uuid_at`] promises.
pub open spec fn append_outcome(
    a: &KodexData,
    b: &KodexData,
    ku: Option<Seq<char>>,
    knowledge_type: Seq<char>,
    title: Seq<char>,
    description: Seq<char>,
    confidence_bits: u64,
    related: Option<Seq<Seq<char>>>,
    tags: Seq<Seq<char>>,
    similar: Seq<Seq<char>>,
    now: u64,
    r: Result<String, KodexError>,
) -> bool {
    let k = entries_view(a.knowledge@);
    match r {
        Err(KodexError::UuidNotFound(x)) => {
            &&& ku == Some(x@)
            &&& entry_pos(k, x@) == -1
            &&& crate::learn::unchanged(a, b)
        },
        Ok(u) => {
            let kb = entries_view(b.knowledge@);
            &&& match ku {
                Some(v) => {
                    &&& entry_pos(k, v) >= 0
                    &&& u@ == v
                    &&& kb == k.update(
                        entry_pos(k, v),
                        reinforced_entry(k[entry_pos(k, v)], title, knowledge_type, description, tags, now),
                    )
                },
                None => {
                    &&& u@.len() == 36
                    &&& kb == k.push(new_entry(u@, title, knowledge_type, description, confidence_bits, tags, now))
                },
            }
            &&& links_view(b.links@) == learned_links(
                links_view(a.links@),
                a.extraction.nodes@,
                ku is None,
                related,
                u@,
                title,
                description,
                similar,
                now,
            )
            &&& queue_view(b.review_queue@) == queue_view(a.review_queue@)
            &&& b.extraction == a.extraction
        },
        Err(_) => false,
    }
}

/// Upsert a piece of knowledge at time `now`, the UUID being the only key.
///
/// With `knowledge_uuid`, the entry of that UUID is observed once more (see
/// [`reinforced_entry`]); an unknown UUID is an error. Without it, a new
/// entry with a fresh UUID and confidence `confidence_bits` (the bit pattern
/// of a float) is made, linked to code nodes whose label holds a title word
/// (unless `related_nodes` is given) and to the first three of `similar`.
/// Given `related_nodes` replace the entry's node links. The description is
/// taken whole, however long.
pub fn append_knowledge_with_uuid_at(
    data: &mut KodexData,
    knowledge_uuid: Option<&str>,
    knowledge_type: &str,
    title: &str,
    description: &str,
    confidence_bits: u64,
    related_nodes: Option<&[String]>,
    tags: &[String],
    similar: &[String],
    now: u64,
) -> (r: Result<String, KodexError>)
    requires
        learn_fits(entries_view(old(data).knowledge@), crate::learn::opt_str(knowledge_uuid)),
    ensures
        append_outcome(
            old(data),
            final(data),
            crate::learn::opt_str(knowledge_uuid),
            knowledge_type@,
            title@,
            description@,
            confidence_bits,
            opt_strings(related_nodes),
            strings_view(tags@),
            strings_view(similar@),
            now,
            r,
        ),
{
    let ghost k0 = entries_view(data.knowledge@);
    let ghost l0 = links_view(data.links@);
    let ghost nodes = data.extraction.nodes@;
    let ktype = String::from_str(knowledge_type);
    let k_uuid = match knowledge_uuid {
        Some(u) => {
            let i = match find_entry(&data.knowledge, u) {
                Some(i) => i,
                None => {
                    return Err(KodexError::UuidNotFound(String::from_str(u)));
                },
            };
            let e = reinforce(&data.knowledge[i], title, ktype.as_str(), description, tags, now);
            let ghost before = data.knowledge@;
            data.knowledge.set(i, e);
            proof {
                crate::learn::lemma_update_view(before, i as int, e);
            }
            String::from_str(u)
        },
        None => {
            let fresh = new_uuid_v4();
            let imported = contains_str(tags, "imported");
            let entry = KnowledgeEntry {
                uuid: fresh.clone(),
                title: String::from_str(title),
                knowledge_type: ktype.clone(),
                description: String::from_str(description),
                confidence_bits,
                observations: 1,
                tags: copy_strings(tags),
                scope: String::new(),
                status: String::from_str("active"),
                source: if imported {
                    String::from_str("imported")
                } else {
                    String::from_str("agent")
                },
                last_validated_at: 0,
                applies_when: String::new(),
                supersedes: String::new(),
                superseded_by: String::new(),
                evidence: String::new(),
                created_at: now,
                updated_at: now,
                author: String::new(),
                trigger: String::new(),
                fetch_count: 0,
                last_fetched: 0,
            };
            let ghost before = data.knowledge@;
            data.knowledge.push(entry);
            assert(entries_view(data.knowledge@) =~= entries_view(before).push(entry@));
            fresh
        },
    };
    let ghost u = k_uuid@;
    let ghost kb = entries_view(data.knowledge@);
    if related_nodes.is_none() && knowledge_uuid.is_none() {
        let auto = auto_link_knowledge(data, k_uuid.as_str(), title, description, now);
        append_links(&mut data.links, auto);
    }
    let ghost l1 = links_view(data.links@);
    if knowledge_uuid.is_none() {
        let kk = similar_links_exec(&data.links, k_uuid.as_str(), similar, now);
        append_links(&mut data.links, kk);
    }
    match related_nodes {
        Some(ns) => {
            replace_node_links(data, k_uuid.as_str(), ns, now);
        },
        None => {},
    }
    let ghost l3 = links_view(data.links@);
    assert(l3 == learned_links(
        l0,
        nodes,
        knowledge_uuid is None,
        opt_strings(related_nodes),
        u,
        title@,
        description@,
        strings_view(similar@),
        now,
    ));
    Ok(k_uuid)
}

/// Save a piece of knowledge at time `now`.
///
/// A description over 2000 characters is refused. With `knowledge_uuid`, the
/// entry of that UUID is observed once more (see [`reinforced_entry`]); its
/// confidence `c` is then to become `1 - (1 - c) * 0.8`, which `Ok((_, true))`
/// tells the caller. Without it, a new entry with a fresh UUID and confidence
/// 0.6 is made, linked to code nodes whose label holds a title word (unless
/// `related_nodes` is given) and to the first three of `similar` (the entries
/// that the caller's similarity ranking puts best, best first). Given
/// `related_nodes` replace the entry's node links. A `context_uuid` other than
/// the entry's own gets a `leads_to` link to it when it names an entry.
pub fn learn_with_uuid_at(
    data: &mut KodexData,
    knowledge_uuid: Option<&str>,
    knowledge_type: &KnowledgeType,
    title: &str,
    description: &str,
    related_nodes: Option<&[String]>,
    tags: &[String],
    context_uuid: Option<&str>,
    similar: &[String],
    now: u64,
) -> (r: Result<(String, bool), KodexError>)
    requires
        learn_fits(entries_view(old(data).knowledge@), crate::learn::opt_str(knowledge_uuid)),
    ensures
        learn_outcome(
            old(data),
            final(data),
            crate::learn::opt_str(knowledge_uuid),
            kt_name(kt_view(knowledge_type)),
            title@,
            description@,
            opt_strings(related_nodes),
            strings_view(tags@),
            crate::learn::opt_str(context_uuid),
            strings_view(similar@),
            now,
            r,
        ),
{
    let dchars = crate::text::str_chars(description);
    if dchars.len() > MAX_DESCRIPTION_CHARS {
        return Err(KodexError::DescriptionTooLong(dchars.len()));
    }
    let ghost k0 = entries_view(data.knowledge@);
    let ktype = knowledge_type.name();
    let k_uuid = match append_knowledge_with_uuid_at(
        data,
        knowledge_uuid,
        ktype.as_str(),
        title,
        description,
        SIMILAR_CONFIDENCE_BITS,
        related_nodes,
        tags,
        similar,
        now,
    ) {
        Ok(u) => u,
        Err(e) => {
            return Err(e);
        },
    };
    let reinforced = knowledge_uuid.is_some();
    let ghost u = k_uuid@;
    let ghost kb = entries_view(data.knowledge@);
    match context_uuid {
        Some(ctx) => {
            if !crate::text::str_eq(ctx, k_uuid.as_str()) {
                let _ = crate::learn::link_knowledge_to_knowledge_at(
                    data,
                    ctx,
                    k_uuid.as_str(),
                    "leads_to",
                    false,
                    now,
                );
            }
        },
        None => {},
    }
    proof {
        let p = |e: EntryView| e.uuid == u;
        crate::seqs::lemma_first_where(kb, p);
        if knowledge_uuid is None {
            assert(kb[kb.len() - 1].uuid == u);
            assert(p(kb[kb.len() - 1]));
        } else {
            let i = entry_pos(k0, u);
            crate::seqs::lemma_first_where(k0, p);
            assert(k0[i].uuid == u);
            assert(kb[i].uuid == u);
            assert(p(kb[i]));
        }
        assert(entry_pos(kb, u) >= 0);
    }
    Ok((k_uuid, reinforced))
}

/// Upsert a piece of knowledge at the current time (see
/// [`append_knowledge_with_uuid_at`]).
pub fn append_knowledge_with_uuid(
    data: &mut KodexData,
    knowledge_uuid: Option<&str>,
    knowledge_type: &str,
    title: &str,
    description: &str,
    confidence_bits: u64,
    related_nodes: Option<&[String]>,
    tags: &[String],
    similar: &[String],
) -> (r: Result<String, KodexError>)
    requires
        learn_fits(entries_view(old(data).knowledge@), crate::learn::opt_str(knowledge_uuid)),
    ensures
        exists|now: u64|
            #[trigger] append_outcome(
                old(data),
                final(data),
                crate::learn::opt_str(knowledge_uuid),
                knowledge_type@,
                title@,
                description@,
                confidence_bits,
                opt_strings(related_nodes),
                strings_view(tags@),
                strings_view(similar@),
                now,
                r,
            ),
{
    let now = crate::learn::unix_now();
    append_knowledge_with_uuid_at(
        data,
        knowledge_uuid,
        knowledge_type,
        title,
        description,
        confidence_bits,
        related_nodes,
        tags,
        similar,
        now,
    )
}

/// Add a new piece of knowledge at the current time with confidence
/// `confidence_bits`, linked to `related_nodes` when there are any (see
/// [`append_knowledge_with_uuid_at`]); the observation count is not used.
pub fn append_knowledge(
    data: &mut KodexData,
    title: &str,
    knowledge_type: &str,
    description: &str,
    confidence_bits: u64,
    _observations: u32,
    related_nodes: &[String],
    tags: &[String],
    similar: &[String],
) -> (r: Result<(), KodexError>)
    ensures
        r is Ok,
        exists|now: u64, u: String|
            #[trigger] append_outcome(
                old(data),
                final(data),
                None,
                knowledge_type@,
                title@,
                description@,
                confidence_bits,
                nodes_if_any(strings_view(related_nodes@)),
                strings_view(tags@),
                strings_view(similar@),
                now,
                Ok(u),
            ),
{
    let nodes = if related_nodes.len() == 0 {
        None
    } else {
        Some(related_nodes)
    };
    match append_knowledge_with_uuid(data, None, knowledge_type, title, description, confidence_bits, nodes, tags, similar) {
        Ok(_) => Ok(()),
        Err(e) => Err(e),
    }
}

/// Save a piece of knowledge at the current time (see [`learn_with_uuid_at`]).
pub fn learn_with_uuid(
    data: &mut KodexData,
    knowledge_uuid: Option<&str>,
    knowledge_type: &KnowledgeType,
    title: &str,
    description: &str,
    related_nodes: Option<&[String]>,
    tags: &[String],
    context_uuid: Option<&str>,
    similar: &[String],
) -> (r: Result<(String, bool), KodexError>)
    requires
        learn_fits(entries_view(old(data).knowledge@), crate::learn::opt_str(knowledge_uuid)),
    ensures
        exists|now: u64|
            #[trigger] learn_outcome(
                old(data),
                final(data),
                crate::learn::opt_str(knowledge_uuid),
                kt_name(kt_view(knowledge_type)),
                title@,
                description@,
                opt_strings(related_nodes),
                strings_view(tags@),
                crate::learn::opt_str(context_uuid),
                strings_view(similar@),
                now,
                r,
            ),
{
    let now = crate::learn::unix_now();
    learn_with_uuid_at(
        data,
        knowledge_uuid,
        knowledge_type,
        title,
        description,
        related_nodes,
        tags,
        context_uuid,
        similar,
        now,
    )
}

/// The related nodes that [`learn`] passes on: none when the list is empty.
pub open spec fn nodes_if_any(v: Seq<Seq<char>>) -> Option<Seq<Seq<char>>> {
    if v.len() == 0 {
        None
    } else {
        Some(v)
    }
}

/// The position of the first entry titled `t`, or -1.
pub open spec fn title_pos(k: Seq<EntryView>, t: Seq<char>) -> int {
    crate::seqs::first_where(k, |e: EntryView| e.title == t)
}

/// The UUID of the first entry titled `t`, when there is one: the entry that
/// [`learn`] reinforces.
pub open spec fn title_key(k: Seq<EntryView>, t: Seq<char>) -> Option<Seq<char>> {
    if title_pos(k, t) >= 0 {
        Some(k[title_pos(k, t)].uuid)
    } else {
        None
    }
}

/// Finds the first entry titled `t`.
fn find_title(k: &Vec<KnowledgeEntry>, t: &str) -> (r: Option<usize>)
    ensures
        match r {
            Some(i) => i < k@.len() && i as int == title_pos(entries_view(k@), t@),
            None => title_pos(entries_view(k@), t@) == -1,
        },
{
    let ghost kv = entries_view(k@);
    let ghost p = |e: EntryView| e.title == t@;
    let n = k.len();
    for i in 0..n
        invariant
            n == k@.len(),
            kv == entries_view(k@),
            p == (|e: EntryView| e.title == t@),
            forall|j: int| 0 <= j < i ==> !p(#[trigger] kv[j]),
    {
        if crate::text::str_eq(k[i].title.as_str(), t) {
            proof {
                crate::seqs::lemma_first_where_is(kv, p, i as int);
            }
            return Some(i);
        }
    }
    proof {
        crate::seqs::lemma_first_where_is(kv, p, -1);
    }
    None
}

/// What [`learn_at`] promises: the outcome of [`learn_with_uuid_at`] keyed by
/// the UUID of the first entry with the same title (none when no entry has
/// it), with `r` telling whether that entry was reinforced.
pub open spec fn learn_title_outcome(
    a: &KodexData,
    b: &KodexData,
    knowledge_type: Seq<char>,
    title: Seq<char>,
    description: Seq<char>,
    related: Seq<Seq<char>>,
    tags: Seq<Seq<char>>,
    similar: Seq<Seq<char>>,
    now: u64,
    r: Result<bool, KodexError>,
) -> bool {
    let k = entries_view(a.knowledge@);
    let key = title_key(k, title);
    match r {
        Ok(reinforced) => {
            &&& reinforced == (title_pos(k, title) >= 0)
            &&& exists|u: String|
                #[trigger] learn_outcome(
                    a,
                    b,
                    key,
                    knowledge_type,
                    title,
                    description,
                    nodes_if_any(related),
                    tags,
                    None,
                    similar,
                    now,
                    Ok((u, reinforced)),
                )
        },
        Err(e) => learn_outcome(
            a,
            b,
            key,
            knowledge_type,
            title,
            description,
            nodes_if_any(related),
            tags,
            None,
            similar,
            now,
            Err(e),
        ),
    }
}

/// Save a piece of knowledge at time `now` (see [`learn_with_uuid_at`]),
/// linked to `related_nodes` when there are any. When an entry with the same
/// title exists, the first such entry is reinforced instead: it gets one
/// more observation, no entry is added, and `Ok(true)` tells the caller to
/// raise its confidence. Otherwise a new entry is made and `Ok(false)` is
/// returned.
pub fn learn_at(
    data: &mut KodexData,
    knowledge_type: &KnowledgeType,
    title: &str,
    description: &str,
    related_nodes: &[String],
    tags: &[String],
    similar: &[String],
    now: u64,
) -> (r: Result<bool, KodexError>)
    requires
        learn_fits(entries_view(old(data).knowledge@), title_key(entries_view(old(data).knowledge@), title@)),
    ensures
        learn_title_outcome(
            old(data),
            final(data),
            kt_name(kt_view(knowledge_type)),
            title@,
            description@,
            strings_view(related_nodes@),
            strings_view(tags@),
            strings_view(similar@),
            now,
            r,
        ),
        r == Ok::<bool, KodexError>(true) ==> {
            let k = entries_view(old(data).knowledge@);
            let i = entry_pos(k, k[title_pos(k, title@)].uuid);
            &&& entries_view(final(data).knowledge@).len() == k.len()
            &&& 0 <= i < k.len()
            &&& entries_view(final(data).knowledge@)[i].observations == k[i].observations + 1
        },
        r == Ok::<bool, KodexError>(false) ==> entries_view(final(data).knowledge@).len()
            == entries_view(old(data).knowledge@).len() + 1,
{
    let ghost k0 = entries_view(data.knowledge@);
    let nodes = if related_nodes.len() == 0 {
        None
    } else {
        Some(related_nodes)
    };
    let found = find_title(&data.knowledge, title);
    let key: Option<String> = match found {
        Some(i) => Some(data.knowledge[i].uuid.clone()),
        None => None,
    };
    let kref: Option<&str> = match &key {
        Some(u) => Some(u.as_str()),
        None => None,
    };
    assert(crate::learn::opt_str(kref) == title_key(k0, title@));
    assert(opt_strings(nodes) == nodes_if_any(strings_view(related_nodes@)));
    proof {
        if title_pos(k0, title@) >= 0 {
            crate::seqs::lemma_first_where(k0, |e: EntryView| e.uuid == k0[title_pos(k0, title@)].uuid);
        }
    }
    match learn_with_uuid_at(data, kref, knowledge_type, title, description, nodes, tags, None, similar, now) {
        Ok((u, reinforced)) => {
            assert(reinforced == (title_pos(k0, title@) >= 0));
            assert(learn_outcome(
                old(data),
                data,
                title_key(k0, title@),
                kt_name(kt_view(knowledge_type)),
                title@,
                description@,
                nodes_if_any(strings_view(related_nodes@)),
                strings_view(tags@),
                None,
                strings_view(similar@),
                now,
                Ok((u, reinforced)),
            ));
            Ok(reinforced)
        },
        Err(e) => Err(e),
    }
}

/// Save a piece of knowledge at the current time (see [`learn_at`]): an entry
/// with the same title is reinforced (`Ok(true)`), otherwise a new one is made
/// (`Ok(false)`).
pub fn learn(
    data: &mut KodexData,
    knowledge_type: &KnowledgeType,
    title: &str,
    description: &str,
    related_nodes: &[String],
    tags: &[String],
    similar: &[String],
) -> (r: Result<bool, KodexError>)
    requires
        learn_fits(entries_view(old(data).knowledge@), title_key(entries_view(old(data).knowledge@), title@)),
    ensures
        exists|now: u64|
            #[trigger] learn_title_outcome(
                old(data),
                final(data),
                kt_name(kt_view(knowledge_type)),
                title@,
                description@,
                strings_view(related_nodes@),
                strings_view(tags@),
                strings_view(similar@),
                now,
                r,
            ),
{
    let now = crate::learn::unix_now();
    learn_at(data, knowledge_type, title, description, related_nodes, tags, similar, now)
}

/// The update that records `successor` as an entry's successor.
pub open spec fn successor_update(successor: String) -> crate::learn::KnowledgeUpdates {
    crate::learn::KnowledgeUpdates {
        status: None,
        scope: None,
        applies_when: None,
        superseded_by: Some(successor),
        validate: false,
    }
}

/// Save a new entry that supersedes the entry `supersedes_uuid`, at time
/// `now`: the new entry is learned as by [`learn_with_uuid_at`], then the old
/// one is marked obsolete with the new one as its successor (and the new one
/// gets the back-reference). `Ok((u, decays))` gives the new UUID and whether
/// the old entry's confidence is to decay. When the update fails, the new
/// entry stays learned.
pub fn learn_supersedes_at(
    data: &mut KodexData,
    knowledge_type: &KnowledgeType,
    title: &str,
    description: &str,
    related_nodes: Option<&[String]>,
    tags: &[String],
    supersedes_uuid: &str,
    similar: &[String],
    now: u64,
) -> (r: Result<(String, bool), KodexError>)
    ensures
        exists|mid: KodexData, res: Result<(String, bool), KodexError>|
            #[trigger] learn_outcome(
                old(data),
                &mid,
                None,
                kt_name(kt_view(knowledge_type)),
                title@,
                description@,
                opt_strings(related_nodes),
                strings_view(tags@),
                None,
                strings_view(similar@),
                now,
                res,
            ) && match res {
                Err(e) => r == Err::<(String, bool), KodexError>(e) && crate::learn::unchanged(&mid, final(data)),
                Ok((u, _)) => match r {
                    Ok((v, decays)) => v@ == u@ && crate::learn::update_outcome(
                        &mid,
                        final(data),
                        supersedes_uuid@,
                        successor_update(u),
                        now,
                        Ok(decays),
                    ),
                    Err(e) => crate::learn::update_outcome(
                        &mid,
                        final(data),
                        supersedes_uuid@,
                        successor_update(u),
                        now,
                        Err(e),
                    ),
                },
            },
{
    let ghost before = *data;
    let res = learn_with_uuid_at(data, None, knowledge_type, title, description, related_nodes, tags, None, similar, now);
    let ghost mid = *data;
    match res {
        Err(e) => {
            assert(learn_outcome(&before, &mid, None, kt_name(kt_view(knowledge_type)), title@, description@,
                opt_strings(related_nodes), strings_view(tags@), None, strings_view(similar@), now, Err(e)));
            return Err(e);
        },
        Ok((u, reinforced)) => {
            let ghost ures = Ok::<(String, bool), KodexError>((u, reinforced));
            let upd = crate::learn::KnowledgeUpdates {
                status: None,
                scope: None,
                applies_when: None,
                superseded_by: Some(u.clone()),
                validate: false,
            };
            assert(upd == successor_update(u));
            match crate::learn::update_knowledge_at(data, supersedes_uuid, &upd, now) {
                Ok(decays) => {
                    assert(learn_outcome(&before, &mid, None, kt_name(kt_view(knowledge_type)), title@, description@,
                        opt_strings(related_nodes), strings_view(tags@), None, strings_view(similar@), now, ures));
                    Ok((u, decays))
                },
                Err(e) => {
                    assert(learn_outcome(&before, &mid, None, kt_name(kt_view(knowledge_type)), title@, description@,
                        opt_strings(related_nodes), strings_view(tags@), None, strings_view(similar@), now, ures));
                    Err(e)
                },
            }
        },
    }
}

/// [`learn_supersedes_at`] at the current time.
pub fn learn_supersedes(
    data: &mut KodexData,
    knowledge_type: &KnowledgeType,
    title: &str,
    description: &str,
    related_nodes: Option<&[String]>,
    tags: &[String],
    supersedes_uuid: &str,
    similar: &[String],
) -> (r: Result<(String, bool), KodexError>)
    ensures
        exists|now: u64, mid: KodexData, res: Result<(String, bool), KodexError>|
            #[trigger] learn_outcome(
                old(data),
                &mid,
                None,
                kt_name(kt_view(knowledge_type)),
                title@,
                description@,
                opt_strings(related_nodes),
                strings_view(tags@),
                None,
                strings_view(similar@),
                now,
                res,
            ) && match res {
                Err(e) => r == Err::<(String, bool), KodexError>(e) && crate::learn::unchanged(&mid, final(data)),
                Ok((u, _)) => match r {
                    Ok((v, decays)) => v@ == u@ && crate::learn::update_outcome(
                        &mid,
                        final(data),
                        supersedes_uuid@,
                        successor_update(u),
                        now,
                        Ok(decays),
                    ),
                    Err(e) => crate::learn::update_outcome(
                        &mid,
                        final(data),
                        supersedes_uuid@,
                        successor_update(u),
                        now,
                        Err(e),
                    ),
                },
            },
{
    let now = crate::learn::unix_now();
    learn_supersedes_at(
        data,
        knowledge_type,
        title,
        description,
        related_nodes,
        tags,
        supersedes_uuid,
        similar,
        now,
    )
}

} // verus!
