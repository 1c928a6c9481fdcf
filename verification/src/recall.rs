//! Looking knowledge up by words: which entries a query finds, and in what
//! order.
use vstd::prelude::*;
use vstd::string::StringExecFns;

use crate::knowledge_type::{kt_parse, kt_view, KnowledgeType};
use crate::render::byte_len;
use crate::sort::stable_desc_order;
use crate::text::{contains, lowercase, unicode_alnum};
use crate::types::{entries_view, links_view, strings_view, EntryView, KnowledgeLink, KodexData, LinkView};

verus! {

/// The pieces of `s` between characters that are not alphanumeric, as
/// std's `str::split` gives them (empty pieces included).
pub open spec fn pieces(s: Seq<char>) -> Seq<Seq<char>>
    decreases s.len(),
{
    if s.len() == 0 {
        seq![seq![]]
    } else {
        let p = pieces(s.drop_last());
        let c = s.last();
        if !unicode_alnum(c) {
            p.push(seq![])
        } else {
            p.update(p.len() - 1, p.last().push(c))
        }
    }
}

/// There is always at least one piece.
pub proof fn lemma_pieces_len(s: Seq<char>)
    ensures
        pieces(s).len() >= 1,
    decreases s.len(),
{
    if s.len() > 0 {
        lemma_pieces_len(s.drop_last());
    }
}

/// The pieces of more than two bytes, in order.
pub open spec fn long_only(ps: Seq<Seq<char>>) -> Seq<Seq<char>>
    decreases ps.len(),
{
    if ps.len() == 0 {
        seq![]
    } else {
        let p = long_only(ps.drop_last());
        if byte_len(ps.last()) > 2 {
            p.push(ps.last())
        } else {
            p
        }
    }
}

/// The words of a (lower-cased) text: its alphanumeric runs of more than
/// two bytes.
pub open spec fn words(s: Seq<char>) -> Seq<Seq<char>> {
    long_only(pieces(s))
}

/// Some tag of `tags`, lower-cased, equals `t`.
pub open spec fn tag_is(tags: Seq<Seq<char>>, t: Seq<char>) -> bool {
    exists|i: int| 0 <= i < tags.len() && lowercase(#[trigger] tags[i]) == t
}

/// Some tag of `tags`, lower-cased, holds `t`.
pub open spec fn tag_holds(tags: Seq<Seq<char>>, t: Seq<char>) -> bool {
    exists|i: int| 0 <= i < tags.len() && contains(lowercase(#[trigger] tags[i]), t)
}

/// The keyword index has entry `e` under `t`: a word of its title or
/// description, one of its tags, or its type (all lower-cased).
pub open spec fn indexed(e: EntryView, t: Seq<char>) -> bool {
    words(lowercase(e.title)).contains(t) || words(lowercase(e.description)).contains(t) || tag_is(e.tags, t)
        || lowercase(e.knowledge_type) == t
}

/// The index has entry `e` under one of the query words `ws`.
pub open spec fn hit(e: EntryView, ws: Seq<Seq<char>>) -> bool {
    exists|j: int| 0 <= j < ws.len() && indexed(e, #[trigger] ws[j])
}

/// The index has some entry of `k` under one of the query words.
pub open spec fn any_hit(k: Seq<EntryView>, ws: Seq<Seq<char>>) -> bool {
    exists|i: int| 0 <= i < k.len() && hit(#[trigger] k[i], ws)
}

/// Entry `e` holds the text `w` in its lower-cased title, description or
/// one of its tags.
pub open spec fn holds(e: EntryView, w: Seq<char>) -> bool {
    contains(lowercase(e.title), w) || contains(lowercase(e.description), w) || tag_holds(e.tags, w)
}

/// Entry `e` answers the query: with words, it holds one of them; with no
/// word (a short query), it holds the whole lower-cased query.
pub open spec fn answers(e: EntryView, ql: Seq<char>, ws: Seq<Seq<char>>) -> bool {
    if ws.len() == 0 {
        holds(e, ql)
    } else {
        exists|j: int| 0 <= j < ws.len() && holds(e, #[trigger] ws[j])
    }
}

/// Entry `e` of `k` is found by the query `q` with type filter `tf`: it is a
/// candidate of the index (any entry when the query is empty or the index
/// has none of its words), it has the type asked for, and it answers the
/// query.
pub open spec fn found(k: Seq<EntryView>, e: EntryView, q: Seq<char>, tf: Option<Seq<char>>) -> bool {
    let ql = lowercase(q);
    let ws = words(ql);
    &&& (q.len() == 0 || !any_hit(k, ws) || hit(e, ws))
    &&& match tf {
        Some(t) => e.knowledge_type == t,
        None => true,
    }
    &&& (q.len() == 0 || answers(e, ql, ws))
}

/// The entries of `es` found by the query, in order (`k` is every entry).
pub open spec fn found_entries(es: Seq<EntryView>, k: Seq<EntryView>, q: Seq<char>, tf: Option<Seq<char>>) -> Seq<
    EntryView,
>
    decreases es.len(),
{
    if es.len() == 0 {
        seq![]
    } else {
        let p = found_entries(es.drop_last(), k, q, tf);
        if found(k, es.last(), q, tf) {
            p.push(es.last())
        } else {
            p
        }
    }
}

/// One point for each of 0, 1 or 2 weights.
pub open spec fn pts(b: bool, w: nat) -> nat {
    if b {
        w
    } else {
        0
    }
}

/// The rank of entry `e` for the query words `ws`: for each word, 2 when
/// the title holds it, 1 when the description does, 2 when a tag does.
pub open spec fn rank(e: EntryView, ws: Seq<Seq<char>>) -> nat
    decreases ws.len(),
{
    if ws.len() == 0 {
        0
    } else {
        let w = ws.last();
        rank(e, ws.drop_last()) + pts(contains(lowercase(e.title), w), 2) + pts(
            contains(lowercase(e.description), w),
            1,
        ) + pts(tag_holds(e.tags, w), 2)
    }
}

/// The node UUIDs that entry `u` links to, in link order.
pub open spec fn node_targets(ls: Seq<LinkView>, u: Seq<char>) -> Seq<Seq<char>>
    decreases ls.len(),
{
    if ls.len() == 0 {
        seq![]
    } else {
        let p = node_targets(ls.drop_last(), u);
        let l = ls.last();
        if l.knowledge_uuid == u && !l.is_knowledge_link() {
            p.push(l.node_uuid)
        } else {
            p
        }
    }
}

/// A piece of knowledge as a query returns it.
#[derive(Debug)]
pub struct Knowledge {
    pub uuid: String,
    pub knowledge_type: KnowledgeType,
    pub title: String,
    pub description: String,
    pub related_nodes: Vec<String>,
    pub confidence_bits: u64,
    pub observations: u32,
    pub tags: Vec<String>,
    pub created_at: u64,
    pub updated_at: u64,
}

/// The mathematical value of a [`Knowledge`].
pub struct KnowledgeView {
    pub uuid: Seq<char>,
    pub knowledge_type: (int, Seq<char>),
    pub title: Seq<char>,
    pub description: Seq<char>,
    pub related_nodes: Seq<Seq<char>>,
    pub confidence_bits: u64,
    pub observations: u32,
    pub tags: Seq<Seq<char>>,
    pub created_at: u64,
    pub updated_at: u64,
}

/// The mathematical value of a [`Knowledge`].
pub open spec fn knowledge_view(k: Knowledge) -> KnowledgeView {
    KnowledgeView {
        uuid: k.uuid@,
        knowledge_type: kt_view(&k.knowledge_type),
        title: k.title@,
        description: k.description@,
        related_nodes: strings_view(k.related_nodes@),
        confidence_bits: k.confidence_bits,
        observations: k.observations,
        tags: strings_view(k.tags@),
        created_at: k.created_at,
        updated_at: k.updated_at,
    }
}

/// Entry `e` as a query returns it, with the nodes it links to.
pub open spec fn as_knowledge(e: EntryView, ls: Seq<LinkView>) -> KnowledgeView {
    KnowledgeView {
        uuid: e.uuid,
        knowledge_type: kt_parse(e.knowledge_type),
        title: e.title,
        description: e.description,
        related_nodes: node_targets(ls, e.uuid),
        confidence_bits: e.confidence_bits,
        observations: e.observations,
        tags: e.tags,
        created_at: e.created_at,
        updated_at: e.updated_at,
    }
}

/// The ranking keys of the found entries: their ranks when the query has
/// words, else all equal (the order is kept).
pub open spec fn rank_keys(f: Seq<EntryView>, ws: Seq<Seq<char>>) -> Seq<u128> {
    Seq::new(f.len(), |i: int| if ws.len() > 0 { rank(f[i], ws) as u128 } else { 0u128 })
}

/// What a query returns: the found entries (see [`found_entries`]) ordered
/// by descending rank, equal ranks in entry order.
pub open spec fn query_result(data: &KodexData, q: Seq<char>, tf: Option<Seq<char>>, r: Seq<KnowledgeView>) -> bool {
    let k = entries_view(data.knowledge@);
    let f = found_entries(k, k, q, tf);
    let ws = words(lowercase(q));
    exists|ord: Seq<usize>|
        #[trigger] stable_desc_order(rank_keys(f, ws), ord) && r.len() == f.len() && forall|i: int|
            0 <= i < r.len() ==> r[i] == as_knowledge(f[ord[i] as int], links_view(data.links@))
}

/// The words of `s` (see [`words`]).
pub fn words_exec(s: &[char]) -> (r: Vec<Vec<char>>)
    ensures
        crate::text::vecs_view(r@) == words(s@),
{
    let mut done: Vec<Vec<char>> = Vec::new();
    let mut cur: Vec<char> = Vec::new();
    let n = s.len();
    assert(s@.take(0) =~= Seq::<char>::empty());
    assert(crate::text::vecs_view(done@) =~= Seq::<Seq<char>>::empty());
    for i in 0..n
        invariant
            n == s@.len(),
            pieces(s@.take(i as int)).len() >= 1,
            crate::text::vecs_view(done@) == long_only(pieces(s@.take(i as int)).drop_last()),
            cur@ == pieces(s@.take(i as int)).last(),
    {
        let ghost p = pieces(s@.take(i as int));
        assert(s@.take(i + 1).drop_last() =~= s@.take(i as int));
        assert(s@.take(i + 1).last() == s@[i as int]);
        let c = s[i];
        if !crate::text::is_alnum(c) {
            if crate::render::byte_len_exceeds(cur.as_slice(), 2) {
                let ghost before = crate::text::vecs_view(done@);
                done.push(cur);
                assert(crate::text::vecs_view(done@) =~= before.push(p.last()));
            }
            cur = Vec::new();
            assert(p.push(seq![]).drop_last() =~= p);
            assert(p =~= p.drop_last().push(p.last()));
            assert(cur@ =~= Seq::<char>::empty());
        } else {
            cur.push(c);
            assert(p.update(p.len() - 1, p.last().push(c)).drop_last() =~= p.drop_last());
        }
        proof {
            lemma_pieces_len(s@.take(i + 1));
        }
    }
    assert(s@.take(n as int) =~= s@);
    let ghost p = pieces(s@);
    proof {
        lemma_pieces_len(s@);
        assert(p =~= p.drop_last().push(p.last()));
    }
    if crate::render::byte_len_exceeds(cur.as_slice(), 2) {
        let ghost before = crate::text::vecs_view(done@);
        done.push(cur);
        assert(crate::text::vecs_view(done@) =~= before.push(p.last()));
    }
    done
}

/// An entry's texts, lower-cased: title, description, tags and type.
struct Lowered {
    title: Vec<char>,
    description: Vec<char>,
    tags: Vec<Vec<char>>,
    knowledge_type: Vec<char>,
    title_words: Vec<Vec<char>>,
    description_words: Vec<Vec<char>>,
}

/// `l` holds the lower-cased texts of entry `e`.
spec fn lowered_of(l: Lowered, e: EntryView) -> bool {
    &&& l.title@ == lowercase(e.title)
    &&& l.description@ == lowercase(e.description)
    &&& l.tags@.len() == e.tags.len()
    &&& forall|i: int| 0 <= i < e.tags.len() ==> (#[trigger] l.tags@[i])@ == lowercase(e.tags[i])
    &&& l.knowledge_type@ == lowercase(e.knowledge_type)
    &&& crate::text::vecs_view(l.title_words@) == words(lowercase(e.title))
    &&& crate::text::vecs_view(l.description_words@) == words(lowercase(e.description))
}

fn lower_chars(s: &str) -> (r: Vec<char>)
    ensures
        r@ == lowercase(s@),
{
    let l = crate::text::to_lower(s);
    crate::text::str_chars(l.as_str())
}

fn lowered(e: &crate::types::KnowledgeEntry) -> (r: Lowered)
    ensures
        lowered_of(r, e@),
{
    let title = lower_chars(e.title.as_str());
    let description = lower_chars(e.description.as_str());
    let mut tags: Vec<Vec<char>> = Vec::new();
    let n = e.tags.len();
    for i in 0..n
        invariant
            n == e.tags@.len(),
            tags@.len() == i,
            forall|j: int| 0 <= j < i ==> (#[trigger] tags@[j])@ == lowercase(e.tags@[j]@),
    {
        tags.push(lower_chars(e.tags[i].as_str()));
    }
    let title_words = words_exec(title.as_slice());
    let description_words = words_exec(description.as_slice());
    Lowered {
        title,
        description,
        tags,
        knowledge_type: lower_chars(e.knowledge_type.as_str()),
        title_words,
        description_words,
    }
}

fn list_has(list: &Vec<Vec<char>>, t: &[char]) -> (r: bool)
    ensures
        r == crate::text::vecs_view(list@).contains(t@),
{
    let ghost lv = crate::text::vecs_view(list@);
    let n = list.len();
    for i in 0..n
        invariant
            n == list@.len(),
            lv == crate::text::vecs_view(list@),
            forall|j: int| 0 <= j < i ==> lv[j] != t@,
    {
        if crate::text::chars_eq(list[i].as_slice(), t) {
            assert(lv[i as int] == t@);
            return true;
        }
    }
    false
}

fn tag_is_exec(l: &Lowered, Ghost(e): Ghost<EntryView>, t: &[char]) -> (r: bool)
    requires
        lowered_of(*l, e),
    ensures
        r == tag_is(e.tags, t@),
{
    let n = l.tags.len();
    for i in 0..n
        invariant
            n == l.tags@.len(),
            lowered_of(*l, e),
            forall|j: int| 0 <= j < i ==> lowercase(#[trigger] e.tags[j]) != t@,
    {
        if crate::text::chars_eq(l.tags[i].as_slice(), t) {
            assert(l.tags@[i as int]@ == lowercase(e.tags[i as int]));
            return true;
        }
        assert(l.tags@[i as int]@ == lowercase(e.tags[i as int]));
    }
    false
}

fn tag_holds_exec(l: &Lowered, Ghost(e): Ghost<EntryView>, t: &[char]) -> (r: bool)
    requires
        lowered_of(*l, e),
    ensures
        r == tag_holds(e.tags, t@),
{
    let n = l.tags.len();
    for i in 0..n
        invariant
            n == l.tags@.len(),
            lowered_of(*l, e),
            forall|j: int| 0 <= j < i ==> !contains(lowercase(#[trigger] e.tags[j]), t@),
    {
        assert(l.tags@[i as int]@ == lowercase(e.tags[i as int]));
        if crate::text::contains_exec(l.tags[i].as_slice(), t) {
            return true;
        }
    }
    false
}

fn hit_exec(l: &Lowered, Ghost(e): Ghost<EntryView>, ws: &Vec<Vec<char>>) -> (r: bool)
    requires
        lowered_of(*l, e),
    ensures
        r == hit(e, crate::text::vecs_view(ws@)),
{
    let ghost wv = crate::text::vecs_view(ws@);
    let n = ws.len();
    for j in 0..n
        invariant
            n == ws@.len(),
            wv == crate::text::vecs_view(ws@),
            lowered_of(*l, e),
            forall|m: int| 0 <= m < j ==> !indexed(e, #[trigger] wv[m]),
    {
        let w = ws[j].as_slice();
        assert(wv[j as int] == w@);
        if list_has(&l.title_words, w) || list_has(&l.description_words, w) || tag_is_exec(l, Ghost(e), w)
            || crate::text::chars_eq(l.knowledge_type.as_slice(), w) {
            return true;
        }
    }
    false
}

fn holds_exec(l: &Lowered, Ghost(e): Ghost<EntryView>, w: &[char]) -> (r: bool)
    requires
        lowered_of(*l, e),
    ensures
        r == holds(e, w@),
{
    crate::text::contains_exec(l.title.as_slice(), w) || crate::text::contains_exec(l.description.as_slice(), w)
        || tag_holds_exec(l, Ghost(e), w)
}

fn answers_exec(l: &Lowered, Ghost(e): Ghost<EntryView>, ql: &Vec<char>, ws: &Vec<Vec<char>>) -> (r: bool)
    requires
        lowered_of(*l, e),
    ensures
        r == answers(e, ql@, crate::text::vecs_view(ws@)),
{
    let ghost wv = crate::text::vecs_view(ws@);
    let n = ws.len();
    if n == 0 {
        return holds_exec(l, Ghost(e), ql.as_slice());
    }
    for j in 0..n
        invariant
            n == ws@.len(),
            wv == crate::text::vecs_view(ws@),
            lowered_of(*l, e),
            forall|m: int| 0 <= m < j ==> !holds(e, #[trigger] wv[m]),
    {
        assert(wv[j as int] == ws@[j as int]@);
        if holds_exec(l, Ghost(e), ws[j].as_slice()) {
            return true;
        }
    }
    false
}

fn rank_exec(l: &Lowered, Ghost(e): Ghost<EntryView>, ws: &Vec<Vec<char>>) -> (r: u128)
    requires
        lowered_of(*l, e),
    ensures
        r == rank(e, crate::text::vecs_view(ws@)),
{
    let ghost wv = crate::text::vecs_view(ws@);
    let n = ws.len();
    let mut total: u128 = 0;
    assert(wv.take(0) =~= Seq::<Seq<char>>::empty());
    for j in 0..n
        invariant
            n == ws@.len(),
            wv == crate::text::vecs_view(ws@),
            lowered_of(*l, e),
            total == rank(e, wv.take(j as int)),
            total <= 5 * j,
    {
        assert(wv.take(j + 1).drop_last() =~= wv.take(j as int));
        assert(wv.take(j + 1).last() == ws@[j as int]@);
        let w = ws[j].as_slice();
        if crate::text::contains_exec(l.title.as_slice(), w) {
            total = total + 2;
        }
        if crate::text::contains_exec(l.description.as_slice(), w) {
            total = total + 1;
        }
        if tag_holds_exec(l, Ghost(e), w) {
            total = total + 2;
        }
    }
    assert(wv.take(n as int) =~= wv);
    total
}

fn node_targets_exec(ls: &Vec<KnowledgeLink>, u: &str) -> (r: Vec<String>)
    ensures
        strings_view(r@) == node_targets(links_view(ls@), u@),
{
    let ghost lv = links_view(ls@);
    let mut out: Vec<String> = Vec::new();
    let n = ls.len();
    assert(lv.take(0) =~= Seq::<LinkView>::empty());
    assert(strings_view(out@) =~= Seq::<Seq<char>>::empty());
    for i in 0..n
        invariant
            n == ls@.len(),
            lv == links_view(ls@),
            strings_view(out@) == node_targets(lv.take(i as int), u@),
    {
        assert(lv.take(i + 1).drop_last() =~= lv.take(i as int));
        assert(lv.take(i + 1).last() == ls@[i as int]@);
        let l = &ls[i];
        if crate::text::str_eq(l.knowledge_uuid.as_str(), u) && !l.is_knowledge_link() {
            let ghost before = strings_view(out@);
            out.push(l.node_uuid.clone());
            assert(strings_view(out@) =~= before.push(l.node_uuid@));
        }
    }
    assert(lv.take(n as int) =~= lv);
    out
}

/// Look knowledge up by the words of `query` (see [`query_result`]):
/// entries of type `type_filter` (when given) that hold a query word in
/// their title, description or tags (the whole query when it has no word of
/// three bytes; every entry for an empty query), among the entries that the
/// keyword index has under a query word when it has any; the best ranked
/// first (title and tag hits weigh 2, description hits 1), equal ranks in
/// entry order.
pub fn query_knowledge(data: &KodexData, query: &str, type_filter: Option<&str>) -> (r: Vec<Knowledge>)
    ensures
        query_result(
            data,
            query@,
            crate::learn::opt_str(type_filter),
            Seq::new(r@.len(), |i: int| knowledge_view(r@[i])),
        ),
{
    let ghost k = entries_view(data.knowledge@);
    let ghost tf = crate::learn::opt_str(type_filter);
    let ql = lower_chars(query);
    let ws = words_exec(ql.as_slice());
    let ghost wv = crate::text::vecs_view(ws@);
    let n = data.knowledge.len();
    let mut hits: Vec<bool> = Vec::new();
    let mut any = false;
    for i in 0..n
        invariant
            n == data.knowledge@.len(),
            k == entries_view(data.knowledge@),
            wv == crate::text::vecs_view(ws@),
            hits@.len() == i,
            forall|j: int| 0 <= j < i ==> hits@[j] == hit(#[trigger] k[j], wv),
            any == exists|j: int| 0 <= j < i && hit(#[trigger] k[j], wv),
    {
        let e = &data.knowledge[i];
        assert(k[i as int] == e@);
        let l = lowered(e);
        let h = hit_exec(&l, Ghost(e@), &ws);
        hits.push(h);
        any = any || h;
    }
    let empty_query = query.is_empty();
    let mut sel: Vec<usize> = Vec::new();
    let mut keys: Vec<u128> = Vec::new();
    assert(k.take(0) =~= Seq::<EntryView>::empty());
    for i in 0..n
        invariant
            n == data.knowledge@.len(),
            k == entries_view(data.knowledge@),
            wv == crate::text::vecs_view(ws@),
            ql@ == lowercase(query@),
            tf == crate::learn::opt_str(type_filter),
            empty_query == (query@.len() == 0),
            wv == words(lowercase(query@)),
            hits@.len() == n,
            forall|j: int| 0 <= j < n ==> hits@[j] == hit(#[trigger] k[j], wv),
            any == any_hit(k, wv),
            sel@.len() == found_entries(k.take(i as int), k, query@, tf).len(),
            forall|m: int|
                0 <= m < sel@.len() ==> (#[trigger] sel@[m]) < n && k[sel@[m] as int] == found_entries(
                    k.take(i as int),
                    k,
                    query@,
                    tf,
                )[m],
            keys@ == rank_keys(found_entries(k.take(i as int), k, query@, tf), wv),
    {
        assert(k.take(i + 1).drop_last() =~= k.take(i as int));
        assert(k.take(i + 1).last() == k[i as int]);
        let e = &data.knowledge[i];
        assert(k[i as int] == e@);
        let l = lowered(e);
        let type_ok = match type_filter {
            Some(t) => crate::text::str_eq(e.knowledge_type.as_str(), t),
            None => true,
        };
        let keep = (empty_query || !any || hits[i]) && type_ok && (empty_query || answers_exec(
            &l,
            Ghost(e@),
            &ql,
            &ws,
        ));
        let ghost f0 = found_entries(k.take(i as int), k, query@, tf);
        if keep {
            let key = if ws.len() > 0 {
                rank_exec(&l, Ghost(e@), &ws)
            } else {
                0
            };
            sel.push(i);
            keys.push(key);
            assert(keys@ =~= rank_keys(f0.push(e@), wv));
        }
    }
    assert(k.take(n as int) =~= k);
    let ghost f = found_entries(k, k, query@, tf);
    let ord = crate::sort::stable_order_desc(&keys);
    let mut out: Vec<Knowledge> = Vec::new();
    let m = ord.len();
    for j in 0..m
        invariant
            m == ord@.len(),
            n == data.knowledge@.len(),
            k == entries_view(data.knowledge@),
            stable_desc_order(keys@, ord@),
            keys@ == rank_keys(f, wv),
            sel@.len() == f.len(),
            forall|x: int| 0 <= x < sel@.len() ==> (#[trigger] sel@[x]) < n && k[sel@[x] as int] == f[x],
            out@.len() == j,
            forall|x: int|
                0 <= x < j ==> knowledge_view(#[trigger] out@[x]) == as_knowledge(
                    f[ord@[x] as int],
                    links_view(data.links@),
                ),
    {
        let si = ord[j];
        assert(si < keys@.len());
        let idx = sel[si];
        let e = &data.knowledge[idx];
        assert(k[idx as int] == e@);
        let item = Knowledge {
            uuid: e.uuid.clone(),
            knowledge_type: crate::knowledge_type::parse_knowledge_type(e.knowledge_type.as_str()),
            title: e.title.clone(),
            description: e.description.clone(),
            related_nodes: node_targets_exec(&data.links, e.uuid.as_str()),
            confidence_bits: e.confidence_bits,
            observations: e.observations,
            tags: crate::types::clone_strings(&e.tags),
            created_at: e.created_at,
            updated_at: e.updated_at,
        };
        out.push(item);
    }
    let ghost rv = Seq::new(out@.len(), |i: int| knowledge_view(out@[i]));
    assert(forall|i: int| 0 <= i < rv.len() ==> rv[i] == as_knowledge(f[ord@[i] as int], links_view(data.links@)));
    assert(stable_desc_order(rank_keys(f, words(lowercase(query@))), ord@));
    out
}

} // verus!
