//! Chains of thought: entries joined by `leads_to` links (or `because`,
//! `resolved_by`, `therefore`, `implies`), walked from their root.
use vstd::prelude::*;
use vstd::string::StringExecFns;

use crate::seqs::{count_where, entry_pos, lemma_count_where_less};
use crate::types::{entries_view, links_view, strings_view, EntryView, KnowledgeLink, KodexData, LinkView};

verus! {

/// A relation that continues a chain of thought.
pub open spec fn chain_relation(r: Seq<char>) -> bool {
    r == "leads_to"@ || r == "because"@ || r == "resolved_by"@ || r == "therefore"@ || r == "implies"@
}

/// A link between entries with a chain relation.
pub open spec fn is_chain(l: LinkView) -> bool {
    l.is_knowledge_link() && chain_relation(l.relation)
}

/// The next step after entry `u`, with the relation: the last chain link
/// from `u`.
pub open spec fn next_of(ls: Seq<LinkView>, u: Seq<char>) -> Option<(Seq<char>, Seq<char>)>
    decreases ls.len(),
{
    if ls.len() == 0 {
        None
    } else if is_chain(ls.last()) && ls.last().knowledge_uuid == u {
        Some((ls.last().node_uuid, ls.last().relation))
    } else {
        next_of(ls.drop_last(), u)
    }
}

/// The step before entry `u`: the source of the first chain link to `u`.
pub open spec fn prev_of(ls: Seq<LinkView>, u: Seq<char>) -> Option<Seq<char>>
    decreases ls.len(),
{
    if ls.len() == 0 {
        None
    } else if is_chain(ls[0]) && ls[0].node_uuid == u {
        Some(ls[0].knowledge_uuid)
    } else {
        prev_of(ls.drop_first(), u)
    }
}

/// Chain links whose source has not been seen.
pub open spec fn unseen_source(seen: Set<Seq<char>>) -> spec_fn(LinkView) -> bool {
    |l: LinkView| is_chain(l) && !seen.contains(l.knowledge_uuid)
}

/// Chain links whose target has not been seen.
pub open spec fn unseen_target(seen: Set<Seq<char>>) -> spec_fn(LinkView) -> bool {
    |l: LinkView| is_chain(l) && !seen.contains(l.node_uuid)
}

/// The step before `u`, when there is one, is the source of a chain link.
pub proof fn lemma_prev_link(ls: Seq<LinkView>, u: Seq<char>)
    ensures
        prev_of(ls, u) matches Some(p) ==> exists|i: int|
            0 <= i < ls.len() && is_chain(#[trigger] ls[i]) && ls[i].knowledge_uuid == p,
    decreases ls.len(),
{
    if ls.len() > 0 && !(is_chain(ls[0]) && ls[0].node_uuid == u) {
        lemma_prev_link(ls.drop_first(), u);
        if let Some(p) = prev_of(ls, u) {
            let i = choose|i: int| 0 <= i < ls.drop_first().len() && is_chain(#[trigger] ls.drop_first()[i])
                && ls.drop_first()[i].knowledge_uuid == p;
            assert(ls[i + 1] == ls.drop_first()[i]);
        }
    }
}

/// The next step after `u`, when there is one, is the target of a chain link.
pub proof fn lemma_next_link(ls: Seq<LinkView>, u: Seq<char>)
    ensures
        next_of(ls, u) matches Some(p) ==> exists|i: int|
            0 <= i < ls.len() && is_chain(#[trigger] ls[i]) && ls[i].node_uuid == p.0 && ls[i].relation == p.1,
    decreases ls.len(),
{
    if ls.len() > 0 && !(is_chain(ls.last()) && ls.last().knowledge_uuid == u) {
        lemma_next_link(ls.drop_last(), u);
        if let Some(p) = next_of(ls, u) {
            let i = choose|i: int| 0 <= i < ls.drop_last().len() && is_chain(#[trigger] ls.drop_last()[i])
                && ls.drop_last()[i].node_uuid == p.0 && ls.drop_last()[i].relation == p.1;
            assert(ls[i] == ls.drop_last()[i]);
        }
    }
}

/// Stepping back to an unseen entry leaves fewer chain links with an unseen
/// source.
pub proof fn lemma_back_decreases(ls: Seq<LinkView>, seen: Set<Seq<char>>, p: Seq<char>)
    requires
        !seen.contains(p),
        exists|i: int| 0 <= i < ls.len() && is_chain(#[trigger] ls[i]) && ls[i].knowledge_uuid == p,
    ensures
        count_where(ls, unseen_source(seen.insert(p))) < count_where(ls, unseen_source(seen)),
{
    let i = choose|i: int| 0 <= i < ls.len() && is_chain(#[trigger] ls[i]) && ls[i].knowledge_uuid == p;
    lemma_count_where_less(ls, unseen_source(seen), unseen_source(seen.insert(p)), i);
}

/// Stepping on to an unseen entry leaves fewer chain links with an unseen
/// target.
pub proof fn lemma_on_decreases(ls: Seq<LinkView>, seen: Set<Seq<char>>, n: Seq<char>)
    requires
        !seen.contains(n),
        exists|i: int| 0 <= i < ls.len() && is_chain(#[trigger] ls[i]) && ls[i].node_uuid == n,
    ensures
        count_where(ls, unseen_target(seen.insert(n))) < count_where(ls, unseen_target(seen)),
{
    let i = choose|i: int| 0 <= i < ls.len() && is_chain(#[trigger] ls[i]) && ls[i].node_uuid == n;
    lemma_count_where_less(ls, unseen_target(seen), unseen_target(seen.insert(n)), i);
}

/// The root of the chain through `cur`: step back while there is a step
/// before that has not been seen.
pub open spec fn root_from(ls: Seq<LinkView>, cur: Seq<char>, seen: Set<Seq<char>>) -> Seq<char>
    decreases count_where(ls, unseen_source(seen)),
{
    match prev_of(ls, cur) {
        Some(p) => if seen.contains(p) {
            cur
        } else {
            proof {
                lemma_prev_link(ls, cur);
                lemma_back_decreases(ls, seen, p);
            }
            root_from(ls, p, seen.insert(p))
        },
        None => cur,
    }
}

/// The entries of the chain from `cur` on: step on while there is a next
/// step that has not been seen.
pub open spec fn chain_from(ls: Seq<LinkView>, cur: Seq<char>, seen: Set<Seq<char>>) -> Seq<Seq<char>>
    decreases count_where(ls, unseen_target(seen)),
{
    match next_of(ls, cur) {
        Some((n, _)) => if seen.contains(n) {
            seq![cur]
        } else {
            proof {
                lemma_next_link(ls, cur);
                lemma_on_decreases(ls, seen, n);
            }
            seq![cur] + chain_from(ls, n, seen.insert(n))
        },
        None => seq![cur],
    }
}

/// A step of a chain of thought: the entry (empty texts and zero
/// confidence when no entry has the UUID) and the relation to the next step.
#[derive(Debug)]
pub struct ThoughtStep {
    pub uuid: String,
    pub title: String,
    pub knowledge_type: String,
    pub description: String,
    pub confidence_bits: u64,
    pub relation_to_next: Option<String>,
}

/// The mathematical value of a [`ThoughtStep`].
pub struct StepView {
    pub uuid: Seq<char>,
    pub title: Seq<char>,
    pub knowledge_type: Seq<char>,
    pub description: Seq<char>,
    pub confidence_bits: u64,
    pub relation_to_next: Option<Seq<char>>,
}

/// The mathematical value of a [`ThoughtStep`].
pub open spec fn step_view(s: ThoughtStep) -> StepView {
    StepView {
        uuid: s.uuid@,
        title: s.title@,
        knowledge_type: s.knowledge_type@,
        description: s.description@,
        confidence_bits: s.confidence_bits,
        relation_to_next: match s.relation_to_next {
            Some(r) => Some(r@),
            None => None,
        },
    }
}

/// The step of entry `u` (the first entry with that UUID).
pub open spec fn step_of(k: Seq<EntryView>, ls: Seq<LinkView>, u: Seq<char>) -> StepView {
    let i = entry_pos(k, u);
    let rel = match next_of(ls, u) {
        Some((_, r)) => Some(r),
        None => None,
    };
    if 0 <= i < k.len() {
        StepView {
            uuid: u,
            title: k[i].title,
            knowledge_type: k[i].knowledge_type,
            description: k[i].description,
            confidence_bits: k[i].confidence_bits,
            relation_to_next: rel,
        }
    } else {
        StepView {
            uuid: u,
            title: seq![],
            knowledge_type: seq![],
            description: seq![],
            confidence_bits: 0,
            relation_to_next: rel,
        }
    }
}

/// The chain of thought through entry `u`: from its root (see
/// [`root_from`]) forward (see [`chain_from`]), each step with its entry.
pub open spec fn thought_steps(data: &KodexData, u: Seq<char>) -> Seq<StepView> {
    let ls = links_view(data.links@);
    let root = root_from(ls, u, set![u]);
    chain_from(ls, root, set![root]).map_values(|x: Seq<char>| step_of(entries_view(data.knowledge@), ls, x))
}

fn is_chain_exec(l: &KnowledgeLink) -> (r: bool)
    ensures
        r == is_chain(l@),
{
    let r = l.relation.as_str();
    l.is_knowledge_link() && (crate::text::str_eq(r, "leads_to") || crate::text::str_eq(r, "because")
        || crate::text::str_eq(r, "resolved_by") || crate::text::str_eq(r, "therefore") || crate::text::str_eq(
        r,
        "implies",
    ))
}

fn prev_exec(ls: &Vec<KnowledgeLink>, u: &str) -> (r: Option<String>)
    ensures
        match r {
            Some(p) => prev_of(links_view(ls@), u@) == Some(p@),
            None => prev_of(links_view(ls@), u@) is None,
        },
{
    let ghost lv = links_view(ls@);
    let n = ls.len();
    assert(lv.skip(0) =~= lv);
    for i in 0..n
        invariant
            n == ls@.len(),
            lv == links_view(ls@),
            prev_of(lv, u@) == prev_of(lv.skip(i as int), u@),
    {
        assert(lv.skip(i as int).drop_first() =~= lv.skip(i + 1));
        assert(lv.skip(i as int)[0] == ls@[i as int]@);
        let l = &ls[i];
        if is_chain_exec(l) && crate::text::str_eq(l.node_uuid.as_str(), u) {
            return Some(l.knowledge_uuid.clone());
        }
    }
    assert(lv.skip(n as int) =~= Seq::<LinkView>::empty());
    None
}

fn next_exec(ls: &Vec<KnowledgeLink>, u: &str) -> (r: Option<(String, String)>)
    ensures
        match r {
            Some(p) => next_of(links_view(ls@), u@) == Some((p.0@, p.1@)),
            None => next_of(links_view(ls@), u@) is None,
        },
{
    let ghost lv = links_view(ls@);
    let mut j = ls.len();
    assert(lv.take(j as int) =~= lv);
    while j > 0
        invariant
            j <= ls@.len(),
            lv == links_view(ls@),
            next_of(lv, u@) == next_of(lv.take(j as int), u@),
        decreases j,
    {
        assert(lv.take(j as int).drop_last() =~= lv.take(j - 1));
        assert(lv.take(j as int).last() == ls@[j - 1]@);
        let l = &ls[j - 1];
        if is_chain_exec(l) && crate::text::str_eq(l.knowledge_uuid.as_str(), u) {
            return Some((l.node_uuid.clone(), l.relation.clone()));
        }
        j = j - 1;
    }
    None
}

fn make_step(data: &KodexData, u: &String, rel: Option<String>) -> (r: ThoughtStep)
    requires
        match rel {
            Some(x) => next_of(links_view(data.links@), u@) matches Some(p) && p.1 == x@,
            None => next_of(links_view(data.links@), u@) is None,
        },
    ensures
        step_view(r) == step_of(entries_view(data.knowledge@), links_view(data.links@), u@),
{
    match crate::seqs::find_entry(&data.knowledge, u.as_str()) {
        Some(i) => {
            let e = &data.knowledge[i];
            ThoughtStep {
                uuid: u.clone(),
                title: e.title.clone(),
                knowledge_type: e.knowledge_type.clone(),
                description: e.description.clone(),
                confidence_bits: e.confidence_bits,
                relation_to_next: rel,
            }
        },
        None => ThoughtStep {
            uuid: u.clone(),
            title: String::new(),
            knowledge_type: String::new(),
            description: String::new(),
            confidence_bits: 0,
            relation_to_next: rel,
        },
    }
}

/// The chain of thought through entry `knowledge_uuid` (see
/// [`thought_steps`]): back to its root, then forward, each entry once.
pub fn thought_chain(data: &KodexData, knowledge_uuid: &str) -> (r: Vec<ThoughtStep>)
    ensures
        Seq::new(r@.len(), |i: int| step_view(r@[i])) == thought_steps(data, knowledge_uuid@),
{
    let ghost lv = links_view(data.links@);
    let ghost k = entries_view(data.knowledge@);
    let ghost start = knowledge_uuid@;
    let mut root = String::from_str(knowledge_uuid);
    let mut seen: Vec<String> = Vec::new();
    seen.push(root.clone());
    let ghost mut sset: Set<Seq<char>> = set![start];
    assert forall|x: Seq<char>| strings_view(seen@).contains(x) <==> sset.contains(x) by {
        crate::kgraph::lemma_push_contains(Seq::<Seq<char>>::empty(), start, x);
        assert(strings_view(seen@) =~= Seq::<Seq<char>>::empty().push(start));
    }
    loop
        invariant
            lv == links_view(data.links@),
            forall|x: Seq<char>| strings_view(seen@).contains(x) <==> sset.contains(x),
            root_from(lv, start, set![start]) == root_from(lv, root@, sset),
        ensures
            root_from(lv, start, set![start]) == root@,
        decreases count_where(lv, unseen_source(sset)),
    {
        match prev_exec(&data.links, root.as_str()) {
            Some(p) => {
                if crate::learn::strings_contain(&seen, p.as_str()) {
                    break;
                }
                proof {
                    lemma_prev_link(lv, root@);
                    lemma_back_decreases(lv, sset, p@);
                }
                let ghost before = strings_view(seen@);
                seen.push(p.clone());
                assert(strings_view(seen@) =~= before.push(p@));
                proof {
                    assert forall|x: Seq<char>| strings_view(seen@).contains(x) <==> sset.insert(p@).contains(x) by {
                        crate::kgraph::lemma_push_contains(before, p@, x);
                    }
                    sset = sset.insert(p@);
                }
                root = p;
            },
            None => {
                break;
            },
        }
    }
    let ghost f = |x: Seq<char>| step_of(k, lv, x);
    let ghost full = chain_from(lv, root@, set![root@]).map_values(f);
    let mut steps: Vec<ThoughtStep> = Vec::new();
    let mut cur = root;
    let mut seen2: Vec<String> = Vec::new();
    seen2.push(cur.clone());
    let ghost mut s2: Set<Seq<char>> = set![cur@];
    assert forall|x: Seq<char>| strings_view(seen2@).contains(x) <==> s2.contains(x) by {
        crate::kgraph::lemma_push_contains(Seq::<Seq<char>>::empty(), cur@, x);
        assert(strings_view(seen2@) =~= Seq::<Seq<char>>::empty().push(cur@));
    }
    assert(Seq::new(steps@.len(), |i: int| step_view(steps@[i])) + chain_from(lv, cur@, s2).map_values(f) =~= full);
    loop
        invariant_except_break
            Seq::new(steps@.len(), |i: int| step_view(steps@[i])) + chain_from(lv, cur@, s2).map_values(f) == full,
        invariant
            lv == links_view(data.links@),
            k == entries_view(data.knowledge@),
            f == (|x: Seq<char>| step_of(k, lv, x)),
            forall|x: Seq<char>| strings_view(seen2@).contains(x) <==> s2.contains(x),
        ensures
            Seq::new(steps@.len(), |i: int| step_view(steps@[i])) == full,
        decreases count_where(lv, unseen_target(s2)),
    {
        let ghost sv0 = Seq::new(steps@.len(), |i: int| step_view(steps@[i]));
        let nx = next_exec(&data.links, cur.as_str());
        let rel = match &nx {
            Some(p) => Some(p.1.clone()),
            None => None,
        };
        let st = make_step(data, &cur, rel);
        steps.push(st);
        let ghost sv1 = Seq::new(steps@.len(), |i: int| step_view(steps@[i]));
        assert(sv1 =~= sv0.push(f(cur@)));
        match nx {
            Some((n, _)) => {
                if crate::learn::strings_contain(&seen2, n.as_str()) {
                    assert(chain_from(lv, cur@, s2) == seq![cur@]);
                    assert(sv0 + seq![cur@].map_values(f) =~= sv1);
                    break;
                }
                proof {
                    lemma_next_link(lv, cur@);
                    lemma_on_decreases(lv, s2, n@);
                }
                assert(chain_from(lv, cur@, s2) == seq![cur@] + chain_from(lv, n@, s2.insert(n@)));
                assert((seq![cur@] + chain_from(lv, n@, s2.insert(n@))).map_values(f) =~= seq![f(cur@)]
                    + chain_from(lv, n@, s2.insert(n@)).map_values(f));
                assert(sv1 + chain_from(lv, n@, s2.insert(n@)).map_values(f) =~= full);
                let ghost before = strings_view(seen2@);
                seen2.push(n.clone());
                assert(strings_view(seen2@) =~= before.push(n@));
                proof {
                    assert forall|x: Seq<char>| strings_view(seen2@).contains(x) <==> s2.insert(n@).contains(x) by {
                        crate::kgraph::lemma_push_contains(before, n@, x);
                    }
                    s2 = s2.insert(n@);
                }
                cur = n;
            },
            None => {
                assert(chain_from(lv, cur@, s2) == seq![cur@]);
                assert(sv0 + seq![cur@].map_values(f) =~= sv1);
                break;
            },
        }
    }
    steps
}

} // verus!
