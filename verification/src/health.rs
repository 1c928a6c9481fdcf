//! Health figures of the knowledge base: how many entries are in each
//! status, how many links, how many of them lead nowhere, and how much has
//! changed lately.
use vstd::prelude::*;

use crate::conflicts::{all_conflicts, detect_conflicts, overlap_candidates};
use crate::seqs::{count_where, entry_pos, lemma_count_where_step};
use crate::store::node_uuids;
use crate::types::{entries_view, links_view, EntryView, KodexData, LinkView};

verus! {

/// Health figures of the knowledge base. The average confidence, which
/// takes floating point, is left to the caller; the observations are given
/// as their total.
#[derive(Debug)]
pub struct KnowledgeHealth {
    pub total_knowledge: usize,
    pub active: usize,
    pub tentative: usize,
    pub needs_review: usize,
    pub obsolete: usize,
    pub total_links: usize,
    pub node_links: usize,
    pub knowledge_links: usize,
    pub orphan_node_links: usize,
    pub orphan_knowledge_links: usize,
    pub duplicate_candidates: usize,
    pub conflicts: usize,
    pub total_observations: u128,
    pub total_nodes: usize,
    pub validation_overdue: usize,
    pub recently_changed_7d: usize,
    pub recently_changed_30d: usize,
}

/// Entries with status `s`.
pub open spec fn has_status(s: Seq<char>) -> spec_fn(EntryView) -> bool {
    |e: EntryView| e.status == s
}

/// Entries counted as active: any status but `tentative`, `needs_review`
/// and `obsolete`.
pub open spec fn counted_active() -> spec_fn(EntryView) -> bool {
    |e: EntryView| e.status != "tentative"@ && e.status != "needs_review"@ && e.status != "obsolete"@
}

/// Active entries last validated more than 90 days before `now`.
pub open spec fn overdue(now: u64) -> spec_fn(EntryView) -> bool {
    |e: EntryView|
        e.status == "active"@ && e.last_validated_at > 0 && now > e.last_validated_at && (now
            - e.last_validated_at) / 86400 > 90
}

/// Entries updated less than `days` whole days before `now`.
pub open spec fn changed_within(now: u64, days: u64) -> spec_fn(EntryView) -> bool {
    |e: EntryView| e.updated_at > 0 && now > e.updated_at && (now - e.updated_at) / 86400 < days
}

/// Links to code nodes.
pub open spec fn is_node_link() -> spec_fn(LinkView) -> bool {
    |l: LinkView| !l.is_knowledge_link()
}

/// Links between two entries.
pub open spec fn is_knowledge_link() -> spec_fn(LinkView) -> bool {
    |l: LinkView| l.is_knowledge_link()
}

/// Links to code nodes whose node (by UUID, among `valid`) is gone.
pub open spec fn orphan_node_link(valid: Set<Seq<char>>) -> spec_fn(LinkView) -> bool {
    |l: LinkView| !l.is_knowledge_link() && !valid.contains(l.node_uuid)
}

/// Links between entries with an end that is no entry of `k`.
pub open spec fn orphan_knowledge_link(k: Seq<EntryView>) -> spec_fn(LinkView) -> bool {
    |l: LinkView| l.is_knowledge_link() && (entry_pos(k, l.knowledge_uuid) == -1 || entry_pos(k, l.node_uuid) == -1)
}

/// The sum of the observation counts of `k`.
pub open spec fn total_observations(k: Seq<EntryView>) -> nat
    decreases k.len(),
{
    if k.len() == 0 {
        0
    } else {
        total_observations(k.drop_last()) + k.last().observations as nat
    }
}

/// The figures of `data` at time `now`, given the number of duplicate
/// candidates and the scope-overlap verdicts `in_band` (see
/// [`all_conflicts`]).
pub open spec fn health_of(data: &KodexData, now: u64, duplicates: usize, in_band: Seq<bool>, h: KnowledgeHealth) -> bool {
    let k = entries_view(data.knowledge@);
    let ls = links_view(data.links@);
    &&& h.total_knowledge == k.len()
    &&& h.active == count_where(k, counted_active())
    &&& h.tentative == count_where(k, has_status("tentative"@))
    &&& h.needs_review == count_where(k, has_status("needs_review"@))
    &&& h.obsolete == count_where(k, has_status("obsolete"@))
    &&& h.total_links == ls.len()
    &&& h.node_links == count_where(ls, is_node_link())
    &&& h.knowledge_links == count_where(ls, is_knowledge_link())
    &&& h.orphan_node_links == count_where(ls, orphan_node_link(node_uuids(data.extraction.nodes@)))
    &&& h.orphan_knowledge_links == count_where(ls, orphan_knowledge_link(k))
    &&& h.duplicate_candidates == duplicates
    &&& h.conflicts == all_conflicts(k, ls, in_band).len()
    &&& h.total_observations == total_observations(k)
    &&& h.total_nodes == data.extraction.nodes@.len()
    &&& h.validation_overdue == count_where(k, overdue(now))
    &&& h.recently_changed_7d == count_where(k, changed_within(now, 7))
    &&& h.recently_changed_30d == count_where(k, changed_within(now, 30))
}

proof fn lemma_total_observations_step(k: Seq<EntryView>, i: int)
    requires
        0 <= i < k.len(),
    ensures
        total_observations(k.take(i + 1)) == total_observations(k.take(i)) + k[i].observations,
        total_observations(k.take(i)) <= i * 0x1_0000_0000,
    decreases i,
{
    assert(k.take(i + 1).drop_last() =~= k.take(i));
    assert(k.take(i + 1).last() == k[i]);
    if i > 0 {
        lemma_total_observations_step(k, i - 1);
    } else {
        assert(k.take(0) =~= Seq::<EntryView>::empty());
    }
}

fn inc(c: usize, b: bool) -> (r: usize)
    requires
        c < usize::MAX,
    ensures
        r == c + if b {
            1nat
        } else {
            0nat
        },
{
    if b {
        c + 1
    } else {
        c
    }
}

/// The health figures of `data` at time `now` (see [`health_of`]), given
/// the number of duplicate candidates and the scope-overlap verdicts.
pub fn knowledge_health_at(data: &KodexData, now: u64, duplicates: usize, in_band: &[bool]) -> (r: KnowledgeHealth)
    requires
        in_band@.len() == overlap_candidates(entries_view(data.knowledge@), data.knowledge@.len() as int).len(),
    ensures
        health_of(data, now, duplicates, in_band@, r),
{
    proof {
        reveal_strlit("tentative");
        reveal_strlit("needs_review");
        reveal_strlit("obsolete");
    }
    let ghost k = entries_view(data.knowledge@);
    let ghost ls = links_view(data.links@);
    let n = data.knowledge.len();
    let mut active: usize = 0;
    let mut tentative: usize = 0;
    let mut needs_review: usize = 0;
    let mut obsolete: usize = 0;
    let mut overdue_n: usize = 0;
    let mut recent7: usize = 0;
    let mut recent30: usize = 0;
    let mut obs: u128 = 0;
    for i in 0..n
        invariant
            n == data.knowledge@.len(),
            k == entries_view(data.knowledge@),
            active == count_where(k.take(i as int), counted_active()),
            tentative == count_where(k.take(i as int), has_status("tentative"@)),
            needs_review == count_where(k.take(i as int), has_status("needs_review"@)),
            obsolete == count_where(k.take(i as int), has_status("obsolete"@)),
            overdue_n == count_where(k.take(i as int), overdue(now)),
            recent7 == count_where(k.take(i as int), changed_within(now, 7)),
            recent30 == count_where(k.take(i as int), changed_within(now, 30)),
            obs == total_observations(k.take(i as int)),
    {
        proof {
            lemma_count_where_step(k, counted_active(), i as int);
            lemma_count_where_step(k, has_status("tentative"@), i as int);
            lemma_count_where_step(k, has_status("needs_review"@), i as int);
            lemma_count_where_step(k, has_status("obsolete"@), i as int);
            lemma_count_where_step(k, overdue(now), i as int);
            lemma_count_where_step(k, changed_within(now, 7), i as int);
            lemma_count_where_step(k, changed_within(now, 30), i as int);
            lemma_total_observations_step(k, i as int);
            assert(i * 0x1_0000_0000 <= 0x1_0000_0000_0000_0000_0000_0000) by (nonlinear_arith)
                requires
                    i <= 0xffff_ffff_ffff_ffff,
            ;
        }
        let e = &data.knowledge[i];
        assert(k[i as int] == e@);
        let s = e.status.as_str();
        let is_t = crate::text::str_eq(s, "tentative");
        let is_nr = crate::text::str_eq(s, "needs_review");
        let is_o = crate::text::str_eq(s, "obsolete");
        let is_a = crate::text::str_eq(s, "active");
        tentative = inc(tentative, is_t);
        needs_review = inc(needs_review, is_nr);
        obsolete = inc(obsolete, is_o);
        active = inc(active, !is_t && !is_nr && !is_o);
        overdue_n = inc(
            overdue_n,
            is_a && e.last_validated_at > 0 && now > e.last_validated_at && (now - e.last_validated_at) / 86400 > 90,
        );
        let fresh = e.updated_at > 0 && now > e.updated_at;
        recent7 = inc(recent7, fresh && (now - e.updated_at) / 86400 < 7);
        recent30 = inc(recent30, fresh && (now - e.updated_at) / 86400 < 30);
        obs = obs + e.observations as u128;
    }
    proof {
        assert(k.take(n as int) =~= k);
    }
    let ghost valid = node_uuids(data.extraction.nodes@);
    let m = data.links.len();
    let mut node_links: usize = 0;
    let mut knowledge_links: usize = 0;
    let mut orphan_nodes: usize = 0;
    let mut orphan_knowledge: usize = 0;
    for j in 0..m
        invariant
            m == data.links@.len(),
            ls == links_view(data.links@),
            k == entries_view(data.knowledge@),
            valid == node_uuids(data.extraction.nodes@),
            node_links == count_where(ls.take(j as int), is_node_link()),
            knowledge_links == count_where(ls.take(j as int), is_knowledge_link()),
            orphan_nodes == count_where(ls.take(j as int), orphan_node_link(valid)),
            orphan_knowledge == count_where(ls.take(j as int), orphan_knowledge_link(k)),
    {
        proof {
            lemma_count_where_step(ls, is_node_link(), j as int);
            lemma_count_where_step(ls, is_knowledge_link(), j as int);
            lemma_count_where_step(ls, orphan_node_link(valid), j as int);
            lemma_count_where_step(ls, orphan_knowledge_link(k), j as int);
        }
        let l = &data.links[j];
        assert(ls[j as int] == l@);
        let kl = l.is_knowledge_link();
        node_links = inc(node_links, !kl);
        knowledge_links = inc(knowledge_links, kl);
        if !kl {
            let present = crate::store::uuid_present(&data.extraction.nodes, l.node_uuid.as_str());
            orphan_nodes = inc(orphan_nodes, !present);
        } else {
            let a = crate::seqs::find_entry(&data.knowledge, l.knowledge_uuid.as_str());
            let b = crate::seqs::find_entry(&data.knowledge, l.node_uuid.as_str());
            orphan_knowledge = inc(orphan_knowledge, a.is_none() || b.is_none());
        }
    }
    proof {
        assert(ls.take(m as int) =~= ls);
    }
    let conflicts = detect_conflicts(data, in_band);
    KnowledgeHealth {
        total_knowledge: n,
        active,
        tentative,
        needs_review,
        obsolete,
        total_links: m,
        node_links,
        knowledge_links,
        orphan_node_links: orphan_nodes,
        orphan_knowledge_links: orphan_knowledge,
        duplicate_candidates: duplicates,
        conflicts: conflicts.len(),
        total_observations: obs,
        total_nodes: data.extraction.nodes.len(),
        validation_overdue: overdue_n,
        recently_changed_7d: recent7,
        recently_changed_30d: recent30,
    }
}

/// The health figures of `data` at the current time (see
/// [`knowledge_health_at`]).
pub fn knowledge_health(data: &KodexData, duplicates: usize, in_band: &[bool]) -> (r: KnowledgeHealth)
    requires
        in_band@.len() == overlap_candidates(entries_view(data.knowledge@), data.knowledge@.len() as int).len(),
    ensures
        exists|now: u64| #[trigger] health_of(data, now, duplicates, in_band@, r),
{
    let now = crate::learn::unix_now();
    knowledge_health_at(data, now, duplicates, in_band)
}

} // verus!
