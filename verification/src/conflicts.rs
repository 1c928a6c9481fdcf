//! Conflicts between knowledge entries, and refreshing the review queue.
use vstd::prelude::*;
use vstd::string::StringExecFns;

use crate::learn::{enqueue_outcome, enqueue_review_at, has_pending};
use crate::seqs::{entry_pos, find_entry};
use crate::types::{
    entries_view, links_view, queue_view, EntryView, KodexData, LinkView, ReviewView,
};

verus! {

/// A conflict between two knowledge entries.
#[derive(Debug)]
pub struct KnowledgeConflict {
    pub uuid_a: String,
    pub title_a: String,
    pub uuid_b: String,
    pub title_b: String,
    pub conflict_type: String,
    pub description: String,
}

/// The mathematical value of a [`KnowledgeConflict`].
pub struct ConflictView {
    pub uuid_a: Seq<char>,
    pub title_a: Seq<char>,
    pub uuid_b: Seq<char>,
    pub title_b: Seq<char>,
    pub conflict_type: Seq<char>,
    pub description: Seq<char>,
}

impl View for KnowledgeConflict {
    type V = ConflictView;

    open spec fn view(&self) -> ConflictView {
        ConflictView {
            uuid_a: self.uuid_a@,
            title_a: self.title_a@,
            uuid_b: self.uuid_b@,
            title_b: self.title_b@,
            conflict_type: self.conflict_type@,
            description: self.description@,
        }
    }
}

/// The views of a list of conflicts.
pub open spec fn conflicts_view(v: Seq<KnowledgeConflict>) -> Seq<ConflictView> {
    Seq::new(v.len(), |i: int| v[i]@)
}

/// An entry that was superseded but is not obsolete, with its successor.
pub open spec fn superseded_conflict(a: EntryView, b: EntryView) -> ConflictView {
    ConflictView {
        uuid_a: a.uuid,
        title_a: a.title,
        uuid_b: b.uuid,
        title_b: b.title,
        conflict_type: "superseded_not_obsolete"@,
        description: "'"@ + a.title + "' superseded by '"@ + b.title + "' but still active"@,
    }
}

/// Two active entries linked by `contradicts`.
pub open spec fn contradiction_conflict(a: EntryView, b: EntryView) -> ConflictView {
    ConflictView {
        uuid_a: a.uuid,
        title_a: a.title,
        uuid_b: b.uuid,
        title_b: b.title,
        conflict_type: "contradiction"@,
        description: "'"@ + a.title + "' contradicts '"@ + b.title + "', both active"@,
    }
}

/// Two active entries of the same type and scope that are similar but not
/// duplicates.
pub open spec fn overlap_conflict(a: EntryView, b: EntryView) -> ConflictView {
    ConflictView {
        uuid_a: a.uuid,
        title_a: a.title,
        uuid_b: b.uuid,
        title_b: b.title,
        conflict_type: "scope_overlap"@,
        description: "Same scope '"@ + a.scope + "', same type '"@ + a.knowledge_type
            + "' — may conflict"@,
    }
}

/// The conflicts of superseded entries that are not obsolete, in entry order.
pub open spec fn superseded_conflicts(k: Seq<EntryView>, upto: int) -> Seq<ConflictView>
    decreases upto,
{
    if upto <= 0 || upto > k.len() {
        seq![]
    } else {
        let p = superseded_conflicts(k, upto - 1);
        let e = k[upto - 1];
        let s = entry_pos(k, e.superseded_by);
        if e.superseded_by.len() > 0 && e.status != "obsolete"@ && s >= 0 {
            p.push(superseded_conflict(e, k[s]))
        } else {
            p
        }
    }
}

/// The conflicts of `contradicts` links between active entries, in link order.
pub open spec fn contradiction_conflicts(k: Seq<EntryView>, ls: Seq<LinkView>) -> Seq<ConflictView>
    decreases ls.len(),
{
    if ls.len() == 0 {
        seq![]
    } else {
        let p = contradiction_conflicts(k, ls.drop_last());
        let l = ls.last();
        let a = entry_pos(k, l.knowledge_uuid);
        let b = entry_pos(k, l.node_uuid);
        if l.is_knowledge_link() && l.relation == "contradicts"@ && a >= 0 && b >= 0 && k[a].status
            == "active"@ && k[b].status == "active"@ {
            p.push(contradiction_conflict(k[a], k[b]))
        } else {
            p
        }
    }
}

/// An entry that can be in a scope overlap: active, with a scope, and a
/// decision or a pattern.
pub open spec fn overlap_eligible(e: EntryView) -> bool {
    e.status == "active"@ && e.scope.len() > 0 && (e.knowledge_type == "decision"@ || e.knowledge_type
        == "pattern"@)
}

/// Entries `i` and `j` may overlap: both eligible, same type, same scope.
pub open spec fn overlap_candidate(k: Seq<EntryView>, i: int, j: int) -> bool {
    overlap_eligible(k[i]) && overlap_eligible(k[j]) && k[i].knowledge_type == k[j].knowledge_type
        && k[i].scope == k[j].scope
}

/// The candidate pairs `(i, j)` with `i < j < upto`, in order of `j`.
pub open spec fn candidates_of(k: Seq<EntryView>, i: int, upto: int) -> Seq<(int, int)>
    decreases upto - i,
{
    if upto <= i + 1 {
        seq![]
    } else {
        let p = candidates_of(k, i, upto - 1);
        if overlap_candidate(k, i, upto - 1) {
            p.push((i, upto - 1))
        } else {
            p
        }
    }
}

/// All candidate pairs `(i, j)`, `i < j`, with `i < upto`, by `i` then `j`.
pub open spec fn overlap_candidates(k: Seq<EntryView>, upto: int) -> Seq<(int, int)>
    decreases upto,
{
    if upto <= 0 {
        seq![]
    } else {
        overlap_candidates(k, upto - 1) + candidates_of(k, upto - 1, k.len() as int)
    }
}

/// The scope-overlap conflicts: the candidate pairs whose verdict is set.
pub open spec fn overlap_conflicts(k: Seq<EntryView>, cands: Seq<(int, int)>, in_band: Seq<bool>) -> Seq<
    ConflictView,
>
    decreases cands.len(),
{
    if cands.len() == 0 {
        seq![]
    } else {
        let p = overlap_conflicts(k, cands.drop_last(), in_band);
        let c = cands.last();
        if in_band[cands.len() - 1] {
            p.push(overlap_conflict(k[c.0], k[c.1]))
        } else {
            p
        }
    }
}

/// All conflicts: superseded entries still active, then contradictions, then
/// scope overlaps.
pub open spec fn all_conflicts(k: Seq<EntryView>, ls: Seq<LinkView>, in_band: Seq<bool>) -> Seq<ConflictView> {
    superseded_conflicts(k, k.len() as int) + contradiction_conflicts(k, ls) + overlap_conflicts(
        k,
        overlap_candidates(k, k.len() as int),
        in_band,
    )
}

proof fn lemma_candidates_bounds(k: Seq<EntryView>, i: int, upto: int)
    requires
        0 <= i,
        upto <= k.len(),
    ensures
        forall|x: int|
            0 <= x < candidates_of(k, i, upto).len() ==> (#[trigger] candidates_of(k, i, upto)[x]).0 == i
                && i < candidates_of(k, i, upto)[x].1 < upto,
    decreases upto - i,
{
    if upto > i + 1 {
        lemma_candidates_bounds(k, i, upto - 1);
        let p = candidates_of(k, i, upto - 1);
        let q = candidates_of(k, i, upto);
        assert forall|x: int| 0 <= x < q.len() implies (#[trigger] q[x]).0 == i && i < q[x].1 < upto by {
            if x < p.len() {
                assert(q[x] == p[x]);
            }
        }
    }
}

proof fn lemma_all_candidates_bounds(k: Seq<EntryView>, upto: int)
    requires
        upto <= k.len(),
    ensures
        forall|x: int|
            0 <= x < overlap_candidates(k, upto).len() ==> 0 <= (#[trigger] overlap_candidates(
                k,
                upto,
            )[x]).0 < (overlap_candidates(k, upto)[x]).1 < k.len(),
    decreases upto,
{
    if upto > 0 {
        lemma_all_candidates_bounds(k, upto - 1);
        lemma_candidates_bounds(k, upto - 1, k.len() as int);
        let a = overlap_candidates(k, upto - 1);
        let b = candidates_of(k, upto - 1, k.len() as int);
        assert forall|x: int| 0 <= x < (a + b).len() implies 0 <= (#[trigger] (a + b)[x]).0 < ((a
            + b)[x]).1 < k.len() by {
            if x >= a.len() {
                assert((a + b)[x] == b[x - a.len()]);
            }
        }
    }
}

fn eligible_exec(e: &crate::types::KnowledgeEntry) -> (r: bool)
    ensures
        r == overlap_eligible(e@),
{
    crate::text::str_eq(e.status.as_str(), "active") && !e.scope.as_str().is_empty() && (
    crate::text::str_eq(e.knowledge_type.as_str(), "decision") || crate::text::str_eq(
        e.knowledge_type.as_str(),
        "pattern",
    ))
}

/// The pairs of knowledge entries (by position, earlier first) that are both
/// active decisions or patterns with the same type and the same non-empty
/// scope: the pairs whose similarity decides a scope-overlap conflict.
pub fn scope_overlap_candidates(data: &KodexData) -> (r: Vec<(usize, usize)>)
    ensures
        r@.len() == overlap_candidates(entries_view(data.knowledge@), data.knowledge@.len() as int).len(),
        forall|x: int|
            0 <= x < r@.len() ==> (#[trigger] r@[x]).0 as int == overlap_candidates(
                entries_view(data.knowledge@),
                data.knowledge@.len() as int,
            )[x].0 && r@[x].1 as int == overlap_candidates(
                entries_view(data.knowledge@),
                data.knowledge@.len() as int,
            )[x].1,
{
    let ghost k = entries_view(data.knowledge@);
    let n = data.knowledge.len();
    let mut out: Vec<(usize, usize)> = Vec::new();
    for i in 0..n
        invariant
            n == k.len(),
            k == entries_view(data.knowledge@),
            out@.len() == overlap_candidates(k, i as int).len(),
            forall|x: int|
                0 <= x < out@.len() ==> (#[trigger] out@[x]).0 as int == overlap_candidates(k, i as int)[x].0
                    && out@[x].1 as int == overlap_candidates(k, i as int)[x].1,
    {
        let ghost base = out@;
        let ghost prev = overlap_candidates(k, i as int);
        let ea = &data.knowledge[i];
        assert(k[i as int] == ea@);
        for j in (i + 1)..n
            invariant
                n == k.len(),
                i < n,
                k == entries_view(data.knowledge@),
                ea@ == k[i as int],
                out@.len() == base.len() + candidates_of(k, i as int, j as int).len(),
                base.len() == prev.len(),
                forall|x: int| 0 <= x < base.len() ==> #[trigger] out@[x] == base[x],
                forall|x: int|
                    0 <= x < candidates_of(k, i as int, j as int).len() ==> (#[trigger] out@[base.len()
                        + x]).0 as int == candidates_of(k, i as int, j as int)[x].0 && out@[base.len()
                        + x].1 as int == candidates_of(k, i as int, j as int)[x].1,
        {
            let eb = &data.knowledge[j];
            assert(k[j as int] == eb@);
            if eligible_exec(ea) && eligible_exec(eb) && crate::text::str_eq(
                ea.knowledge_type.as_str(),
                eb.knowledge_type.as_str(),
            ) && crate::text::str_eq(ea.scope.as_str(), eb.scope.as_str()) {
                out.push((i, j));
            }
        }
        proof {
            let c = candidates_of(k, i as int, n as int);
            if i + 1 > n {
            }
            assert(overlap_candidates(k, i + 1) == prev + c);
            assert forall|x: int| 0 <= x < out@.len() implies (#[trigger] out@[x]).0 as int
                == overlap_candidates(k, i + 1)[x].0 && out@[x].1 as int == overlap_candidates(
                k,
                i + 1,
            )[x].1 by {
                if x < base.len() {
                    assert(out@[x] == base[x]);
                } else {
                    assert(out@[base.len() + (x - base.len())] == out@[x]);
                }
            }
        }
    }
    out
}

fn conflict_exec(
    a: &crate::types::KnowledgeEntry,
    b: &crate::types::KnowledgeEntry,
    kind: u8,
) -> (r: KnowledgeConflict)
    requires
        kind < 3,
    ensures
        r@ == if kind == 0 {
            superseded_conflict(a@, b@)
        } else if kind == 1 {
            contradiction_conflict(a@, b@)
        } else {
            overlap_conflict(a@, b@)
        },
{
    let mut d = String::new();
    let t: String;
    if kind == 0 {
        d.append("'");
        d.append(a.title.as_str());
        d.append("' superseded by '");
        d.append(b.title.as_str());
        d.append("' but still active");
        t = String::from_str("superseded_not_obsolete");
    } else if kind == 1 {
        d.append("'");
        d.append(a.title.as_str());
        d.append("' contradicts '");
        d.append(b.title.as_str());
        d.append("', both active");
        t = String::from_str("contradiction");
    } else {
        d.append("Same scope '");
        d.append(a.scope.as_str());
        d.append("', same type '");
        d.append(a.knowledge_type.as_str());
        d.append("' — may conflict");
        t = String::from_str("scope_overlap");
    }
    KnowledgeConflict {
        uuid_a: a.uuid.clone(),
        title_a: a.title.clone(),
        uuid_b: b.uuid.clone(),
        title_b: b.title.clone(),
        conflict_type: t,
        description: d,
    }
}

/// Find conflicting knowledge entries: entries superseded but not obsolete
/// (with their successor), `contradicts` links between two active entries,
/// and pairs of [`scope_overlap_candidates`] whose verdict in `in_band` is
/// set (the caller sets it when the two entries are similar but not
/// duplicates: similarity strictly between 0.4 and 0.8).
pub fn detect_conflicts(data: &KodexData, in_band: &[bool]) -> (r: Vec<KnowledgeConflict>)
    requires
        in_band@.len() == overlap_candidates(entries_view(data.knowledge@), data.knowledge@.len() as int).len(),
    ensures
        conflicts_view(r@) == all_conflicts(entries_view(data.knowledge@), links_view(data.links@), in_band@),
{
    let ghost k = entries_view(data.knowledge@);
    let ghost lv = links_view(data.links@);
    let mut out: Vec<KnowledgeConflict> = Vec::new();
    let n = data.knowledge.len();
    for i in 0..n
        invariant
            n == k.len(),
            k == entries_view(data.knowledge@),
            conflicts_view(out@) == superseded_conflicts(k, i as int),
    {
        let e = &data.knowledge[i];
        assert(k[i as int] == e@);
        if !e.superseded_by.as_str().is_empty() && !crate::text::str_eq(e.status.as_str(), "obsolete") {
            match find_entry(&data.knowledge, e.superseded_by.as_str()) {
                Some(s) => {
                    let c = conflict_exec(e, &data.knowledge[s], 0);
                    let ghost b = out@;
                    out.push(c);
                    assert(conflicts_view(out@) =~= conflicts_view(b).push(c@));
                },
                None => {},
            }
        }
    }
    let ghost head = conflicts_view(out@);
    let m = data.links.len();
    for i in 0..m
        invariant
            m == lv.len(),
            lv == links_view(data.links@),
            k == entries_view(data.knowledge@),
            conflicts_view(out@) == head + contradiction_conflicts(k, lv.take(i as int)),
    {
        let l = &data.links[i];
        assert(lv[i as int] == l@);
        assert(lv.take(i + 1).drop_last() =~= lv.take(i as int));
        assert(lv.take(i + 1).last() == l@);
        if l.is_knowledge_link() && crate::text::str_eq(l.relation.as_str(), "contradicts") {
            match (find_entry(&data.knowledge, l.knowledge_uuid.as_str()), find_entry(&data.knowledge, l.node_uuid.as_str())) {
                (Some(a), Some(b)) => {
                    if crate::text::str_eq(data.knowledge[a].status.as_str(), "active") && crate::text::str_eq(
                        data.knowledge[b].status.as_str(),
                        "active",
                    ) {
                        let c = conflict_exec(&data.knowledge[a], &data.knowledge[b], 1);
                        let ghost bo = out@;
                        out.push(c);
                        assert(conflicts_view(out@) =~= conflicts_view(bo).push(c@));
                    }
                },
                _ => {},
            }
        }
    }
    assert(lv.take(m as int) =~= lv);
    let cands = scope_overlap_candidates(data);
    let ghost cv = overlap_candidates(k, n as int);
    proof {
        lemma_all_candidates_bounds(k, n as int);
    }
    let ghost head2 = conflicts_view(out@);
    let c = cands.len();
    for x in 0..c
        invariant
            c == cv.len(),
            c == cands@.len(),
            cv == overlap_candidates(k, n as int),
            n == k.len(),
            k == entries_view(data.knowledge@),
            in_band@.len() == c,
            forall|y: int|
                0 <= y < c ==> (#[trigger] cands@[y]).0 as int == cv[y].0 && cands@[y].1 as int == cv[y].1,
            forall|y: int| 0 <= y < cv.len() ==> 0 <= (#[trigger] cv[y]).0 < cv[y].1 < k.len(),
            conflicts_view(out@) == head2 + overlap_conflicts(k, cv.take(x as int), in_band@),
    {
        assert(cv.take(x + 1).drop_last() =~= cv.take(x as int));
        assert(cv.take(x + 1).last() == cv[x as int]);
        let (i, j) = cands[x];
        assert(cv[x as int].0 == i && cv[x as int].1 == j);
        if in_band[x] {
            let cf = conflict_exec(&data.knowledge[i], &data.knowledge[j], 2);
            let ghost bo = out@;
            out.push(cf);
            assert(conflicts_view(out@) =~= conflicts_view(bo).push(cf@));
        }
    }
    assert(cv.take(c as int) =~= cv);
    out
}

/// A review request: the entry's UUID, the reason, the priority.
pub type ReviewRequest = (Seq<char>, Seq<char>, u8);

/// The queue after each request in turn is enqueued unless its entry already
/// has a pending item.
pub open spec fn enqueue_all(q: Seq<ReviewView>, reqs: Seq<ReviewRequest>, now: u64) -> Seq<ReviewView>
    decreases reqs.len(),
{
    if reqs.len() == 0 {
        q
    } else {
        let p = enqueue_all(q, reqs.drop_last(), now);
        let r = reqs.last();
        if has_pending(p, r.0) {
            p
        } else {
            p.push(ReviewView { knowledge_uuid: r.0, reason: r.1, created_at: now, priority: r.2, completed: false })
        }
    }
}

proof fn lemma_enqueue_all_grows(q: Seq<ReviewView>, reqs: Seq<ReviewRequest>, now: u64)
    ensures
        q.len() <= enqueue_all(q, reqs, now).len() <= q.len() + reqs.len(),
    decreases reqs.len(),
{
    if reqs.len() > 0 {
        lemma_enqueue_all_grows(q, reqs.drop_last(), now);
    }
}

/// The review requests of stale entries, conflicts and duplicates, in that
/// order, with priorities 7, 8 and 5.
pub open spec fn review_requests(
    stale: Seq<(Seq<char>, Seq<char>)>,
    conflicts: Seq<ConflictView>,
    duplicates: Seq<(Seq<char>, Seq<char>)>,
) -> Seq<ReviewRequest> {
    stale.map_values(|s: (Seq<char>, Seq<char>)| (s.0, "stale: "@ + s.1, 7u8)) + conflicts.map_values(
        |c: ConflictView| (c.uuid_a, "conflict: "@ + c.description, 8u8),
    ) + duplicates.map_values(|d: (Seq<char>, Seq<char>)| (d.0, "duplicate: "@ + d.1, 5u8))
}

/// The text of a list of string pairs.
pub open spec fn pairs_of(v: Seq<(String, String)>) -> Seq<(Seq<char>, Seq<char>)> {
    Seq::new(v.len(), |i: int| (v[i].0@, v[i].1@))
}

fn enqueue_one(data: &mut KodexData, u: &str, prefix: &str, reason: &str, priority: u8, now: u64)
    ensures
        queue_view(final(data).review_queue@) == if has_pending(queue_view(old(data).review_queue@), u@) {
            queue_view(old(data).review_queue@)
        } else {
            queue_view(old(data).review_queue@).push(
                ReviewView { knowledge_uuid: u@, reason: prefix@ + reason@, created_at: now, priority, completed: false },
            )
        },
        entries_view(final(data).knowledge@) == entries_view(old(data).knowledge@),
        links_view(final(data).links@) == links_view(old(data).links@),
        final(data).extraction == old(data).extraction,
{
    let mut full = String::from_str(prefix);
    full.append(reason);
    let _ = enqueue_review_at(data, u, full.as_str(), priority, now);
}

/// Enqueue for review, at time `now`, each stale entry (`stale` lists UUID and
/// reason, priority 7), the first entry of each conflict that
/// [`detect_conflicts`] finds with the verdicts `in_band` (priority 8), and
/// each duplicate (`duplicates` lists UUID and reason, priority 5), skipping
/// entries that already have a pending item. Returns how many were enqueued.
pub fn refresh_review_queue_at(
    data: &mut KodexData,
    stale: &[(String, String)],
    in_band: &[bool],
    duplicates: &[(String, String)],
    now: u64,
) -> (r: usize)
    requires
        in_band@.len() == overlap_candidates(entries_view(old(data).knowledge@), old(data).knowledge@.len() as int).len(),
    ensures
        ({
            let q0 = queue_view(old(data).review_queue@);
            let reqs = review_requests(
                pairs_of(stale@),
                all_conflicts(entries_view(old(data).knowledge@), links_view(old(data).links@), in_band@),
                pairs_of(duplicates@),
            );
            &&& queue_view(final(data).review_queue@) == enqueue_all(q0, reqs, now)
            &&& r == enqueue_all(q0, reqs, now).len() - q0.len()
        }),
        entries_view(final(data).knowledge@) == entries_view(old(data).knowledge@),
        links_view(final(data).links@) == links_view(old(data).links@),
        final(data).extraction == old(data).extraction,
{
    let conflicts = detect_conflicts(data, in_band);
    let ghost q0 = queue_view(data.review_queue@);
    let ghost k0 = entries_view(data.knowledge@);
    let ghost l0 = links_view(data.links@);
    let ghost x0 = data.extraction;
    let ghost reqs = review_requests(pairs_of(stale@), conflicts_view(conflicts@), pairs_of(duplicates@));
    let ghost s_reqs = pairs_of(stale@).map_values(|s: (Seq<char>, Seq<char>)| (s.0, "stale: "@ + s.1, 7u8));
    let ghost c_reqs = conflicts_view(conflicts@).map_values(
        |c: ConflictView| (c.uuid_a, "conflict: "@ + c.description, 8u8),
    );
    let ghost d_reqs = pairs_of(duplicates@).map_values(|d: (Seq<char>, Seq<char>)| (d.0, "duplicate: "@ + d.1, 5u8));
    assert(reqs == s_reqs + c_reqs + d_reqs);
    let q0_len = data.review_queue.len();
    let ns = stale.len();
    for i in 0..ns
        invariant
            ns == stale@.len(),
            s_reqs == pairs_of(stale@).map_values(|s: (Seq<char>, Seq<char>)| (s.0, "stale: "@ + s.1, 7u8)),
            queue_view(data.review_queue@) == enqueue_all(q0, s_reqs.take(i as int), now),
            entries_view(data.knowledge@) == k0,
            links_view(data.links@) == l0,
            data.extraction == x0,
    {
        proof {
            lemma_enqueue_all_grows(q0, s_reqs.take(i as int), now);
            assert(s_reqs.take(i + 1).drop_last() =~= s_reqs.take(i as int));
            assert(s_reqs[i as int] == (stale@[i as int].0@, "stale: "@ + stale@[i as int].1@, 7u8));
        }
        enqueue_one(data, stale[i].0.as_str(), "stale: ", stale[i].1.as_str(), 7, now);
    }
    assert(s_reqs.take(ns as int) =~= s_reqs);
    let nc = conflicts.len();
    for i in 0..nc
        invariant
            nc == conflicts@.len(),
            c_reqs == conflicts_view(conflicts@).map_values(
                |c: ConflictView| (c.uuid_a, "conflict: "@ + c.description, 8u8),
            ),
            queue_view(data.review_queue@) == enqueue_all(q0, s_reqs + c_reqs.take(i as int), now),
            entries_view(data.knowledge@) == k0,
            links_view(data.links@) == l0,
            data.extraction == x0,
    {
        proof {
            lemma_enqueue_all_grows(q0, s_reqs + c_reqs.take(i as int), now);
            assert((s_reqs + c_reqs.take(i + 1)).drop_last() =~= s_reqs + c_reqs.take(i as int));
            assert((s_reqs + c_reqs.take(i + 1)).last() == c_reqs[i as int]);
            assert(c_reqs[i as int] == (conflicts@[i as int].uuid_a@, "conflict: "@ + conflicts@[i as int].description@, 8u8));
        }
        enqueue_one(data, conflicts[i].uuid_a.as_str(), "conflict: ", conflicts[i].description.as_str(), 8, now);
    }
    assert(c_reqs.take(nc as int) =~= c_reqs);
    let nd = duplicates.len();
    for i in 0..nd
        invariant
            nd == duplicates@.len(),
            d_reqs == pairs_of(duplicates@).map_values(|d: (Seq<char>, Seq<char>)| (d.0, "duplicate: "@ + d.1, 5u8)),
            queue_view(data.review_queue@) == enqueue_all(q0, s_reqs + c_reqs + d_reqs.take(i as int), now),
            entries_view(data.knowledge@) == k0,
            links_view(data.links@) == l0,
            data.extraction == x0,
    {
        proof {
            lemma_enqueue_all_grows(q0, s_reqs + c_reqs + d_reqs.take(i as int), now);
            assert((s_reqs + c_reqs + d_reqs.take(i + 1)).drop_last() =~= s_reqs + c_reqs + d_reqs.take(i as int));
            assert((s_reqs + c_reqs + d_reqs.take(i + 1)).last() == d_reqs[i as int]);
            assert(d_reqs[i as int] == (duplicates@[i as int].0@, "duplicate: "@ + duplicates@[i as int].1@, 5u8));
        }
        enqueue_one(data, duplicates[i].0.as_str(), "duplicate: ", duplicates[i].1.as_str(), 5, now);
    }
    assert(d_reqs.take(nd as int) =~= d_reqs);
    proof {
        lemma_enqueue_all_grows(q0, reqs, now);
    }
    data.review_queue.len() - q0_len
}

/// [`refresh_review_queue_at`] at the current time.
pub fn refresh_review_queue(
    data: &mut KodexData,
    stale: &[(String, String)],
    in_band: &[bool],
    duplicates: &[(String, String)],
) -> (r: usize)
    requires
        in_band@.len() == overlap_candidates(entries_view(old(data).knowledge@), old(data).knowledge@.len() as int).len(),
    ensures
        exists|now: u64|
            #[trigger] refreshed(old(data), final(data), stale@, in_band@, duplicates@, now, r),
{
    let now = crate::learn::unix_now();
    let ghost before = *data;
    let r = refresh_review_queue_at(data, stale, in_band, duplicates, now);
    assert(refreshed(&before, data, stale@, in_band@, duplicates@, now, r));
    r
}

/// What [`refresh_review_queue_at`] promises.
pub open spec fn refreshed(
    a: &KodexData,
    b: &KodexData,
    stale: Seq<(String, String)>,
    in_band: Seq<bool>,
    duplicates: Seq<(String, String)>,
    now: u64,
    r: usize,
) -> bool {
    let q0 = queue_view(a.review_queue@);
    let reqs = review_requests(
        pairs_of(stale),
        all_conflicts(entries_view(a.knowledge@), links_view(a.links@), in_band),
        pairs_of(duplicates),
    );
    &&& queue_view(b.review_queue@) == enqueue_all(q0, reqs, now)
    &&& r == enqueue_all(q0, reqs, now).len() - q0.len()
    &&& entries_view(b.knowledge@) == entries_view(a.knowledge@)
    &&& links_view(b.links@) == links_view(a.links@)
    &&& b.extraction == a.extraction
}

} // verus!
