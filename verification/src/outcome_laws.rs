//! Properties of what queries, merges, chains of thought, conflict checks
//! and relevance signals give back, stated over their inputs and results.
use vstd::prelude::*;

use crate::chain::{
    chain_from, is_chain, lemma_next_link, lemma_on_decreases, next_of, root_from, step_of, thought_steps, unseen_target,
    StepView,
};
use crate::conflicts::{
    all_conflicts, contradiction_conflicts, overlap_candidates, overlap_conflicts, superseded_conflicts, ConflictView,
};
use crate::recall::{found_entries, pts, query_result, rank, rank_keys, tag_holds, words, KnowledgeView};
use crate::seqs::{count_where, entry_pos, lemma_first_where};
use crate::sort::{comes_before, stable_desc_order};
use crate::text::{contains, lowercase};
use crate::types::{entries_view, links_view, EntryView, KodexData, LinkView};

verus! {

// ---------------------------------------------------------------------------
// Queries
// ---------------------------------------------------------------------------

proof fn lemma_one_word_rank(e: EntryView, w: Seq<char>)
    ensures
        rank(e, seq![w]) == pts(contains(lowercase(e.title), w), 2) + pts(contains(lowercase(e.description), w), 1)
            + pts(tag_holds(e.tags, w), 2),
{
    reveal_with_fuel(rank, 2);
    assert(seq![w].drop_last() =~= Seq::<Seq<char>>::empty());
}

/// For a query of one word, an entry whose title or one of whose tags holds
/// the word comes before every entry whose title and tags both lack it: a
/// title or tag hit weighs 2, a description hit only 1.
pub proof fn law_title_or_tag_hit_ranks_above_description_hit(
    data: &KodexData,
    q: Seq<char>,
    tf: Option<Seq<char>>,
    r: Seq<KnowledgeView>,
    w: Seq<char>,
    i: int,
    j: int,
)
    requires
        query_result(data, q, tf, r),
        words(lowercase(q)) == seq![w],
        0 <= i < r.len(),
        0 <= j < r.len(),
        contains(lowercase(r[i].title), w) || tag_holds(r[i].tags, w),
        !contains(lowercase(r[j].title), w),
        !tag_holds(r[j].tags, w),
    ensures
        i < j,
{
    let k = entries_view(data.knowledge@);
    let f = found_entries(k, k, q, tf);
    let ws = words(lowercase(q));
    let keys = rank_keys(f, ws);
    let ls = links_view(data.links@);
    let ord = choose|ord: Seq<usize>|
        #[trigger] stable_desc_order(rank_keys(f, ws), ord) && r.len() == f.len() && forall|x: int|
            0 <= x < r.len() ==> r[x] == crate::recall::as_knowledge(f[ord[x] as int], ls);
    let a = ord[i] as int;
    let b = ord[j] as int;
    assert(r[i] == crate::recall::as_knowledge(f[a], ls));
    assert(r[j] == crate::recall::as_knowledge(f[b], ls));
    lemma_one_word_rank(f[a], w);
    lemma_one_word_rank(f[b], w);
    assert(keys[a] == rank(f[a], ws) as u128);
    assert(keys[b] == rank(f[b], ws) as u128);
    assert(keys[a] >= 2);
    assert(keys[b] <= 1);
    if j < i {
        assert(comes_before(keys, ord[j] as int, ord[i] as int));
    }
}

proof fn lemma_found_members(es: Seq<EntryView>, k: Seq<EntryView>, q: Seq<char>, tf: Option<Seq<char>>)
    ensures
        forall|x: int|
            0 <= x < found_entries(es, k, q, tf).len() ==> crate::recall::found(
                k,
                #[trigger] found_entries(es, k, q, tf)[x],
                q,
                tf,
            ) && es.contains(found_entries(es, k, q, tf)[x]),
    decreases es.len(),
{
    if es.len() > 0 {
        let d = es.drop_last();
        lemma_found_members(d, k, q, tf);
        let p = found_entries(d, k, q, tf);
        let c = found_entries(es, k, q, tf);
        assert forall|x: int| 0 <= x < c.len() implies crate::recall::found(k, #[trigger] c[x], q, tf) && es.contains(
            c[x],
        ) by {
            if x < p.len() {
                assert(c[x] == p[x]);
                let m = choose|m: int| 0 <= m < d.len() && d[m] == p[x];
                assert(es[m] == d[m]);
            } else {
                assert(es[es.len() - 1] == es.last());
            }
        }
    }
}

/// Each result of a query is one of the entries, of the type asked for when
/// there is a filter, and (for a non-empty query) its lower-cased title,
/// description or a tag holds one of the query's words, or the whole
/// lower-cased query when it has no word.
pub proof fn law_query_results_match(
    data: &KodexData,
    q: Seq<char>,
    tf: Option<Seq<char>>,
    r: Seq<KnowledgeView>,
    i: int,
)
    requires
        query_result(data, q, tf, r),
        0 <= i < r.len(),
    ensures
        exists|m: int|
            #![trigger entries_view(data.knowledge@)[m]]
            0 <= m < data.knowledge@.len() && r[i] == crate::recall::as_knowledge(
                entries_view(data.knowledge@)[m],
                links_view(data.links@),
            ) && (tf matches Some(t) ==> entries_view(data.knowledge@)[m].knowledge_type == t) && (q.len() > 0
                ==> if words(lowercase(q)).len() == 0 {
                crate::recall::holds(entries_view(data.knowledge@)[m], lowercase(q))
            } else {
                exists|j: int|
                    0 <= j < words(lowercase(q)).len() && crate::recall::holds(
                        entries_view(data.knowledge@)[m],
                        #[trigger] words(lowercase(q))[j],
                    )
            }),
{
    let k = entries_view(data.knowledge@);
    let f = found_entries(k, k, q, tf);
    let ws = words(lowercase(q));
    let ls = links_view(data.links@);
    let ord = choose|ord: Seq<usize>|
        #[trigger] stable_desc_order(rank_keys(f, ws), ord) && r.len() == f.len() && forall|x: int|
            0 <= x < r.len() ==> r[x] == crate::recall::as_knowledge(f[ord[x] as int], ls);
    let a = ord[i] as int;
    assert(r[i] == crate::recall::as_knowledge(f[a], ls));
    lemma_found_members(k, k, q, tf);
    assert(crate::recall::found(k, f[a], q, tf));
    let m = choose|m: int| 0 <= m < k.len() && k[m] == f[a];
    assert(k[m] == entries_view(data.knowledge@)[m]);
}

// ---------------------------------------------------------------------------
// Merges
// ---------------------------------------------------------------------------

/// How narrow a scope is: `node`, then `file`, `module`, `project`, `repo`,
/// then any other text.
pub open spec fn scope_narrowness(s: Seq<char>) -> int {
    if s == "node"@ {
        5
    } else if s == "file"@ {
        4
    } else if s == "module"@ {
        3
    } else if s == "project"@ {
        2
    } else if s == "repo"@ {
        1
    } else {
        0
    }
}

/// After a merge the keeper has the narrower of the two entries' scopes (the
/// keeper's own when they are equally narrow).
pub proof fn law_merge_keeps_narrower_scope(
    a: &KodexData,
    b: &KodexData,
    keep: Seq<char>,
    ab: Seq<char>,
    now: u64,
    n: u32,
)
    requires
        crate::learn::merge_outcome(a, b, keep, ab, now, Ok(n)),
    ensures
        ({
            let k = entries_view(a.knowledge@);
            let kb = entries_view(b.knowledge@);
            let ki = entry_pos(k, keep);
            let ai = entry_pos(k, ab);
            &&& 0 <= ki < kb.len()
            &&& kb[ki].uuid == keep
            &&& kb[ki].scope == k[ki].scope || kb[ki].scope == k[ai].scope
            &&& scope_narrowness(kb[ki].scope) >= scope_narrowness(k[ki].scope)
            &&& scope_narrowness(kb[ki].scope) >= scope_narrowness(k[ai].scope)
            &&& scope_narrowness(k[ai].scope) <= scope_narrowness(k[ki].scope) ==> kb[ki].scope == k[ki].scope
        }),
{
    let k = entries_view(a.knowledge@);
    let ki = entry_pos(k, keep);
    let ai = entry_pos(k, ab);
    lemma_first_where(k, |e: EntryView| e.uuid == keep);
    lemma_first_where(k, |e: EntryView| e.uuid == ab);
    reveal_strlit("node");
    reveal_strlit("file");
    reveal_strlit("module");
    reveal_strlit("project");
    reveal_strlit("repo");
}

/// A merge of two different entries (whose observation counts fit in `u32`
/// together, as a merge requires) adds the absorbed entry's observations to
/// the keeper's and returns them, marks the absorbed entry obsolete and
/// superseded by the keeper, and leaves every other entry as it was.
pub proof fn law_merge_absorbs_into_keeper(
    a: &KodexData,
    b: &KodexData,
    keep: Seq<char>,
    ab: Seq<char>,
    now: u64,
    n: u32,
)
    requires
        crate::learn::merge_fits(entries_view(a.knowledge@), keep, ab),
        crate::learn::merge_outcome(a, b, keep, ab, now, Ok(n)),
        keep != ab,
    ensures
        ({
            let k = entries_view(a.knowledge@);
            let kb = entries_view(b.knowledge@);
            let ki = entry_pos(k, keep);
            let ai = entry_pos(k, ab);
            &&& kb.len() == k.len()
            &&& 0 <= ki < k.len() && 0 <= ai < k.len() && ki != ai
            &&& n == k[ai].observations
            &&& kb[ki].uuid == keep && kb[ki].observations == k[ki].observations + k[ai].observations
            &&& kb[ki].status == k[ki].status && kb[ki].updated_at == now
            &&& kb[ai].uuid == ab && kb[ai].status == "obsolete"@ && kb[ai].superseded_by == keep
            &&& forall|m: int| 0 <= m < k.len() && m != ki && m != ai ==> #[trigger] kb[m] == k[m]
        }),
{
    let k = entries_view(a.knowledge@);
    lemma_first_where(k, |e: EntryView| e.uuid == keep);
    lemma_first_where(k, |e: EntryView| e.uuid == ab);
}

// ---------------------------------------------------------------------------
// Relevance
// ---------------------------------------------------------------------------

/// The age behind an entry's recency counts from the latest of its
/// validation, update and creation times. It is unknown exactly when none of
/// them is set or one lies after `now`; otherwise it is the whole days since
/// one of them and no more than the days since any of them, so validating an
/// entry never makes it look older.
pub proof fn law_recency_counts_from_latest_activity(
    r: crate::relevance::RelevanceSignals,
    e: EntryView,
    related: Seq<Seq<char>>,
    nodes: Seq<Seq<char>>,
    touched: nat,
    names: Seq<Seq<char>>,
    tokens: Seq<Seq<char>>,
    project: Seq<char>,
    now: u64,
)
    requires
        crate::relevance::signals_of(r, e, related, nodes, touched, names, tokens, project, now),
    ensures
        r.age_days is None <==> ((e.last_validated_at == 0 && e.updated_at == 0 && e.created_at == 0)
            || now < e.last_validated_at || now < e.updated_at || now < e.created_at),
        r.age_days matches Some(d) ==> {
            &&& d <= (now - e.last_validated_at) / 86400
            &&& d <= (now - e.updated_at) / 86400
            &&& d <= (now - e.created_at) / 86400
        },
        r.age_days matches Some(d) ==> d == (now - e.last_validated_at) / 86400 || d == (now - e.updated_at)
            / 86400 || d == (now - e.created_at) / 86400,
{
    let la = crate::relevance::last_active(e);
    if la > 0 && now >= la {
        let x = now - la;
        vstd::arithmetic::div_mod::lemma_div_is_ordered(x, now - e.last_validated_at, 86400);
        vstd::arithmetic::div_mod::lemma_div_is_ordered(x, now - e.updated_at, 86400);
        vstd::arithmetic::div_mod::lemma_div_is_ordered(x, now - e.created_at, 86400);
        vstd::arithmetic::div_mod::lemma_div_is_ordered(0, x, 86400);
    }
}

/// For one task, of two entries whose ages are known the fresher never gets
/// fewer recency points; points lie between -10 and 10 and are 0 when the
/// age is unknown.
pub proof fn law_fresher_entry_gets_no_fewer_recency_points(
    r1: crate::relevance::RelevanceSignals,
    e1: EntryView,
    related1: Seq<Seq<char>>,
    r2: crate::relevance::RelevanceSignals,
    e2: EntryView,
    related2: Seq<Seq<char>>,
    nodes: Seq<Seq<char>>,
    touched: nat,
    names: Seq<Seq<char>>,
    tokens: Seq<Seq<char>>,
    project: Seq<char>,
    now: u64,
)
    requires
        crate::relevance::signals_of(r1, e1, related1, nodes, touched, names, tokens, project, now),
        crate::relevance::signals_of(r2, e2, related2, nodes, touched, names, tokens, project, now),
    ensures
        -10 <= r1.recency_points <= 10,
        r1.age_days is None ==> r1.recency_points == 0,
        (r1.age_days matches Some(d1) && r2.age_days matches Some(d2) && d1 <= d2) ==> r1.recency_points
            >= r2.recency_points,
{
}

// ---------------------------------------------------------------------------
// Conflicts
// ---------------------------------------------------------------------------

proof fn lemma_superseded_named(k: Seq<EntryView>, upto: int)
    ensures
        forall|x: int|
            0 <= x < superseded_conflicts(k, upto).len() ==> exists|i: int|
                0 <= i < k.len() && k[i].uuid == (#[trigger] superseded_conflicts(k, upto)[x]).uuid_a
                    && k[i].title == superseded_conflicts(k, upto)[x].title_a && k[i].status != "obsolete"@
                    && k[i].superseded_by.len() > 0 && k[i].superseded_by == superseded_conflicts(k, upto)[x].uuid_b
                    && superseded_conflicts(k, upto)[x].conflict_type == "superseded_not_obsolete"@,
    decreases upto,
{
    if !(upto <= 0 || upto > k.len()) {
        lemma_superseded_named(k, upto - 1);
        let p = superseded_conflicts(k, upto - 1);
        let c = superseded_conflicts(k, upto);
        let e = k[upto - 1];
        let s = entry_pos(k, e.superseded_by);
        lemma_first_where(k, |v: EntryView| v.uuid == e.superseded_by);
        assert forall|x: int| 0 <= x < c.len() implies exists|i: int|
            0 <= i < k.len() && k[i].uuid == (#[trigger] c[x]).uuid_a && k[i].title == c[x].title_a
                && k[i].status != "obsolete"@ && k[i].superseded_by.len() > 0 && k[i].superseded_by
                == c[x].uuid_b && c[x].conflict_type == "superseded_not_obsolete"@ by {
            if x < p.len() {
                assert(c[x] == p[x]);
            } else {
                assert(k[upto - 1] == e);
            }
        }
    }
}

/// Conflict `c` comes from a `contradicts` link of `ls` between two active
/// entries of `k`.
pub open spec fn from_contradiction(k: Seq<EntryView>, ls: Seq<LinkView>, c: ConflictView) -> bool {
    &&& c.conflict_type == "contradiction"@
    &&& exists|l: int|
        0 <= l < ls.len() && (#[trigger] ls[l]).is_knowledge_link() && ls[l].relation == "contradicts"@
            && ls[l].knowledge_uuid == c.uuid_a && ls[l].node_uuid == c.uuid_b
    &&& exists|i: int| 0 <= i < k.len() && (#[trigger] k[i]).uuid == c.uuid_a && k[i].status == "active"@
    &&& exists|j: int| 0 <= j < k.len() && (#[trigger] k[j]).uuid == c.uuid_b && k[j].status == "active"@
}

proof fn lemma_contradictions_typed(k: Seq<EntryView>, ls: Seq<LinkView>)
    ensures
        forall|x: int|
            0 <= x < contradiction_conflicts(k, ls).len() ==> from_contradiction(
                k,
                ls,
                #[trigger] contradiction_conflicts(k, ls)[x],
            ),
    decreases ls.len(),
{
    if ls.len() > 0 {
        let q = ls.drop_last();
        lemma_contradictions_typed(k, q);
        let p = contradiction_conflicts(k, q);
        let c = contradiction_conflicts(k, ls);
        let l = ls.last();
        lemma_first_where(k, |e: EntryView| e.uuid == l.knowledge_uuid);
        lemma_first_where(k, |e: EntryView| e.uuid == l.node_uuid);
        assert forall|x: int| 0 <= x < c.len() implies from_contradiction(k, ls, #[trigger] c[x]) by {
            if x < p.len() {
                assert(c[x] == p[x]);
                assert(from_contradiction(k, q, p[x]));
                let m = choose|m: int|
                    0 <= m < q.len() && (#[trigger] q[m]).is_knowledge_link() && q[m].relation == "contradicts"@
                        && q[m].knowledge_uuid == p[x].uuid_a && q[m].node_uuid == p[x].uuid_b;
                assert(ls[m] == q[m]);
            } else {
                assert(ls[ls.len() - 1] == l);
            }
        }
    }
}

proof fn lemma_overlaps_typed(k: Seq<EntryView>, cands: Seq<(int, int)>, in_band: Seq<bool>)
    ensures
        forall|x: int|
            0 <= x < overlap_conflicts(k, cands, in_band).len() ==> (#[trigger] overlap_conflicts(
                k,
                cands,
                in_band,
            )[x]).conflict_type == "scope_overlap"@,
    decreases cands.len(),
{
    if cands.len() > 0 {
        lemma_overlaps_typed(k, cands.drop_last(), in_band);
        let p = overlap_conflicts(k, cands.drop_last(), in_band);
        let c = overlap_conflicts(k, cands, in_band);
        assert forall|x: int| 0 <= x < c.len() implies (#[trigger] c[x]).conflict_type == "scope_overlap"@ by {
            if x < p.len() {
                assert(c[x] == p[x]);
            }
        }
    }
}

/// A `superseded_not_obsolete` conflict names an entry that is not obsolete,
/// with its title, and whose successor is the conflict's other entry.
pub proof fn law_superseded_conflict_names_live_entry(
    data: &KodexData,
    in_band: Seq<bool>,
    r: Seq<ConflictView>,
    x: int,
)
    requires
        r == all_conflicts(entries_view(data.knowledge@), links_view(data.links@), in_band),
        0 <= x < r.len(),
        r[x].conflict_type == "superseded_not_obsolete"@,
    ensures
        exists|i: int|
            0 <= i < data.knowledge@.len() && (#[trigger] entries_view(data.knowledge@)[i]).uuid == r[x].uuid_a
                && entries_view(data.knowledge@)[i].title == r[x].title_a && entries_view(data.knowledge@)[i].status
                != "obsolete"@ && entries_view(data.knowledge@)[i].superseded_by.len() > 0
                && entries_view(data.knowledge@)[i].superseded_by == r[x].uuid_b,
{
    let k = entries_view(data.knowledge@);
    let ls = links_view(data.links@);
    let s1 = superseded_conflicts(k, k.len() as int);
    let s2 = contradiction_conflicts(k, ls);
    let s3 = overlap_conflicts(k, overlap_candidates(k, k.len() as int), in_band);
    lemma_superseded_named(k, k.len() as int);
    lemma_contradictions_typed(k, ls);
    lemma_overlaps_typed(k, overlap_candidates(k, k.len() as int), in_band);
    reveal_strlit("superseded_not_obsolete");
    reveal_strlit("contradiction");
    reveal_strlit("scope_overlap");
    if x < s1.len() {
        assert(r[x] == s1[x]);
        let i = choose|i: int|
            0 <= i < k.len() && k[i].uuid == (#[trigger] s1[x]).uuid_a && k[i].title == s1[x].title_a
                && k[i].status != "obsolete"@ && k[i].superseded_by.len() > 0 && k[i].superseded_by == s1[x].uuid_b
                && s1[x].conflict_type == "superseded_not_obsolete"@;
        assert(k[i] == entries_view(data.knowledge@)[i]);
    } else if x < s1.len() + s2.len() {
        assert(r[x] == s2[x - s1.len()]);
        assert(from_contradiction(k, ls, s2[x - s1.len()]));
        assert(("contradiction"@).len() != ("superseded_not_obsolete"@).len());
    } else {
        assert(r[x] == s3[x - s1.len() - s2.len()]);
        assert(s3[x - s1.len() - s2.len()].conflict_type == "scope_overlap"@);
        assert(("scope_overlap"@).len() != ("superseded_not_obsolete"@).len());
    }
}

proof fn lemma_superseded_complete(k: Seq<EntryView>, upto: int, i: int)
    requires
        0 <= i < upto <= k.len(),
        k[i].superseded_by.len() > 0,
        k[i].status != "obsolete"@,
        exists|j: int| 0 <= j < k.len() && (#[trigger] k[j]).uuid == k[i].superseded_by,
    ensures
        exists|x: int|
            0 <= x < superseded_conflicts(k, upto).len() && (#[trigger] superseded_conflicts(k, upto)[x]).conflict_type
                == "superseded_not_obsolete"@ && superseded_conflicts(k, upto)[x].uuid_a == k[i].uuid
                && superseded_conflicts(k, upto)[x].uuid_b == k[i].superseded_by,
    decreases upto,
{
    let p = superseded_conflicts(k, upto - 1);
    let c = superseded_conflicts(k, upto);
    if i < upto - 1 {
        lemma_superseded_complete(k, upto - 1, i);
        let x = choose|x: int|
            0 <= x < p.len() && (#[trigger] p[x]).conflict_type == "superseded_not_obsolete"@ && p[x].uuid_a
                == k[i].uuid && p[x].uuid_b == k[i].superseded_by;
        assert(c[x] == p[x]);
    } else {
        let e = k[i];
        lemma_first_where(k, |v: EntryView| v.uuid == e.superseded_by);
        let j = choose|j: int| 0 <= j < k.len() && (#[trigger] k[j]).uuid == e.superseded_by;
        assert((|v: EntryView| v.uuid == e.superseded_by)(k[j]));
        assert(c[p.len() as int].uuid_a == k[i].uuid);
    }
}

/// Every entry that has a successor among the entries but is not obsolete is
/// reported as `superseded_not_obsolete`, with that successor.
pub proof fn law_live_superseded_entry_is_reported(data: &KodexData, in_band: Seq<bool>, r: Seq<ConflictView>, i: int)
    requires
        r == all_conflicts(entries_view(data.knowledge@), links_view(data.links@), in_band),
        0 <= i < data.knowledge@.len(),
        entries_view(data.knowledge@)[i].superseded_by.len() > 0,
        entries_view(data.knowledge@)[i].status != "obsolete"@,
        exists|j: int|
            0 <= j < data.knowledge@.len() && (#[trigger] entries_view(data.knowledge@)[j]).uuid == entries_view(
                data.knowledge@,
            )[i].superseded_by,
    ensures
        exists|x: int|
            0 <= x < r.len() && (#[trigger] r[x]).conflict_type == "superseded_not_obsolete"@ && r[x].uuid_a
                == entries_view(data.knowledge@)[i].uuid && r[x].uuid_b == entries_view(data.knowledge@)[i].superseded_by,
{
    let k = entries_view(data.knowledge@);
    let s1 = superseded_conflicts(k, k.len() as int);
    lemma_superseded_complete(k, k.len() as int, i);
    let x = choose|x: int|
        0 <= x < s1.len() && (#[trigger] s1[x]).conflict_type == "superseded_not_obsolete"@ && s1[x].uuid_a == k[i].uuid
            && s1[x].uuid_b == k[i].superseded_by;
    assert(r[x] == s1[x]);
}

/// A `contradiction` conflict comes from a `contradicts` link between two
/// entries that are both active.
pub proof fn law_contradiction_joins_active_entries(data: &KodexData, in_band: Seq<bool>, r: Seq<ConflictView>, x: int)
    requires
        r == all_conflicts(entries_view(data.knowledge@), links_view(data.links@), in_band),
        0 <= x < r.len(),
        r[x].conflict_type == "contradiction"@,
    ensures
        from_contradiction(entries_view(data.knowledge@), links_view(data.links@), r[x]),
{
    let k = entries_view(data.knowledge@);
    let ls = links_view(data.links@);
    let s1 = superseded_conflicts(k, k.len() as int);
    let s2 = contradiction_conflicts(k, ls);
    let s3 = overlap_conflicts(k, overlap_candidates(k, k.len() as int), in_band);
    lemma_superseded_named(k, k.len() as int);
    lemma_contradictions_typed(k, ls);
    lemma_overlaps_typed(k, overlap_candidates(k, k.len() as int), in_band);
    reveal_strlit("superseded_not_obsolete");
    reveal_strlit("contradiction");
    reveal_strlit("scope_overlap");
    if x < s1.len() {
        assert(r[x] == s1[x]);
        assert(s1[x].conflict_type == "superseded_not_obsolete"@) by {
            let i = choose|i: int|
                0 <= i < k.len() && k[i].uuid == (#[trigger] s1[x]).uuid_a && k[i].title == s1[x].title_a
                    && k[i].status != "obsolete"@ && k[i].superseded_by.len() > 0 && k[i].superseded_by == s1[x].uuid_b
                    && s1[x].conflict_type == "superseded_not_obsolete"@;
        }
        assert(("contradiction"@).len() != ("superseded_not_obsolete"@).len());
    } else if x < s1.len() + s2.len() {
        assert(r[x] == s2[x - s1.len()]);
    } else {
        assert(r[x] == s3[x - s1.len() - s2.len()]);
        assert(s3[x - s1.len() - s2.len()].conflict_type == "scope_overlap"@);
        assert(("contradiction"@)[0] != ("scope_overlap"@)[0]);
    }
}

// ---------------------------------------------------------------------------
// Chains of thought
// ---------------------------------------------------------------------------

/// One of the relations that carry a chain of thought on: `leads_to`,
/// `because`, `resolved_by`, `therefore`, `implies`.
pub open spec fn thought_relation(r: Seq<char>) -> bool {
    r == "leads_to"@ || r == "because"@ || r == "resolved_by"@ || r == "therefore"@ || r == "implies"@
}

/// A link of `ls` leaves entry `u` for another entry with a relation that
/// carries a chain of thought on.
pub open spec fn thought_link_from(ls: Seq<LinkView>, j: int, u: Seq<char>) -> bool {
    0 <= j < ls.len() && ls[j].is_knowledge_link() && ls[j].knowledge_uuid == u && thought_relation(ls[j].relation)
}

proof fn lemma_next_exists(ls: Seq<LinkView>, u: Seq<char>, j: int)
    requires
        0 <= j < ls.len(),
        is_chain(ls[j]),
        ls[j].knowledge_uuid == u,
    ensures
        next_of(ls, u) is Some,
    decreases ls.len(),
{
    if !(is_chain(ls.last()) && ls.last().knowledge_uuid == u) {
        assert(j < ls.len() - 1);
        assert(ls.drop_last()[j] == ls[j]);
        lemma_next_exists(ls.drop_last(), u, j);
    }
}

proof fn lemma_next_from(ls: Seq<LinkView>, u: Seq<char>)
    ensures
        next_of(ls, u) matches Some(p) ==> exists|j: int|
            0 <= j < ls.len() && is_chain(#[trigger] ls[j]) && ls[j].knowledge_uuid == u && ls[j].node_uuid == p.0
                && ls[j].relation == p.1,
    decreases ls.len(),
{
    if ls.len() > 0 && !(is_chain(ls.last()) && ls.last().knowledge_uuid == u) {
        lemma_next_from(ls.drop_last(), u);
        if let Some(p) = next_of(ls, u) {
            let j = choose|j: int|
                0 <= j < ls.drop_last().len() && is_chain(#[trigger] ls.drop_last()[j]) && ls.drop_last()[j].knowledge_uuid
                    == u && ls.drop_last()[j].node_uuid == p.0 && ls.drop_last()[j].relation == p.1;
            assert(ls[j] == ls.drop_last()[j]);
        }
    }
}

proof fn lemma_chain_shape(ls: Seq<LinkView>, cur: Seq<char>, seen: Set<Seq<char>>)
    ensures
        chain_from(ls, cur, seen).len() >= 1,
        chain_from(ls, cur, seen)[0] == cur,
        forall|i: int|
            0 <= i < chain_from(ls, cur, seen).len() - 1 ==> (next_of(ls, #[trigger] chain_from(ls, cur, seen)[i]) matches Some(
                p,
            ) && p.0 == chain_from(ls, cur, seen)[i + 1]),
        next_of(ls, chain_from(ls, cur, seen).last()) matches Some(p) ==> seen.contains(p.0) || chain_from(
            ls,
            cur,
            seen,
        ).contains(p.0),
    decreases count_where(ls, unseen_target(seen)),
{
    let c = chain_from(ls, cur, seen);
    match next_of(ls, cur) {
        Some((n, _)) => {
            if !seen.contains(n) {
                lemma_next_link(ls, cur);
                lemma_on_decreases(ls, seen, n);
                lemma_chain_shape(ls, n, seen.insert(n));
                let t = chain_from(ls, n, seen.insert(n));
                assert(c == seq![cur] + t);
                assert forall|i: int| 0 <= i < c.len() - 1 implies (next_of(ls, #[trigger] c[i]) matches Some(p)
                    && p.0 == c[i + 1]) by {
                    if i > 0 {
                        assert(c[i] == t[i - 1]);
                        assert(c[i + 1] == t[i]);
                    }
                }
                assert(c.last() == t.last());
                if let Some(p) = next_of(ls, c.last()) {
                    if t.contains(p.0) {
                        let m = choose|m: int| 0 <= m < t.len() && t[m] == p.0;
                        assert(c[m + 1] == t[m]);
                    } else if p.0 == n {
                        assert(c[1] == t[0]);
                    }
                }
            }
        },
        None => {},
    }
}

/// Links whose relation is one of `leads_to`, `because`, `resolved_by`,
/// `therefore` and `implies` carry a chain of thought on. Every step with
/// such a link leaving it has a relation to the next step, one of those
/// five; each step but the last is followed by the target of such a link
/// from it, with that relation; and the chain ends only at a step whose
/// next link points back into the chain.
pub proof fn law_chain_follows_thought_links(data: &KodexData, u: Seq<char>, r: Seq<StepView>)
    requires
        r == thought_steps(data, u),
    ensures
        r.len() >= 1,
        forall|i: int, j: int|
            0 <= i < r.len() && #[trigger] thought_link_from(links_view(data.links@), j, r[i].uuid)
                ==> r[i].relation_to_next is Some,
        forall|i: int|
            0 <= i < r.len() ==> ((#[trigger] r[i]).relation_to_next matches Some(rel) ==> thought_relation(rel)),
        forall|i: int|
            0 <= i < r.len() - 1 ==> ((#[trigger] r[i]).relation_to_next matches Some(rel) && exists|j: int|
                thought_link_from(links_view(data.links@), j, r[i].uuid) && links_view(data.links@)[j].node_uuid
                    == r[i + 1].uuid && links_view(data.links@)[j].relation == rel),
        r.last().relation_to_next matches Some(rel) ==> exists|j: int, m: int|
            #![trigger thought_link_from(links_view(data.links@), j, r.last().uuid), r[m]]
            thought_link_from(links_view(data.links@), j, r.last().uuid) && links_view(data.links@)[j].relation == rel
                && 0 <= m < r.len() && r[m].uuid == links_view(data.links@)[j].node_uuid,
{
    let ls = links_view(data.links@);
    let k = entries_view(data.knowledge@);
    let root = root_from(ls, u, set![u]);
    let c = chain_from(ls, root, set![root]);
    lemma_chain_shape(ls, root, set![root]);
    assert(r.len() == c.len());
    assert forall|i: int| 0 <= i < r.len() implies (#[trigger] r[i]).uuid == c[i] && r[i].relation_to_next == match next_of(
        ls,
        c[i],
    ) {
        Some((_, rel)) => Some(rel),
        None => None,
    } by {
        assert(r[i] == step_of(k, ls, c[i]));
    }
    assert forall|i: int, j: int|
        0 <= i < r.len() && #[trigger] thought_link_from(ls, j, r[i].uuid) implies r[i].relation_to_next is Some by {
        lemma_next_exists(ls, c[i], j);
    }
    assert forall|i: int| 0 <= i < r.len() implies ((#[trigger] r[i]).relation_to_next matches Some(rel)
        ==> thought_relation(rel)) by {
        lemma_next_from(ls, c[i]);
    }
    assert forall|i: int| 0 <= i < r.len() - 1 implies ((#[trigger] r[i]).relation_to_next matches Some(rel)
        && exists|j: int| thought_link_from(ls, j, r[i].uuid) && ls[j].node_uuid == r[i + 1].uuid && ls[j].relation
        == rel) by {
        lemma_next_from(ls, c[i]);
        let p = next_of(ls, c[i])->0;
        let j = choose|j: int|
            0 <= j < ls.len() && is_chain(#[trigger] ls[j]) && ls[j].knowledge_uuid == c[i] && ls[j].node_uuid == p.0
                && ls[j].relation == p.1;
        assert(thought_link_from(ls, j, r[i].uuid));
    }
    let z = r.len() - 1;
    assert(r.last() == r[z]);
    lemma_next_from(ls, c[z]);
    if let Some(p) = next_of(ls, c[z]) {
        let j = choose|j: int|
            0 <= j < ls.len() && is_chain(#[trigger] ls[j]) && ls[j].knowledge_uuid == c[z] && ls[j].node_uuid == p.0
                && ls[j].relation == p.1;
        assert(thought_link_from(ls, j, r[z].uuid));
        assert(c.last() == c[z]);
        let m = if p.0 == root {
            0
        } else {
            choose|m: int| 0 <= m < c.len() && c[m] == p.0
        };
        assert(r[m].uuid == c[m]);
    }
}

} // verus!
