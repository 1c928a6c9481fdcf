//! Recommended actions from recalled knowledge and conflicts: rules to
//! follow, hazards to watch, conflicts to resolve, highest priority first.
use vstd::prelude::*;
use vstd::string::StringExecFns;

use crate::conflicts::KnowledgeConflict;
use crate::learning::first_line;
use crate::sort::stable_desc_order;
use crate::text::str_eq;

verus! {

/// A recalled entry, with its confidence in whole percent.
pub struct RecallItem {
    pub uuid: String,
    pub title: String,
    pub knowledge_type: String,
    pub description: String,
    pub confidence_pct: u32,
}

/// A recommended action based on knowledge.
#[derive(Debug)]
pub struct Recommendation {
    pub action: String,
    pub reason: String,
    pub knowledge_uuid: String,
    pub priority: u8,
    pub category: String,
}

/// The text of a recommendation: action, reason, entry, priority, category.
pub type RecView = (Seq<char>, Seq<char>, Seq<char>, u8, Seq<char>);

/// The mathematical value of a [`Recommendation`].
pub open spec fn rec_view(r: Recommendation) -> RecView {
    (r.action@, r.reason@, r.knowledge_uuid@, r.priority, r.category@)
}

/// The views of a list of recommendations.
pub open spec fn recs_view(v: Seq<Recommendation>) -> Seq<RecView> {
    Seq::new(v.len(), |i: int| rec_view(v[i]))
}

/// The recommendations that one recalled entry gives, by its type, for a
/// task of type `task`.
pub open spec fn item_recs(it: RecallItem, task: Seq<char>) -> Seq<RecView> {
    let t = it.knowledge_type@;
    let title = it.title@;
    let u = it.uuid@;
    let why = first_line(it.description@);
    if t == "convention"@ {
        seq![("Follow: "@ + title, why, u, if it.confidence_pct > 80 { 9u8 } else { 7u8 }, "rule"@)]
    } else if t == "bug_pattern"@ {
        let watch = seq![("Watch for: "@ + title, why, u, 9u8, "hazard"@)];
        if task == "bugfix"@ || task == "review"@ {
            watch.push(
                (
                    "Add test for: "@ + title,
                    "Known bug pattern \u{2014} regression test recommended"@,
                    u,
                    8u8,
                    "test"@,
                ),
            )
        } else {
            watch
        }
    } else if t == "coupling"@ {
        seq![("Check coupling: "@ + title, why, u, 8u8, "coupling"@)]
    } else if t == "decision"@ {
        if task == "refactor"@ {
            seq![("Respect decision: "@ + title, why, u, 7u8, "constraint"@)]
        } else {
            seq![]
        }
    } else if t == "architecture"@ {
        seq![("Architecture: "@ + title, why, u, 6u8, "constraint"@)]
    } else if t == "tech_debt"@ && task == "refactor"@ {
        seq![("Opportunity: address "@ + title, why, u, 5u8, "opportunity"@)]
    } else if t == "performance"@ {
        seq![("Perf: watch "@ + title, why, u, 6u8, "hazard"@)]
    } else {
        seq![]
    }
}

/// The recommendations of the recalled entries, in order.
pub open spec fn items_recs(its: Seq<RecallItem>, task: Seq<char>) -> Seq<RecView>
    decreases its.len(),
{
    if its.len() == 0 {
        seq![]
    } else {
        items_recs(its.drop_last(), task) + item_recs(its.last(), task)
    }
}

/// The recommendation to resolve a conflict.
pub open spec fn conflict_rec(c: KnowledgeConflict) -> RecView {
    ("Resolve conflict: "@ + c.title_a@ + " vs "@ + c.title_b@, c.description@, c.uuid_a@, 10u8, "conflict"@)
}

/// All recommendations before ordering: the entries', then the conflicts'.
pub open spec fn all_recs(its: Seq<RecallItem>, cs: Seq<KnowledgeConflict>, task: Seq<char>) -> Seq<RecView> {
    items_recs(its, task) + Seq::new(cs.len(), |i: int| conflict_rec(cs[i]))
}

/// The priorities of a list of recommendations, as sort keys.
pub open spec fn priorities(v: Seq<RecView>) -> Seq<u128> {
    Seq::new(v.len(), |i: int| v[i].3 as u128)
}

fn rec(action: String, reason: String, uuid: &String, priority: u8, category: &str) -> (r: Recommendation)
    ensures
        rec_view(r) == (action@, reason@, uuid@, priority, category@),
{
    Recommendation {
        action,
        reason,
        knowledge_uuid: uuid.clone(),
        priority,
        category: String::from_str(category),
    }
}

fn prefixed(head: &str, s: &String) -> (r: String)
    ensures
        r@ == head@ + s@,
{
    let mut out = String::from_str(head);
    out.append(s.as_str());
    out
}

fn push_rec(out: &mut Vec<Recommendation>, r: Recommendation)
    ensures
        recs_view(final(out)@) == recs_view(old(out)@).push(rec_view(r)),
{
    let ghost before = out@;
    out.push(r);
    assert(recs_view(out@) =~= recs_view(before).push(rec_view(r)));
}

fn item_recs_exec(out: &mut Vec<Recommendation>, it: &RecallItem, task: &str)
    ensures
        recs_view(final(out)@) == recs_view(old(out)@) + item_recs(*it, task@),
{
    let ghost start = recs_view(out@);
    let t = it.knowledge_type.as_str();
    let desc = crate::text::str_chars(it.description.as_str());
    let why = crate::text::chars_to_string(crate::learning::first_line_exec(desc.as_slice()).as_slice());
    if str_eq(t, "convention") {
        let p: u8 = if it.confidence_pct > 80 {
            9
        } else {
            7
        };
        push_rec(out, rec(prefixed("Follow: ", &it.title), why, &it.uuid, p, "rule"));
    } else if str_eq(t, "bug_pattern") {
        push_rec(out, rec(prefixed("Watch for: ", &it.title), why, &it.uuid, 9, "hazard"));
        if str_eq(task, "bugfix") || str_eq(task, "review") {
            push_rec(
                out,
                rec(
                    prefixed("Add test for: ", &it.title),
                    String::from_str("Known bug pattern \u{2014} regression test recommended"),
                    &it.uuid,
                    8,
                    "test",
                ),
            );
        }
    } else if str_eq(t, "coupling") {
        push_rec(out, rec(prefixed("Check coupling: ", &it.title), why, &it.uuid, 8, "coupling"));
    } else if str_eq(t, "decision") {
        if str_eq(task, "refactor") {
            push_rec(out, rec(prefixed("Respect decision: ", &it.title), why, &it.uuid, 7, "constraint"));
        }
    } else if str_eq(t, "architecture") {
        push_rec(out, rec(prefixed("Architecture: ", &it.title), why, &it.uuid, 6, "constraint"));
    } else if str_eq(t, "tech_debt") && str_eq(task, "refactor") {
        push_rec(out, rec(prefixed("Opportunity: address ", &it.title), why, &it.uuid, 5, "opportunity"));
    } else if str_eq(t, "performance") {
        push_rec(out, rec(prefixed("Perf: watch ", &it.title), why, &it.uuid, 6, "hazard"));
    }
    assert(recs_view(out@) =~= start + item_recs(*it, task@));
}

fn rec_copy(r: &Recommendation) -> (c: Recommendation)
    ensures
        rec_view(c) == rec_view(*r),
{
    Recommendation {
        action: r.action.clone(),
        reason: r.reason.clone(),
        knowledge_uuid: r.knowledge_uuid.clone(),
        priority: r.priority,
        category: r.category.clone(),
    }
}

/// Recommended actions for a task of type `task` (see [`all_recs`]): from
/// each recalled entry by its type, then one per conflict, ordered by
/// descending priority, equal priorities in that order.
pub fn compute_recommendations(recalled: &Vec<RecallItem>, conflicts: &Vec<KnowledgeConflict>, task: &str) -> (r: Vec<
    Recommendation,
>)
    ensures
        exists|ord: Seq<usize>|
            #[trigger] stable_desc_order(priorities(all_recs(recalled@, conflicts@, task@)), ord) && recs_view(r@)
                == Seq::new(ord.len(), |i: int| all_recs(recalled@, conflicts@, task@)[ord[i] as int]),
{
    let mut all: Vec<Recommendation> = Vec::new();
    let n = recalled.len();
    for i in 0..n
        invariant
            n == recalled@.len(),
            recs_view(all@) == items_recs(recalled@.take(i as int), task@),
    {
        assert(recalled@.take(i + 1).drop_last() =~= recalled@.take(i as int));
        assert(recalled@.take(i + 1).last() == recalled@[i as int]);
        item_recs_exec(&mut all, &recalled[i], task);
    }
    assert(recalled@.take(n as int) =~= recalled@);
    let ghost base = recs_view(all@);
    let m = conflicts.len();
    for j in 0..m
        invariant
            m == conflicts@.len(),
            recs_view(all@) == base + Seq::new(j as nat, |q: int| conflict_rec(conflicts@[q])),
    {
        let c = &conflicts[j];
        let mut action = prefixed("Resolve conflict: ", &c.title_a);
        action.append(" vs ");
        action.append(c.title_b.as_str());
        push_rec(&mut all, rec(action, c.description.clone(), &c.uuid_a, 10, "conflict"));
        assert(recs_view(all@) =~= base + Seq::new((j + 1) as nat, |q: int| conflict_rec(conflicts@[q])));
    }
    let ghost av = recs_view(all@);
    assert(av =~= all_recs(recalled@, conflicts@, task@));
    let mut keys: Vec<u128> = Vec::new();
    let k = all.len();
    for i in 0..k
        invariant
            k == all@.len(),
            av == recs_view(all@),
            keys@ =~= priorities(av).take(i as int),
    {
        keys.push(all[i].priority as u128);
    }
    assert(keys@ =~= priorities(av));
    let ord = crate::sort::stable_order_desc(&keys);
    let mut out: Vec<Recommendation> = Vec::new();
    for i in 0..k
        invariant
            k == all@.len(),
            av == recs_view(all@),
            ord@.len() == k,
            stable_desc_order(priorities(av), ord@),
            recs_view(out@) =~= Seq::new(i as nat, |q: int| av[ord@[q] as int]),
    {
        let p = ord[i];
        assert(p < k);
        push_rec(&mut out, rec_copy(&all[p]));
        assert(recs_view(out@) =~= Seq::new((i + 1) as nat, |q: int| av[ord@[q] as int]));
    }
    out
}

} // verus!
