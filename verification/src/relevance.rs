//! The whole-number signals of how relevant a knowledge entry is to a task:
//! linked code in scope, touched files it mentions, its scope, the query
//! words it matches, its type, how recently its content changed, its project,
//! and the reasons shown for them. The weighted score built from these and
//! from the entry's confidence is computed by the caller.
use vstd::prelude::*;
use vstd::string::StringExecFns;

use crate::misc::{decimal, decimal_exec};
use crate::seqs::count_where;
use crate::text::{contains, lowercase, str_eq};
use crate::types::{strings_view, EntryView, KnowledgeEntry};

verus! {

/// The signals of one entry.
pub struct RelevanceSignals {
    /// How many of the task's node UUIDs the entry is linked to.
    pub node_overlap: usize,
    /// The entry mentions one of the touched file names.
    pub file_mention: bool,
    /// Points for the entry's scope: 10 for `file` or `node`, 5 for `module`
    /// (only when files were touched).
    pub scope_points: u32,
    /// How many query tokens its lower-cased `applies_when` holds.
    pub applies_when_matches: usize,
    /// How many query tokens its lower-cased title or description holds.
    pub keyword_matches: usize,
    /// Points for its type: 5, 3, 2 or 0.
    pub type_points: u32,
    /// Days since its content last changed, when known.
    pub age_days: Option<u64>,
    /// Points for that age: 10, 5, 0, -5 or -10 (0 when unknown).
    pub recency_points: i32,
    /// It belongs to the current project.
    pub project_match: bool,
    /// It waits for review, which halves its score.
    pub needs_review: bool,
    /// Why it is shown.
    pub reasons: Vec<String>,
}

/// The number of `nodes` that `related` holds.
pub open spec fn overlap_count(nodes: Seq<Seq<char>>, related: Seq<Seq<char>>) -> nat {
    count_where(nodes, |u: Seq<char>| related.contains(u))
}

/// Some tag of `tags` holds `f`.
pub open spec fn tag_holds_text(tags: Seq<Seq<char>>, f: Seq<char>) -> bool {
    exists|i: int| 0 <= i < tags.len() && contains(#[trigger] tags[i], f)
}

/// The entry's title, description or a tag holds the file name `f`.
pub open spec fn mentions_file(e: EntryView, f: Seq<char>) -> bool {
    contains(e.title, f) || contains(e.description, f) || tag_holds_text(e.tags, f)
}

/// The entry mentions one of the file names.
pub open spec fn mentions_any(e: EntryView, names: Seq<Seq<char>>) -> bool {
    exists|i: int| 0 <= i < names.len() && mentions_file(e, #[trigger] names[i])
}

/// Points for the entry's scope.
pub open spec fn scope_points_of(e: EntryView, touched: nat) -> u32 {
    if e.scope.len() > 0 && touched > 0 {
        if e.scope == "file"@ || e.scope == "node"@ {
            10
        } else if e.scope == "module"@ {
            5
        } else {
            0
        }
    } else {
        0
    }
}

/// How many tokens `applies_when` (lower-cased) holds; 0 when it is empty.
pub open spec fn applies_when_count(e: EntryView, tokens: Seq<Seq<char>>) -> nat {
    if e.applies_when.len() > 0 {
        count_where(tokens, |t: Seq<char>| contains(lowercase(e.applies_when), t))
    } else {
        0
    }
}

/// How many tokens the lower-cased title or description holds.
pub open spec fn keyword_count(e: EntryView, tokens: Seq<Seq<char>>) -> nat {
    count_where(tokens, |t: Seq<char>| contains(lowercase(e.title), t) || contains(lowercase(e.description), t))
}

/// Points for the entry's type.
pub open spec fn type_points_of(t: Seq<char>) -> u32 {
    if t == "bug_pattern"@ || t == "convention"@ || t == "coupling"@ {
        5
    } else if t == "pattern"@ || t == "decision"@ || t == "lesson"@ {
        3
    } else if t == "architecture"@ || t == "domain"@ {
        2
    } else {
        0
    }
}

/// The latest of the entry's validation, update and creation times.
pub open spec fn last_active(e: EntryView) -> u64 {
    let a = if e.last_validated_at >= e.updated_at {
        e.last_validated_at
    } else {
        e.updated_at
    };
    if a >= e.created_at {
        a
    } else {
        e.created_at
    }
}

/// Days since the entry's content last changed, when it ever did and not
/// in the future.
pub open spec fn age_of(e: EntryView, now: u64) -> Option<u64> {
    let la = last_active(e);
    if la > 0 && now >= la {
        Some(((now - la) / 86400) as u64)
    } else {
        None
    }
}

/// Points for an age in days.
pub open spec fn recency_of(age: Option<u64>) -> i32 {
    match age {
        Some(d) => if d < 7 {
            10i32
        } else if d < 30 {
            5i32
        } else if d < 90 {
            0i32
        } else if d < 180 {
            -5i32
        } else {
            -10i32
        },
        None => 0i32,
    }
}

/// The entry belongs to `project`: it has the tag `project:<name>`, its
/// description holds the name, or its lower-cased title holds the
/// lower-cased name.
pub open spec fn project_matches(e: EntryView, project: Seq<char>) -> bool {
    project.len() > 0 && (e.tags.contains("project:"@ + project) || contains(e.description, project) || contains(
        lowercase(e.title),
        lowercase(project),
    ))
}

/// `r` followed by `x` when `c` holds.
pub open spec fn add_if(r: Seq<Seq<char>>, c: bool, x: Seq<char>) -> Seq<Seq<char>> {
    if c {
        r.push(x)
    } else {
        r
    }
}

/// The reasons shown, in order; `high confidence` when there is none.
pub open spec fn reasons_of(
    e: EntryView,
    scope_pts: u32,
    overlap: nat,
    mention: bool,
    aw: nat,
    kw: nat,
    age: Option<u64>,
    project: bool,
) -> Seq<Seq<char>> {
    let r1 = add_if(seq![], e.fetch_count > 5, "retrieved "@ + decimal(e.fetch_count as nat) + "\u{d7} before"@);
    let r2 = add_if(r1, overlap > 0, "linked to code in scope"@);
    let r3 = add_if(r2, mention, "mentions touched file"@);
    let r4 = add_if(r3, scope_pts == 10, "file/node-scoped"@);
    let r5 = add_if(r4, aw > 0, "applies_when match"@);
    let r6 = add_if(r5, kw > 0, "matches query"@);
    let rc = recency_of(age);
    let r7 = add_if(r6, rc > 0, "recently active"@);
    let r8 = match age {
        Some(d) => add_if(r7, rc < 0, "stale ("@ + decimal(d as nat) + "d since activity)"@),
        None => r7,
    };
    let r9 = add_if(r8, project, "same project"@);
    let r10 = add_if(r9, e.status == "needs_review"@, "needs_review penalty"@);
    if r10.len() == 0 {
        seq!["high confidence"@]
    } else {
        r10
    }
}

/// What [`relevance_signals`] promises.
pub open spec fn signals_of(
    r: RelevanceSignals,
    e: EntryView,
    related: Seq<Seq<char>>,
    nodes: Seq<Seq<char>>,
    touched: nat,
    names: Seq<Seq<char>>,
    tokens: Seq<Seq<char>>,
    project: Seq<char>,
    now: u64,
) -> bool {
    &&& r.node_overlap == overlap_count(nodes, related)
    &&& r.file_mention == mentions_any(e, names)
    &&& r.scope_points == scope_points_of(e, touched)
    &&& r.applies_when_matches == applies_when_count(e, tokens)
    &&& r.keyword_matches == keyword_count(e, tokens)
    &&& r.type_points == type_points_of(e.knowledge_type)
    &&& r.age_days == age_of(e, now)
    &&& r.recency_points == recency_of(age_of(e, now))
    &&& r.project_match == project_matches(e, project)
    &&& r.needs_review == (e.status == "needs_review"@)
    &&& strings_view(r.reasons@) == reasons_of(
        e,
        scope_points_of(e, touched),
        overlap_count(nodes, related),
        mentions_any(e, names),
        applies_when_count(e, tokens),
        keyword_count(e, tokens),
        age_of(e, now),
        project_matches(e, project),
    )
}

fn overlap_exec(nodes: &[String], related: &[String]) -> (r: usize)
    ensures
        r as nat == overlap_count(strings_view(nodes@), strings_view(related@)),
{
    let ghost nv = strings_view(nodes@);
    let ghost p = |u: Seq<char>| strings_view(related@).contains(u);
    let mut c: usize = 0;
    let n = nodes.len();
    for i in 0..n
        invariant
            n == nodes@.len(),
            nv == strings_view(nodes@),
            p == (|u: Seq<char>| strings_view(related@).contains(u)),
            c as nat == count_where(nv.take(i as int), p),
            c <= i,
    {
        proof {
            crate::seqs::lemma_count_where_step(nv, p, i as int);
        }
        if crate::learning::contains_str(related, nodes[i].as_str()) {
            c = c + 1;
        }
    }
    assert(nv.take(n as int) =~= nv);
    c
}

fn tag_holds_exec(tags: &[String], f: &[char]) -> (r: bool)
    ensures
        r == tag_holds_text(strings_view(tags@), f@),
{
    let n = tags.len();
    for i in 0..n
        invariant
            n == tags@.len(),
            forall|j: int| 0 <= j < i ==> !contains(#[trigger] strings_view(tags@)[j], f@),
    {
        let t = crate::text::str_chars(tags[i].as_str());
        if crate::text::contains_exec(t.as_slice(), f) {
            assert(contains(strings_view(tags@)[i as int], f@));
            return true;
        }
    }
    false
}

fn mentions_exec(e: &KnowledgeEntry, names: &[String]) -> (r: bool)
    ensures
        r == mentions_any(e@, strings_view(names@)),
{
    let title = crate::text::str_chars(e.title.as_str());
    let desc = crate::text::str_chars(e.description.as_str());
    let ghost ev = e@;
    let ghost nv = strings_view(names@);
    let n = names.len();
    for i in 0..n
        invariant
            n == names@.len(),
            nv == strings_view(names@),
            ev == e@,
            title@ == ev.title,
            desc@ == ev.description,
            forall|j: int| 0 <= j < i ==> !mentions_file(ev, #[trigger] nv[j]),
    {
        let f = crate::text::str_chars(names[i].as_str());
        assert(f@ == nv[i as int]);
        if crate::text::contains_exec(title.as_slice(), f.as_slice()) || crate::text::contains_exec(
            desc.as_slice(),
            f.as_slice(),
        ) || tag_holds_exec(e.tags.as_slice(), f.as_slice()) {
            assert(mentions_file(ev, nv[i as int]));
            return true;
        }
    }
    false
}

fn token_count(a: &[char], b: &[char], tokens: &[String], Ghost(pa): Ghost<Seq<char>>, Ghost(pb): Ghost<Seq<char>>) -> (r: usize)
    requires
        a@ == pa,
        b@ == pb,
    ensures
        r as nat == count_where(strings_view(tokens@), |t: Seq<char>| contains(pa, t) || contains(pb, t)),
{
    let ghost tv = strings_view(tokens@);
    let ghost p = |t: Seq<char>| contains(pa, t) || contains(pb, t);
    let mut c: usize = 0;
    let n = tokens.len();
    for i in 0..n
        invariant
            n == tokens@.len(),
            tv == strings_view(tokens@),
            a@ == pa,
            b@ == pb,
            p == (|t: Seq<char>| contains(pa, t) || contains(pb, t)),
            c as nat == count_where(tv.take(i as int), p),
            c <= i,
    {
        proof {
            crate::seqs::lemma_count_where_step(tv, p, i as int);
        }
        let t = crate::text::str_chars(tokens[i].as_str());
        assert(t@ == tv[i as int]);
        if crate::text::contains_exec(a, t.as_slice()) || crate::text::contains_exec(b, t.as_slice()) {
            c = c + 1;
        }
    }
    assert(tv.take(n as int) =~= tv);
    c
}

fn type_points_exec(t: &str) -> (r: u32)
    ensures
        r == type_points_of(t@),
{
    if str_eq(t, "bug_pattern") || str_eq(t, "convention") || str_eq(t, "coupling") {
        5
    } else if str_eq(t, "pattern") || str_eq(t, "decision") || str_eq(t, "lesson") {
        3
    } else if str_eq(t, "architecture") || str_eq(t, "domain") {
        2
    } else {
        0
    }
}

fn push_reason(r: &mut Vec<String>, c: bool, x: String)
    ensures
        strings_view(final(r)@) == add_if(strings_view(old(r)@), c, x@),
{
    if c {
        let ghost before = r@;
        r.push(x);
        assert(strings_view(r@) =~= strings_view(before).push(x@));
    }
}

fn with_num(head: &str, n: u64, tail: &str) -> (r: String)
    ensures
        r@ == head@ + decimal(n as nat) + tail@,
{
    let mut s = String::from_str(head);
    s.append(decimal_exec(n).as_str());
    s.append(tail);
    s
}

#[verifier::rlimit(50)]
fn reasons_exec(
    e: &KnowledgeEntry,
    scope_points: u32,
    node_overlap: usize,
    file_mention: bool,
    applies_when_matches: usize,
    keyword_matches: usize,
    age_days: Option<u64>,
    project_match: bool,
) -> (r: Vec<String>)
    ensures
        strings_view(r@) == reasons_of(
            e@,
            scope_points,
            node_overlap as nat,
            file_mention,
            applies_when_matches as nat,
            keyword_matches as nat,
            age_days,
            project_match,
        ),
{
    let recency_points: i32 = match age_days {
        Some(d) => if d < 7 {
            10
        } else if d < 30 {
            5
        } else if d < 90 {
            0
        } else if d < 180 {
            -5
        } else {
            -10
        },
        None => 0,
    };
    assert(recency_points == recency_of(age_days));
    let needs_review = crate::text::str_eq(e.status.as_str(), "needs_review");
    let mut reasons: Vec<String> = Vec::new();
    push_reason(&mut reasons, e.fetch_count > 5, with_num("retrieved ", e.fetch_count as u64, "\u{d7} before"));
    push_reason(&mut reasons, node_overlap > 0, String::from_str("linked to code in scope"));
    push_reason(&mut reasons, file_mention, String::from_str("mentions touched file"));
    push_reason(&mut reasons, scope_points == 10, String::from_str("file/node-scoped"));
    push_reason(&mut reasons, applies_when_matches > 0, String::from_str("applies_when match"));
    push_reason(&mut reasons, keyword_matches > 0, String::from_str("matches query"));
    push_reason(&mut reasons, recency_points > 0, String::from_str("recently active"));
    match age_days {
        Some(d) => push_reason(&mut reasons, recency_points < 0, with_num("stale (", d, "d since activity)")),
        None => {},
    }
    push_reason(&mut reasons, project_match, String::from_str("same project"));
    push_reason(&mut reasons, needs_review, String::from_str("needs_review penalty"));
    assert(strings_view(reasons@).len() == reasons@.len());
    if reasons.len() == 0 {
        reasons.push(String::from_str("high confidence"));
        assert(strings_view(reasons@) =~= seq!["high confidence"@]);
    }
    reasons
}

/// The whole-number relevance signals of entry `e` for a task (see
/// [`signals_of`]): `related` are the node UUIDs the entry is linked to,
/// `nodes` the task's node UUIDs (each once), `touched` the number of
/// touched files and `names` their file names, `tokens` the lower-case
/// query tokens, `project` the current project's name, `now` the time.
pub fn relevance_signals(
    e: &KnowledgeEntry,
    related: &[String],
    nodes: &[String],
    touched: usize,
    names: &[String],
    tokens: &[String],
    project: &str,
    now: u64,
) -> (r: RelevanceSignals)
    ensures
        signals_of(
            r,
            e@,
            strings_view(related@),
            strings_view(nodes@),
            touched as nat,
            strings_view(names@),
            strings_view(tokens@),
            project@,
            now,
        ),
{
    let ghost ev = e@;
    let node_overlap = overlap_exec(nodes, related);
    let file_mention = mentions_exec(e, names);
    let scope_points: u32 = if !e.scope.as_str().is_empty() && touched > 0 {
        if crate::text::str_eq(e.scope.as_str(), "file") || crate::text::str_eq(e.scope.as_str(), "node") {
            10
        } else if crate::text::str_eq(e.scope.as_str(), "module") {
            5
        } else {
            0
        }
    } else {
        0
    };
    let aw = crate::text::str_chars(crate::text::to_lower(e.applies_when.as_str()).as_str());
    let applies_when_matches = if !e.applies_when.as_str().is_empty() {
        let n = token_count(aw.as_slice(), aw.as_slice(), tokens, Ghost(aw@), Ghost(aw@));
        proof {
            let p1 = |t: Seq<char>| contains(aw@, t) || contains(aw@, t);
            let p2 = |t: Seq<char>| contains(lowercase(ev.applies_when), t);
            assert(p1 =~= p2);
        }
        n
    } else {
        0
    };
    let lt = crate::text::str_chars(crate::text::to_lower(e.title.as_str()).as_str());
    let ld = crate::text::str_chars(crate::text::to_lower(e.description.as_str()).as_str());
    let keyword_matches = token_count(lt.as_slice(), ld.as_slice(), tokens, Ghost(lt@), Ghost(ld@));
    let type_points = type_points_exec(e.knowledge_type.as_str());
    let a = if e.last_validated_at >= e.updated_at {
        e.last_validated_at
    } else {
        e.updated_at
    };
    let la = if a >= e.created_at {
        a
    } else {
        e.created_at
    };
    let age_days: Option<u64> = if la > 0 && now >= la {
        Some((now - la) / 86400)
    } else {
        None
    };
    let recency_points: i32 = match age_days {
        Some(d) => if d < 7 {
            10
        } else if d < 30 {
            5
        } else if d < 90 {
            0
        } else if d < 180 {
            -5
        } else {
            -10
        },
        None => 0,
    };
    let project_match = if !project.is_empty() {
        let tag = with_num_free(project);
        let pd = crate::text::str_chars(project);
        let desc = crate::text::str_chars(e.description.as_str());
        let lp = crate::text::str_chars(crate::text::to_lower(project).as_str());
        crate::learning::contains_str(e.tags.as_slice(), tag.as_str()) || crate::text::contains_exec(
            desc.as_slice(),
            pd.as_slice(),
        ) || crate::text::contains_exec(lt.as_slice(), lp.as_slice())
    } else {
        false
    };
    let needs_review = crate::text::str_eq(e.status.as_str(), "needs_review");
    let reasons = reasons_exec(e, scope_points, node_overlap, file_mention, applies_when_matches, keyword_matches, age_days, project_match);
    assert(scope_points == scope_points_of(ev, touched as nat));
    assert(applies_when_matches == applies_when_count(ev, strings_view(tokens@)));
    assert(type_points == type_points_of(ev.knowledge_type));
    assert(age_days == age_of(ev, now));
    assert(recency_points == recency_of(age_of(ev, now)));
    assert(project_match == project_matches(ev, project@));
    assert(keyword_matches == keyword_count(ev, strings_view(tokens@)));
    assert(node_overlap == overlap_count(strings_view(nodes@), strings_view(related@)));
    assert(needs_review == (ev.status == "needs_review"@));
    assert(file_mention == mentions_any(ev, strings_view(names@)));
    RelevanceSignals {
        node_overlap,
        file_mention,
        scope_points,
        applies_when_matches,
        keyword_matches,
        type_points,
        age_days,
        recency_points,
        project_match,
        needs_review,
        reasons,
    }
}

fn with_num_free(project: &str) -> (r: String)
    ensures
        r@ == "project:"@ + project@,
{
    let mut s = String::from_str("project:");
    s.append(project);
    s
}

} // verus!
