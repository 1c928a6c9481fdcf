//! Staleness of knowledge: which entries lost or changed the code they were
//! learned from, or have not been validated or retrieved for a long time.
use vstd::prelude::*;
use vstd::string::StringExecFns;

use crate::misc::decimal;
use crate::store::{keep_by_flags, node_uuids};
use crate::types::{entries_view, links_view, EntryView, KnowledgeEntry, KnowledgeLink, KodexData, LinkView, Node};

verus! {

/// The status of an entry that is to be reviewed.
pub open spec fn needs_review() -> Seq<char> {
    "needs_review"@
}

/// A finding about one entry: what it is, why, how stale (the fraction
/// `staleness_num / staleness_den`, 0 fully valid, 1 completely stale) and
/// what to do about it.
#[derive(Debug)]
pub struct StaleInfo {
    pub uuid: String,
    pub title: String,
    pub reason: String,
    pub staleness_num: u128,
    pub staleness_den: u128,
    pub action: String,
}

/// The mathematical value of a [`StaleInfo`].
pub struct StaleView {
    pub uuid: Seq<char>,
    pub title: Seq<char>,
    pub reason: Seq<char>,
    pub num: nat,
    pub den: nat,
    pub action: Seq<char>,
}

impl View for StaleInfo {
    type V = StaleView;

    open spec fn view(&self) -> StaleView {
        StaleView {
            uuid: self.uuid@,
            title: self.title@,
            reason: self.reason@,
            num: self.staleness_num as nat,
            den: self.staleness_den as nat,
            action: self.action@,
        }
    }
}

/// The views of a list of findings.
pub open spec fn infos_view(v: Seq<StaleInfo>) -> Seq<StaleView> {
    Seq::new(v.len(), |i: int| v[i]@)
}

/// A finding about entry `e`.
pub open spec fn info(e: EntryView, reason: Seq<char>, num: nat, den: nat, action: Seq<char>) -> StaleView {
    StaleView { uuid: e.uuid, title: e.title, reason, num, den, action }
}

/// A link from entry `u` to a code node (not to another entry).
pub open spec fn node_link(l: LinkView, u: Seq<char>) -> bool {
    l.knowledge_uuid == u && !l.is_knowledge_link()
}

/// The position of the last node with UUID `u`, or -1.
pub open spec fn last_node(ns: Seq<Node>, u: Seq<char>) -> int
    decreases ns.len(),
{
    if ns.len() == 0 {
        -1
    } else if ns.last().uuid matches Some(x) && x@ == u {
        ns.len() - 1
    } else {
        last_node(ns.drop_last(), u)
    }
}

/// The link recorded the body hash of its node, and the node (the last one
/// with that UUID) now has another body hash.
pub open spec fn body_drifted(ns: Seq<Node>, l: LinkView) -> bool {
    let j = last_node(ns, l.node_uuid);
    &&& l.linked_body_hash.len() > 0
    &&& 0 <= j < ns.len()
    &&& ns[j].body_hash matches Some(cur) && cur@ != l.linked_body_hash
}

/// Over the node links of entry `u`: how many there are, how many reach a
/// node that is still there, how many recorded a body hash, and how many of
/// those have drifted.
pub open spec fn link_counts(ls: Seq<LinkView>, u: Seq<char>, ns: Seq<Node>) -> (nat, nat, nat, nat)
    decreases ls.len(),
{
    if ls.len() == 0 {
        (0, 0, 0, 0)
    } else {
        let p = link_counts(ls.drop_last(), u, ns);
        let l = ls.last();
        if node_link(l, u) {
            (
                p.0 + 1,
                p.1 + if node_uuids(ns).contains(l.node_uuid) {
                    1nat
                } else {
                    0nat
                },
                p.2 + if l.linked_body_hash.len() > 0 {
                    1nat
                } else {
                    0nat
                },
                p.3 + if body_drifted(ns, l) {
                    1nat
                } else {
                    0nat
                },
            )
        } else {
            p
        }
    }
}

/// The counts stay within each other and within the number of links.
pub proof fn lemma_link_counts_bounds(ls: Seq<LinkView>, u: Seq<char>, ns: Seq<Node>)
    ensures
        link_counts(ls, u, ns).1 <= link_counts(ls, u, ns).0 <= ls.len(),
        link_counts(ls, u, ns).3 <= link_counts(ls, u, ns).2 <= link_counts(ls, u, ns).0,
    decreases ls.len(),
{
    if ls.len() > 0 {
        lemma_link_counts_bounds(ls.drop_last(), u, ns);
    }
}

/// The entry has not been validated for more than 90 days and has no node
/// links: the finding, when there is one.
pub open spec fn age_finding(e: EntryView, now: u64) -> Option<StaleView> {
    if e.last_validated_at > 0 && now > e.last_validated_at && (now - e.last_validated_at) / 86400 > 90
        && e.status != needs_review() {
        let age = ((now - e.last_validated_at) / 86400) as nat;
        Some(info(e, "Not validated for "@ + decimal(age) + " days"@, 3, 10, "validate or refresh"@))
    } else {
        None
    }
}

/// What the node links of an entry say, given the counts `c` of
/// [`link_counts`] (at least one link): its new status, the finding, and the
/// factor (in thousandths) by which its confidence is to be scaled. All
/// nodes gone: to review; more than half gone: to review; all there but
/// some bodies changed: an advisory finding only, which changes neither the
/// status nor the confidence.
pub open spec fn link_stage(e: EntryView, c: (nat, nat, nat, nat)) -> (Seq<char>, Seq<StaleView>, u32) {
    let total = c.0;
    let gone = (c.0 - c.1) as nat;
    if gone == total {
        if e.status != needs_review() {
            (
                needs_review(),
                seq![info(e, "All "@ + decimal(total) + " linked nodes deleted"@, 1, 1,
                    "review: nodes may have been refactored or removed"@)],
                900,
            )
        } else {
            (e.status, seq![], 1000)
        }
    } else if gone > 0 {
        if 2 * gone > total && e.status == "active"@ {
            (
                needs_review(),
                seq![info(e, decimal(gone) + "/"@ + decimal(total) + " linked nodes deleted"@, 7 * gone,
                    10 * total, "review: partial node loss"@)],
                950,
            )
        } else {
            (e.status, seq![], 1000)
        }
    } else if e.status == "active"@ && c.3 > 0 {
        (
            e.status,
            seq![info(e, decimal(c.3) + "/"@ + decimal(c.2)
                + " linked nodes have changed body since link was created"@, 2 * c.2 + 3 * c.3, 10 * c.2,
                "validate: linked code has changed, knowledge may be outdated"@)],
            1000,
        )
    } else {
        (e.status, seq![], 1000)
    }
}

/// An entry that is still active but has not been retrieved (or, never
/// retrieved, not since it was created) for 90 days or more: the finding.
pub open spec fn retrieval_finding(e: EntryView, status: Seq<char>, now: u64) -> Option<StaleView> {
    let last_seen = if e.last_fetched > 0 {
        e.last_fetched
    } else {
        e.created_at
    };
    if status == "active"@ && last_seen > 0 && now > last_seen && (now - last_seen) / 86400 >= 90 {
        let idle = ((now - last_seen) / 86400) as nat;
        Some(
            info(
                e,
                if e.fetch_count == 0 {
                    "Never retrieved in "@ + decimal(idle) + " days since creation"@
                } else {
                    "Not retrieved in "@ + decimal(idle) + " days (last fetch_count="@ + decimal(
                        e.fetch_count as nat,
                    ) + ")"@
                },
                4,
                10,
                "review: rarely surfaced — still relevant?"@,
            ),
        )
    } else {
        None
    }
}

/// The assessment of one entry, whose node links have the counts `c`: its
/// new status, its findings, and its confidence factor in thousandths.
/// Obsolete entries are left alone.
pub open spec fn stale_entry(e: EntryView, c: (nat, nat, nat, nat), now: u64) -> (Seq<char>, Seq<StaleView>, u32) {
    if e.status == "obsolete"@ {
        (e.status, seq![], 1000)
    } else if c.0 == 0 {
        match age_finding(e, now) {
            Some(x) => (needs_review(), seq![x], 1000),
            None => (e.status, seq![], 1000),
        }
    } else {
        let s = link_stage(e, c);
        match retrieval_finding(e, s.0, now) {
            Some(x) => (needs_review(), s.1.push(x), s.2),
            None => s,
        }
    }
}

/// The assessment of the entries `k` in order: the entries with their new
/// statuses, all findings, the confidence factors, and whether any status
/// changed.
pub open spec fn stale_scan(k: Seq<EntryView>, ls: Seq<LinkView>, ns: Seq<Node>, now: u64) -> (
    Seq<EntryView>,
    Seq<StaleView>,
    Seq<u32>,
    bool,
)
    decreases k.len(),
{
    if k.len() == 0 {
        (seq![], seq![], seq![], false)
    } else {
        let p = stale_scan(k.drop_last(), ls, ns, now);
        let e = k.last();
        let s = stale_entry(e, link_counts(ls, e.uuid, ns), now);
        (p.0.push(EntryView { status: s.0, ..e }), p.1 + s.1, p.2.push(s.2), p.3 || s.0 != e.status)
    }
}

/// A link that stays when dead links are cleaned: it links two entries, or
/// its node is still there.
pub open spec fn link_alive(valid: Set<Seq<char>>) -> spec_fn(LinkView) -> bool {
    |l: LinkView| l.is_knowledge_link() || valid.contains(l.node_uuid)
}

/// What assessing staleness at time `now` does to `a`, giving `b` and the
/// findings and factors `r`: statuses updated, and, when any changed, the
/// links to nodes that are gone removed.
pub open spec fn stale_outcome(a: &KodexData, b: &KodexData, now: u64, r: (Seq<StaleView>, Seq<u32>)) -> bool {
    let s = stale_scan(entries_view(a.knowledge@), links_view(a.links@), a.extraction.nodes@, now);
    &&& entries_view(b.knowledge@) == s.0
    &&& r.0 == s.1
    &&& r.1 == s.2
    &&& links_view(b.links@) == if s.3 {
        links_view(a.links@).filter(link_alive(node_uuids(a.extraction.nodes@)))
    } else {
        links_view(a.links@)
    }
    &&& b.extraction == a.extraction
    &&& b.review_queue == a.review_queue
}

fn last_node_exec(ns: &Vec<Node>, u: &str) -> (r: Option<usize>)
    ensures
        match r {
            Some(j) => j as int == last_node(ns@, u@) && j < ns@.len(),
            None => last_node(ns@, u@) == -1,
        },
{
    let mut j = ns.len();
    assert(ns@.take(j as int) =~= ns@);
    while j > 0
        invariant
            j <= ns@.len(),
            last_node(ns@, u@) == last_node(ns@.take(j as int), u@),
        decreases j,
    {
        let ghost s = ns@.take(j as int);
        assert(s.drop_last() =~= ns@.take(j - 1));
        assert(s.last() == ns@[j - 1]);
        let hit = match &ns[j - 1].uuid {
            Some(x) => crate::text::str_eq(x.as_str(), u),
            None => false,
        };
        if hit {
            return Some(j - 1);
        }
        j = j - 1;
    }
    None
}

fn drifted_exec(ns: &Vec<Node>, l: &KnowledgeLink) -> (r: bool)
    ensures
        r == body_drifted(ns@, l@),
{
    if l.linked_body_hash.as_str().is_empty() {
        return false;
    }
    match last_node_exec(ns, l.node_uuid.as_str()) {
        Some(j) => match &ns[j].body_hash {
            Some(cur) => !crate::text::str_eq(cur.as_str(), l.linked_body_hash.as_str()),
            None => false,
        },
        None => false,
    }
}

fn link_counts_exec(ls: &Vec<KnowledgeLink>, u: &str, ns: &Vec<Node>) -> (r: (usize, usize, usize, usize))
    ensures
        (r.0 as nat, r.1 as nat, r.2 as nat, r.3 as nat) == link_counts(links_view(ls@), u@, ns@),
{
    let ghost lv = links_view(ls@);
    let mut t: usize = 0;
    let mut a: usize = 0;
    let mut c: usize = 0;
    let mut d: usize = 0;
    let n = ls.len();
    assert(lv.take(0) =~= Seq::<LinkView>::empty());
    for i in 0..n
        invariant
            n == ls@.len(),
            lv == links_view(ls@),
            (t as nat, a as nat, c as nat, d as nat) == link_counts(lv.take(i as int), u@, ns@),
    {
        proof {
            lemma_link_counts_bounds(lv.take(i as int), u@, ns@);
            assert(lv.take(i + 1).drop_last() =~= lv.take(i as int));
            assert(lv.take(i + 1).last() == lv[i as int]);
        }
        let l = &ls[i];
        assert(lv[i as int] == l@);
        if crate::text::str_eq(l.knowledge_uuid.as_str(), u) && !l.is_knowledge_link() {
            t = t + 1;
            if crate::store::uuid_present(ns, l.node_uuid.as_str()) {
                a = a + 1;
            }
            if !l.linked_body_hash.as_str().is_empty() {
                c = c + 1;
            }
            if drifted_exec(ns, l) {
                d = d + 1;
            }
        }
    }
    assert(lv.take(n as int) =~= lv);
    (t, a, c, d)
}

fn with_num(s: String, n: u64, tail: &str) -> (r: String)
    ensures
        r@ == s@ + decimal(n as nat) + tail@,
{
    let mut s = s;
    let d = crate::misc::decimal_exec(n);
    s.append(d.as_str());
    s.append(tail);
    s
}

fn finding(e: &KnowledgeEntry, reason: String, num: u128, den: u128, action: &str) -> (r: StaleInfo)
    ensures
        r@ == info(e@, reason@, num as nat, den as nat, action@),
{
    StaleInfo {
        uuid: e.uuid.clone(),
        title: e.title.clone(),
        reason,
        staleness_num: num,
        staleness_den: den,
        action: String::from_str(action),
    }
}

fn push_info(out: &mut Vec<StaleInfo>, x: StaleInfo)
    ensures
        infos_view(final(out)@) == infos_view(old(out)@).push(x@),
{
    out.push(x);
    assert(infos_view(out@) =~= infos_view(old(out)@).push(x@));
}

fn stale_entry_exec(e: &KnowledgeEntry, c: (usize, usize, usize, usize), now: u64, out: &mut Vec<StaleInfo>) -> (r: (
    bool,
    u32,
))
    requires
        c.1 <= c.0,
        c.3 <= c.2 <= c.0,
    ensures
        ({
            let s = stale_entry(e@, (c.0 as nat, c.1 as nat, c.2 as nat, c.3 as nat), now);
            &&& r.0 == (s.0 != e@.status)
            &&& s.0 != e@.status ==> s.0 == needs_review()
            &&& r.1 == s.2
            &&& infos_view(final(out)@) == infos_view(old(out)@) + s.1
        }),
{
    proof {
        reveal_strlit("needs_review");
        reveal_strlit("active");
        reveal_strlit("obsolete");
        assert(needs_review().len() == 12);
        assert("active"@.len() == 6);
        assert(needs_review() != "active"@);
    }
    let ghost cc = (c.0 as nat, c.1 as nat, c.2 as nat, c.3 as nat);
    let ghost o = infos_view(out@);
    if crate::text::str_eq(e.status.as_str(), "obsolete") {
        assert(infos_view(out@) =~= o + Seq::<StaleView>::empty());
        return (false, 1000);
    }
    let nr = crate::text::str_eq(e.status.as_str(), "needs_review");
    let active = crate::text::str_eq(e.status.as_str(), "active");
    if c.0 == 0 {
        if e.last_validated_at > 0 && now > e.last_validated_at && (now - e.last_validated_at) / 86400 > 90 && !nr {
            let age = (now - e.last_validated_at) / 86400;
            let reason = with_num(String::from_str("Not validated for "), age, " days");
            let x = finding(e, reason, 3, 10, "validate or refresh");
            push_info(out, x);
            assert(infos_view(out@) =~= o + seq![x@]);
            return (true, 1000);
        }
        assert(infos_view(out@) =~= o + Seq::<StaleView>::empty());
        return (false, 1000);
    }
    let ghost ls = link_stage(e@, cc);
    let total = c.0;
    let gone = c.0 - c.1;
    let mut changed = false;
    let mut scale: u32 = 1000;
    let mut still_active = active;
    assert(active == (e@.status == "active"@));
    assert(nr == (e@.status == needs_review()));
    if gone == total {
        if !nr {
            let reason = with_num(String::from_str("All "), total as u64, " linked nodes deleted");
            let x = finding(e, reason, 1, 1, "review: nodes may have been refactored or removed");
            push_info(out, x);
            changed = true;
            scale = 900;
            still_active = false;
        }
    } else if gone > 0 {
        if (gone as u128) * 2 > total as u128 && active {
            let head = with_num(String::new(), gone as u64, "/");
            let reason = with_num(head, total as u64, " linked nodes deleted");
            assert(reason@ =~= decimal(gone as nat) + "/"@ + decimal(total as nat) + " linked nodes deleted"@);
            let x = finding(e, reason, 7 * (gone as u128), 10 * (total as u128), "review: partial node loss");
            push_info(out, x);
            changed = true;
            scale = 950;
            still_active = false;
        }
    } else if active && c.3 > 0 {
        let head = with_num(String::new(), c.3 as u64, "/");
        let reason = with_num(head, c.2 as u64, " linked nodes have changed body since link was created");
        assert(reason@ =~= decimal(c.3 as nat) + "/"@ + decimal(c.2 as nat)
            + " linked nodes have changed body since link was created"@);
        let x = finding(
            e,
            reason,
            2 * (c.2 as u128) + 3 * (c.3 as u128),
            10 * (c.2 as u128),
            "validate: linked code has changed, knowledge may be outdated",
        );
        push_info(out, x);
    }
    assert(infos_view(out@) =~= o + ls.1);
    assert(still_active == (ls.0 == "active"@));
    assert(changed == (ls.0 != e@.status));
    assert(scale == ls.2);
    let last_seen = if e.last_fetched > 0 {
        e.last_fetched
    } else {
        e.created_at
    };
    if still_active && last_seen > 0 && now > last_seen && (now - last_seen) / 86400 >= 90 {
        let idle = (now - last_seen) / 86400;
        let reason = if e.fetch_count == 0 {
            with_num(String::from_str("Never retrieved in "), idle, " days since creation")
        } else {
            let head = with_num(String::from_str("Not retrieved in "), idle, " days (last fetch_count=");
            with_num(head, e.fetch_count as u64, ")")
        };
        let x = finding(e, reason, 4, 10, "review: rarely surfaced — still relevant?");
        push_info(out, x);
        assert(infos_view(out@) =~= o + ls.1.push(x@));
        return (true, scale);
    }
    (changed, scale)
}

/// Assess the staleness of every entry at time `now` (see [`stale_scan`]):
/// statuses are updated, and, when any changed, the links to nodes that are
/// gone are removed. Returns the findings, and for each entry the factor in
/// thousandths (1000, 950 or 900) by which its confidence is to be scaled.
pub fn detect_stale_at(data: &mut KodexData, now: u64) -> (r: (Vec<StaleInfo>, Vec<u32>))
    ensures
        stale_outcome(old(data), final(data), now, (infos_view(r.0@), r.1@)),
{
    let ghost k0 = entries_view(data.knowledge@);
    let ghost lv = links_view(data.links@);
    let ghost ns = data.extraction.nodes@;
    let n = data.knowledge.len();
    let mut out: Vec<KnowledgeEntry> = Vec::new();
    let mut infos: Vec<StaleInfo> = Vec::new();
    let mut scales: Vec<u32> = Vec::new();
    let mut changed = false;
    assert(k0.take(0) =~= Seq::<EntryView>::empty());
    assert(entries_view(out@) =~= Seq::<EntryView>::empty());
    assert(infos_view(infos@) =~= Seq::<StaleView>::empty());
    for i in 0..n
        invariant
            n == data.knowledge@.len(),
            k0 == entries_view(data.knowledge@),
            lv == links_view(data.links@),
            ns == data.extraction.nodes@,
            entries_view(out@) == stale_scan(k0.take(i as int), lv, ns, now).0,
            infos_view(infos@) == stale_scan(k0.take(i as int), lv, ns, now).1,
            scales@ == stale_scan(k0.take(i as int), lv, ns, now).2,
            changed == stale_scan(k0.take(i as int), lv, ns, now).3,
    {
        let e = &data.knowledge[i];
        assert(k0[i as int] == e@);
        let c = link_counts_exec(&data.links, e.uuid.as_str(), &data.extraction.nodes);
        proof {
            lemma_link_counts_bounds(lv, e@.uuid, ns);
        }
        let (promote, scale) = stale_entry_exec(e, c, now, &mut infos);
        let mut d = e.duplicate();
        if promote {
            d.status = String::from_str("needs_review");
            changed = true;
        }
        let ghost before = out@;
        out.push(d);
        scales.push(scale);
        proof {
            let s = stale_entry(e@, link_counts(lv, e@.uuid, ns), now);
            assert(d@ == EntryView { status: s.0, ..e@ });
            assert(entries_view(out@) =~= entries_view(before).push(d@));
            assert(k0.take(i + 1).drop_last() =~= k0.take(i as int));
            assert(k0.take(i + 1).last() == k0[i as int]);
        }
    }
    proof {
        assert(k0.take(n as int) =~= k0);
    }
    data.knowledge = out;
    if changed {
        let mut flags: Vec<bool> = Vec::new();
        let m = data.links.len();
        for j in 0..m
            invariant
                m == data.links@.len(),
                lv == links_view(data.links@),
                ns == data.extraction.nodes@,
                flags@.len() == j,
                forall|x: int| 0 <= x < j ==> flags@[x] == link_alive(node_uuids(ns))(#[trigger] lv[x]),
        {
            let l = &data.links[j];
            assert(lv[j as int] == l@);
            let keep = l.is_knowledge_link() || crate::store::uuid_present(&data.extraction.nodes, l.node_uuid.as_str());
            flags.push(keep);
        }
        let ghost before = data.links@;
        crate::store::retain_flags(&mut data.links, &flags);
        proof {
            crate::store::lemma_keep_links_view(before, flags@);
            crate::store::lemma_keep_filter(lv, flags@, link_alive(node_uuids(ns)));
        }
    }
    (infos, scales)
}

/// Assess the staleness of every entry at the current time (see
/// [`detect_stale_at`]).
pub fn detect_stale_detailed(data: &mut KodexData) -> (r: (Vec<StaleInfo>, Vec<u32>))
    ensures
        exists|now: u64| #[trigger] stale_outcome(old(data), final(data), now, (infos_view(r.0@), r.1@)),
{
    let now = crate::learn::unix_now();
    detect_stale_at(data, now)
}

/// Assess the staleness of every entry at the current time and count the
/// findings.
pub fn detect_stale_knowledge(data: &mut KodexData) -> (r: usize)
    ensures
        exists|now: u64, f: (Seq<StaleView>, Seq<u32>)| #[trigger] stale_outcome(old(data), final(data), now, f)
            && r == f.0.len(),
{
    let (infos, scales) = detect_stale_detailed(data);
    assert(stale_outcome(old(data), data, choose|now: u64| stale_outcome(old(data), data, now, (infos_view(infos@), scales@)), (infos_view(infos@), scales@)));
    infos.len()
}

} // verus!
