//! The knowledge store's rules: updating, validating, linking, merging and
//! reviewing knowledge entries held in a [`KodexData`].
use vstd::prelude::*;

use crate::seqs::{entry_pos, find_entry, first_where, has_link, link_exists, lemma_first_where};
use crate::types::{
    entries_view, links_view, queue_view, EntryView, KnowledgeEntry, KnowledgeLink, KodexData,
    KodexError, LinkView, Node, ReviewQueueItem, ReviewView, FULL_CONFIDENCE_BITS,
};

verus! {

/// The current Unix time in seconds (std's system clock).
#[verifier::external_body]
pub(crate) fn unix_now() -> u64 {
    std::time::SystemTime::now().duration_since(std::time::UNIX_EPOCH).map(|d| d.as_secs()).unwrap_or(0)
}

// ---------------------------------------------------------------------------
// Code-node snapshots
// ---------------------------------------------------------------------------

/// The text of an optional string, empty for `None`.
pub open spec fn opt_view(o: Option<String>) -> Seq<char> {
    match o {
        Some(s) => s@,
        None => seq![],
    }
}

/// The position of the first node whose UUID is `u`, or -1.
pub open spec fn node_pos(nodes: Seq<Node>, u: Seq<char>) -> int {
    first_where(nodes, |n: Node| n.uuid matches Some(x) && x@ == u)
}

/// The body hash of the node with UUID `u` (empty when there is none).
pub open spec fn node_body_hash(nodes: Seq<Node>, u: Seq<char>) -> Seq<char> {
    let i = node_pos(nodes, u);
    if i < 0 {
        seq![]
    } else {
        opt_view(nodes[i].body_hash)
    }
}

/// The logical key of the node with UUID `u` (empty when there is none).
pub open spec fn node_logical_key(nodes: Seq<Node>, u: Seq<char>) -> Seq<char> {
    let i = node_pos(nodes, u);
    if i < 0 {
        seq![]
    } else {
        opt_view(nodes[i].logical_key)
    }
}

pub(crate) fn opt_clone(o: &Option<String>) -> (r: String)
    ensures
        r@ == opt_view(*o),
{
    match o {
        Some(s) => s.clone(),
        None => String::new(),
    }
}

/// The body hash and logical key of the node with UUID `u`, for a link
/// snapshot.
pub fn node_snapshot(nodes: &Vec<Node>, u: &str) -> (r: (String, String))
    ensures
        r.0@ == node_body_hash(nodes@, u@),
        r.1@ == node_logical_key(nodes@, u@),
{
    let ghost p = |n: Node| n.uuid matches Some(x) && x@ == u@;
    let len = nodes.len();
    for i in 0..len
        invariant
            len == nodes@.len(),
            p == (|n: Node| n.uuid matches Some(x) && x@ == u@),
            forall|j: int| 0 <= j < i ==> !p(#[trigger] nodes@[j]),
    {
        let hit = match &nodes[i].uuid {
            Some(x) => crate::text::str_eq(x.as_str(), u),
            None => false,
        };
        if hit {
            proof {
                crate::seqs::lemma_first_where_is(nodes@, p, i as int);
            }
            return (opt_clone(&nodes[i].body_hash), opt_clone(&nodes[i].logical_key));
        }
    }
    proof {
        crate::seqs::lemma_first_where_is(nodes@, p, -1);
    }
    (String::new(), String::new())
}

// ---------------------------------------------------------------------------
// Updates
// ---------------------------------------------------------------------------

/// Partial update fields for update_knowledge.
#[derive(Debug)]
pub struct KnowledgeUpdates {
    pub status: Option<String>,
    pub scope: Option<String>,
    pub applies_when: Option<String>,
    pub superseded_by: Option<String>,
    pub validate: bool,
}

impl KnowledgeUpdates {
    /// No field changes.
    pub fn none() -> (r: KnowledgeUpdates)
        ensures
            r.status is None,
            r.scope is None,
            r.applies_when is None,
            r.superseded_by is None,
            !r.validate,
    {
        KnowledgeUpdates {
            status: None,
            scope: None,
            applies_when: None,
            superseded_by: None,
            validate: false,
        }
    }
}

/// The text of an optional string field, or `None`.
pub open spec fn opt_seq(o: Option<String>) -> Option<Seq<char>> {
    match o {
        Some(s) => Some(s@),
        None => None,
    }
}

/// The update names a successor entry (a non-empty `superseded_by`).
pub open spec fn sets_successor(upd: KnowledgeUpdates) -> bool {
    upd.superseded_by matches Some(sb) && sb@.len() > 0
}

/// The update changes something.
pub open spec fn changes_something(upd: KnowledgeUpdates) -> bool {
    upd.status is Some || upd.scope is Some || upd.applies_when is Some || sets_successor(upd)
        || upd.validate
}

/// The entry after the field updates of `upd`, made at time `now`.
pub open spec fn updated_entry(e: EntryView, upd: KnowledgeUpdates, now: u64) -> EntryView {
    let e1 = match opt_seq(upd.status) {
        Some(s) => EntryView { status: s, ..e },
        None => e,
    };
    let e2 = match opt_seq(upd.scope) {
        Some(s) => EntryView { scope: s, ..e1 },
        None => e1,
    };
    let e3 = match opt_seq(upd.applies_when) {
        Some(s) => EntryView { applies_when: s, ..e2 },
        None => e2,
    };
    let e4 = if sets_successor(upd) {
        EntryView { superseded_by: opt_view(upd.superseded_by), status: "obsolete"@, ..e3 }
    } else {
        e3
    };
    let e5 = if upd.validate {
        EntryView { last_validated_at: now, ..e4 }
    } else {
        e4
    };
    if changes_something(upd) {
        EntryView { updated_at: now, ..e5 }
    } else {
        e5
    }
}

/// `k` after the entry with UUID `sb` records `old` in `supersedes`, unless it
/// already records something there (or no entry has UUID `sb`).
pub open spec fn with_back_reference(
    k: Seq<EntryView>,
    sb: Seq<char>,
    old: Seq<char>,
    now: u64,
) -> Seq<EntryView> {
    let j = entry_pos(k, sb);
    if j >= 0 && k[j].supersedes.len() == 0 {
        k.update(j, EntryView { supersedes: old, updated_at: now, ..k[j] })
    } else {
        k
    }
}

/// The knowledge after a successful [`update_knowledge_at`].
pub open spec fn spec_update_knowledge(
    k: Seq<EntryView>,
    u: Seq<char>,
    upd: KnowledgeUpdates,
    now: u64,
) -> Seq<EntryView> {
    let t = entry_pos(k, u);
    let k1 = k.update(t, updated_entry(k[t], upd, now));
    if sets_successor(upd) {
        with_back_reference(k1, opt_view(upd.superseded_by), u, now)
    } else {
        k1
    }
}

/// The links, queue and code graph of `a` and `b` are the same.
pub open spec fn same_except_knowledge(a: &KodexData, b: &KodexData) -> bool {
    &&& links_view(a.links@) == links_view(b.links@)
    &&& queue_view(a.review_queue@) == queue_view(b.review_queue@)
    &&& a.extraction == b.extraction
}

/// Nothing in the store changed.
pub open spec fn unchanged(a: &KodexData, b: &KodexData) -> bool {
    &&& same_except_knowledge(a, b)
    &&& entries_view(a.knowledge@) == entries_view(b.knowledge@)
}

pub(crate) proof fn lemma_update_view(k: Seq<KnowledgeEntry>, i: int, e: KnowledgeEntry)
    requires
        0 <= i < k.len(),
    ensures
        entries_view(k.update(i, e)) == entries_view(k).update(i, e@),
{
    assert(entries_view(k.update(i, e)) =~= entries_view(k).update(i, e@));
}

/// What [`update_knowledge_at`] promises of the store before (`a`) and after
/// (`b`) the call, given its result `r`.
pub open spec fn update_outcome(
    a: &KodexData,
    b: &KodexData,
    knowledge_uuid: Seq<char>,
    updates: KnowledgeUpdates,
    now: u64,
    r: Result<bool, KodexError>,
) -> bool {
    let k = entries_view(a.knowledge@);
    let t = entry_pos(k, knowledge_uuid);
    match r {
        Ok(decays) => {
            &&& t >= 0
            &&& (sets_successor(updates) ==> entry_pos(k, opt_view(updates.superseded_by)) >= 0)
            &&& decays == sets_successor(updates)
            &&& entries_view(b.knowledge@) == spec_update_knowledge(k, knowledge_uuid, updates, now)
            &&& same_except_knowledge(a, b)
        },
        Err(KodexError::UuidNotFound(x)) => {
            &&& t == -1
            &&& x@ == knowledge_uuid
            &&& unchanged(a, b)
        },
        Err(KodexError::SupersededByNotFound(x)) => {
            &&& t >= 0
            &&& sets_successor(updates)
            &&& x@ == opt_view(updates.superseded_by)
            &&& entry_pos(k, x@) == -1
            &&& unchanged(a, b)
        },
        Err(_) => false,
    }
}

/// Update specific fields of the entry with UUID `knowledge_uuid` at time
/// `now`.
///
/// A non-empty `superseded_by` must name an existing entry; it marks the entry
/// obsolete and writes the back-reference `supersedes` on the successor when
/// that is still empty. The result is `Ok(true)` exactly when the entry's
/// confidence is to decay (by the factor 0.7), which is when a successor was
/// set.
pub fn update_knowledge_at(
    data: &mut KodexData,
    knowledge_uuid: &str,
    updates: &KnowledgeUpdates,
    now: u64,
) -> (r: Result<bool, KodexError>)
    ensures
        update_outcome(old(data), final(data), knowledge_uuid@, *updates, now, r),
{
    let ghost k0 = entries_view(data.knowledge@);
    proof {
        lemma_first_where(k0, |e: EntryView| e.uuid == knowledge_uuid@);
    }
    let t = match find_entry(&data.knowledge, knowledge_uuid) {
        Some(t) => t,
        None => {
            return Err(KodexError::UuidNotFound(String::from_str(knowledge_uuid)));
        },
    };
    let mut successor: Option<String> = None;
    match &updates.superseded_by {
        Some(sb) => {
            if !sb.as_str().is_empty() {
                match find_entry(&data.knowledge, sb.as_str()) {
                    Some(_) => {
                        successor = Some(sb.clone());
                    },
                    None => {
                        return Err(KodexError::SupersededByNotFound(sb.clone()));
                    },
                }
            }
        },
        None => {},
    }
    assert(successor is Some == sets_successor(*updates));
    let mut e = data.knowledge[t].duplicate();
    let mut changed = false;
    match &updates.status {
        Some(s) => {
            e.status = s.clone();
            changed = true;
        },
        None => {},
    }
    match &updates.scope {
        Some(s) => {
            e.scope = s.clone();
            changed = true;
        },
        None => {},
    }
    match &updates.applies_when {
        Some(s) => {
            e.applies_when = s.clone();
            changed = true;
        },
        None => {},
    }
    match &successor {
        Some(sb) => {
            e.superseded_by = sb.clone();
            e.status = String::from_str("obsolete");
            changed = true;
        },
        None => {},
    }
    if updates.validate {
        e.last_validated_at = now;
        changed = true;
    }
    if changed {
        e.updated_at = now;
    }
    assert(e@ == updated_entry(k0[t as int], *updates, now));
    let ghost old_knowledge = data.knowledge@;
    data.knowledge.set(t, e);
    proof {
        lemma_update_view(old_knowledge, t as int, e);
    }
    match &successor {
        Some(sb) => {
            let ghost k1 = entries_view(data.knowledge@);
            assert forall|j: int| 0 <= j < k1.len() implies (#[trigger] k1[j]).uuid == k0[j].uuid by {}
            assert(entry_pos(k1, sb@) == entry_pos(k0, sb@)) by {
                lemma_first_where(k0, |e: EntryView| e.uuid == sb@);
                crate::seqs::lemma_first_where_is(
                    k1,
                    |e: EntryView| e.uuid == sb@,
                    entry_pos(k0, sb@),
                );
            }
            match find_entry(&data.knowledge, sb.as_str()) {
                Some(j) => {
                    if data.knowledge[j].supersedes.as_str().is_empty() {
                        let mut b = data.knowledge[j].duplicate();
                        b.supersedes = String::from_str(knowledge_uuid);
                        b.updated_at = now;
                        let ghost before = data.knowledge@;
                        data.knowledge.set(j, b);
                        proof {
                            lemma_update_view(before, j as int, b);
                        }
                    }
                },
                None => {},
            }
        },
        None => {},
    }
    Ok(successor.is_some())
}

/// Update specific fields on an existing knowledge entry (by UUID), at the
/// current time. See [`update_knowledge_at`].
pub fn update_knowledge(
    data: &mut KodexData,
    knowledge_uuid: &str,
    updates: &KnowledgeUpdates,
) -> (r: Result<bool, KodexError>)
    ensures
        exists|now: u64|
            #[trigger] update_outcome(old(data), final(data), knowledge_uuid@, *updates, now, r),
{
    let now = unix_now();
    update_knowledge_at(data, knowledge_uuid, updates, now)
}

// ---------------------------------------------------------------------------
// Validation and obsolescence
// ---------------------------------------------------------------------------

/// The text of an optional string slice, or `None`.
pub open spec fn opt_str(o: Option<&str>) -> Option<Seq<char>> {
    match o {
        Some(s) => Some(s@),
        None => None,
    }
}

/// The entry after validation at `now` with an optional note.
pub open spec fn validated_entry(e: EntryView, note: Option<Seq<char>>, now: u64) -> EntryView {
    let evidence = match note {
        Some(n) => if n.len() > 0 {
            e.evidence + "\n[validated] "@ + n
        } else {
            e.evidence
        },
        None => e.evidence,
    };
    EntryView {
        status: "active"@,
        last_validated_at: now,
        updated_at: now,
        evidence: evidence,
        ..e
    }
}

/// A node link of entry `u` takes the current body hash and logical key of its
/// node; every other link is unchanged.
pub open spec fn refreshed_link(l: LinkView, u: Seq<char>, nodes: Seq<Node>) -> LinkView {
    if l.knowledge_uuid == u && !l.is_knowledge_link() {
        LinkView {
            linked_body_hash: node_body_hash(nodes, l.node_uuid),
            linked_logical_key: node_logical_key(nodes, l.node_uuid),
            ..l
        }
    } else {
        l
    }
}

/// What [`validate_knowledge_at`] promises.
pub open spec fn validate_outcome(
    a: &KodexData,
    b: &KodexData,
    u: Seq<char>,
    note: Option<Seq<char>>,
    now: u64,
    r: Result<(), KodexError>,
) -> bool {
    let k = entries_view(a.knowledge@);
    let t = entry_pos(k, u);
    match r {
        Ok(()) => {
            &&& t >= 0
            &&& entries_view(b.knowledge@) == k.update(t, validated_entry(k[t], note, now))
            &&& links_view(b.links@) == Seq::new(
                a.links@.len(),
                |i: int| refreshed_link(a.links@[i]@, u, a.extraction.nodes@),
            )
            &&& queue_view(b.review_queue@) == queue_view(a.review_queue@)
            &&& b.extraction == a.extraction
        },
        Err(KodexError::UuidNotFound(x)) => t == -1 && x@ == u && unchanged(a, b),
        Err(_) => false,
    }
}

/// Validate a knowledge entry at time `now` — mark it as still accurate.
///
/// Sets the status to `active`, stamps the validation and update times,
/// appends `[validated] note` to the evidence when a non-empty note is given,
/// and refreshes the body-hash and logical-key snapshots of the entry's node
/// links from the code graph held in `data`.
pub fn validate_knowledge_at(
    data: &mut KodexData,
    knowledge_uuid: &str,
    note: Option<&str>,
    now: u64,
) -> (r: Result<(), KodexError>)
    ensures
        validate_outcome(old(data), final(data), knowledge_uuid@, opt_str(note), now, r),
{
    let ghost k0 = entries_view(data.knowledge@);
    let t = match find_entry(&data.knowledge, knowledge_uuid) {
        Some(t) => t,
        None => {
            return Err(KodexError::UuidNotFound(String::from_str(knowledge_uuid)));
        },
    };
    let mut e = data.knowledge[t].duplicate();
    e.status = String::from_str("active");
    e.last_validated_at = now;
    e.updated_at = now;
    match note {
        Some(n) => {
            if !n.is_empty() {
                e.evidence.append("\n[validated] ");
                e.evidence.append(n);
            }
        },
        None => {},
    }
    assert(e@ == validated_entry(k0[t as int], opt_str(note), now));
    let ghost before = data.knowledge@;
    data.knowledge.set(t, e);
    proof {
        lemma_update_view(before, t as int, e);
    }
    let ghost l0 = data.links@;
    let ghost nodes = data.extraction.nodes@;
    let n = data.links.len();
    for i in 0..n
        invariant
            n == data.links@.len(),
            l0.len() == n,
            nodes == data.extraction.nodes@,
            forall|j: int| 0 <= j < i ==> (#[trigger] data.links@[j])@ == refreshed_link(l0[j]@, knowledge_uuid@, nodes),
            forall|j: int| i <= j < n ==> (#[trigger] data.links@[j])@ == l0[j]@,
            entries_view(data.knowledge@) == k0.update(t as int, e@),
            queue_view(data.review_queue@) == queue_view(old(data).review_queue@),
            data.extraction == old(data).extraction,
    {
        let matches = crate::text::str_eq(data.links[i].knowledge_uuid.as_str(), knowledge_uuid)
            && !data.links[i].is_knowledge_link();
        if matches {
            let (bh, lk) = node_snapshot(&data.extraction.nodes, data.links[i].node_uuid.as_str());
            let mut l = data.links[i].duplicate();
            l.linked_body_hash = bh;
            l.linked_logical_key = lk;
            data.links.set(i, l);
        }
    }
    assert(links_view(data.links@) =~= Seq::new(
        l0.len(),
        |i: int| refreshed_link(l0[i]@, knowledge_uuid@, nodes),
    ));
    Ok(())
}

/// Validate a knowledge entry at the current time (see [`validate_knowledge_at`]).
pub fn validate_knowledge(
    data: &mut KodexData,
    knowledge_uuid: &str,
    note: Option<&str>,
) -> (r: Result<(), KodexError>)
    ensures
        exists|now: u64|
            #[trigger] validate_outcome(old(data), final(data), knowledge_uuid@, opt_str(note), now, r),
{
    let now = unix_now();
    validate_knowledge_at(data, knowledge_uuid, note, now)
}

/// The entry after being marked obsolete at `now` with a reason.
pub open spec fn obsoleted_entry(e: EntryView, reason: Seq<char>, now: u64) -> EntryView {
    let e1 = EntryView { status: "obsolete"@, updated_at: now, ..e };
    if reason.len() > 0 {
        EntryView { evidence: e1.evidence + "\n[obsolete] "@ + reason, ..e1 }
    } else {
        e1
    }
}

/// What [`mark_obsolete_at`] promises.
pub open spec fn obsolete_outcome(
    a: &KodexData,
    b: &KodexData,
    u: Seq<char>,
    reason: Seq<char>,
    now: u64,
    r: Result<(), KodexError>,
) -> bool {
    let k = entries_view(a.knowledge@);
    let t = entry_pos(k, u);
    match r {
        Ok(()) => {
            &&& t >= 0
            &&& entries_view(b.knowledge@) == k.update(t, obsoleted_entry(k[t], reason, now))
            &&& same_except_knowledge(a, b)
        },
        Err(KodexError::UuidNotFound(x)) => t == -1 && x@ == u && unchanged(a, b),
        Err(_) => false,
    }
}

/// Mark knowledge as obsolete at time `now`, appending `[obsolete] reason` to
/// its evidence when the reason is not empty.
pub fn mark_obsolete_at(data: &mut KodexData, knowledge_uuid: &str, reason: &str, now: u64) -> (r:
    Result<(), KodexError>)
    ensures
        obsolete_outcome(old(data), final(data), knowledge_uuid@, reason@, now, r),
{
    let ghost k0 = entries_view(data.knowledge@);
    let upd = KnowledgeUpdates {
        status: Some(String::from_str("obsolete")),
        scope: None,
        applies_when: None,
        superseded_by: None,
        validate: false,
    };
    match update_knowledge_at(data, knowledge_uuid, &upd, now) {
        Ok(_) => {},
        Err(e) => {
            return Err(e);
        },
    }
    let ghost t = entry_pos(k0, knowledge_uuid@);
    assert(entries_view(data.knowledge@) == k0.update(t, EntryView { status: "obsolete"@, updated_at: now, ..k0[t] }));
    if !reason.is_empty() {
        match find_entry(&data.knowledge, knowledge_uuid) {
            Some(j) => {
                proof {
                    let k1 = entries_view(data.knowledge@);
                    lemma_first_where(k0, |e: EntryView| e.uuid == knowledge_uuid@);
                    assert(k1 == k0.update(t, EntryView { status: "obsolete"@, updated_at: now, ..k0[t] }));
                    assert(k1.len() == k0.len());
                    assert forall|x: int| 0 <= x < k1.len() implies (#[trigger] k1[x]).uuid == k0[x].uuid by {}
                    lemma_first_where(k0, |e: EntryView| e.uuid == knowledge_uuid@);
                    crate::seqs::lemma_first_where_is(k1, |e: EntryView| e.uuid == knowledge_uuid@, t);
                }
                let ghost k1 = entries_view(data.knowledge@);
                assert(j == t);
                let mut e = data.knowledge[j].duplicate();
                assert(e@ == k1[t]);
                assert(k1[t] == EntryView { status: "obsolete"@, updated_at: now, ..k0[t] });
                e.evidence.append("\n[obsolete] ");
                e.evidence.append(reason);
                e.updated_at = now;
                assert(e@ == obsoleted_entry(k0[t], reason@, now));
                let ghost before = data.knowledge@;
                data.knowledge.set(j, e);
                proof {
                    lemma_update_view(before, j as int, e);
                    assert(k1 == k0.update(t, EntryView { status: "obsolete"@, updated_at: now, ..k0[t] }));
                    assert(entries_view(data.knowledge@) =~= k0.update(t, obsoleted_entry(k0[t], reason@, now)));
                }
            },
            None => {
                proof {
                    lemma_first_where(k0, |e: EntryView| e.uuid == knowledge_uuid@);
                    let k1 = entries_view(data.knowledge@);
                    assert(k1[t].uuid == knowledge_uuid@);
                    lemma_first_where(k1, |e: EntryView| e.uuid == knowledge_uuid@);
                }
            },
        }
    }
    Ok(())
}

/// Mark knowledge as obsolete with a reason, at the current time.
pub fn mark_obsolete(data: &mut KodexData, knowledge_uuid: &str, reason: &str) -> (r: Result<
    (),
    KodexError,
>)
    ensures
        exists|now: u64| #[trigger] obsolete_outcome(old(data), final(data), knowledge_uuid@, reason@, now, r),
{
    let now = unix_now();
    mark_obsolete_at(data, knowledge_uuid, reason, now)
}

// ---------------------------------------------------------------------------
// Links
// ---------------------------------------------------------------------------

/// A new link from entry `u` to code node `n`, with the node's snapshot.
pub open spec fn node_link(
    u: Seq<char>,
    n: Seq<char>,
    rel: Seq<char>,
    nodes: Seq<Node>,
    now: u64,
) -> LinkView {
    LinkView {
        knowledge_uuid: u,
        node_uuid: n,
        relation: rel,
        target_type: seq![],
        confidence_bits: FULL_CONFIDENCE_BITS,
        created_at: now,
        linked_body_hash: node_body_hash(nodes, n),
        linked_logical_key: node_logical_key(nodes, n),
        source: "agent"@,
        reason: seq![],
    }
}

/// `ls` after adding, for each node in `ns` in turn, a link from `u` with
/// relation `rel` unless one with the same endpoints and relation is present.
pub open spec fn add_node_links(
    ls: Seq<LinkView>,
    u: Seq<char>,
    ns: Seq<Seq<char>>,
    rel: Seq<char>,
    nodes: Seq<Node>,
    now: u64,
) -> Seq<LinkView>
    decreases ns.len(),
{
    if ns.len() == 0 {
        ls
    } else {
        let p = add_node_links(ls, u, ns.drop_last(), rel, nodes, now);
        if has_link(p, u, ns.last(), rel, false) {
            p
        } else {
            p.push(node_link(u, ns.last(), rel, nodes, now))
        }
    }
}

/// What [`link_knowledge_to_nodes_at`] promises.
pub open spec fn node_links_outcome(
    a: &KodexData,
    b: &KodexData,
    u: Seq<char>,
    ns: Seq<Seq<char>>,
    rel: Seq<char>,
    now: u64,
    r: Result<(), KodexError>,
) -> bool {
    let t = entry_pos(entries_view(a.knowledge@), u);
    match r {
        Ok(()) => {
            &&& t >= 0
            &&& links_view(b.links@) == add_node_links(links_view(a.links@), u, ns, rel, a.extraction.nodes@, now)
            &&& entries_view(b.knowledge@) == entries_view(a.knowledge@)
            &&& queue_view(b.review_queue@) == queue_view(a.review_queue@)
            &&& b.extraction == a.extraction
        },
        Err(KodexError::UuidNotFound(x)) => t == -1 && x@ == u && unchanged(a, b),
        Err(_) => false,
    }
}

/// Link knowledge to specific nodes at time `now` (additive — doesn't remove
/// existing links, and adds no second link with the same endpoints and
/// relation).
pub fn link_knowledge_to_nodes_at(
    data: &mut KodexData,
    knowledge_uuid: &str,
    node_uuids: &[String],
    relation: &str,
    now: u64,
) -> (r: Result<(), KodexError>)
    ensures
        node_links_outcome(
            old(data),
            final(data),
            knowledge_uuid@,
            crate::types::strings_view(node_uuids@),
            relation@,
            now,
            r,
        ),
{
    match find_entry(&data.knowledge, knowledge_uuid) {
        Some(_) => {},
        None => {
            return Err(KodexError::UuidNotFound(String::from_str(knowledge_uuid)));
        },
    }
    let ghost l0 = links_view(data.links@);
    let ghost ns = crate::types::strings_view(node_uuids@);
    let m = node_uuids.len();
    for i in 0..m
        invariant
            m == node_uuids@.len(),
            ns == crate::types::strings_view(node_uuids@),
            links_view(data.links@) == add_node_links(l0, knowledge_uuid@, ns.take(i as int), relation@, data.extraction.nodes@, now),
            entries_view(data.knowledge@) == entries_view(old(data).knowledge@),
            queue_view(data.review_queue@) == queue_view(old(data).review_queue@),
            data.extraction == old(data).extraction,
    {
        let n = &node_uuids[i];
        assert(ns.take(i + 1).drop_last() =~= ns.take(i as int));
        assert(ns.take(i + 1).last() == n@);
        if !link_exists(&data.links, knowledge_uuid, n.as_str(), relation, false) {
            let (bh, lk) = node_snapshot(&data.extraction.nodes, n.as_str());
            let link = KnowledgeLink {
                knowledge_uuid: String::from_str(knowledge_uuid),
                node_uuid: n.clone(),
                relation: String::from_str(relation),
                target_type: String::new(),
                confidence_bits: FULL_CONFIDENCE_BITS,
                created_at: now,
                linked_body_hash: bh,
                linked_logical_key: lk,
                source: String::from_str("agent"),
                reason: String::new(),
            };
            let ghost before = data.links@;
            data.links.push(link);
            assert(links_view(data.links@) =~= links_view(before).push(link@));
        }
    }
    assert(ns.take(m as int) =~= ns);
    Ok(())
}

/// Link knowledge to specific nodes at the current time.
pub fn link_knowledge_to_nodes(
    data: &mut KodexData,
    knowledge_uuid: &str,
    node_uuids: &[String],
    relation: &str,
) -> (r: Result<(), KodexError>)
    ensures
        exists|now: u64|
            #[trigger] node_links_outcome(
                old(data),
                final(data),
                knowledge_uuid@,
                crate::types::strings_view(node_uuids@),
                relation@,
                now,
                r,
            ),
{
    let now = unix_now();
    link_knowledge_to_nodes_at(data, knowledge_uuid, node_uuids, relation, now)
}

/// Clear all links for a given knowledge entry; returns how many were removed.
pub fn clear_knowledge_links(data: &mut KodexData, knowledge_uuid: &str) -> (r: usize)
    ensures
        links_view(final(data).links@) == links_view(old(data).links@).filter(
            |l: LinkView| l.knowledge_uuid != knowledge_uuid@,
        ),
        r == old(data).links@.len() - final(data).links@.len(),
        entries_view(final(data).knowledge@) == entries_view(old(data).knowledge@),
        queue_view(final(data).review_queue@) == queue_view(old(data).review_queue@),
        final(data).extraction == old(data).extraction,
{
    let ghost p = |l: LinkView| l.knowledge_uuid != knowledge_uuid@;
    let mut out: Vec<KnowledgeLink> = Vec::new();
    let len = data.links.len();
    let ghost lv = links_view(data.links@);
    for i in 0..len
        invariant
            len == data.links@.len(),
            lv == links_view(data.links@),
            p == (|l: LinkView| l.knowledge_uuid != knowledge_uuid@),
            links_view(out@) == lv.take(i as int).filter(p),
    {
        let l = &data.links[i];
        assert(lv[i as int] == l@);
        let keep = !crate::text::str_eq(l.knowledge_uuid.as_str(), knowledge_uuid);
        proof {
            reveal(Seq::filter);
            assert(lv.take(i + 1).drop_last() =~= lv.take(i as int));
        }
        if keep {
            let c = l.duplicate();
            let ghost before = out@;
            out.push(c);
            assert(links_view(out@) =~= links_view(before).push(c@));
        }
    }
    assert(lv.take(len as int) =~= lv);
    proof {
        lv.lemma_filter_len(p);
    }
    data.links = out;
    assert(data.links@.len() == links_view(data.links@).len());
    len - data.links.len()
}

/// The link `l` is the one that [`remove_link`] removes.
pub open spec fn removable(l: LinkView, k: Seq<char>, t: Seq<char>, rel: Option<Seq<char>>) -> bool {
    l.knowledge_uuid == k && l.node_uuid == t && match rel {
        Some(r) => l.relation == r,
        None => true,
    }
}

/// Remove the links from `knowledge_uuid` to `target_uuid` (with relation
/// `relation` when given). Returns whether any was removed.
pub fn remove_link(
    data: &mut KodexData,
    knowledge_uuid: &str,
    target_uuid: &str,
    relation: Option<&str>,
) -> (r: bool)
    ensures
        links_view(final(data).links@) == links_view(old(data).links@).filter(
            |l: LinkView| !removable(l, knowledge_uuid@, target_uuid@, opt_str(relation)),
        ),
        r == (final(data).links@.len() != old(data).links@.len()),
        entries_view(final(data).knowledge@) == entries_view(old(data).knowledge@),
        queue_view(final(data).review_queue@) == queue_view(old(data).review_queue@),
        final(data).extraction == old(data).extraction,
{
    let ghost p = |l: LinkView| !removable(l, knowledge_uuid@, target_uuid@, opt_str(relation));
    let mut out: Vec<KnowledgeLink> = Vec::new();
    let len = data.links.len();
    let ghost lv = links_view(data.links@);
    for i in 0..len
        invariant
            len == data.links@.len(),
            lv == links_view(data.links@),
            p == (|l: LinkView| !removable(l, knowledge_uuid@, target_uuid@, opt_str(relation))),
            links_view(out@) == lv.take(i as int).filter(p),
    {
        let l = &data.links[i];
        assert(lv[i as int] == l@);
        let rel_ok = match relation {
            Some(rr) => crate::text::str_eq(l.relation.as_str(), rr),
            None => true,
        };
        let hit = crate::text::str_eq(l.knowledge_uuid.as_str(), knowledge_uuid)
            && crate::text::str_eq(l.node_uuid.as_str(), target_uuid) && rel_ok;
        assert(!hit == p(l@));
        proof {
            reveal(Seq::filter);
            assert(lv.take(i + 1).drop_last() =~= lv.take(i as int));
        }
        if !hit {
            let c = l.duplicate();
            let ghost before = out@;
            out.push(c);
            assert(links_view(out@) =~= links_view(before).push(c@));
        }
    }
    assert(lv.take(len as int) =~= lv);
    let before_len = data.links.len();
    data.links = out;
    assert(data.links@.len() == links_view(data.links@).len());
    before_len != data.links.len()
}

/// The relation a reverse link gets: `supersedes` ↔ `superseded_by`,
/// `depends_on` → `depended_by`, `supports` → `supported_by`; any other
/// relation (such as `contradicts`) is its own reverse.
pub open spec fn reverse_relation(r: Seq<char>) -> Seq<char> {
    if r == "supersedes"@ {
        "superseded_by"@
    } else if r == "superseded_by"@ {
        "supersedes"@
    } else if r == "depends_on"@ {
        "depended_by"@
    } else if r == "supports"@ {
        "supported_by"@
    } else {
        r
    }
}

/// The chain-of-thought relations (`leads_to`, `because`, `resolved_by`,
/// `therefore`, `implies`): a link with one of them has a direction and gets
/// no reverse link.
pub open spec fn chain_relation(r: Seq<char>) -> bool {
    r == "leads_to"@ || r == "because"@ || r == "resolved_by"@ || r == "therefore"@ || r == "implies"@
}

fn chain_relation_exec(r: &str) -> (out: bool)
    ensures
        out == chain_relation(r@),
{
    crate::text::str_eq(r, "leads_to") || crate::text::str_eq(r, "because") || crate::text::str_eq(
        r,
        "resolved_by",
    ) || crate::text::str_eq(r, "therefore") || crate::text::str_eq(r, "implies")
}

fn reverse_relation_exec(r: &str) -> (out: String)
    ensures
        out@ == reverse_relation(r@),
{
    if crate::text::str_eq(r, "supersedes") {
        String::from_str("superseded_by")
    } else if crate::text::str_eq(r, "superseded_by") {
        String::from_str("supersedes")
    } else if crate::text::str_eq(r, "depends_on") {
        String::from_str("depended_by")
    } else if crate::text::str_eq(r, "supports") {
        String::from_str("supported_by")
    } else {
        String::from_str(r)
    }
}

/// A new knowledge-to-knowledge link.
pub open spec fn knowledge_link(s: Seq<char>, t: Seq<char>, rel: Seq<char>, now: u64) -> LinkView {
    LinkView {
        knowledge_uuid: s,
        node_uuid: t,
        relation: rel,
        target_type: crate::types::knowledge_word(),
        confidence_bits: FULL_CONFIDENCE_BITS,
        created_at: now,
        linked_body_hash: seq![],
        linked_logical_key: seq![],
        source: "agent"@,
        reason: seq![],
    }
}

/// `ls` with the knowledge link `s → t` (relation `rel`) added unless present.
pub open spec fn with_knowledge_link(ls: Seq<LinkView>, s: Seq<char>, t: Seq<char>, rel: Seq<char>, now: u64) -> Seq<LinkView> {
    if has_link(ls, s, t, rel, true) {
        ls
    } else {
        ls.push(knowledge_link(s, t, rel, now))
    }
}

/// What [`link_knowledge_to_knowledge_at`] promises.
pub open spec fn k2k_outcome(
    a: &KodexData,
    b: &KodexData,
    s: Seq<char>,
    t: Seq<char>,
    rel: Seq<char>,
    bidirectional: bool,
    now: u64,
    r: Result<(), KodexError>,
) -> bool {
    let k = entries_view(a.knowledge@);
    let forward = with_knowledge_link(links_view(a.links@), s, t, rel, now);
    match r {
        Ok(()) => {
            &&& entry_pos(k, s) >= 0
            &&& entry_pos(k, t) >= 0
            &&& links_view(b.links@) == if bidirectional && !chain_relation(rel) {
                with_knowledge_link(forward, t, s, reverse_relation(rel), now)
            } else {
                forward
            }
            &&& entries_view(b.knowledge@) == k
            &&& queue_view(b.review_queue@) == queue_view(a.review_queue@)
            &&& b.extraction == a.extraction
        },
        Err(KodexError::SourceNotFound(x)) => x@ == s && entry_pos(k, s) == -1 && unchanged(a, b),
        Err(KodexError::TargetNotFound(x)) => x@ == t && entry_pos(k, s) >= 0 && entry_pos(k, t)
            == -1 && unchanged(a, b),
        Err(_) => false,
    }
}

fn push_knowledge_link(ls: &mut Vec<KnowledgeLink>, s: &str, t: &str, rel: &str, now: u64)
    ensures
        links_view(final(ls)@) == with_knowledge_link(links_view(old(ls)@), s@, t@, rel@, now),
{
    if !link_exists(ls, s, t, rel, true) {
        let link = KnowledgeLink {
            knowledge_uuid: String::from_str(s),
            node_uuid: String::from_str(t),
            relation: String::from_str(rel),
            target_type: String::from_str("knowledge"),
            confidence_bits: FULL_CONFIDENCE_BITS,
            created_at: now,
            linked_body_hash: String::new(),
            linked_logical_key: String::new(),
            source: String::from_str("agent"),
            reason: String::new(),
        };
        proof {
            reveal_strlit("knowledge");
            assert("knowledge"@ =~= crate::types::knowledge_word());
        }
        let ghost before = ls@;
        ls.push(link);
        assert(links_view(ls@) =~= links_view(before).push(link@));
    }
}

/// Link two knowledge entries together (knowledge ↔ knowledge) at time `now`;
/// with `bidirectional`, also the reverse link with the reverse relation,
/// except for a chain-of-thought relation (see [`chain_relation`]), which has
/// no reverse. Neither link is added twice.
pub fn link_knowledge_to_knowledge_at(
    data: &mut KodexData,
    source_uuid: &str,
    target_uuid: &str,
    relation: &str,
    bidirectional: bool,
    now: u64,
) -> (r: Result<(), KodexError>)
    ensures
        k2k_outcome(old(data), final(data), source_uuid@, target_uuid@, relation@, bidirectional, now, r),
{
    if find_entry(&data.knowledge, source_uuid).is_none() {
        return Err(KodexError::SourceNotFound(String::from_str(source_uuid)));
    }
    if find_entry(&data.knowledge, target_uuid).is_none() {
        return Err(KodexError::TargetNotFound(String::from_str(target_uuid)));
    }
    push_knowledge_link(&mut data.links, source_uuid, target_uuid, relation, now);
    if bidirectional && !chain_relation_exec(relation) {
        let rev = reverse_relation_exec(relation);
        push_knowledge_link(&mut data.links, target_uuid, source_uuid, rev.as_str(), now);
    }
    Ok(())
}

/// Link two knowledge entries together at the current time.
pub fn link_knowledge_to_knowledge(
    data: &mut KodexData,
    source_uuid: &str,
    target_uuid: &str,
    relation: &str,
    bidirectional: bool,
) -> (r: Result<(), KodexError>)
    ensures
        exists|now: u64|
            #[trigger] k2k_outcome(old(data), final(data), source_uuid@, target_uuid@, relation@, bidirectional, now, r),
{
    let now = unix_now();
    link_knowledge_to_knowledge_at(data, source_uuid, target_uuid, relation, bidirectional, now)
}

/// The neighbours of entry `u` through knowledge links, in link order:
/// `(other end, relation, "outgoing" | "incoming")`.
pub open spec fn neighbors_of(ls: Seq<LinkView>, u: Seq<char>) -> Seq<(Seq<char>, Seq<char>, Seq<char>)>
    decreases ls.len(),
{
    if ls.len() == 0 {
        seq![]
    } else {
        let p = neighbors_of(ls.drop_last(), u);
        let l = ls.last();
        if l.is_knowledge_link() && (l.knowledge_uuid == u || l.node_uuid == u) {
            if l.knowledge_uuid == u {
                p.push((l.node_uuid, l.relation, "outgoing"@))
            } else {
                p.push((l.knowledge_uuid, l.relation, "incoming"@))
            }
        } else {
            p
        }
    }
}

/// The views of a list of string triples.
pub open spec fn triples_view(v: Seq<(String, String, String)>) -> Seq<(Seq<char>, Seq<char>, Seq<char>)> {
    Seq::new(v.len(), |i: int| (v[i].0@, v[i].1@, v[i].2@))
}

/// Get all knowledge entries connected to a given knowledge UUID.
pub fn knowledge_neighbors(data: &KodexData, knowledge_uuid: &str) -> (r: Vec<(String, String, String)>)
    ensures
        triples_view(r@) == neighbors_of(links_view(data.links@), knowledge_uuid@),
{
    let ghost lv = links_view(data.links@);
    let mut out: Vec<(String, String, String)> = Vec::new();
    let len = data.links.len();
    for i in 0..len
        invariant
            len == data.links@.len(),
            lv == links_view(data.links@),
            triples_view(out@) == neighbors_of(lv.take(i as int), knowledge_uuid@),
    {
        let l = &data.links[i];
        assert(lv[i as int] == l@);
        assert(lv.take(i + 1).drop_last() =~= lv.take(i as int));
        let is_src = crate::text::str_eq(l.knowledge_uuid.as_str(), knowledge_uuid);
        let is_tgt = crate::text::str_eq(l.node_uuid.as_str(), knowledge_uuid);
        if l.is_knowledge_link() && (is_src || is_tgt) {
            let item = if is_src {
                (l.node_uuid.clone(), l.relation.clone(), String::from_str("outgoing"))
            } else {
                (l.knowledge_uuid.clone(), l.relation.clone(), String::from_str("incoming"))
            };
            let ghost before = out@;
            out.push(item);
            assert(triples_view(out@) =~= triples_view(before).push((item.0@, item.1@, item.2@)));
        }
    }
    assert(lv.take(len as int) =~= lv);
    out
}

// ---------------------------------------------------------------------------
// Review queue
// ---------------------------------------------------------------------------

/// Some pending (not completed) item of `q` is for entry `u`.
pub open spec fn has_pending(q: Seq<ReviewView>, u: Seq<char>) -> bool {
    exists|i: int| 0 <= i < q.len() && (#[trigger] q[i]).knowledge_uuid == u && !q[i].completed
}

/// What [`enqueue_review_at`] promises.
pub open spec fn enqueue_outcome(
    a: &KodexData,
    b: &KodexData,
    u: Seq<char>,
    reason: Seq<char>,
    priority: u8,
    now: u64,
    r: bool,
) -> bool {
    let q = queue_view(a.review_queue@);
    &&& r == !has_pending(q, u)
    &&& queue_view(b.review_queue@) == if r {
        q.push(ReviewView { knowledge_uuid: u, reason: reason, created_at: now, priority: priority, completed: false })
    } else {
        q
    }
    &&& entries_view(b.knowledge@) == entries_view(a.knowledge@)
    &&& links_view(b.links@) == links_view(a.links@)
    &&& b.extraction == a.extraction
}

/// Enqueue a knowledge entry for review at time `now`, unless a pending item
/// for it exists. Returns true if actually enqueued.
pub fn enqueue_review_at(
    data: &mut KodexData,
    knowledge_uuid: &str,
    reason: &str,
    priority: u8,
    now: u64,
) -> (r: bool)
    ensures
        enqueue_outcome(old(data), final(data), knowledge_uuid@, reason@, priority, now, r),
{
    let ghost q = queue_view(data.review_queue@);
    let len = data.review_queue.len();
    for i in 0..len
        invariant
            len == data.review_queue@.len(),
            q == queue_view(data.review_queue@),
            forall|j: int| 0 <= j < i ==> !((#[trigger] q[j]).knowledge_uuid == knowledge_uuid@ && !q[j].completed),
    {
        let it = &data.review_queue[i];
        assert(q[i as int] == it@);
        if crate::text::str_eq(it.knowledge_uuid.as_str(), knowledge_uuid) && !it.completed {
            return false;
        }
    }
    let item = ReviewQueueItem {
        knowledge_uuid: String::from_str(knowledge_uuid),
        reason: String::from_str(reason),
        created_at: now,
        priority: priority,
        completed: false,
    };
    let ghost before = data.review_queue@;
    data.review_queue.push(item);
    assert(queue_view(data.review_queue@) =~= queue_view(before).push(item@));
    true
}

/// Enqueue a knowledge entry for review at the current time.
pub fn enqueue_review(data: &mut KodexData, knowledge_uuid: &str, reason: &str, priority: u8) -> (r: bool)
    ensures
        exists|now: u64|
            #[trigger] enqueue_outcome(old(data), final(data), knowledge_uuid@, reason@, priority, now, r),
{
    let now = unix_now();
    enqueue_review_at(data, knowledge_uuid, reason, priority, now)
}

/// Complete the review queue items of an entry (mark them done).
pub fn complete_review(data: &mut KodexData, knowledge_uuid: &str)
    ensures
        queue_view(final(data).review_queue@) == Seq::new(
            old(data).review_queue@.len(),
            |i: int| {
                let q = old(data).review_queue@[i]@;
                if q.knowledge_uuid == knowledge_uuid@ {
                    ReviewView { completed: true, ..q }
                } else {
                    q
                }
            },
        ),
        entries_view(final(data).knowledge@) == entries_view(old(data).knowledge@),
        links_view(final(data).links@) == links_view(old(data).links@),
        final(data).extraction == old(data).extraction,
{
    let ghost q0 = data.review_queue@;
    let len = data.review_queue.len();
    for i in 0..len
        invariant
            len == data.review_queue@.len(),
            q0.len() == len,
            forall|j: int| 0 <= j < i ==> (#[trigger] data.review_queue@[j])@ == if q0[j]@.knowledge_uuid == knowledge_uuid@ {
                ReviewView { completed: true, ..q0[j]@ }
            } else {
                q0[j]@
            },
            forall|j: int| i <= j < len ==> (#[trigger] data.review_queue@[j])@ == q0[j]@,
            entries_view(data.knowledge@) == entries_view(old(data).knowledge@),
            links_view(data.links@) == links_view(old(data).links@),
            data.extraction == old(data).extraction,
    {
        if crate::text::str_eq(data.review_queue[i].knowledge_uuid.as_str(), knowledge_uuid) && !data.review_queue[i].completed {
            let mut it = data.review_queue[i].duplicate();
            it.completed = true;
            data.review_queue.set(i, it);
        }
    }
    assert(queue_view(data.review_queue@) =~= Seq::new(
        q0.len(),
        |i: int| {
            let q = q0[i]@;
            if q.knowledge_uuid == knowledge_uuid@ {
                ReviewView { completed: true, ..q }
            } else {
                q
            }
        },
    ));
}

/// The sort key of a queue item: higher priority first, then older first.
pub open spec fn queue_key(q: ReviewView) -> u128 {
    ((q.priority as u128) * 0x1_0000_0000_0000_0000u128 + ((0xffff_ffff_ffff_ffffu64 - q.created_at) as u128)) as u128
}

/// Items not yet completed.
pub open spec fn pending_pred() -> spec_fn(ReviewView) -> bool {
    |x: ReviewView| !x.completed
}

/// The pending items of `q`, in order.
pub open spec fn pending_items(q: Seq<ReviewView>) -> Seq<ReviewView> {
    q.filter(pending_pred())
}

/// The sort keys of a list of queue items.
pub open spec fn queue_keys(p: Seq<ReviewView>) -> Seq<u128> {
    Seq::new(p.len(), |i: int| queue_key(p[i]))
}

/// `r` lists the pending items of `q` by descending priority, ties by
/// ascending creation time, remaining ties in queue order.
pub open spec fn review_order(q: Seq<ReviewView>, r: Seq<ReviewView>) -> bool {
    let p = pending_items(q);
    exists|ord: Seq<usize>|
        #[trigger] crate::sort::stable_desc_order(queue_keys(p), ord)
            && r.len() == p.len() && forall|i: int| 0 <= i < r.len() ==> r[i] == p[ord[i] as int]
}

/// Get the pending review queue, sorted by priority descending, then by
/// creation time ascending.
pub fn get_review_queue(data: &KodexData) -> (r: Vec<ReviewQueueItem>)
    ensures
        review_order(queue_view(data.review_queue@), queue_view(r@)),
{
    let ghost qv = queue_view(data.review_queue@);
    let ghost pred = pending_pred();
    let mut pending: Vec<ReviewQueueItem> = Vec::new();
    let len = data.review_queue.len();
    for i in 0..len
        invariant
            len == data.review_queue@.len(),
            qv == queue_view(data.review_queue@),
            pred == pending_pred(),
            queue_view(pending@) == qv.take(i as int).filter(pred),
    {
        let it = &data.review_queue[i];
        assert(qv[i as int] == it@);
        proof {
            reveal(Seq::filter);
            assert(qv.take(i + 1).drop_last() =~= qv.take(i as int));
        }
        if !it.completed {
            let c = it.duplicate();
            let ghost before = pending@;
            pending.push(c);
            assert(queue_view(pending@) =~= queue_view(before).push(c@));
        }
    }
    assert(qv.take(len as int) =~= qv);
    let ghost p = queue_view(pending@);
    let mut keys: Vec<u128> = Vec::new();
    let m = pending.len();
    for i in 0..m
        invariant
            m == pending@.len(),
            p == queue_view(pending@),
            keys@.len() == i,
            forall|j: int| 0 <= j < i ==> keys@[j] == queue_key(#[trigger] p[j]),
    {
        let it = &pending[i];
        assert(p[i as int] == it@);
        let k: u128 = (it.priority as u128) * 0x1_0000_0000_0000_0000u128 + ((0xffff_ffff_ffff_ffffu64 - it.created_at) as u128);
        keys.push(k);
    }
    assert(keys@ =~= queue_keys(p));
    let ord = crate::sort::stable_order_desc(&keys);
    let mut out: Vec<ReviewQueueItem> = Vec::new();
    for i in 0..m
        invariant
            m == pending@.len(),
            p == queue_view(pending@),
            crate::sort::stable_desc_order(keys@, ord@),
            keys@.len() == m,
            out@.len() == i,
            forall|j: int| 0 <= j < i ==> (#[trigger] out@[j])@ == p[ord@[j] as int],
    {
        let k = ord[i];
        assert(k < m);
        let c = pending[k].duplicate();
        out.push(c);
    }
    assert(queue_view(out@).len() == p.len());
    assert(forall|i: int| 0 <= i < out@.len() ==> queue_view(out@)[i] == p[ord@[i] as int]);
    assert(p == pending_items(qv));
    assert(crate::sort::stable_desc_order(queue_keys(pending_items(qv)), ord@));
    out
}

// ---------------------------------------------------------------------------
// Merging duplicates
// ---------------------------------------------------------------------------

/// How narrow a scope is: node > file > module > project > repo > other.
pub open spec fn scope_rank(s: Seq<char>) -> int {
    if s == "node"@ {
        5
    } else if s == "file"@ {
        4
    } else if s == "module"@ {
        3
    } else if s == "project"@ {
        2
    } else if s == "repo"@ {
        1
    } else {
        0
    }
}

fn scope_rank_exec(s: &str) -> (r: u8)
    ensures
        r as int == scope_rank(s@),
{
    if crate::text::str_eq(s, "node") {
        5
    } else if crate::text::str_eq(s, "file") {
        4
    } else if crate::text::str_eq(s, "module") {
        3
    } else if crate::text::str_eq(s, "project") {
        2
    } else if crate::text::str_eq(s, "repo") {
        1
    } else {
        0
    }
}

/// `keep` followed by each tag of `more` that is not already present.
pub open spec fn merged_tags(keep: Seq<Seq<char>>, more: Seq<Seq<char>>) -> Seq<Seq<char>>
    decreases more.len(),
{
    if more.len() == 0 {
        keep
    } else {
        let p = merged_tags(keep, more.drop_last());
        if p.contains(more.last()) {
            p
        } else {
            p.push(more.last())
        }
    }
}

/// The keeper after absorbing `ab` at time `now`.
pub open spec fn merged_entry(keep: EntryView, ab: EntryView, now: u64) -> EntryView {
    EntryView {
        observations: (keep.observations + ab.observations) as u32,
        tags: merged_tags(keep.tags, ab.tags),
        description: if ab.description.len() > 0 && keep.description != ab.description {
            keep.description + "\n---\n"@ + ab.description
        } else {
            keep.description
        },
        evidence: if ab.evidence.len() > 0 {
            if keep.evidence.len() == 0 {
                ab.evidence
            } else {
                keep.evidence + "\n"@ + ab.evidence
            }
        } else {
            keep.evidence
        },
        applies_when: if keep.applies_when.len() == 0 && ab.applies_when.len() > 0 {
            ab.applies_when
        } else if ab.applies_when.len() > 0 && keep.applies_when != ab.applies_when {
            keep.applies_when + ", "@ + ab.applies_when
        } else {
            keep.applies_when
        },
        scope: if scope_rank(ab.scope) > scope_rank(keep.scope) {
            ab.scope
        } else {
            keep.scope
        },
        updated_at: now,
        ..keep
    }
}

/// A link after the absorbed entry's links are moved to the keeper: an
/// outgoing link of `ab` now starts at `keep` (except the one pointing at
/// `keep`, which is left as it is), and a knowledge link into `ab` now points
/// at `keep`.
pub open spec fn rewritten_link(l: LinkView, keep: Seq<char>, ab: Seq<char>) -> LinkView {
    if l.knowledge_uuid == ab && l.node_uuid == keep {
        l
    } else {
        let l1 = if l.knowledge_uuid == ab {
            LinkView { knowledge_uuid: keep, ..l }
        } else {
            l
        };
        if l1.is_knowledge_link() && l1.node_uuid == ab {
            LinkView { node_uuid: keep, ..l1 }
        } else {
            l1
        }
    }
}

/// A knowledge link from an entry to itself.
pub open spec fn not_self_link() -> spec_fn(LinkView) -> bool {
    |l: LinkView| !(l.is_knowledge_link() && l.knowledge_uuid == l.node_uuid)
}

/// `s` keeping only the first link of each (source, target, relation).
pub open spec fn dedup_links(s: Seq<LinkView>) -> Seq<LinkView>
    decreases s.len(),
{
    if s.len() == 0 {
        s
    } else {
        let p = dedup_links(s.drop_last());
        if has_link(p, s.last().knowledge_uuid, s.last().node_uuid, s.last().relation, false) {
            p
        } else {
            p.push(s.last())
        }
    }
}

/// The `supersedes` link a merge adds from the keeper to the absorbed entry.
pub open spec fn supersedes_link(keep: Seq<char>, ab: Seq<char>, now: u64) -> LinkView {
    LinkView {
        knowledge_uuid: keep,
        node_uuid: ab,
        relation: "supersedes"@,
        target_type: crate::types::knowledge_word(),
        confidence_bits: FULL_CONFIDENCE_BITS,
        created_at: now,
        linked_body_hash: seq![],
        linked_logical_key: seq![],
        source: "agent"@,
        reason: "duplicate merge"@,
    }
}

/// The links after a merge of `ab` into `keep` at `now`.
pub open spec fn merged_links(ls: Seq<LinkView>, keep: Seq<char>, ab: Seq<char>, now: u64) -> Seq<LinkView> {
    let l1 = Seq::new(ls.len(), |i: int| rewritten_link(ls[i], keep, ab));
    let l3 = dedup_links(l1.filter(not_self_link()));
    if has_link(l3, keep, ab, "supersedes"@, false) {
        l3
    } else {
        l3.push(supersedes_link(keep, ab, now))
    }
}

/// The knowledge after a merge: the keeper absorbs, then the absorbed entry is
/// marked obsolete and superseded by the keeper.
pub open spec fn merged_knowledge(k: Seq<EntryView>, keep: Seq<char>, ab: Seq<char>, now: u64) -> Seq<EntryView> {
    let ki = entry_pos(k, keep);
    let ai = entry_pos(k, ab);
    let k1 = k.update(ki, merged_entry(k[ki], k[ai], now));
    k1.update(ai, EntryView { status: "obsolete"@, superseded_by: keep, ..k1[ai] })
}

/// The observation counts of the two entries add up within `u32`.
pub open spec fn merge_fits(k: Seq<EntryView>, keep: Seq<char>, ab: Seq<char>) -> bool {
    let ki = entry_pos(k, keep);
    let ai = entry_pos(k, ab);
    ki >= 0 && ai >= 0 ==> k[ki].observations + k[ai].observations <= u32::MAX
}

/// What [`merge_knowledge_at`] promises.
pub open spec fn merge_outcome(
    a: &KodexData,
    b: &KodexData,
    keep: Seq<char>,
    ab: Seq<char>,
    now: u64,
    r: Result<u32, KodexError>,
) -> bool {
    let k = entries_view(a.knowledge@);
    let ki = entry_pos(k, keep);
    let ai = entry_pos(k, ab);
    match r {
        Ok(absorbed) => {
            &&& ki >= 0
            &&& ai >= 0
            &&& absorbed == k[ai].observations
            &&& entries_view(b.knowledge@) == merged_knowledge(k, keep, ab, now)
            &&& links_view(b.links@) == merged_links(links_view(a.links@), keep, ab, now)
            &&& queue_view(b.review_queue@) == queue_view(a.review_queue@)
            &&& b.extraction == a.extraction
        },
        Err(KodexError::UuidNotFound(x)) => {
            &&& (ki == -1 && x@ == keep) || (ki >= 0 && ai == -1 && x@ == ab)
            &&& unchanged(a, b)
        },
        Err(_) => false,
    }
}

/// Whether a list of strings holds `s`.
pub fn strings_contain(v: &Vec<String>, s: &str) -> (r: bool)
    ensures
        r == crate::types::strings_view(v@).contains(s@),
{
    let ghost sv = crate::types::strings_view(v@);
    let n = v.len();
    for i in 0..n
        invariant
            n == v@.len(),
            sv == crate::types::strings_view(v@),
            forall|j: int| 0 <= j < i ==> sv[j] != s@,
    {
        if crate::text::str_eq(v[i].as_str(), s) {
            assert(sv[i as int] == s@);
            return true;
        }
    }
    false
}

fn merge_entries(keep: &KnowledgeEntry, ab: &KnowledgeEntry, now: u64) -> (r: KnowledgeEntry)
    requires
        keep.observations + ab.observations <= u32::MAX,
    ensures
        r@ == merged_entry(keep@, ab@, now),
{
    let mut e = keep.duplicate();
    e.observations = keep.observations + ab.observations;
    let ghost kt = crate::types::strings_view(keep.tags@);
    let ghost at = crate::types::strings_view(ab.tags@);
    let n = ab.tags.len();
    for i in 0..n
        invariant
            n == ab.tags@.len(),
            at == crate::types::strings_view(ab.tags@),
            crate::types::strings_view(e.tags@) == merged_tags(kt, at.take(i as int)),
            e@ == (EntryView {
                tags: crate::types::strings_view(e.tags@),
                observations: (keep.observations + ab.observations) as u32,
                ..keep@
            }),
    {
        assert(at.take(i + 1).drop_last() =~= at.take(i as int));
        assert(at[i as int] == ab.tags@[i as int]@);
        if !strings_contain(&e.tags, ab.tags[i].as_str()) {
            let t = ab.tags[i].clone();
            let ghost before = e.tags@;
            e.tags.push(t);
            assert(crate::types::strings_view(e.tags@) =~= crate::types::strings_view(before).push(t@));
        }
    }
    assert(at.take(n as int) =~= at);
    let same_desc = crate::text::str_eq(keep.description.as_str(), ab.description.as_str());
    if !ab.description.as_str().is_empty() && !same_desc {
        e.description.append("\n---\n");
        e.description.append(ab.description.as_str());
    }
    if !ab.evidence.as_str().is_empty() {
        if keep.evidence.as_str().is_empty() {
            e.evidence = ab.evidence.clone();
        } else {
            e.evidence.append("\n");
            e.evidence.append(ab.evidence.as_str());
        }
    }
    if keep.applies_when.as_str().is_empty() && !ab.applies_when.as_str().is_empty() {
        e.applies_when = ab.applies_when.clone();
    } else if !ab.applies_when.as_str().is_empty()
        && !crate::text::str_eq(keep.applies_when.as_str(), ab.applies_when.as_str()) {
        e.applies_when.append(", ");
        e.applies_when.append(ab.applies_when.as_str());
    }
    if scope_rank_exec(ab.scope.as_str()) > scope_rank_exec(keep.scope.as_str()) {
        e.scope = ab.scope.clone();
    }
    e.updated_at = now;
    let ghost m = merged_entry(keep@, ab@, now);
    assert(e@.tags == m.tags);
    assert(e@.description == m.description);
    assert(e@.evidence == m.evidence);
    assert(e@.applies_when == m.applies_when);
    assert(e@.scope == m.scope);
    e
}

/// Merge two knowledge entries at time `now`: the entry `uuid_keep` absorbs
/// `uuid_absorb`'s observations, new tags, description, evidence,
/// applies_when and a narrower scope; every link of the absorbed entry moves
/// to the keeper (self-links and repeated (source, target, relation) triples
/// are dropped); the absorbed entry becomes obsolete, superseded by the keeper,
/// with a `supersedes` link from the keeper.
///
/// `Ok(n)` gives the absorbed observation count `n`: the keeper's confidence
/// `c` is to become `1 - (1 - c) * 0.8^n`.
pub fn merge_knowledge_at(
    data: &mut KodexData,
    uuid_keep: &str,
    uuid_absorb: &str,
    now: u64,
) -> (r: Result<u32, KodexError>)
    requires
        merge_fits(entries_view(old(data).knowledge@), uuid_keep@, uuid_absorb@),
    ensures
        merge_outcome(old(data), final(data), uuid_keep@, uuid_absorb@, now, r),
{
    let ghost k0 = entries_view(data.knowledge@);
    let ki = match find_entry(&data.knowledge, uuid_keep) {
        Some(i) => i,
        None => {
            return Err(KodexError::UuidNotFound(String::from_str(uuid_keep)));
        },
    };
    let ai = match find_entry(&data.knowledge, uuid_absorb) {
        Some(i) => i,
        None => {
            return Err(KodexError::UuidNotFound(String::from_str(uuid_absorb)));
        },
    };
    let absorbed = data.knowledge[ai].observations;
    let merged = merge_entries(&data.knowledge[ki], &data.knowledge[ai], now);
    let ghost before = data.knowledge@;
    data.knowledge.set(ki, merged);
    proof {
        lemma_update_view(before, ki as int, merged);
    }
    let mut last = data.knowledge[ai].duplicate();
    last.status = String::from_str("obsolete");
    last.superseded_by = String::from_str(uuid_keep);
    let ghost before2 = data.knowledge@;
    data.knowledge.set(ai, last);
    proof {
        lemma_update_view(before2, ai as int, last);
    }
    // Move links, dropping self-links.
    let ghost lv = links_view(data.links@);
    let ghost l1 = Seq::new(lv.len(), |i: int| rewritten_link(lv[i], uuid_keep@, uuid_absorb@));
    let ghost pred = not_self_link();
    let mut moved: Vec<KnowledgeLink> = Vec::new();
    let len = data.links.len();
    for i in 0..len
        invariant
            len == data.links@.len(),
            lv == links_view(data.links@),
            l1 == Seq::new(lv.len(), |i: int| rewritten_link(lv[i], uuid_keep@, uuid_absorb@)),
            pred == not_self_link(),
            links_view(moved@) == l1.take(i as int).filter(pred),
    {
        let mut l = data.links[i].duplicate();
        assert(lv[i as int] == l@);
        let from_ab = crate::text::str_eq(l.knowledge_uuid.as_str(), uuid_absorb);
        let to_keep = crate::text::str_eq(l.node_uuid.as_str(), uuid_keep);
        if !(from_ab && to_keep) {
            if from_ab {
                l.knowledge_uuid = String::from_str(uuid_keep);
            }
            if l.is_knowledge_link() && crate::text::str_eq(l.node_uuid.as_str(), uuid_absorb) {
                l.node_uuid = String::from_str(uuid_keep);
            }
        }
        assert(l@ == l1[i as int]);
        proof {
            reveal(Seq::filter);
            assert(l1.take(i + 1).drop_last() =~= l1.take(i as int));
        }
        let self_link = l.is_knowledge_link() && crate::text::str_eq(l.knowledge_uuid.as_str(), l.node_uuid.as_str());
        if !self_link {
            let ghost b = moved@;
            moved.push(l);
            assert(links_view(moved@) =~= links_view(b).push(l1[i as int]));
        }
    }
    assert(l1.take(len as int) =~= l1);
    // Keep the first link of each (source, target, relation).
    let ghost l2 = links_view(moved@);
    let mut out: Vec<KnowledgeLink> = Vec::new();
    let m = moved.len();
    for i in 0..m
        invariant
            m == moved@.len(),
            l2 == links_view(moved@),
            links_view(out@) == dedup_links(l2.take(i as int)),
    {
        let l = &moved[i];
        assert(l2[i as int] == l@);
        assert(l2.take(i + 1).drop_last() =~= l2.take(i as int));
        assert(l2.take(i + 1).last() == l@);
        if !link_exists(&out, l.knowledge_uuid.as_str(), l.node_uuid.as_str(), l.relation.as_str(), false) {
            let c = l.duplicate();
            let ghost b = out@;
            out.push(c);
            assert(links_view(out@) =~= links_view(b).push(c@));
        }
    }
    assert(l2.take(m as int) =~= l2);
    push_supersedes(&mut out, uuid_keep, uuid_absorb, now);
    data.links = out;
    Ok(absorbed)
}

fn push_supersedes(ls: &mut Vec<KnowledgeLink>, keep: &str, ab: &str, now: u64)
    ensures
        links_view(final(ls)@) == if has_link(links_view(old(ls)@), keep@, ab@, "supersedes"@, false) {
            links_view(old(ls)@)
        } else {
            links_view(old(ls)@).push(supersedes_link(keep@, ab@, now))
        },
{
    if !link_exists(ls, keep, ab, "supersedes", false) {
        let link = KnowledgeLink {
            knowledge_uuid: String::from_str(keep),
            node_uuid: String::from_str(ab),
            relation: String::from_str("supersedes"),
            target_type: String::from_str("knowledge"),
            confidence_bits: FULL_CONFIDENCE_BITS,
            created_at: now,
            linked_body_hash: String::new(),
            linked_logical_key: String::new(),
            source: String::from_str("agent"),
            reason: String::from_str("duplicate merge"),
        };
        proof {
            reveal_strlit("knowledge");
            assert("knowledge"@ =~= crate::types::knowledge_word());
        }
        let ghost before = ls@;
        ls.push(link);
        assert(links_view(ls@) =~= links_view(before).push(link@));
    }
}

/// Merge two knowledge entries at the current time (see [`merge_knowledge_at`]).
pub fn merge_knowledge(data: &mut KodexData, uuid_keep: &str, uuid_absorb: &str) -> (r: Result<u32, KodexError>)
    requires
        merge_fits(entries_view(old(data).knowledge@), uuid_keep@, uuid_absorb@),
    ensures
        exists|now: u64| #[trigger] merge_outcome(old(data), final(data), uuid_keep@, uuid_absorb@, now, r),
{
    let now = unix_now();
    merge_knowledge_at(data, uuid_keep, uuid_absorb, now)
}

} // verus!
