//! Searching sequences: the first element with a property.
use vstd::prelude::*;

use crate::types::{entries_view, EntryView, KnowledgeEntry, KnowledgeLink, LinkView, links_view};

verus! {

/// The index of the first element of `s` satisfying `p`, or -1.
pub open spec fn first_where<T>(s: Seq<T>, p: spec_fn(T) -> bool) -> int
    decreases s.len(),
{
    if s.len() == 0 {
        -1
    } else {
        let k = first_where(s.drop_last(), p);
        if k >= 0 {
            k
        } else if p(s.last()) {
            s.len() - 1
        } else {
            -1
        }
    }
}

/// The first index that meets `p`, when there is one, meets it and is preceded by none.
pub proof fn lemma_first_where<T>(s: Seq<T>, p: spec_fn(T) -> bool)
    ensures
        -1 <= first_where(s, p) < s.len(),
        first_where(s, p) >= 0 ==> p(s[first_where(s, p)]),
        forall|j: int| 0 <= j < s.len() && j < first_where(s, p) ==> !p(#[trigger] s[j]),
        first_where(s, p) == -1 ==> forall|j: int| 0 <= j < s.len() ==> !p(#[trigger] s[j]),
    decreases s.len(),
{
    if s.len() > 0 {
        lemma_first_where(s.drop_last(), p);
        assert forall|j: int| 0 <= j < s.len() - 1 implies s.drop_last()[j] == s[j] by {}
    }
}

/// An index that meets `p` with none before it (or -1 when none does) is the first.
pub proof fn lemma_first_where_is<T>(s: Seq<T>, p: spec_fn(T) -> bool, k: int)
    requires
        -1 <= k < s.len(),
        k >= 0 ==> p(s[k]),
        forall|j: int| 0 <= j < s.len() && (k == -1 || j < k) ==> !p(#[trigger] s[j]),
    ensures
        first_where(s, p) == k,
    decreases s.len(),
{
    lemma_first_where(s, p);
    if s.len() > 0 {
        let t = s.drop_last();
        if k == s.len() - 1 {
            lemma_first_where_is(t, p, -1);
        } else {
            assert forall|j: int| 0 <= j < t.len() && (k == -1 || j < k) implies !p(
                #[trigger] t[j],
            ) by {
                assert(t[j] == s[j]);
            }
            if k >= 0 {
                assert(t[k] == s[k]);
            }
            lemma_first_where_is(t, p, k);
        }
    }
}

/// The position of the first knowledge entry with UUID `u`, or -1.
pub open spec fn entry_pos(k: Seq<EntryView>, u: Seq<char>) -> int {
    first_where(k, |e: EntryView| e.uuid == u)
}

/// Finds the first knowledge entry with UUID `u`.
pub fn find_entry(k: &Vec<KnowledgeEntry>, u: &str) -> (r: Option<usize>)
    ensures
        match r {
            Some(i) => i < k@.len() && i as int == entry_pos(entries_view(k@), u@)
                && k@[i as int].uuid@ == u@,
            None => entry_pos(entries_view(k@), u@) == -1,
        },
{
    let ghost kv = entries_view(k@);
    let ghost p = |e: EntryView| e.uuid == u@;
    let n = k.len();
    for i in 0..n
        invariant
            n == k@.len(),
            kv == entries_view(k@),
            p == (|e: EntryView| e.uuid == u@),
            forall|j: int| 0 <= j < i ==> !p(#[trigger] kv[j]),
    {
        if crate::text::str_eq(k[i].uuid.as_str(), u) {
            proof {
                lemma_first_where_is(kv, p, i as int);
            }
            return Some(i);
        }
    }
    proof {
        lemma_first_where_is(kv, p, -1);
    }
    None
}

/// Whether some link `l` has `l.knowledge_uuid == k`, `l.node_uuid == n` and
/// `l.relation == rel` (and, when `knowledge_only`, is a knowledge link).
pub open spec fn has_link(
    ls: Seq<LinkView>,
    k: Seq<char>,
    n: Seq<char>,
    rel: Seq<char>,
    knowledge_only: bool,
) -> bool {
    exists|i: int|
        0 <= i < ls.len() && (#[trigger] ls[i]).knowledge_uuid == k && ls[i].node_uuid == n
            && ls[i].relation == rel && (!knowledge_only || ls[i].is_knowledge_link())
}

/// Whether the links hold one from `k` to `n` with relation `rel` (knowledge
/// links only when `knowledge_only`).
pub fn link_exists(
    ls: &Vec<KnowledgeLink>,
    k: &str,
    n: &str,
    rel: &str,
    knowledge_only: bool,
) -> (r: bool)
    ensures
        r == has_link(links_view(ls@), k@, n@, rel@, knowledge_only),
{
    let ghost lv = links_view(ls@);
    let len = ls.len();
    for i in 0..len
        invariant
            len == ls@.len(),
            lv == links_view(ls@),
            forall|j: int|
                0 <= j < i ==> !((#[trigger] lv[j]).knowledge_uuid == k@ && lv[j].node_uuid == n@
                    && lv[j].relation == rel@ && (!knowledge_only || lv[j].is_knowledge_link())),
    {
        let l = &ls[i];
        assert(lv[i as int] == l@);
        if crate::text::str_eq(l.knowledge_uuid.as_str(), k) && crate::text::str_eq(
            l.node_uuid.as_str(),
            n,
        ) && crate::text::str_eq(l.relation.as_str(), rel) && (!knowledge_only
            || l.is_knowledge_link()) {
            return true;
        }
    }
    false
}

/// How many elements of `s` meet `p`.
pub open spec fn count_where<T>(s: Seq<T>, p: spec_fn(T) -> bool) -> nat
    decreases s.len(),
{
    if s.len() == 0 {
        0
    } else {
        count_where(s.drop_last(), p) + if p(s.last()) {
            1nat
        } else {
            0nat
        }
    }
}

/// Counting over one more element of `s`, and the count stays within the
/// length.
pub proof fn lemma_count_where_step<T>(s: Seq<T>, p: spec_fn(T) -> bool, i: int)
    requires
        0 <= i < s.len(),
    ensures
        count_where(s.take(i + 1), p) == count_where(s.take(i), p) + if p(s[i]) {
            1nat
        } else {
            0nat
        },
        count_where(s.take(i), p) <= i,
{
    assert(s.take(i + 1).drop_last() =~= s.take(i));
    assert(s.take(i + 1).last() == s[i]);
    lemma_count_where_le(s.take(i), p);
}

/// A count is at most the length.
pub proof fn lemma_count_where_le<T>(s: Seq<T>, p: spec_fn(T) -> bool)
    ensures
        count_where(s, p) <= s.len(),
    decreases s.len(),
{
    if s.len() > 0 {
        lemma_count_where_le(s.drop_last(), p);
    }
}

/// Counting with a predicate that holds of fewer elements, and fails on an
/// element where the first holds, gives less.
pub proof fn lemma_count_where_less<T>(s: Seq<T>, p: spec_fn(T) -> bool, q: spec_fn(T) -> bool, i: int)
    requires
        forall|x: T| #[trigger] q(x) ==> p(x),
        0 <= i < s.len(),
        p(s[i]),
        !q(s[i]),
    ensures
        count_where(s, q) < count_where(s, p),
    decreases s.len(),
{
    if i < s.len() - 1 {
        assert(s.drop_last()[i] == s[i]);
        lemma_count_where_less(s.drop_last(), p, q, i);
    } else {
        lemma_count_where_mono(s.drop_last(), p, q);
    }
}

/// Counting with a predicate that holds of fewer elements gives no more.
pub proof fn lemma_count_where_mono<T>(s: Seq<T>, p: spec_fn(T) -> bool, q: spec_fn(T) -> bool)
    requires
        forall|x: T| #[trigger] q(x) ==> p(x),
    ensures
        count_where(s, q) <= count_where(s, p),
    decreases s.len(),
{
    if s.len() > 0 {
        lemma_count_where_mono(s.drop_last(), p, q);
    }
}

} // verus!
