//! Forgetting knowledge that matches given criteria.
use vstd::prelude::*;

use crate::store::{keep_by_flags, lemma_keep_filter, lemma_keep_links_view, retain_flags};
use crate::text::contains;
use crate::types::{entries_view, links_view, strings_view, EntryView, KodexData, LinkView};

verus! {

/// Entry `e` (at position `i`) meets every criterion that is given: its
/// title holds `title`, its type is `ktype`, its description holds
/// `project`, and its confidence is below the limit (`below[i]`, which the
/// caller decides).
pub open spec fn meets(
    e: EntryView,
    i: int,
    title: Option<Seq<char>>,
    ktype: Option<Seq<char>>,
    project: Option<Seq<char>>,
    below: Option<Seq<bool>>,
) -> bool {
    &&& match title {
        Some(m) => contains(e.title, m),
        None => true,
    }
    &&& match ktype {
        Some(m) => e.knowledge_type == m,
        None => true,
    }
    &&& match project {
        Some(m) => contains(e.description, m),
        None => true,
    }
    &&& match below {
        Some(b) => b[i],
        None => true,
    }
}

/// The UUIDs of the entries of `k` (from position `from` on) that meet the
/// criteria, in order; none when no criterion is given.
pub open spec fn doomed(
    k: Seq<EntryView>,
    title: Option<Seq<char>>,
    ktype: Option<Seq<char>>,
    project: Option<Seq<char>>,
    below: Option<Seq<bool>>,
) -> Seq<Seq<char>>
    decreases k.len(),
{
    if k.len() == 0 || (title is None && ktype is None && project is None && below is None) {
        seq![]
    } else {
        let p = doomed(k.drop_last(), title, ktype, project, below);
        if meets(k.last(), k.len() - 1, title, ktype, project, below) {
            p.push(k.last().uuid)
        } else {
            p
        }
    }
}

/// An entry survives unless its UUID is among `gone`.
pub open spec fn entry_survives(gone: Seq<Seq<char>>) -> spec_fn(EntryView) -> bool {
    |e: EntryView| !gone.contains(e.uuid)
}

/// A link survives unless it comes from a forgotten entry or leads to one.
pub open spec fn link_kept(gone: Seq<Seq<char>>) -> spec_fn(LinkView) -> bool {
    |l: LinkView| !gone.contains(l.knowledge_uuid) && !(l.is_knowledge_link() && gone.contains(l.node_uuid))
}

/// Forget the entries that meet every given criterion (see [`meets`]; with
/// no criterion, nothing is forgotten), every entry that shares a UUID with
/// one of them, and the links from or to them. `below`, when given, holds
/// for each entry whether its confidence is under the limit. Returns how
/// many entries went.
pub fn forget_knowledge(
    data: &mut KodexData,
    title_match: Option<&str>,
    type_match: Option<&str>,
    project_match: Option<&str>,
    below: Option<&[bool]>,
) -> (r: usize)
    requires
        below matches Some(b) ==> b@.len() == old(data).knowledge@.len(),
    ensures
        ({
            let k = entries_view(old(data).knowledge@);
            let below_v = match below {
                Some(b) => Some(b@),
                None => None,
            };
            let gone = doomed(
                k,
                crate::learn::opt_str(title_match),
                crate::learn::opt_str(type_match),
                crate::learn::opt_str(project_match),
                below_v,
            );
            &&& entries_view(final(data).knowledge@) == k.filter(entry_survives(gone))
            &&& links_view(final(data).links@) == links_view(old(data).links@).filter(link_kept(gone))
            &&& r == k.len() - k.filter(entry_survives(gone)).len()
            &&& final(data).extraction == old(data).extraction
            &&& final(data).review_queue == old(data).review_queue
        }),
{
    let ghost k = entries_view(data.knowledge@);
    let ghost bv = match below {
        Some(b) => Some(b@),
        None => None,
    };
    let ghost tm = crate::learn::opt_str(title_match);
    let ghost ym = crate::learn::opt_str(type_match);
    let ghost pm = crate::learn::opt_str(project_match);
    let any = title_match.is_some() || type_match.is_some() || project_match.is_some() || below.is_some();
    let mut gone: Vec<String> = Vec::new();
    let n = data.knowledge.len();
    if any {
        assert(k.take(0) =~= Seq::<EntryView>::empty());
        assert(strings_view(gone@) =~= Seq::<Seq<char>>::empty());
        for i in 0..n
            invariant
                n == data.knowledge@.len(),
                k == entries_view(data.knowledge@),
                any == !(tm is None && ym is None && pm is None && bv is None),
                any,
                tm == crate::learn::opt_str(title_match),
                ym == crate::learn::opt_str(type_match),
                pm == crate::learn::opt_str(project_match),
                bv == match below {
                    Some(b) => Some(b@),
                    None => None::<Seq<bool>>,
                },
                below matches Some(b) ==> b@.len() == n,
                strings_view(gone@) == doomed(k.take(i as int), tm, ym, pm, bv),
        {
            assert(k.take(i + 1).drop_last() =~= k.take(i as int));
            assert(k.take(i + 1).last() == k[i as int]);
            let e = &data.knowledge[i];
            assert(k[i as int] == e@);
            let ok_title = match title_match {
                Some(m) => {
                    let t = crate::text::str_chars(e.title.as_str());
                    let mc = crate::text::str_chars(m);
                    crate::text::contains_exec(t.as_slice(), mc.as_slice())
                },
                None => true,
            };
            let ok_type = match type_match {
                Some(m) => crate::text::str_eq(e.knowledge_type.as_str(), m),
                None => true,
            };
            let ok_project = match project_match {
                Some(m) => {
                    let d = crate::text::str_chars(e.description.as_str());
                    let mc = crate::text::str_chars(m);
                    crate::text::contains_exec(d.as_slice(), mc.as_slice())
                },
                None => true,
            };
            let ok_below = match below {
                Some(b) => b[i],
                None => true,
            };
            if ok_title && ok_type && ok_project && ok_below {
                let ghost before = strings_view(gone@);
                gone.push(e.uuid.clone());
                assert(strings_view(gone@) =~= before.push(e@.uuid));
            }
        }
        assert(k.take(n as int) =~= k);
    } else {
        assert(strings_view(gone@) =~= doomed(k, tm, ym, pm, bv));
    }
    let ghost gv = strings_view(gone@);
    let mut kflags: Vec<bool> = Vec::new();
    for i in 0..n
        invariant
            n == data.knowledge@.len(),
            k == entries_view(data.knowledge@),
            gv == strings_view(gone@),
            kflags@.len() == i,
            forall|j: int| 0 <= j < i ==> kflags@[j] == entry_survives(gv)(#[trigger] k[j]),
    {
        assert(k[i as int] == data.knowledge@[i as int]@);
        kflags.push(!crate::learn::strings_contain(&gone, data.knowledge[i].uuid.as_str()));
    }
    let ghost kb = data.knowledge@;
    retain_flags(&mut data.knowledge, &kflags);
    proof {
        lemma_keep_filter(k, kflags@, entry_survives(gv));
        lemma_keep_entries_view(kb, kflags@);
    }
    let ghost lv = links_view(data.links@);
    let m = data.links.len();
    let mut lflags: Vec<bool> = Vec::new();
    for j in 0..m
        invariant
            m == data.links@.len(),
            lv == links_view(data.links@),
            gv == strings_view(gone@),
            lflags@.len() == j,
            forall|x: int| 0 <= x < j ==> lflags@[x] == link_kept(gv)(#[trigger] lv[x]),
    {
        let l = &data.links[j];
        assert(lv[j as int] == l@);
        let keep = !crate::learn::strings_contain(&gone, l.knowledge_uuid.as_str()) && !(l.is_knowledge_link()
            && crate::learn::strings_contain(&gone, l.node_uuid.as_str()));
        lflags.push(keep);
    }
    let ghost lb = data.links@;
    retain_flags(&mut data.links, &lflags);
    proof {
        lemma_keep_links_view(lb, lflags@);
        lemma_keep_filter(lv, lflags@, link_kept(gv));
        k.lemma_filter_len(entry_survives(gv));
    }
    n - data.knowledge.len()
}

/// The entries that the flags keep, viewed, are the kept views.
proof fn lemma_keep_entries_view(ks: Seq<crate::types::KnowledgeEntry>, flags: Seq<bool>)
    ensures
        entries_view(keep_by_flags(ks, flags)) == keep_by_flags(entries_view(ks), flags),
    decreases ks.len(),
{
    if ks.len() > 0 {
        lemma_keep_entries_view(ks.drop_last(), flags);
        assert(entries_view(ks.drop_last()) =~= entries_view(ks).drop_last());
        let p = keep_by_flags(ks.drop_last(), flags);
        if flags[ks.len() - 1] {
            assert(entries_view(p.push(ks.last())) =~= entries_view(p).push(ks.last()@));
        }
    }
}

} // verus!
