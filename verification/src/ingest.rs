//! Knowledge proposed by a project's own sources: its git history and its
//! README.
use vstd::prelude::*;
use vstd::string::StringExecFns;

use crate::misc::commit_kind;
use crate::render::{byte_len, utf8_len};
use crate::text::{join_with, lines, starts_with, trim};
use crate::types::strings_view;

verus! {

/// A knowledge entry that a source proposes: its title, type, description
/// and tags (the first tag marks where it came from).
#[derive(Debug)]
pub struct Proposal {
    pub title: String,
    pub knowledge_type: String,
    pub description: String,
    pub tags: Vec<String>,
}

/// The mathematical value of a [`Proposal`].
pub struct ProposalView {
    pub title: Seq<char>,
    pub knowledge_type: Seq<char>,
    pub description: Seq<char>,
    pub tags: Seq<Seq<char>>,
}

/// The mathematical value of a [`Proposal`].
pub open spec fn proposal_view(p: Proposal) -> ProposalView {
    ProposalView {
        title: p.title@,
        knowledge_type: p.knowledge_type@,
        description: p.description@,
        tags: strings_view(p.tags@),
    }
}

/// The views of a list of proposals.
pub open spec fn proposals_view(v: Seq<Proposal>) -> Seq<ProposalView> {
    Seq::new(v.len(), |i: int| proposal_view(v[i]))
}

/// The number of leading characters of `s` that take exactly `b` bytes in
/// UTF-8, or -1 when byte `b` falls inside a character or past the end.
pub open spec fn char_count_at(s: Seq<char>, b: nat) -> int
    decreases s.len(),
{
    if b == 0 {
        0
    } else if s.len() == 0 || utf8_len(s[0]) > b {
        -1
    } else {
        let r = char_count_at(s.drop_first(), (b - utf8_len(s[0])) as nat);
        if r >= 0 {
            r + 1
        } else {
            -1
        }
    }
}

/// A line of `git log --oneline` can be cut at bytes 7 and 8 (after the
/// abbreviated hash, and after the space), when it is long enough to be read.
pub open spec fn commit_line_cuttable(l: Seq<char>) -> bool {
    byte_len(l) >= 9 ==> char_count_at(l, 7) >= 0 && char_count_at(l, 8) >= 0
}

/// Every line of the log can be cut where it is read.
pub open spec fn commit_log_cuttable(log: Seq<char>) -> bool {
    forall|i: int| 0 <= i < lines(log).len() ==> commit_line_cuttable(#[trigger] lines(log)[i])
}

/// What a line of `git log --oneline` proposes: nothing when it is shorter
/// than 9 bytes or the commit is not worth saving (see [`commit_kind`]);
/// else an entry titled by the message, of the kind the message suggests,
/// tagged with the commit and the project.
pub open spec fn commit_proposal(l: Seq<char>, project: Seq<char>) -> Option<ProposalView> {
    if byte_len(l) < 9 {
        None
    } else {
        let hash = l.take(char_count_at(l, 7));
        let msg = trim(l.skip(char_count_at(l, 8)));
        let k = commit_kind(msg);
        if !k.1 {
            None
        } else {
            Some(
                ProposalView {
                    title: msg,
                    knowledge_type: k.0,
                    description: "From git commit "@ + hash + " in "@ + project,
                    tags: seq!["commit:"@ + hash, "project:"@ + project, "git-commit"@],
                },
            )
        }
    }
}

/// The first tags of the proposals.
pub open spec fn first_tags(p: Seq<ProposalView>) -> Seq<Seq<char>> {
    p.map_values(|q: ProposalView| q.tags[0])
}

/// The proposals of the log lines `ls`, in order, leaving out commits
/// already imported (their tag is among `existing`, or among the proposals
/// before).
pub open spec fn commit_scan(ls: Seq<Seq<char>>, project: Seq<char>, existing: Seq<Seq<char>>) -> Seq<ProposalView>
    decreases ls.len(),
{
    if ls.len() == 0 {
        seq![]
    } else {
        let p = commit_scan(ls.drop_last(), project, existing);
        match commit_proposal(ls.last(), project) {
            Some(x) => if existing.contains(x.tags[0]) || first_tags(p).contains(x.tags[0]) {
                p
            } else {
                p.push(x)
            },
            None => p,
        }
    }
}

proof fn lemma_char_count_step(s: Seq<char>, b: nat, k: int, acc: nat)
    requires
        0 <= k < s.len(),
        acc + utf8_len(s[k]) <= b,
    ensures
        (if char_count_at(s.skip(k), (b - acc) as nat) >= 0 {
            k + char_count_at(s.skip(k), (b - acc) as nat)
        } else {
            -1
        }) == (if char_count_at(s.skip(k + 1), (b - acc - utf8_len(s[k])) as nat) >= 0 {
            k + 1 + char_count_at(s.skip(k + 1), (b - acc - utf8_len(s[k])) as nat)
        } else {
            -1
        }),
{
    assert(s.skip(k).drop_first() =~= s.skip(k + 1));
    assert(s.skip(k)[0] == s[k]);
    if b - acc > 0 {
    } else {
        assert(utf8_len(s[k]) >= 1);
    }
}

/// The number of leading characters of `s` that take exactly `b` bytes
/// (see [`char_count_at`]).
pub fn char_count_exec(s: &[char], b: usize) -> (r: Option<usize>)
    ensures
        match r {
            Some(k) => char_count_at(s@, b as nat) == k as int,
            None => char_count_at(s@, b as nat) == -1,
        },
{
    let n = s.len();
    let mut k: usize = 0;
    let mut acc: usize = 0;
    assert(s@.skip(0) =~= s@);
    while k < n && acc < b && crate::render::utf8_len_exec(s[k]) <= b - acc
        invariant
            k <= n,
            n == s@.len(),
            acc <= b,
            char_count_at(s@, b as nat) == (if char_count_at(s@.skip(k as int), (b - acc) as nat) >= 0 {
                k + char_count_at(s@.skip(k as int), (b - acc) as nat)
            } else {
                -1
            }),
        decreases n - k,
    {
        proof {
            lemma_char_count_step(s@, b as nat, k as int, acc as nat);
        }
        acc = acc + crate::render::utf8_len_exec(s[k]);
        k = k + 1;
    }
    if acc == b {
        Some(k)
    } else {
        if k < n {
            assert(s@.skip(k as int)[0] == s@[k as int]);
        }
        None
    }
}

/// Whether every line of `log` can be cut where it is read (see
/// [`commit_log_cuttable`]).
pub fn commit_log_cuttable_exec(log: &str) -> (r: bool)
    ensures
        r == commit_log_cuttable(log@),
{
    let cs = crate::text::str_chars(log);
    let ls = crate::text::lines_exec(cs.as_slice());
    let ghost lv = crate::text::vecs_view(ls@);
    let n = ls.len();
    for i in 0..n
        invariant
            n == ls@.len(),
            lv == crate::text::vecs_view(ls@),
            lv == lines(log@),
            forall|j: int| 0 <= j < i ==> commit_line_cuttable(#[trigger] lv[j]),
    {
        let l = &ls[i];
        assert(lv[i as int] == l@);
        if crate::render::byte_len_exceeds(l.as_slice(), 8) {
            if char_count_exec(l.as_slice(), 7).is_none() || char_count_exec(l.as_slice(), 8).is_none() {
                return false;
            }
        }
    }
    true
}

fn concat3(a: &str, b: &[char], c: &str) -> (r: String)
    ensures
        r@ == a@ + b@ + c@,
{
    let mut s = String::from_str(a);
    let m = crate::text::chars_to_string(b);
    s.append(m.as_str());
    s.append(c);
    s
}

fn commit_proposal_exec(l: &Vec<char>, project: &str) -> (r: Option<Proposal>)
    requires
        commit_line_cuttable(l@),
    ensures
        match r {
            Some(p) => commit_proposal(l@, project@) == Some(proposal_view(p)),
            None => commit_proposal(l@, project@) is None,
        },
{
    if !crate::render::byte_len_exceeds(l.as_slice(), 8) {
        return None;
    }
    let k7 = match char_count_exec(l.as_slice(), 7) {
        Some(k) => k,
        None => return None,
    };
    let k8 = match char_count_exec(l.as_slice(), 8) {
        Some(k) => k,
        None => return None,
    };
    proof {
        lemma_char_count_le(l@, 7);
        lemma_char_count_le(l@, 8);
    }
    let hash = crate::text::sub_vec(l.as_slice(), 0, k7);
    let rest = crate::text::sub_vec(l.as_slice(), k8, l.len());
    let msg = crate::text::trim_vec(rest.as_slice());
    let ms = crate::text::chars_to_string(msg.as_slice());
    assert(hash@ =~= l@.take(k7 as int));
    assert(rest@ =~= l@.skip(k8 as int));
    let (kt, save) = crate::misc::classify_commit(ms.as_str());
    if !save {
        return None;
    }
    let mut pdesc = String::from_str(" in ");
    pdesc.append(project);
    let description = concat3("From git commit ", hash.as_slice(), pdesc.as_str());
    let tag = concat3("commit:", hash.as_slice(), "");
    proof {
        reveal_strlit("");
    }
    let mut ptag = String::from_str("project:");
    ptag.append(project);
    let mut tags: Vec<String> = Vec::new();
    tags.push(tag);
    tags.push(ptag);
    tags.push(String::from_str("git-commit"));
    let p = Proposal { title: ms, knowledge_type: String::from_str(kt), description, tags };
    assert(proposal_view(p).tags =~= seq!["commit:"@ + hash@, "project:"@ + project@, "git-commit"@]);
    assert(proposal_view(p).description =~= "From git commit "@ + hash@ + " in "@ + project@);
    Some(p)
}

/// A count of leading characters is at most the length.
pub proof fn lemma_char_count_le(s: Seq<char>, b: nat)
    ensures
        char_count_at(s, b) <= s.len(),
    decreases s.len(),
{
    if b > 0 && s.len() > 0 && utf8_len(s[0]) <= b {
        lemma_char_count_le(s.drop_first(), (b - utf8_len(s[0])) as nat);
    }
}

/// The entries that the output of `git log --oneline` proposes for project
/// `project`, in log order (see [`commit_scan`]); commits whose tag is in
/// `existing` were imported before.
pub fn commit_proposals(log: &str, project: &str, existing: &Vec<String>) -> (r: Vec<Proposal>)
    requires
        commit_log_cuttable(log@),
    ensures
        proposals_view(r@) == commit_scan(lines(log@), project@, strings_view(existing@)),
{
    let cs = crate::text::str_chars(log);
    let ls = crate::text::lines_exec(cs.as_slice());
    let ghost lv = crate::text::vecs_view(ls@);
    let ghost ev = strings_view(existing@);
    let mut out: Vec<Proposal> = Vec::new();
    let mut seen: Vec<String> = Vec::new();
    let n = ls.len();
    assert(lv.take(0) =~= Seq::<Seq<char>>::empty());
    assert(proposals_view(out@) =~= Seq::<ProposalView>::empty());
    assert(strings_view(seen@) =~= first_tags(proposals_view(out@)));
    for i in 0..n
        invariant
            n == ls@.len(),
            lv == crate::text::vecs_view(ls@),
            lv == lines(log@),
            ev == strings_view(existing@),
            commit_log_cuttable(log@),
            proposals_view(out@) == commit_scan(lv.take(i as int), project@, ev),
            strings_view(seen@) == first_tags(proposals_view(out@)),
    {
        assert(lv.take(i + 1).drop_last() =~= lv.take(i as int));
        assert(lv.take(i + 1).last() == lv[i as int]);
        assert(lv[i as int] == ls@[i as int]@);
        assert(commit_line_cuttable(lv[i as int]));
        match commit_proposal_exec(&ls[i], project) {
            Some(p) => {
                assert(proposal_view(p).tags.len() == 3);
                assert(p.tags@.len() == 3);
                let t0 = p.tags[0].as_str();
                if !crate::learn::strings_contain(existing, t0) && !crate::learn::strings_contain(&seen, t0) {
                    let t = p.tags[0].clone();
                    let ghost before = proposals_view(out@);
                    let ghost pv = proposal_view(p);
                    out.push(p);
                    let ghost sb = strings_view(seen@);
                    seen.push(t);
                    assert(proposals_view(out@) =~= before.push(pv));
                    assert(strings_view(seen@) =~= sb.push(t@));
                    assert(first_tags(proposals_view(out@)) =~= first_tags(before).push(pv.tags[0]));
                }
            },
            None => {},
        }
    }
    assert(lv.take(n as int) =~= lv);
    out
}

/// The lines after the leading headings (`#` lines) and blank lines.
pub open spec fn skip_heading(ls: Seq<Seq<char>>) -> Seq<Seq<char>>
    decreases ls.len(),
{
    if ls.len() > 0 && (starts_with(ls[0], "#"@) || trim(ls[0]).len() == 0) {
        skip_heading(ls.drop_first())
    } else {
        ls
    }
}

/// The leading lines up to the first blank one.
pub open spec fn take_para(ls: Seq<Seq<char>>) -> Seq<Seq<char>>
    decreases ls.len(),
{
    if ls.len() > 0 && trim(ls[0]).len() > 0 {
        seq![ls[0]] + take_para(ls.drop_first())
    } else {
        seq![]
    }
}

/// The summary of a README: its first paragraph after the headings, its
/// lines joined by spaces.
pub open spec fn readme_summary(content: Seq<char>) -> Seq<char> {
    join_with(take_para(skip_heading(lines(content))), " "@)
}

/// The tag of the overview imported from a project's README.
pub open spec fn readme_tag(project: Seq<char>) -> Seq<char> {
    "readme:"@ + project
}

/// A long summary can be cut after 500 bytes, where it would be.
pub open spec fn readme_cuttable(content: Seq<char>, project: Seq<char>, existing: Seq<Seq<char>>) -> bool {
    byte_len(content) >= 50 && !existing.contains(readme_tag(project)) && byte_len(readme_summary(content)) > 500
        ==> char_count_at(readme_summary(content), 500) >= 0
}

/// What a project's README proposes: nothing when it is under 50 bytes,
/// when its overview was imported before (its tag is among `existing`), or
/// when its summary is under 20 bytes; else an architecture overview whose
/// description is the summary, cut after 500 bytes with `...` when longer.
pub open spec fn readme_proposal(content: Seq<char>, project: Seq<char>, existing: Seq<Seq<char>>) -> Option<
    ProposalView,
> {
    let tag = readme_tag(project);
    if byte_len(content) < 50 || existing.contains(tag) {
        None
    } else {
        let s = readme_summary(content);
        if byte_len(s) < 20 {
            None
        } else {
            Some(
                ProposalView {
                    title: project + " project overview"@,
                    knowledge_type: "architecture"@,
                    description: if byte_len(s) > 500 {
                        s.take(char_count_at(s, 500)) + "..."@
                    } else {
                        s
                    },
                    tags: seq![tag, "project:"@ + project, "readme"@],
                },
            )
        }
    }
}

fn readme_summary_exec(content: &str) -> (r: Vec<char>)
    ensures
        r@ == readme_summary(content@),
{
    let cs = crate::text::str_chars(content);
    let ls = crate::text::lines_exec(cs.as_slice());
    let ghost lv = crate::text::vecs_view(ls@);
    let n = ls.len();
    let hash = crate::text::str_chars("#");
    let mut i: usize = 0;
    assert(lv.skip(0) =~= lv);
    while i < n && (crate::text::starts_with_exec(ls[i].as_slice(), hash.as_slice())
        || crate::text::trim_vec(ls[i].as_slice()).len() == 0)
        invariant
            i <= n,
            n == ls@.len(),
            lv == crate::text::vecs_view(ls@),
            hash@ == "#"@,
            skip_heading(lv) == skip_heading(lv.skip(i as int)),
        decreases n - i,
    {
        assert(lv.skip(i as int).drop_first() =~= lv.skip(i + 1));
        assert(lv.skip(i as int)[0] == ls@[i as int]@);
        i = i + 1;
    }
    if i < n {
        assert(lv.skip(i as int)[0] == ls@[i as int]@);
    }
    let mut parts: Vec<String> = Vec::new();
    let mut j: usize = i;
    assert(strings_view(parts@) =~= lv.subrange(i as int, j as int));
    while j < n && crate::text::trim_vec(ls[j].as_slice()).len() > 0
        invariant
            i <= j <= n,
            n == ls@.len(),
            lv == crate::text::vecs_view(ls@),
            take_para(lv.skip(i as int)) == lv.subrange(i as int, j as int) + take_para(lv.skip(j as int)),
            strings_view(parts@) == lv.subrange(i as int, j as int),
        decreases n - j,
    {
        assert(lv.skip(j as int).drop_first() =~= lv.skip(j + 1));
        assert(lv.skip(j as int)[0] == ls@[j as int]@);
        assert(lv.subrange(i as int, j + 1) =~= lv.subrange(i as int, j as int).push(ls@[j as int]@));
        let ghost before = strings_view(parts@);
        parts.push(crate::text::chars_to_string(ls[j].as_slice()));
        assert(strings_view(parts@) =~= before.push(ls@[j as int]@));
        j = j + 1;
    }
    if j < n {
        assert(lv.skip(j as int)[0] == ls@[j as int]@);
    }
    assert(take_para(lv.skip(j as int)) =~= Seq::<Seq<char>>::empty());
    assert(lv.subrange(i as int, j as int) + Seq::<Seq<char>>::empty() =~= lv.subrange(i as int, j as int));
    let joined = crate::text::join_strings(parts.as_slice(), " ");
    crate::text::str_chars(joined.as_str())
}

/// Whether a long README summary can be cut where it would be (see
/// [`readme_cuttable`]).
pub fn readme_cuttable_exec(content: &str, project: &str, existing: &Vec<String>) -> (r: bool)
    ensures
        r == readme_cuttable(content@, project@, strings_view(existing@)),
{
    let cs = crate::text::str_chars(content);
    if !crate::render::byte_len_exceeds(cs.as_slice(), 49) {
        return true;
    }
    let mut tag = String::from_str("readme:");
    tag.append(project);
    if crate::learn::strings_contain(existing, tag.as_str()) {
        return true;
    }
    let s = readme_summary_exec(content);
    if !crate::render::byte_len_exceeds(s.as_slice(), 500) {
        return true;
    }
    char_count_exec(s.as_slice(), 500).is_some()
}

/// The overview that a project's README proposes (see [`readme_proposal`]).
pub fn readme_proposal_exec(content: &str, project: &str, existing: &Vec<String>) -> (r: Option<Proposal>)
    requires
        readme_cuttable(content@, project@, strings_view(existing@)),
    ensures
        match r {
            Some(p) => readme_proposal(content@, project@, strings_view(existing@)) == Some(proposal_view(p)),
            None => readme_proposal(content@, project@, strings_view(existing@)) is None,
        },
{
    let cs = crate::text::str_chars(content);
    if !crate::render::byte_len_exceeds(cs.as_slice(), 49) {
        return None;
    }
    let mut tag = String::from_str("readme:");
    tag.append(project);
    if crate::learn::strings_contain(existing, tag.as_str()) {
        return None;
    }
    let s = readme_summary_exec(content);
    if !crate::render::byte_len_exceeds(s.as_slice(), 19) {
        return None;
    }
    let description = if crate::render::byte_len_exceeds(s.as_slice(), 500) {
        let k = match char_count_exec(s.as_slice(), 500) {
            Some(k) => k,
            None => return None,
        };
        proof {
            lemma_char_count_le(s@, 500);
        }
        let cut = crate::text::sub_vec(s.as_slice(), 0, k);
        let mut d = crate::text::chars_to_string(cut.as_slice());
        d.append("...");
        assert(cut@ =~= s@.take(k as int));
        d
    } else {
        crate::text::chars_to_string(s.as_slice())
    };
    let mut title = String::from_str(project);
    title.append(" project overview");
    let mut ptag = String::from_str("project:");
    ptag.append(project);
    let mut tags: Vec<String> = Vec::new();
    tags.push(tag);
    tags.push(ptag);
    tags.push(String::from_str("readme"));
    let p = Proposal { title, knowledge_type: String::from_str("architecture"), description, tags };
    assert(proposal_view(p).tags =~= seq![readme_tag(project@), "project:"@ + project@, "readme"@]);
    Some(p)
}

} // verus!
