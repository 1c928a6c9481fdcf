//! Finding a node's source file and cutting a snippet around a line.
use vstd::prelude::*;
use vstd::string::StringExecFns;

use crate::paths::path_join;
use crate::registry::{key_pos, Registry};
use crate::security::url::{digits_value, is_digit};
use crate::text::{lines, split_once, strip_lead_char, trim, trim_end};
use crate::types::strings_view;

verus! {

/// The paths at which a node's `source_file` may be found, in the order they
/// are tried: the path itself when absolute; then, when its first segment
/// names a registered project, the rest of it under the project's path (the
/// project's path alone when there is no rest), and the whole of it under the
/// project's path.
pub open spec fn source_candidates(sf: Seq<char>, r: &Registry) -> Seq<Seq<char>> {
    if sf.len() == 0 {
        seq![]
    } else {
        let direct: Seq<Seq<char>> = if sf[0] == '/' {
            seq![sf]
        } else {
            seq![]
        };
        let parts = match split_once(sf, '/') {
            Some(p) => p,
            None => (sf, seq![]),
        };
        let k = key_pos(r, parts.0);
        direct + if k >= 0 {
            let p = r.projects@[k].1.path@;
            seq![if parts.1.len() == 0 {
                p
            } else {
                path_join(p, parts.1)
            }, path_join(p, sf)]
        } else {
            seq![]
        }
    }
}

/// The candidate paths of a source file (see [`source_candidates`]).
pub fn source_path_candidates(source_file: &str, reg: &Registry) -> (r: Vec<String>)
    ensures
        strings_view(r@) == source_candidates(source_file@, reg),
{
    let mut out: Vec<String> = Vec::new();
    let sf = crate::text::str_chars(source_file);
    if sf.len() == 0 {
        assert(strings_view(out@) =~= seq![]);
        return out;
    }
    if sf[0] == '/' {
        out.push(String::from_str(source_file));
    }
    let ghost direct = strings_view(out@);
    let (head, rest) = match crate::text::split_once_exec(sf.as_slice(), '/') {
        Some(p) => p,
        None => (sf.clone(), Vec::new()),
    };
    let head_s = crate::text::chars_to_string(head.as_slice());
    let rest_s = crate::text::chars_to_string(rest.as_slice());
    let n = reg.projects.len();
    let mut k: usize = 0;
    let ghost keys = crate::registry::registry_keys(reg);
    let ghost p = crate::graph::is_id(head@);
    while k < n && !crate::text::str_eq(reg.projects[k].0.as_str(), head_s.as_str())
        invariant
            n == reg.projects@.len(),
            k <= n,
            keys == crate::registry::registry_keys(reg),
            p == crate::graph::is_id(head@),
            head_s@ == head@,
            forall|j: int| 0 <= j < k ==> !p(#[trigger] keys[j]),
        decreases n - k,
    {
        k = k + 1;
    }
    proof {
        if k < n {
            crate::seqs::lemma_first_where_is(keys, p, k as int);
        } else {
            crate::seqs::lemma_first_where_is(keys, p, -1);
        }
    }
    if k < n {
        let base = reg.projects[k].1.path.as_str();
        let first = if rest.len() == 0 {
            String::from_str(base)
        } else {
            crate::paths::join_path(base, rest_s.as_str())
        };
        let ghost b = out@;
        out.push(first);
        out.push(crate::paths::join_path(base, source_file));
        assert(strings_view(out@) =~= strings_view(b) + seq![
            strings_view(out@)[b.len() as int],
            strings_view(out@)[b.len() as int + 1],
        ]);
    } else {
        assert(strings_view(out@) =~= direct + Seq::<Seq<char>>::empty());
    }
    out
}

/// Membership in a list of texts, as a predicate.
pub open spec fn in_list(v: Seq<Seq<char>>) -> spec_fn(Seq<char>) -> bool {
    |x: Seq<char>| v.contains(x)
}

/// Resolve a node's `source_file` to the first candidate path (see
/// [`source_candidates`]) among `existing`, the candidates found on disk.
pub fn resolve_source_path(source_file: &str, reg: &Registry, existing: &[String]) -> (r: Option<String>)
    ensures
        ({
            let c = source_candidates(source_file@, reg);
            let i = crate::seqs::first_where(c, in_list(strings_view(existing@)));
            match r {
                Some(p) => i >= 0 && p@ == c[i],
                None => i == -1,
            }
        }),
{
    let cands = source_path_candidates(source_file, reg);
    let ghost c = strings_view(cands@);
    let ghost pred = in_list(strings_view(existing@));
    let n = cands.len();
    for i in 0..n
        invariant
            n == cands@.len(),
            c == strings_view(cands@),
            c == source_candidates(source_file@, reg),
            pred == in_list(strings_view(existing@)),
            forall|j: int| 0 <= j < i ==> !pred(#[trigger] c[j]),
    {
        assert(c[i as int] == cands@[i as int]@);
        if crate::learning::contains_str(existing, cands[i].as_str()) {
            proof {
                crate::seqs::lemma_first_where_is(c, pred, i as int);
            }
            return Some(cands[i].clone());
        }
    }
    proof {
        crate::seqs::lemma_first_where_is(c, pred, -1);
    }
    None
}

/// A separator after a line number: `-`, `,` or `:`.
pub open spec fn is_loc_sep(c: char) -> bool {
    c == '-' || c == ',' || c == ':'
}

/// `s` up to its first separator.
pub open spec fn until_sep(s: Seq<char>) -> Seq<char>
    decreases s.len(),
{
    if s.len() == 0 || is_loc_sep(s[0]) {
        seq![]
    } else {
        seq![s[0]] + until_sep(s.drop_first())
    }
}

/// `s` without one leading `+`.
pub open spec fn sign_stripped(s: Seq<char>) -> Seq<char> {
    if s.len() > 0 && s[0] == '+' {
        s.drop_first()
    } else {
        s
    }
}

/// One or more decimal digits whose value fits in `usize`.
pub open spec fn parse_digits(d: Seq<char>) -> Option<usize> {
    if d.len() == 0 || exists|i: int| 0 <= i < d.len() && !is_digit(#[trigger] d[i]) {
        None
    } else if digits_value(d) > usize::MAX {
        None
    } else {
        Some(digits_value(d) as usize)
    }
}

/// What std's `usize::from_str` gives: an optional `+`, then one or more
/// decimal digits whose value fits in `usize`.
pub open spec fn parse_usize(s: Seq<char>) -> Option<usize> {
    parse_digits(sign_stripped(s))
}

/// The line number of a source location such as `L42`, `42`, `L100-L105`
/// or `  L7  `: trimmed, leading `L`s dropped, cut at the first `-`, `,` or
/// `:`, leading `L`s dropped again, then read as a `usize`.
pub open spec fn spec_line_number(loc: Seq<char>) -> Option<usize> {
    parse_usize(strip_lead_char(until_sep(strip_lead_char(trim(loc), 'L')), 'L'))
}

proof fn lemma_digits_prefix(s: Seq<char>, k: int)
    requires
        0 <= k <= s.len(),
    ensures
        digits_value(s.take(k)) <= digits_value(s),
    decreases s.len() - k,
{
    if k < s.len() {
        lemma_digits_prefix(s, k + 1);
        assert(s.take(k + 1).drop_last() =~= s.take(k));
    } else {
        assert(s.take(k) =~= s);
    }
}

fn parse_usize_exec(s: &[char]) -> (r: Option<usize>)
    ensures
        r == parse_usize(s@),
{
    let start: usize = if s.len() > 0 && s[0] == '+' {
        1
    } else {
        0
    };
    let d = crate::text::sub_vec(s, start, s.len());
    assert(d@ =~= sign_stripped(s@));
    if d.len() == 0 {
        return None;
    }
    let n = d.len();
    let mut acc: usize = 0;
    assert(d@.take(0) =~= seq![]);
    for i in 0..n
        invariant
            n == d@.len(),
            n > 0,
            d@ == sign_stripped(s@),
            acc == digits_value(d@.take(i as int)),
            forall|j: int| 0 <= j < i ==> is_digit(#[trigger] d@[j]),
    {
        let c = d[i];
        if !('0' <= c && c <= '9') {
            assert(!is_digit(d@[i as int]));
            assert(parse_digits(d@) is None);
            return None;
        }
        assert(d@.take(i + 1).drop_last() =~= d@.take(i as int));
        assert(d@.take(i + 1).last() == c);
        let v = (c as u32 - '0' as u32) as usize;
        assert(v == (c as nat) - ('0' as nat));
        match acc.checked_mul(10) {
            Some(m) => match m.checked_add(v) {
                Some(x) => {
                    acc = x;
                },
                None => {
                    let r = check_rest(&d, i + 1);
                    assert(parse_digits(d@) is None);
                    return r;
                },
            },
            None => {
                let r = check_rest(&d, i + 1);
                assert(parse_digits(d@) is None);
                return r;
            },
        }
    }
    assert(d@.take(n as int) =~= d@);
    Some(acc)
}

/// After an overflowing prefix: `None` either way (too large, or a non-digit
/// follows); the loop over the rest only serves the proof.
fn check_rest(d: &Vec<char>, from: usize) -> (r: Option<usize>)
    requires
        0 < from <= d@.len(),
        forall|j: int| 0 <= j < from ==> is_digit(#[trigger] d@[j]),
        digits_value(d@.take(from as int)) > usize::MAX,
    ensures
        r is None,
        parse_usize_digits_none(d@),
{
    proof {
        lemma_digits_prefix(d@, from as int);
    }
    None
}

/// Digits too large for `usize`, or a non-digit: the parse fails.
pub open spec fn parse_usize_digits_none(d: Seq<char>) -> bool {
    (exists|i: int| 0 <= i < d.len() && !is_digit(#[trigger] d[i])) || digits_value(d) > usize::MAX
}

/// A `usize` read as std's `usize::from_str` reads it (see [`parse_usize`]).
pub fn parse_usize_str(s: &str) -> (r: Option<usize>)
    ensures
        r == parse_usize(s@),
{
    let cs = crate::text::str_chars(s);
    parse_usize_exec(cs.as_slice())
}

/// The line number of a source location (see [`spec_line_number`]).
pub fn parse_line_number(loc: &str) -> (r: Option<usize>)
    ensures
        r == spec_line_number(loc@),
{
    let cs = crate::text::str_chars(loc);
    let t = crate::text::trim_vec(cs.as_slice());
    let a = crate::text::strip_lead_char_exec(t.as_slice(), 'L');
    let mut k: usize = 0;
    let n = a.len();
    while k < n && !(a[k] == '-' || a[k] == ',' || a[k] == ':')
        invariant
            k <= n,
            n == a@.len(),
            forall|j: int| 0 <= j < k ==> !is_loc_sep(#[trigger] a@[j]),
        decreases n - k,
    {
        k = k + 1;
    }
    proof {
        lemma_until_sep(a@, k as int);
    }
    let first = crate::text::sub_vec(a.as_slice(), 0, k);
    let b = crate::text::strip_lead_char_exec(first.as_slice(), 'L');
    parse_usize_exec(b.as_slice())
}

proof fn lemma_until_sep(s: Seq<char>, k: int)
    requires
        0 <= k <= s.len(),
        forall|j: int| 0 <= j < k ==> !is_loc_sep(#[trigger] s[j]),
        k == s.len() || is_loc_sep(s[k]),
    ensures
        until_sep(s) == s.take(k),
    decreases k,
{
    if k > 0 {
        let t = s.drop_first();
        assert forall|j: int| 0 <= j < k - 1 implies !is_loc_sep(#[trigger] t[j]) by {
            assert(t[j] == s[j + 1]);
        }
        lemma_until_sep(t, k - 1);
        assert(s.take(k) =~= seq![s[0]] + t.take(k - 1));
    } else {
        assert(s.take(0) =~= seq![]);
    }
}

/// The snippet around line `line` (1-based) of a text: `lines_above` lines
/// before it and `lines_below` after it (as far as the text goes), each with
/// trailing white space removed, joined by newlines. `None` for line 0 or a
/// line past the end.
pub open spec fn snippet_text(content: Seq<char>, line: int, lines_above: int, lines_below: int) -> Option<
    Seq<char>,
> {
    let ls = lines(content);
    if line == 0 || line > ls.len() {
        None
    } else {
        let start = if lines_above + 1 >= line {
            0
        } else {
            line - lines_above - 1
        };
        let end = if line + lines_below > ls.len() {
            ls.len() as int
        } else {
            line + lines_below
        };
        Some(
            crate::text::join_with(
                ls.subrange(start, end).map_values(|l: Seq<char>| trim_end(l)),
                seq!['\n'],
            ),
        )
    }
}

/// The snippet around line `line` of `content` (see [`snippet_text`]).
pub fn read_snippet_text(content: &str, line: usize, lines_above: usize, lines_below: usize) -> (r: Option<
    String,
>)
    ensures
        match r {
            Some(s) => snippet_text(content@, line as int, lines_above as int, lines_below as int) == Some(s@),
            None => snippet_text(content@, line as int, lines_above as int, lines_below as int) is None,
        },
{
    let cs = crate::text::str_chars(content);
    let ls = crate::text::lines_exec(cs.as_slice());
    let ghost lv = crate::text::vecs_view(ls@);
    let n = ls.len();
    if line == 0 || line > n {
        return None;
    }
    let start = if lines_above >= line - 1 {
        0
    } else {
        line - lines_above - 1
    };
    let end = if lines_below > n - line {
        n
    } else {
        line + lines_below
    };
    let mut parts: Vec<String> = Vec::new();
    let ghost want = lv.subrange(start as int, end as int).map_values(|l: Seq<char>| trim_end(l));
    for i in start..end
        invariant
            start <= end <= n,
            n == ls@.len(),
            lv == crate::text::vecs_view(ls@),
            want == lv.subrange(start as int, end as int).map_values(|l: Seq<char>| trim_end(l)),
            strings_view(parts@) == want.take(i - start),
    {
        let t = crate::text::trim_end_vec(ls[i].as_slice());
        assert(lv[i as int] == ls@[i as int]@);
        let ghost b = parts@;
        parts.push(crate::text::chars_to_string(t.as_slice()));
        assert(strings_view(parts@) =~= strings_view(b).push(t@));
        assert(want.take(i + 1 - start) =~= want.take(i - start).push(t@));
    }
    assert(want.take(end - start) =~= want);
    let r = crate::text::join_strings(parts.as_slice(), "\n");
    proof {
        reveal_strlit("\n");
        assert("\n"@ =~= seq!['\n']);
    }
    Some(r)
}

/// The snippet for a node: `None` unless its file's text (`content`, `None`
/// when the file could not be found or read) and a readable line number in
/// `source_location` are there (see [`snippet_text`]).
pub fn snippet_for(
    content: Option<&str>,
    source_location: Option<&str>,
    lines_above: usize,
    lines_below: usize,
) -> (r: Option<String>)
    ensures
        match r {
            Some(s) => content is Some && source_location is Some && spec_line_number(
                source_location.unwrap()@,
            ) is Some && snippet_text(
                content.unwrap()@,
                spec_line_number(source_location.unwrap()@).unwrap() as int,
                lines_above as int,
                lines_below as int,
            ) == Some(s@),
            None => content is None || source_location is None || spec_line_number(
                source_location.unwrap()@,
            ) is None || snippet_text(
                content.unwrap()@,
                spec_line_number(source_location.unwrap()@).unwrap() as int,
                lines_above as int,
                lines_below as int,
            ) is None,
        },
{
    let text = match content {
        Some(t) => t,
        None => return None,
    };
    let loc = match source_location {
        Some(l) => l,
        None => return None,
    };
    let line = match parse_line_number(loc) {
        Some(l) => l,
        None => return None,
    };
    read_snippet_text(text, line, lines_above, lines_below)
}

} // verus!
