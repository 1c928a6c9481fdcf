//! Markdown notes of the vault: front matter, titles and links.
use vstd::prelude::*;
use vstd::string::StringExecFns;

use crate::id::trim_char;
use crate::render::utf8_len;
use crate::security::url::find_first;
use crate::text::{is_whitespace, lines, split_once, starts_with, trim, vecs_view};
use crate::types::{Confidence, Edge, ExtractionResult, FileType, Node};

verus! {

/// The position, in `content` after its first three characters, of the first
/// `\n---` (the end of the front matter), or -1.
pub open spec fn close_pos(content: Seq<char>) -> int {
    find_first(content.skip(3), "\n---"@)
}

/// The front matter of `content` can be cut out without splitting a
/// character: when `content` opens with `---` and has a closing `\n---`,
/// that closing line is not right after the opening one and the fourth
/// character is a one-byte character.
pub open spec fn frontmatter_safe(content: Seq<char>) -> bool {
    starts_with(content, "---"@) && close_pos(content) >= 0 ==> close_pos(content) >= 1 && utf8_len(
        content[3],
    ) == 1
}

/// A front-matter line `key: value` as a field: the key trimmed, the value
/// trimmed and without surrounding double quotes; `None` when either is
/// empty or the line has no colon.
pub open spec fn fm_field(line: Seq<char>) -> Option<(Seq<char>, Seq<char>)> {
    match split_once(line, ':') {
        Some(p) => {
            let k = trim(p.0);
            let v = trim_char(trim(p.1), '"');
            if k.len() > 0 && v.len() > 0 {
                Some((k, v))
            } else {
                None
            }
        },
        None => None,
    }
}

/// The fields of a list of front-matter lines, in order.
pub open spec fn fm_fields(ls: Seq<Seq<char>>) -> Seq<(Seq<char>, Seq<char>)>
    decreases ls.len(),
{
    if ls.len() == 0 {
        seq![]
    } else {
        let p = fm_fields(ls.drop_last());
        match fm_field(ls.last()) {
            Some(f) => p.push(f),
            None => p,
        }
    }
}

/// The front-matter fields of a note: the lines between the opening `---`
/// and the closing `\n---`; none without both.
pub open spec fn frontmatter_of(content: Seq<char>) -> Seq<(Seq<char>, Seq<char>)> {
    if !starts_with(content, "---"@) || close_pos(content) < 0 {
        seq![]
    } else {
        fm_fields(lines(content.subrange(4, 3 + close_pos(content))))
    }
}

/// The value of the last field named `key`, as a map keeps it.
pub open spec fn field_value(fs: Seq<(Seq<char>, Seq<char>)>, key: Seq<char>) -> Option<Seq<char>>
    decreases fs.len(),
{
    if fs.len() == 0 {
        None
    } else if fs.last().0 == key {
        Some(fs.last().1)
    } else {
        field_value(fs.drop_last(), key)
    }
}

/// The fields of a note's front matter, in order. Looking a name up gives the
/// value of its last field, as a map filled in order would.
#[derive(Debug)]
pub struct Frontmatter {
    pub fields: Vec<(String, String)>,
}

/// The text of a list of fields.
pub open spec fn fields_view(v: Seq<(String, String)>) -> Seq<(Seq<char>, Seq<char>)> {
    Seq::new(v.len(), |i: int| (v[i].0@, v[i].1@))
}

impl Frontmatter {
    /// The value of the field `key` (see [`field_value`]).
    pub fn get(&self, key: &str) -> (r: Option<&String>)
        ensures
            match r {
                Some(v) => field_value(fields_view(self.fields@), key@) == Some(v@),
                None => field_value(fields_view(self.fields@), key@) is None,
            },
    {
        let ghost fv = fields_view(self.fields@);
        let mut i = self.fields.len();
        assert(fv.take(i as int) =~= fv);
        while i > 0
            invariant
                i <= self.fields@.len(),
                fv == fields_view(self.fields@),
                field_value(fv.take(i as int), key@) == field_value(fv, key@),
            decreases i,
        {
            assert(fv.take(i as int).drop_last() =~= fv.take(i - 1));
            assert(fv.take(i as int).last() == fv[i - 1]);
            if crate::text::str_eq(self.fields[i - 1].0.as_str(), key) {
                return Some(&self.fields[i - 1].1);
            }
            i = i - 1;
        }
        None
    }
}

fn fm_field_exec(line: &[char]) -> (r: Option<(String, String)>)
    ensures
        match r {
            Some(f) => fm_field(line@) == Some((f.0@, f.1@)),
            None => fm_field(line@) is None,
        },
{
    match crate::text::split_once_exec(line, ':') {
        Some((k, v)) => {
            let k2 = crate::text::trim_vec(k.as_slice());
            let v1 = crate::text::trim_vec(v.as_slice());
            let v2 = crate::text::trim_char_vec(v1.as_slice(), '"');
            if k2.len() > 0 && v2.len() > 0 {
                Some((crate::text::chars_to_string(k2.as_slice()), crate::text::chars_to_string(v2.as_slice())))
            } else {
                None
            }
        },
        None => None,
    }
}

fn fm_fields_exec(ls: &Vec<Vec<char>>) -> (r: Vec<(String, String)>)
    ensures
        fields_view(r@) == fm_fields(vecs_view(ls@)),
{
    let ghost lv = vecs_view(ls@);
    let mut out: Vec<(String, String)> = Vec::new();
    let n = ls.len();
    for i in 0..n
        invariant
            n == ls@.len(),
            lv == vecs_view(ls@),
            fields_view(out@) == fm_fields(lv.take(i as int)),
    {
        assert(lv.take(i + 1).drop_last() =~= lv.take(i as int));
        assert(lv.take(i + 1).last() == ls@[i as int]@);
        match fm_field_exec(ls[i].as_slice()) {
            Some(f) => {
                let ghost b = out@;
                out.push(f);
                assert(fields_view(out@) =~= fields_view(b).push((f.0@, f.1@)));
            },
            None => {},
        }
    }
    assert(lv.take(n as int) =~= lv);
    out
}

/// Where the front matter of `cs` closes (see [`close_pos`]).
fn close_pos_exec(cs: &[char]) -> (r: Option<usize>)
    requires
        starts_with(cs@, "---"@),
    ensures
        match r {
            Some(p) => p as int == close_pos(cs@) && 3 + p <= cs@.len(),
            None => close_pos(cs@) == -1,
        },
{
    proof {
        reveal_strlit("---");
    }
    let rest = crate::text::sub_vec(cs, 3, cs.len());
    assert(rest@ =~= cs@.skip(3));
    let pat = ['\n', '-', '-', '-'];
    proof {
        reveal_strlit("\n---");
        assert(pat@ =~= "\n---"@);
    }
    let r = crate::security::url::find_first_exec(rest.as_slice(), &pat);
    proof {
        crate::security::url::lemma_find_from_occurs(rest@, pat@, 0);
    }
    r
}

fn opens_front_matter(cs: &[char]) -> (r: bool)
    ensures
        r == starts_with(cs@, "---"@),
{
    let pat = ['-', '-', '-'];
    proof {
        reveal_strlit("---");
        assert(pat@ =~= "---"@);
    }
    crate::text::starts_with_exec(cs, &pat)
}

/// The front matter of a note (see [`frontmatter_of`]).
pub fn parse_frontmatter(content: &str) -> (r: Frontmatter)
    requires
        frontmatter_safe(content@),
    ensures
        fields_view(r.fields@) == frontmatter_of(content@),
{
    let cs = crate::text::str_chars(content);
    if !opens_front_matter(cs.as_slice()) {
        return Frontmatter { fields: Vec::new() };
    }
    let end = match close_pos_exec(cs.as_slice()) {
        Some(p) => p,
        None => return Frontmatter { fields: Vec::new() },
    };
    let len = cs.len();
    assert(3 + end <= len);
    let fm = crate::text::sub_vec(cs.as_slice(), 4, 3 + end);
    let ls = crate::text::lines_exec(fm.as_slice());
    Frontmatter { fields: fm_fields_exec(&ls) }
}

/// The value of the first front-matter line whose key (trimmed) is `key`:
/// trimmed, without surrounding double quotes (possibly empty).
pub open spec fn first_field(ls: Seq<Seq<char>>, key: Seq<char>) -> Option<Seq<char>>
    decreases ls.len(),
{
    if ls.len() == 0 {
        None
    } else {
        match split_once(ls[0], ':') {
            Some(p) => if trim(p.0) == key {
                Some(trim_char(trim(p.1), '"'))
            } else {
                first_field(ls.drop_first(), key)
            },
            None => first_field(ls.drop_first(), key),
        }
    }
}

/// The field `key` of a note's front matter (see [`first_field`]); `None`
/// without front matter.
pub open spec fn frontmatter_field(content: Seq<char>, key: Seq<char>) -> Option<Seq<char>> {
    if !starts_with(content, "---"@) || close_pos(content) < 0 {
        None
    } else {
        first_field(lines(content.subrange(4, 3 + close_pos(content))), key)
    }
}

/// The field `key` of a note's front matter (see [`frontmatter_field`]).
pub fn extract_frontmatter_field(content: &str, key: &str) -> (r: Option<String>)
    requires
        frontmatter_safe(content@),
    ensures
        match r {
            Some(v) => frontmatter_field(content@, key@) == Some(v@),
            None => frontmatter_field(content@, key@) is None,
        },
{
    let cs = crate::text::str_chars(content);
    if !opens_front_matter(cs.as_slice()) {
        return None;
    }
    let end = match close_pos_exec(cs.as_slice()) {
        Some(p) => p,
        None => return None,
    };
    let len = cs.len();
    assert(3 + end <= len);
    let fm = crate::text::sub_vec(cs.as_slice(), 4, 3 + end);
    let ls = crate::text::lines_exec(fm.as_slice());
    let ghost lv = vecs_view(ls@);
    let kc = crate::text::str_chars(key);
    let n = ls.len();
    assert(lv.skip(0) =~= lv);
    for i in 0..n
        invariant
            n == ls@.len(),
            lv == vecs_view(ls@),
            kc@ == key@,
            frontmatter_field(content@, key@) == first_field(lv, key@),
            first_field(lv.skip(i as int), key@) == first_field(lv, key@),
    {
        assert(lv.skip(i as int)[0] == ls@[i as int]@);
        assert(lv.skip(i as int).drop_first() =~= lv.skip(i + 1));
        match crate::text::split_once_exec(ls[i].as_slice(), ':') {
            Some((k, v)) => {
                let k2 = crate::text::trim_vec(k.as_slice());
                if crate::text::chars_eq(k2.as_slice(), kc.as_slice()) {
                    let v1 = crate::text::trim_vec(v.as_slice());
                    let v2 = crate::text::trim_char_vec(v1.as_slice(), '"');
                    return Some(crate::text::chars_to_string(v2.as_slice()));
                }
            },
            None => {},
        }
    }
    assert(lv.skip(n as int) =~= seq![]);
    None
}

/// A note with the front-matter field `key: value` added: before the closing
/// `\n---` of its front matter, or in a new front matter when it has none;
/// unchanged when its front matter is not closed.
pub open spec fn injected(content: Seq<char>, key: Seq<char>, value: Seq<char>) -> Seq<char> {
    if !starts_with(content, "---"@) {
        "---\n"@ + key + ": "@ + value + "\n---\n\n"@ + content
    } else if close_pos(content) < 0 {
        content
    } else {
        let p = 3 + close_pos(content);
        content.take(p) + "\n"@ + key + ": "@ + value + content.skip(p)
    }
}

/// Add the field `key: value` to a note's front matter (see [`injected`]).
pub fn inject_frontmatter_field(content: &str, key: &str, value: &str) -> (r: String)
    ensures
        r@ == injected(content@, key@, value@),
{
    let cs = crate::text::str_chars(content);
    if !opens_front_matter(cs.as_slice()) {
        let mut r = String::from_str("---\n");
        r.append(key);
        r.append(": ");
        r.append(value);
        r.append("\n---\n\n");
        r.append(content);
        return r;
    }
    match close_pos_exec(cs.as_slice()) {
        Some(e) => {
            let len = cs.len();
            assert(3 + e <= len);
            let p = 3 + e;
            let head = crate::text::sub_vec(cs.as_slice(), 0, p);
            let tail = crate::text::sub_vec(cs.as_slice(), p, cs.len());
            let mut r = crate::text::chars_to_string(head.as_slice());
            r.append("\n");
            r.append(key);
            r.append(": ");
            r.append(value);
            r.append(crate::text::chars_to_string(tail.as_slice()).as_str());
            assert(tail@ =~= cs@.skip(p as int));
            r
        },
        None => String::from_str(content),
    }
}

/// The front matter and body of an imported note: the fields between the
/// opening `---` and the closing `\n---` (the opening line's rest included),
/// and the trimmed text after the closing `---`; no fields and the whole text
/// when there is no front matter.
pub open spec fn frontmatter_and_body(content: Seq<char>) -> (Seq<(Seq<char>, Seq<char>)>, Seq<char>) {
    if !starts_with(content, "---"@) || close_pos(content) < 0 {
        (seq![], content)
    } else {
        let rest = content.skip(3);
        let e = close_pos(content);
        (fm_fields(lines(rest.take(e))), trim(rest.skip(e + 4)))
    }
}

/// Split an imported note into front matter and body (see
/// [`frontmatter_and_body`]).
pub fn parse_frontmatter_and_body(content: &str) -> (r: (Frontmatter, String))
    ensures
        fields_view(r.0.fields@) == frontmatter_and_body(content@).0,
        r.1@ == frontmatter_and_body(content@).1,
{
    let cs = crate::text::str_chars(content);
    if !opens_front_matter(cs.as_slice()) {
        return (Frontmatter { fields: Vec::new() }, String::from_str(content));
    }
    let end = match close_pos_exec(cs.as_slice()) {
        Some(p) => p,
        None => return (Frontmatter { fields: Vec::new() }, String::from_str(content)),
    };
    let rest = crate::text::sub_vec(cs.as_slice(), 3, cs.len());
    assert(rest@ =~= cs@.skip(3));
    proof {
        crate::security::url::lemma_find_from_occurs(rest@, "\n---"@, 0);
        reveal_strlit("\n---");
    }
    let fm = crate::text::sub_vec(rest.as_slice(), 0, end);
    let ls = crate::text::lines_exec(fm.as_slice());
    let after = crate::text::sub_vec(rest.as_slice(), end + 4, rest.len());
    assert(after@ =~= rest@.skip(end + 4));
    let body = crate::text::trim_vec(after.as_slice());
    (Frontmatter { fields: fm_fields_exec(&ls) }, crate::text::chars_to_string(body.as_slice()))
}

/// The title of a note: the text of its first `# ` heading line (lines
/// trimmed, the title trimmed again), if any.
pub open spec fn title_of(ls: Seq<Seq<char>>) -> Option<Seq<char>>
    decreases ls.len(),
{
    if ls.len() == 0 {
        None
    } else if starts_with(trim(ls[0]), "# "@) {
        Some(trim(trim(ls[0]).skip(2)))
    } else {
        title_of(ls.drop_first())
    }
}

/// The title of a note (see [`title_of`]).
pub fn extract_title(content: &str) -> (r: Option<String>)
    ensures
        match r {
            Some(t) => title_of(lines(content@)) == Some(t@),
            None => title_of(lines(content@)) is None,
        },
{
    let cs = crate::text::str_chars(content);
    let ls = crate::text::lines_exec(cs.as_slice());
    let ghost lv = vecs_view(ls@);
    let pat = ['#', ' '];
    proof {
        reveal_strlit("# ");
        assert(pat@ =~= "# "@);
    }
    let n = ls.len();
    assert(lv.skip(0) =~= lv);
    for i in 0..n
        invariant
            n == ls@.len(),
            lv == vecs_view(ls@),
            lv == lines(content@),
            pat@ == "# "@,
            title_of(lv.skip(i as int)) == title_of(lv),
    {
        assert(lv.skip(i as int)[0] == ls@[i as int]@);
        assert(lv.skip(i as int).drop_first() =~= lv.skip(i + 1));
        let t = crate::text::trim_vec(ls[i].as_slice());
        if crate::text::starts_with_exec(t.as_slice(), &pat) {
            let rest = crate::text::sub_vec(t.as_slice(), 2, t.len());
            assert(rest@ =~= t@.skip(2));
            let tt = crate::text::trim_vec(rest.as_slice());
            return Some(crate::text::chars_to_string(tt.as_slice()));
        }
    }
    assert(lv.skip(n as int) =~= seq![]);
    None
}

/// What regex-syntax says of `c`: a Unicode word character (`\w`).
pub uninterp spec fn regex_word(c: char) -> bool;

/// regex-syntax's `is_word_character`: whether `c` is a Unicode word
/// character (alphabetic, join control, decimal number, mark or connector
/// punctuation), as `\w` matches it. The answer depends on `c` alone; the
/// contract names it and claims nothing more.
#[verifier::external_body]
fn is_word_char(c: char) -> (r: bool)
    ensures
        r == regex_word(c),
{
    regex_syntax::is_word_character(c)
}

/// The character classes of the link grammar: 0 neither `]` nor `|`, 1 not
/// `]`, 2 white space, 3 not white space, 4 a word character.
pub open spec fn in_class(sel: u8, c: char) -> bool {
    if sel == 0 {
        c != ']' && c != '|'
    } else if sel == 1 {
        c != ']'
    } else if sel == 2 {
        is_whitespace(c)
    } else if sel == 3 {
        !is_whitespace(c)
    } else {
        regex_word(c)
    }
}

/// The number of characters of class `sel` in a row from position `j`.
pub open spec fn run_len(t: Seq<char>, j: int, sel: u8) -> int
    decreases t.len() - j,
{
    if j < 0 || j >= t.len() || !in_class(sel, t[j]) {
        0
    } else {
        1 + run_len(t, j + 1, sel)
    }
}

proof fn lemma_run_len_bounds(t: Seq<char>, j: int, sel: u8)
    ensures
        0 <= run_len(t, j, sel),
        0 <= j ==> j + run_len(t, j, sel) <= t.len() || run_len(t, j, sel) == 0,
    decreases t.len() - j,
{
    if !(j < 0 || j >= t.len() || !in_class(sel, t[j])) {
        lemma_run_len_bounds(t, j + 1, sel);
    }
}

fn class_exec(sel: u8, c: char) -> (r: bool)
    ensures
        r == in_class(sel, c),
{
    if sel == 0 {
        c != ']' && c != '|'
    } else if sel == 1 {
        c != ']'
    } else if sel == 2 {
        crate::text::is_whitespace_exec(c)
    } else if sel == 3 {
        !crate::text::is_whitespace_exec(c)
    } else {
        is_word_char(c)
    }
}

fn run_len_exec(t: &[char], j: usize, sel: u8) -> (r: usize)
    requires
        j <= t@.len(),
    ensures
        r as int == run_len(t@, j as int, sel),
        j + r <= t@.len(),
{
    let n = t.len();
    let mut k = j;
    while k < n && class_exec(sel, t[k])
        invariant
            j <= k <= n,
            n == t@.len(),
            run_len(t@, j as int, sel) == (k - j) + run_len(t@, k as int, sel),
        decreases n - k,
    {
        k = k + 1;
    }
    k - j
}

/// A `[[name]]` or `[[name|alias]]` link at position `i`: its name and the
/// position after it.
pub open spec fn wikilink_at(t: Seq<char>, i: int) -> Option<(Seq<char>, int)> {
    if !(0 <= i && i + 2 <= t.len() && t[i] == '[' && t[i + 1] == '[') {
        None
    } else {
        let j = i + 2;
        let k = j + run_len(t, j, 0);
        if k == j {
            None
        } else if k < t.len() && t[k] == '|' {
            let e = k + 1 + run_len(t, k + 1, 1);
            if e > k + 1 && e + 1 < t.len() && t[e] == ']' && t[e + 1] == ']' {
                Some((t.subrange(j, k), e + 2))
            } else {
                None
            }
        } else if k + 1 < t.len() && t[k] == ']' && t[k + 1] == ']' {
            Some((t.subrange(j, k), k + 2))
        } else {
            None
        }
    }
}

/// The names of the links in `t` from position `i` on, left to right, each
/// search going on after the previous link.
pub open spec fn wikilinks_from(t: Seq<char>, i: int) -> Seq<Seq<char>>
    decreases t.len() - i,
{
    if i < 0 || i >= t.len() {
        seq![]
    } else {
        match wikilink_at(t, i) {
            Some(p) => if p.1 > i {
                seq![p.0] + wikilinks_from(t, p.1)
            } else {
                seq![]
            },
            None => wikilinks_from(t, i + 1),
        }
    }
}

fn wikilink_at_exec(t: &[char], i: usize) -> (r: Option<(Vec<char>, usize)>)
    requires
        i <= t@.len(),
    ensures
        match r {
            Some(p) => wikilink_at(t@, i as int) == Some((p.0@, p.1 as int)) && i < p.1 <= t@.len(),
            None => wikilink_at(t@, i as int) is None,
        },
{
    let n = t.len();
    if !(n - i >= 2 && t[i] == '[' && t[i + 1] == '[') {
        return None;
    }
    let j = i + 2;
    let k = j + run_len_exec(t, j, 0);
    if k == j {
        return None;
    }
    if k < n && t[k] == '|' {
        let e = k + 1 + run_len_exec(t, k + 1, 1);
        if e > k + 1 && e < n && n - e >= 2 && t[e] == ']' && t[e + 1] == ']' {
            Some((crate::text::sub_vec(t, j, k), e + 2))
        } else {
            None
        }
    } else if k < n && n - k >= 2 && t[k] == ']' && t[k + 1] == ']' {
        Some((crate::text::sub_vec(t, j, k), k + 2))
    } else {
        None
    }
}

/// The names of the links in `t` (see [`wikilinks_from`]).
pub fn wikilinks(t: &[char]) -> (r: Vec<Vec<char>>)
    ensures
        vecs_view(r@) == wikilinks_from(t@, 0),
{
    let n = t.len();
    let mut out: Vec<Vec<char>> = Vec::new();
    let mut i: usize = 0;
    while i < n
        invariant
            i <= n,
            n == t@.len(),
            wikilinks_from(t@, 0) == vecs_view(out@) + wikilinks_from(t@, i as int),
        decreases n - i,
    {
        match wikilink_at_exec(t, i) {
            Some((name, e)) => {
                let ghost b = out@;
                out.push(name);
                assert(vecs_view(out@) =~= vecs_view(b).push(name@));
                assert(wikilinks_from(t@, i as int) == seq![name@] + wikilinks_from(t@, e as int));
                assert(vecs_view(b) + (seq![name@] + wikilinks_from(t@, e as int)) =~= vecs_view(out@)
                    + wikilinks_from(t@, e as int));
                i = e;
            },
            None => {
                i = i + 1;
            },
        }
    }
    assert(wikilinks_from(t@, i as int) =~= seq![]);
    assert(vecs_view(out@) + seq![] =~= vecs_view(out@));
    out
}

/// The bracketed word after position `x` (white space allowed before the
/// `[`): `[word]` with `word` made of word characters.
pub open spec fn tail_word(t: Seq<char>, x: int) -> Option<Seq<char>> {
    let b = x + run_len(t, x, 2);
    if 0 <= b < t.len() && t[b] == '[' {
        let e = b + 1 + run_len(t, b + 1, 4);
        if e > b + 1 && e < t.len() && t[e] == ']' {
            Some(t.subrange(b + 1, e))
        } else {
            None
        }
    } else {
        None
    }
}

/// The longest relation of at most `l` characters from `r0` that a
/// bracketed word follows, with that word.
pub open spec fn rel_choice(t: Seq<char>, r0: int, l: int) -> Option<(int, Seq<char>)>
    decreases l,
{
    if l <= 0 {
        None
    } else {
        match tail_word(t, r0 + l) {
            Some(w) => Some((l, w)),
            None => rel_choice(t, r0, l - 1),
        }
    }
}

/// A connection line item at position `i`: `- [[Target]] - relation [WORD]`
/// (the link may carry an alias, white space is free around the `-` and
/// before the `[`). Gives the target name, the relation and the word.
pub open spec fn conn_at(t: Seq<char>, i: int) -> Option<(Seq<char>, Seq<char>, Seq<char>)> {
    if !(0 <= i && i + 2 <= t.len() && t[i] == '-' && t[i + 1] == ' ') {
        None
    } else {
        match wikilink_at(t, i + 2) {
            None => None,
            Some(p) => {
                let d = p.1 + run_len(t, p.1, 2);
                if 0 <= d < t.len() && t[d] == '-' {
                    let r0 = d + 1 + run_len(t, d + 1, 2);
                    match rel_choice(t, r0, run_len(t, r0, 3)) {
                        Some(c) => Some((p.0, t.subrange(r0, r0 + c.0), c.1)),
                        None => None,
                    }
                } else {
                    None
                }
            },
        }
    }
}

/// The leftmost connection item in `t` at or after position `i`.
pub open spec fn conn_search(t: Seq<char>, i: int) -> Option<(Seq<char>, Seq<char>, Seq<char>)>
    decreases t.len() - i,
{
    if i < 0 || i >= t.len() {
        None
    } else {
        match conn_at(t, i) {
            Some(x) => Some(x),
            None => conn_search(t, i + 1),
        }
    }
}

fn tail_word_exec(t: &[char], x: usize) -> (r: Option<Vec<char>>)
    requires
        x <= t@.len(),
    ensures
        match r {
            Some(w) => tail_word(t@, x as int) == Some(w@),
            None => tail_word(t@, x as int) is None,
        },
{
    let n = t.len();
    let b = x + run_len_exec(t, x, 2);
    if b < n && t[b] == '[' {
        let e = b + 1 + run_len_exec(t, b + 1, 4);
        if e > b + 1 && e < n && t[e] == ']' {
            Some(crate::text::sub_vec(t, b + 1, e))
        } else {
            None
        }
    } else {
        None
    }
}

fn conn_at_exec(t: &[char], i: usize) -> (r: Option<(Vec<char>, Vec<char>, Vec<char>)>)
    requires
        i <= t@.len(),
    ensures
        match r {
            Some(x) => conn_at(t@, i as int) == Some((x.0@, x.1@, x.2@)),
            None => conn_at(t@, i as int) is None,
        },
{
    let n = t.len();
    if !(n - i >= 2 && t[i] == '-' && t[i + 1] == ' ') {
        return None;
    }
    let (name, p) = match wikilink_at_exec(t, i + 2) {
        Some(x) => x,
        None => return None,
    };
    let d = p + run_len_exec(t, p, 2);
    if !(d < n && t[d] == '-') {
        return None;
    }
    let r0 = d + 1 + run_len_exec(t, d + 1, 2);
    let total = run_len_exec(t, r0, 3);
    let mut l = total;
    assert(conn_at(t@, i as int) == match rel_choice(t@, r0 as int, total as int) {
        Some(c) => Some((name@, t@.subrange(r0 as int, r0 + c.0), c.1)),
        None => None,
    });
    while l > 0
        invariant
            conn_at(t@, i as int) == match rel_choice(t@, r0 as int, total as int) {
                Some(c) => Some((name@, t@.subrange(r0 as int, r0 + c.0), c.1)),
                None => None::<(Seq<char>, Seq<char>, Seq<char>)>,
            },
            l <= total,
            r0 + total <= n,
            n == t@.len(),
            rel_choice(t@, r0 as int, total as int) == rel_choice(t@, r0 as int, l as int),
        decreases l,
    {
        match tail_word_exec(t, r0 + l) {
            Some(w) => {
                let rel = crate::text::sub_vec(t, r0, r0 + l);
                return Some((name, rel, w));
            },
            None => {
                l = l - 1;
            },
        }
    }
    None
}

fn conn_search_exec(t: &[char]) -> (r: Option<(Vec<char>, Vec<char>, Vec<char>)>)
    ensures
        match r {
            Some(x) => conn_search(t@, 0) == Some((x.0@, x.1@, x.2@)),
            None => conn_search(t@, 0) is None,
        },
{
    let n = t.len();
    let mut i: usize = 0;
    while i < n
        invariant
            i <= n,
            n == t@.len(),
            conn_search(t@, 0) == conn_search(t@, i as int),
        decreases n - i,
    {
        match conn_at_exec(t, i) {
            Some(x) => {
                return Some(x);
            },
            None => {
                i = i + 1;
            },
        }
    }
    None
}

/// The confidence a connection's word stands for.
pub open spec fn conf_of(w: Seq<char>) -> Confidence {
    if w == "INFERRED"@ {
        Confidence::INFERRED
    } else if w == "AMBIGUOUS"@ {
        Confidence::AMBIGUOUS
    } else {
        Confidence::EXTRACTED
    }
}

/// The `(target id, relation, confidence)` of a connection line whose target
/// name is known in `names`.
pub open spec fn conn_item(t: Seq<char>, names: Seq<(Seq<char>, Seq<char>)>) -> Seq<
    (Seq<char>, Seq<char>, Confidence),
> {
    match conn_search(t, 0) {
        Some(c) => match field_value(names, c.0) {
            Some(id) => seq![(id, c.1, conf_of(c.2))],
            None => seq![],
        },
        None => seq![],
    }
}

/// The connections of the lines `ls[i..]` (lines trimmed): items are read
/// only after a `## Connections` heading, until the next `## ` heading.
pub open spec fn conn_scan(ls: Seq<Seq<char>>, i: int, in_section: bool, names: Seq<(Seq<char>, Seq<char>)>) -> Seq<
    (Seq<char>, Seq<char>, Confidence),
>
    decreases ls.len() - i,
{
    if i < 0 || i >= ls.len() {
        seq![]
    } else {
        let t = trim(ls[i]);
        if t == "## Connections"@ {
            conn_scan(ls, i + 1, true, names)
        } else if in_section && starts_with(t, "## "@) {
            seq![]
        } else if !in_section {
            conn_scan(ls, i + 1, false, names)
        } else {
            conn_item(t, names) + conn_scan(ls, i + 1, true, names)
        }
    }
}

/// The text of a list of connections.
pub open spec fn conns_view(v: Seq<(String, String, Confidence)>) -> Seq<(Seq<char>, Seq<char>, Confidence)> {
    Seq::new(v.len(), |i: int| (v[i].0@, v[i].1@, v[i].2))
}

fn conf_exec(w: &[char]) -> (r: Confidence)
    ensures
        r == conf_of(w@),
{
    let inf = ['I', 'N', 'F', 'E', 'R', 'R', 'E', 'D'];
    let amb = ['A', 'M', 'B', 'I', 'G', 'U', 'O', 'U', 'S'];
    proof {
        reveal_strlit("INFERRED");
        reveal_strlit("AMBIGUOUS");
        assert(inf@ =~= "INFERRED"@);
        assert(amb@ =~= "AMBIGUOUS"@);
    }
    if crate::text::chars_eq(w, &inf) {
        Confidence::INFERRED
    } else if crate::text::chars_eq(w, &amb) {
        Confidence::AMBIGUOUS
    } else {
        Confidence::EXTRACTED
    }
}

fn lookup_last(names: &Vec<(String, String)>, key: &[char]) -> (r: Option<String>)
    ensures
        match r {
            Some(v) => field_value(fields_view(names@), key@) == Some(v@),
            None => field_value(fields_view(names@), key@) is None,
        },
{
    let k = crate::text::chars_to_string(key);
    let f = Frontmatter { fields: Vec::new() };
    let ghost fv = fields_view(names@);
    let mut i = names.len();
    assert(fv.take(i as int) =~= fv);
    while i > 0
        invariant
            i <= names@.len(),
            fv == fields_view(names@),
            k@ == key@,
            field_value(fv.take(i as int), key@) == field_value(fv, key@),
        decreases i,
    {
        assert(fv.take(i as int).drop_last() =~= fv.take(i - 1));
        assert(fv.take(i as int).last() == fv[i - 1]);
        if crate::text::str_eq(names[i - 1].0.as_str(), k.as_str()) {
            return Some(names[i - 1].1.clone());
        }
        i = i - 1;
    }
    None
}

/// The structured connections of a note (see [`conn_scan`]): target ids
/// looked up by name in `names` (the last entry of a name counts).
pub fn parse_connections(content: &str, names: &Vec<(String, String)>) -> (r: Vec<(String, String, Confidence)>)
    ensures
        conns_view(r@) == conn_scan(lines(content@), 0, false, fields_view(names@)),
{
    let cs = crate::text::str_chars(content);
    let ls = crate::text::lines_exec(cs.as_slice());
    let ghost lv = vecs_view(ls@);
    let ghost nv = fields_view(names@);
    let heading = ['#', '#', ' ', 'C', 'o', 'n', 'n', 'e', 'c', 't', 'i', 'o', 'n', 's'];
    let sub = ['#', '#', ' '];
    proof {
        reveal_strlit("## Connections");
        reveal_strlit("## ");
        assert(heading@ =~= "## Connections"@);
        assert(sub@ =~= "## "@);
    }
    let mut out: Vec<(String, String, Confidence)> = Vec::new();
    let n = ls.len();
    let mut i: usize = 0;
    let mut in_section = false;
    let mut stop = false;
    while i < n && !stop
        invariant
            i <= n,
            n == ls@.len(),
            lv == vecs_view(ls@),
            lv == lines(content@),
            nv == fields_view(names@),
            heading@ == "## Connections"@,
            sub@ == "## "@,
            stop ==> conns_view(out@) == conn_scan(lv, 0, false, nv),
            !stop ==> conn_scan(lv, 0, false, nv) == conns_view(out@) + conn_scan(lv, i as int, in_section, nv),
        decreases n - i, if stop { 0int } else { 1int },
    {
        let t = crate::text::trim_vec(ls[i].as_slice());
        assert(lv[i as int] == ls@[i as int]@);
        if crate::text::chars_eq(t.as_slice(), &heading) {
            in_section = true;
            i = i + 1;
        } else if in_section && crate::text::starts_with_exec(t.as_slice(), &sub) {
            assert(conns_view(out@) + seq![] =~= conns_view(out@));
            stop = true;
        } else if !in_section {
            i = i + 1;
        } else {
            let ghost b = out@;
            match conn_search_exec(t.as_slice()) {
                Some((name, rel, w)) => {
                    match lookup_last(names, name.as_slice()) {
                        Some(id) => {
                            let c = conf_exec(w.as_slice());
                            out.push((id, crate::text::chars_to_string(rel.as_slice()), c));
                            assert(conns_view(out@) =~= conns_view(b) + conn_item(t@, nv));
                        },
                        None => {
                            assert(conns_view(out@) =~= conns_view(b) + conn_item(t@, nv));
                        },
                    }
                },
                None => {
                    assert(conns_view(out@) =~= conns_view(b) + conn_item(t@, nv));
                },
            }
            assert(conns_view(b) + (conn_item(t@, nv) + conn_scan(lv, i + 1, true, nv)) =~= conns_view(out@)
                + conn_scan(lv, i + 1, true, nv));
            i = i + 1;
        }
    }
    if !stop {
        assert(conn_scan(lv, i as int, in_section, nv) =~= seq![]);
        assert(conns_view(out@) + seq![] =~= conns_view(out@));
    }
    out
}

/// A markdown file of the vault: its path, its name without extension, and
/// its text (`None` when it could not be read).
#[derive(Debug)]
pub struct VaultFile {
    pub path: String,
    pub stem: String,
    pub content: Option<String>,
}

/// The text of an optional string.
pub open spec fn opt_text(o: Option<String>) -> Option<Seq<char>> {
    match o {
        Some(s) => Some(s@),
        None => None,
    }
}

/// What a note's type makes of it: `Some(Some(t))` a node of file type `t`,
/// `Some(None)` a community overview (a name but no node), `None` nothing.
pub open spec fn note_kind(t: Option<Seq<char>>, stem: Seq<char>) -> Option<Option<FileType>> {
    let is_community = starts_with(stem, "_COMMUNITY_"@);
    let is_insight = starts_with(stem, "_INSIGHT_"@);
    let is_note = starts_with(stem, "_NOTE_"@);
    if t == Some("code"@) {
        Some(Some(FileType::Code))
    } else if t == Some("document"@) {
        Some(Some(FileType::Document))
    } else if t == Some("paper"@) {
        Some(Some(FileType::Paper))
    } else if t == Some("image"@) {
        Some(Some(FileType::Image))
    } else if t == Some("video"@) {
        Some(Some(FileType::Video))
    } else if t == Some("rationale"@) || t == Some("insight"@) {
        Some(Some(FileType::Rationale))
    } else if t == Some("community"@) {
        Some(None)
    } else if t == Some("note"@) && is_note {
        Some(Some(FileType::Document))
    } else if is_insight {
        Some(Some(FileType::Rationale))
    } else if is_community {
        None
    } else {
        Some(Some(FileType::Code))
    }
}

/// The fields of a node that the vault determines.
pub struct NodeFields {
    pub id: Seq<char>,
    pub label: Seq<char>,
    pub file_type: FileType,
    pub source_file: Seq<char>,
    pub source_location: Option<Seq<char>>,
    pub confidence: Option<Confidence>,
    pub community: Option<usize>,
}

/// The vault-determined fields of a node.
pub open spec fn node_fields(n: Node) -> NodeFields {
    NodeFields {
        id: n.id@,
        label: n.label@,
        file_type: n.file_type,
        source_file: n.source_file@,
        source_location: opt_text(n.source_location),
        confidence: n.confidence,
        community: n.community,
    }
}

/// The node id of a note: its `id` field, else an id made from its name.
pub open spec fn note_id(fm: Seq<(Seq<char>, Seq<char>)>, stem: Seq<char>) -> Seq<char> {
    match field_value(fm, "id"@) {
        Some(v) => v,
        None => crate::id::spec_make_id(seq![stem]),
    }
}

/// The node a note describes, of file type `t`.
pub open spec fn note_node(c: Seq<char>, stem: Seq<char>, t: FileType) -> NodeFields {
    let fm = frontmatter_of(c);
    NodeFields {
        id: note_id(fm, stem),
        label: match title_of(lines(c)) {
            Some(x) => x,
            None => stem.map_values(|ch: char| if ch == '_' { ' ' } else { ch }),
        },
        file_type: t,
        source_file: match field_value(fm, "source_file"@) {
            Some(x) => x,
            None => seq![],
        },
        source_location: field_value(fm, "location"@),
        confidence: Some(
            conf_of(
                match field_value(fm, "confidence"@) {
                    Some(x) => x,
                    None => seq![],
                },
            ),
        ),
        community: match field_value(fm, "community"@) {
            Some(x) => crate::source_lookup::parse_usize(x),
            None => None,
        },
    }
}

/// The type field of a note: `file_type`, else `type`.
pub open spec fn type_field(fm: Seq<(Seq<char>, Seq<char>)>) -> Option<Seq<char>> {
    match field_value(fm, "file_type"@) {
        Some(x) => Some(x),
        None => field_value(fm, "type"@),
    }
}

/// The first pass over the notes: the nodes and the (name, id) pairs.
pub open spec fn vault_pass1(files: Seq<VaultFile>) -> (Seq<NodeFields>, Seq<(Seq<char>, Seq<char>)>)
    decreases files.len(),
{
    if files.len() == 0 {
        (seq![], seq![])
    } else {
        let p = vault_pass1(files.drop_last());
        let f = files.last();
        if f.stem@ == "index"@ || f.content is None {
            p
        } else {
            let c = f.content.unwrap()@;
            let fm = frontmatter_of(c);
            let id = note_id(fm, f.stem@);
            match note_kind(type_field(fm), f.stem@) {
                None => p,
                Some(None) => (p.0, p.1.push((f.stem@, id))),
                Some(Some(t)) => (p.0.push(note_node(c, f.stem@, t)), p.1.push((f.stem@, id))),
            }
        }
    }
}

/// The fields of an edge that the vault determines.
pub open spec fn edge_fields(e: Edge) -> (Seq<char>, Seq<char>, Seq<char>, Confidence, Seq<char>) {
    (e.source@, e.target@, e.relation@, e.confidence, e.source_file@)
}

/// The plain links of a note as edges from `src`: one per distinct known
/// target other than `src`, community overviews and the index left out.
pub open spec fn link_edges(
    names_in: Seq<Seq<char>>,
    src: Seq<char>,
    path: Seq<char>,
    names: Seq<(Seq<char>, Seq<char>)>,
    seen: Seq<Seq<char>>,
) -> Seq<(Seq<char>, Seq<char>, Seq<char>, Confidence, Seq<char>)>
    decreases names_in.len(),
{
    if names_in.len() == 0 {
        seq![]
    } else {
        let nm = names_in[0];
        let rest = names_in.drop_first();
        if starts_with(nm, "_COMMUNITY_"@) || nm == "index"@ {
            link_edges(rest, src, path, names, seen)
        } else {
            match field_value(names, nm) {
                Some(id) => if id != src && !seen.contains(id) {
                    seq![(src, id, "linked"@, Confidence::EXTRACTED, path)] + link_edges(
                        rest,
                        src,
                        path,
                        names,
                        seen.push(id),
                    )
                } else {
                    link_edges(rest, src, path, names, seen)
                },
                None => link_edges(rest, src, path, names, seen),
            }
        }
    }
}

/// The edges of one note: its structured connections, or, when it has none,
/// its plain links.
pub open spec fn note_edges(f: VaultFile, names: Seq<(Seq<char>, Seq<char>)>) -> Seq<
    (Seq<char>, Seq<char>, Seq<char>, Confidence, Seq<char>),
> {
    if f.stem@ == "index"@ || starts_with(f.stem@, "_COMMUNITY_"@) || field_value(names, f.stem@) is None
        || f.content is None {
        seq![]
    } else {
        let src = field_value(names, f.stem@).unwrap();
        let c = f.content.unwrap()@;
        let parsed = conn_scan(lines(c), 0, false, names);
        if parsed.len() > 0 {
            parsed.map_values(
                |x: (Seq<char>, Seq<char>, Confidence)| (src, x.0, x.1, x.2, f.path@),
            )
        } else {
            link_edges(wikilinks_from(c, 0), src, f.path@, names, seq![])
        }
    }
}

/// The second pass: the edges of all notes, in order.
pub open spec fn vault_pass2(files: Seq<VaultFile>, names: Seq<(Seq<char>, Seq<char>)>) -> Seq<
    (Seq<char>, Seq<char>, Seq<char>, Confidence, Seq<char>),
>
    decreases files.len(),
{
    if files.len() == 0 {
        seq![]
    } else {
        vault_pass2(files.drop_last(), names) + note_edges(files.last(), names)
    }
}

/// Every note that becomes a node has front matter that can be cut out.
pub open spec fn vault_safe(files: Seq<VaultFile>) -> bool {
    forall|i: int|
        0 <= i < files.len() && (#[trigger] files[i]).stem@ != "index"@ && files[i].content is Some
            ==> frontmatter_safe(files[i].content.unwrap()@)
}

fn lit_eq(s: &String, lit: &str) -> (r: bool)
    ensures
        r == (s@ == lit@),
{
    crate::text::str_eq(s.as_str(), lit)
}

fn opt_lit_eq(o: Option<&String>, lit: &str) -> (r: bool)
    ensures
        r == (match o {
            Some(s) => Some(s@),
            None => None,
        } == Some(lit@)),
{
    match o {
        Some(s) => lit_eq(s, lit),
        None => false,
    }
}

fn starts_with_lit(s: &str, lit: &str) -> (r: bool)
    ensures
        r == starts_with(s@, lit@),
{
    let a = crate::text::str_chars(s);
    let b = crate::text::str_chars(lit);
    crate::text::starts_with_exec(a.as_slice(), b.as_slice())
}

fn note_kind_exec(t: Option<&String>, stem: &str) -> (r: Option<Option<FileType>>)
    ensures
        r == note_kind(
            match t {
                Some(s) => Some(s@),
                None => None,
            },
            stem@,
        ),
{
    let is_community = starts_with_lit(stem, "_COMMUNITY_");
    let is_insight = starts_with_lit(stem, "_INSIGHT_");
    let is_note = starts_with_lit(stem, "_NOTE_");
    if opt_lit_eq(t, "code") {
        Some(Some(FileType::Code))
    } else if opt_lit_eq(t, "document") {
        Some(Some(FileType::Document))
    } else if opt_lit_eq(t, "paper") {
        Some(Some(FileType::Paper))
    } else if opt_lit_eq(t, "image") {
        Some(Some(FileType::Image))
    } else if opt_lit_eq(t, "video") {
        Some(Some(FileType::Video))
    } else if opt_lit_eq(t, "rationale") || opt_lit_eq(t, "insight") {
        Some(Some(FileType::Rationale))
    } else if opt_lit_eq(t, "community") {
        Some(None)
    } else if opt_lit_eq(t, "note") && is_note {
        Some(Some(FileType::Document))
    } else if is_insight {
        Some(Some(FileType::Rationale))
    } else if is_community {
        None
    } else {
        Some(Some(FileType::Code))
    }
}

fn field_or_empty(fm: &Frontmatter, key: &str) -> (r: String)
    ensures
        r@ == match field_value(fields_view(fm.fields@), key@) {
            Some(x) => x,
            None => seq![],
        },
{
    match fm.get(key) {
        Some(v) => v.clone(),
        None => String::new(),
    }
}

fn note_id_exec(fm: &Frontmatter, stem: &str) -> (r: String)
    ensures
        r@ == note_id(fields_view(fm.fields@), stem@),
{
    proof {
        reveal_strlit("id");
    }
    match fm.get("id") {
        Some(v) => v.clone(),
        None => {
            let parts = [stem];
            assert(crate::id::strs_view(parts@) =~= seq![stem@]);
            crate::id::make_id(&parts)
        },
    }
}

fn type_field_exec(fm: &Frontmatter) -> (r: Option<&String>)
    ensures
        match r {
            Some(s) => type_field(fields_view(fm.fields@)) == Some(s@),
            None => type_field(fields_view(fm.fields@)) is None,
        },
{
    match fm.get("file_type") {
        Some(v) => Some(v),
        None => fm.get("type"),
    }
}

fn underscores_to_spaces(s: &str) -> (r: String)
    ensures
        r@ == s@.map_values(|ch: char| if ch == '_' { ' ' } else { ch }),
{
    let cs = crate::text::str_chars(s);
    let mut out = String::new();
    let n = cs.len();
    for i in 0..n
        invariant
            n == cs@.len(),
            cs@ == s@,
            out@ == s@.take(i as int).map_values(|ch: char| if ch == '_' { ' ' } else { ch }),
    {
        let c = cs[i];
        let d = if c == '_' {
            ' '
        } else {
            c
        };
        push_char_local(&mut out, d);
        assert(s@.take(i + 1).map_values(|ch: char| if ch == '_' { ' ' } else { ch }) =~= s@.take(
            i as int,
        ).map_values(|ch: char| if ch == '_' { ' ' } else { ch }).push(d));
    }
    assert(s@.take(n as int) =~= s@);
    out
}

fn push_char_local(s: &mut String, c: char)
    ensures
        final(s)@ == old(s)@.push(c),
{
    crate::text::push_char(s, c);
}

fn note_node_exec(c: &str, stem: &str, fm: &Frontmatter, t: FileType) -> (r: Node)
    requires
        fields_view(fm.fields@) == frontmatter_of(c@),
    ensures
        node_fields(r) == note_node(c@, stem@, t),
        r.norm_label is None,
        r.degree is None,
        r.uuid is None,
        r.fingerprint is None,
        r.logical_key is None,
        r.body_hash is None,
{
    let label = match extract_title(c) {
        Some(x) => x,
        None => underscores_to_spaces(stem),
    };
    let conf = conf_exec(crate::text::str_chars(field_or_empty(fm, "confidence").as_str()).as_slice());
    let community = match fm.get("community") {
        Some(x) => crate::source_lookup::parse_usize_str(x.as_str()),
        None => None,
    };
    let location = match fm.get("location") {
        Some(x) => Some(x.clone()),
        None => None,
    };
    Node {
        id: note_id_exec(fm, stem),
        label,
        file_type: t,
        source_file: field_or_empty(fm, "source_file"),
        source_location: location,
        confidence: Some(conf),
        community,
        norm_label: None,
        degree: None,
        uuid: None,
        fingerprint: None,
        logical_key: None,
        body_hash: None,
    }
}

/// The node fields of a list of nodes.
pub open spec fn nodes_fields(v: Seq<Node>) -> Seq<NodeFields> {
    Seq::new(v.len(), |i: int| node_fields(v[i]))
}

/// The vault-determined fields of a list of edges.
pub open spec fn edges_fields(v: Seq<Edge>) -> Seq<(Seq<char>, Seq<char>, Seq<char>, Confidence, Seq<char>)> {
    Seq::new(v.len(), |i: int| edge_fields(v[i]))
}

fn new_edge(src: &String, tgt: &String, rel: String, conf: Confidence, path: &String) -> (r: Edge)
    ensures
        edge_fields(r) == (src@, tgt@, rel@, conf, path@),
        r.source_location is None,
        r.confidence_score_bits == Some(crate::types::default_score_bits_of(conf)),
        r.weight_bits == crate::types::WEIGHT_ONE_BITS,
        r.original_src is None,
        r.original_tgt is None,
{
    Edge {
        source: src.clone(),
        target: tgt.clone(),
        relation: rel,
        confidence: conf,
        source_file: path.clone(),
        source_location: None,
        confidence_score_bits: Some(conf.default_score_bits()),
        weight_bits: crate::types::WEIGHT_ONE_BITS,
        original_src: None,
        original_tgt: None,
    }
}

fn link_edges_exec(
    names_in: &Vec<Vec<char>>,
    src: &String,
    path: &String,
    names: &Vec<(String, String)>,
    edges: &mut Vec<Edge>,
)
    ensures
        edges_fields(final(edges)@) == edges_fields(old(edges)@) + link_edges(
            vecs_view(names_in@),
            src@,
            path@,
            fields_view(names@),
            seq![],
        ),
        forall|i: int|
            0 <= i < old(edges)@.len() ==> final(edges)@[i] == old(edges)@[i],
        forall|i: int|
            old(edges)@.len() <= i < final(edges)@.len() ==> (#[trigger] final(edges)@[i]).source_location is None
                && final(edges)@[i].original_src is None && final(edges)@[i].original_tgt is None,
{
    let ghost nv = vecs_view(names_in@);
    let ghost fv = fields_view(names@);
    let ghost e0 = edges@;
    let mut seen: Vec<String> = Vec::new();
    let n = names_in.len();
    proof {
        reveal_strlit("_COMMUNITY_");
        reveal_strlit("index");
        reveal_strlit("linked");
    }
    assert(nv.skip(0) =~= nv);
    assert(crate::types::strings_view(seen@) =~= seq![]);
    for i in 0..n
        invariant
            n == names_in@.len(),
            nv == vecs_view(names_in@),
            fv == fields_view(names@),
            edges_fields(e0) + link_edges(nv, src@, path@, fv, seq![]) == edges_fields(edges@) + link_edges(
                nv.skip(i as int),
                src@,
                path@,
                fv,
                crate::types::strings_view(seen@),
            ),
            e0.len() <= edges@.len(),
            forall|j: int| 0 <= j < e0.len() ==> edges@[j] == e0[j],
            forall|j: int|
                e0.len() <= j < edges@.len() ==> (#[trigger] edges@[j]).source_location is None
                    && edges@[j].original_src is None && edges@[j].original_tgt is None,
    {
        let nm = &names_in[i];
        assert(nv.skip(i as int)[0] == nm@);
        assert(nv.skip(i as int).drop_first() =~= nv.skip(i + 1));
        let nm_s = crate::text::chars_to_string(nm.as_slice());
        if starts_with_lit(nm_s.as_str(), "_COMMUNITY_") || lit_eq(&nm_s, "index") {
        } else {
            match lookup_last(names, nm.as_slice()) {
                Some(id) => {
                    if !crate::text::str_eq(id.as_str(), src.as_str()) && !crate::learning::contains_str(
                        seen.as_slice(),
                        id.as_str(),
                    ) {
                        let ghost eb = edges@;
                        let ghost sb = seen@;
                        edges.push(new_edge(src, &id, String::from_str("linked"), Confidence::EXTRACTED, path));
                        seen.push(id.clone());
                        assert(crate::types::strings_view(seen@) =~= crate::types::strings_view(sb).push(id@));
                        assert(edges_fields(edges@) =~= edges_fields(eb).push((src@, id@, "linked"@, Confidence::EXTRACTED, path@)));
                        assert(edges_fields(eb) + (seq![(src@, id@, "linked"@, Confidence::EXTRACTED, path@)]
                            + link_edges(nv.skip(i + 1), src@, path@, fv, crate::types::strings_view(seen@)))
                            =~= edges_fields(edges@) + link_edges(nv.skip(i + 1), src@, path@, fv, crate::types::strings_view(seen@)));
                    }
                },
                None => {},
            }
        }
    }
    assert(nv.skip(n as int) =~= seq![]);
    assert(edges_fields(edges@) + seq![] =~= edges_fields(edges@));
}

/// The graph that a vault's notes describe: first a node for each note
/// (see [`vault_pass1`]), then the edges of each note (see [`vault_pass2`]),
/// each edge with the note's path as its source file.
pub fn graph_from_vault(files: &[VaultFile]) -> (r: ExtractionResult)
    requires
        vault_safe(files@),
    ensures
        nodes_fields(r.nodes@) == vault_pass1(files@).0,
        edges_fields(r.edges@) == vault_pass2(files@, vault_pass1(files@).1),
        forall|i: int|
            0 <= i < r.nodes@.len() ==> (#[trigger] r.nodes@[i]).uuid is None && r.nodes@[i].norm_label
                is None && r.nodes@[i].degree is None && r.nodes@[i].fingerprint is None
                && r.nodes@[i].logical_key is None && r.nodes@[i].body_hash is None,
        forall|i: int|
            0 <= i < r.edges@.len() ==> (#[trigger] r.edges@[i]).source_location is None
                && r.edges@[i].original_src is None && r.edges@[i].original_tgt is None,
        r.hyperedges@.len() == 0,
        r.raw_calls@.len() == 0,
        r.input_tokens == 0,
        r.output_tokens == 0,
        r.error is None,
{
    let mut nodes: Vec<Node> = Vec::new();
    let mut names: Vec<(String, String)> = Vec::new();
    let n = files.len();
    proof {
        reveal_strlit("index");
    }
    assert(files@.take(0) =~= seq![]);
    for i in 0..n
        invariant
            n == files@.len(),
            vault_safe(files@),
            nodes_fields(nodes@) == vault_pass1(files@.take(i as int)).0,
            fields_view(names@) == vault_pass1(files@.take(i as int)).1,
            forall|j: int|
                0 <= j < nodes@.len() ==> (#[trigger] nodes@[j]).uuid is None && nodes@[j].norm_label
                    is None && nodes@[j].degree is None && nodes@[j].fingerprint is None
                    && nodes@[j].logical_key is None && nodes@[j].body_hash is None,
    {
        let f = &files[i];
        assert(files@.take(i + 1).drop_last() =~= files@.take(i as int));
        assert(files@.take(i + 1).last() == *f);
        if !lit_eq(&f.stem, "index") {
            match &f.content {
                Some(c) => {
                    assert(files@[i as int] == *f);
                    let fm = parse_frontmatter(c.as_str());
                    let id = note_id_exec(&fm, f.stem.as_str());
                    match note_kind_exec(type_field_exec(&fm), f.stem.as_str()) {
                        None => {},
                        Some(None) => {
                            let ghost b = names@;
                            names.push((f.stem.clone(), id));
                            assert(fields_view(names@) =~= fields_view(b).push((f.stem@, id@)));
                        },
                        Some(Some(t)) => {
                            let node = note_node_exec(c.as_str(), f.stem.as_str(), &fm, t);
                            let ghost bn = nodes@;
                            let ghost b = names@;
                            nodes.push(node);
                            names.push((f.stem.clone(), id));
                            assert(nodes_fields(nodes@) =~= nodes_fields(bn).push(node_fields(node)));
                            assert(fields_view(names@) =~= fields_view(b).push((f.stem@, id@)));
                        },
                    }
                },
                None => {},
            }
        }
    }
    assert(files@.take(n as int) =~= files@);
    let ghost nv = fields_view(names@);
    let mut edges: Vec<Edge> = Vec::new();
    assert(edges_fields(edges@) =~= vault_pass2(files@.take(0), nv));
    proof {
        reveal_strlit("_COMMUNITY_");
    }
    for i in 0..n
        invariant
            n == files@.len(),
            nv == fields_view(names@),
            edges_fields(edges@) == vault_pass2(files@.take(i as int), nv),
            forall|j: int|
                0 <= j < edges@.len() ==> (#[trigger] edges@[j]).source_location is None
                    && edges@[j].original_src is None && edges@[j].original_tgt is None,
    {
        let f = &files[i];
        assert(files@.take(i + 1).drop_last() =~= files@.take(i as int));
        assert(files@.take(i + 1).last() == *f);
        let ghost eb = edges@;
        if lit_eq(&f.stem, "index") || starts_with_lit(f.stem.as_str(), "_COMMUNITY_") {
            assert(note_edges(*f, nv) =~= seq![]);
        } else {
            match lookup_last(&names, crate::text::str_chars(f.stem.as_str()).as_slice()) {
                None => {
                    assert(note_edges(*f, nv) =~= seq![]);
                },
                Some(src) => {
                    match &f.content {
                        None => {
                            assert(note_edges(*f, nv) =~= seq![]);
                        },
                        Some(c) => {
                            let parsed = parse_connections(c.as_str(), &names);
                            if parsed.len() > 0 {
                                let ghost pv = conns_view(parsed@);
                                let m = parsed.len();
                                for j in 0..m
                                    invariant
                                        m == parsed@.len(),
                                        pv == conns_view(parsed@),
                                        edges_fields(edges@) == edges_fields(eb) + pv.take(j as int).map_values(
                                            |x: (Seq<char>, Seq<char>, Confidence)| (src@, x.0, x.1, x.2, f.path@),
                                        ),
                                        forall|k: int|
                                            0 <= k < edges@.len() ==> (#[trigger] edges@[k]).source_location is None
                                                && edges@[k].original_src is None && edges@[k].original_tgt is None,
                                {
                                    let x = &parsed[j];
                                    let ghost b = edges@;
                                    edges.push(new_edge(&src, &x.0, x.1.clone(), x.2, &f.path));
                                    assert(edges_fields(edges@) =~= edges_fields(b).push((src@, x.0@, x.1@, x.2, f.path@)));
                                    assert(pv.take(j + 1).map_values(
                                        |x: (Seq<char>, Seq<char>, Confidence)| (src@, x.0, x.1, x.2, f.path@),
                                    ) =~= pv.take(j as int).map_values(
                                        |x: (Seq<char>, Seq<char>, Confidence)| (src@, x.0, x.1, x.2, f.path@),
                                    ).push((src@, x.0@, x.1@, x.2, f.path@)));
                                }
                                assert(pv.take(m as int) =~= pv);
                            } else {
                                let cs = crate::text::str_chars(c.as_str());
                                let links = wikilinks(cs.as_slice());
                                link_edges_exec(&links, &src, &f.path, &names, &mut edges);
                            }
                        },
                    }
                },
            }
        }
        assert(edges_fields(edges@) =~= vault_pass2(files@.take(i + 1), nv));
    }
    assert(files@.take(n as int) =~= files@);
    ExtractionResult {
        nodes,
        edges,
        hyperedges: Vec::new(),
        input_tokens: 0,
        output_tokens: 0,
        raw_calls: Vec::new(),
        error: None,
    }
}

} // verus!
