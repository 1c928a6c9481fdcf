//! Stable node identifiers built from name parts.
use vstd::prelude::*;

use crate::text::{str_chars, strip_lead_char, strip_lead_char_exec, sub_vec};
use crate::types::ascii_lower;

verus! {

/// ASCII letters and digits (the class `[a-zA-Z0-9]`).
pub open spec fn is_ascii_alnum(c: char) -> bool {
    ('a' <= c && c <= 'z') || ('A' <= c && c <= 'Z') || ('0' <= c && c <= '9')
}

/// `s` with every maximal run of characters outside `[a-zA-Z0-9]` replaced by
/// one `_` (the regex replacement `[^a-zA-Z0-9]+` → `_`).
pub open spec fn collapse(s: Seq<char>) -> Seq<char>
    decreases s.len(),
{
    if s.len() == 0 {
        seq![]
    } else if is_ascii_alnum(s.last()) {
        collapse(s.drop_last()).push(s.last())
    } else if s.len() >= 2 && !is_ascii_alnum(s[s.len() - 2]) {
        collapse(s.drop_last())
    } else {
        collapse(s.drop_last()).push('_')
    }
}

/// `s` without every trailing `c`.
pub open spec fn strip_trail_char(s: Seq<char>, c: char) -> Seq<char>
    decreases s.len(),
{
    if s.len() > 0 && s.last() == c {
        strip_trail_char(s.drop_last(), c)
    } else {
        s
    }
}

/// `s` without leading and trailing `c` (`trim_matches(c)`).
pub open spec fn trim_char(s: Seq<char>, c: char) -> Seq<char> {
    strip_trail_char(strip_lead_char(s, c), c)
}

/// Every character ASCII-lower-cased.
pub open spec fn lower_all(s: Seq<char>) -> Seq<char> {
    Seq::new(s.len(), |i: int| ascii_lower(s[i]))
}

/// The normal form of an identifier: runs outside `[a-zA-Z0-9]` become `_`,
/// leading and trailing `_` are removed, letters are lower-cased.
pub open spec fn spec_normalize_id(s: Seq<char>) -> Seq<char> {
    lower_all(trim_char(collapse(s), '_'))
}

/// `_` and `.`, the characters cut from both ends of each name part.
pub open spec fn is_part_edge(c: char) -> bool {
    c == '_' || c == '.'
}

/// Number of leading `_`/`.` characters.
pub open spec fn lead_edges(s: Seq<char>) -> int
    decreases s.len(),
{
    if s.len() > 0 && is_part_edge(s[0]) {
        1 + lead_edges(s.drop_first())
    } else {
        0
    }
}

/// `s` without trailing `_`/`.` characters.
pub open spec fn strip_trail_edges(s: Seq<char>) -> Seq<char>
    decreases s.len(),
{
    if s.len() > 0 && is_part_edge(s.last()) {
        strip_trail_edges(s.drop_last())
    } else {
        s
    }
}

/// A name part without leading and trailing `_` and `.`.
pub open spec fn trim_part(s: Seq<char>) -> Seq<char> {
    strip_trail_edges(s.skip(lead_edges(s)))
}

/// The trimmed non-empty parts, in order.
pub open spec fn id_pieces(parts: Seq<Seq<char>>) -> Seq<Seq<char>>
    decreases parts.len(),
{
    if parts.len() == 0 {
        seq![]
    } else if parts.last().len() == 0 {
        id_pieces(parts.drop_last())
    } else {
        id_pieces(parts.drop_last()).push(trim_part(parts.last()))
    }
}

/// The pieces joined with `_`.
pub open spec fn join_us(pieces: Seq<Seq<char>>) -> Seq<char>
    decreases pieces.len(),
{
    if pieces.len() == 0 {
        seq![]
    } else if pieces.len() == 1 {
        pieces[0]
    } else {
        join_us(pieces.drop_last()) + seq!['_'] + pieces.last()
    }
}

/// The identifier built from `parts` by [`make_id`].
pub open spec fn spec_make_id(parts: Seq<Seq<char>>) -> Seq<char> {
    spec_normalize_id(join_us(id_pieces(parts)))
}

/// The views of a list of string slices.
pub open spec fn strs_view(parts: Seq<&str>) -> Seq<Seq<char>> {
    Seq::new(parts.len(), |i: int| parts[i]@)
}

fn is_ascii_alnum_exec(c: char) -> (r: bool)
    ensures
        r == is_ascii_alnum(c),
{
    ('a' <= c && c <= 'z') || ('A' <= c && c <= 'Z') || ('0' <= c && c <= '9')
}

fn collapse_exec(s: &[char]) -> (r: Vec<char>)
    ensures
        r@ == collapse(s@),
{
    let n = s.len();
    let mut out: Vec<char> = Vec::new();
    for i in 0..n
        invariant
            n == s@.len(),
            out@ == collapse(s@.take(i as int)),
    {
        let c = s[i];
        let ghost t = s@.take(i + 1);
        assert(t.drop_last() =~= s@.take(i as int));
        assert(t.last() == c);
        if i >= 1 {
            assert(t[t.len() - 2] == s@[i - 1]);
        }
        if is_ascii_alnum_exec(c) {
            out.push(c);
        } else if i >= 1 && !is_ascii_alnum_exec(s[i - 1]) {
        } else {
            out.push('_');
        }
    }
    assert(s@.take(n as int) =~= s@);
    out
}

/// `s` without its trailing copies of `c`.
pub fn strip_trail_char_exec(s: &[char], c: char) -> (r: Vec<char>)
    ensures
        r@ == strip_trail_char(s@, c),
{
    let mut b = s.len();
    assert(s@.take(b as int) =~= s@);
    while b > 0 && s[b - 1] == c
        invariant
            b <= s@.len(),
            strip_trail_char(s@.take(b as int), c) == strip_trail_char(s@, c),
        decreases b,
    {
        assert(s@.take(b as int).drop_last() =~= s@.take(b - 1));
        b = b - 1;
    }
    assert(s@.subrange(0, b as int) =~= s@.take(b as int));
    sub_vec(s, 0, b)
}

fn lower_exec(s: &[char]) -> (r: Vec<char>)
    ensures
        r@ == lower_all(s@),
{
    let n = s.len();
    let mut out: Vec<char> = Vec::new();
    for i in 0..n
        invariant
            n == s@.len(),
            out@ =~= lower_all(s@.take(i as int)),
    {
        let c = s[i];
        let lc = if 'A' <= c && c <= 'Z' {
            ((c as u32) + 32) as u8 as char
        } else {
            c
        };
        assert(lc == ascii_lower(c)) by {
            if 'A' <= c && c <= 'Z' {
                assert(((c as u32) + 32) < 256);
            }
        }
        out.push(lc);
    }
    assert(s@.take(n as int) =~= s@);
    out
}

fn normalize_chars(s: &[char]) -> (r: Vec<char>)
    ensures
        r@ == spec_normalize_id(s@),
{
    let c = collapse_exec(s);
    let a = strip_lead_char_exec(c.as_slice(), '_');
    let b = strip_trail_char_exec(a.as_slice(), '_');
    lower_exec(b.as_slice())
}

fn trim_part_exec(s: &[char]) -> (r: Vec<char>)
    ensures
        r@ == trim_part(s@),
{
    let n = s.len();
    let mut a: usize = 0;
    assert(s@.skip(0) =~= s@);
    while a < n && (s[a] == '_' || s[a] == '.')
        invariant
            n == s@.len(),
            a <= n,
            a + lead_edges(s@.skip(a as int)) == lead_edges(s@),
        decreases n - a,
    {
        assert(s@.skip(a as int).drop_first() =~= s@.skip(a + 1));
        a = a + 1;
    }
    let mut b = n;
    assert(s@.subrange(a as int, b as int) =~= s@.skip(lead_edges(s@)));
    while b > a && (s[b - 1] == '_' || s[b - 1] == '.')
        invariant
            n == s@.len(),
            a <= b <= n,
            a == lead_edges(s@),
            strip_trail_edges(s@.subrange(a as int, b as int)) == trim_part(s@),
        decreases b - a,
    {
        assert(s@.subrange(a as int, b as int).drop_last() =~= s@.subrange(a as int, b - 1));
        b = b - 1;
    }
    sub_vec(s, a, b)
}

/// Build a stable node ID from one or more name parts.
///
/// Joins the non-empty parts (each trimmed of leading/trailing `_` and `.`)
/// with `_`, replaces runs outside `[a-zA-Z0-9]` with `_`, strips leading and
/// trailing `_`, lowercases.
pub fn make_id(parts: &[&str]) -> (r: String)
    ensures
        r@ == spec_make_id(strs_view(parts@)),
{
    let n = parts.len();
    let mut joined: Vec<char> = Vec::new();
    let mut any = false;
    for i in 0..n
        invariant
            n == parts@.len(),
            any == (id_pieces(strs_view(parts@).take(i as int)).len() > 0),
            joined@ == join_us(id_pieces(strs_view(parts@).take(i as int))),
    {
        let ghost pv = strs_view(parts@);
        assert(pv.take(i + 1).drop_last() =~= pv.take(i as int));
        assert(pv.take(i + 1).last() == parts@[i as int]@);
        let cs = str_chars(parts[i]);
        if cs.len() > 0 {
            let piece = trim_part_exec(cs.as_slice());
            let ghost prev = id_pieces(pv.take(i as int));
            if any {
                joined.push('_');
            }
            let ghost before = joined@;
            let m = piece.len();
            for j in 0..m
                invariant
                    m == piece@.len(),
                    joined@ == before + piece@.take(j as int),
            {
                joined.push(piece[j]);
                assert(piece@.take(j + 1) =~= piece@.take(j as int).push(piece@[j as int]));
            }
            assert(piece@.take(m as int) =~= piece@);
            proof {
                let next = prev.push(piece@);
                assert(next.drop_last() =~= prev);
                if prev.len() == 0 {
                    assert(join_us(next) == next[0]);
                    assert(joined@ =~= piece@);
                } else {
                    assert(joined@ =~= join_us(prev) + seq!['_'] + piece@);
                }
            }
            any = true;
        }
    }
    assert(strs_view(parts@).take(n as int) =~= strs_view(parts@));
    let out = normalize_chars(joined.as_slice());
    crate::text::chars_to_string(out.as_slice())
}

/// Normalize an ID string the same way `make_id` does.
///
/// Used to reconcile edge endpoints when generated IDs differ from the
/// extracted ones in punctuation or casing.
pub fn normalize_id(s: &str) -> (r: String)
    ensures
        r@ == spec_normalize_id(s@),
{
    let cs = str_chars(s);
    let out = normalize_chars(cs.as_slice());
    crate::text::chars_to_string(out.as_slice())
}

} // verus!
