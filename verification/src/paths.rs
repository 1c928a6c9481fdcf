//! Unix path text: joining, components, prefixes and file names.
use vstd::prelude::*;
use vstd::string::StringExecFns;

use crate::text::{split_on, vecs_view};

verus! {

/// `b` appended to `a` as std's `PathBuf::push` does: an absolute `b`
/// replaces `a`; otherwise a `/` goes between them unless `a` is empty or
/// already ends with one.
pub open spec fn path_join(a: Seq<char>, b: Seq<char>) -> Seq<char> {
    if b.len() > 0 && b[0] == '/' {
        b
    } else if a.len() == 0 || a.last() == '/' {
        a + b
    } else {
        a + seq!['/'] + b
    }
}

/// `b` appended to `a` (see [`path_join`]).
pub fn join_path(a: &str, b: &str) -> (r: String)
    ensures
        r@ == path_join(a@, b@),
{
    let ac = crate::text::str_chars(a);
    let bc = crate::text::str_chars(b);
    if bc.len() > 0 && bc[0] == '/' {
        String::from_str(b)
    } else if ac.len() == 0 || ac[ac.len() - 1] == '/' {
        let mut r = String::from_str(a);
        r.append(b);
        r
    } else {
        let mut r = String::from_str(a);
        crate::text::push_char(&mut r, '/');
        r.append(b);
        r
    }
}

/// The components of the `/`-separated segments `segs[i..]`: empty segments
/// are skipped, and `.` is kept only as the first segment.
pub open spec fn segment_components(segs: Seq<Seq<char>>, i: int) -> Seq<Seq<char>>
    decreases segs.len() - i,
{
    if i < 0 || i >= segs.len() {
        seq![]
    } else {
        let rest = segment_components(segs, i + 1);
        let s = segs[i];
        if s.len() > 0 && (s != seq!['.'] || i == 0) {
            seq![s] + rest
        } else {
            rest
        }
    }
}

/// The components of a path, as std's `Path::components` gives them: `/`
/// for the root of an absolute path, then the non-empty segments (a leading
/// `.` kept, other `.` segments dropped).
pub open spec fn path_components(p: Seq<char>) -> Seq<Seq<char>> {
    let root: Seq<Seq<char>> = if p.len() > 0 && p[0] == '/' {
        seq![seq!['/']]
    } else {
        seq![]
    };
    root + segment_components(split_on(p, '/'), 0)
}

/// `a` starts with the path `b`, component by component.
pub open spec fn path_starts_with(a: Seq<char>, b: Seq<char>) -> bool {
    let ca = path_components(a);
    let cb = path_components(b);
    cb.len() <= ca.len() && ca.take(cb.len() as int) == cb
}

/// The file name of a path: its last component, unless that is the root,
/// `.` or `..`.
pub open spec fn file_name(p: Seq<char>) -> Option<Seq<char>> {
    let c = path_components(p);
    if c.len() > 0 && c.last() != seq!['/'] && c.last() != seq!['.'] && c.last() != seq!['.', '.'] {
        Some(c.last())
    } else {
        None
    }
}

fn is_dot(s: &Vec<char>) -> (r: bool)
    ensures
        r == (s@ == seq!['.']),
{
    if s.len() == 1 && s[0] == '.' {
        assert(s@ =~= seq!['.']);
        true
    } else {
        false
    }
}

/// The components of a path (see [`path_components`]).
pub fn components(p: &str) -> (r: Vec<Vec<char>>)
    ensures
        vecs_view(r@) == path_components(p@),
{
    let pc = crate::text::str_chars(p);
    let segs = crate::text::split_chars(pc.as_slice(), '/');
    let ghost sv = vecs_view(segs@);
    let n = segs.len();
    let mut tail: Vec<Vec<char>> = Vec::new();
    let mut i: usize = n;
    assert(vecs_view(tail@) =~= segment_components(sv, n as int));
    while i > 0
        invariant
            i <= n,
            n == segs@.len(),
            sv == vecs_view(segs@),
            vecs_view(tail@) == segment_components(sv, i as int),
        decreases i,
    {
        i = i - 1;
        let s = &segs[i];
        assert(sv[i as int] == s@);
        if s.len() > 0 && (!is_dot(s) || i == 0) {
            let ghost b = tail@;
            tail.insert(0, s.clone());
            assert(vecs_view(tail@) =~= seq![s@] + vecs_view(b));
        }
    }
    if pc.len() > 0 && pc[0] == '/' {
        let ghost b = tail@;
        let mut root: Vec<char> = Vec::new();
        root.push('/');
        tail.insert(0, root);
        assert(vecs_view(tail@) =~= seq![seq!['/']] + vecs_view(b));
    } else {
        assert(vecs_view(tail@) =~= Seq::<Seq<char>>::empty() + vecs_view(tail@));
    }
    tail
}

/// Whether `a` starts with the path `b` (see [`path_starts_with`]).
pub fn starts_with_path(a: &str, b: &str) -> (r: bool)
    ensures
        r == path_starts_with(a@, b@),
{
    let ca = components(a);
    let cb = components(b);
    let ghost va = vecs_view(ca@);
    let ghost vb = vecs_view(cb@);
    if cb.len() > ca.len() {
        return false;
    }
    let n = cb.len();
    for i in 0..n
        invariant
            n == cb@.len(),
            n <= ca@.len(),
            va == vecs_view(ca@),
            vb == vecs_view(cb@),
            va == path_components(a@),
            vb == path_components(b@),
            forall|j: int| 0 <= j < i ==> va[j] == vb[j],
    {
        assert(va[i as int] == ca@[i as int]@ && vb[i as int] == cb@[i as int]@);
        if !crate::text::chars_eq(ca[i].as_slice(), cb[i].as_slice()) {
            assert(va.take(n as int)[i as int] != vb[i as int]);
            return false;
        }
    }
    assert(va.take(n as int) =~= vb);
    true
}

/// The number of components of a path.
pub fn component_count(p: &str) -> (r: usize)
    ensures
        r == path_components(p@).len(),
{
    components(p).len()
}

/// The file name of a path (see [`file_name`]).
pub fn file_name_of(p: &str) -> (r: Option<String>)
    ensures
        match r {
            Some(s) => file_name(p@) == Some(s@),
            None => file_name(p@) is None,
        },
{
    let c = components(p);
    if c.len() == 0 {
        return None;
    }
    let last = &c[c.len() - 1];
    let is_root = last.len() == 1 && last[0] == '/';
    let is_cur = last.len() == 1 && last[0] == '.';
    let is_parent = last.len() == 2 && last[0] == '.' && last[1] == '.';
    if is_root || is_cur || is_parent {
        assert(is_root ==> last@ =~= seq!['/']);
        assert(is_cur ==> last@ =~= seq!['.']);
        assert(is_parent ==> last@ =~= seq!['.', '.']);
        None
    } else {
        assert(last@ != seq!['/']);
        assert(last@ != seq!['.']);
        assert(last@ != seq!['.', '.']);
        Some(crate::text::chars_to_string(last.as_slice()))
    }
}

} // verus!
