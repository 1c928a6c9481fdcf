//! Character-sequence helpers shared by the rest of the library.
use vstd::prelude::*;
use vstd::string::StringExecFns;

verus! {

/// Appends one character to a `String` (std's `String::push`).
#[verifier::external_body]
pub(crate) fn push_char(s: &mut String, c: char)
    ensures
        final(s)@ == old(s)@.push(c),
{
    s.push(c);
}

/// The characters of a string slice, in order.
pub fn str_chars(s: &str) -> (v: Vec<char>)
    ensures
        v@ == s@,
{
    let mut v: Vec<char> = Vec::new();
    for c in it: s.chars()
        invariant
            v@ == it.seq().take(it.index() as int),
            it.seq() == s@,
    {
        v.push(c);
    }
    v
}

/// Builds a `String` from a sequence of characters.
pub fn chars_to_string(v: &[char]) -> (s: String)
    ensures
        s@ == v@,
{
    let mut s = String::new();
    let n = v.len();
    for i in 0..n
        invariant
            n == v@.len(),
            s@ == v@.take(i as int),
    {
        push_char(&mut s, v[i]);
        assert(v@.take(i + 1) == v@.take(i as int).push(v@[i as int]));
    }
    assert(v@.take(n as int) == v@);
    s
}


/// Equality of two character sequences.
pub fn chars_eq(a: &[char], b: &[char]) -> (r: bool)
    ensures
        r == (a@ == b@),
{
    if a.len() != b.len() {
        return false;
    }
    let n = a.len();
    for i in 0..n
        invariant
            n == a@.len(),
            n == b@.len(),
            forall|j: int| 0 <= j < i ==> a@[j] == b@[j],
    {
        if a[i] != b[i] {
            return false;
        }
    }
    assert(a@ =~= b@);
    true
}

/// Equality of two string slices: the same characters in the same order.
pub(crate) fn str_eq(a: &str, b: &str) -> (r: bool)
    ensures
        r == (a@ == b@),
{
    let x = str_chars(a);
    let y = str_chars(b);
    chars_eq(x.as_slice(), y.as_slice())
}

/// `n` occurs in `h` at position `i`.
pub open spec fn occurs_at(h: Seq<char>, n: Seq<char>, i: int) -> bool {
    0 <= i && i + n.len() <= h.len() && h.subrange(i, i + n.len()) == n
}

/// `h` starts with `p`.
pub open spec fn starts_with(h: Seq<char>, p: Seq<char>) -> bool {
    occurs_at(h, p, 0)
}

/// `h` ends with `p`.
pub open spec fn ends_with(h: Seq<char>, p: Seq<char>) -> bool {
    occurs_at(h, p, h.len() - p.len())
}

/// `n` occurs somewhere in `h`.
pub open spec fn contains(h: Seq<char>, n: Seq<char>) -> bool {
    exists|i: int| occurs_at(h, n, i)
}

/// Whether `n` occurs in `h` at position `i`.
pub fn occurs_at_exec(h: &[char], n: &[char], i: usize) -> (r: bool)
    ensures
        r == occurs_at(h@, n@, i as int),
{
    if i > h.len() || n.len() > h.len() - i {
        return false;
    }
    let m = n.len();
    let hl = h.len();
    for j in 0..m
        invariant
            m == n@.len(),
            hl == h@.len(),
            i + m <= h@.len(),
            forall|k: int| 0 <= k < j ==> h@[i + k] == n@[k],
    {
        assert(i + j < h@.len());
        if h[i + j] != n[j] {
            assert(h@.subrange(i as int, i + m)[j as int] != n@[j as int]);
            return false;
        }
    }
    assert(h@.subrange(i as int, i + m) =~= n@);
    true
}

/// Whether `h` starts with `p`.
pub fn starts_with_exec(h: &[char], p: &[char]) -> (r: bool)
    ensures
        r == starts_with(h@, p@),
{
    occurs_at_exec(h, p, 0)
}

/// Whether `h` ends with `p`.
pub fn ends_with_exec(h: &[char], p: &[char]) -> (r: bool)
    ensures
        r == ends_with(h@, p@),
{
    if p.len() > h.len() {
        return false;
    }
    occurs_at_exec(h, p, h.len() - p.len())
}

/// The first position at which `n` occurs in `h`, if any.
pub fn find_exec(h: &[char], n: &[char]) -> (r: Option<usize>)
    ensures
        match r {
            Some(i) => occurs_at(h@, n@, i as int) && forall|j: int|
                0 <= j < i ==> !occurs_at(h@, n@, j),
            None => !contains(h@, n@),
        },
{
    let len = h.len();
    let mut i: usize = 0;
    while i < len
        invariant
            len == h@.len(),
            i <= len,
            forall|j: int| 0 <= j < i ==> !occurs_at(h@, n@, j),
        decreases len - i,
    {
        if occurs_at_exec(h, n, i) {
            return Some(i);
        }
        i = i + 1;
    }
    if occurs_at_exec(h, n, len) {
        return Some(len);
    }
    assert forall|j: int| !occurs_at(h@, n@, j) by {
        if 0 <= j <= len {
        } else {
        }
    }
    None
}

/// Whether `n` occurs in `h`.
pub fn contains_exec(h: &[char], n: &[char]) -> (r: bool)
    ensures
        r == contains(h@, n@),
{
    match find_exec(h, n) {
        Some(_) => true,
        None => false,
    }
}

/// The first position of character `c` in `s`, or `s.len()` when absent.
pub open spec fn first_pos(s: Seq<char>, c: char) -> int
    decreases s.len(),
{
    if s.len() == 0 {
        0
    } else if s[0] == c {
        0
    } else {
        1 + first_pos(s.drop_first(), c)
    }
}

/// The first position of `c` in `s`, when there is one, holds `c` and is preceded by none.
pub proof fn lemma_first_pos(s: Seq<char>, c: char)
    ensures
        0 <= first_pos(s, c) <= s.len(),
        forall|j: int| 0 <= j < first_pos(s, c) ==> s[j] != c,
        first_pos(s, c) < s.len() ==> s[first_pos(s, c)] == c,
    decreases s.len(),
{
    if s.len() > 0 && s[0] != c {
        lemma_first_pos(s.drop_first(), c);
        assert forall|j: int| 0 <= j < first_pos(s, c) implies s[j] != c by {
            if j > 0 {
                assert(s[j] == s.drop_first()[j - 1]);
            }
        }
    }
}

/// The part of `s` before the first `c` (all of `s` when there is none), as
/// `s.split(c).next()` gives it.
pub open spec fn before_first(s: Seq<char>, c: char) -> Seq<char> {
    s.take(first_pos(s, c))
}

/// The first position of `c` in `s` (its length when `c` does not occur).
pub fn first_pos_exec(s: &[char], c: char) -> (r: usize)
    ensures
        r == first_pos(s@, c),
{
    proof {
        lemma_first_pos(s@, c);
    }
    let n = s.len();
    let mut i: usize = 0;
    while i < n
        invariant
            n == s@.len(),
            i <= n,
            forall|j: int| 0 <= j < i ==> s@[j] != c,
        decreases n - i,
    {
        if s[i] == c {
            proof {
                lemma_first_pos_unique(s@, c, i as int);
            }
            return i;
        }
        i = i + 1;
    }
    proof {
        lemma_first_pos_unique(s@, c, n as int);
    }
    n
}

/// A position that holds `c` with no `c` before it is the first position of `c`.
pub proof fn lemma_first_pos_unique(s: Seq<char>, c: char, k: int)
    requires
        0 <= k <= s.len(),
        forall|j: int| 0 <= j < k ==> s[j] != c,
        k < s.len() ==> s[k] == c,
    ensures
        first_pos(s, c) == k,
{
    lemma_first_pos(s, c);
}

/// The last position of character `c` in `s`, or -1 when absent.
pub open spec fn last_pos(s: Seq<char>, c: char) -> int
    decreases s.len(),
{
    if s.len() == 0 {
        -1
    } else if s.last() == c {
        s.len() - 1
    } else {
        last_pos(s.drop_last(), c)
    }
}

/// The last position of `c` in `s`, when there is one, holds `c` and is followed by none.
pub proof fn lemma_last_pos(s: Seq<char>, c: char)
    ensures
        -1 <= last_pos(s, c) < s.len(),
        forall|j: int| last_pos(s, c) < j < s.len() ==> s[j] != c,
        last_pos(s, c) >= 0 ==> s[last_pos(s, c)] == c,
    decreases s.len(),
{
    if s.len() > 0 && s.last() != c {
        lemma_last_pos(s.drop_last(), c);
        assert forall|j: int| last_pos(s, c) < j < s.len() implies s[j] != c by {
            if j < s.len() - 1 {
                assert(s[j] == s.drop_last()[j]);
            }
        }
    }
}

/// The part of `s` after the last `c` (all of `s` when there is none), as
/// `s.split(c).next_back()` gives it.
pub open spec fn after_last(s: Seq<char>, c: char) -> Seq<char> {
    s.skip(last_pos(s, c) + 1)
}

/// One past the last position of `c` in `s` (0 when absent).
pub fn last_pos_exec(s: &[char], c: char) -> (r: usize)
    ensures
        r == last_pos(s@, c) + 1,
{
    proof {
        lemma_last_pos(s@, c);
    }
    let n = s.len();
    let mut i: usize = n;
    while i > 0
        invariant
            n == s@.len(),
            i <= n,
            forall|j: int| i <= j < n ==> s@[j] != c,
        decreases i,
    {
        if s[i - 1] == c {
            proof {
                lemma_last_pos_unique(s@, c, i - 1);
            }
            return i;
        }
        i = i - 1;
    }
    proof {
        lemma_last_pos_unique(s@, c, -1);
    }
    0
}

/// A position that holds `c` with no `c` after it is the last position of `c`.
pub proof fn lemma_last_pos_unique(s: Seq<char>, c: char, k: int)
    requires
        -1 <= k < s.len(),
        forall|j: int| k < j < s.len() ==> s[j] != c,
        k >= 0 ==> s[k] == c,
    ensures
        last_pos(s, c) == k,
    decreases s.len(),
{
    if s.len() > 0 && s.last() != c {
        lemma_last_pos_unique(s.drop_last(), c, k);
    }
}

/// A slice of a character vector as a new vector.
pub fn sub_vec(s: &[char], from: usize, to: usize) -> (r: Vec<char>)
    requires
        from <= to <= s@.len(),
    ensures
        r@ == s@.subrange(from as int, to as int),
{
    let mut r: Vec<char> = Vec::new();
    let mut i = from;
    while i < to
        invariant
            from <= i <= to,
            to <= s@.len(),
            r@ == s@.subrange(from as int, i as int),
        decreases to - i,
    {
        r.push(s[i]);
        assert(s@.subrange(from as int, i + 1) == s@.subrange(from as int, i as int).push(s@[i as int]));
        i = i + 1;
    }
    r
}

/// The pieces of `s` between occurrences of `c` (`s.split(c)`).
pub open spec fn split_on(s: Seq<char>, c: char) -> Seq<Seq<char>>
    decreases s.len(),
{
    let k = first_pos(s, c);
    if k >= s.len() {
        seq![s]
    } else {
        proof {
            lemma_first_pos(s, c);
        }
        seq![s.take(k)] + split_on(s.skip(k + 1), c)
    }
}

/// The first position of `c` at or after `from`, or `s.len()`.
pub fn first_pos_from(s: &[char], c: char, from: usize) -> (r: usize)
    requires
        from <= s@.len(),
    ensures
        from <= r <= s@.len(),
        r - from == first_pos(s@.skip(from as int), c),
{
    proof {
        lemma_first_pos(s@.skip(from as int), c);
    }
    let n = s.len();
    let mut i: usize = from;
    while i < n
        invariant
            n == s@.len(),
            from <= i <= n,
            forall|j: int| from <= j < i ==> s@[j] != c,
        decreases n - i,
    {
        if s[i] == c {
            proof {
                assert forall|j: int| 0 <= j < i - from implies s@.skip(from as int)[j] != c by {
                    assert(s@.skip(from as int)[j] == s@[from + j]);
                }
                lemma_first_pos_unique(s@.skip(from as int), c, i - from);
            }
            return i;
        }
        i = i + 1;
    }
    proof {
        assert forall|j: int| 0 <= j < n - from implies s@.skip(from as int)[j] != c by {
            assert(s@.skip(from as int)[j] == s@[from + j]);
        }
        lemma_first_pos_unique(s@.skip(from as int), c, n - from);
    }
    n
}

/// The views of a list of character vectors.
pub open spec fn vecs_view(v: Seq<Vec<char>>) -> Seq<Seq<char>> {
    Seq::new(v.len(), |i: int| v[i]@)
}

/// `s.split(c)` as character vectors.
pub fn split_chars(s: &[char], c: char) -> (r: Vec<Vec<char>>)
    ensures
        vecs_view(r@) == split_on(s@, c),
        r@.len() >= 1,
{
    let n = s.len();
    let mut parts: Vec<Vec<char>> = Vec::new();
    let mut pos: usize = 0;
    assert(s@.skip(0) =~= s@);
    assert(vecs_view(parts@) =~= Seq::<Seq<char>>::empty());
    assert(vecs_view(parts@) + split_on(s@, c) =~= split_on(s@, c));
    loop
        invariant
            n == s@.len(),
            pos <= n,
            vecs_view(parts@) + split_on(s@.skip(pos as int), c) == split_on(s@, c),
        decreases n - pos,
    {
        let k = first_pos_from(s, c, pos);
        let piece = sub_vec(s, pos, k);
        let ghost rest = s@.skip(pos as int);
        proof {
            lemma_first_pos(rest, c);
            assert(piece@ == rest.take(k - pos));
        }
        if k >= n {
            let ghost old_parts = parts@;
            parts.push(piece);
            proof {
                assert(split_on(rest, c) == seq![rest]);
                assert(rest.take(k - pos) == rest);
                assert(vecs_view(parts@) =~= vecs_view(old_parts).push(piece@));
                assert(vecs_view(parts@) =~= vecs_view(old_parts) + split_on(rest, c));
            }
            return parts;
        }
        let ghost old_parts = parts@;
        parts.push(piece);
        proof {
            assert(rest.skip(k - pos + 1) =~= s@.skip(k + 1));
            assert(split_on(rest, c) == seq![rest.take(k - pos)] + split_on(rest.skip(k - pos + 1), c));
            assert(vecs_view(parts@) =~= vecs_view(old_parts).push(piece@));
            assert(vecs_view(parts@) + split_on(s@.skip(k + 1), c) =~= vecs_view(old_parts) + split_on(rest, c));
        }
        pos = k + 1;
    }
}

/// `s` without one trailing `c`, if it ends with one.
pub open spec fn strip_last(s: Seq<char>, c: char) -> Seq<char> {
    if s.len() > 0 && s.last() == c {
        s.drop_last()
    } else {
        s
    }
}

/// The lines of `s` as `str::lines` yields them: pieces between `\n`, each
/// without one trailing `\r`; a final piece after the last `\n` is a line only
/// when it is not empty, and keeps a trailing `\r`.
pub open spec fn lines(s: Seq<char>) -> Seq<Seq<char>> {
    let parts = split_on(s, '\n');
    let n = parts.len() - 1;
    let body = Seq::new(n as nat, |i: int| strip_last(parts[i], '\r'));
    if parts[n].len() == 0 {
        body
    } else {
        body.push(parts[n])
    }
}

/// Splitting on a separator always gives at least one piece.
pub proof fn lemma_split_on_nonempty(s: Seq<char>, c: char)
    ensures
        split_on(s, c).len() >= 1,
    decreases s.len(),
{
    lemma_first_pos(s, c);
    if first_pos(s, c) < s.len() {
        lemma_split_on_nonempty(s.skip(first_pos(s, c) + 1), c);
    }
}

/// The lines of `s` (see [`lines`]).
pub fn lines_exec(s: &[char]) -> (r: Vec<Vec<char>>)
    ensures
        vecs_view(r@) == lines(s@),
{
    let parts = split_chars(s, '\n');
    let n = parts.len() - 1;
    let mut out: Vec<Vec<char>> = Vec::new();
    for i in 0..n
        invariant
            n == parts@.len() - 1,
            vecs_view(parts@) == split_on(s@, '\n'),
            out@.len() == i,
            forall|j: int| 0 <= j < i ==> out@[j]@ == strip_last(parts@[j]@, '\r'),
    {
        let p = &parts[i];
        let mut line = sub_vec(p.as_slice(), 0, p.len());
        if line.len() > 0 && line[line.len() - 1] == '\r' {
            line.pop();
        }
        assert(line@ == strip_last(parts@[i as int]@, '\r')) by {
            assert(parts@[i as int]@.subrange(0, p@.len() as int) =~= parts@[i as int]@);
        }
        out.push(line);
    }
    let last = &parts[n];
    let ghost body = Seq::new(n as nat, |i: int| strip_last(split_on(s@, '\n')[i], '\r'));
    assert(vecs_view(out@) =~= body) by {
        assert forall|j: int| 0 <= j < n implies vecs_view(out@)[j] == body[j] by {
            assert(vecs_view(parts@)[j] == parts@[j]@);
        }
    }
    assert(vecs_view(parts@)[n as int] == last@);
    if last.len() > 0 {
        let copy = sub_vec(last.as_slice(), 0, last.len());
        assert(copy@ =~= last@);
        let ghost prev = out@;
        out.push(copy);
        assert(vecs_view(out@) =~= vecs_view(prev).push(copy@));
    }
    out
}

/// Unicode white space (`char::is_whitespace`).
pub open spec fn is_whitespace(c: char) -> bool {
    let u = c as u32;
    (0x09 <= u && u <= 0x0d) || u == 0x20 || u == 0x85 || u == 0xa0 || u == 0x1680 || (0x2000
        <= u && u <= 0x200a) || u == 0x2028 || u == 0x2029 || u == 0x202f || u == 0x205f || u
        == 0x3000
}

/// Whether `c` is white space (see [`is_whitespace`]).
pub fn is_whitespace_exec(c: char) -> (r: bool)
    ensures
        r == is_whitespace(c),
{
    let u = c as u32;
    (0x09 <= u && u <= 0x0d) || u == 0x20 || u == 0x85 || u == 0xa0 || u == 0x1680 || (0x2000
        <= u && u <= 0x200a) || u == 0x2028 || u == 0x2029 || u == 0x202f || u == 0x205f || u
        == 0x3000
}

/// Number of leading white-space characters.
pub open spec fn lead_ws(s: Seq<char>) -> int
    decreases s.len(),
{
    if s.len() > 0 && is_whitespace(s[0]) {
        1 + lead_ws(s.drop_first())
    } else {
        0
    }
}

/// `s` without leading white space (`trim_start`).
pub open spec fn trim_start(s: Seq<char>) -> Seq<char> {
    s.skip(lead_ws(s))
}

/// `s` without trailing white space (`trim_end`).
pub open spec fn trim_end(s: Seq<char>) -> Seq<char>
    decreases s.len(),
{
    if s.len() > 0 && is_whitespace(s.last()) {
        trim_end(s.drop_last())
    } else {
        s
    }
}

/// `s` without leading and trailing white space (`trim`).
pub open spec fn trim(s: Seq<char>) -> Seq<char> {
    trim_end(trim_start(s))
}

/// The leading white space of `s` is white space and is followed by none.
pub proof fn lemma_lead_ws(s: Seq<char>)
    ensures
        0 <= lead_ws(s) <= s.len(),
        forall|j: int| 0 <= j < lead_ws(s) ==> is_whitespace(s[j]),
        lead_ws(s) < s.len() ==> !is_whitespace(s[lead_ws(s)]),
    decreases s.len(),
{
    if s.len() > 0 && is_whitespace(s[0]) {
        lemma_lead_ws(s.drop_first());
        assert forall|j: int| 0 <= j < lead_ws(s) implies is_whitespace(s[j]) by {
            if j > 0 {
                assert(s[j] == s.drop_first()[j - 1]);
            }
        }
    }
}

/// A white-space prefix followed by a non-space is the leading white space.
pub proof fn lemma_lead_ws_unique(s: Seq<char>, k: int)
    requires
        0 <= k <= s.len(),
        forall|j: int| 0 <= j < k ==> is_whitespace(s[j]),
        k < s.len() ==> !is_whitespace(s[k]),
    ensures
        lead_ws(s) == k,
    decreases s.len(),
{
    if k > 0 {
        assert(s.drop_first().len() == s.len() - 1);
        assert forall|j: int| 0 <= j < k - 1 implies is_whitespace(s.drop_first()[j]) by {
            assert(s.drop_first()[j] == s[j + 1]);
        }
        lemma_lead_ws_unique(s.drop_first(), k - 1);
    }
}

/// What trimming the end of `s` removes is white space, and what stays does not end in it.
pub proof fn lemma_trim_end(s: Seq<char>)
    ensures
        trim_end(s) == s.take(trim_end(s).len() as int),
        trim_end(s).len() <= s.len(),
        forall|j: int| trim_end(s).len() <= j < s.len() ==> is_whitespace(s[j]),
        trim_end(s).len() > 0 ==> !is_whitespace(trim_end(s).last()),
    decreases s.len(),
{
    if s.len() > 0 && is_whitespace(s.last()) {
        lemma_trim_end(s.drop_last());
        assert(s.drop_last().take(trim_end(s).len() as int) =~= s.take(trim_end(s).len() as int));
        assert forall|j: int| trim_end(s).len() <= j < s.len() implies is_whitespace(s[j]) by {
            if j < s.len() - 1 {
                assert(s[j] == s.drop_last()[j]);
            }
        }
    } else {
        assert(s.take(s.len() as int) =~= s);
    }
}

/// A prefix after which only white space follows, and which does not end in it, is `trim_end(s)`.
pub proof fn lemma_trim_end_unique(s: Seq<char>, k: int)
    requires
        0 <= k <= s.len(),
        forall|j: int| k <= j < s.len() ==> is_whitespace(s[j]),
        k > 0 ==> !is_whitespace(s[k - 1]),
    ensures
        trim_end(s) == s.take(k),
    decreases s.len(),
{
    if k < s.len() {
        lemma_trim_end_unique(s.drop_last(), k);
        assert(s.drop_last().take(k) =~= s.take(k));
    } else {
        assert(s.take(k) =~= s);
    }
}

/// The bounds `(start, end)` of `trim(s)` in `s`.
pub fn trim_bounds(s: &[char]) -> (r: (usize, usize))
    ensures
        r.0 <= r.1 <= s@.len(),
        s@.subrange(r.0 as int, r.1 as int) == trim(s@),
        r.0 as int == lead_ws(s@),
{
    let n = s.len();
    let mut a: usize = 0;
    while a < n && is_whitespace_exec(s[a])
        invariant
            n == s@.len(),
            a <= n,
            forall|j: int| 0 <= j < a ==> is_whitespace(s@[j]),
        decreases n - a,
    {
        a = a + 1;
    }
    proof {
        lemma_lead_ws_unique(s@, a as int);
    }
    let mut b: usize = n;
    while b > a && is_whitespace_exec(s[b - 1])
        invariant
            n == s@.len(),
            a <= b <= n,
            forall|j: int| b <= j < n ==> is_whitespace(s@[j]),
        decreases b - a,
    {
        b = b - 1;
    }
    proof {
        let t = s@.skip(a as int);
        assert forall|j: int| b - a <= j < t.len() implies is_whitespace(t[j]) by {
            assert(t[j] == s@[a + j]);
        }
        if b > a {
            assert(t[b - a - 1] == s@[b - 1]);
        }
        lemma_trim_end_unique(t, b - a);
        assert(t.take(b - a) =~= s@.subrange(a as int, b as int));
    }
    (a, b)
}

/// `trim(s)` as a vector.
pub fn trim_vec(s: &[char]) -> (r: Vec<char>)
    ensures
        r@ == trim(s@),
{
    let (a, b) = trim_bounds(s);
    sub_vec(s, a, b)
}

/// `s` without every leading `c` (`trim_start_matches(c)`).
pub open spec fn strip_lead_char(s: Seq<char>, c: char) -> Seq<char>
    decreases s.len(),
{
    if s.len() > 0 && s[0] == c {
        strip_lead_char(s.drop_first(), c)
    } else {
        s
    }
}

/// `s` without its leading copies of `c`.
pub fn strip_lead_char_exec(s: &[char], c: char) -> (r: Vec<char>)
    ensures
        r@ == strip_lead_char(s@, c),
{
    let n = s.len();
    let mut a: usize = 0;
    assert(s@.skip(0) =~= s@);
    while a < n && s[a] == c
        invariant
            n == s@.len(),
            a <= n,
            strip_lead_char(s@.skip(a as int), c) == strip_lead_char(s@, c),
        decreases n - a,
    {
        assert(s@.skip(a as int).drop_first() =~= s@.skip(a + 1));
        a = a + 1;
    }
    assert(s@.subrange(a as int, n as int) =~= s@.skip(a as int));
    sub_vec(s, a, n)
}

/// What std's `str::to_lowercase` gives for `s` (Unicode lower-casing).
pub uninterp spec fn lowercase(s: Seq<char>) -> Seq<char>;

/// std's `str::to_lowercase`: the Unicode lower-case form of `s`. Its result
/// depends on `s` alone and is named, not spelled out; for a text of ASCII
/// characters only, Unicode lower-casing maps `A`–`Z` to `a`–`z` and keeps
/// every other character, which the contract states.
#[verifier::external_body]
pub(crate) fn to_lower(s: &str) -> (r: String)
    ensures
        r@ == lowercase(s@),
        (forall|i: int| 0 <= i < s@.len() ==> (s@[i] as u32) < 128) ==> r@ == crate::id::lower_all(s@),
{
    s.to_lowercase()
}

/// What std's `char::is_alphanumeric` says of `c` (Unicode letters and numbers).
pub uninterp spec fn unicode_alnum(c: char) -> bool;

/// std's `char::is_alphanumeric`; its answer depends on `c` alone.
#[verifier::external_body]
pub(crate) fn is_alnum(c: char) -> (r: bool)
    ensures
        r == unicode_alnum(c),
{
    c.is_alphanumeric()
}

/// What std's `char::is_numeric` says of `c` (Unicode numbers).
pub uninterp spec fn unicode_numeric(c: char) -> bool;

/// std's `char::is_numeric`; its answer depends on `c` alone.
#[verifier::external_body]
pub(crate) fn is_numeric(c: char) -> (r: bool)
    ensures
        r == unicode_numeric(c),
{
    c.is_numeric()
}

/// `parts` joined with `sep` between consecutive parts.
pub open spec fn join_with(parts: Seq<Seq<char>>, sep: Seq<char>) -> Seq<char>
    decreases parts.len(),
{
    if parts.len() == 0 {
        seq![]
    } else if parts.len() == 1 {
        parts[0]
    } else {
        join_with(parts.drop_last(), sep) + sep + parts.last()
    }
}

/// `parts` joined with `sep` (std's `[String]::join`).
pub fn join_strings(parts: &[String], sep: &str) -> (r: String)
    ensures
        r@ == join_with(crate::types::strings_view(parts@), sep@),
{
    let ghost pv = crate::types::strings_view(parts@);
    let mut out = String::new();
    let n = parts.len();
    for i in 0..n
        invariant
            n == parts@.len(),
            pv == crate::types::strings_view(parts@),
            out@ == join_with(pv.take(i as int), sep@),
    {
        assert(pv.take(i + 1).drop_last() =~= pv.take(i as int));
        assert(pv.take(i + 1).last() == parts@[i as int]@);
        if i > 0 {
            out.append(sep);
        } else {
            assert(pv.take(1) =~= seq![parts@[0]@]);
            assert(out@ =~= seq![]);
        }
        out.append(parts[i].as_str());
        if i == 0 {
            assert(out@ =~= parts@[0]@);
        }
    }
    assert(pv.take(n as int) =~= pv);
    out
}

/// A separator between words: neither a letter, a digit nor `_`.
pub open spec fn is_word_sep(c: char) -> bool {
    !(unicode_alnum(c) || c == '_')
}

/// `s` split at each separator (as std's `str::split` with a predicate):
/// `k` separators give `k + 1` pieces, some possibly empty.
pub open spec fn split_words(s: Seq<char>) -> Seq<Seq<char>>
    decreases s.len(),
{
    if s.len() == 0 {
        seq![seq![]]
    } else {
        let p = split_words(s.drop_last());
        if is_word_sep(s.last()) {
            p.push(seq![])
        } else {
            p.update(p.len() - 1, p.last().push(s.last()))
        }
    }
}

proof fn lemma_split_words_len(s: Seq<char>)
    ensures
        split_words(s).len() >= 1,
    decreases s.len(),
{
    if s.len() > 0 {
        lemma_split_words_len(s.drop_last());
    }
}

/// `s` split at word separators (see [`split_words`]).
pub fn split_words_exec(s: &[char]) -> (r: Vec<Vec<char>>)
    ensures
        vecs_view(r@) == split_words(s@),
{
    let mut out: Vec<Vec<char>> = Vec::new();
    out.push(Vec::new());
    assert(s@.take(0) =~= seq![]);
    assert(vecs_view(out@) =~= split_words(s@.take(0)));
    let n = s.len();
    for i in 0..n
        invariant
            n == s@.len(),
            vecs_view(out@) == split_words(s@.take(i as int)),
            out@.len() >= 1,
    {
        let c = s[i];
        assert(s@.take(i + 1).drop_last() =~= s@.take(i as int));
        assert(s@.take(i + 1).last() == c);
        if !(is_alnum(c) || c == '_') {
            let ghost b = out@;
            out.push(Vec::new());
            assert(vecs_view(out@) =~= vecs_view(b).push(seq![]));
        } else {
            let k = out.len() - 1;
            let ghost b = out@;
            let mut last = out[k].clone();
            assert(last@ == b[k as int]@);
            last.push(c);
            out.set(k, last);
            assert(vecs_view(out@) =~= vecs_view(b).update(k as int, vecs_view(b).last().push(c)));
        }
    }
    assert(s@.take(n as int) =~= s@);
    out
}

/// `s` without trailing white space.
pub fn trim_end_vec(s: &[char]) -> (r: Vec<char>)
    ensures
        r@ == trim_end(s@),
{
    let mut b = s.len();
    assert(s@.take(b as int) =~= s@);
    while b > 0 && is_whitespace_exec(s[b - 1])
        invariant
            b <= s@.len(),
            trim_end(s@.take(b as int)) == trim_end(s@),
        decreases b,
    {
        assert(s@.take(b as int).drop_last() =~= s@.take(b - 1));
        b = b - 1;
    }
    assert(b == 0 || !is_whitespace(s@.take(b as int).last()));
    sub_vec(s, 0, b)
}

/// `s` without leading and trailing `c` (std's `trim_matches` with a char).
pub fn trim_char_vec(s: &[char], c: char) -> (r: Vec<char>)
    ensures
        r@ == crate::id::trim_char(s@, c),
{
    let a = strip_lead_char_exec(s, c);
    crate::id::strip_trail_char_exec(a.as_slice(), c)
}

/// The text after the first `c` in `s` (empty when `c` does not occur).
pub open spec fn after_first(s: Seq<char>, c: char) -> Seq<char> {
    if first_pos(s, c) < s.len() {
        s.skip(first_pos(s, c) + 1)
    } else {
        seq![]
    }
}

/// `s` split at its first `c` (std's `split_once`), `None` without a `c`.
pub open spec fn split_once(s: Seq<char>, c: char) -> Option<(Seq<char>, Seq<char>)> {
    if first_pos(s, c) < s.len() {
        Some((before_first(s, c), after_first(s, c)))
    } else {
        None
    }
}

/// `s` split at its first `c`.
pub fn split_once_exec(s: &[char], c: char) -> (r: Option<(Vec<char>, Vec<char>)>)
    ensures
        match r {
            Some(p) => split_once(s@, c) == Some((p.0@, p.1@)),
            None => split_once(s@, c) is None,
        },
{
    proof {
        lemma_first_pos(s@, c);
    }
    let k = first_pos_exec(s, c);
    if k < s.len() {
        let a = sub_vec(s, 0, k);
        let b = sub_vec(s, k + 1, s.len());
        assert(b@ =~= s@.skip(k + 1));
        Some((a, b))
    } else {
        None
    }
}

} // verus!
