//! Label sanitising.
use vstd::prelude::*;

verus! {

/// Longest label kept, in characters.
pub const MAX_LABEL_LEN: usize = 256;

/// ASCII control characters: U+0000..=U+001F and U+007F.
pub open spec fn is_control(c: char) -> bool {
    (c as u32) <= 0x1f || (c as u32) == 0x7f
}

/// `s` with every control character removed.
pub open spec fn strip_controls(s: Seq<char>) -> Seq<char>
    decreases s.len(),
{
    if s.len() == 0 {
        seq![]
    } else if is_control(s.last()) {
        strip_controls(s.drop_last())
    } else {
        strip_controls(s.drop_last()).push(s.last())
    }
}

/// The sanitised form of a label: control characters removed, then at most
/// the first [`MAX_LABEL_LEN`] characters kept.
pub open spec fn spec_sanitize_label(s: Seq<char>) -> Seq<char> {
    let c = strip_controls(s);
    if c.len() > MAX_LABEL_LEN {
        c.take(MAX_LABEL_LEN as int)
    } else {
        c
    }
}

/// Strip control characters and cap length (by characters, not bytes).
///
/// Safe for embedding in JSON data and plain text.
/// For direct HTML injection, wrap the result with HTML escaping.
pub fn sanitize_label(text: &str) -> (r: String)
    ensures
        r@ == spec_sanitize_label(text@),
{
    let cs = crate::text::str_chars(text);
    let n = cs.len();
    let mut kept: Vec<char> = Vec::new();
    for i in 0..n
        invariant
            n == cs@.len(),
            cs@ == text@,
            kept@ == strip_controls(cs@.take(i as int)),
    {
        let c = cs[i];
        assert(cs@.take(i + 1).drop_last() =~= cs@.take(i as int));
        let u = c as u32;
        if !(u <= 0x1f || u == 0x7f) {
            kept.push(c);
        }
    }
    assert(cs@.take(n as int) =~= cs@);
    if kept.len() > MAX_LABEL_LEN {
        let short = crate::text::sub_vec(kept.as_slice(), 0, MAX_LABEL_LEN);
        assert(short@ =~= kept@.take(MAX_LABEL_LEN as int));
        crate::text::chars_to_string(short.as_slice())
    } else {
        crate::text::chars_to_string(kept.as_slice())
    }
}

} // verus!
