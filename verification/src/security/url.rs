//! URL checks before fetching: scheme, host name and target address.
use vstd::prelude::*;

use crate::text::{
    after_last, before_first, occurs_at, split_on, strip_lead_char, vecs_view,
};
use crate::types::{eq_ignore_case, KodexError};

verus! {

/// An IP address: IPv4 as four octets, IPv6 as eight 16-bit segments.
#[derive(Debug, Clone, Copy)]
pub enum IpAddress {
    V4(u8, u8, u8, u8),
    V6([u16; 8]),
}

/// Why a URL is refused.
#[derive(Debug)]
pub enum UrlError {
    /// The URL has no `://`.
    NoScheme,
    /// The scheme (as written) is neither `http` nor `https`.
    BlockedScheme(String),
    /// The host name is empty.
    EmptyHost,
    /// The host name is a cloud metadata endpoint.
    BlockedHost(String),
    /// The host is, or resolves to, a private or internal address.
    BlockedIp(IpAddress),
}

/// The separator between scheme and the rest of a URL.
pub open spec fn scheme_sep() -> Seq<char> {
    seq![':', '/', '/']
}

/// The first position at or after `i` where `n` occurs in `h`, or -1.
pub open spec fn find_from(h: Seq<char>, n: Seq<char>, i: int) -> int
    decreases h.len() + 1 - i,
{
    if i < 0 || i > h.len() {
        -1
    } else if occurs_at(h, n, i) {
        i
    } else {
        find_from(h, n, i + 1)
    }
}

/// An occurrence of `n` at `k` with none between `i` and `k` is what the search from `i` finds.
pub proof fn lemma_find_from_found(h: Seq<char>, n: Seq<char>, i: int, k: int)
    requires
        0 <= i <= k,
        occurs_at(h, n, k),
        forall|j: int| i <= j < k ==> !occurs_at(h, n, j),
    ensures
        find_from(h, n, i) == k,
    decreases k - i,
{
    if i < k {
        lemma_find_from_found(h, n, i + 1, k);
    }
}

/// With no occurrence of `n` from `i` on, the search from `i` finds nothing.
pub proof fn lemma_find_from_absent(h: Seq<char>, n: Seq<char>, i: int)
    requires
        0 <= i,
        forall|j: int| i <= j ==> !occurs_at(h, n, j),
    ensures
        find_from(h, n, i) == -1,
    decreases h.len() + 1 - i,
{
    if i <= h.len() {
        lemma_find_from_absent(h, n, i + 1);
    }
}

/// What the search from `i` finds, when anything, is an occurrence of `n`.
pub proof fn lemma_find_from_occurs(h: Seq<char>, n: Seq<char>, i: int)
    ensures
        find_from(h, n, i) >= 0 ==> occurs_at(h, n, find_from(h, n, i)),
        find_from(h, n, i) >= -1,
    decreases h.len() + 1 - i,
{
    if 0 <= i <= h.len() && !occurs_at(h, n, i) {
        lemma_find_from_occurs(h, n, i + 1);
    }
}

/// The first occurrence of `n` in `h`, or -1 (`str::find`).
pub open spec fn find_first(h: Seq<char>, n: Seq<char>) -> int {
    find_from(h, n, 0)
}

/// `str::find` on character vectors.
pub fn find_first_exec(h: &[char], n: &[char]) -> (r: Option<usize>)
    ensures
        match r {
            Some(i) => i as int == find_first(h@, n@),
            None => find_first(h@, n@) == -1,
        },
{
    let r = crate::text::find_exec(h, n);
    proof {
        match r {
            Some(i) => lemma_find_from_found(h@, n@, 0, i as int),
            None => {
                assert forall|j: int| 0 <= j implies !occurs_at(h@, n@, j) by {
                    if occurs_at(h@, n@, j) {
                        assert(crate::text::contains(h@, n@));
                    }
                }
                lemma_find_from_absent(h@, n@, 0);
            },
        }
    }
    r
}

/// The host part of a URL whose scheme ends at `k`: the text after `://` up
/// to the first `/`, and after the last `@` in that.
pub open spec fn host_part(u: Seq<char>, k: int) -> Seq<char> {
    after_last(before_first(u.skip(k + 3), '/'), '@')
}

/// The host name of a host part: for `[...]`, the text up to the first `]`
/// without leading `[`; otherwise the text up to the first `:` (the port is cut).
pub open spec fn hostname_of(hp: Seq<char>) -> Seq<char> {
    if hp.len() > 0 && hp[0] == '[' {
        strip_lead_char(before_first(hp, ']'), '[')
    } else {
        before_first(hp, ':')
    }
}

/// The schemes that may be fetched, compared ignoring case.
pub open spec fn scheme_allowed(s: Seq<char>) -> bool {
    eq_ignore_case(s, seq!['h', 't', 't', 'p']) || eq_ignore_case(s, seq!['h', 't', 't', 'p', 's'])
}

/// `metadata.google.internal`.
pub open spec fn metadata_internal() -> Seq<char> {
    seq![
        'm', 'e', 't', 'a', 'd', 'a', 't', 'a', '.', 'g', 'o', 'o', 'g', 'l', 'e', '.',
        'i', 'n', 't', 'e', 'r', 'n', 'a', 'l'
    ]
}

/// `metadata.google.com`.
pub open spec fn metadata_com() -> Seq<char> {
    seq!['m', 'e', 't', 'a', 'd', 'a', 't', 'a', '.', 'g', 'o', 'o', 'g', 'l', 'e', '.', 'c', 'o', 'm']
}

/// Cloud metadata host names, compared ignoring case.
pub open spec fn host_blocked(h: Seq<char>) -> bool {
    eq_ignore_case(h, metadata_internal()) || eq_ignore_case(h, metadata_com())
}

/// An ASCII decimal digit.
pub open spec fn is_digit(c: char) -> bool {
    '0' <= c && c <= '9'
}

/// The decimal value of a string of digits.
pub open spec fn digits_value(s: Seq<char>) -> nat
    decreases s.len(),
{
    if s.len() == 0 {
        0
    } else {
        digits_value(s.drop_last()) * 10 + ((s.last() as nat) - ('0' as nat)) as nat
    }
}

/// A decimal IPv4 octet as std's address parser accepts it: one to three
/// digits, no leading zero unless it is the only digit, at most 255.
pub open spec fn octet_ok(s: Seq<char>) -> bool {
    &&& 1 <= s.len() <= 3
    &&& forall|i: int| 0 <= i < s.len() ==> is_digit(#[trigger] s[i])
    &&& (s.len() == 1 || s[0] != '0')
    &&& digits_value(s) <= 255
}

/// The IPv4 address written by `s` in dotted-quad form, if it is one.
pub open spec fn ipv4_literal(s: Seq<char>) -> Option<IpAddress> {
    let p = split_on(s, '.');
    if p.len() == 4 && octet_ok(p[0]) && octet_ok(p[1]) && octet_ok(p[2]) && octet_ok(p[3]) {
        Some(
            IpAddress::V4(
                digits_value(p[0]) as u8,
                digits_value(p[1]) as u8,
                digits_value(p[2]) as u8,
                digits_value(p[3]) as u8,
            ),
        )
    } else {
        None
    }
}

/// Loopback, private, link-local, broadcast and unspecified IPv4 addresses;
/// loopback, unspecified, link-local (fe80::/10), unique-local (fc00::/7) and
/// multicast (ff00::/8) IPv6 addresses.
pub open spec fn ip_blocked(ip: IpAddress) -> bool {
    match ip {
        IpAddress::V4(a, b, c, d) => {
            ||| a == 127
            ||| a == 10
            ||| (a == 172 && 16 <= b <= 31)
            ||| (a == 192 && b == 168)
            ||| (a == 169 && b == 254)
            ||| (a == 255 && b == 255 && c == 255 && d == 255)
            ||| (a == 0 && b == 0 && c == 0 && d == 0)
        },
        IpAddress::V6(s) => {
            let z = forall|i: int| 0 <= i < 7 ==> #[trigger] s@[i] == 0;
            ||| (z && s@[7] == 1)
            ||| (z && s@[7] == 0)
            ||| (0xfe80 <= s@[0] <= 0xfebf)
            ||| (0xfc00 <= s@[0] <= 0xfdff)
            ||| (0xff00 <= s@[0])
        },
    }
}

/// What the URL checks that need no network find.
pub enum UrlFinding {
    NoScheme,
    BlockedScheme(Seq<char>),
    EmptyHost,
    BlockedHost(Seq<char>),
    BlockedIp(IpAddress),
    Passed,
}

/// The outcome of the checks on `u`, in the order they are made.
pub open spec fn url_finding(u: Seq<char>) -> UrlFinding {
    let k = find_first(u, scheme_sep());
    if k < 0 {
        UrlFinding::NoScheme
    } else if !scheme_allowed(u.take(k)) {
        UrlFinding::BlockedScheme(u.take(k))
    } else {
        let h = hostname_of(host_part(u, k));
        if h.len() == 0 {
            UrlFinding::EmptyHost
        } else if host_blocked(h) {
            UrlFinding::BlockedHost(h)
        } else {
            match ipv4_literal(h) {
                Some(ip) => if ip_blocked(ip) {
                    UrlFinding::BlockedIp(ip)
                } else {
                    UrlFinding::Passed
                },
                None => UrlFinding::Passed,
            }
        }
    }
}

/// `r` is the result that the finding `f` on `url` calls for.
pub open spec fn result_for(r: Result<String, KodexError>, url: Seq<char>, f: UrlFinding) -> bool {
    match f {
        UrlFinding::Passed => r matches Ok(s) && s@ == url,
        UrlFinding::NoScheme => r matches Err(KodexError::UrlValidation(UrlError::NoScheme)),
        UrlFinding::BlockedScheme(sc) => r matches Err(
            KodexError::UrlValidation(UrlError::BlockedScheme(x)),
        ) && x@ == sc,
        UrlFinding::EmptyHost => r matches Err(KodexError::UrlValidation(UrlError::EmptyHost)),
        UrlFinding::BlockedHost(h) => r matches Err(
            KodexError::UrlValidation(UrlError::BlockedHost(x)),
        ) && x@ == h,
        UrlFinding::BlockedIp(ip) => r matches Err(KodexError::UrlValidation(UrlError::BlockedIp(x)))
            && x == ip,
    }
}

fn digit_value(c: char) -> (r: u32)
    requires
        is_digit(c),
    ensures
        r == (c as nat) - ('0' as nat),
        r <= 9,
{
    (c as u32) - ('0' as u32)
}

/// Parses a decimal IPv4 octet (see [`octet_ok`]).
fn parse_octet(s: &[char]) -> (r: Option<u8>)
    ensures
        match r {
            Some(v) => octet_ok(s@) && v as nat == digits_value(s@),
            None => !octet_ok(s@),
        },
{
    let n = s.len();
    if n < 1 || n > 3 {
        return None;
    }
    if n > 1 && s[0] == '0' {
        return None;
    }
    let mut v: u32 = 0;
    for i in 0..n
        invariant
            n == s@.len(),
            1 <= n <= 3,
            forall|j: int| 0 <= j < i ==> is_digit(#[trigger] s@[j]),
            v as nat == digits_value(s@.take(i as int)),
            v < 1000,
    {
        if !('0' <= s[i] && s[i] <= '9') {
            return None;
        }
        let d = digit_value(s[i]);
        proof {
            assert(s@.take(i + 1).drop_last() =~= s@.take(i as int));
            assert(v < 100) by {
                if i >= 2 {
                    lemma_digits_small(s@.take(i as int));
                } else if i == 1 {
                    lemma_digits_small(s@.take(1));
                } else {
                    assert(s@.take(0).len() == 0);
                }
            }
        }
        v = v * 10 + d;
    }
    assert(s@.take(n as int) =~= s@);
    if v > 255 {
        return None;
    }
    Some(v as u8)
}

proof fn lemma_digits_small(s: Seq<char>)
    requires
        s.len() <= 2,
        forall|j: int| 0 <= j < s.len() ==> is_digit(#[trigger] s[j]),
    ensures
        digits_value(s) < 100,
        s.len() <= 1 ==> digits_value(s) < 10,
    decreases s.len(),
{
    if s.len() > 0 {
        assert forall|j: int| 0 <= j < s.drop_last().len() implies is_digit(
            #[trigger] s.drop_last()[j],
        ) by {
            assert(s.drop_last()[j] == s[j]);
        }
        lemma_digits_small(s.drop_last());
        assert(is_digit(s.last()));
    }
}

/// Parses a dotted-quad IPv4 address (see [`ipv4_literal`]).
pub fn parse_ipv4(s: &[char]) -> (r: Option<IpAddress>)
    ensures
        r == ipv4_literal(s@),
{
    let parts = split_chars(s, '.');
    if parts.len() != 4 {
        return None;
    }
    assert(vecs_view(parts@)[0] == parts@[0]@);
    assert(vecs_view(parts@)[1] == parts@[1]@);
    assert(vecs_view(parts@)[2] == parts@[2]@);
    assert(vecs_view(parts@)[3] == parts@[3]@);
    let a = match parse_octet(parts[0].as_slice()) {
        Some(v) => v,
        None => return None,
    };
    let b = match parse_octet(parts[1].as_slice()) {
        Some(v) => v,
        None => return None,
    };
    let c = match parse_octet(parts[2].as_slice()) {
        Some(v) => v,
        None => return None,
    };
    let d = match parse_octet(parts[3].as_slice()) {
        Some(v) => v,
        None => return None,
    };
    Some(IpAddress::V4(a, b, c, d))
}

use crate::text::split_chars;

/// Whether an address is in a blocked range (see [`ip_blocked`]).
pub fn is_blocked_ip(ip: &IpAddress) -> (r: bool)
    ensures
        r == ip_blocked(*ip),
{
    match ip {
        IpAddress::V4(a, b, c, d) => {
            let (a, b, c, d) = (*a, *b, *c, *d);
            a == 127 || a == 10 || (a == 172 && 16 <= b && b <= 31) || (a == 192 && b == 168) || (a
                == 169 && b == 254) || (a == 255 && b == 255 && c == 255 && d == 255) || (a == 0
                && b == 0 && c == 0 && d == 0)
        },
        IpAddress::V6(s) => {
            let mut z = true;
            let mut i: usize = 0;
            while i < 7
                invariant
                    i <= 7,
                    z == forall|j: int| 0 <= j < i ==> #[trigger] s@[j] == 0,
                decreases 7 - i,
            {
                z = z && s[i] == 0;
                i = i + 1;
            }
            let s0 = s[0];
            let link_local = (s0 & 0xffc0) == 0xfe80;
            let unique_local = (s0 & 0xfe00) == 0xfc00;
            let multicast = (s0 & 0xff00) == 0xff00;
            assert(link_local == (0xfe80 <= s0 && s0 <= 0xfebf)) by (bit_vector)
                requires
                    link_local == ((s0 & 0xffc0) == 0xfe80),
            ;
            assert(unique_local == (0xfc00 <= s0 && s0 <= 0xfdff)) by (bit_vector)
                requires
                    unique_local == ((s0 & 0xfe00) == 0xfc00),
            ;
            assert(multicast == (0xff00 <= s0)) by (bit_vector)
                requires
                    multicast == ((s0 & 0xff00) == 0xff00),
            ;
            (z && s[7] == 1) || (z && s[7] == 0) || link_local || unique_local || multicast
        },
    }
}

/// The outcome of the network-free checks, with the host name when they pass
/// the scheme test.
fn check_url(url: &str) -> (r: (Result<String, KodexError>, Vec<char>))
    ensures
        result_for(r.0, url@, url_finding(url@)),
{
    let u = crate::text::str_chars(url);
    let sep = [':', '/', '/'];
    assert(sep@ == scheme_sep());
    let k = match find_first_exec(u.as_slice(), &sep) {
        Some(k) => k,
        None => {
            return (Err(KodexError::UrlValidation(UrlError::NoScheme)), Vec::new());
        },
    };
    assert(occurs_at(u@, scheme_sep(), k as int)) by {
        lemma_find_from_occurs(u@, scheme_sep(), 0);
    }
    let scheme = crate::text::sub_vec(u.as_slice(), 0, k);
    assert(scheme@ =~= u@.take(k as int));
    let http = ['h', 't', 't', 'p'];
    let https = ['h', 't', 't', 'p', 's'];
    assert(http@ == seq!['h', 't', 't', 'p']);
    assert(https@ == seq!['h', 't', 't', 'p', 's']);
    if !(crate::types::eq_ignore_case_exec(scheme.as_slice(), &http)
        || crate::types::eq_ignore_case_exec(scheme.as_slice(), &https)) {
        let sc = crate::text::chars_to_string(scheme.as_slice());
        return (Err(KodexError::UrlValidation(UrlError::BlockedScheme(sc))), Vec::new());
    }
    let after = crate::text::sub_vec(u.as_slice(), k + 3, u.len());
    assert(after@ =~= u@.skip(k + 3));
    let slash = crate::text::first_pos_exec(after.as_slice(), '/');
    proof {
        crate::text::lemma_first_pos(after@, '/');
    }
    let before_slash = crate::text::sub_vec(after.as_slice(), 0, slash);
    assert(before_slash@ =~= before_first(after@, '/'));
    let at = crate::text::last_pos_exec(before_slash.as_slice(), '@');
    proof {
        crate::text::lemma_last_pos(before_slash@, '@');
    }
    let hp = crate::text::sub_vec(before_slash.as_slice(), at, before_slash.len());
    assert(hp@ =~= host_part(u@, k as int));
    let host: Vec<char> = if hp.len() > 0 && hp[0] == '[' {
        let close = crate::text::first_pos_exec(hp.as_slice(), ']');
        proof {
            crate::text::lemma_first_pos(hp@, ']');
        }
        let inner = crate::text::sub_vec(hp.as_slice(), 0, close);
        assert(inner@ =~= before_first(hp@, ']'));
        crate::text::strip_lead_char_exec(inner.as_slice(), '[')
    } else {
        let colon = crate::text::first_pos_exec(hp.as_slice(), ':');
        proof {
            crate::text::lemma_first_pos(hp@, ':');
        }
        let h = crate::text::sub_vec(hp.as_slice(), 0, colon);
        assert(h@ =~= before_first(hp@, ':'));
        h
    };
    assert(host@ == hostname_of(host_part(u@, k as int)));
    if host.len() == 0 {
        return (Err(KodexError::UrlValidation(UrlError::EmptyHost)), host);
    }
    let mi = [
        'm', 'e', 't', 'a', 'd', 'a', 't', 'a', '.', 'g', 'o', 'o', 'g', 'l', 'e', '.', 'i', 'n',
        't', 'e', 'r', 'n', 'a', 'l',
    ];
    let mc = ['m', 'e', 't', 'a', 'd', 'a', 't', 'a', '.', 'g', 'o', 'o', 'g', 'l', 'e', '.', 'c', 'o', 'm'];
    assert(mi@ == metadata_internal());
    assert(mc@ == metadata_com());
    if crate::types::eq_ignore_case_exec(host.as_slice(), &mi)
        || crate::types::eq_ignore_case_exec(host.as_slice(), &mc) {
        let hs = crate::text::chars_to_string(host.as_slice());
        return (Err(KodexError::UrlValidation(UrlError::BlockedHost(hs))), host);
    }
    match parse_ipv4(host.as_slice()) {
        Some(ip) => {
            if is_blocked_ip(&ip) {
                return (Err(KodexError::UrlValidation(UrlError::BlockedIp(ip))), host);
            }
        },
        None => {},
    }
    (Ok(crate::text::chars_to_string(u.as_slice())), host)
}

/// Validate a URL: must be http/https, must not target private/internal IPs.
///
/// Blocks file://, ftp://, data:, and any scheme that could be used for SSRF
/// or local file access. Also blocks cloud metadata host names and host names
/// that are a private or reserved IPv4 address written out. Host names that
/// need a name lookup are checked against the addresses they resolve to by
/// [`validate_resolved`]; the lookup itself is the caller's.
pub fn validate_url(url: &str) -> (r: Result<String, KodexError>)
    ensures
        result_for(r, url@, url_finding(url@)),
{
    let (r, _) = check_url(url);
    r
}

/// Full URL validation once the host name has been looked up: the checks of
/// [`validate_url`], then every resolved address in order; the first blocked
/// address is reported.
pub fn validate_resolved(url: &str, resolved: &[IpAddress]) -> (r: Result<String, KodexError>)
    ensures
        !(url_finding(url@) is Passed) ==> result_for(r, url@, url_finding(url@)),
        url_finding(url@) is Passed ==> match r {
            Ok(s) => s@ == url@ && forall|i: int| 0 <= i < resolved@.len() ==> !ip_blocked(
                #[trigger] resolved@[i],
            ),
            Err(KodexError::UrlValidation(UrlError::BlockedIp(ip))) => exists|i: int|
                0 <= i < resolved@.len() && resolved@[i] == ip && ip_blocked(ip) && forall|j: int|
                    0 <= j < i ==> !ip_blocked(#[trigger] resolved@[j]),
            Err(_) => false,
        },
{
    let (r, _) = check_url(url);
    match r {
        Ok(s) => {
            assert(url_finding(url@) is Passed) by {
                match url_finding(url@) {
                    UrlFinding::Passed => {},
                    _ => {},
                }
            }
            let n = resolved.len();
            for i in 0..n
                invariant
                    n == resolved@.len(),
                    url_finding(url@) is Passed,
                    forall|j: int| 0 <= j < i ==> !ip_blocked(#[trigger] resolved@[j]),
            {
                if is_blocked_ip(&resolved[i]) {
                    return Err(KodexError::UrlValidation(UrlError::BlockedIp(resolved[i])));
                }
            }
            Ok(s)
        },
        Err(e) => Err(e),
    }
}

} // verus!
