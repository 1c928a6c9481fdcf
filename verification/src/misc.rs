//! Small text rules: URL kinds, commit kinds, safe file names, note files,
//! git hook sections and calendar dates.
use vstd::prelude::*;
use vstd::string::StringExecFns;

use crate::paths::path_join;
use crate::render::byte_len;
use crate::text::{contains, ends_with, join_with, lines, lowercase, starts_with, trim};
use crate::types::strings_view;

verus! {

/// The kind of a URL, from its lower-cased text: `tweet`, `arxiv`, `github`,
/// `youtube`, `pdf`, `image` or `webpage`.
pub open spec fn url_kind(url: Seq<char>) -> Seq<char> {
    let l = lowercase(url);
    if contains(l, "twitter.com"@) || contains(l, "x.com"@) {
        "tweet"@
    } else if contains(l, "arxiv.org"@) {
        "arxiv"@
    } else if contains(l, "github.com"@) {
        "github"@
    } else if contains(l, "youtube.com"@) || contains(l, "youtu.be"@) {
        "youtube"@
    } else if ends_with(l, ".pdf"@) {
        "pdf"@
    } else if ends_with(l, ".png"@) || ends_with(l, ".jpg"@) || ends_with(l, ".jpeg"@) || ends_with(
        l,
        ".gif"@,
    ) || ends_with(l, ".webp"@) {
        "image"@
    } else {
        "webpage"@
    }
}

fn holds(h: &Vec<char>, lit: &str) -> (r: bool)
    ensures
        r == contains(h@, lit@),
{
    let n = crate::text::str_chars(lit);
    crate::text::contains_exec(h.as_slice(), n.as_slice())
}

fn ends(h: &Vec<char>, lit: &str) -> (r: bool)
    ensures
        r == ends_with(h@, lit@),
{
    let n = crate::text::str_chars(lit);
    crate::text::ends_with_exec(h.as_slice(), n.as_slice())
}

fn begins(h: &Vec<char>, lit: &str) -> (r: bool)
    ensures
        r == starts_with(h@, lit@),
{
    let n = crate::text::str_chars(lit);
    crate::text::starts_with_exec(h.as_slice(), n.as_slice())
}

/// The kind of a URL (see [`url_kind`]).
pub fn detect_url_type(url: &str) -> (r: &'static str)
    ensures
        r@ == url_kind(url@),
{
    let l = crate::text::str_chars(crate::text::to_lower(url).as_str());
    if holds(&l, "twitter.com") || holds(&l, "x.com") {
        "tweet"
    } else if holds(&l, "arxiv.org") {
        "arxiv"
    } else if holds(&l, "github.com") {
        "github"
    } else if holds(&l, "youtube.com") || holds(&l, "youtu.be") {
        "youtube"
    } else if ends(&l, ".pdf") {
        "pdf"
    } else if ends(&l, ".png") || ends(&l, ".jpg") || ends(&l, ".jpeg") || ends(&l, ".gif") || ends(
        &l,
        ".webp",
    ) {
        "image"
    } else {
        "webpage"
    }
}

/// Whether a string looks like a URL: it starts with `http://`, `https://` or
/// `www.`.
pub fn is_url(path: &str) -> (r: bool)
    ensures
        r == (starts_with(path@, "http://"@) || starts_with(path@, "https://"@) || starts_with(
            path@,
            "www."@,
        )),
{
    let p = crate::text::str_chars(path);
    begins(&p, "http://") || begins(&p, "https://") || begins(&p, "www.")
}

/// The knowledge type a commit message suggests, and whether the commit is
/// worth saving: merges, work in progress, chores and messages under 15 bytes
/// are not; then fixes, refactors, added features, critical changes,
/// conventions and performance work, in that order of precedence.
pub open spec fn commit_kind(msg: Seq<char>) -> (Seq<char>, bool) {
    let l = lowercase(msg);
    if starts_with(l, "merge"@) || starts_with(l, "wip"@) || starts_with(l, "chore"@) || byte_len(l) < 15 {
        (seq![], false)
    } else if contains(l, "fix"@) || contains(l, "bug"@) || contains(l, "crash"@) {
        ("bug_pattern"@, true)
    } else if contains(l, "refactor"@) || contains(l, "cleanup"@) || contains(l, "simplif"@) {
        ("decision"@, true)
    } else if contains(l, "add"@) && (contains(l, "feature"@) || contains(l, "support"@)) {
        ("architecture"@, true)
    } else if contains(l, "critical"@) || contains(l, "breaking"@) || contains(l, "important"@) {
        ("lesson"@, true)
    } else if contains(l, "convention"@) || contains(l, "style"@) || contains(l, "format"@) {
        ("convention"@, true)
    } else if contains(l, "perf"@) || contains(l, "optim"@) || contains(l, "speed"@) {
        ("performance"@, true)
    } else {
        (seq![], false)
    }
}

/// Classify a commit message (see [`commit_kind`]).
pub fn classify_commit(msg: &str) -> (r: (&'static str, bool))
    ensures
        (r.0@, r.1) == commit_kind(msg@),
{
    let l = crate::text::str_chars(crate::text::to_lower(msg).as_str());
    proof {
        reveal_strlit("");
    }
    if begins(&l, "merge") || begins(&l, "wip") || begins(&l, "chore") || !crate::render::byte_len_exceeds(
        l.as_slice(),
        14,
    ) {
        ("", false)
    } else if holds(&l, "fix") || holds(&l, "bug") || holds(&l, "crash") {
        ("bug_pattern", true)
    } else if holds(&l, "refactor") || holds(&l, "cleanup") || holds(&l, "simplif") {
        ("decision", true)
    } else if holds(&l, "add") && (holds(&l, "feature") || holds(&l, "support")) {
        ("architecture", true)
    } else if holds(&l, "critical") || holds(&l, "breaking") || holds(&l, "important") {
        ("lesson", true)
    } else if holds(&l, "convention") || holds(&l, "style") || holds(&l, "format") {
        ("convention", true)
    } else if holds(&l, "perf") || holds(&l, "optim") || holds(&l, "speed") {
        ("performance", true)
    } else {
        ("", false)
    }
}

/// The first line of a text, empty when it has none.
pub fn first_line(s: &str) -> (r: String)
    ensures
        r@ == crate::learning::first_line(s@),
{
    let cs = crate::text::str_chars(s);
    let ls = crate::text::lines_exec(cs.as_slice());
    if ls.len() > 0 {
        crate::text::chars_to_string(ls[0].as_slice())
    } else {
        String::new()
    }
}

/// A character that cannot stand in a file name here: `/ \ : * ? " < > |`
/// and space.
pub open spec fn unsafe_char(c: char) -> bool {
    c == '/' || c == '\\' || c == ':' || c == '*' || c == '?' || c == '"' || c == '<' || c == '>'
        || c == '|' || c == ' '
}

/// `s` with each unsafe character replaced by `_`.
pub open spec fn safe_name(s: Seq<char>) -> Seq<char> {
    s.map_values(|c: char| if unsafe_char(c) { '_' } else { c })
}

/// `s` with each unsafe character replaced by `_` (see [`safe_name`]).
pub fn safe_filename(s: &str) -> (r: String)
    ensures
        r@ == safe_name(s@),
{
    let cs = crate::text::str_chars(s);
    let mut out = String::new();
    let n = cs.len();
    for i in 0..n
        invariant
            n == cs@.len(),
            cs@ == s@,
            out@ == s@.take(i as int).map_values(|c: char| if unsafe_char(c) { '_' } else { c }),
    {
        let c = cs[i];
        let bad = c == '/' || c == '\\' || c == ':' || c == '*' || c == '?' || c == '"' || c == '<'
            || c == '>' || c == '|' || c == ' ';
        let d = if bad {
            '_'
        } else {
            c
        };
        crate::text::push_char(&mut out, d);
        assert(s@.take(i + 1).map_values(|c: char| if unsafe_char(c) { '_' } else { c }) =~= s@.take(
            i as int,
        ).map_values(|c: char| if unsafe_char(c) { '_' } else { c }).push(d));
    }
    assert(s@.take(n as int) =~= s@);
    out
}

/// `s` without any number of trailing copies of `p` (std's
/// `trim_end_matches` with a string).
pub open spec fn strip_suffixes(s: Seq<char>, p: Seq<char>) -> Seq<char>
    decreases s.len(),
{
    if p.len() > 0 && ends_with(s, p) {
        strip_suffixes(s.take(s.len() - p.len()), p)
    } else {
        s
    }
}

fn strip_suffixes_exec(s: Vec<char>, p: &str) -> (r: Vec<char>)
    ensures
        r@ == strip_suffixes(s@, p@),
{
    let pc = crate::text::str_chars(p);
    let mut cur = s;
    while pc.len() > 0 && crate::text::ends_with_exec(cur.as_slice(), pc.as_slice())
        invariant
            pc@ == p@,
            strip_suffixes(cur@, p@) == strip_suffixes(s@, p@),
        decreases cur@.len(),
    {
        let k = cur.len() - pc.len();
        cur = crate::text::sub_vec(cur.as_slice(), 0, k);
    }
    cur
}

/// The file name of a community overview: the label made safe, then trailing
/// `.md`, `.mdx` and `.markdown` removed in that order.
pub open spec fn community_file_name(label: Seq<char>) -> Seq<char> {
    strip_suffixes(strip_suffixes(strip_suffixes(safe_name(label), ".md"@), ".mdx"@), ".markdown"@)
}

/// The file name of a community overview (see [`community_file_name`]).
pub fn safe_community_name(label: &str) -> (r: String)
    ensures
        r@ == community_file_name(label@),
{
    let s = crate::text::str_chars(safe_filename(label).as_str());
    let a = strip_suffixes_exec(s, ".md");
    let b = strip_suffixes_exec(a, ".mdx");
    let c = strip_suffixes_exec(b, ".markdown");
    crate::text::chars_to_string(c.as_slice())
}

/// The folder that notes go to when none is given.
pub open spec fn default_vault() -> Seq<char> {
    "kodex-out/vault"@
}

/// An insight note: its path under `vault`, and its text.
pub open spec fn insight_note(
    vault: Seq<char>,
    label: Seq<char>,
    description: Seq<char>,
    node_ids: Seq<Seq<char>>,
    pattern: Option<Seq<char>>,
) -> (Seq<char>, Seq<char>) {
    let p = match pattern {
        Some(x) => x,
        None => "observation"@,
    };
    let tag = match pattern {
        Some(x) => "#pattern/"@ + x,
        None => seq![],
    };
    let links = join_with(node_ids.map_values(|n: Seq<char>| "[["@ + n + "]]"@), seq!['\n']);
    (
        path_join(vault, "_INSIGHT_"@ + safe_name(label) + ".md"@),
        "---\ntype: insight\npattern: "@ + p + "\ncreated_by: ai\ntags: [kodex/insight, "@ + tag
            + "]\n---\n\n# "@ + label + "\n\n"@ + description + "\n\n## Related\n\n"@ + links + "\n"@,
    )
}

/// A free-text note: its path under `vault`, and its text.
pub open spec fn free_note(vault: Seq<char>, title: Seq<char>, content: Seq<char>, related: Seq<Seq<char>>) -> (
    Seq<char>,
    Seq<char>,
) {
    let rel = if related.len() == 0 {
        "(none)"@
    } else {
        join_with(related.map_values(|n: Seq<char>| "- [["@ + n + "]]"@), seq!['\n'])
    };
    (
        path_join(vault, "_NOTE_"@ + safe_name(title) + ".md"@),
        "---\ntype: note\ncreated_by: ai\ntags: [kodex/note]\n---\n\n# "@ + title + "\n\n"@ + content
            + "\n\n## Related\n\n"@ + rel + "\n"@,
    )
}

fn wrapped_links(ids: &[String], prefix: &str, suffix: &str) -> (r: Vec<String>)
    ensures
        strings_view(r@) == strings_view(ids@).map_values(|n: Seq<char>| prefix@ + n + suffix@),
{
    let mut out: Vec<String> = Vec::new();
    let n = ids.len();
    for i in 0..n
        invariant
            n == ids@.len(),
            out@.len() == i,
            forall|j: int| 0 <= j < i ==> out@[j]@ == prefix@ + ids@[j]@ + suffix@,
    {
        let mut s = String::from_str(prefix);
        s.append(ids[i].as_str());
        s.append(suffix);
        out.push(s);
    }
    assert(strings_view(out@) =~= strings_view(ids@).map_values(|n: Seq<char>| prefix@ + n + suffix@));
    out
}

fn insight_note_exec(vault: &str, label: &str, description: &str, node_ids: &[String], pattern: Option<&str>) -> (r: (
    String,
    String,
))
    ensures
        (r.0@, r.1@) == insight_note(
            vault@,
            label@,
            description@,
            strings_view(node_ids@),
            match pattern {
                Some(x) => Some(x@),
                None => None,
            },
        ),
{
    let mut name = String::from_str("_INSIGHT_");
    name.append(safe_filename(label).as_str());
    name.append(".md");
    let path = crate::paths::join_path(vault, name.as_str());
    let links = wrapped_links(node_ids, "[[", "]]");
    let joined = crate::text::join_strings(links.as_slice(), "\n");
    let mut md = String::from_str("---\ntype: insight\npattern: ");
    match pattern {
        Some(x) => md.append(x),
        None => md.append("observation"),
    }
    md.append("\ncreated_by: ai\ntags: [kodex/insight, ");
    match pattern {
        Some(x) => {
            md.append("#pattern/");
            md.append(x);
        },
        None => {},
    }
    md.append("]\n---\n\n# ");
    md.append(label);
    md.append("\n\n");
    md.append(description);
    md.append("\n\n## Related\n\n");
    md.append(joined.as_str());
    md.append("\n");
    proof {
        reveal_strlit("\n");
        assert("\n"@ =~= seq!['\n']);
    }
    (path, md)
}

/// The insight note that saving an insight writes: its path (under `vault`,
/// or the default vault folder) and its text, which links the nodes.
pub fn save_insight(
    vault: Option<&str>,
    label: &str,
    description: &str,
    node_ids: &[String],
    pattern: Option<&str>,
) -> (r: (String, String))
    ensures
        (r.0@, r.1@) == insight_note(
            match vault {
                Some(v) => v@,
                None => default_vault(),
            },
            label@,
            description@,
            strings_view(node_ids@),
            match pattern {
                Some(x) => Some(x@),
                None => None,
            },
        ),
{
    let v = match vault {
        Some(v) => v,
        None => "kodex-out/vault",
    };
    insight_note_exec(v, label, description, node_ids, pattern)
}

/// The free-text note that saving a note writes: its path and its text.
pub fn save_note(vault: Option<&str>, title: &str, content: &str, related_nodes: &[String]) -> (r: (String, String))
    ensures
        (r.0@, r.1@) == free_note(
            match vault {
                Some(v) => v@,
                None => default_vault(),
            },
            title@,
            content@,
            strings_view(related_nodes@),
        ),
{
    let v = match vault {
        Some(v) => v,
        None => "kodex-out/vault",
    };
    let mut name = String::from_str("_NOTE_");
    name.append(safe_filename(title).as_str());
    name.append(".md");
    let path = crate::paths::join_path(v, name.as_str());
    let mut md = String::from_str("---\ntype: note\ncreated_by: ai\ntags: [kodex/note]\n---\n\n# ");
    md.append(title);
    md.append("\n\n");
    md.append(content);
    md.append("\n\n## Related\n\n");
    if related_nodes.len() == 0 {
        md.append("(none)");
    } else {
        let links = wrapped_links(related_nodes, "- [[", "]]");
        let joined = crate::text::join_strings(links.as_slice(), "\n");
        md.append(joined.as_str());
    }
    md.append("\n");
    proof {
        reveal_strlit("\n");
        assert("\n"@ =~= seq!['\n']);
    }
    (path, md)
}

/// The insight note that adding an edge writes: labelled `source → target`,
/// described by `description` (else the relation), linking both ends, with
/// the relation as its pattern, in the default vault folder.
pub fn add_edge(source: &str, target: &str, relation: &str, description: Option<&str>) -> (r: (String, String))
    ensures
        (r.0@, r.1@) == insight_note(
            default_vault(),
            source@ + " → "@ + target@,
            match description {
                Some(d) => d@,
                None => relation@,
            },
            seq![source@, target@],
            Some(relation@),
        ),
{
    let mut label = String::from_str(source);
    label.append(" → ");
    label.append(target);
    let desc = match description {
        Some(d) => d,
        None => relation,
    };
    let ids = vec![String::from_str(source), String::from_str(target)];
    assert(strings_view(ids@) =~= seq![source@, target@]);
    insight_note_exec("kodex-out/vault", label.as_str(), desc, ids.as_slice(), Some(relation))
}

/// The folder for global git hooks under the home directory `home`.
pub fn global_hooks_dir(home: &str) -> (r: String)
    ensures
        r@ == path_join(path_join(home@, ".kodex"@), "git-hooks"@),
{
    let h = crate::registry::kodex_home(home);
    crate::paths::join_path(h.as_str(), "git-hooks")
}

/// The report of removing the hooks: `Not a git repository` without a
/// repository, else the result for each hook on a line of its own.
pub fn uninstall(in_repository: bool, post_commit: &str, post_checkout: &str) -> (r: String)
    ensures
        !in_repository ==> r@ == "Not a git repository"@,
        in_repository ==> r@ == "post-commit: "@ + post_commit@ + "\npost-checkout: "@ + post_checkout@,
{
    if !in_repository {
        return String::from_str("Not a git repository");
    }
    let mut r = String::from_str("post-commit: ");
    r.append(post_commit);
    r.append("\npost-checkout: ");
    r.append(post_checkout);
    r
}

/// A leap year of the Gregorian calendar.
pub open spec fn is_leap(y: int) -> bool {
    (y % 4 == 0 && y % 100 != 0) || y % 400 == 0
}

/// The number of days of year `y`.
pub open spec fn year_days(y: int) -> int {
    if is_leap(y) {
        366
    } else {
        365
    }
}

/// The number of days of month `m` (1 to 12) of year `y`.
pub open spec fn month_days(y: int, m: int) -> int {
    if m == 2 {
        if is_leap(y) {
            29
        } else {
            28
        }
    } else if m == 4 || m == 6 || m == 9 || m == 11 {
        30
    } else {
        31
    }
}

/// The days from 1970-01-01 to the first day of year `y` (for `y >= 1970`).
pub open spec fn days_to_year(y: int) -> int
    decreases y - 1970,
{
    if y <= 1970 {
        0
    } else {
        days_to_year(y - 1) + year_days(y - 1)
    }
}

/// The days from the first of the year to the first of month `m`.
pub open spec fn days_to_month(y: int, m: int) -> int
    decreases m,
{
    if m <= 1 {
        0
    } else {
        days_to_month(y, m - 1) + month_days(y, m - 1)
    }
}

/// The number of the day `y-m-d` counted from 1970-01-01 (day 0).
pub open spec fn day_number(y: int, m: int, d: int) -> int {
    days_to_year(y) + days_to_month(y, m) + d - 1
}

proof fn lemma_months_make_year(y: int)
    ensures
        days_to_month(y, 13) == year_days(y),
{
    reveal_with_fuel(days_to_month, 13);
}

fn is_leap_exec(y: u64) -> (r: bool)
    ensures
        r == is_leap(y as int),
{
    (y % 4 == 0 && y % 100 != 0) || y % 400 == 0
}

fn year_days_exec(y: u64) -> (r: u64)
    ensures
        r == year_days(y as int),
{
    if is_leap_exec(y) {
        366
    } else {
        365
    }
}

fn month_days_exec(y: u64, m: u64) -> (r: u64)
    ensures
        r == month_days(y as int, m as int),
        r >= 28,
{
    if m == 2 {
        if is_leap_exec(y) {
            29
        } else {
            28
        }
    } else if m == 4 || m == 6 || m == 9 || m == 11 {
        30
    } else {
        31
    }
}

/// The calendar date of day `days` counted from 1970-01-01.
pub fn civil_date(days: u64) -> (r: (u64, u64, u64))
    requires
        days <= 0x7fff_ffff,
    ensures
        r.0 >= 1970,
        1 <= r.1 <= 12,
        1 <= r.2 <= month_days(r.0 as int, r.1 as int),
        day_number(r.0 as int, r.1 as int, r.2 as int) == days,
{
    let mut y: u64 = 1970;
    let mut rem: u64 = days;
    while rem >= year_days_exec(y)
        invariant
            1970 <= y <= 1970 + days,
            rem <= days,
            days <= 0x7fff_ffff,
            days_to_year(y as int) + rem == days,
            (y - 1970) * 365 <= days - rem,
        decreases rem,
    {
        rem = rem - year_days_exec(y);
        y = y + 1;
    }
    let ghost year_rem = rem;
    let mut m: u64 = 1;
    while rem >= month_days_exec(y, m)
        invariant
            1 <= m <= 12,
            rem <= year_rem,
            year_rem <= days,
            days <= 0x7fff_ffff,
            days_to_month(y as int, m as int) + rem == year_rem,
            year_rem < year_days(y as int),
        decreases rem,
    {
        proof {
            if m == 12 {
                lemma_months_make_year(y as int);
                assert(days_to_month(y as int, 13) == days_to_month(y as int, 12) + month_days(y as int, 12));
                assert(false);
            }
        }
        rem = rem - month_days_exec(y, m);
        m = m + 1;
    }
    (y, m, rem + 1)
}

/// The decimal digits of `n`.
pub open spec fn decimal(n: nat) -> Seq<char>
    decreases n,
{
    if n < 10 {
        seq![(('0' as u32) + n) as char]
    } else {
        decimal(n / 10) + seq![(('0' as u32) + (n % 10)) as char]
    }
}

/// `n` with at least two digits.
pub open spec fn two_digits(n: nat) -> Seq<char> {
    if n < 10 {
        seq!['0'] + decimal(n)
    } else {
        decimal(n)
    }
}

pub(crate) fn decimal_exec(n: u64) -> (r: String)
    ensures
        r@ == decimal(n as nat),
    decreases n,
{
    let d = (n % 10) as u32;
    let c = char_of_digit(d);
    if n < 10 {
        let mut s = String::new();
        crate::text::push_char(&mut s, c);
        assert(s@ =~= seq![c]);
        s
    } else {
        let mut s = decimal_exec(n / 10);
        crate::text::push_char(&mut s, c);
        s
    }
}

fn char_of_digit(d: u32) -> (c: char)
    requires
        d < 10,
    ensures
        c == (('0' as u32) + d) as char,
{
    if d == 0 { '0' } else if d == 1 { '1' } else if d == 2 { '2' } else if d == 3 { '3' } else if d == 4 {
        '4'
    } else if d == 5 { '5' } else if d == 6 { '6' } else if d == 7 { '7' } else if d == 8 { '8' } else {
        '9'
    }
}

/// `s` is the text `YYYY-MM-DD` of the date of day `days` counted from
/// 1970-01-01.
pub open spec fn is_date_text(days: int, s: Seq<char>) -> bool {
    exists|y: u64, m: u64, d: u64|
        #![trigger day_number(y as int, m as int, d as int)]
        y >= 1970 && 1 <= m <= 12 && 1 <= d <= month_days(y as int, m as int) && day_number(
            y as int,
            m as int,
            d as int,
        ) == days && s == decimal(y as nat) + seq!['-'] + two_digits(m as nat) + seq!['-'] + two_digits(
            d as nat,
        )
}

/// The text `YYYY-MM-DD` of the date of day `days` counted from 1970-01-01
/// (see [`civil_date`]).
pub fn date_text(days: u64) -> (r: String)
    requires
        days <= 0x7fff_ffff,
    ensures
        is_date_text(days as int, r@),
{
    let (y, m, d) = civil_date(days);
    let mut s = decimal_exec(y);
    crate::text::push_char(&mut s, '-');
    if m < 10 {
        crate::text::push_char(&mut s, '0');
    }
    s.append(decimal_exec(m).as_str());
    crate::text::push_char(&mut s, '-');
    if d < 10 {
        crate::text::push_char(&mut s, '0');
    }
    s.append(decimal_exec(d).as_str());
    assert(s@ =~= decimal(y as nat) + seq!['-'] + two_digits(m as nat) + seq!['-'] + two_digits(d as nat));
    assert(day_number(y as int, m as int, d as int) == days);
    s
}

/// `s` is the text of some date from 1970 on (up to day 2^31 - 1).
pub open spec fn some_date_text(s: Seq<char>) -> bool {
    exists|days: int| 0 <= days <= 0x7fff_ffff && #[trigger] is_date_text(days, s)
}

/// The date `YYYY-MM-DD` of the instant `secs` seconds after 1970-01-01
/// 00:00 UTC: the text of day `secs / 86400`, or `None` past day 2^31 - 1
/// (about the year 5,881,580).
pub fn date_from_unix_secs(secs: u64) -> (r: Option<String>)
    ensures
        r is Some <==> secs / 86400 <= 0x7fff_ffff,
        match r {
            Some(s) => is_date_text((secs / 86400) as int, s@),
            None => true,
        },
{
    let days = secs / 86400;
    if days <= 0x7fff_ffff {
        Some(date_text(days))
    } else {
        None
    }
}

/// Today's date as `YYYY-MM-DD`, read from the system clock (see
/// [`date_from_unix_secs`]); `None` when the clock reads past day 2^31 - 1
/// from 1970. Which day it is, the clock decides: the contract says that any
/// text returned is such a date.
pub fn chrono_free_date() -> (r: Option<String>)
    ensures
        match r {
            Some(s) => some_date_text(s@),
            None => true,
        },
{
    let secs = crate::learn::unix_now();
    let r = date_from_unix_secs(secs);
    proof {
        if r is Some {
            let dd: int = (secs / 86400) as int;
            assert(0 <= dd <= 0x7fff_ffff && is_date_text(dd, r->0@));
        }
    }
    r
}

/// `s` without the characters `c`.
pub open spec fn without_char(s: Seq<char>, c: char) -> Seq<char> {
    s.filter(not_char(c))
}

/// Inequality with `c`, as a predicate.
pub open spec fn not_char(c: char) -> spec_fn(char) -> bool {
    |x: char| x != c
}

fn without_char_exec(s: &[char], c: char) -> (r: Vec<char>)
    ensures
        r@ == without_char(s@, c),
{
    let mut out: Vec<char> = Vec::new();
    let n = s.len();
    for i in 0..n
        invariant
            n == s@.len(),
            out@ == s@.take(i as int).filter(not_char(c)),
    {
        proof {
            reveal(Seq::filter);
            assert(s@.take(i + 1).drop_last() =~= s@.take(i as int));
        }
        if s[i] != c {
            out.push(s[i]);
        }
    }
    assert(s@.take(n as int) =~= s@);
    out
}

/// Node `id` answers to the file name `f`: its lower-cased label without
/// spaces and underscores, or its lower-cased id without underscores, is the
/// lower-cased file name without underscores.
pub open spec fn names_file(g: &crate::graph::KodexGraph, id: Seq<char>, f: Seq<char>) -> bool {
    let i = g.spec_node_index(id);
    let want = without_char(lowercase(f), '_');
    i >= 0 && (without_char(without_char(lowercase(g.nodes@[i].label@), ' '), '_') == want || without_char(
        lowercase(id),
        '_',
    ) == want)
}

/// The first node (in node order) that answers to the file name `filename`
/// (see [`names_file`]).
pub fn find_node_by_filename(graph: &crate::graph::KodexGraph, filename: &str) -> (r: Option<String>)
    ensures
        ({
            let k = crate::seqs::first_where(graph.spec_ids(), |id: Seq<char>| names_file(graph, id, filename@));
            match r {
                Some(id) => k >= 0 && id@ == graph.spec_ids()[k],
                None => k == -1,
            }
        }),
{
    let want = without_char_exec(crate::text::str_chars(crate::text::to_lower(filename).as_str()).as_slice(), '_');
    let ghost ids = graph.spec_ids();
    let ghost p = |id: Seq<char>| names_file(graph, id, filename@);
    let n = graph.nodes.len();
    for i in 0..n
        invariant
            n == graph.nodes@.len(),
            ids == graph.spec_ids(),
            want@ == without_char(lowercase(filename@), '_'),
            p == (|id: Seq<char>| names_file(graph, id, filename@)),
            forall|j: int| 0 <= j < i ==> !p(#[trigger] ids[j]),
    {
        let id = &graph.nodes[i].id;
        assert(ids[i as int] == id@);
        let hit = match graph.get_node(id.as_str()) {
            Some(node) => {
                let l = crate::text::str_chars(crate::text::to_lower(node.label.as_str()).as_str());
                let l2 = without_char_exec(without_char_exec(l.as_slice(), ' ').as_slice(), '_');
                let d = crate::text::str_chars(crate::text::to_lower(id.as_str()).as_str());
                let d2 = without_char_exec(d.as_slice(), '_');
                crate::text::chars_eq(l2.as_slice(), want.as_slice()) || crate::text::chars_eq(
                    d2.as_slice(),
                    want.as_slice(),
                )
            },
            None => false,
        };
        if hit {
            proof {
                crate::seqs::lemma_first_where_is(ids, p, i as int);
            }
            return Some(id.clone());
        }
    }
    proof {
        crate::seqs::lemma_first_where_is(ids, p, -1);
    }
    None
}

/// The line that opens the hook section of this tool.
pub open spec fn hook_marker() -> Seq<char> {
    "# >>> kodex >>>"@
}

/// The line that closes the hook section.
pub open spec fn hook_marker_end() -> Seq<char> {
    "# <<< kodex <<<"@
}

/// The commands of the hook section.
pub open spec fn hook_script() -> Seq<char> {
    "\n# Auto-rebuild kodex graph if this project is registered (no-op otherwise).\nif command -v kodex >/dev/null 2>&1; then\n    kodex auto-update &\nfi\n"@
}

/// A git hook with the section added: `None` when it is there already; a new
/// hook starts with `#!/bin/sh`.
pub open spec fn with_hook_section(existing: Seq<char>) -> Option<Seq<char>> {
    if contains(existing, hook_marker()) {
        None
    } else {
        let base = if existing.len() == 0 {
            "#!/bin/sh\n"@
        } else {
            existing
        };
        Some(base + "\n"@ + hook_marker() + hook_script() + hook_marker_end() + "\n"@)
    }
}

/// A git hook with the section added (see [`with_hook_section`]).
pub fn hook_with_kodex(existing: &str) -> (r: Option<String>)
    ensures
        match r {
            Some(s) => with_hook_section(existing@) == Some(s@),
            None => with_hook_section(existing@) is None,
        },
{
    let e = crate::text::str_chars(existing);
    if holds(&e, "# >>> kodex >>>") {
        return None;
    }
    let mut s = if e.len() == 0 {
        String::from_str("#!/bin/sh\n")
    } else {
        String::from_str(existing)
    };
    s.append("\n");
    s.append("# >>> kodex >>>");
    s.append(
        "\n# Auto-rebuild kodex graph if this project is registered (no-op otherwise).\nif command -v kodex >/dev/null 2>&1; then\n    kodex auto-update &\nfi\n",
    );
    s.append("# <<< kodex <<<");
    s.append("\n");
    Some(s)
}

/// The lines of a hook outside the section, each followed by a newline.
pub open spec fn outside_section(ls: Seq<Seq<char>>, in_section: bool) -> Seq<char>
    decreases ls.len(),
{
    if ls.len() == 0 {
        seq![]
    } else if contains(ls[0], hook_marker()) {
        outside_section(ls.drop_first(), true)
    } else if contains(ls[0], hook_marker_end()) {
        outside_section(ls.drop_first(), false)
    } else if !in_section {
        ls[0] + "\n"@ + outside_section(ls.drop_first(), false)
    } else {
        outside_section(ls.drop_first(), true)
    }
}

/// What removing the section does to a hook: `None` when it has no section;
/// else the rest, and whether the file is to be deleted (nothing but the
/// `#!/bin/sh` line, or nothing at all, is left).
pub open spec fn without_hook_section(content: Seq<char>) -> Option<(Seq<char>, bool)> {
    if !contains(content, hook_marker()) {
        None
    } else {
        let rest = outside_section(lines(content), false);
        Some((rest, trim(rest) == "#!/bin/sh"@ || trim(rest).len() == 0))
    }
}

/// A git hook with the section removed (see [`without_hook_section`]).
pub fn hook_without_kodex(content: &str) -> (r: Option<(String, bool)>)
    ensures
        match r {
            Some(x) => without_hook_section(content@) == Some((x.0@, x.1)),
            None => without_hook_section(content@) is None,
        },
{
    let cs = crate::text::str_chars(content);
    if !holds(&cs, "# >>> kodex >>>") {
        return None;
    }
    let ls = crate::text::lines_exec(cs.as_slice());
    let ghost lv = crate::text::vecs_view(ls@);
    let mk = crate::text::str_chars("# >>> kodex >>>");
    let mk_end = crate::text::str_chars("# <<< kodex <<<");
    let mut result = String::new();
    let mut in_section = false;
    let n = ls.len();
    assert(lv.skip(0) =~= lv);
    assert(result@ + outside_section(lv.skip(0), false) =~= outside_section(lv, false));
    for i in 0..n
        invariant
            n == ls@.len(),
            lv == crate::text::vecs_view(ls@),
            mk@ == hook_marker(),
            mk_end@ == hook_marker_end(),
            result@ + outside_section(lv.skip(i as int), in_section) == outside_section(lv, false),
    {
        assert(lv.skip(i as int)[0] == ls@[i as int]@);
        assert(lv.skip(i as int).drop_first() =~= lv.skip(i + 1));
        let line = &ls[i];
        if crate::text::contains_exec(line.as_slice(), mk.as_slice()) {
            in_section = true;
        } else if crate::text::contains_exec(line.as_slice(), mk_end.as_slice()) {
            in_section = false;
        } else if !in_section {
            let ghost b = result@;
            result.append(crate::text::chars_to_string(line.as_slice()).as_str());
            result.append("\n");
            assert(b + (line@ + "\n"@ + outside_section(lv.skip(i + 1), false)) =~= result@ + outside_section(
                lv.skip(i + 1),
                false,
            ));
        }
    }
    assert(lv.skip(n as int) =~= seq![]);
    assert(result@ + seq![] =~= result@);
    let rc = crate::text::str_chars(result.as_str());
    let t = crate::text::trim_vec(rc.as_slice());
    let sh = crate::text::str_chars("#!/bin/sh");
    let remove = crate::text::chars_eq(t.as_slice(), sh.as_slice()) || t.len() == 0;
    Some((result, remove))
}

} // verus!
