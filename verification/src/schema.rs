//! Checking an extraction (a JSON document of nodes and edges) against the
//! schema that the graph builder expects.
use vstd::prelude::*;
use vstd::string::StringExecFns;

use crate::misc::decimal;
use crate::text::join_with;
use crate::types::{strings_view, KodexError};

verus! {

/// A JSON value, as far as checking an extraction reads it: numbers are
/// kept as their text, objects as their fields in order (each key once).
#[derive(Debug)]
pub enum Json {
    Null,
    Bool(bool),
    Number(String),
    Str(String),
    Array(Vec<Json>),
    Object(Vec<(String, Json)>),
}

/// The value of the first field named `k`.
pub open spec fn json_get(fs: Seq<(String, Json)>, k: Seq<char>) -> Option<Json>
    decreases fs.len(),
{
    if fs.len() == 0 {
        None
    } else if fs[0].0@ == k {
        Some(fs[0].1)
    } else {
        json_get(fs.drop_first(), k)
    }
}

/// The text of a value that is a string.
pub open spec fn str_of(v: Option<Json>) -> Option<Seq<char>> {
    match v {
        Some(Json::Str(s)) => Some(s@),
        _ => None,
    }
}

/// `s` as Rust's `Debug` writes a string: quoted and escaped.
pub uninterp spec fn debug_text(s: Seq<char>) -> Seq<char>;

/// Formats `s` with std's `Debug` for `str` (`format!("{:?}", s)`). Its
/// result, the string quoted with `\`, quotes and control or unprintable
/// characters escaped, is only named ([`debug_text`]): it depends on `s`
/// alone, and what each character becomes is not stated.
#[verifier::external_body]
fn debug_str(s: &str) -> (r: String)
    ensures
        r@ == debug_text(s@),
{
    format!("{:?}", s)
}

/// The file types a node may have.
pub open spec fn valid_file_type(t: Seq<char>) -> bool {
    t == "code"@ || t == "document"@ || t == "image"@ || t == "paper"@ || t == "rationale"@ || t == "video"@
}

/// The confidence levels an edge may have.
pub open spec fn valid_confidence(c: Seq<char>) -> bool {
    c == "AMBIGUOUS"@ || c == "EXTRACTED"@ || c == "INFERRED"@
}

/// The error for a missing field `f`, after the text `head`, when `fs` has no
/// field of that name.
pub open spec fn missing(fs: Seq<(String, Json)>, head: Seq<char>, f: Seq<char>) -> Seq<Seq<char>> {
    if json_get(fs, f) is Some {
        seq![]
    } else {
        seq![head + " missing required field '"@ + f + "'"@]
    }
}

/// The errors of node `i`.
pub open spec fn node_errors(i: nat, n: Json) -> Seq<Seq<char>> {
    match n {
        Json::Object(fs) => {
            let id = match str_of(json_get(fs@, "id"@)) {
                Some(s) => s,
                None => "?"@,
            };
            let head = "Node "@ + decimal(i) + " (id="@ + debug_text(id) + ")"@;
            let ft = match str_of(json_get(fs@, "file_type"@)) {
                Some(t) => if valid_file_type(t) {
                    seq![]
                } else {
                    seq![head + " has invalid file_type '"@ + t
                        + "' - must be one of [\"code\", \"document\", \"image\", \"paper\", \"rationale\", \"video\"]"@]
                },
                None => seq![],
            };
            missing(fs@, head, "id"@) + missing(fs@, head, "label"@) + missing(fs@, head, "file_type"@) + missing(
                fs@,
                head,
                "source_file"@,
            ) + ft
        },
        _ => seq!["Node "@ + decimal(i) + " must be an object"@],
    }
}

/// The errors of the nodes `ns`, in order.
pub open spec fn nodes_errors(ns: Seq<Json>) -> Seq<Seq<char>>
    decreases ns.len(),
{
    if ns.len() == 0 {
        seq![]
    } else {
        nodes_errors(ns.drop_last()) + node_errors((ns.len() - 1) as nat, ns.last())
    }
}

/// The ids (string `id` fields) of the nodes that are objects.
pub open spec fn node_ids(ns: Seq<Json>) -> Seq<Seq<char>>
    decreases ns.len(),
{
    if ns.len() == 0 {
        seq![]
    } else {
        let p = node_ids(ns.drop_last());
        match ns.last() {
            Json::Object(fs) => match str_of(json_get(fs@, "id"@)) {
                Some(s) => p.push(s),
                None => p,
            },
            _ => p,
        }
    }
}

/// The error for an edge end `end` (`source` or `target`) that names no
/// node, when the nodes have ids at all.
pub open spec fn end_error(i: nat, fs: Seq<(String, Json)>, end: Seq<char>, ids: Seq<Seq<char>>) -> Seq<Seq<char>> {
    match str_of(json_get(fs, end)) {
        Some(s) => if ids.len() > 0 && !ids.contains(s) {
            seq!["Edge "@ + decimal(i) + " "@ + end + " '"@ + s + "' does not match any node id"@]
        } else {
            seq![]
        },
        None => seq![],
    }
}

/// The errors for the fields that an edge lacks, after the text `head`.
pub open spec fn edge_field_errors(fs: Seq<(String, Json)>, head: Seq<char>) -> Seq<Seq<char>> {
    missing(fs, head, "source"@) + missing(fs, head, "target"@) + missing(fs, head, "relation"@) + missing(
        fs,
        head,
        "confidence"@,
    ) + missing(fs, head, "source_file"@)
}

/// The error for an edge confidence that is a string but no known level.
pub open spec fn conf_error(fs: Seq<(String, Json)>, head: Seq<char>) -> Seq<Seq<char>> {
    match str_of(json_get(fs, "confidence"@)) {
        Some(c) => if valid_confidence(c) {
            seq![]
        } else {
            seq![head + " has invalid confidence '"@ + c
                + "' - must be one of [\"AMBIGUOUS\", \"EXTRACTED\", \"INFERRED\"]"@]
        },
        None => seq![],
    }
}

/// The errors of edge `i`, given the node ids.
pub open spec fn edge_errors(i: nat, e: Json, ids: Seq<Seq<char>>) -> Seq<Seq<char>> {
    match e {
        Json::Object(fs) => {
            let head = "Edge "@ + decimal(i);
            edge_field_errors(fs@, head) + conf_error(fs@, head) + end_error(i, fs@, "source"@, ids) + end_error(
                i,
                fs@,
                "target"@,
                ids,
            )
        },
        _ => seq!["Edge "@ + decimal(i) + " must be an object"@],
    }
}

/// The errors of the edges `es`, in order.
pub open spec fn edges_errors(es: Seq<Json>, ids: Seq<Seq<char>>) -> Seq<Seq<char>>
    decreases es.len(),
{
    if es.len() == 0 {
        seq![]
    } else {
        edges_errors(es.drop_last(), ids) + edge_errors((es.len() - 1) as nat, es.last(), ids)
    }
}

/// The errors of an extraction: it must be an object with a list `nodes`
/// and a list `edges` (or, failing a field `edges`, `links`); each node an
/// object with `id`, `label`, `file_type` (one of the known types) and
/// `source_file`; each edge an object with `source`, `target`, `relation`,
/// `confidence` (one of the known levels) and `source_file`, whose ends name
/// nodes when the nodes have ids. No error means valid.
pub open spec fn extraction_errors(data: Json) -> Seq<Seq<char>> {
    match data {
        Json::Object(fs) => {
            let nodes = json_get(fs@, "nodes"@);
            let nodes_part = match nodes {
                None => seq!["Missing required key 'nodes'"@],
                Some(Json::Array(ns)) => nodes_errors(ns@),
                Some(_) => seq!["'nodes' must be a list"@],
            };
            let ids = match nodes {
                Some(Json::Array(ns)) => node_ids(ns@),
                _ => seq![],
            };
            let edges = match json_get(fs@, "edges"@) {
                Some(v) => Some(v),
                None => json_get(fs@, "links"@),
            };
            let edges_part = match edges {
                None => seq!["Missing required key 'edges'"@],
                Some(Json::Array(es)) => edges_errors(es@, ids),
                Some(_) => seq!["'edges' must be a list"@],
            };
            nodes_part + edges_part
        },
        _ => seq!["Extraction must be a JSON object"@],
    }
}

/// The message that lists the errors `errs`, one bulleted line each.
pub open spec fn validation_message(errs: Seq<Seq<char>>) -> Seq<char> {
    "Extraction JSON has "@ + decimal(errs.len()) + " error(s):\n"@ + join_with(
        errs.map_values(|e: Seq<char>| "  \u{2022} "@ + e),
        seq!['\n'],
    )
}

fn get_field<'a>(fs: &'a Vec<(String, Json)>, k: &str) -> (r: Option<&'a Json>)
    ensures
        match r {
            Some(v) => json_get(fs@, k@) == Some(*v),
            None => json_get(fs@, k@) is None,
        },
{
    let n = fs.len();
    let mut i: usize = 0;
    assert(fs@.skip(0) =~= fs@);
    while i < n
        invariant
            n == fs@.len(),
            0 <= i <= n,
            json_get(fs@, k@) == json_get(fs@.skip(i as int), k@),
        decreases n - i,
    {
        assert(fs@.skip(i as int).drop_first() =~= fs@.skip(i + 1));
        assert(fs@.skip(i as int)[0] == fs@[i as int]);
        if crate::text::str_eq(fs[i].0.as_str(), k) {
            return Some(&fs[i].1);
        }
        i = i + 1;
    }
    None
}

fn str_field<'a>(fs: &'a Vec<(String, Json)>, k: &str) -> (r: Option<&'a String>)
    ensures
        match r {
            Some(s) => str_of(json_get(fs@, k@)) == Some(s@),
            None => str_of(json_get(fs@, k@)) is None,
        },
{
    match get_field(fs, k) {
        Some(Json::Str(s)) => Some(s),
        _ => None,
    }
}

fn push_msg(out: &mut Vec<String>, m: String)
    ensures
        strings_view(final(out)@) == strings_view(old(out)@).push(m@),
{
    out.push(m);
    assert(strings_view(out@) =~= strings_view(old(out)@).push(m@));
}

fn push_missing(out: &mut Vec<String>, fs: &Vec<(String, Json)>, head: &String, f: &str)
    ensures
        strings_view(final(out)@) == strings_view(old(out)@) + missing(fs@, head@, f@),
{
    if get_field(fs, f).is_none() {
        let mut m = head.clone();
        m.append(" missing required field '");
        m.append(f);
        m.append("'");
        push_msg(out, m);
        assert(strings_view(out@) =~= strings_view(old(out)@) + missing(fs@, head@, f@));
    } else {
        assert(strings_view(out@) =~= strings_view(old(out)@) + missing(fs@, head@, f@));
    }
}

fn is_valid_file_type(t: &str) -> (r: bool)
    ensures
        r == valid_file_type(t@),
{
    crate::text::str_eq(t, "code") || crate::text::str_eq(t, "document") || crate::text::str_eq(t, "image")
        || crate::text::str_eq(t, "paper") || crate::text::str_eq(t, "rationale") || crate::text::str_eq(t, "video")
}

fn is_valid_confidence(c: &str) -> (r: bool)
    ensures
        r == valid_confidence(c@),
{
    crate::text::str_eq(c, "AMBIGUOUS") || crate::text::str_eq(c, "EXTRACTED") || crate::text::str_eq(c, "INFERRED")
}

fn push_node_errors(out: &mut Vec<String>, i: usize, n: &Json)
    ensures
        strings_view(final(out)@) == strings_view(old(out)@) + node_errors(i as nat, *n),
{
    let ghost o = strings_view(out@);
    let num = crate::misc::decimal_exec(i as u64);
    match n {
        Json::Object(fs) => {
            let id: &str = match str_field(fs, "id") {
                Some(s) => s.as_str(),
                None => "?",
            };
            let dbg = debug_str(id);
            let mut head = String::from_str("Node ");
            head.append(num.as_str());
            head.append(" (id=");
            head.append(dbg.as_str());
            head.append(")");
            let ghost h = head@;
            assert(h =~= "Node "@ + decimal(i as nat) + " (id="@ + debug_text(id@) + ")"@);
            push_missing(out, fs, &head, "id");
            push_missing(out, fs, &head, "label");
            push_missing(out, fs, &head, "file_type");
            push_missing(out, fs, &head, "source_file");
            let ghost before_ft = strings_view(out@);
            match str_field(fs, "file_type") {
                Some(t) => {
                    if !is_valid_file_type(t.as_str()) {
                        let mut m = head.clone();
                        m.append(" has invalid file_type '");
                        m.append(t.as_str());
                        m.append(
                            "' - must be one of [\"code\", \"document\", \"image\", \"paper\", \"rationale\", \"video\"]",
                        );
                        push_msg(out, m);
                    }
                },
                None => {},
            }
            assert(strings_view(out@) =~= o + node_errors(i as nat, *n));
        },
        _ => {
            let mut m = String::from_str("Node ");
            m.append(num.as_str());
            m.append(" must be an object");
            push_msg(out, m);
            assert(strings_view(out@) =~= o + node_errors(i as nat, *n));
        },
    }
}

fn push_nodes_errors(out: &mut Vec<String>, ns: &Vec<Json>)
    ensures
        strings_view(final(out)@) == strings_view(old(out)@) + nodes_errors(ns@),
{
    let ghost o = strings_view(out@);
    let n = ns.len();
    assert(ns@.take(0) =~= Seq::<Json>::empty());
    assert(strings_view(out@) =~= o + nodes_errors(ns@.take(0)));
    for i in 0..n
        invariant
            n == ns@.len(),
            strings_view(out@) == o + nodes_errors(ns@.take(i as int)),
    {
        assert(ns@.take(i + 1).drop_last() =~= ns@.take(i as int));
        assert(ns@.take(i + 1).last() == ns@[i as int]);
        let ghost before = strings_view(out@);
        push_node_errors(out, i, &ns[i]);
        assert(strings_view(out@) =~= o + nodes_errors(ns@.take(i + 1)));
    }
    assert(ns@.take(n as int) =~= ns@);
}

fn collect_ids(ns: &Vec<Json>) -> (r: Vec<String>)
    ensures
        strings_view(r@) == node_ids(ns@),
{
    let mut out: Vec<String> = Vec::new();
    let n = ns.len();
    assert(ns@.take(0) =~= Seq::<Json>::empty());
    assert(strings_view(out@) =~= Seq::<Seq<char>>::empty());
    for i in 0..n
        invariant
            n == ns@.len(),
            strings_view(out@) == node_ids(ns@.take(i as int)),
    {
        assert(ns@.take(i + 1).drop_last() =~= ns@.take(i as int));
        assert(ns@.take(i + 1).last() == ns@[i as int]);
        match &ns[i] {
            Json::Object(fs) => match str_field(fs, "id") {
                Some(s) => {
                    push_msg(&mut out, s.clone());
                },
                None => {},
            },
            _ => {},
        }
    }
    assert(ns@.take(n as int) =~= ns@);
    out
}

fn push_end_error(out: &mut Vec<String>, num: &String, i: usize, fs: &Vec<(String, Json)>, end: &str, ids: &Vec<String>)
    requires
        num@ == decimal(i as nat),
    ensures
        strings_view(final(out)@) == strings_view(old(out)@) + end_error(i as nat, fs@, end@, strings_view(ids@)),
{
    match str_field(fs, end) {
        Some(s) => {
            if ids.len() > 0 && !crate::learn::strings_contain(ids, s.as_str()) {
                let mut m = String::from_str("Edge ");
                m.append(num.as_str());
                m.append(" ");
                m.append(end);
                m.append(" '");
                m.append(s.as_str());
                m.append("' does not match any node id");
                push_msg(out, m);
                assert(strings_view(out@) =~= strings_view(old(out)@) + end_error(
                    i as nat,
                    fs@,
                    end@,
                    strings_view(ids@),
                ));
            } else {
                assert(strings_view(out@) =~= strings_view(old(out)@) + end_error(
                    i as nat,
                    fs@,
                    end@,
                    strings_view(ids@),
                ));
            }
        },
        None => {
            assert(strings_view(out@) =~= strings_view(old(out)@) + end_error(
                i as nat,
                fs@,
                end@,
                strings_view(ids@),
            ));
        },
    }
}

fn push_edge_fields(out: &mut Vec<String>, fs: &Vec<(String, Json)>, head: &String)
    ensures
        strings_view(final(out)@) == strings_view(old(out)@) + edge_field_errors(fs@, head@) + conf_error(fs@, head@),
{
    let ghost o = strings_view(out@);
    push_missing(out, fs, head, "source");
    push_missing(out, fs, head, "target");
    push_missing(out, fs, head, "relation");
    push_missing(out, fs, head, "confidence");
    push_missing(out, fs, head, "source_file");
    assert(strings_view(out@) =~= o + edge_field_errors(fs@, head@));
    let ghost mid = strings_view(out@);
    match str_field(fs, "confidence") {
        Some(c) => {
            if !is_valid_confidence(c.as_str()) {
                let mut m = head.clone();
                m.append(" has invalid confidence '");
                m.append(c.as_str());
                m.append("' - must be one of [\"AMBIGUOUS\", \"EXTRACTED\", \"INFERRED\"]");
                push_msg(out, m);
            }
        },
        None => {},
    }
    assert(strings_view(out@) =~= mid + conf_error(fs@, head@));
}

fn push_edge_errors(out: &mut Vec<String>, i: usize, e: &Json, ids: &Vec<String>)
    ensures
        strings_view(final(out)@) == strings_view(old(out)@) + edge_errors(i as nat, *e, strings_view(ids@)),
{
    let ghost o = strings_view(out@);
    let num = crate::misc::decimal_exec(i as u64);
    let mut head = String::from_str("Edge ");
    head.append(num.as_str());
    match e {
        Json::Object(fs) => {
            push_edge_fields(out, fs, &head);
            let ghost mid = strings_view(out@);
            push_end_error(out, &num, i, fs, "source", ids);
            push_end_error(out, &num, i, fs, "target", ids);
            assert(strings_view(out@) =~= o + edge_errors(i as nat, *e, strings_view(ids@)));
        },
        _ => {
            head.append(" must be an object");
            push_msg(out, head);
            assert(strings_view(out@) =~= o + edge_errors(i as nat, *e, strings_view(ids@)));
        },
    }
}

fn push_edges_errors(out: &mut Vec<String>, es: &Vec<Json>, ids: &Vec<String>)
    ensures
        strings_view(final(out)@) == strings_view(old(out)@) + edges_errors(es@, strings_view(ids@)),
{
    let ghost o = strings_view(out@);
    let ghost iv = strings_view(ids@);
    let n = es.len();
    assert(es@.take(0) =~= Seq::<Json>::empty());
    assert(strings_view(out@) =~= o + edges_errors(es@.take(0), iv));
    for i in 0..n
        invariant
            n == es@.len(),
            iv == strings_view(ids@),
            strings_view(out@) == o + edges_errors(es@.take(i as int), iv),
    {
        assert(es@.take(i + 1).drop_last() =~= es@.take(i as int));
        assert(es@.take(i + 1).last() == es@[i as int]);
        push_edge_errors(out, i, &es[i], ids);
        assert(strings_view(out@) =~= o + edges_errors(es@.take(i + 1), iv));
    }
    assert(es@.take(n as int) =~= es@);
}

/// The errors of an extraction (see [`extraction_errors`]); none means
/// valid.
pub fn validate_extraction(data: &Json) -> (r: Vec<String>)
    ensures
        strings_view(r@) == extraction_errors(*data),
{
    let mut out: Vec<String> = Vec::new();
    match data {
        Json::Object(fs) => {
            let nodes = get_field(fs, "nodes");
            match nodes {
                None => push_msg(&mut out, String::from_str("Missing required key 'nodes'")),
                Some(Json::Array(ns)) => push_nodes_errors(&mut out, ns),
                Some(_) => push_msg(&mut out, String::from_str("'nodes' must be a list")),
            }
            let ids = match nodes {
                Some(Json::Array(ns)) => collect_ids(ns),
                _ => Vec::new(),
            };
            assert(strings_view(ids@) == match json_get(fs@, "nodes"@) {
                Some(Json::Array(ns)) => node_ids(ns@),
                _ => Seq::<Seq<char>>::empty(),
            });
            let edges = match get_field(fs, "edges") {
                Some(v) => Some(v),
                None => get_field(fs, "links"),
            };
            let ghost mid = strings_view(out@);
            match edges {
                None => push_msg(&mut out, String::from_str("Missing required key 'edges'")),
                Some(Json::Array(es)) => push_edges_errors(&mut out, es, &ids),
                Some(_) => push_msg(&mut out, String::from_str("'edges' must be a list")),
            }
            assert(strings_view(out@) =~= extraction_errors(*data));
        },
        _ => {
            push_msg(&mut out, String::from_str("Extraction must be a JSON object"));
            assert(strings_view(out@) =~= extraction_errors(*data));
        },
    }
    out
}

/// `Ok` when the extraction has no error; else a validation error whose
/// message lists all of them (see [`validation_message`]).
pub fn assert_valid(data: &Json) -> (r: Result<(), KodexError>)
    ensures
        match r {
            Ok(()) => extraction_errors(*data).len() == 0,
            Err(KodexError::Validation(m)) => extraction_errors(*data).len() > 0 && m@ == validation_message(
                extraction_errors(*data),
            ),
            Err(_) => false,
        },
{
    let errs = validate_extraction(data);
    if errs.len() == 0 {
        return Ok(());
    }
    let ghost ev = strings_view(errs@);
    let mut bullets: Vec<String> = Vec::new();
    let n = errs.len();
    assert(ev.take(0).map_values(|e: Seq<char>| "  \u{2022} "@ + e) =~= Seq::<Seq<char>>::empty());
    assert(strings_view(bullets@) =~= Seq::<Seq<char>>::empty());
    for i in 0..n
        invariant
            n == errs@.len(),
            ev == strings_view(errs@),
            strings_view(bullets@) == ev.take(i as int).map_values(|e: Seq<char>| "  \u{2022} "@ + e),
    {
        let mut b = String::from_str("  \u{2022} ");
        b.append(errs[i].as_str());
        push_msg(&mut bullets, b);
        assert(ev.take(i + 1).map_values(|e: Seq<char>| "  \u{2022} "@ + e) =~= ev.take(i as int).map_values(
            |e: Seq<char>| "  \u{2022} "@ + e,
        ).push("  \u{2022} "@ + ev[i as int]));
    }
    assert(ev.take(n as int) =~= ev);
    let mut msg = String::from_str("Extraction JSON has ");
    let count = crate::misc::decimal_exec(n as u64);
    msg.append(count.as_str());
    msg.append(" error(s):\n");
    let body = crate::text::join_strings(bullets.as_slice(), "\n");
    msg.append(body.as_str());
    assert(seq!['\n'] =~= "\n"@) by {
        reveal_strlit("\n");
    }
    assert(msg@ =~= validation_message(ev));
    Err(KodexError::Validation(msg))
}

} // verus!
