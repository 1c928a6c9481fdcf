//! Registering the kodex server and its hooks in a coding assistant's two
//! JSON configuration documents: the user configuration, whose
//! `mcpServers` object lists the servers the assistant starts, and the
//! settings, whose `hooks` object lists the commands it runs on events.
use vstd::prelude::*;
use vstd::string::StringExecFns;

use crate::schema::{json_get, Json};

verus! {

// ---------------------------------------------------------------------------
// Fields of a JSON object
// ---------------------------------------------------------------------------

/// The first field of `fs` named `k` is at `i`.
pub open spec fn first_key_at(fs: Seq<(String, Json)>, k: Seq<char>, i: int) -> bool {
    &&& 0 <= i < fs.len()
    &&& fs[i].0@ == k
    &&& forall|j: int| 0 <= j < i ==> (#[trigger] fs[j]).0@ != k
}

/// The field looked up is the first one of that name.
pub proof fn lemma_get_first(fs: Seq<(String, Json)>, k: Seq<char>, i: int)
    requires
        first_key_at(fs, k, i),
    ensures
        json_get(fs, k) == Some(fs[i].1),
    decreases i,
{
    if i > 0 {
        assert(fs[0].0@ != k);
        assert forall|j: int| 0 <= j < i - 1 implies (#[trigger] fs.drop_first()[j]).0@ != k by {
            assert(fs.drop_first()[j] == fs[j + 1]);
        }
        lemma_get_first(fs.drop_first(), k, i - 1);
    }
}

/// Without a field named `k`, looking `k` up finds nothing.
pub proof fn lemma_get_none(fs: Seq<(String, Json)>, k: Seq<char>)
    requires
        forall|j: int| 0 <= j < fs.len() ==> (#[trigger] fs[j]).0@ != k,
    ensures
        json_get(fs, k) is None,
    decreases fs.len(),
{
    if fs.len() > 0 {
        assert(fs[0].0@ != k);
        assert forall|j: int| 0 <= j < fs.len() - 1 implies (#[trigger] fs.drop_first()[j]).0@ != k by {
            assert(fs.drop_first()[j] == fs[j + 1]);
        }
        lemma_get_none(fs.drop_first(), k);
    }
}

/// Replacing the first field named `x.0` by `x` changes the value of that
/// key alone.
pub proof fn lemma_get_update(fs: Seq<(String, Json)>, i: int, x: (String, Json), k2: Seq<char>)
    requires
        first_key_at(fs, x.0@, i),
    ensures
        json_get(fs.update(i, x), k2) == if k2 == x.0@ {
            Some(x.1)
        } else {
            json_get(fs, k2)
        },
    decreases i,
{
    let u = fs.update(i, x);
    if i == 0 {
        assert(u.drop_first() =~= fs.drop_first());
    } else {
        assert(fs[0].0@ != x.0@);
        assert(u.drop_first() =~= fs.drop_first().update(i - 1, x));
        if fs[0].0@ != k2 {
            assert forall|j: int| 0 <= j < i - 1 implies (#[trigger] fs.drop_first()[j]).0@ != x.0@ by {
                assert(fs.drop_first()[j] == fs[j + 1]);
            }
            lemma_get_update(fs.drop_first(), i - 1, x, k2);
        }
    }
}

/// Adding a field of a new name at the end changes the value of that key
/// alone.
pub proof fn lemma_get_push(fs: Seq<(String, Json)>, x: (String, Json), k2: Seq<char>)
    requires
        json_get(fs, x.0@) is None,
    ensures
        json_get(fs.push(x), k2) == if k2 == x.0@ {
            Some(x.1)
        } else {
            json_get(fs, k2)
        },
    decreases fs.len(),
{
    if fs.len() == 0 {
        assert(fs.push(x).drop_first() =~= Seq::<(String, Json)>::empty());
    } else {
        assert(fs.push(x).drop_first() =~= fs.drop_first().push(x));
        if fs[0].0@ != k2 {
            lemma_get_push(fs.drop_first(), x, k2);
        }
    }
}

/// Removing the first field named `k` leaves the other keys' values.
pub proof fn lemma_get_remove(fs: Seq<(String, Json)>, k: Seq<char>, i: int, k2: Seq<char>)
    requires
        first_key_at(fs, k, i),
        k2 != k,
    ensures
        json_get(fs.remove(i), k2) == json_get(fs, k2),
    decreases i,
{
    if i == 0 {
        assert(fs.remove(0) =~= fs.drop_first());
    } else {
        assert(fs.remove(i).drop_first() =~= fs.drop_first().remove(i - 1));
        assert(fs.remove(i)[0] == fs[0]);
        if fs[0].0@ != k2 {
            assert forall|j: int| 0 <= j < i - 1 implies (#[trigger] fs.drop_first()[j]).0@ != k by {
                assert(fs.drop_first()[j] == fs[j + 1]);
            }
            lemma_get_remove(fs.drop_first(), k, i - 1, k2);
        }
    }
}

/// The position of the first field named `k`, if any.
fn find_key(fs: &Vec<(String, Json)>, k: &str) -> (r: Option<usize>)
    ensures
        match r {
            Some(i) => first_key_at(fs@, k@, i as int),
            None => forall|j: int| 0 <= j < fs@.len() ==> (#[trigger] fs@[j]).0@ != k@,
        },
{
    let n = fs.len();
    for i in 0..n
        invariant
            n == fs@.len(),
            forall|j: int| 0 <= j < i ==> (#[trigger] fs@[j]).0@ != k@,
    {
        if crate::text::str_eq(fs[i].0.as_str(), k) {
            return Some(i);
        }
    }
    None
}

/// Whether the object has a field named `k`.
fn has_key(fs: &Vec<(String, Json)>, k: &str) -> (r: bool)
    ensures
        r == json_get(fs@, k@) is Some,
{
    match find_key(fs, k) {
        Some(i) => {
            proof {
                lemma_get_first(fs@, k@, i as int);
            }
            true
        },
        None => {
            proof {
                lemma_get_none(fs@, k@);
            }
            false
        },
    }
}

/// Sets the field `k` to `v`: the first field of that name gets the value,
/// or the field is added at the end.
fn put_key(fs: &mut Vec<(String, Json)>, k: &str, v: Json)
    ensures
        forall|k2: Seq<char>|
            #[trigger] json_get(final(fs)@, k2) == if k2 == k@ {
                Some(v)
            } else {
                json_get(old(fs)@, k2)
            },
{
    let key = String::from_str(k);
    match find_key(fs, k) {
        Some(i) => {
            let ghost before = fs@;
            let ghost x = (key, v);
            fs.set(i, (key, v));
            proof {
                assert forall|k2: Seq<char>|
                    #[trigger] json_get(fs@, k2) == if k2 == k@ {
                        Some(v)
                    } else {
                        json_get(before, k2)
                    } by {
                    lemma_get_update(before, i as int, x, k2);
                }
            }
        },
        None => {
            let ghost before = fs@;
            let ghost x = (key, v);
            proof {
                lemma_get_none(before, k@);
            }
            fs.push((key, v));
            proof {
                assert forall|k2: Seq<char>|
                    #[trigger] json_get(fs@, k2) == if k2 == k@ {
                        Some(v)
                    } else {
                        json_get(before, k2)
                    } by {
                    lemma_get_push(before, x, k2);
                }
            }
        },
    }
}

/// Takes out the first field named `k`, giving its value.
fn take_key(fs: &mut Vec<(String, Json)>, k: &str) -> (r: Option<Json>)
    ensures
        r == json_get(old(fs)@, k@),
        forall|k2: Seq<char>| k2 != k@ ==> #[trigger] json_get(final(fs)@, k2) == json_get(old(fs)@, k2),
        final(fs)@.len() == if r is Some {
            old(fs)@.len() - 1
        } else {
            old(fs)@.len() as int
        },
        r is None ==> final(fs)@ == old(fs)@,
{
    match find_key(fs, k) {
        Some(i) => {
            let ghost before = fs@;
            proof {
                lemma_get_first(before, k@, i as int);
            }
            let (_key, val) = fs.remove(i);
            proof {
                assert forall|k2: Seq<char>| k2 != k@ implies #[trigger] json_get(fs@, k2) == json_get(
                    before,
                    k2,
                ) by {
                    lemma_get_remove(before, k@, i as int, k2);
                }
            }
            Some(val)
        },
        None => {
            proof {
                lemma_get_none(fs@, k@);
            }
            None
        },
    }
}

/// Takes out every field named `k`.
fn drop_key(fs: &mut Vec<(String, Json)>, k: &str)
    ensures
        json_get(final(fs)@, k@) is None,
        forall|k2: Seq<char>| k2 != k@ ==> #[trigger] json_get(final(fs)@, k2) == json_get(old(fs)@, k2),
{
    let ghost f0 = fs@;
    loop
        invariant
            forall|k2: Seq<char>| k2 != k@ ==> #[trigger] json_get(fs@, k2) == json_get(f0, k2),
        ensures
            json_get(fs@, k@) is None,
            forall|k2: Seq<char>| k2 != k@ ==> #[trigger] json_get(fs@, k2) == json_get(f0, k2),
        decreases fs@.len(),
    {
        let r = take_key(fs, k);
        if r.is_none() {
            break;
        }
    }
}

// ---------------------------------------------------------------------------
// The entries written
// ---------------------------------------------------------------------------

/// `v` is the string `s`.
pub open spec fn is_str(v: Json, s: Seq<char>) -> bool {
    v matches Json::Str(x) && x@ == s
}

/// `v` is the server entry that starts `bin serve` over stdio:
/// `{"type": "stdio", "command": bin, "args": ["serve"]}`.
pub open spec fn is_server_entry(v: Json, bin: Seq<char>) -> bool {
    v matches Json::Object(fs) && fs@.len() == 3 && fs@[0].0@ == "type"@ && is_str(fs@[0].1, "stdio"@)
        && fs@[1].0@ == "command"@ && is_str(fs@[1].1, bin) && fs@[2].0@ == "args"@ && (fs@[2].1 matches Json::Array(
        xs,
    ) && xs@.len() == 1 && is_str(xs@[0], "serve"@))
}

/// `v` is a list of one command hook running `cmd`:
/// `[{"type": "command", "command": cmd}]`.
pub open spec fn is_command_list(v: Json, cmd: Seq<char>) -> bool {
    v matches Json::Array(xs) && xs@.len() == 1 && (xs@[0] matches Json::Object(fs) && fs@.len() == 2
        && fs@[0].0@ == "type"@ && is_str(fs@[0].1, "command"@) && fs@[1].0@ == "command"@ && is_str(
        fs@[1].1,
        cmd,
    ))
}

/// `v` is the hook run after each write:
/// `[{"matcher": "Write", "hooks": [command cmd]}]`.
pub open spec fn is_post_hook(v: Json, cmd: Seq<char>) -> bool {
    v matches Json::Array(xs) && xs@.len() == 1 && (xs@[0] matches Json::Object(fs) && fs@.len() == 2
        && fs@[0].0@ == "matcher"@ && is_str(fs@[0].1, "Write"@) && fs@[1].0@ == "hooks"@ && is_command_list(
        fs@[1].1,
        cmd,
    ))
}

/// The command run when a session starts: the context of the three most
/// important entries, inline.
pub open spec fn start_command(bin: Seq<char>) -> Seq<char> {
    bin + " context --inline-top-k 3 2>/dev/null"@
}

/// `v` is the hook run when a session starts: `[{"hooks": [command]}]`.
pub open spec fn is_start_hook(v: Json, bin: Seq<char>) -> bool {
    v matches Json::Array(xs) && xs@.len() == 1 && (xs@[0] matches Json::Object(fs) && fs@.len() == 1
        && fs@[0].0@ == "hooks"@ && is_command_list(fs@[0].1, start_command(bin)))
}

fn str_json(s: &str) -> (r: Json)
    ensures
        is_str(r, s@),
{
    Json::Str(String::from_str(s))
}

fn server_entry(bin: &str) -> (r: Json)
    ensures
        is_server_entry(r, bin@),
{
    let mut args: Vec<Json> = Vec::new();
    args.push(str_json("serve"));
    let mut fs: Vec<(String, Json)> = Vec::new();
    fs.push((String::from_str("type"), str_json("stdio")));
    fs.push((String::from_str("command"), str_json(bin)));
    fs.push((String::from_str("args"), Json::Array(args)));
    Json::Object(fs)
}

fn command_list(cmd: &str) -> (r: Json)
    ensures
        is_command_list(r, cmd@),
{
    let mut fs: Vec<(String, Json)> = Vec::new();
    fs.push((String::from_str("type"), str_json("command")));
    fs.push((String::from_str("command"), str_json(cmd)));
    let mut xs: Vec<Json> = Vec::new();
    xs.push(Json::Object(fs));
    Json::Array(xs)
}

fn post_hook(cmd: &str) -> (r: Json)
    ensures
        is_post_hook(r, cmd@),
{
    let mut fs: Vec<(String, Json)> = Vec::new();
    fs.push((String::from_str("matcher"), str_json("Write")));
    fs.push((String::from_str("hooks"), command_list(cmd)));
    let mut xs: Vec<Json> = Vec::new();
    xs.push(Json::Object(fs));
    Json::Array(xs)
}

fn start_hook(bin: &str) -> (r: Json)
    ensures
        is_start_hook(r, bin@),
{
    let mut cmd = String::from_str(bin);
    cmd.append(" context --inline-top-k 3 2>/dev/null");
    let mut fs: Vec<(String, Json)> = Vec::new();
    fs.push((String::from_str("hooks"), command_list(cmd.as_str())));
    let mut xs: Vec<Json> = Vec::new();
    xs.push(Json::Object(fs));
    Json::Array(xs)
}

// ---------------------------------------------------------------------------
// Installing
// ---------------------------------------------------------------------------

/// The two documents after installing, and what was done.
pub struct InstallPlan {
    /// The user configuration, with the server registered.
    pub config: Json,
    /// The settings, with the hooks registered.
    pub settings: Json,
    /// The server was registered already; the configuration needs no write.
    pub already_registered: bool,
    /// The hook run after writes was added.
    pub wrote_post: bool,
    /// The hook run at session start was added.
    pub wrote_start: bool,
}

/// The configuration lists a `kodex` server already.
pub open spec fn server_listed(cfg: Seq<(String, Json)>) -> bool {
    json_get(cfg, "mcpServers"@) matches Some(Json::Object(sv)) && json_get(sv@, "kodex"@) is Some
}

/// What [`install_assistant_config`] does to the configuration `a`, giving
/// `b`: no key but `mcpServers` changes; an existing server list gets a
/// `kodex` entry unless it has one (its other servers stay); a missing list
/// is created with that entry alone; a `mcpServers` that is not an object is
/// left as it is.
pub open spec fn config_installed(a: Seq<(String, Json)>, b: Seq<(String, Json)>, bin: Seq<char>) -> bool {
    &&& forall|k: Seq<char>| k != "mcpServers"@ ==> #[trigger] json_get(b, k) == json_get(a, k)
    &&& match json_get(a, "mcpServers"@) {
        Some(Json::Object(sv)) => json_get(b, "mcpServers"@) matches Some(Json::Object(ov)) && (forall|k: Seq<char>|
            k != "kodex"@ ==> #[trigger] json_get(ov@, k) == json_get(sv@, k)) && if json_get(sv@, "kodex"@) is Some {
            json_get(ov@, "kodex"@) == json_get(sv@, "kodex"@)
        } else {
            json_get(ov@, "kodex"@) matches Some(e) && is_server_entry(e, bin)
        },
        Some(other) => json_get(b, "mcpServers"@) == Some(other),
        None => json_get(b, "mcpServers"@) matches Some(Json::Object(ov)) && ov@.len() == 1 && ov@[0].0@
            == "kodex"@ && is_server_entry(ov@[0].1, bin),
    }
}

/// What [`install_assistant_config`] does to the settings `a`, giving `b`:
/// a misplaced `mcpServers` key is removed; the `hooks` object (created when
/// missing) gets the write hook running `post_cmd` and the session-start hook
/// unless it has them, `wrote_post` and `wrote_start` telling which were
/// added; other keys, and a `hooks` that is not an object, stay as they are.
pub open spec fn settings_installed(
    a: Seq<(String, Json)>,
    b: Seq<(String, Json)>,
    bin: Seq<char>,
    post_cmd: Seq<char>,
    wrote_post: bool,
    wrote_start: bool,
) -> bool {
    &&& json_get(b, "mcpServers"@) is None
    &&& forall|k: Seq<char>| k != "mcpServers"@ && k != "hooks"@ ==> #[trigger] json_get(b, k) == json_get(a, k)
    &&& match json_get(a, "hooks"@) {
        Some(Json::Object(hv)) => {
            &&& wrote_post == (json_get(hv@, "PostToolUse"@) is None)
            &&& wrote_start == (json_get(hv@, "SessionStart"@) is None)
            &&& hooks_installed(hv@, json_get(b, "hooks"@), bin, post_cmd)
        },
        Some(other) => !wrote_post && !wrote_start && json_get(b, "hooks"@) == Some(other),
        None => wrote_post && wrote_start && hooks_installed(seq![], json_get(b, "hooks"@), bin, post_cmd),
    }
}

/// `h` is the hooks object `hv` with the two hooks added where missing.
pub open spec fn hooks_installed(hv: Seq<(String, Json)>, h: Option<Json>, bin: Seq<char>, post_cmd: Seq<char>) -> bool {
    h matches Some(Json::Object(ov)) && (forall|k: Seq<char>|
        k != "PostToolUse"@ && k != "SessionStart"@ ==> #[trigger] json_get(ov@, k) == json_get(hv, k)) && (if json_get(
        hv,
        "PostToolUse"@,
    ) is Some {
        json_get(ov@, "PostToolUse"@) == json_get(hv, "PostToolUse"@)
    } else {
        json_get(ov@, "PostToolUse"@) matches Some(p) && is_post_hook(p, post_cmd)
    }) && (if json_get(hv, "SessionStart"@) is Some {
        json_get(ov@, "SessionStart"@) == json_get(hv, "SessionStart"@)
    } else {
        json_get(ov@, "SessionStart"@) matches Some(s) && is_start_hook(s, bin)
    })
}

/// Adds the two hooks to a hooks object where missing.
fn add_hooks(h: &mut Vec<(String, Json)>, bin: &str, post_cmd: &str) -> (r: (bool, bool))
    ensures
        r.0 == (json_get(old(h)@, "PostToolUse"@) is None),
        r.1 == (json_get(old(h)@, "SessionStart"@) is None),
        hooks_installed(old(h)@, Some(Json::Object(*final(h))), bin@, post_cmd@),
{
    proof {
        reveal_strlit("PostToolUse");
        reveal_strlit("SessionStart");
        assert("PostToolUse"@[0] != "SessionStart"@[0]);
    }
    let ghost h0 = h@;
    let wrote_post = !has_key(h, "PostToolUse");
    if wrote_post {
        put_key(h, "PostToolUse", post_hook(post_cmd));
    }
    let ghost h1 = h@;
    let wrote_start = !has_key(h, "SessionStart");
    if wrote_start {
        put_key(h, "SessionStart", start_hook(bin));
    }
    assert(json_get(h1, "SessionStart"@) == json_get(h0, "SessionStart"@));
    (wrote_post, wrote_start)
}

/// Register the kodex server (`bin serve` over stdio) in the assistant's
/// user configuration `config` and its hooks in `settings` (see
/// [`config_installed`] and [`settings_installed`]): after each write the
/// command `post_cmd`, and at session start the context of the three most
/// important entries. The caller writes the documents back:
/// the configuration unless the server was registered already, the
/// settings always.
pub fn install_assistant_config(config: Json, settings: Json, bin: &str, post_cmd: &str) -> (r: InstallPlan)
    requires
        config is Object,
        settings is Object,
    ensures
        r.config matches Json::Object(cb) && (config matches Json::Object(ca) && config_installed(
            ca@,
            cb@,
            bin@,
        ) && r.already_registered == server_listed(ca@)),
        r.settings matches Json::Object(sb) && (settings matches Json::Object(sa) && settings_installed(
            sa@,
            sb@,
            bin@,
            post_cmd@,
            r.wrote_post,
            r.wrote_start,
        )),
{
    proof {
        reveal_strlit("mcpServers");
        reveal_strlit("hooks");
        reveal_strlit("kodex");
        assert("mcpServers"@[0] != "hooks"@[0]);
    }
    let mut cfg = match config {
        Json::Object(fs) => fs,
        _ => Vec::new(),
    };
    let ghost c0 = cfg@;
    let servers = take_key(&mut cfg, "mcpServers");
    let mut already = false;
    match servers {
        Some(Json::Object(sv)) => {
            let mut sv = sv;
            let ghost s0 = sv@;
            if has_key(&sv, "kodex") {
                already = true;
            } else {
                put_key(&mut sv, "kodex", server_entry(bin));
            }
            assert(forall|k: Seq<char>| k != "kodex"@ ==> #[trigger] json_get(sv@, k) == json_get(s0, k));
            put_key(&mut cfg, "mcpServers", Json::Object(sv));
        },
        Some(other) => {
            put_key(&mut cfg, "mcpServers", other);
        },
        None => {
            let mut sv: Vec<(String, Json)> = Vec::new();
            sv.push((String::from_str("kodex"), server_entry(bin)));
            put_key(&mut cfg, "mcpServers", Json::Object(sv));
        },
    }
    let mut st = match settings {
        Json::Object(fs) => fs,
        _ => Vec::new(),
    };
    let ghost t0 = st@;
    drop_key(&mut st, "mcpServers");
    let ghost t1 = st@;
    let hooks = take_key(&mut st, "hooks");
    assert(hooks == json_get(t0, "hooks"@));
    let mut wrote_post = false;
    let mut wrote_start = false;
    match hooks {
        Some(Json::Object(h)) => {
            let mut h = h;
            let (p, s) = add_hooks(&mut h, bin, post_cmd);
            wrote_post = p;
            wrote_start = s;
            put_key(&mut st, "hooks", Json::Object(h));
        },
        Some(other) => {
            put_key(&mut st, "hooks", other);
        },
        None => {
            let mut h: Vec<(String, Json)> = Vec::new();
            let (p, s) = add_hooks(&mut h, bin, post_cmd);
            wrote_post = p;
            wrote_start = s;
            put_key(&mut st, "hooks", Json::Object(h));
        },
    }
    InstallPlan {
        config: Json::Object(cfg),
        settings: Json::Object(st),
        already_registered: already,
        wrote_post,
        wrote_start,
    }
}

} // verus!
