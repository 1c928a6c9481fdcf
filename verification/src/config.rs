//! The workspace configuration file: a YAML-like list of projects, an
//! output folder and an optional vault folder.
use vstd::prelude::*;
use vstd::string::StringExecFns;

use crate::text::{lines, starts_with, trim};
use crate::types::{strings_view, KodexError};

verus! {

/// A workspace: the project folders, the output folder and the vault folder.
#[derive(Debug)]
pub struct WorkspaceConfig {
    pub projects: Vec<String>,
    pub output: String,
    pub vault: Option<String>,
}

/// `s` with a leading `~/` standing for the home folder `home`, when known.
pub open spec fn expand_home(s: Seq<char>, home: Option<Seq<char>>) -> Seq<char> {
    match home {
        Some(h) => if starts_with(s, "~/"@) {
            h + s.skip(1)
        } else {
            s
        },
        None => s,
    }
}

/// `s` without any number of leading copies of `p` (std's
/// `trim_start_matches` with a string).
pub open spec fn strip_lead_str(s: Seq<char>, p: Seq<char>) -> Seq<char>
    decreases s.len(),
{
    if p.len() > 0 && starts_with(s, p) {
        strip_lead_str(s.skip(p.len() as int), p)
    } else {
        s
    }
}

/// What reading the lines so far has found.
pub struct ConfigState {
    pub projects: Seq<Seq<char>>,
    pub output: Option<Seq<char>>,
    pub vault: Option<Seq<char>>,
    pub in_projects: bool,
}

/// Reading one line: blank lines and `#` comments are skipped; `projects:`
/// opens the list of projects, whose items are `- path` lines; any other
/// line not starting with `-` closes it; `output:` and `vault:` lines set
/// those folders.
pub open spec fn config_step(st: ConfigState, line: Seq<char>, home: Option<Seq<char>>) -> ConfigState {
    let t = trim(line);
    if t.len() == 0 || starts_with(t, "#"@) {
        st
    } else if starts_with(t, "projects:"@) {
        ConfigState { in_projects: true, ..st }
    } else if st.in_projects && starts_with(t, "- "@) {
        ConfigState { projects: st.projects.push(expand_home(trim(strip_lead_str(t, "- "@)), home)), ..st }
    } else {
        ConfigState {
            projects: st.projects,
            output: if starts_with(t, "output:"@) {
                Some(expand_home(trim(t.skip(7)), home))
            } else {
                st.output
            },
            vault: if starts_with(t, "vault:"@) {
                Some(expand_home(trim(t.skip(6)), home))
            } else {
                st.vault
            },
            in_projects: st.in_projects && starts_with(t, "-"@),
        }
    }
}

/// Reading the lines `ls` in order.
pub open spec fn config_scan(ls: Seq<Seq<char>>, home: Option<Seq<char>>) -> ConfigState
    decreases ls.len(),
{
    if ls.len() == 0 {
        ConfigState { projects: seq![], output: None, vault: None, in_projects: false }
    } else {
        config_step(config_scan(ls.drop_last(), home), ls.last(), home)
    }
}

/// The output folder when the file names none.
pub open spec fn default_output() -> Seq<char> {
    "engram-workspace"@
}

/// The text of an optional string.
pub open spec fn opt_string(o: Option<String>) -> Option<Seq<char>> {
    match o {
        Some(s) => Some(s@),
        None => None,
    }
}

fn strip_lead_str_exec(s: &[char], p: &[char]) -> (r: Vec<char>)
    ensures
        r@ == strip_lead_str(s@, p@),
{
    let mut i: usize = 0;
    let n = s.len();
    let m = p.len();
    assert(s@.skip(0) =~= s@);
    if m == 0 {
        return crate::text::sub_vec(s, 0, n);
    }
    while m <= n - i && crate::text::occurs_at_exec(s, p, i)
        invariant
            i <= n,
            m == p@.len(),
            n == s@.len(),
            m > 0,
            strip_lead_str(s@, p@) == strip_lead_str(s@.skip(i as int), p@),
        decreases n - i,
    {
        assert(starts_with(s@.skip(i as int), p@)) by {
            assert(s@.skip(i as int).take(m as int) =~= s@.subrange(i as int, i + m));
        }
        assert(s@.skip(i as int).skip(m as int) =~= s@.skip(i + m));
        i = i + m;
    }
    if m <= n - i {
        assert(!starts_with(s@.skip(i as int), p@)) by {
            assert(s@.skip(i as int).take(m as int) =~= s@.subrange(i as int, i + m));
        }
    } else {
        assert(!starts_with(s@.skip(i as int), p@));
    }
    crate::text::sub_vec(s, i, n)
}

fn expand_home_exec(s: &[char], home: Option<&str>) -> (r: String)
    ensures
        r@ == expand_home(s@, crate::learn::opt_str(home)),
{
    let tilde = crate::text::str_chars("~/");
    proof {
        reveal_strlit("~/");
    }
    match home {
        Some(h) => {
            if crate::text::starts_with_exec(s, tilde.as_slice()) {
                let mut out = String::from_str(h);
                let rest = crate::text::sub_vec(s, 1, s.len());
                let tail = crate::text::chars_to_string(rest.as_slice());
                out.append(tail.as_str());
                assert(rest@ =~= s@.skip(1));
                out
            } else {
                crate::text::chars_to_string(s)
            }
        },
        None => crate::text::chars_to_string(s),
    }
}

fn starts(t: &Vec<char>, lit: &str) -> (r: bool)
    ensures
        r == starts_with(t@, lit@),
{
    let p = crate::text::str_chars(lit);
    crate::text::starts_with_exec(t.as_slice(), p.as_slice())
}

/// Read a workspace configuration from its text; a leading `~/` in a path
/// stands for `home` when it is known. An error when no project is listed;
/// the output folder is `engram-workspace` when none is named.
pub fn load_config(text: &str, home: Option<&str>) -> (r: Result<WorkspaceConfig, KodexError>)
    ensures
        ({
            let st = config_scan(lines(text@), crate::learn::opt_str(home));
            match r {
                Ok(c) => {
                    &&& st.projects.len() > 0
                    &&& strings_view(c.projects@) == st.projects
                    &&& c.output@ == match st.output {
                        Some(o) => o,
                        None => default_output(),
                    }
                    &&& opt_string(c.vault) == st.vault
                },
                Err(KodexError::Other(m)) => st.projects.len() == 0 && m@ == "No projects listed in workspace config"@,
                Err(_) => false,
            }
        }),
{
    let ghost hv = crate::learn::opt_str(home);
    let cs = crate::text::str_chars(text);
    let ls = crate::text::lines_exec(cs.as_slice());
    let ghost lv = crate::text::vecs_view(ls@);
    let mut projects: Vec<String> = Vec::new();
    let mut output: Option<String> = None;
    let mut vault: Option<String> = None;
    let mut in_projects = false;
    let n = ls.len();
    assert(lv.take(0) =~= Seq::<Seq<char>>::empty());
    assert(strings_view(projects@) =~= Seq::<Seq<char>>::empty());
    for i in 0..n
        invariant
            n == ls@.len(),
            lv == crate::text::vecs_view(ls@),
            lv == lines(text@),
            hv == crate::learn::opt_str(home),
            ({
                let st = config_scan(lv.take(i as int), hv);
                &&& strings_view(projects@) == st.projects
                &&& opt_string(output) == st.output
                &&& opt_string(vault) == st.vault
                &&& in_projects == st.in_projects
            }),
    {
        assert(lv.take(i + 1).drop_last() =~= lv.take(i as int));
        assert(lv.take(i + 1).last() == ls@[i as int]@);
        let t = crate::text::trim_vec(ls[i].as_slice());
        let ghost st0 = config_scan(lv.take(i as int), hv);
        assert(config_scan(lv.take(i + 1), hv) == config_step(st0, ls@[i as int]@, hv));
        assert(t@ == trim(ls@[i as int]@));
        if t.len() == 0 || starts(&t, "#") {
        } else if starts(&t, "projects:") {
            in_projects = true;
        } else if in_projects && starts(&t, "- ") {
            let dash = crate::text::str_chars("- ");
            let stripped = strip_lead_str_exec(t.as_slice(), dash.as_slice());
            let p = crate::text::trim_vec(stripped.as_slice());
            let e = expand_home_exec(p.as_slice(), home);
            let ghost before = strings_view(projects@);
            projects.push(e);
            assert(strings_view(projects@) =~= before.push(e@));
        } else {
            if starts(&t, "output:") {
                proof {
                    reveal_strlit("output:");
                }
                let rest = crate::text::sub_vec(t.as_slice(), 7, t.len());
                let v = crate::text::trim_vec(rest.as_slice());
                assert(rest@ =~= t@.skip(7));
                output = Some(expand_home_exec(v.as_slice(), home));
            }
            if starts(&t, "vault:") {
                proof {
                    reveal_strlit("vault:");
                }
                let rest = crate::text::sub_vec(t.as_slice(), 6, t.len());
                let v = crate::text::trim_vec(rest.as_slice());
                assert(rest@ =~= t@.skip(6));
                vault = Some(expand_home_exec(v.as_slice(), home));
            }
            in_projects = in_projects && starts(&t, "-");
        }
    }
    assert(lv.take(n as int) =~= lv);
    if projects.len() == 0 {
        return Err(KodexError::Other(String::from_str("No projects listed in workspace config")));
    }
    let out = match output {
        Some(o) => o,
        None => String::from_str("engram-workspace"),
    };
    Ok(WorkspaceConfig { projects, output: out, vault })
}

} // verus!
