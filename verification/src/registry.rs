//! The registry of indexed projects, keyed by project name.
use vstd::prelude::*;
use vstd::string::StringExecFns;

use crate::paths::{file_name, path_components, path_join, path_starts_with};

verus! {

/// An indexed project: its (canonical) path, when it was last indexed, and
/// the commit it was indexed at, when known.
#[derive(Debug)]
pub struct ProjectEntry {
    pub path: String,
    pub last_run: u64,
    pub last_indexed_commit: Option<String>,
}

/// The mathematical value of a [`ProjectEntry`].
pub struct ProjectView {
    pub path: Seq<char>,
    pub last_run: u64,
    pub last_indexed_commit: Option<Seq<char>>,
}

impl View for ProjectEntry {
    type V = ProjectView;

    open spec fn view(&self) -> ProjectView {
        ProjectView {
            path: self.path@,
            last_run: self.last_run,
            last_indexed_commit: match self.last_indexed_commit {
                Some(c) => Some(c@),
                None => None,
            },
        }
    }
}

impl ProjectEntry {
    /// A field-by-field copy.
    pub fn duplicate(&self) -> (r: ProjectEntry)
        ensures
            r@ == self@,
    {
        ProjectEntry {
            path: self.path.clone(),
            last_run: self.last_run,
            last_indexed_commit: match &self.last_indexed_commit {
                Some(c) => Some(c.clone()),
                None => None,
            },
        }
    }
}

/// The registry: projects by name, each name once.
#[derive(Debug)]
pub struct Registry {
    pub projects: Vec<(String, ProjectEntry)>,
}

/// The registry's (name, project) pairs.
pub open spec fn registry_view(r: &Registry) -> Seq<(Seq<char>, ProjectView)> {
    Seq::new(r.projects@.len(), |i: int| (r.projects@[i].0@, r.projects@[i].1@))
}

/// The names of the projects.
pub open spec fn registry_keys(r: &Registry) -> Seq<Seq<char>> {
    Seq::new(r.projects@.len(), |i: int| r.projects@[i].0@)
}

impl Registry {
    /// Each project name occurs once.
    pub open spec fn wf(&self) -> bool {
        registry_keys(self).no_duplicates()
    }

    /// An empty registry.
    pub fn new() -> (r: Registry)
        ensures
            r.projects@.len() == 0,
            r.wf(),
    {
        Registry { projects: Vec::new() }
    }
}

/// `home/.kodex`: where the global store and the registry live (`home` is the
/// user's home directory, `.` when unknown).
pub fn kodex_home(home: &str) -> (r: String)
    ensures
        r@ == path_join(home@, ".kodex"@),
{
    crate::paths::join_path(home, ".kodex")
}

/// The path of the global knowledge store under the home directory `home`.
pub fn global_db(home: &str) -> (r: String)
    ensures
        r@ == path_join(path_join(home@, ".kodex"@), "kodex.db"@),
{
    let h = kodex_home(home);
    crate::paths::join_path(h.as_str(), "kodex.db")
}

/// The text of an optional string.
pub open spec fn opt_text(o: Option<String>) -> Option<Seq<char>> {
    match o {
        Some(c) => Some(c@),
        None => None,
    }
}

/// The registry key of a project path: its file name, or `unknown`.
pub open spec fn project_key(path: Seq<char>) -> Seq<char> {
    match file_name(path) {
        Some(n) => n,
        None => "unknown"@,
    }
}

/// The position of the project named `k`, or -1.
pub open spec fn key_pos(r: &Registry, k: Seq<char>) -> int {
    crate::seqs::first_where(registry_keys(r), crate::graph::is_id(k))
}

fn find_key(r: &Registry, k: &str) -> (i: Option<usize>)
    ensures
        match i {
            Some(i) => i < r.projects@.len() && i as int == key_pos(r, k@),
            None => key_pos(r, k@) == -1,
        },
{
    let ghost keys = registry_keys(r);
    let ghost p = crate::graph::is_id(k@);
    let n = r.projects.len();
    for i in 0..n
        invariant
            n == r.projects@.len(),
            keys == registry_keys(r),
            p == crate::graph::is_id(k@),
            forall|j: int| 0 <= j < i ==> !p(#[trigger] keys[j]),
    {
        if crate::text::str_eq(r.projects[i].0.as_str(), k) {
            proof {
                crate::seqs::lemma_first_where_is(keys, p, i as int);
            }
            return Some(i);
        }
    }
    proof {
        crate::seqs::lemma_first_where_is(keys, p, -1);
    }
    None
}

/// The registry `b` is `a` with the project at `path` recorded under `key`
/// as indexed at `now` at commit `head`: the entry of that key replaced, or a
/// new one added at the end.
pub open spec fn registered(
    a: &Registry,
    b: &Registry,
    path: Seq<char>,
    head: Option<Seq<char>>,
    now: u64,
    key: Seq<char>,
) -> bool {
    let e = ProjectView { path, last_run: now, last_indexed_commit: head };
    let k = key_pos(a, key);
    registry_view(b) == if k >= 0 {
        registry_view(a).update(k, (key, e))
    } else {
        registry_view(a).push((key, e))
    }
}

/// Record the project at the canonical path `canonical` as indexed at `now`
/// at commit `head`, under its key (see [`project_key`]): the entry of that
/// key is replaced, or a new one is added at the end. Returns the key.
pub fn register_at(reg: &mut Registry, canonical: &str, head: Option<String>, now: u64) -> (r: String)
    requires
        old(reg).wf(),
    ensures
        final(reg).wf(),
        r@ == project_key(canonical@),
        registered(old(reg), final(reg), canonical@, opt_text(head), now, r@),
{
    let key = match crate::paths::file_name_of(canonical) {
        Some(n) => n,
        None => {
            proof {
                reveal_strlit("unknown");
            }
            String::from_str("unknown")
        },
    };
    let entry = ProjectEntry { path: String::from_str(canonical), last_run: now, last_indexed_commit: head };
    let ghost before = *reg;
    proof {
        crate::seqs::lemma_first_where(registry_keys(reg), crate::graph::is_id(key@));
    }
    match find_key(reg, key.as_str()) {
        Some(i) => {
            reg.projects.set(i, (key.clone(), entry));
            assert(registry_view(reg) =~= registry_view(&before).update(i as int, (key@, entry@)));
            assert(registry_keys(reg) =~= registry_keys(&before));
        },
        None => {
            reg.projects.push((key.clone(), entry));
            assert(registry_view(reg) =~= registry_view(&before).push((key@, entry@)));
            assert(registry_keys(reg) =~= registry_keys(&before).push(key@));
            assert forall|j: int| 0 <= j < registry_keys(&before).len() implies registry_keys(&before)[j]
                != key@ by {
                assert(!crate::graph::is_id(key@)(registry_keys(&before)[j]));
            }
        },
    }
    key
}

/// [`register_at`] at the current time.
pub fn register(reg: &mut Registry, canonical: &str, head: Option<String>) -> (r: String)
    requires
        old(reg).wf(),
    ensures
        final(reg).wf(),
        r@ == project_key(canonical@),
        exists|now: u64| #[trigger] registered(old(reg), final(reg), canonical@, opt_text(head), now, r@),
{
    let now = crate::learn::unix_now();
    register_at(reg, canonical, head, now)
}

/// The commit the project has moved to since it was indexed: `None` when no
/// commit was recorded, the current commit is unknown, or they are the same.
pub fn drift(entry: &ProjectEntry, current_head: Option<&str>) -> (r: Option<String>)
    ensures
        match r {
            Some(c) => entry@.last_indexed_commit is Some && current_head is Some && c@
                == current_head.unwrap()@ && current_head.unwrap()@ != entry@.last_indexed_commit.unwrap(),
            None => entry@.last_indexed_commit is None || current_head is None || current_head.unwrap()@
                == entry@.last_indexed_commit.unwrap(),
        },
{
    let stored = match &entry.last_indexed_commit {
        Some(s) => s,
        None => return None,
    };
    let current = match current_head {
        Some(c) => c,
        None => return None,
    };
    if crate::text::str_eq(current, stored.as_str()) {
        None
    } else {
        Some(String::from_str(current))
    }
}

/// The first project whose path is exactly `canonical`, or -1.
pub open spec fn direct_pos(r: &Registry, canonical: Seq<char>) -> int {
    crate::seqs::first_where(
        registry_view(r),
        |e: (Seq<char>, ProjectView)| e.1.path == canonical,
    )
}

/// Project `i` encloses the directory `canonical`.
pub open spec fn encloses(r: &Registry, canonical: Seq<char>, i: int) -> bool {
    0 <= i < r.projects@.len() && path_starts_with(canonical, r.projects@[i].1.path@)
}

/// Project `i` is the deepest enclosing project (the last of the deepest in
/// registry order).
pub open spec fn deepest_enclosing(r: &Registry, canonical: Seq<char>, i: int) -> bool {
    &&& encloses(r, canonical, i)
    &&& forall|j: int|
        encloses(r, canonical, j) ==> path_components(r.projects@[j].1.path@).len() < path_components(
            r.projects@[i].1.path@,
        ).len() || (path_components(r.projects@[j].1.path@).len() == path_components(
            r.projects@[i].1.path@,
        ).len() && j <= i)
}

/// The project a directory belongs to: the project at exactly that path if
/// any, else the enclosing project with the deepest path.
pub fn entry_for_dir(reg: &Registry, canonical: &str) -> (r: Option<ProjectEntry>)
    ensures
        direct_pos(reg, canonical@) >= 0 ==> r == Some(reg.projects@[direct_pos(reg, canonical@)].1)
            || (r is Some && r.unwrap()@ == reg.projects@[direct_pos(reg, canonical@)].1@),
        direct_pos(reg, canonical@) == -1 ==> match r {
            Some(e) => exists|i: int| deepest_enclosing(reg, canonical@, i) && e@ == reg.projects@[i].1@,
            None => forall|i: int| !encloses(reg, canonical@, i),
        },
{
    let ghost rv = registry_view(reg);
    let ghost p = |e: (Seq<char>, ProjectView)| e.1.path == canonical@;
    let n = reg.projects.len();
    for i in 0..n
        invariant
            n == reg.projects@.len(),
            rv == registry_view(reg),
            p == (|e: (Seq<char>, ProjectView)| e.1.path == canonical@),
            forall|j: int| 0 <= j < i ==> !p(#[trigger] rv[j]),
    {
        assert(rv[i as int].1 == reg.projects@[i as int].1@);
        if crate::text::str_eq(reg.projects[i].1.path.as_str(), canonical) {
            proof {
                crate::seqs::lemma_first_where_is(rv, p, i as int);
            }
            return Some(reg.projects[i].1.duplicate());
        }
    }
    proof {
        crate::seqs::lemma_first_where_is(rv, p, -1);
    }
    let mut best: Option<usize> = None;
    let mut best_count: usize = 0;
    for i in 0..n
        invariant
            n == reg.projects@.len(),
            match best {
                Some(b) => b < i && encloses(reg, canonical@, b as int) && best_count
                    == path_components(reg.projects@[b as int].1.path@).len() && forall|j: int|
                    0 <= j < i && encloses(reg, canonical@, j) ==> path_components(
                        reg.projects@[j].1.path@,
                    ).len() < best_count || (path_components(reg.projects@[j].1.path@).len()
                        == best_count && j <= b),
                None => forall|j: int| 0 <= j < i ==> !encloses(reg, canonical@, j),
            },
    {
        let e = &reg.projects[i].1;
        if crate::paths::starts_with_path(canonical, e.path.as_str()) {
            let c = crate::paths::component_count(e.path.as_str());
            match best {
                Some(b) => {
                    if c >= best_count {
                        best = Some(i);
                        best_count = c;
                    }
                },
                None => {
                    best = Some(i);
                    best_count = c;
                },
            }
        }
    }
    match best {
        Some(b) => {
            assert(deepest_enclosing(reg, canonical@, b as int));
            Some(reg.projects[b].1.duplicate())
        },
        None => None,
    }
}

/// The last-run times of the projects, as sort keys.
pub open spec fn run_keys(r: &Registry) -> Seq<u128> {
    Seq::new(r.projects@.len(), |i: int| r.projects@[i].1.last_run as u128)
}

/// All projects, most recently run first (ties in registry order).
pub fn list(reg: &Registry) -> (r: Vec<(String, ProjectEntry)>)
    ensures
        exists|ord: Seq<usize>|
            #[trigger] crate::sort::stable_desc_order(run_keys(reg), ord) && r@.len() == ord.len()
                && forall|i: int|
                0 <= i < r@.len() ==> r@[i].0@ == reg.projects@[ord[i] as int].0@ && r@[i].1@
                    == reg.projects@[ord[i] as int].1@,
{
    let mut keys: Vec<u128> = Vec::new();
    let n = reg.projects.len();
    for i in 0..n
        invariant
            n == reg.projects@.len(),
            keys@.len() == i,
            forall|j: int| 0 <= j < i ==> keys@[j] == run_keys(reg)[j],
    {
        keys.push(reg.projects[i].1.last_run as u128);
    }
    assert(keys@ =~= run_keys(reg));
    let ord = crate::sort::stable_order_desc(&keys);
    let mut out: Vec<(String, ProjectEntry)> = Vec::new();
    for i in 0..n
        invariant
            n == reg.projects@.len(),
            crate::sort::stable_desc_order(keys@, ord@),
            keys@.len() == n,
            out@.len() == i,
            forall|j: int|
                0 <= j < i ==> (#[trigger] out@[j]).0@ == reg.projects@[ord@[j] as int].0@ && out@[j].1@
                    == reg.projects@[ord@[j] as int].1@,
    {
        let k = ord[i];
        out.push((reg.projects[k].0.clone(), reg.projects[k].1.duplicate()));
    }
    out
}

} // verus!
