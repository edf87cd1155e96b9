//! The git workspace of a folder, found by asking `git` once and remembered.

use vstd::prelude::*;
use crate::formatter::{fmt_folder, fmt_git, root_basename, spec_fmt_folder, spec_fmt_git};
use crate::manifest::Permission;
use crate::path::{components, is_prefix_of, lemma_trailing_slash_same_path, same_path, same_path_chars, strip_prefix};
use crate::text::trunc_seq;
use crate::text::{chars_of, string_of};

verus! {

/// A request to run `git rev-parse --show-toplevel` in `path`, whose answer
/// comes back as a command result carrying the context below.
#[derive(Debug)]
pub struct GitRootQuery {
    pub path: String,
}

impl GitRootQuery {
    /// The command line to run.
    pub fn command(&self) -> (r: Vec<String>)
        ensures
            r@.len() == 3,
            r@[0]@ == "git"@,
            r@[1]@ == "rev-parse"@,
            r@[2]@ == "--show-toplevel"@,
    {
        let mut r: Vec<String> = Vec::new();
        r.push("git".to_owned());
        r.push("rev-parse".to_owned());
        r.push("--show-toplevel".to_owned());
        r
    }

    /// The folder to run it in.
    pub fn cwd(&self) -> (r: String)
        ensures
            r@ == self.path@,
    {
        self.path.clone()
    }

    /// The context that comes back with the result, as key-value pairs in
    /// ascending key order.
    pub fn context(&self) -> (r: Vec<(String, String)>)
        ensures
            r@.len() == 3,
            r@[0].0@ == "fn"@,
            r@[0].1@ == "get_git_ws"@,
            r@[1].0@ == "path"@,
            r@[1].1@ == self.path@,
            r@[2].0@ == "plugin"@,
            r@[2].1@ == "tiptab"@,
    {
        let mut r: Vec<(String, String)> = Vec::new();
        r.push(("fn".to_owned(), "get_git_ws".to_owned()));
        r.push(("path".to_owned(), self.path.clone()));
        r.push(("plugin".to_owned(), "tiptab".to_owned()));
        r
    }
}

/// What is known of one folder's workspace: its root, or that it has none.
#[derive(Debug)]
pub struct CacheEntry {
    pub path: String,
    pub root: Option<String>,
}

pub open spec fn opt_text(o: Option<String>) -> Option<Seq<char>> {
    match o {
        Some(s) => Some(s@),
        None => None,
    }
}

pub open spec fn is_first_match(c: Seq<CacheEntry>, p: Seq<char>, i: int) -> bool {
    &&& 0 <= i < c.len()
    &&& same_path(c[i].path@, p)
    &&& forall|j: int| 0 <= j < i ==> !same_path(#[trigger] c[j].path@, p)
}

/// Where the entry for `p` stands: the first entry naming the same path.
pub open spec fn find_entry(c: Seq<CacheEntry>, p: Seq<char>) -> Option<int> {
    if exists|i: int| is_first_match(c, p, i) {
        Some(choose|i: int| is_first_match(c, p, i))
    } else {
        None
    }
}

/// What the cache knows of `p`: `None` when nothing, `Some(None)` when `p`
/// is in no workspace, `Some(Some(root))` when it is in the one at `root`.
pub open spec fn cached(c: Seq<CacheEntry>, p: Seq<char>) -> Option<Option<Seq<char>>> {
    match find_entry(c, p) {
        Some(i) => Some(opt_text(c[i].root)),
        None => None,
    }
}

/// The git part of a label for `cwd`: known only once the cache knows the
/// workspace's root; `None` when that part would be empty.
pub open spec fn spec_git_name(c: Seq<CacheEntry>, cwd: Seq<char>) -> Option<Seq<char>> {
    match cached(c, cwd) {
        Some(Some(root)) => {
            let n = spec_fmt_git(cwd, root);
            if n.len() == 0 {
                None
            } else {
                Some(n)
            }
        },
        _ => None,
    }
}

/// The queries a lookup of `p` sends: one when the cache knows nothing of
/// `p` and the plugin may run commands.
pub open spec fn lookup_queries(c: Seq<CacheEntry>, p: Seq<char>, permissions: Option<Permission>) -> Seq<Seq<char>> {
    if cached(c, p) is None && permissions == Some(Permission::Granted) {
        seq![p]
    } else {
        seq![]
    }
}

pub open spec fn query_paths(q: Seq<GitRootQuery>) -> Seq<Seq<char>> {
    q.map_values(|x: GitRootQuery| x.path@)
}

/// The folder part of a label: `~` for the home folder (any path that
/// names it), else the folder's name.
pub open spec fn spec_folder_name(cwd: Seq<char>, home_dir: Option<Seq<char>>) -> Seq<char> {
    match home_dir {
        Some(h) => if same_path(cwd, h) {
            seq!['~']
        } else {
            spec_fmt_folder(cwd)
        },
        None => spec_fmt_folder(cwd),
    }
}

pub proof fn lemma_first_match_unique(c: Seq<CacheEntry>, p: Seq<char>, i: int, k: int)
    requires
        is_first_match(c, p, i),
        is_first_match(c, p, k),
    ensures
        i == k,
{
    if i < k {
        assert(!same_path(c[i].path@, p));
    } else if k < i {
        assert(!same_path(c[k].path@, p));
    }
}

proof fn lemma_first_exists(c: Seq<CacheEntry>, p: Seq<char>, j: int)
    requires
        0 <= j < c.len(),
        same_path(c[j].path@, p),
    ensures
        exists|i: int| is_first_match(c, p, i),
    decreases j,
{
    if forall|k: int| 0 <= k < j ==> !same_path(#[trigger] c[k].path@, p) {
        assert(is_first_match(c, p, j));
    } else {
        let k = choose|k: int| 0 <= k < j && same_path(#[trigger] c[k].path@, p);
        lemma_first_exists(c, p, k);
    }
}

proof fn lemma_find_at(c: Seq<CacheEntry>, p: Seq<char>, i: int)
    requires
        is_first_match(c, p, i),
    ensures
        find_entry(c, p) == Some(i),
{
    let k = choose|k: int| is_first_match(c, p, k);
    lemma_first_match_unique(c, p, i, k);
}

proof fn lemma_find_none(c: Seq<CacheEntry>, p: Seq<char>)
    requires
        forall|j: int| 0 <= j < c.len() ==> !same_path(#[trigger] c[j].path@, p),
    ensures
        find_entry(c, p) is None,
{
    if exists|k: int| is_first_match(c, p, k) {
        let k = choose|k: int| is_first_match(c, p, k);
        assert(same_path(c[k].path@, p));
    }
}

proof fn lemma_find_facts(c: Seq<CacheEntry>, p: Seq<char>)
    ensures
        find_entry(c, p) matches Some(i) ==> is_first_match(c, p, i),
        find_entry(c, p) is None ==> forall|j: int| 0 <= j < c.len() ==> !same_path(#[trigger] c[j].path@, p),
{
    if find_entry(c, p) is None {
        assert forall|j: int| 0 <= j < c.len() implies !same_path(#[trigger] c[j].path@, p) by {
            if same_path(c[j].path@, p) {
                lemma_first_exists(c, p, j);
            }
        }
    }
}

proof fn lemma_find_same_query(c: Seq<CacheEntry>, a: Seq<char>, b: Seq<char>)
    requires
        same_path(a, b),
    ensures
        find_entry(c, a) == find_entry(c, b),
{
    lemma_find_facts(c, a);
    lemma_find_facts(c, b);
    if let Some(i) = find_entry(c, a) {
        assert(is_first_match(c, b, i));
        lemma_find_at(c, b, i);
    } else {
        lemma_find_none(c, b);
    }
}

proof fn lemma_find_same_paths(a: Seq<CacheEntry>, b: Seq<CacheEntry>, q: Seq<char>)
    requires
        a.len() == b.len(),
        forall|k: int| 0 <= k < a.len() ==> (#[trigger] a[k]).path@ == b[k].path@,
    ensures
        find_entry(a, q) == find_entry(b, q),
{
    lemma_find_facts(a, q);
    match find_entry(a, q) {
        Some(i) => {
            assert forall|j: int| 0 <= j < i implies !same_path(#[trigger] b[j].path@, q) by {
                assert(a[j].path@ == b[j].path@);
                assert(!same_path(a[j].path@, q));
            }
            assert(a[i].path@ == b[i].path@);
            lemma_find_at(b, q, i);
        },
        None => {
            assert forall|j: int| 0 <= j < b.len() implies !same_path(#[trigger] b[j].path@, q) by {
                assert(a[j].path@ == b[j].path@);
                assert(!same_path(a[j].path@, q));
            }
            lemma_find_none(b, q);
        },
    }
}

proof fn lemma_find_push(c: Seq<CacheEntry>, e: CacheEntry, q: Seq<char>)
    ensures
        find_entry(c, q) is Some ==> find_entry(c.push(e), q) == find_entry(c, q),
        find_entry(c, q) is None && same_path(e.path@, q) ==> find_entry(c.push(e), q) == Some(c.len() as int),
        find_entry(c, q) is None && !same_path(e.path@, q) ==> find_entry(c.push(e), q) is None,
{
    let d = c.push(e);
    lemma_find_facts(c, q);
    match find_entry(c, q) {
        Some(i) => {
            assert forall|j: int| 0 <= j < i implies !same_path(#[trigger] d[j].path@, q) by {
                assert(d[j] == c[j]);
            }
            assert(d[i] == c[i]);
            lemma_find_at(d, q, i);
        },
        None => {
            assert forall|j: int| 0 <= j < c.len() implies !same_path(#[trigger] d[j].path@, q) by {
                assert(d[j] == c[j]);
            }
            if same_path(e.path@, q) {
                assert(d[c.len() as int] == e);
                lemma_find_at(d, q, c.len() as int);
            } else {
                assert forall|j: int| 0 <= j < d.len() implies !same_path(#[trigger] d[j].path@, q) by {
                    if j < c.len() {
                        assert(d[j] == c[j]);
                    }
                }
                lemma_find_none(d, q);
            }
        },
    }
}

/// Once the cache knows a folder, looking it up again runs no command.
pub proof fn lemma_known_path_sends_no_query(c: Seq<CacheEntry>, p: Seq<char>, permissions: Option<Permission>)
    requires
        cached(c, p) is Some,
    ensures
        lookup_queries(c, p, permissions).len() == 0,
{
}

/// The home folder is named `~`, whether the folder or the configured home
/// is written with a trailing `/` or without (for a home that is not empty).
pub proof fn lemma_home_is_tilde(home: Seq<char>)
    requires
        home.len() > 0,
    ensures
        spec_folder_name(home, Some(home)) == seq!['~'],
        spec_folder_name(home.push('/'), Some(home)) == seq!['~'],
        spec_folder_name(home, Some(home.push('/'))) == seq!['~'],
{
    lemma_trailing_slash_same_path(home);
}

/// The workspaces found so far.
pub struct ParentSeeker {
    pub git_cache: Vec<CacheEntry>,
}

impl ParentSeeker {
    pub open spec fn entries(&self) -> Seq<CacheEntry> {
        self.git_cache@
    }

    /// Nothing known yet.
    pub fn new() -> (r: Self)
        ensures
            r.entries() == Seq::<CacheEntry>::empty(),
    {
        ParentSeeker { git_cache: Vec::new() }
    }

    /// Where the entry for `path` stands, if there is one.
    fn position_of(&self, path: &Vec<char>) -> (r: Option<usize>)
        ensures
            r is Some <==> find_entry(self.entries(), path@) is Some,
            r matches Some(i) ==> find_entry(self.entries(), path@) == Some(i as int),
    {
        let mut i: usize = 0;
        while i < self.git_cache.len()
            invariant
                i <= self.git_cache.len(),
                forall|j: int| 0 <= j < i ==> !same_path(#[trigger] self.git_cache@[j].path@, path@),
            decreases self.git_cache.len() - i,
        {
            if same_path_chars(&chars_of(self.git_cache[i].path.as_str()), path) {
                assert(is_first_match(self.entries(), path@, i as int));
                proof {
                    let k = choose|k: int| is_first_match(self.entries(), path@, k);
                    lemma_first_match_unique(self.entries(), path@, i as int, k);
                }
                return Some(i);
            }
            i = i + 1;
        }
        proof {
            lemma_find_none(self.entries(), path@);
        }
        None
    }

    /// The workspace root of `path`, when it is known. When nothing is known
    /// of `path` and the plugin may run commands, a query for it goes to
    /// `queries`.
    pub fn get_git_ws(&self, path: &str, permissions: Option<Permission>, queries: &mut Vec<GitRootQuery>) -> (r: Option<String>)
        ensures
            opt_text(r) == match cached(self.entries(), path@) {
                Some(known) => known,
                None => None,
            },
            query_paths(final(queries)@) == query_paths(old(queries)@) + lookup_queries(self.entries(), path@, permissions),
    {
        let p = chars_of(path);
        match self.position_of(&p) {
            Some(i) => {
                assert(query_paths(queries@) =~= query_paths(queries@) + Seq::<Seq<char>>::empty());
                self.git_cache[i].root.clone()
            },
            None => {
                let ghost q0 = queries@;
                match permissions {
                    Some(Permission::Granted) => {
                        queries.push(GitRootQuery { path: path.to_owned() });
                        assert(query_paths(queries@) =~= query_paths(q0) + seq![path@]);
                    },
                    _ => {
                        assert(query_paths(queries@) =~= query_paths(q0) + Seq::<Seq<char>>::empty());
                    },
                }
                None
            },
        }
    }

    /// The git part of the label for `cwd`, once its workspace is known.
    pub fn git_name(&self, cwd: &str, permissions: Option<Permission>, queries: &mut Vec<GitRootQuery>) -> (r: Option<String>)
        ensures
            opt_text(r) == spec_git_name(self.entries(), cwd@),
            query_paths(final(queries)@) == query_paths(old(queries)@) + lookup_queries(self.entries(), cwd@, permissions),
    {
        let root = self.get_git_ws(cwd, permissions, queries);
        match root {
            Some(root) => {
                let name = fmt_git(cwd, root.as_str());
                if name.as_str().is_empty() {
                    None
                } else {
                    Some(name)
                }
            },
            None => None,
        }
    }

    /// The folder part of a label: `~` when `cwd` names the home folder
    /// (as a path: a trailing `/` on either aside), else the folder's name.
    pub fn folder_name(cwd: &str, home_dir: Option<&str>) -> (r: String)
        ensures
            r@ == spec_folder_name(cwd@, match home_dir {
                Some(h) => Some(h@),
                None => None,
            }),
    {
        if let Some(home) = home_dir {
            if same_path_chars(&chars_of(cwd), &chars_of(home)) {
                let mut t: Vec<char> = Vec::new();
                t.push('~');
                assert(t@ =~= seq!['~']);
                return string_of(&t);
            }
        }
        fmt_folder(cwd)
    }

    /// Records what `git` answered for `path`: its workspace root, or that
    /// it has none.
    pub fn remember(&mut self, path: &str, root: Option<String>)
        ensures
            cached(final(self).entries(), path@) == Some(opt_text(root)),
            forall|q: Seq<char>| #[trigger] cached(final(self).entries(), q) == if same_path(q, path@) {
                Some(opt_text(root))
            } else {
                cached(old(self).entries(), q)
            },
            match find_entry(old(self).entries(), path@) {
                Some(i) => {
                    &&& final(self).entries().len() == old(self).entries().len()
                    &&& final(self).entries()[i].path@ == old(self).entries()[i].path@
                    &&& final(self).entries()[i].root == root
                    &&& forall|j: int| 0 <= j < old(self).entries().len() && j != i ==> #[trigger] final(self).entries()[j] == old(self).entries()[j]
                },
                None => {
                    &&& final(self).entries().len() == old(self).entries().len() + 1
                    &&& final(self).entries().last().path@ == path@
                    &&& final(self).entries().last().root == root
                    &&& forall|j: int| 0 <= j < old(self).entries().len() ==> #[trigger] final(self).entries()[j] == old(self).entries()[j]
                },
            },
    {
        let p = chars_of(path);
        let ghost old_entries = self.entries();

        match self.position_of(&p) {
            Some(i) => {
                let entry = CacheEntry { path: self.git_cache[i].path.clone(), root };
                self.git_cache.set(i, entry);
                proof {
                    let new_entries = self.entries();
                    assert(new_entries == old_entries.update(i as int, entry));
                    assert forall|k: int| 0 <= k < old_entries.len() implies (#[trigger] old_entries[k]).path@ == new_entries[k].path@ by {
                        if k == i {
                            assert(new_entries[k] == entry);
                        }
                    }
                    lemma_find_facts(old_entries, p@);
                    assert forall|q: Seq<char>| !same_path(q, path@) implies cached(new_entries, q) == cached(old_entries, q) by {
                        lemma_find_same_paths(old_entries, new_entries, q);
                        lemma_find_facts(old_entries, q);
                        if let Some(j) = find_entry(old_entries, q) {
                            if j == i {
                                assert(same_path(old_entries[i as int].path@, q));
                                assert(same_path(old_entries[i as int].path@, path@));
                            }
                        }
                    }
                    lemma_find_same_paths(old_entries, new_entries, p@);
                }
            },
            None => {
                let entry = CacheEntry { path: path.to_owned(), root };
                self.git_cache.push(entry);
                proof {
                    assert(self.entries() == old_entries.push(entry));
                    assert(same_path(entry.path@, path@));
                    lemma_find_push(old_entries, entry, p@);
                    assert forall|q: Seq<char>| !same_path(q, path@) implies cached(self.entries(), q) == cached(old_entries, q) by {
                        lemma_find_push(old_entries, entry, q);
                    }
                }
            },
        }
        assert forall|q: Seq<char>| same_path(q, path@) implies #[trigger] cached(self.entries(), q) == cached(self.entries(), path@) by {
            lemma_find_same_query(self.entries(), q, path@);
        }
    }
}

impl Default for ParentSeeker {
    fn default() -> (r: Self)
        ensures
            r.entries() == Seq::<CacheEntry>::empty(),
    {
        Self::new()
    }
}

/// The git part of a folder's label: nothing until the cache knows a root
/// for the folder; then the root's name and the folder's last component
/// below it (`<root>/../<last>`), however deep the folder lies below the
/// root, or the root's name alone for the root itself; nothing when that
/// text is empty.
pub proof fn lemma_git_name(c: Seq<CacheEntry>, cwd: Seq<char>)
    ensures
        !(cached(c, cwd) matches Some(Some(_))) ==> spec_git_name(c, cwd) is None,
        cached(c, cwd) matches Some(Some(root)) ==> {
            &&& spec_fmt_git(cwd, root).len() > 0 ==> spec_git_name(c, cwd) == Some(spec_fmt_git(cwd, root))
            &&& spec_fmt_git(cwd, root).len() == 0 ==> spec_git_name(c, cwd) is None
            &&& (is_prefix_of(components(root), components(cwd)) && components(root).len() < components(cwd).len())
                ==> spec_git_name(c, cwd) == Some(
                root_basename(root) + seq!['/', '.', '.', '/'] + trunc_seq(components(cwd).last(), 12),
            )
        },
{
    if let Some(Some(root)) = cached(c, cwd) {
        let pc = components(cwd);
        let bc = components(root);
        if is_prefix_of(bc, pc) && bc.len() < pc.len() {
            let rel = pc.skip(bc.len() as int);
            assert(strip_prefix(cwd, root) == Some(rel));
            assert(rel.last() == pc.last());
            let n = root_basename(root) + seq!['/', '.', '.', '/'] + trunc_seq(pc.last(), 12);
            assert(n.len() >= 4);
            assert(spec_fmt_git(cwd, root) == n);
        }
    }
}

} // verus!
