//! The label texts: binary names, folder names, git workspace names and the
//! final tab label.

use vstd::prelude::*;
use crate::path::{components, components_of, file_name, file_name_of, same_components, strip_prefix, views};
use crate::text::{chars_of, concat_chars, decimal, push_decimal, string_of, trunc_chars, trunc_seq};

verus! {

/// Components of a name are cut to this many characters.
pub open spec fn component_cap() -> nat {
    12
}

/// Tab labels are cut to this many characters.
pub open spec fn label_cap() -> nat {
    60
}

pub open spec fn spec_fmt_bin(bin: Seq<char>) -> Seq<char> {
    trunc_seq(bin, 12)
}

/// The folder's own name, or the whole path when it has none (`/`, `..`).
pub open spec fn spec_fmt_folder(cwd: Seq<char>) -> Seq<char> {
    trunc_seq(
        match file_name(cwd) {
            Some(f) => f,
            None => cwd,
        },
        12,
    )
}

pub open spec fn root_basename(root: Seq<char>) -> Seq<char> {
    trunc_seq(
        match file_name(root) {
            Some(f) => f,
            None => seq![],
        },
        12,
    )
}

/// `<root>/../<last>`: the workspace root's name and the last component of
/// the path below it; only the root's name when the path is the root itself
/// or does not lie below it.
pub open spec fn spec_fmt_git(cwd: Seq<char>, root: Seq<char>) -> Seq<char> {
    match strip_prefix(cwd, root) {
        Some(rel) => if rel.len() > 0 {
            root_basename(root) + seq!['/', '.', '.', '/'] + trunc_seq(rel.last(), 12)
        } else {
            root_basename(root)
        },
        None => root_basename(root),
    }
}

/// `"<position + 1>: <label>"`, cut to 60 characters.
pub open spec fn spec_fmt_label(position: u32, label: Seq<char>) -> Seq<char> {
    trunc_seq(decimal((position + 1) as nat) + seq![':', ' '] + label, 60)
}

/// The first `max` characters of `s`, or `s` itself when it is shorter.
pub fn trunc(s: &str, max: usize) -> (r: &str)
    ensures
        r@ == trunc_seq(s@, max as nat),
{
    let n = s.unicode_len();
    if n <= max {
        s
    } else {
        s.substring_char(0, max)
    }
}

/// A binary name as it appears in a label: at most 12 characters.
pub fn fmt_bin(bin: &str) -> (r: String)
    ensures
        r@ == spec_fmt_bin(bin@),
{
    trunc(bin, 12).to_owned()
}

/// The folder part of a label: the last path component, at most 12
/// characters.
pub fn fmt_folder(cwd: &str) -> (r: String)
    ensures
        r@ == spec_fmt_folder(cwd@),
{
    let p = chars_of(cwd);
    let name = match file_name_of(&p) {
        Some(f) => f,
        None => p,
    };
    string_of(&trunc_chars(&name, 12))
}

/// The git part of a label for a folder `cwd` inside the workspace `root`.
pub fn fmt_git(cwd: &str, root: &str) -> (r: String)
    ensures
        r@ == spec_fmt_git(cwd@, root@),
{
    let root_chars = chars_of(root);
    let base = match file_name_of(&root_chars) {
        Some(f) => f,
        None => Vec::new(),
    };
    let base = trunc_chars(&base, 12);
    assert(base@ == root_basename(root@));
    let cc = components_of(&chars_of(cwd));
    let rc = components_of(&root_chars);
    let n = rc.len();
    assert(views(rc@).take(n as int) =~= views(rc@));
    if n > cc.len() || !same_components(&cc, &rc, n) {
        assert(!crate::path::is_prefix_of(components(root@), components(cwd@)));
        return string_of(&base);
    }
    assert(views(rc@).take(n as int) =~= views(rc@));
    assert(strip_prefix(cwd@, root@) == Some(components(cwd@).skip(n as int)));
    if cc.len() == n {
        return string_of(&base);
    }
    let last = &cc[cc.len() - 1];
    assert(components(cwd@).skip(n as int).last() == last@);
    let mut sep: Vec<char> = Vec::new();
    sep.push('/');
    sep.push('.');
    sep.push('.');
    sep.push('/');
    assert(sep@ =~= seq!['/', '.', '.', '/']);
    let out = concat_chars(&concat_chars(&base, &sep), &trunc_chars(last, 12));
    string_of(&out)
}

/// The label of the tab at `position`: `"<position + 1>: <label>"`, at most
/// 60 characters.
pub fn fmt_label(position: u32, label: &str) -> (r: String)
    requires
        position < u32::MAX,
    ensures
        r@ == spec_fmt_label(position, label@),
{
    let mut name: Vec<char> = Vec::new();
    push_decimal(&mut name, (position + 1) as u64);
    name.push(':');
    name.push(' ');
    let name = concat_chars(&name, &chars_of(label));
    assert(name@ =~= decimal((position + 1) as nat) + seq![':', ' '] + label@);
    string_of(&trunc_chars(&name, 60))
}

/// Names are cut as the README says: binary and folder names to 12
/// characters, each part of a git name to 12, and whole labels to 60.
pub proof fn lemma_caps(bin: Seq<char>, cwd: Seq<char>, root: Seq<char>, position: u32, label: Seq<char>)
    ensures
        spec_fmt_bin(bin).len() <= component_cap(),
        spec_fmt_folder(cwd).len() <= component_cap(),
        spec_fmt_git(cwd, root).len() <= 2 * component_cap() + 4,
        spec_fmt_label(position, label).len() <= label_cap(),
{
}

/// A folder that is the workspace root itself is named by the root alone.
pub proof fn lemma_git_root_itself(root: Seq<char>)
    ensures
        spec_fmt_git(root, root) == root_basename(root),
{
    assert(components(root).take(components(root).len() as int) =~= components(root));
}

} // verus!
