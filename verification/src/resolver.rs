//! Which label each tab gets, and which tabs to rename.

use std::collections::BTreeMap;
use vstd::prelude::*;
use crate::bin_parser::{ingested, is_real_bin, spec_binary_name, BinParser, Records};
use crate::formatter::{fmt_bin, fmt_label, spec_fmt_bin, spec_fmt_label};
use crate::manifest::{is_shown, lemma_text_map_insert, text_map, Pane, PaneManifest, Permission, Tab};
use crate::parent_seek::{lookup_queries, opt_text, query_paths, spec_folder_name, spec_git_name, CacheEntry, GitRootQuery, ParentSeeker};
use crate::text::{chars_eq, chars_of, concat_chars, hook_prefix, hook_prefix_chars, starts_with, starts_with_chars, string_of, trim, trim_chars};
use crate::validation::{is_default_tab_name, spec_is_default_tab_name};

verus! {

pub open spec fn opt_str(o: Option<&str>) -> Option<Seq<char>> {
    match o {
        Some(s) => Some(s@),
        None => None,
    }
}

/// A name from a command line (its program, cut to 12 characters), else
/// from the git workspace, else from the folder.
pub open spec fn spec_format_name(
    command: Seq<char>,
    cwd: Seq<char>,
    cache: Seq<CacheEntry>,
    home_dir: Option<Seq<char>>,
) -> Seq<char> {
    match spec_binary_name(command) {
        Some(n) => spec_fmt_bin(n),
        None => match spec_git_name(cache, cwd) {
            Some(g) => g,
            None => spec_folder_name(cwd, home_dir),
        },
    }
}

/// The queries that naming a folder sends: the workspace lookup's, unless
/// the command line already gave a name.
pub open spec fn format_name_queries(
    command: Seq<char>,
    cwd: Seq<char>,
    cache: Seq<CacheEntry>,
    permissions: Option<Permission>,
) -> Seq<Seq<char>> {
    if spec_binary_name(command) is Some {
        seq![]
    } else {
        lookup_queries(cache, cwd, permissions)
    }
}

/// The panes of the first group listed for `position`.
pub open spec fn panes_at(gs: Seq<(usize, Vec<Pane>)>, position: usize) -> Option<Seq<Pane>>
    decreases gs.len(),
{
    if gs.len() == 0 {
        None
    } else if gs[0].0 == position {
        Some(gs[0].1@)
    } else {
        panes_at(gs.drop_first(), position)
    }
}

/// The recorded program of the first shown pane that has one that is not a
/// hook helper.
pub open spec fn first_pane_command(ps: Seq<Pane>, terms: Map<u32, Seq<char>>) -> Option<Seq<char>>
    decreases ps.len(),
{
    if ps.len() == 0 {
        None
    } else if is_shown(ps[0]) && terms.contains_key(ps[0].id) && !starts_with(
        terms[ps[0].id],
        hook_prefix(),
    ) {
        Some(terms[ps[0].id])
    } else {
        first_pane_command(ps.drop_first(), terms)
    }
}

pub open spec fn tab_key(tab: Tab) -> u64 {
    tab.tab_id as u64
}

/// A tab's label, by precedence: `*` and the foreground binary the hook
/// reported; the git workspace or folder the hook reported; the program a
/// pane of the tab was started with; `loading...`.
pub open spec fn spec_label(
    tab: Tab,
    rec: Records,
    cache: Seq<CacheEntry>,
    panes: PaneManifest,
    home_dir: Option<Seq<char>>,
) -> Seq<char> {
    let id = tab_key(tab);
    if rec.cmds.contains_key(id) {
        seq!['*'] + rec.cmds[id]
    } else if rec.dirs.contains_key(id) {
        spec_format_name(seq![], rec.dirs[id], cache, home_dir)
    } else {
        match panes_at(panes.panes@, tab.position) {
            Some(ps) => match first_pane_command(ps, rec.terms) {
                Some(b) => b,
                None => "loading..."@,
            },
            None => "loading..."@,
        }
    }
}

/// The queries that labelling a tab sends.
pub open spec fn label_queries(
    tab: Tab,
    rec: Records,
    cache: Seq<CacheEntry>,
    permissions: Option<Permission>,
) -> Seq<Seq<char>> {
    let id = tab_key(tab);
    if !rec.cmds.contains_key(id) && rec.dirs.contains_key(id) {
        lookup_queries(cache, rec.dirs[id], permissions)
    } else {
        seq![]
    }
}

/// The labels applied so far, the renames decided so far and the queries
/// sent so far.
pub struct OrganizeState {
    pub applied: Map<u64, Seq<char>>,
    pub pending: Map<u64, Seq<char>>,
    pub queries: Seq<Seq<char>>,
}

/// What one tab does to the state. The first tab is left alone. Another tab
/// is renamed to its label when it carries the label last applied to it, or
/// a default name, and its label changed (whitespace at the ends aside).
pub open spec fn organize_step(
    st: OrganizeState,
    tab: Tab,
    rec: Records,
    cache: Seq<CacheEntry>,
    panes: PaneManifest,
    permissions: Option<Permission>,
    home_dir: Option<Seq<char>>,
) -> OrganizeState {
    if tab.position == 0 {
        st
    } else {
        let id = tab_key(tab);
        let name = spec_fmt_label(tab.position as u32, spec_label(tab, rec, cache, panes, home_dir));
        let queries = st.queries + label_queries(tab, rec, cache, permissions);
        let managed = st.applied.contains_key(id) && trim(st.applied[id]) == trim(tab.name@);
        let is_default = spec_is_default_tab_name(tab.name@);
        let unchanged = st.applied.contains_key(id) && trim(st.applied[id]) == trim(name);
        if (managed || is_default) && !unchanged {
            OrganizeState {
                applied: st.applied.insert(id, name),
                pending: st.pending.insert(id, name),
                queries,
            }
        } else {
            OrganizeState { queries, ..st }
        }
    }
}

pub open spec fn organize_fold(
    st: OrganizeState,
    tabs: Seq<Tab>,
    rec: Records,
    cache: Seq<CacheEntry>,
    panes: PaneManifest,
    permissions: Option<Permission>,
    home_dir: Option<Seq<char>>,
) -> OrganizeState
    decreases tabs.len(),
{
    if tabs.len() == 0 {
        st
    } else {
        organize_step(
            organize_fold(st, tabs.drop_last(), rec, cache, panes, permissions, home_dir),
            tabs.last(),
            rec,
            cache,
            panes,
            permissions,
            home_dir,
        )
    }
}

/// Positions whose label number `position + 1` fits in a `u32`.
pub open spec fn labels_fit(tabs: Seq<Tab>) -> bool {
    forall|i: int| 0 <= i < tabs.len() ==> ((#[trigger] tabs[i]).position as u32) < u32::MAX
}

/// A name for a folder: from `terminal_command` when it names a program
/// (cut to 12 characters), else the git workspace of `cwd`, else `cwd`'s
/// folder name.
pub fn format_name(
    terminal_command: &str,
    cwd: &str,
    seeker: &ParentSeeker,
    permissions: Option<Permission>,
    home_dir: Option<&str>,
    queries: &mut Vec<GitRootQuery>,
) -> (r: String)
    ensures
        r@ == spec_format_name(terminal_command@, cwd@, seeker.entries(), opt_str(home_dir)),
        query_paths(final(queries)@) == query_paths(old(queries)@) + format_name_queries(
            terminal_command@,
            cwd@,
            seeker.entries(),
            permissions,
        ),
{
    if let Some(name) = BinParser::binary_name(terminal_command) {
        assert(query_paths(queries@) =~= query_paths(queries@) + Seq::<Seq<char>>::empty());
        return fmt_bin(name.as_str());
    }
    if let Some(name) = seeker.git_name(cwd, permissions, queries) {
        return name;
    }
    ParentSeeker::folder_name(cwd, home_dir)
}

proof fn lemma_no_binary_in_empty()
    ensures
        spec_binary_name(seq![]) is None,
{
    let e: Seq<char> = seq![];
    assert(crate::text::trim_start(e) == e);
    assert(crate::text::trim_end(e) == e);
}

/// The label of a tab, by precedence: `*` and the foreground binary the
/// hook reported; the git workspace or folder the hook reported; the
/// program a pane of the tab was started with; `loading...`.
#[verifier::loop_isolation(false)]
pub fn resolve_label_smart(
    tab: &Tab,
    parser: &BinParser,
    seeker: &ParentSeeker,
    panes: &PaneManifest,
    permissions: Option<Permission>,
    home_dir: Option<&str>,
    queries: &mut Vec<GitRootQuery>,
) -> (r: String)
    ensures
        r@ == spec_label(*tab, parser.records(), seeker.entries(), *panes, opt_str(home_dir)),
        query_paths(final(queries)@) == query_paths(old(queries)@) + label_queries(
            *tab,
            parser.records(),
            seeker.entries(),
            permissions,
        ),
{
    let id = tab.tab_id as u64;
    if let Some(bin) = parser.tab_cmds.get(&id) {
        assert(parser.records().cmds.contains_key(id));
        let mut star: Vec<char> = Vec::new();
        star.push('*');
        let label = concat_chars(&star, &chars_of(bin.as_str()));
        assert(label@ =~= seq!['*'] + parser.records().cmds[id]);
        assert(query_paths(queries@) =~= query_paths(queries@) + Seq::<Seq<char>>::empty());
        return string_of(&label);
    }
    if let Some(cwd) = parser.tab_dirs.get(&id) {
        proof {
            lemma_no_binary_in_empty();
            reveal_strlit("");
        }
        return format_name("", cwd.as_str(), seeker, permissions, home_dir, queries);
    }
    assert(query_paths(queries@) =~= query_paths(queries@) + Seq::<Seq<char>>::empty());
    let hook = hook_prefix_chars();
    let mut g: usize = 0;
    assert(panes.panes@.skip(0) =~= panes.panes@);
    while g < panes.panes.len()
        invariant
            g <= panes.panes.len(),
            panes_at(panes.panes@, tab.position) == panes_at(panes.panes@.skip(g as int), tab.position),
        decreases panes.panes.len() - g,
    {
        assert(panes.panes@.skip(g as int).drop_first() =~= panes.panes@.skip(g + 1));
        if panes.panes[g].0 == tab.position {
            let group = &panes.panes[g].1;
            assert(panes_at(panes.panes@, tab.position) == Some(group@));
            let mut i: usize = 0;
            assert(group@.skip(0) =~= group@);
            while i < group.len()
                invariant
                    i <= group.len(),
                    hook@ == hook_prefix(),
                    first_pane_command(group@, parser.terms()) == first_pane_command(
                        group@.skip(i as int),
                        parser.terms(),
                    ),
                decreases group.len() - i,
            {
                assert(group@.skip(i as int).drop_first() =~= group@.skip(i + 1));
                let pane = &group[i];
                if !pane.is_plugin && !pane.is_suppressed {
                    if let Some(bin) = parser.term_cmds.get(&pane.id) {
                        if !starts_with_chars(&chars_of(bin.as_str()), &hook) {
                            return bin.clone();
                        }
                    }
                }
                i = i + 1;
            }
            return "loading...".to_owned();
        }
        g = g + 1;
    }
    "loading...".to_owned()
}

/// Labels every tab but the first. A tab that carries the label last
/// applied to it, or a default name, and whose label changed, is renamed:
/// the new name goes to `pending_renames` and becomes its applied label.
/// Labelling asks for the git workspaces it does not know yet.
pub fn organize(
    tabs: &[Tab],
    pending_renames: &mut BTreeMap<u64, String>,
    parser: &mut BinParser,
    seeker: &ParentSeeker,
    panes: &PaneManifest,
    permissions: Option<Permission>,
    home_dir: Option<&str>,
    queries: &mut Vec<GitRootQuery>,
)
    requires
        labels_fit(tabs@),
    ensures
        ({
            let st = organize_fold(
                OrganizeState {
                    applied: old(parser).applied(),
                    pending: text_map(old(pending_renames)@),
                    queries: query_paths(old(queries)@),
                },
                tabs@,
                old(parser).records(),
                seeker.entries(),
                *panes,
                permissions,
                opt_str(home_dir),
            );
            &&& final(parser).applied() == st.applied
            &&& text_map(final(pending_renames)@) == st.pending
            &&& query_paths(final(queries)@) == st.queries
        }),
        final(parser).dirs() == old(parser).dirs(),
        final(parser).cmds() == old(parser).cmds(),
        final(parser).terms() == old(parser).terms(),
        final(parser).tab_ongoing@ == old(parser).tab_ongoing@,
{
    let ghost p0 = *parser;
    let ghost st0 = OrganizeState {
        applied: parser.applied(),
        pending: text_map(pending_renames@),
        queries: query_paths(queries@),
    };
    let mut i: usize = 0;
    while i < tabs.len()
        invariant
            i <= tabs.len(),
            labels_fit(tabs@),
            parser.dirs() == p0.dirs(),
            parser.records().cmds == p0.cmds(),
            parser.terms() == p0.terms(),
            parser.tab_ongoing@ == p0.tab_ongoing@,
            ({
                let st = organize_fold(st0, tabs@.take(i as int), p0.records(), seeker.entries(), *panes, permissions, opt_str(home_dir));
                &&& parser.applied() == st.applied
                &&& text_map(pending_renames@) == st.pending
                &&& query_paths(queries@) == st.queries
            }),
        decreases tabs.len() - i,
    {
        let tab = &tabs[i];
        assert(tabs@.take(i + 1).drop_last() =~= tabs@.take(i as int));
        assert(tabs@.take(i + 1).last() == *tab);
        if tab.position != 0 {
            let tab_id = tab.tab_id as u64;
            let label = resolve_label_smart(tab, parser, seeker, panes, permissions, home_dir, queries);
            assert(parser.records() == p0.records());
            assert(((tabs@[i as int]).position as u32) < u32::MAX);
            let name = fmt_label(tab.position as u32, label.as_str());
            let name_trim = trim_chars(&chars_of(name.as_str()));
            let managed = match parser.applied_labels.get(&tab_id) {
                Some(applied) => chars_eq(&trim_chars(&chars_of(applied.as_str())), &trim_chars(&chars_of(tab.name.as_str()))),
                None => false,
            };
            let is_default = is_default_tab_name(tab.name.as_str());
            if managed || is_default {
                let unchanged = match parser.applied_labels.get(&tab_id) {
                    Some(applied) => chars_eq(&trim_chars(&chars_of(applied.as_str())), &name_trim),
                    None => false,
                };
                if !unchanged {
                    proof {
                        lemma_text_map_insert(pending_renames@, tab_id, name);
                        lemma_text_map_insert(parser.applied_labels@, tab_id, name);
                    }
                    pending_renames.insert(tab_id, name.clone());
                    parser.applied_labels.insert(tab_id, name);
                }
            }
        }
        i = i + 1;
    }
    assert(tabs@.take(tabs.len() as int) =~= tabs@);
}

/// After the shell hook reports a foreground binary for a tab, the tab is
/// labelled `*` and that binary (trimmed, cut to 12 characters); when the
/// binary is blank or a hook helper, it is labelled by the reported folder:
/// its git workspace when known, else its folder name.
pub proof fn lemma_reported_binary_names_tab(
    rec: Records,
    tab: Tab,
    pwd: Seq<char>,
    bin: Seq<char>,
    cache: Seq<CacheEntry>,
    panes: PaneManifest,
    home_dir: Option<Seq<char>>,
)
    ensures
        ({
            let b = spec_fmt_bin(trim(bin));
            let label = spec_label(tab, ingested(rec, tab_key(tab), pwd, bin), cache, panes, home_dir);
            if is_real_bin(b) {
                label == seq!['*'] + b
            } else {
                label == match spec_git_name(cache, pwd) {
                    Some(g) => g,
                    None => spec_folder_name(pwd, home_dir),
                }
            }
        }),
{
    lemma_no_binary_in_empty();
}

/// Every tab id occurs once.
pub open spec fn unique_tab_keys(tabs: Seq<Tab>) -> bool {
    forall|i: int, j: int| 0 <= i < j < tabs.len() ==> tab_key(#[trigger] tabs[i]) != tab_key(#[trigger] tabs[j])
}

/// A tab that labelling would leave alone, given the applied labels.
pub open spec fn settled(
    applied: Map<u64, Seq<char>>,
    tab: Tab,
    rec: Records,
    cache: Seq<CacheEntry>,
    panes: PaneManifest,
    home_dir: Option<Seq<char>>,
) -> bool {
    tab.position == 0 || {
        let id = tab_key(tab);
        let name = spec_fmt_label(tab.position as u32, spec_label(tab, rec, cache, panes, home_dir));
        let managed = applied.contains_key(id) && trim(applied[id]) == trim(tab.name@);
        let is_default = spec_is_default_tab_name(tab.name@);
        let unchanged = applied.contains_key(id) && trim(applied[id]) == trim(name);
        !((managed || is_default) && !unchanged)
    }
}

proof fn lemma_fold_of_settled(
    st: OrganizeState,
    tabs: Seq<Tab>,
    rec: Records,
    cache: Seq<CacheEntry>,
    panes: PaneManifest,
    permissions: Option<Permission>,
    home_dir: Option<Seq<char>>,
)
    requires
        forall|i: int| 0 <= i < tabs.len() ==> settled(st.applied, #[trigger] tabs[i], rec, cache, panes, home_dir),
    ensures
        organize_fold(st, tabs, rec, cache, panes, permissions, home_dir).applied == st.applied,
        organize_fold(st, tabs, rec, cache, panes, permissions, home_dir).pending == st.pending,
    decreases tabs.len(),
{
    if tabs.len() > 0 {
        let front = tabs.drop_last();
        assert forall|i: int| 0 <= i < front.len() implies settled(st.applied, #[trigger] front[i], rec, cache, panes, home_dir) by {
            assert(front[i] == tabs[i]);
        }
        lemma_fold_of_settled(st, front, rec, cache, panes, permissions, home_dir);
        assert(settled(st.applied, tabs[tabs.len() - 1], rec, cache, panes, home_dir));
    }
}

proof fn lemma_fold_keeps_key(
    st: OrganizeState,
    tabs: Seq<Tab>,
    rec: Records,
    cache: Seq<CacheEntry>,
    panes: PaneManifest,
    permissions: Option<Permission>,
    home_dir: Option<Seq<char>>,
    id: u64,
)
    requires
        forall|i: int| 0 <= i < tabs.len() ==> tab_key(#[trigger] tabs[i]) != id,
    ensures
        organize_fold(st, tabs, rec, cache, panes, permissions, home_dir).applied.contains_key(id) == st.applied.contains_key(id),
        st.applied.contains_key(id) ==> organize_fold(st, tabs, rec, cache, panes, permissions, home_dir).applied[id] == st.applied[id],
        organize_fold(st, tabs, rec, cache, panes, permissions, home_dir).pending.contains_key(id) == st.pending.contains_key(id),
        st.pending.contains_key(id) ==> organize_fold(st, tabs, rec, cache, panes, permissions, home_dir).pending[id] == st.pending[id],
    decreases tabs.len(),
{
    if tabs.len() > 0 {
        let front = tabs.drop_last();
        assert forall|i: int| 0 <= i < front.len() implies tab_key(#[trigger] front[i]) != id by {
            assert(front[i] == tabs[i]);
        }
        lemma_fold_keeps_key(st, front, rec, cache, panes, permissions, home_dir, id);
        assert(tab_key(tabs[tabs.len() - 1]) != id);
    }
}

proof fn lemma_fold_settles_all(
    st: OrganizeState,
    tabs: Seq<Tab>,
    rec: Records,
    cache: Seq<CacheEntry>,
    panes: PaneManifest,
    permissions: Option<Permission>,
    home_dir: Option<Seq<char>>,
)
    requires
        unique_tab_keys(tabs),
    ensures
        forall|i: int| 0 <= i < tabs.len() ==> settled(
            organize_fold(st, tabs, rec, cache, panes, permissions, home_dir).applied,
            #[trigger] tabs[i],
            rec,
            cache,
            panes,
            home_dir,
        ),
    decreases tabs.len(),
{
    if tabs.len() > 0 {
        let n = tabs.len() - 1;
        let front = tabs.drop_last();
        let last = tabs[n];
        assert(unique_tab_keys(front)) by {
            assert forall|i: int, j: int| 0 <= i < j < front.len() implies tab_key(#[trigger] front[i]) != tab_key(#[trigger] front[j]) by {
                assert(front[i] == tabs[i]);
                assert(front[j] == tabs[j]);
            }
        }
        lemma_fold_settles_all(st, front, rec, cache, panes, permissions, home_dir);
        let b = organize_fold(st, front, rec, cache, panes, permissions, home_dir);
        let c = organize_fold(st, tabs, rec, cache, panes, permissions, home_dir);
        assert(c == organize_step(b, last, rec, cache, panes, permissions, home_dir));
        assert forall|i: int| 0 <= i < tabs.len() implies settled(c.applied, #[trigger] tabs[i], rec, cache, panes, home_dir) by {
            if i < n {
                assert(front[i] == tabs[i]);
                assert(settled(b.applied, front[i], rec, cache, panes, home_dir));
                assert(tab_key(tabs[i]) != tab_key(tabs[n]));
                let id = tab_key(tabs[i]);
                assert(c.applied.contains_key(id) == b.applied.contains_key(id));
                assert(b.applied.contains_key(id) ==> c.applied[id] == b.applied[id]);
            }
        }
    }
}

/// Labelling twice in a row, with nothing else changed in between, renames
/// nothing the second time: whatever renames were pending before each pass,
/// the second pass adds none and leaves the applied labels as the first
/// pass left them (when no two tabs share an id).
pub proof fn lemma_organize_settles(
    applied: Map<u64, Seq<char>>,
    pending1: Map<u64, Seq<char>>,
    queries1: Seq<Seq<char>>,
    pending2: Map<u64, Seq<char>>,
    queries2: Seq<Seq<char>>,
    tabs: Seq<Tab>,
    rec: Records,
    cache: Seq<CacheEntry>,
    panes: PaneManifest,
    permissions: Option<Permission>,
    home_dir: Option<Seq<char>>,
)
    requires
        unique_tab_keys(tabs),
    ensures
        ({
            let first = organize_fold(
                OrganizeState { applied, pending: pending1, queries: queries1 },
                tabs,
                rec,
                cache,
                panes,
                permissions,
                home_dir,
            );
            let second = organize_fold(
                OrganizeState { applied: first.applied, pending: pending2, queries: queries2 },
                tabs,
                rec,
                cache,
                panes,
                permissions,
                home_dir,
            );
            &&& second.pending == pending2
            &&& second.applied == first.applied
        }),
{
    let st = OrganizeState { applied, pending: pending1, queries: queries1 };
    lemma_fold_settles_all(st, tabs, rec, cache, panes, permissions, home_dir);
    let first = organize_fold(st, tabs, rec, cache, panes, permissions, home_dir);
    lemma_fold_of_settled(
        OrganizeState { applied: first.applied, pending: pending2, queries: queries2 },
        tabs,
        rec,
        cache,
        panes,
        permissions,
        home_dir,
    );
}

/// A tab that carries a name of the user's own (neither a default name nor
/// the label last applied to it) is never renamed.
pub proof fn lemma_user_names_kept(
    st: OrganizeState,
    tabs: Seq<Tab>,
    rec: Records,
    cache: Seq<CacheEntry>,
    panes: PaneManifest,
    permissions: Option<Permission>,
    home_dir: Option<Seq<char>>,
    k: int,
)
    requires
        unique_tab_keys(tabs),
        0 <= k < tabs.len(),
        !spec_is_default_tab_name(tabs[k].name@),
        !(st.applied.contains_key(tab_key(tabs[k])) && trim(st.applied[tab_key(tabs[k])]) == trim(tabs[k].name@)),
        !st.pending.contains_key(tab_key(tabs[k])),
    ensures
        !organize_fold(st, tabs, rec, cache, panes, permissions, home_dir).pending.contains_key(tab_key(tabs[k])),
    decreases tabs.len(),
{
    let n = tabs.len() - 1;
    let front = tabs.drop_last();
    let id = tab_key(tabs[k]);
    if k < n {
        assert(front[k] == tabs[k]);
        assert(unique_tab_keys(front)) by {
            assert forall|i: int, j: int| 0 <= i < j < front.len() implies tab_key(#[trigger] front[i]) != tab_key(#[trigger] front[j]) by {
                assert(front[i] == tabs[i]);
                assert(front[j] == tabs[j]);
            }
        }
        lemma_user_names_kept(st, front, rec, cache, panes, permissions, home_dir, k);
        assert(tab_key(tabs[n]) != id);
    } else {
        assert forall|i: int| 0 <= i < front.len() implies tab_key(#[trigger] front[i]) != id by {
            assert(front[i] == tabs[i]);
        }
        lemma_fold_keeps_key(st, front, rec, cache, panes, permissions, home_dir, id);
    }
}

/// A shown pane with a recorded program that is not a hook helper.
pub open spec fn shows_command(p: Pane, terms: Map<u32, Seq<char>>) -> bool {
    is_shown(p) && terms.contains_key(p.id) && !starts_with(terms[p.id], hook_prefix())
}

proof fn lemma_panes_at(gs: Seq<(usize, Vec<Pane>)>, position: usize)
    ensures
        match panes_at(gs, position) {
            Some(ps) => exists|g: int| {
                &&& 0 <= g < gs.len()
                &&& (#[trigger] gs[g]).0 == position
                &&& gs[g].1@ == ps
                &&& forall|h: int| 0 <= h < g ==> gs[h].0 != position
            },
            None => forall|g: int| 0 <= g < gs.len() ==> (#[trigger] gs[g]).0 != position,
        },
    decreases gs.len(),
{
    if gs.len() > 0 {
        let t = gs.drop_first();
        lemma_panes_at(t, position);
        if gs[0].0 == position {
            assert(gs[0].0 == position);
        } else {
            match panes_at(t, position) {
                Some(ps) => {
                    let g = choose|g: int| {
                        &&& 0 <= g < t.len()
                        &&& (#[trigger] t[g]).0 == position
                        &&& t[g].1@ == ps
                        &&& forall|h: int| 0 <= h < g ==> t[h].0 != position
                    };
                    assert(gs[g + 1] == t[g]);
                    assert forall|h: int| 0 <= h < g + 1 implies gs[h].0 != position by {
                        if h > 0 {
                            assert(gs[h] == t[h - 1]);
                        }
                    }
                },
                None => {
                    assert forall|g: int| 0 <= g < gs.len() implies (#[trigger] gs[g]).0 != position by {
                        if g > 0 {
                            assert(gs[g] == t[g - 1]);
                        }
                    }
                },
            }
        }
    }
}

proof fn lemma_first_pane_command(ps: Seq<Pane>, terms: Map<u32, Seq<char>>)
    ensures
        match first_pane_command(ps, terms) {
            Some(c) => exists|k: int| {
                &&& 0 <= k < ps.len()
                &&& shows_command(#[trigger] ps[k], terms)
                &&& c == terms[ps[k].id]
                &&& forall|j: int| 0 <= j < k ==> !shows_command(ps[j], terms)
            },
            None => forall|k: int| 0 <= k < ps.len() ==> !shows_command(#[trigger] ps[k], terms),
        },
    decreases ps.len(),
{
    if ps.len() > 0 {
        let t = ps.drop_first();
        lemma_first_pane_command(t, terms);
        if shows_command(ps[0], terms) {
            assert(shows_command(ps[0], terms));
        } else {
            match first_pane_command(t, terms) {
                Some(c) => {
                    let k = choose|k: int| {
                        &&& 0 <= k < t.len()
                        &&& shows_command(#[trigger] t[k], terms)
                        &&& c == terms[t[k].id]
                        &&& forall|j: int| 0 <= j < k ==> !shows_command(t[j], terms)
                    };
                    assert(ps[k + 1] == t[k]);
                    assert forall|j: int| 0 <= j < k + 1 implies !shows_command(ps[j], terms) by {
                        if j > 0 {
                            assert(ps[j] == t[j - 1]);
                        }
                    }
                },
                None => {
                    assert forall|k: int| 0 <= k < ps.len() implies !shows_command(#[trigger] ps[k], terms) by {
                        if k > 0 {
                            assert(ps[k] == t[k - 1]);
                        }
                    }
                },
            }
        }
    }
}

/// With nothing reported by the hook for a tab, its label comes from the
/// panes of the first group at its position: the recorded program of the
/// first shown pane that has one that is not a hook helper (panes without
/// one are passed over); `loading...` when no such pane, or no such group,
/// is there.
pub proof fn lemma_label_from_panes(
    tab: Tab,
    rec: Records,
    cache: Seq<CacheEntry>,
    panes: PaneManifest,
    home_dir: Option<Seq<char>>,
)
    requires
        !rec.cmds.contains_key(tab_key(tab)),
        !rec.dirs.contains_key(tab_key(tab)),
    ensures
        ({
            let label = spec_label(tab, rec, cache, panes, home_dir);
            let gs = panes.panes@;
            &&& (forall|g: int| 0 <= g < gs.len() ==> (#[trigger] gs[g]).0 != tab.position) ==> label == "loading..."@
            &&& forall|g: int| 0 <= g < gs.len() && (#[trigger] gs[g]).0 == tab.position && (forall|h: int| 0 <= h < g ==> gs[h].0 != tab.position) ==> {
                let ps = gs[g].1@;
                &&& (forall|k: int| 0 <= k < ps.len() ==> !shows_command(#[trigger] ps[k], rec.terms)) ==> label == "loading..."@
                &&& (exists|k: int| 0 <= k < ps.len() && shows_command(#[trigger] ps[k], rec.terms)) ==> exists|k: int| {
                    &&& 0 <= k < ps.len()
                    &&& shows_command(#[trigger] ps[k], rec.terms)
                    &&& label == rec.terms[ps[k].id]
                    &&& forall|j: int| 0 <= j < k ==> !shows_command(ps[j], rec.terms)
                }
            }
        }),
{
    let gs = panes.panes@;
    let label = spec_label(tab, rec, cache, panes, home_dir);
    lemma_panes_at(gs, tab.position);
    match panes_at(gs, tab.position) {
        Some(ps0) => {
            let g0 = choose|g: int| {
                &&& 0 <= g < gs.len()
                &&& (#[trigger] gs[g]).0 == tab.position
                &&& gs[g].1@ == ps0
                &&& forall|h: int| 0 <= h < g ==> gs[h].0 != tab.position
            };
            lemma_first_pane_command(ps0, rec.terms);
            assert forall|g: int| 0 <= g < gs.len() && (#[trigger] gs[g]).0 == tab.position && (forall|h: int| 0 <= h < g ==> gs[h].0 != tab.position) implies g == g0 by {
                if g < g0 {
                    assert(gs[g].0 != tab.position);
                } else if g > g0 {
                    assert(gs[g0].0 != tab.position);
                }
            }
            match first_pane_command(ps0, rec.terms) {
                Some(c) => {
                    let k = choose|k: int| {
                        &&& 0 <= k < ps0.len()
                        &&& shows_command(#[trigger] ps0[k], rec.terms)
                        &&& c == rec.terms[ps0[k].id]
                        &&& forall|j: int| 0 <= j < k ==> !shows_command(ps0[j], rec.terms)
                    };
                    assert(shows_command(ps0[k], rec.terms));
                },
                None => {},
            }
        },
        None => {},
    }
}

/// A tab past the first that carries a default name and has had no label
/// applied yet is renamed to its label, `"<position + 1>: <label>"`, which
/// becomes its applied label; the first tab is never renamed (when no two
/// tabs share an id).
pub proof fn lemma_default_tabs_renamed(
    st: OrganizeState,
    tabs: Seq<Tab>,
    rec: Records,
    cache: Seq<CacheEntry>,
    panes: PaneManifest,
    permissions: Option<Permission>,
    home_dir: Option<Seq<char>>,
    k: int,
)
    requires
        unique_tab_keys(tabs),
        0 <= k < tabs.len(),
    ensures
        ({
            let id = tab_key(tabs[k]);
            let end = organize_fold(st, tabs, rec, cache, panes, permissions, home_dir);
            let name = spec_fmt_label(tabs[k].position as u32, spec_label(tabs[k], rec, cache, panes, home_dir));
            &&& (tabs[k].position != 0 && spec_is_default_tab_name(tabs[k].name@) && !st.applied.contains_key(id)) ==> {
                &&& end.pending.contains_key(id) && end.pending[id] == name
                &&& end.applied.contains_key(id) && end.applied[id] == name
            }
            &&& (tabs[k].position == 0 && !st.pending.contains_key(id)) ==> !end.pending.contains_key(id)
        }),
    decreases tabs.len(),
{
    let n = tabs.len() - 1;
    let front = tabs.drop_last();
    let id = tab_key(tabs[k]);
    if k < n {
        assert(front[k] == tabs[k]);
        assert(unique_tab_keys(front)) by {
            assert forall|i: int, j: int| 0 <= i < j < front.len() implies tab_key(#[trigger] front[i]) != tab_key(#[trigger] front[j]) by {
                assert(front[i] == tabs[i]);
                assert(front[j] == tabs[j]);
            }
        }
        lemma_default_tabs_renamed(st, front, rec, cache, panes, permissions, home_dir, k);
        assert(tab_key(tabs[n]) != id);
    } else {
        assert forall|i: int| 0 <= i < front.len() implies tab_key(#[trigger] front[i]) != id by {
            assert(front[i] == tabs[i]);
        }
        lemma_fold_keeps_key(st, front, rec, cache, panes, permissions, home_dir, id);
    }
}

} // verus!
