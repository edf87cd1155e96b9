//! The plugin's decisions: what each event from the multiplexer changes, and
//! which messages and commands it sends in answer. The caller performs them.

use std::collections::BTreeMap;
use vstd::prelude::*;
use vstd::utf8::{decode_utf8, valid_utf8};
use crate::bin_parser::{ingested, is_real_bin, record_groups, BinParser, Records};
use crate::formatter::spec_fmt_bin;
use crate::manifest::{text_map, Pane, PaneManifest, Permission, Tab};
use crate::messages::{json_of_rename, lists_map, rename_payload, sorted_entries, text_or_empty};
use crate::parent_seek::{cached, opt_text, query_paths, GitRootQuery, ParentSeeker};
use crate::resolver::{opt_str, labels_fit, organize, organize_fold, tab_key, OrganizeState};
use crate::text::{chars_eq, chars_of, first_index_of, lemma_first_index_after, lemma_first_index_of, index_of_char, parse_u32, parse_u32_chars, string_of, sub_chars, trim, trim_chars};

verus! {

/// A message for the rename worker.
#[derive(Debug)]
pub struct WorkerMessage {
    pub name: String,
    pub payload: String,
}

/// What the plugin does in answer to an event: the renames it decided (by
/// ascending tab id), the messages that hand them to the worker, and the
/// git queries to run.
pub struct Effects {
    pub renames: Vec<(u64, String)>,
    pub messages: Vec<WorkerMessage>,
    pub queries: Vec<GitRootQuery>,
}

pub open spec fn message_views(m: Seq<WorkerMessage>) -> Seq<(Seq<char>, Seq<char>)> {
    m.map_values(|x: WorkerMessage| (x.name@, x.payload@))
}

/// One `queue-rename` message per rename, then one `execute-renames`; no
/// message at all when there is no rename.
pub open spec fn flush_messages(renames: Seq<(u64, String)>) -> Seq<(Seq<char>, Seq<char>)> {
    if renames.len() == 0 {
        seq![]
    } else {
        renames.map_values(
            |e: (u64, String)| ("queue-rename"@, text_or_empty(json_of_rename(e.0, e.1@))),
        ).push(("execute-renames"@, seq![]))
    }
}

pub open spec fn no_effects(e: Effects) -> bool {
    &&& e.renames@.len() == 0
    &&& e.messages@.len() == 0
    &&& e.queries@.len() == 0
}

/// Labelling every tab from the applied labels `applied`, with nothing
/// decided before.
pub open spec fn flush_result(
    applied: Map<u64, Seq<char>>,
    tabs: Seq<Tab>,
    rec: Records,
    plugin: TipTab,
) -> OrganizeState {
    organize_fold(
        OrganizeState { applied, pending: Map::empty(), queries: seq![] },
        tabs,
        rec,
        plugin.seeker.entries(),
        plugin.panes,
        plugin.permissions,
        opt_text(plugin.home_dir),
    )
}

/// The effects and the new applied labels are those of `st`.
pub open spec fn flushed(e: Effects, applied: Map<u64, Seq<char>>, st: OrganizeState) -> bool {
    &&& applied == st.applied
    &&& lists_map(e.renames@, st.pending)
    &&& message_views(e.messages@) == flush_messages(e.renames@)
    &&& query_paths(e.queries@) == st.queries
}

/// The session named before the first `|` of a pipe payload, and the rest.
pub open spec fn split_session(payload: Seq<char>) -> (Option<Seq<char>>, Seq<char>) {
    match first_index_of(payload, '|') {
        Some(i) => (Some(payload.take(i)), payload.skip(i + 1)),
        None => (None, payload),
    }
}

/// `rest.splitn(3, ' ')` when it gives three fields: a tab position, a
/// working directory and a binary (which may hold spaces).
pub open spec fn pipe_fields(rest: Seq<char>) -> Option<(Seq<char>, Seq<char>, Seq<char>)> {
    match first_index_of(rest, ' ') {
        Some(i) => {
            let r2 = rest.skip(i + 1);
            match first_index_of(r2, ' ') {
                Some(j) => Some((rest.take(i), r2.take(j), r2.skip(j + 1))),
                None => None,
            }
        },
        None => None,
    }
}

/// The first tab at `position`.
pub open spec fn tab_at(tabs: Seq<Tab>, position: usize) -> Option<u64>
    decreases tabs.len(),
{
    if tabs.len() == 0 {
        None
    } else if tabs[0].position == position {
        Some(tab_key(tabs[0]))
    } else {
        tab_at(tabs.drop_first(), position)
    }
}

pub open spec fn has_pane(ps: Seq<Pane>, pane_id: u32) -> bool {
    exists|k: int| 0 <= k < ps.len() && (#[trigger] ps[k]).id == pane_id
}

/// The tab of the first group of panes that holds `pane_id`.
pub open spec fn tab_of_pane(gs: Seq<(usize, Vec<Pane>)>, tabs: Seq<Tab>, pane_id: u32) -> Option<u64>
    decreases gs.len(),
{
    if gs.len() == 0 {
        None
    } else if has_pane(gs[0].1@, pane_id) {
        tab_at(tabs, gs[0].0)
    } else {
        tab_of_pane(gs.drop_first(), tabs, pane_id)
    }
}

/// What a pipe payload reports, when it is for this session and names the
/// position of a known tab: the tab, the working directory and the binary.
pub open spec fn pipe_report(plugin: TipTab, payload: Seq<char>) -> Option<(u64, Seq<char>, Seq<char>)> {
    let (session, rest) = split_session(payload);
    let own = opt_text(plugin.session_name);
    if own is Some && session is Some && own != session {
        None
    } else {
        match pipe_fields(rest) {
            Some((pos, pwd, bin)) => match parse_u32(pos) {
                Some(position) => match tab_at(plugin.tabs@, position as usize) {
                    Some(tab_id) => Some((tab_id, pwd, bin)),
                    None => None,
                },
                None => None,
            },
            None => None,
        }
    }
}

/// The ids of some tabs.
pub open spec fn tab_ids(tabs: Seq<Tab>) -> Set<u64> {
    Set::new(|id: u64| exists|i: int| 0 <= i < tabs.len() && tab_key(#[trigger] tabs[i]) == id)
}

/// The first value stored under `key`.
pub open spec fn context_get(ctx: Seq<(String, String)>, key: Seq<char>) -> Option<Seq<char>>
    decreases ctx.len(),
{
    if ctx.len() == 0 {
        None
    } else if ctx[0].0@ == key {
        Some(ctx[0].1@)
    } else {
        context_get(ctx.drop_first(), key)
    }
}

/// What a command result records: for a result of this plugin's workspace
/// lookup, the path looked up and its root (none when `git` failed).
pub open spec fn command_outcome(
    exit_code: Option<i32>,
    stdout: Seq<u8>,
    ctx: Seq<(String, String)>,
) -> Option<(Seq<char>, Option<Seq<char>>)> {
    if context_get(ctx, "plugin"@) != Some("tiptab"@) || context_get(ctx, "fn"@) != Some("get_git_ws"@) {
        None
    } else {
        match context_get(ctx, "path"@) {
            Some(path) => if exit_code != Some(0i32) {
                Some((path, None))
            } else if valid_utf8(stdout) {
                Some((path, Some(trim(decode_utf8(stdout)))))
            } else {
                None
            },
            None => None,
        }
    }
}

/// `String::from_utf8`: the text the bytes encode, or nothing when they are
/// not UTF-8.
#[verifier::external_body]
fn utf8_text(bytes: Vec<u8>) -> (r: Option<String>)
    ensures
        r is Some <==> valid_utf8(bytes@),
        r matches Some(s) ==> s@ == decode_utf8(bytes@),
{
    String::from_utf8(bytes).ok()
}

fn no_effect() -> (e: Effects)
    ensures
        no_effects(e),
{
    Effects { renames: Vec::new(), messages: Vec::new(), queries: Vec::new() }
}

/// The first session marked current.
pub open spec fn first_current(sessions: Seq<(String, bool)>) -> Option<Seq<char>>
    decreases sessions.len(),
{
    if sessions.len() == 0 {
        None
    } else if sessions[0].1 {
        Some(sessions[0].0@)
    } else {
        first_current(sessions.drop_first())
    }
}

proof fn lemma_tab_ids_push(tabs: Seq<Tab>, i: int)
    requires
        0 <= i < tabs.len(),
    ensures
        tab_ids(tabs.take(i + 1)) == tab_ids(tabs.take(i)).insert(tab_key(tabs[i])),
{
    let a = tab_ids(tabs.take(i + 1));
    let b = tab_ids(tabs.take(i)).insert(tab_key(tabs[i]));
    assert forall|id: u64| a.contains(id) implies b.contains(id) by {
        let k = choose|k: int| 0 <= k < i + 1 && tab_key(#[trigger] tabs.take(i + 1)[k]) == id;
        if k < i {
            assert(tabs.take(i)[k] == tabs.take(i + 1)[k]);
        }
    }
    assert forall|id: u64| b.contains(id) implies a.contains(id) by {
        if id == tab_key(tabs[i]) {
            assert(tabs.take(i + 1)[i] == tabs[i]);
        } else {
            let k = choose|k: int| 0 <= k < i && tab_key(#[trigger] tabs.take(i)[k]) == id;
            assert(tabs.take(i)[k] == tabs.take(i + 1)[k]);
        }
    }
    assert(a =~= b);
}

/// Whether some tab has the id `id`.
fn has_tab_id(tabs: &Vec<Tab>, id: u64) -> (r: bool)
    ensures
        r == tab_ids(tabs@).contains(id),
{
    let mut i: usize = 0;
    while i < tabs.len()
        invariant
            i <= tabs.len(),
            forall|j: int| 0 <= j < i ==> tab_key(#[trigger] tabs@[j]) != id,
        decreases tabs.len() - i,
    {
        if tabs[i].tab_id as u64 == id {
            assert(tab_key(tabs@[i as int]) == id);
            return true;
        }
        i = i + 1;
    }
    false
}

/// The first value stored under `key`.
fn context_value(ctx: &Vec<(String, String)>, key: &str) -> (r: Option<String>)
    ensures
        opt_text(r) == context_get(ctx@, key@),
{
    let k = chars_of(key);
    let mut i: usize = 0;
    assert(ctx@.skip(0) =~= ctx@);
    while i < ctx.len()
        invariant
            i <= ctx.len(),
            k@ == key@,
            context_get(ctx@, key@) == context_get(ctx@.skip(i as int), key@),
        decreases ctx.len() - i,
    {
        assert(ctx@.skip(i as int).drop_first() =~= ctx@.skip(i + 1));
        if chars_eq(&chars_of(ctx[i].0.as_str()), &k) {
            return Some(ctx[i].1.clone());
        }
        i = i + 1;
    }
    None
}

/// The first tab at `position`.
fn find_tab_at(tabs: &Vec<Tab>, position: usize) -> (r: Option<u64>)
    ensures
        r == tab_at(tabs@, position),
{
    let mut i: usize = 0;
    assert(tabs@.skip(0) =~= tabs@);
    while i < tabs.len()
        invariant
            i <= tabs.len(),
            tab_at(tabs@, position) == tab_at(tabs@.skip(i as int), position),
        decreases tabs.len() - i,
    {
        assert(tabs@.skip(i as int).drop_first() =~= tabs@.skip(i + 1));
        if tabs[i].position == position {
            return Some(tabs[i].tab_id as u64);
        }
        i = i + 1;
    }
    None
}

/// What handling a `tiptab` pipe message does: nothing when the payload is
/// missing or reports nothing; else the report is recorded and the tabs are
/// labelled.
pub open spec fn pipe_handled(before: TipTab, after: TipTab, payload: Option<Seq<char>>, r: Effects) -> bool {
    match payload {
        None => unchanged(after, before) && no_effects(r),
        Some(p) => match pipe_report(before, p) {
            None => unchanged(after, before) && no_effects(r),
            Some((tab_id, pwd, bin)) => {
                let rec = ingested(before.parser.records(), tab_id, pwd, bin);
                &&& same_context(after, before)
                &&& after.parser.records() == rec
                &&& after.parser.tab_ongoing@ == if is_real_bin(spec_fmt_bin(trim(bin))) {
                    before.parser.tab_ongoing@.insert(tab_id)
                } else {
                    before.parser.tab_ongoing@.remove(tab_id)
                }
                &&& flushed(r, after.parser.applied(), flush_result(before.parser.applied(), before.tabs@, rec, before))
            },
        },
    }
}

/// The plugin's state.
pub struct TipTab {
    pub tabs: Vec<Tab>,
    pub panes: PaneManifest,
    pub parser: BinParser,
    pub seeker: ParentSeeker,
    pub permissions: Option<Permission>,
    pub home_dir: Option<String>,
    pub session_name: Option<String>,
}

/// `b` holds what `a` holds but for the records and the applied labels.
pub open spec fn same_context(a: TipTab, b: TipTab) -> bool {
    &&& a.tabs@ == b.tabs@
    &&& a.panes == b.panes
    &&& a.seeker.entries() == b.seeker.entries()
    &&& a.permissions == b.permissions
    &&& a.home_dir == b.home_dir
    &&& a.session_name == b.session_name
}

/// Nothing the naming reads has changed.
pub open spec fn unchanged(a: TipTab, b: TipTab) -> bool {
    &&& same_context(a, b)
    &&& a.parser.records() == b.parser.records()
    &&& a.parser.applied() == b.parser.applied()
    &&& a.parser.tab_ongoing@ == b.parser.tab_ongoing@
}

impl TipTab {
    /// Every tab's label number fits in a `u32`.
    pub open spec fn wf(&self) -> bool {
        labels_fit(self.tabs@)
    }

    /// A plugin that knows nothing yet; `home_dir` is the configured home
    /// folder.
    pub fn new(home_dir: Option<String>) -> (r: Self)
        ensures
            r.wf(),
            r.tabs@.len() == 0,
            r.panes.panes@.len() == 0,
            r.parser.records() == (Records { dirs: Map::empty(), cmds: Map::empty(), terms: Map::empty() }),
            r.parser.applied() == Map::<u64, Seq<char>>::empty(),
            r.seeker.entries().len() == 0,
            r.permissions is None,
            r.home_dir == home_dir,
            r.session_name is None,
    {
        TipTab {
            tabs: Vec::new(),
            panes: PaneManifest { panes: Vec::new() },
            parser: BinParser::new(),
            seeker: ParentSeeker::new(),
            permissions: None,
            home_dir,
            session_name: None,
        }
    }

    /// Labels every tab and decides the renames; the renames go to the
    /// worker as one `queue-rename` message each, then `execute-renames`.
    #[verifier::loop_isolation(false)]
    pub fn organize_and_flush(&mut self) -> (r: Effects)
        requires
            old(self).wf(),
        ensures
            final(self).wf(),
            same_context(*final(self), *old(self)),
            final(self).parser.records() == old(self).parser.records(),
            final(self).parser.tab_ongoing@ == old(self).parser.tab_ongoing@,
            flushed(r, final(self).parser.applied(), flush_result(old(self).parser.applied(), old(self).tabs@, old(self).parser.records(), *old(self))),
    {
        let mut pending: BTreeMap<u64, String> = BTreeMap::new();
        let mut queries: Vec<GitRootQuery> = Vec::new();
        let home: Option<&str> = match &self.home_dir {
            Some(h) => Some(h.as_str()),
            None => None,
        };
        assert(text_map(pending@) =~= Map::<u64, Seq<char>>::empty());
        assert(query_paths(queries@) =~= Seq::<Seq<char>>::empty());
        organize(&self.tabs, &mut pending, &mut self.parser, &self.seeker, &self.panes, self.permissions, home, &mut queries);
        let renames = sorted_entries(&pending);
        let mut messages: Vec<WorkerMessage> = Vec::new();
        if renames.len() > 0 {
            let mut i: usize = 0;
            while i < renames.len()
                invariant
                    i <= renames.len(),
                    message_views(messages@) == renames@.take(i as int).map_values(
                        |e: (u64, String)| ("queue-rename"@, text_or_empty(json_of_rename(e.0, e.1@))),
                    ),
                decreases renames.len() - i,
            {
                let payload = rename_payload(renames[i].0, &renames[i].1);
                let ghost m0 = message_views(messages@);
                messages.push(WorkerMessage { name: "queue-rename".to_owned(), payload });
                i = i + 1;
                assert(message_views(messages@) =~= m0.push(("queue-rename"@, payload@)));
                assert(renames@.take(i as int).map_values(
                    |e: (u64, String)| ("queue-rename"@, text_or_empty(json_of_rename(e.0, e.1@))),
                ) =~= renames@.take(i - 1).map_values(
                    |e: (u64, String)| ("queue-rename"@, text_or_empty(json_of_rename(e.0, e.1@))),
                ).push(("queue-rename"@, payload@)));
            }
            let ghost m1 = message_views(messages@);
            messages.push(WorkerMessage { name: "execute-renames".to_owned(), payload: String::new() });
            assert(renames@.take(renames.len() as int) =~= renames@);
            assert(message_views(messages@) =~= m1.push(("execute-renames"@, seq![])));
        } else {
            assert(message_views(messages@) =~= Seq::<(Seq<char>, Seq<char>)>::empty());
        }
        Effects { renames, messages, queries }
    }

    /// The user's answer to the permission request.
    pub fn on_permission_result(&mut self, status: Permission)
        ensures
            final(self).permissions == Some(status),
            final(self).tabs@ == old(self).tabs@,
            final(self).panes == old(self).panes,
            final(self).seeker.entries() == old(self).seeker.entries(),
            final(self).home_dir == old(self).home_dir,
            final(self).session_name == old(self).session_name,
            final(self).parser.records() == old(self).parser.records(),
            final(self).parser.applied() == old(self).parser.applied(),
            final(self).parser.tab_ongoing@ == old(self).parser.tab_ongoing@,
    {
        self.permissions = Some(status);
    }

    /// Learns the current session's name, once: the first session marked
    /// current in `sessions`.
    #[verifier::loop_isolation(false)]
    pub fn adopt_session(&mut self, sessions: &Vec<(String, bool)>)
        ensures
            opt_text(final(self).session_name) == match old(self).session_name {
                Some(s) => Some(s@),
                None => first_current(sessions@),
            },
            final(self).tabs@ == old(self).tabs@,
            final(self).panes == old(self).panes,
            final(self).seeker.entries() == old(self).seeker.entries(),
            final(self).permissions == old(self).permissions,
            final(self).home_dir == old(self).home_dir,
            final(self).parser.records() == old(self).parser.records(),
            final(self).parser.applied() == old(self).parser.applied(),
            final(self).parser.tab_ongoing@ == old(self).parser.tab_ongoing@,
    {
        if self.session_name.is_none() {
            let mut i: usize = 0;
            assert(sessions@.skip(0) =~= sessions@);
            while i < sessions.len()
                invariant
                    *self == *old(self),
                    i <= sessions.len(),
                    first_current(sessions@) == first_current(sessions@.skip(i as int)),
                decreases sessions.len() - i,
            {
                assert(sessions@.skip(i as int).drop_first() =~= sessions@.skip(i + 1));
                if sessions[i].1 {
                    self.session_name = Some(sessions[i].0.clone());
                    return;
                }
                i = i + 1;
            }
        }
    }

    /// The tab of the first group of panes that holds the pane `pane_id`.
    #[verifier::loop_isolation(false)]
    pub fn find_tab_id_for_pane(&self, pane_id: u32) -> (r: Option<u64>)
        ensures
            r == tab_of_pane(self.panes.panes@, self.tabs@, pane_id),
    {
        let gs = &self.panes.panes;
        let mut g: usize = 0;
        assert(gs@.skip(0) =~= gs@);
        while g < gs.len()
            invariant
                g <= gs.len(),
                tab_of_pane(gs@, self.tabs@, pane_id) == tab_of_pane(gs@.skip(g as int), self.tabs@, pane_id),
            decreases gs.len() - g,
        {
            assert(gs@.skip(g as int).drop_first() =~= gs@.skip(g + 1));
            let group = &gs[g].1;
            let mut i: usize = 0;
            while i < group.len()
                invariant
                    i <= group.len(),
                    forall|k: int| 0 <= k < i ==> (#[trigger] group@[k]).id != pane_id,
                decreases group.len() - i,
            {
                if group[i].id == pane_id {
                    assert(has_pane(group@, pane_id));
                    return find_tab_at(&self.tabs, gs[g].0);
                }
                i = i + 1;
            }
            assert(!has_pane(group@, pane_id));
            g = g + 1;
        }
        None
    }

    /// A new pane list: records each shown pane's program, then labels the
    /// tabs.
    pub fn on_pane_update(&mut self, panes: PaneManifest) -> (r: Effects)
        requires
            old(self).wf(),
        ensures
            final(self).wf(),
            final(self).panes == panes,
            final(self).tabs@ == old(self).tabs@,
            final(self).seeker.entries() == old(self).seeker.entries(),
            final(self).permissions == old(self).permissions,
            final(self).home_dir == old(self).home_dir,
            final(self).session_name == old(self).session_name,
            final(self).parser.records() == (Records {
                terms: record_groups(old(self).parser.terms(), panes.panes@),
                ..old(self).parser.records()
            }),
            final(self).parser.tab_ongoing@ == old(self).parser.tab_ongoing@,
            flushed(r, final(self).parser.applied(), flush_result(old(self).parser.applied(), old(self).tabs@, final(self).parser.records(), *final(self))),
    {
        self.panes = panes;
        self.parser.populate_last_cmds(&self.panes);
        self.organize_and_flush()
    }

    /// A new tab list: forgets what was recorded for the tabs that are gone,
    /// then labels the tabs.
    #[verifier::loop_isolation(false)]
    pub fn on_tab_update(&mut self, tabs: Vec<Tab>) -> (r: Effects)
        requires
            labels_fit(tabs@),
        ensures
            final(self).wf(),
            final(self).tabs@ == tabs@,
            final(self).panes == old(self).panes,
            final(self).seeker.entries() == old(self).seeker.entries(),
            final(self).permissions == old(self).permissions,
            final(self).home_dir == old(self).home_dir,
            final(self).session_name == old(self).session_name,
            ({
                let gone = tab_ids(old(self).tabs@).difference(tab_ids(tabs@));
                let rec = old(self).parser.records();
                &&& final(self).parser.records() == (Records {
                    dirs: rec.dirs.remove_keys(gone),
                    cmds: rec.cmds.remove_keys(gone),
                    terms: rec.terms,
                })
                &&& final(self).parser.tab_ongoing@ == old(self).parser.tab_ongoing@.difference(gone)
                &&& flushed(
                    r,
                    final(self).parser.applied(),
                    flush_result(old(self).parser.applied().remove_keys(gone), tabs@, final(self).parser.records(), *final(self)),
                )
            }),
    {
        let ghost old_tabs = self.tabs@;
        let ghost rec0 = self.parser.records();
        let ghost applied0 = self.parser.applied();
        let ghost ongoing0 = self.parser.tab_ongoing@;
        let ghost new_ids = tab_ids(tabs@);
        let mut i: usize = 0;
        assert(tab_ids(old_tabs.take(0)) =~= Set::<u64>::empty());
        assert(rec0.dirs.remove_keys(Set::<u64>::empty()) =~= rec0.dirs);
        assert(rec0.cmds.remove_keys(Set::<u64>::empty()) =~= rec0.cmds);
        assert(applied0.remove_keys(Set::<u64>::empty()) =~= applied0);
        assert(ongoing0.difference(Set::<u64>::empty()) =~= ongoing0);
        assert(tab_ids(old_tabs.take(0)).difference(new_ids) =~= Set::<u64>::empty());
        while i < self.tabs.len()
            invariant
                same_context(*self, *old(self)),
                self.tabs@ == old_tabs,
                i <= old_tabs.len(),
                new_ids == tab_ids(tabs@),
                ({
                    let gone = tab_ids(old_tabs.take(i as int)).difference(new_ids);
                    &&& self.parser.records() == (Records {
                        dirs: rec0.dirs.remove_keys(gone),
                        cmds: rec0.cmds.remove_keys(gone),
                        terms: rec0.terms,
                    })
                    &&& self.parser.applied() == applied0.remove_keys(gone)
                    &&& self.parser.tab_ongoing@ == ongoing0.difference(gone)
                }),
            decreases old_tabs.len() - i,
        {
            let id = self.tabs[i].tab_id as u64;
            let ghost before = tab_ids(old_tabs.take(i as int)).difference(new_ids);
            proof {
                lemma_tab_ids_push(old_tabs, i as int);
            }
            if !has_tab_id(&tabs, id) {
                self.parser.cleanup_tab(id);
                proof {
                    let after = tab_ids(old_tabs.take(i + 1)).difference(new_ids);
                    assert(after =~= before.insert(id));
                    assert(rec0.dirs.remove_keys(after) =~= rec0.dirs.remove_keys(before).remove(id));
                    assert(rec0.cmds.remove_keys(after) =~= rec0.cmds.remove_keys(before).remove(id));
                    assert(applied0.remove_keys(after) =~= applied0.remove_keys(before).remove(id));
                    assert(ongoing0.difference(after) =~= ongoing0.difference(before).remove(id));
                }
            } else {
                proof {
                    let after = tab_ids(old_tabs.take(i + 1)).difference(new_ids);
                    assert(after =~= before);
                }
            }
            i = i + 1;
        }
        assert(old_tabs.take(old_tabs.len() as int) =~= old_tabs);
        self.tabs = tabs;
        self.organize_and_flush()
    }

    /// The result of a command. For a result of this plugin's workspace
    /// lookup it records the path's root (its trimmed output), or that it
    /// has none when `git` failed, then labels the tabs. Output that is not
    /// UTF-8, and anything else, changes nothing.
    pub fn on_run_command_result(&mut self, exit_code: Option<i32>, stdout: Vec<u8>, context: &Vec<(String, String)>) -> (r: Effects)
        requires
            old(self).wf(),
        ensures
            final(self).wf(),
            match command_outcome(exit_code, stdout@, context@) {
                None => unchanged(*final(self), *old(self)) && no_effects(r),
                Some((path, root)) => {
                    &&& forall|q: Seq<char>| #[trigger] cached(final(self).seeker.entries(), q) == if crate::path::same_path(q, path) {
                        Some(root)
                    } else {
                        cached(old(self).seeker.entries(), q)
                    }
                    &&& final(self).tabs@ == old(self).tabs@
                    &&& final(self).panes == old(self).panes
                    &&& final(self).permissions == old(self).permissions
                    &&& final(self).home_dir == old(self).home_dir
                    &&& final(self).session_name == old(self).session_name
                    &&& final(self).parser.records() == old(self).parser.records()
                    &&& final(self).parser.tab_ongoing@ == old(self).parser.tab_ongoing@
                    &&& flushed(r, final(self).parser.applied(), flush_result(old(self).parser.applied(), old(self).tabs@, old(self).parser.records(), *final(self)))
                },
            },
    {
        let plugin = context_value(context, "plugin");
        let func = context_value(context, "fn");
        let is_ours = match (&plugin, &func) {
            (Some(p), Some(f)) => chars_eq(&chars_of(p.as_str()), &chars_of("tiptab")) && chars_eq(&chars_of(f.as_str()), &chars_of("get_git_ws")),
            _ => false,
        };
        if !is_ours {
            return no_effect();
        }
        let path = match context_value(context, "path") {
            Some(p) => p,
            None => {
                return no_effect();
            },
        };
        match exit_code {
            Some(0i32) => {},
            _ => {
                self.seeker.remember(path.as_str(), None);
                return self.organize_and_flush();
            },
        }
        match utf8_text(stdout) {
            Some(text) => {
                let root = string_of(&trim_chars(&chars_of(text.as_str())));
                self.seeker.remember(path.as_str(), Some(root));
                self.organize_and_flush()
            },
            None => no_effect(),
        }
    }

    /// A message from the shell hook, `[<session>|]<tab position> <pwd> <binary>`:
    /// when it is for this session and names the position of a tab, records
    /// the tab's working directory and foreground binary, then labels the
    /// tabs. Anything else changes nothing.
    pub fn handle_pipe_tiptab(&mut self, payload: Option<&str>) -> (r: Effects)
        requires
            old(self).wf(),
        ensures
            final(self).wf(),
            pipe_handled(*old(self), *final(self), opt_str(payload), r),
    {
        let payload = match payload {
            Some(p) => p,
            None => {
                return no_effect();
            },
        };
        let text = chars_of(payload);
        let (session, rest) = match index_of_char(&text, '|') {
            Some(i) => (Some(sub_chars(&text, 0, i)), sub_chars(&text, i + 1, text.len())),
            None => (None, sub_chars(&text, 0, text.len())),
        };
        assert(match session {
            Some(s) => split_session(payload@) == (Some(s@), rest@),
            None => split_session(payload@) == (None::<Seq<char>>, rest@),
        });
        if let (Some(own), Some(session)) = (&self.session_name, &session) {
            if !chars_eq(&chars_of(own.as_str()), session) {
                return no_effect();
            }
        }
        let i = match index_of_char(&rest, ' ') {
            Some(i) => i,
            None => {
                return no_effect();
            },
        };
        let rest2 = sub_chars(&rest, i + 1, rest.len());
        assert(rest2@ =~= rest@.skip(i + 1));
        let j = match index_of_char(&rest2, ' ') {
            Some(j) => j,
            None => {
                return no_effect();
            },
        };
        let pos_str = sub_chars(&rest, 0, i);
        let pwd = sub_chars(&rest2, 0, j);
        let bin = sub_chars(&rest2, j + 1, rest2.len());
        assert(pos_str@ =~= rest@.take(i as int));
        assert(pwd@ =~= rest2@.take(j as int));
        assert(bin@ =~= rest2@.skip(j + 1));
        let position = match parse_u32_chars(&pos_str) {
            Some(p) => p,
            None => {
                return no_effect();
            },
        };
        let tab_id = match find_tab_at(&self.tabs, position as usize) {
            Some(t) => t,
            None => {
                return no_effect();
            },
        };
        let pwd = string_of(&pwd);
        let bin = string_of(&bin);
        self.parser.ingest_pipe(tab_id, pwd.as_str(), bin.as_str());
        self.organize_and_flush()
    }

    /// A message on a pipe: the shell hook's `tiptab` messages are handled,
    /// others are not for this plugin.
    pub fn pipe(&mut self, name: &str, payload: Option<&str>) -> (r: Effects)
        requires
            old(self).wf(),
        ensures
            final(self).wf(),
            name@ == "tiptab"@ ==> pipe_handled(*old(self), *final(self), opt_str(payload), r),
            name@ != "tiptab"@ ==> unchanged(*final(self), *old(self)) && no_effects(r),
    {
        if chars_eq(&chars_of(name), &chars_of("tiptab")) {
            self.handle_pipe_tiptab(payload)
        } else {
            no_effect()
        }
    }
}

/// When renames were decided, the worker gets one `queue-rename` message per
/// rename, in the order of the renames and carrying the JSON of that rename,
/// and then one `execute-renames` message with an empty payload. With no
/// rename, no message is sent.
pub proof fn lemma_flushed_messages(e: Effects, applied: Map<u64, Seq<char>>, st: OrganizeState)
    requires
        flushed(e, applied, st),
    ensures
        e.renames@.len() == 0 ==> e.messages@.len() == 0,
        e.renames@.len() > 0 ==> {
            &&& e.messages@.len() == e.renames@.len() + 1
            &&& forall|k: int| 0 <= k < e.renames@.len() ==> {
                &&& (#[trigger] e.messages@[k]).name@ == "queue-rename"@
                &&& e.messages@[k].payload@ == text_or_empty(json_of_rename(e.renames@[k].0, e.renames@[k].1@))
            }
            &&& e.messages@.last().name@ == "execute-renames"@
            &&& e.messages@.last().payload@.len() == 0
        },
{
    let m = e.messages@;
    let r = e.renames@;
    assert(message_views(m).len() == m.len());
    if r.len() > 0 {
        let q = r.map_values(
            |x: (u64, String)| ("queue-rename"@, text_or_empty(json_of_rename(x.0, x.1@))),
        );
        assert(flush_messages(r) == q.push(("execute-renames"@, seq![])));
        assert forall|k: int| 0 <= k < r.len() implies {
            &&& (#[trigger] m[k]).name@ == "queue-rename"@
            &&& m[k].payload@ == text_or_empty(json_of_rename(r[k].0, r[k].1@))
        } by {
            assert(message_views(m)[k] == (m[k].name@, m[k].payload@));
            assert(flush_messages(r)[k] == q[k]);
        }
        assert(message_views(m)[m.len() - 1] == (m.last().name@, m.last().payload@));
        assert(flush_messages(r)[r.len() as int] == ("execute-renames"@, Seq::<char>::empty()));
    } else {
        assert(flush_messages(r).len() == 0);
    }
}

/// A payload splits at its first `|`: the session is the text before it,
/// which holds no `|`, and the rest is all that follows it. A payload with
/// no `|` names no session.
pub proof fn lemma_split_session(p: Seq<char>)
    ensures
        match split_session(p) {
            (Some(s), rest) => p == s + seq!['|'] + rest && forall|j: int| 0 <= j < s.len() ==> s[j] != '|',
            (None, rest) => rest == p && forall|j: int| 0 <= j < p.len() ==> p[j] != '|',
        },
{
    lemma_first_index_of(p, '|');
    if let Some(i) = first_index_of(p, '|') {
        assert(p =~= p.take(i) + seq!['|'] + p.skip(i + 1));
    }
}

/// The fields of a report are split at the first two spaces: the position
/// and the folder hold no space, the binary is all that follows the second
/// space. Text with fewer than two spaces gives no fields.
pub proof fn lemma_pipe_fields(rest: Seq<char>)
    ensures
        match pipe_fields(rest) {
            Some((a, b, c)) => {
                &&& rest == a + seq![' '] + b + seq![' '] + c
                &&& forall|j: int| 0 <= j < a.len() ==> a[j] != ' '
                &&& forall|j: int| 0 <= j < b.len() ==> b[j] != ' '
            },
            None => forall|i: int, j: int| 0 <= i < j < rest.len() && rest[i] == ' ' ==> rest[j] != ' ',
        },
{
    lemma_first_index_of(rest, ' ');
    match first_index_of(rest, ' ') {
        Some(i) => {
            let r2 = rest.skip(i + 1);
            lemma_first_index_of(r2, ' ');
            match first_index_of(r2, ' ') {
                Some(j) => {
                    assert(r2 =~= r2.take(j) + seq![' '] + r2.skip(j + 1));
                    assert(rest =~= rest.take(i) + seq![' '] + r2.take(j) + seq![' '] + r2.skip(j + 1));
                },
                None => {
                    assert forall|a: int, b: int| 0 <= a < b < rest.len() && rest[a] == ' ' implies rest[b] != ' ' by {
                        assert(a >= i);
                        assert(rest[b] == r2[b - i - 1]);
                    }
                },
            }
        },
        None => {},
    }
}

/// The tab found at a position is the first tab at that position; none is
/// found when no tab is there.
pub proof fn lemma_tab_at(tabs: Seq<Tab>, position: usize)
    ensures
        match tab_at(tabs, position) {
            Some(id) => exists|i: int| {
                &&& 0 <= i < tabs.len()
                &&& (#[trigger] tabs[i]).position == position
                &&& tab_key(tabs[i]) == id
                &&& forall|j: int| 0 <= j < i ==> tabs[j].position != position
            },
            None => forall|i: int| 0 <= i < tabs.len() ==> (#[trigger] tabs[i]).position != position,
        },
    decreases tabs.len(),
{
    if tabs.len() > 0 {
        let t = tabs.drop_first();
        lemma_tab_at(t, position);
        if tabs[0].position == position {
            assert(tabs[0].position == position);
        } else {
            match tab_at(t, position) {
                Some(id) => {
                    let i = choose|i: int| {
                        &&& 0 <= i < t.len()
                        &&& (#[trigger] t[i]).position == position
                        &&& tab_key(t[i]) == id
                        &&& forall|j: int| 0 <= j < i ==> t[j].position != position
                    };
                    assert(tabs[i + 1] == t[i]);
                    assert forall|j: int| 0 <= j < i + 1 implies tabs[j].position != position by {
                        if j > 0 {
                            assert(tabs[j] == t[j - 1]);
                        }
                    }
                },
                None => {
                    assert forall|i: int| 0 <= i < tabs.len() implies (#[trigger] tabs[i]).position != position by {
                        if i > 0 {
                            assert(tabs[i] == t[i - 1]);
                        }
                    }
                },
            }
        }
    }
}

/// A report `<session>|<position> <folder> <binary>` from this session
/// (or while the session is not known yet), whose position is a number at
/// which a tab stands, reports that folder and binary for that tab; one
/// from another session reports nothing.
pub proof fn lemma_pipe_report_session(
    plugin: TipTab,
    session: Seq<char>,
    pos: Seq<char>,
    pwd: Seq<char>,
    bin: Seq<char>,
    position: u32,
    tab_id: u64,
)
    requires
        forall|j: int| 0 <= j < session.len() ==> session[j] != '|',
        forall|j: int| 0 <= j < pos.len() ==> pos[j] != ' ',
        forall|j: int| 0 <= j < pwd.len() ==> pwd[j] != ' ',
        parse_u32(pos) == Some(position),
        tab_at(plugin.tabs@, position as usize) == Some(tab_id),
    ensures
        ({
            let payload = session + seq!['|'] + (pos + seq![' '] + pwd + seq![' '] + bin);
            let own = opt_text(plugin.session_name);
            &&& (own is None || own == Some(session)) ==> pipe_report(plugin, payload) == Some((tab_id, pwd, bin))
            &&& (own is Some && own != Some(session)) ==> pipe_report(plugin, payload) is None
        }),
{
    let rest = pos + seq![' '] + pwd + seq![' '] + bin;
    let payload = session + seq!['|'] + rest;
    lemma_first_index_after(payload, session, '|', rest);
    lemma_fields_of(rest, pos, pwd, bin);
}

/// A report `<position> <folder> <binary>` with no `|` in it, whose
/// position is a number at which a tab stands, reports that folder and
/// binary for that tab, whatever session the plugin is in.
pub proof fn lemma_pipe_report_plain(
    plugin: TipTab,
    pos: Seq<char>,
    pwd: Seq<char>,
    bin: Seq<char>,
    position: u32,
    tab_id: u64,
)
    requires
        forall|j: int| 0 <= j < pos.len() ==> pos[j] != ' ' && pos[j] != '|',
        forall|j: int| 0 <= j < pwd.len() ==> pwd[j] != ' ' && pwd[j] != '|',
        forall|j: int| 0 <= j < bin.len() ==> bin[j] != '|',
        parse_u32(pos) == Some(position),
        tab_at(plugin.tabs@, position as usize) == Some(tab_id),
    ensures
        pipe_report(plugin, pos + seq![' '] + pwd + seq![' '] + bin) == Some((tab_id, pwd, bin)),
{
    let rest = pos + seq![' '] + pwd + seq![' '] + bin;
    lemma_first_index_of(rest, '|');
    assert forall|j: int| 0 <= j < rest.len() implies rest[j] != '|' by {
        if j < pos.len() {
            assert(rest[j] == pos[j]);
        } else if j == pos.len() {
        } else if j < pos.len() + 1 + pwd.len() {
            assert(rest[j] == pwd[j - pos.len() - 1]);
        } else if j == pos.len() + 1 + pwd.len() {
        } else {
            assert(rest[j] == bin[j - pos.len() - pwd.len() - 2]);
        }
    }
    lemma_fields_of(rest, pos, pwd, bin);
}

proof fn lemma_fields_of(rest: Seq<char>, pos: Seq<char>, pwd: Seq<char>, bin: Seq<char>)
    requires
        rest == pos + seq![' '] + pwd + seq![' '] + bin,
        forall|j: int| 0 <= j < pos.len() ==> pos[j] != ' ',
        forall|j: int| 0 <= j < pwd.len() ==> pwd[j] != ' ',
    ensures
        pipe_fields(rest) == Some((pos, pwd, bin)),
{
    let r2 = pwd + seq![' '] + bin;
    assert(rest =~= pos + seq![' '] + r2);
    lemma_first_index_after(rest, pos, ' ', r2);
    lemma_first_index_after(r2, pwd, ' ', bin);
}

} // verus!
