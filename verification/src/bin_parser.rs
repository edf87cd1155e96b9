//! What the shell hook and the pane list tell about each tab's programs and
//! folders.

use std::collections::{BTreeMap, BTreeSet};
use vstd::prelude::*;
use crate::formatter::{fmt_bin, spec_fmt_bin};
use crate::manifest::{command_text, is_shown, lemma_text_map_insert, lemma_text_map_remove, text_map, Pane, PaneManifest};
use crate::path::{file_name, file_name_of};
use crate::text::{char_is_ws, chars_of, hook_prefix, hook_prefix_chars, is_ws, starts_with, starts_with_chars, string_of, sub_chars, trim, trim_chars};

verus! {

/// Where the first word of `s` ends: at the first whitespace, or at the end.
pub open spec fn word_end(s: Seq<char>) -> nat
    decreases s.len(),
{
    if s.len() == 0 || is_ws(s[0]) {
        0
    } else {
        1 + word_end(s.drop_first())
    }
}

/// The name of the program a command line runs: the file name of its first
/// word, unless the command is blank or the name is one of the hook's own
/// `_tiptab_` helpers.
pub open spec fn spec_binary_name(command: Seq<char>) -> Option<Seq<char>> {
    let t = trim(command);
    if t.len() == 0 {
        None
    } else {
        match file_name(t.take(word_end(t) as int)) {
            Some(n) => if n.len() == 0 || starts_with(n, hook_prefix()) {
                None
            } else {
                Some(n)
            },
            None => None,
        }
    }
}

/// `value` without one pair of matching surrounding quotes (`'` or `"`).
pub open spec fn spec_strip_quotes(value: Seq<char>) -> Seq<char> {
    if value.len() >= 2 && (value[0] == '\'' || value[0] == '"') && value.last() == value[0] {
        value.subrange(1, value.len() - 1)
    } else {
        value
    }
}

/// What a pane adds to the pane commands: its program's name, cut to 12
/// characters, for a shown pane whose command names one.
pub open spec fn record_pane(m: Map<u32, Seq<char>>, p: Pane) -> Map<u32, Seq<char>> {
    if is_shown(p) {
        match spec_binary_name(command_text(p)) {
            Some(b) => m.insert(p.id, spec_fmt_bin(b)),
            None => m,
        }
    } else {
        m
    }
}

pub open spec fn record_panes(m: Map<u32, Seq<char>>, ps: Seq<Pane>) -> Map<u32, Seq<char>>
    decreases ps.len(),
{
    if ps.len() == 0 {
        m
    } else {
        record_pane(record_panes(m, ps.drop_last()), ps.last())
    }
}

/// The pane commands after reading every pane of every tab, in order.
pub open spec fn record_groups(m: Map<u32, Seq<char>>, gs: Seq<(usize, Vec<Pane>)>) -> Map<
    u32,
    Seq<char>,
>
    decreases gs.len(),
{
    if gs.len() == 0 {
        m
    } else {
        record_panes(record_groups(m, gs.drop_last()), gs.last().1@)
    }
}

/// Whether a reported foreground binary counts: not blank and not one of the
/// hook's own helpers.
pub open spec fn is_real_bin(b: Seq<char>) -> bool {
    b.len() > 0 && !starts_with(b, hook_prefix())
}

/// What is recorded of the tabs and panes, as maps from ids to texts.
pub struct Records {
    pub dirs: Map<u64, Seq<char>>,
    pub cmds: Map<u64, Seq<char>>,
    pub terms: Map<u32, Seq<char>>,
}

/// The records after the hook reported a working directory and a foreground
/// binary for a tab.
pub open spec fn ingested(rec: Records, tab_id: u64, pwd: Seq<char>, bin: Seq<char>) -> Records {
    let b = spec_fmt_bin(trim(bin));
    Records {
        dirs: rec.dirs.insert(tab_id, pwd),
        cmds: if is_real_bin(b) {
            rec.cmds.insert(tab_id, b)
        } else {
            rec.cmds.remove(tab_id)
        },
        terms: rec.terms,
    }
}

/// The per-tab records.
pub struct BinParser {
    /// The working directory the hook last reported for each tab.
    pub tab_dirs: BTreeMap<u64, String>,
    /// The foreground binary the hook last reported for each tab.
    pub tab_cmds: BTreeMap<u64, String>,
    /// The program each terminal pane was started with, by pane id.
    pub term_cmds: BTreeMap<u32, String>,
    /// The tabs whose foreground binary is running.
    pub tab_ongoing: BTreeSet<u64>,
    /// The label last applied to each tab.
    pub applied_labels: BTreeMap<u64, String>,
}

impl BinParser {
    pub open spec fn dirs(&self) -> Map<u64, Seq<char>> {
        text_map(self.tab_dirs@)
    }

    pub open spec fn cmds(&self) -> Map<u64, Seq<char>> {
        text_map(self.tab_cmds@)
    }

    pub open spec fn terms(&self) -> Map<u32, Seq<char>> {
        text_map(self.term_cmds@)
    }

    pub open spec fn applied(&self) -> Map<u64, Seq<char>> {
        text_map(self.applied_labels@)
    }

    pub open spec fn records(&self) -> Records {
        Records { dirs: self.dirs(), cmds: self.cmds(), terms: self.terms() }
    }

    /// Nothing recorded yet.
    pub fn new() -> (r: Self)
        ensures
            r.dirs() == Map::<u64, Seq<char>>::empty(),
            r.cmds() == Map::<u64, Seq<char>>::empty(),
            r.terms() == Map::<u32, Seq<char>>::empty(),
            r.tab_ongoing@ == Set::<u64>::empty(),
            r.applied() == Map::<u64, Seq<char>>::empty(),
    {
        let r = BinParser {
            tab_dirs: BTreeMap::new(),
            tab_cmds: BTreeMap::new(),
            term_cmds: BTreeMap::new(),
            tab_ongoing: BTreeSet::new(),
            applied_labels: BTreeMap::new(),
        };
        assert(r.dirs() =~= Map::<u64, Seq<char>>::empty());
        assert(r.cmds() =~= Map::<u64, Seq<char>>::empty());
        assert(r.terms() =~= Map::<u32, Seq<char>>::empty());
        assert(r.applied() =~= Map::<u64, Seq<char>>::empty());
        r
    }

    /// Records what the shell hook reported for a tab: its working directory
    /// and its foreground binary (trimmed and cut to 12 characters). A blank
    /// binary, or one of the hook's `_tiptab_` helpers, means that nothing
    /// runs in the foreground.
    pub fn ingest_pipe(&mut self, tab_id: u64, pwd: &str, bin: &str)
        ensures
            final(self).dirs() == old(self).dirs().insert(tab_id, pwd@),
            final(self).terms() == old(self).terms(),
            final(self).applied() == old(self).applied(),
            ({
                let b = spec_fmt_bin(trim(bin@));
                if is_real_bin(b) {
                    &&& final(self).cmds() == old(self).cmds().insert(tab_id, b)
                    &&& final(self).tab_ongoing@ == old(self).tab_ongoing@.insert(tab_id)
                } else {
                    &&& final(self).cmds() == old(self).cmds().remove(tab_id)
                    &&& final(self).tab_ongoing@ == old(self).tab_ongoing@.remove(tab_id)
                }
            }),
    {
        let dir = pwd.to_owned();
        proof {
            lemma_text_map_insert(self.tab_dirs@, tab_id, dir);
        }
        self.tab_dirs.insert(tab_id, dir);
        let trimmed = string_of(&trim_chars(&chars_of(bin)));
        let b = fmt_bin(trimmed.as_str());
        let bc = chars_of(b.as_str());
        if bc.len() == 0 || starts_with_chars(&bc, &hook_prefix_chars()) {
            proof {
                lemma_text_map_remove(self.tab_cmds@, tab_id);
            }
            self.tab_cmds.remove(&tab_id);
            self.tab_ongoing.remove(&tab_id);
        } else {
            proof {
                lemma_text_map_insert(self.tab_cmds@, tab_id, b);
            }
            self.tab_cmds.insert(tab_id, b);
            self.tab_ongoing.insert(tab_id);
        }
    }

    /// Forgets everything recorded about a tab that was closed.
    pub fn cleanup_tab(&mut self, tab_id: u64)
        ensures
            final(self).dirs() == old(self).dirs().remove(tab_id),
            final(self).cmds() == old(self).cmds().remove(tab_id),
            final(self).terms() == old(self).terms(),
            final(self).tab_ongoing@ == old(self).tab_ongoing@.remove(tab_id),
            final(self).applied() == old(self).applied().remove(tab_id),
    {
        proof {
            lemma_text_map_remove(self.tab_dirs@, tab_id);
            lemma_text_map_remove(self.tab_cmds@, tab_id);
            lemma_text_map_remove(self.applied_labels@, tab_id);
        }
        self.tab_dirs.remove(&tab_id);
        self.tab_cmds.remove(&tab_id);
        self.tab_ongoing.remove(&tab_id);
        self.applied_labels.remove(&tab_id);
    }

    /// Records, for every shown pane whose command names a program, that
    /// program's name cut to 12 characters.
    pub fn populate_last_cmds(&mut self, panes: &PaneManifest)
        ensures
            final(self).terms() == record_groups(old(self).terms(), panes.panes@),
            final(self).dirs() == old(self).dirs(),
            final(self).cmds() == old(self).cmds(),
            final(self).tab_ongoing@ == old(self).tab_ongoing@,
            final(self).applied() == old(self).applied(),
    {
        let ghost start = self.terms();
        let mut g: usize = 0;
        while g < panes.panes.len()
            invariant
                g <= panes.panes.len(),
                self.terms() == record_groups(start, panes.panes@.take(g as int)),
                self.dirs() == old(self).dirs(),
                self.cmds() == old(self).cmds(),
                self.tab_ongoing@ == old(self).tab_ongoing@,
                self.applied() == old(self).applied(),
            decreases panes.panes.len() - g,
        {
            let group = &panes.panes[g].1;
            let ghost before = self.terms();
            let mut i: usize = 0;
            assert(group@.take(0) =~= Seq::<Pane>::empty());
            while i < group.len()
                invariant
                    i <= group.len(),
                    self.terms() == record_panes(before, group@.take(i as int)),
                    self.dirs() == old(self).dirs(),
                    self.cmds() == old(self).cmds(),
                    self.tab_ongoing@ == old(self).tab_ongoing@,
                    self.applied() == old(self).applied(),
                decreases group.len() - i,
            {
                let pane = &group[i];
                assert(group@.take(i + 1).drop_last() =~= group@.take(i as int));
                if !pane.is_plugin && !pane.is_suppressed {
                    let command = match &pane.terminal_command {
                        Some(c) => c.as_str(),
                        None => "",
                    };
                    proof {
                        if pane.terminal_command is None {
                            reveal_strlit("");
                        }
                    }
                    assert(command@ == command_text(*pane));
                    if let Some(bin) = Self::binary_name(command) {
                        let b = fmt_bin(bin.as_str());
                        proof {
                            lemma_text_map_insert(self.term_cmds@, pane.id, b);
                        }
                        self.term_cmds.insert(pane.id, b);
                    }
                }
                i = i + 1;
            }
            assert(group@.take(group.len() as int) =~= group@);
            assert(panes.panes@.take(g + 1).drop_last() =~= panes.panes@.take(g as int));
            g = g + 1;
        }
        assert(panes.panes@.take(panes.panes.len() as int) =~= panes.panes@);
    }

    /// The name of the program a command line runs: the file name of its
    /// first word. `None` for a blank command, and for the hook's own
    /// `_tiptab_` helpers.
    pub fn binary_name(terminal_command: &str) -> (r: Option<String>)
        ensures
            r is Some <==> spec_binary_name(terminal_command@) is Some,
            r matches Some(n) ==> spec_binary_name(terminal_command@) == Some(n@),
    {
        let t = trim_chars(&chars_of(terminal_command));
        if t.len() == 0 {
            return None;
        }
        let mut i: usize = 0;
        while i < t.len() && !char_is_ws(t[i])
            invariant
                i <= t.len(),
                forall|j: int| 0 <= j < i ==> !is_ws(#[trigger] t@[j]),
            decreases t.len() - i,
        {
            i = i + 1;
        }
        proof {
            lemma_word_end(t@, i as int);
        }
        let word = sub_chars(&t, 0, i);
        assert(word@ =~= t@.take(i as int));
        match file_name_of(&word) {
            Some(n) => {
                if n.len() == 0 || starts_with_chars(&n, &hook_prefix_chars()) {
                    None
                } else {
                    Some(string_of(&n))
                }
            },
            None => None,
        }
    }

    /// `value` without one pair of matching surrounding quotes.
    pub fn strip_quotes(value: &str) -> (r: &str)
        ensures
            r@ == spec_strip_quotes(value@),
    {
        let n = value.unicode_len();
        if n >= 2 {
            let first = value.get_char(0);
            let last = value.get_char(n - 1);
            if (first == '\'' || first == '"') && last == first {
                return value.substring_char(1, n - 1);
            }
        }
        value
    }
}

impl Default for BinParser {
    fn default() -> (r: Self)
        ensures
            r.dirs() == Map::<u64, Seq<char>>::empty(),
            r.cmds() == Map::<u64, Seq<char>>::empty(),
            r.terms() == Map::<u32, Seq<char>>::empty(),
            r.tab_ongoing@ == Set::<u64>::empty(),
            r.applied() == Map::<u64, Seq<char>>::empty(),
    {
        Self::new()
    }
}

/// A command line never names a tab after a blank name or one of the
/// hook's own `_tiptab_` helpers.
pub proof fn lemma_binary_name_is_real(command: Seq<char>)
    ensures
        spec_binary_name(command) matches Some(n) ==> is_real_bin(n),
{
}

proof fn lemma_word_end(s: Seq<char>, i: int)
    requires
        0 <= i <= s.len(),
        forall|j: int| 0 <= j < i ==> !is_ws(#[trigger] s[j]),
        i == s.len() || is_ws(s[i]),
    ensures
        word_end(s) == i,
    decreases i,
{
    if i > 0 {
        let t = s.drop_first();
        assert forall|j: int| 0 <= j < i - 1 implies !is_ws(#[trigger] t[j]) by {
            assert(t[j] == s[j + 1]);
        }
        if i < s.len() {
            assert(t[i - 1] == s[i]);
        }
        lemma_word_end(t, i - 1);
        assert(!is_ws(s[0]));
    }
}

/// The program's name is the file name of the first word of the trimmed
/// command line, the word running up to the first whitespace (or the end);
/// a blank command, a path without a file name, and a hook helper give no
/// name.
pub proof fn lemma_binary_name_first_word(command: Seq<char>, w: int)
    requires
        0 <= w <= trim(command).len(),
        forall|j: int| 0 <= j < w ==> !is_ws(#[trigger] trim(command)[j]),
        w == trim(command).len() || is_ws(trim(command)[w]),
    ensures
        spec_binary_name(command) == if trim(command).len() == 0 {
            None
        } else {
            match file_name(trim(command).take(w)) {
                Some(n) => if n.len() == 0 || starts_with(n, hook_prefix()) {
                    None
                } else {
                    Some(n)
                },
                None => None,
            }
        },
{
    lemma_word_end(trim(command), w);
}

} // verus!
