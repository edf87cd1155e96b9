//! What the multiplexer reports about tabs and panes, held as plain values.

use vstd::prelude::*;

verus! {

/// Whether the user granted the plugin its permissions.
#[derive(PartialEq, Eq, Structural, Clone, Copy, Debug)]
pub enum Permission {
    Granted,
    Denied,
}

/// A pane: its id, whether it is a plugin or suppressed pane, and the
/// command it was started with, if any.
#[derive(Debug)]
pub struct Pane {
    pub id: u32,
    pub is_plugin: bool,
    pub is_suppressed: bool,
    pub terminal_command: Option<String>,
}

/// A tab: its 0-based position, its current name and its stable id.
#[derive(Debug)]
pub struct Tab {
    pub position: usize,
    pub name: String,
    pub tab_id: usize,
}

/// The panes of each tab, keyed by the tab's position, in the order the
/// multiplexer listed them.
#[derive(Debug)]
pub struct PaneManifest {
    pub panes: Vec<(usize, Vec<Pane>)>,
}

/// The command a pane was started with, or the empty text.
pub open spec fn command_text(p: Pane) -> Seq<char> {
    match p.terminal_command {
        Some(c) => c@,
        None => seq![],
    }
}

/// A pane that shows a program to the user: neither a plugin nor suppressed.
pub open spec fn is_shown(p: Pane) -> bool {
    !p.is_plugin && !p.is_suppressed
}

/// The text values of a map whose values are strings.
pub open spec fn text_map<K>(m: Map<K, String>) -> Map<K, Seq<char>> {
    Map::new(|k: K| m.dom().contains(k), |k: K| m[k]@)
}

pub proof fn lemma_text_map_insert<K>(m: Map<K, String>, k: K, s: String)
    ensures
        text_map(m.insert(k, s)) == text_map(m).insert(k, s@),
{
    assert(text_map(m.insert(k, s)) =~= text_map(m).insert(k, s@));
}

pub proof fn lemma_text_map_remove<K>(m: Map<K, String>, k: K)
    ensures
        text_map(m.remove(k)) == text_map(m).remove(k),
{
    assert(text_map(m.remove(k)) =~= text_map(m).remove(k));
}

} // verus!
