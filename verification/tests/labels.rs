use std::collections::BTreeMap;
use tiptab::bin_parser::BinParser;
use tiptab::manifest::{Pane, PaneManifest, Permission, Tab};
use tiptab::parent_seek::{GitRootQuery, ParentSeeker};
use tiptab::resolver::{format_name, organize, resolve_label_smart};

fn pane(id: u32, cmd: Option<&str>) -> Pane {
    Pane { id, is_plugin: false, is_suppressed: false, terminal_command: cmd.map(|c| c.to_string()) }
}

fn tab(position: usize, name: &str, tab_id: usize) -> Tab {
    Tab { position, name: name.to_string(), tab_id }
}

#[test]
fn format_name_precedence() {
    let mut seeker = ParentSeeker::new();
    seeker.remember("/repo/sub", Some("/repo".to_string()));
    let mut q: Vec<GitRootQuery> = Vec::new();
    assert_eq!(format_name("htop -d", "/repo/sub", &seeker, None, None, &mut q), "htop");
    assert_eq!(format_name("", "/repo/sub", &seeker, None, None, &mut q), "repo/../sub");
    assert_eq!(format_name("", "/home/u/dl", &seeker, Some(Permission::Granted), Some("/home/u"), &mut q), "dl");
    assert_eq!(q.len(), 1);
    assert_eq!(format_name("", "/home/u", &seeker, None, Some("/home/u"), &mut q), "~");
    assert_eq!(format_name("", "/home/u/", &seeker, None, Some("/home/u"), &mut q), "~");
}

#[test]
fn format_name_cuts_the_binary() {
    let seeker = ParentSeeker::new();
    let mut q: Vec<GitRootQuery> = Vec::new();
    assert_eq!(format_name("/usr/bin/verylongbinaryname --x", "/repo", &seeker, None, None, &mut q), "verylongbina");
    assert_eq!(format_name("exactlytwelv", "/repo", &seeker, None, None, &mut q), "exactlytwelv");
    assert!(q.is_empty());
}

#[test]
fn label_prefers_reported_binary() {
    let mut parser = BinParser::new();
    parser.ingest_pipe(7, "/home/u/proj", "nvim");
    let seeker = ParentSeeker::new();
    let panes = PaneManifest { panes: vec![(1, vec![pane(1, Some("htop"))])] };
    parser.populate_last_cmds(&panes);
    let mut q = Vec::new();
    let t = tab(1, "Tab #2", 7);
    assert_eq!(resolve_label_smart(&t, &parser, &seeker, &panes, Some(Permission::Granted), None, &mut q), "*nvim");
    assert!(q.is_empty());
}

#[test]
fn label_falls_back_to_folder_then_pane_then_loading() {
    let mut parser = BinParser::new();
    parser.ingest_pipe(7, "/home/u/proj", "");
    let seeker = ParentSeeker::new();
    let panes = PaneManifest {
        panes: vec![(1, vec![pane(1, Some("htop"))]), (2, vec![pane(2, Some("_tiptab_x")), pane(3, Some("btop"))])],
    };
    parser.populate_last_cmds(&panes);
    parser.term_cmds.insert(2, "_tiptab_y".to_string());
    let mut q = Vec::new();
    assert_eq!(resolve_label_smart(&tab(1, "x", 7), &parser, &seeker, &panes, Some(Permission::Granted), None, &mut q), "proj");
    assert_eq!(q.len(), 1);
    assert_eq!(q[0].path, "/home/u/proj");
    assert_eq!(resolve_label_smart(&tab(1, "x", 8), &parser, &seeker, &panes, None, None, &mut q), "htop");
    assert_eq!(resolve_label_smart(&tab(2, "x", 9), &parser, &seeker, &panes, None, None, &mut q), "btop");
    assert_eq!(resolve_label_smart(&tab(3, "x", 10), &parser, &seeker, &panes, None, None, &mut q), "loading...");
    assert_eq!(q.len(), 1);
}

#[test]
fn organize_renames_default_and_managed_tabs() {
    let mut parser = BinParser::new();
    parser.ingest_pipe(10, "/w/a", "vim");
    parser.ingest_pipe(11, "/w/b", "top");
    parser.ingest_pipe(12, "/w/c", "less");
    let seeker = ParentSeeker::new();
    let panes = PaneManifest { panes: vec![] };
    let tabs = vec![tab(0, "Tab #1", 9), tab(1, "Tab #2", 10), tab(2, "my name", 11), tab(3, "4: old", 12)];
    let mut pending = BTreeMap::new();
    let mut q = Vec::new();
    organize(&tabs, &mut pending, &mut parser, &seeker, &panes, None, None, &mut q);
    let expected: BTreeMap<u64, String> =
        [(10u64, "2: *vim".to_string()), (12, "4: *less".to_string())].into_iter().collect();
    assert_eq!(pending, expected);
    assert_eq!(parser.applied_labels, expected);
}

#[test]
fn organize_twice_renames_nothing_new() {
    let mut parser = BinParser::new();
    parser.ingest_pipe(10, "/w/a", "vim");
    let seeker = ParentSeeker::new();
    let panes = PaneManifest { panes: vec![] };
    let tabs = vec![tab(1, "Tab #2", 10), tab(2, "Tab #3", 11)];
    let mut pending = BTreeMap::new();
    let mut q = Vec::new();
    organize(&tabs, &mut pending, &mut parser, &seeker, &panes, None, None, &mut q);
    assert_eq!(pending.len(), 2);
    let applied = parser.applied_labels.clone();
    let mut again = BTreeMap::new();
    organize(&tabs, &mut again, &mut parser, &seeker, &panes, None, None, &mut q);
    assert!(again.is_empty());
    assert_eq!(parser.applied_labels, applied);
    let renamed = vec![tab(1, "2: *vim", 10), tab(2, "3: loading...", 11)];
    organize(&renamed, &mut again, &mut parser, &seeker, &panes, None, None, &mut q);
    assert!(again.is_empty());
}

#[test]
fn organize_follows_managed_tab_when_label_changes() {
    let mut parser = BinParser::new();
    parser.ingest_pipe(10, "/w/a", "vim");
    let seeker = ParentSeeker::new();
    let panes = PaneManifest { panes: vec![] };
    let mut pending = BTreeMap::new();
    let mut q = Vec::new();
    organize(&[tab(1, "Tab #2", 10)], &mut pending, &mut parser, &seeker, &panes, None, None, &mut q);
    parser.ingest_pipe(10, "/w/a", "cargo");
    let mut next = BTreeMap::new();
    organize(&[tab(1, "2: *vim", 10)], &mut next, &mut parser, &seeker, &panes, None, None, &mut q);
    assert_eq!(next.get(&10).map(|s| s.as_str()), Some("2: *cargo"));
    let mut user = BTreeMap::new();
    parser.ingest_pipe(10, "/w/a", "top");
    organize(&[tab(1, "my own", 10)], &mut user, &mut parser, &seeker, &panes, None, None, &mut q);
    assert!(user.is_empty());
}
