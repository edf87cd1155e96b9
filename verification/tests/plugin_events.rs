use tiptab::manifest::{Pane, PaneManifest, Permission, Tab};
use tiptab::plugin::TipTab;

fn pane(id: u32, cmd: Option<&str>) -> Pane {
    Pane { id, is_plugin: false, is_suppressed: false, terminal_command: cmd.map(|c| c.to_string()) }
}

fn tab(position: usize, name: &str, tab_id: usize) -> Tab {
    Tab { position, name: name.to_string(), tab_id }
}

fn setup() -> TipTab {
    let mut p = TipTab::new(Some("/home/u".to_string()));
    p.on_permission_result(Permission::Granted);
    p.session_name = Some("main".to_string());
    let e = p.on_pane_update(PaneManifest {
        panes: vec![(0, vec![pane(1, None)]), (1, vec![pane(7, Some("bash"))])],
    });
    assert!(e.renames.is_empty());
    let e = p.on_tab_update(vec![tab(0, "Tab #1", 100), tab(1, "Tab #2", 101)]);
    assert_eq!(e.renames, vec![(101, "2: bash".to_string())]);
    p
}

#[test]
fn pipe_names_the_tab_at_the_position() {
    let mut p = setup();
    let e = p.pipe("tiptab", Some("main|1 /home/u/proj nvim -O a b"));
    assert_eq!(e.renames, vec![(101, "2: *nvim -O a b".to_string())]);
    let names: Vec<(&str, &str)> = e.messages.iter().map(|m| (m.name.as_str(), m.payload.as_str())).collect();
    assert_eq!(names, vec![("queue-rename", "[101,\"2: *nvim -O a b\"]"), ("execute-renames", "")]);
    assert!(e.queries.is_empty());
    assert_eq!(p.parser.tab_cmds.get(&101).map(|s| s.as_str()), Some("nvim -O a b"));
}

#[test]
fn pipe_without_session_and_idle_binary_asks_git() {
    let mut p = setup();
    let e = p.pipe("tiptab", Some("1 /home/u/proj _tiptab_precmd"));
    assert_eq!(e.queries.len(), 1);
    assert_eq!(e.queries[0].path, "/home/u/proj");
    assert_eq!(e.renames, vec![(101, "2: proj".to_string())]);
    let e = p.on_run_command_result(
        Some(0),
        b"/home/u/proj\n".to_vec(),
        &vec![
            ("fn".to_string(), "get_git_ws".to_string()),
            ("path".to_string(), "/home/u/proj".to_string()),
            ("plugin".to_string(), "tiptab".to_string()),
        ],
    );
    assert!(e.renames.is_empty());
    assert!(e.queries.is_empty());
    let e = p.pipe("tiptab", Some("1 /home/u/proj/src _tiptab_precmd"));
    assert_eq!(e.queries.len(), 1);
    assert_eq!(e.renames, vec![(101, "2: src".to_string())]);
    let e = p.on_run_command_result(
        Some(0),
        b"/home/u/proj\n".to_vec(),
        &vec![
            ("fn".to_string(), "get_git_ws".to_string()),
            ("path".to_string(), "/home/u/proj/src".to_string()),
            ("plugin".to_string(), "tiptab".to_string()),
        ],
    );
    assert_eq!(e.renames, vec![(101, "2: proj/../src".to_string())]);
}

#[test]
fn pipe_home_folder_is_tilde() {
    let mut p = setup();
    p.on_permission_result(Permission::Denied);
    let e = p.pipe("tiptab", Some("1 /home/u "));
    assert!(e.queries.is_empty());
    assert_eq!(e.renames, vec![(101, "2: ~".to_string())]);
}

#[test]
fn pipe_ignores_other_sessions_and_bad_payloads() {
    let mut p = setup();
    for payload in [
        Some("other|1 /x vim"),
        Some("1 /x"),
        Some("seven /x vim"),
        Some("99 /x vim"),
        Some("7 /x vim"),
        None,
    ] {
        let e = p.pipe("tiptab", payload);
        assert!(e.renames.is_empty() && e.messages.is_empty() && e.queries.is_empty());
    }
    let e = p.pipe("elsewhere", Some("1 /x vim"));
    assert!(e.renames.is_empty());
    assert!(p.parser.tab_cmds.is_empty());
}

#[test]
fn failed_git_lookup_is_remembered() {
    let mut p = setup();
    p.pipe("tiptab", Some("1 /tmp/scratch _tiptab_x"));
    let ctx = vec![
        ("fn".to_string(), "get_git_ws".to_string()),
        ("path".to_string(), "/tmp/scratch".to_string()),
        ("plugin".to_string(), "tiptab".to_string()),
    ];
    let e = p.on_run_command_result(Some(128), Vec::new(), &ctx);
    assert!(e.queries.is_empty());
    let e = p.pipe("tiptab", Some("1 /tmp/scratch _tiptab_x"));
    assert!(e.queries.is_empty());
    assert!(e.renames.is_empty());
}

#[test]
fn foreign_or_garbled_command_results_change_nothing() {
    let mut p = setup();
    let ours = vec![
        ("fn".to_string(), "get_git_ws".to_string()),
        ("path".to_string(), "/r".to_string()),
        ("plugin".to_string(), "tiptab".to_string()),
    ];
    let e = p.on_run_command_result(Some(0), vec![0xff, 0xfe], &ours);
    assert!(e.renames.is_empty() && e.messages.is_empty());
    assert!(p.seeker.git_cache.is_empty());
    let other = vec![("plugin".to_string(), "else".to_string())];
    let e = p.on_run_command_result(Some(0), b"/r".to_vec(), &other);
    assert!(e.messages.is_empty());
    let no_path = vec![
        ("fn".to_string(), "get_git_ws".to_string()),
        ("plugin".to_string(), "tiptab".to_string()),
    ];
    p.on_run_command_result(None, Vec::new(), &no_path);
    assert!(p.seeker.git_cache.is_empty());
}

#[test]
fn closed_tabs_are_forgotten() {
    let mut p = setup();
    p.pipe("tiptab", Some("1 /a vim"));
    assert!(p.parser.tab_cmds.contains_key(&101));
    let e = p.on_tab_update(vec![tab(0, "Tab #1", 100)]);
    assert!(e.renames.is_empty());
    assert!(p.parser.tab_cmds.is_empty());
    assert!(p.parser.tab_dirs.is_empty());
    assert!(p.parser.applied_labels.is_empty());
}

#[test]
fn session_name_adopted_once() {
    let mut p = TipTab::new(None);
    p.adopt_session(&vec![("a".to_string(), false), ("b".to_string(), true), ("c".to_string(), true)]);
    assert_eq!(p.session_name, Some("b".to_string()));
    p.adopt_session(&vec![("c".to_string(), true)]);
    assert_eq!(p.session_name, Some("b".to_string()));
    assert_eq!(p.find_tab_id_for_pane(1), None);
    let p = setup();
    assert_eq!(p.find_tab_id_for_pane(7), Some(101));
    assert_eq!(p.find_tab_id_for_pane(1), Some(100));
    assert_eq!(p.find_tab_id_for_pane(8), None);
}
