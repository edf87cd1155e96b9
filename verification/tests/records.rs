use tiptab::bin_parser::BinParser;
use tiptab::manifest::{Pane, PaneManifest, Permission};
use tiptab::parent_seek::{GitRootQuery, ParentSeeker};

fn pane(id: u32, cmd: Option<&str>) -> Pane {
    Pane { id, is_plugin: false, is_suppressed: false, terminal_command: cmd.map(|c| c.to_string()) }
}

#[test]
fn binary_name_of_command_lines() {
    assert_eq!(BinParser::binary_name("  /usr/bin/htop -d 1"), Some("htop".to_string()));
    assert_eq!(BinParser::binary_name("cargo\tbuild"), Some("cargo".to_string()));
    assert_eq!(BinParser::binary_name("/usr/bin/"), Some("bin".to_string()));
    assert_eq!(BinParser::binary_name("averyverylongbinaryname"), Some("averyverylongbinaryname".to_string()));
}

#[test]
fn binary_name_rejects_blank_and_helpers() {
    assert_eq!(BinParser::binary_name(""), None);
    assert_eq!(BinParser::binary_name(" \t\u{3000} "), None);
    assert_eq!(BinParser::binary_name("_tiptab_precmd arg"), None);
    assert_eq!(BinParser::binary_name("/opt/_tiptab_hook"), None);
    assert_eq!(BinParser::binary_name("./.."), None);
    assert_eq!(BinParser::binary_name("/"), None);
}

#[test]
fn strip_quotes_removes_one_matching_pair() {
    assert_eq!(BinParser::strip_quotes("'abc'"), "abc");
    assert_eq!(BinParser::strip_quotes("\"x y\""), "x y");
    assert_eq!(BinParser::strip_quotes("''"), "");
    assert_eq!(BinParser::strip_quotes("'abc\""), "'abc\"");
    assert_eq!(BinParser::strip_quotes("'"), "'");
    assert_eq!(BinParser::strip_quotes("abc"), "abc");
    assert_eq!(BinParser::strip_quotes("''x''"), "'x'");
}

#[test]
fn ingest_pipe_records_binary_and_folder() {
    let mut p = BinParser::new();
    p.ingest_pipe(5, "/home/u/proj", "  nvimxxxxxxxxxxxxx \n");
    assert_eq!(p.tab_dirs.get(&5).map(|s| s.as_str()), Some("/home/u/proj"));
    assert_eq!(p.tab_cmds.get(&5).map(|s| s.as_str()), Some("nvimxxxxxxxx"));
    assert!(p.tab_ongoing.contains(&5));
}

#[test]
fn ingest_pipe_forgets_binary_when_idle() {
    let mut p = BinParser::new();
    p.ingest_pipe(5, "/a", "nvim");
    p.ingest_pipe(5, "/b", "_tiptab_prompt");
    assert_eq!(p.tab_dirs.get(&5).map(|s| s.as_str()), Some("/b"));
    assert!(p.tab_cmds.get(&5).is_none());
    assert!(!p.tab_ongoing.contains(&5));
    p.ingest_pipe(5, "/c", "nvim");
    p.ingest_pipe(5, "/c", "   ");
    assert!(p.tab_cmds.get(&5).is_none());
}

#[test]
fn cleanup_tab_forgets_the_tab() {
    let mut p = BinParser::default();
    p.ingest_pipe(1, "/a", "vim");
    p.ingest_pipe(2, "/b", "top");
    p.applied_labels.insert(1, "2: *vim".to_string());
    p.cleanup_tab(1);
    assert!(p.tab_dirs.get(&1).is_none());
    assert!(p.tab_cmds.get(&1).is_none());
    assert!(p.applied_labels.get(&1).is_none());
    assert!(!p.tab_ongoing.contains(&1));
    assert_eq!(p.tab_cmds.get(&2).map(|s| s.as_str()), Some("top"));
}

#[test]
fn populate_last_cmds_reads_shown_panes() {
    let mut p = BinParser::new();
    let mut plugin_pane = pane(3, Some("zellij-plugin"));
    plugin_pane.is_plugin = true;
    let mut hidden = pane(4, Some("hidden"));
    hidden.is_suppressed = true;
    let manifest = PaneManifest {
        panes: vec![
            (1, vec![pane(1, Some("/usr/bin/htop")), pane(2, None), plugin_pane]),
            (2, vec![hidden, pane(5, Some("_tiptab_x")), pane(6, Some("averyverylongbinaryname --x"))]),
        ],
    };
    p.populate_last_cmds(&manifest);
    assert_eq!(p.term_cmds.get(&1).map(|s| s.as_str()), Some("htop"));
    assert!(p.term_cmds.get(&2).is_none());
    assert!(p.term_cmds.get(&3).is_none());
    assert!(p.term_cmds.get(&4).is_none());
    assert!(p.term_cmds.get(&5).is_none());
    assert_eq!(p.term_cmds.get(&6).map(|s| s.as_str()), Some("averyverylon"));
}

#[test]
fn folder_name_home_is_tilde() {
    assert_eq!(ParentSeeker::folder_name("/home/u", Some("/home/u/")), "~");
    assert_eq!(ParentSeeker::folder_name("/home/u", Some("/home/u")), "~");
    assert_eq!(ParentSeeker::folder_name("/home/u/x", Some("/home/u")), "x");
    assert_eq!(ParentSeeker::folder_name("/home/u/x", None), "x");
    assert_eq!(ParentSeeker::folder_name("/home/u/", Some("/home/u")), "~");
    assert_eq!(ParentSeeker::folder_name("/home//u/", Some("/home/u//")), "~");
    assert_eq!(ParentSeeker::folder_name("/", Some("/")), "~");
    assert_eq!(ParentSeeker::folder_name("/home", Some("/home/u")), "home");
    assert_eq!(ParentSeeker::folder_name("", Some("/")), "");
}

#[test]
fn git_lookup_asks_once_permitted() {
    let s = ParentSeeker::new();
    let mut q: Vec<GitRootQuery> = Vec::new();
    assert_eq!(s.get_git_ws("/repo/x", Some(Permission::Granted), &mut q), None);
    assert_eq!(q.len(), 1);
    assert_eq!(q[0].path, "/repo/x");
    assert_eq!(s.get_git_ws("/repo/x", Some(Permission::Denied), &mut q), None);
    assert_eq!(s.get_git_ws("/repo/x", None, &mut q), None);
    assert_eq!(q.len(), 1);
}

#[test]
fn git_lookup_after_answer_uses_cache() {
    let mut s = ParentSeeker::new();
    s.remember("/repo//x/", Some("/repo".to_string()));
    s.remember("/tmp", None);
    let mut q: Vec<GitRootQuery> = Vec::new();
    assert_eq!(s.get_git_ws("/repo/x", Some(Permission::Granted), &mut q), Some("/repo".to_string()));
    assert_eq!(s.get_git_ws("/tmp/", Some(Permission::Granted), &mut q), None);
    assert!(q.is_empty());
    assert_eq!(s.git_name("/repo/x", Some(Permission::Granted), &mut q), Some("repo/../x".to_string()));
    s.remember("/repo/x", Some("/elsewhere".to_string()));
    assert_eq!(s.git_cache.len(), 2);
    assert_eq!(s.get_git_ws("/repo/x", None, &mut q), Some("/elsewhere".to_string()));
}

#[test]
fn git_query_command_and_context() {
    let q = GitRootQuery { path: "/p".to_string() };
    assert_eq!(q.command(), vec!["git".to_string(), "rev-parse".to_string(), "--show-toplevel".to_string()]);
    assert_eq!(q.cwd(), "/p");
    assert_eq!(
        q.context(),
        vec![
            ("fn".to_string(), "get_git_ws".to_string()),
            ("path".to_string(), "/p".to_string()),
            ("plugin".to_string(), "tiptab".to_string()),
        ]
    );
}
