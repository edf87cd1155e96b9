use tiptab::formatter::{fmt_bin, fmt_folder, fmt_git, fmt_label, trunc};
use tiptab::validation::is_default_tab_name;

#[test]
fn trunc_cuts_at_characters() {
    assert_eq!(trunc("hello", 3), "hel");
    assert_eq!(trunc("héllo wörld", 4), "héll");
    assert_eq!(trunc("ab", 5), "ab");
    assert_eq!(trunc("", 0), "");
    assert_eq!(trunc("abc", 0), "");
}

#[test]
fn fmt_bin_caps_at_twelve() {
    assert_eq!(fmt_bin("vim"), "vim");
    assert_eq!(fmt_bin("averyverylongbinaryname"), "averyverylon");
    assert_eq!(fmt_bin("ñññññññññññññ"), "ññññññññññññ");
}

#[test]
fn fmt_folder_takes_last_component() {
    assert_eq!(fmt_folder("/home/user/projects"), "projects");
    assert_eq!(fmt_folder("/home/user/projects/"), "projects");
    assert_eq!(fmt_folder("/tmp/averyverylongfoldername"), "averyverylon");
    assert_eq!(fmt_folder("relative/dir"), "dir");
    assert_eq!(fmt_folder("/a/./b/."), "b");
}

#[test]
fn fmt_folder_without_file_name_keeps_path() {
    assert_eq!(fmt_folder("/"), "/");
    assert_eq!(fmt_folder("/a/.."), "/a/..");
    assert_eq!(fmt_folder(""), "");
    assert_eq!(fmt_folder("."), ".");
}

#[test]
fn fmt_git_names_root_and_last_component() {
    assert_eq!(fmt_git("/repo/src/module", "/repo"), "repo/../module");
    assert_eq!(fmt_git("/repo//src/./x/", "/repo/"), "repo/../x");
    assert_eq!(
        fmt_git("/work/averyverylongrepo/averyverylongsubdir", "/work/averyverylongrepo"),
        "averyverylon/../averyverylon"
    );
}

#[test]
fn fmt_git_root_alone() {
    assert_eq!(fmt_git("/repo", "/repo"), "repo");
    assert_eq!(fmt_git("/repo/", "/repo"), "repo");
    assert_eq!(fmt_git("/other/place", "/repo"), "repo");
    assert_eq!(fmt_git("/repository", "/repo"), "repo");
    assert_eq!(fmt_git("/x", "/"), "/../x");
}

#[test]
fn fmt_label_numbers_from_one() {
    assert_eq!(fmt_label(0, "vim"), "1: vim");
    assert_eq!(fmt_label(9, "*cargo"), "10: *cargo");
    assert_eq!(fmt_label(4294967294, "x"), "4294967295: x");
}

#[test]
fn fmt_label_caps_at_sixty() {
    let long = "x".repeat(100);
    let name = fmt_label(2, &long);
    assert_eq!(name.chars().count(), 60);
    assert!(name.starts_with("3: xxx"));
    assert_eq!(fmt_label(2, "short"), "3: short");
}

#[test]
fn default_names_of_the_multiplexer() {
    assert!(is_default_tab_name("Tab #3"));
    assert!(is_default_tab_name("Tab #+7"));
    assert!(!is_default_tab_name("Tab #"));
    assert!(!is_default_tab_name("Tab #x"));
    assert!(!is_default_tab_name("Tab #-1"));
    assert!(!is_default_tab_name("Tab #4294967296"));
    assert!(is_default_tab_name("Tab #4294967295"));
}

#[test]
fn default_names_of_the_plugin() {
    assert!(is_default_tab_name("12: foo"));
    assert!(is_default_tab_name("+5: x"));
    assert!(!is_default_tab_name("foo"));
    assert!(!is_default_tab_name("a: 1: b"));
    assert!(!is_default_tab_name("4294967296: x"));
    assert!(!is_default_tab_name(": x"));
    assert!(!is_default_tab_name("12:foo"));
}

#[test]
fn labels_count_as_default_names() {
    for (p, l) in [(0u32, "vim"), (41, ""), (7, "a: b"), (4294967294, "x: y")] {
        assert!(is_default_tab_name(&fmt_label(p, l)));
    }
    let long = "y".repeat(80);
    assert!(is_default_tab_name(&fmt_label(123456, &long)));
}
