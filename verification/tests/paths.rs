use std::path::Path;
use tiptab::formatter::{fmt_folder, fmt_git, trunc};
use tiptab::path::{components_of, file_name_of, same_path_chars};

const PATHS: &[&str] = &[
    "", "/", "//", "///a", ".", "..", "./", "./.", "./a", "../a", "a", "a/", "a//b", "a/./b", "a/../b",
    "/a/b/c", "/a/b/c/", "/a/b/.", "/a/b/..", "/.", "/./a", ".a", "a.", "...", "/home/u/my proj/",
    "./../.", "x/y/./", "/tmp/ünïcode/dir", "a b/c d",
];

fn chars(s: &str) -> Vec<char> {
    s.chars().collect()
}

fn std_components(p: &str) -> Vec<String> {
    Path::new(p).components().map(|c| c.as_os_str().to_str().unwrap().to_string()).collect()
}

#[test]
fn components_agree_with_std() {
    for p in PATHS {
        let ours: Vec<String> = components_of(&chars(p)).iter().map(|c| c.iter().collect()).collect();
        assert_eq!(ours, std_components(p), "path {p:?}");
    }
}

#[test]
fn file_name_agrees_with_std() {
    for p in PATHS {
        let ours: Option<String> = file_name_of(&chars(p)).map(|c| c.iter().collect());
        let theirs = Path::new(p).file_name().map(|f| f.to_str().unwrap().to_string());
        assert_eq!(ours, theirs, "path {p:?}");
        let folder = Path::new(p).file_name().and_then(|f| f.to_str()).unwrap_or(p);
        assert_eq!(fmt_folder(p), trunc(folder, 12), "path {p:?}");
    }
}

#[test]
fn path_equality_agrees_with_std() {
    for a in PATHS {
        for b in PATHS {
            assert_eq!(same_path_chars(&chars(a), &chars(b)), Path::new(a) == Path::new(b), "{a:?} {b:?}");
        }
    }
}

#[test]
fn fmt_git_agrees_with_std() {
    for cwd in PATHS {
        for root in PATHS {
            let root_basename = trunc(Path::new(root).file_name().and_then(|f| f.to_str()).unwrap_or(""), 12);
            let expected = match Path::new(cwd).strip_prefix(root) {
                Ok(r) if !r.as_os_str().is_empty() => {
                    let last = r.components().last().and_then(|c| c.as_os_str().to_str()).unwrap_or("");
                    format!("{root_basename}/../{}", trunc(last, 12))
                }
                _ => root_basename.to_string(),
            };
            assert_eq!(fmt_git(cwd, root), expected, "cwd {cwd:?} root {root:?}");
        }
    }
}
