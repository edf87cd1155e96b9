use std::path::Path;
use tiptab::bin_parser::BinParser;
use tiptab::text::{char_is_ws, parse_u32_chars, trim_chars};
use tiptab::validation::is_default_tab_name;

const WORDS: &[&str] = &[
    "", "0", "7", "+7", "-7", "+", "-", "007", "4294967295", "4294967296", "99999999999999999999", "12a",
    "a12", " 1", "1 ", "١", "+-1", "++1", "18446744073709551616",
];

#[test]
fn whitespace_agrees_with_std() {
    for u in 0u32..=0x10FFFF {
        if let Some(c) = char::from_u32(u) {
            assert_eq!(char_is_ws(c), c.is_whitespace(), "{u:#x}");
        }
    }
}

#[test]
fn trim_agrees_with_std() {
    for s in ["", "  ", " a ", "\u{3000}x\u{85}", "\ta b\n", "x", "\u{200b}y"] {
        let ours: String = trim_chars(&s.chars().collect()).iter().collect();
        assert_eq!(ours, s.trim(), "{s:?}");
    }
}

#[test]
fn parse_agrees_with_std() {
    for w in WORDS {
        assert_eq!(parse_u32_chars(&w.chars().collect()), w.parse::<u32>().ok(), "{w:?}");
    }
}

fn reference_binary_name(command: &str) -> Option<String> {
    let command = command.trim();
    if command.is_empty() {
        return None;
    }
    let binary = command.split_whitespace().next()?;
    let name = Path::new(binary).file_name()?.to_str()?.to_string();
    if name.is_empty() || name.starts_with("_tiptab_") { None } else { Some(name) }
}

#[test]
fn binary_name_agrees_with_std_reading() {
    for c in [
        "", " ", "vim", "  /usr/bin/vim -p a", "./run.sh", "../x", "..", ".", "/", "a/", "_tiptab_x", "x/_tiptab_y",
        "\u{3000}htop\u{3000}-d", "env A=1 cmd", "/a/b/./", "a\u{85}b",
    ] {
        assert_eq!(BinParser::binary_name(c), reference_binary_name(c), "{c:?}");
    }
}

fn reference_default(name: &str) -> bool {
    if name.starts_with("Tab #") && name[5..].parse::<u32>().is_ok() {
        return true;
    }
    if let Some(colon) = name.find(": ") {
        if name[..colon].parse::<u32>().is_ok() {
            return true;
        }
    }
    false
}

#[test]
fn default_names_agree_with_std_reading() {
    let mut names: Vec<String> = Vec::new();
    for w in WORDS {
        names.push(format!("Tab #{w}"));
        names.push(format!("{w}: x"));
        names.push(format!("{w}: y: z"));
        names.push(format!("é{w}: x"));
        names.push(w.to_string());
    }
    names.push("Tab#1".to_string());
    names.push("tab #1".to_string());
    for n in &names {
        assert_eq!(is_default_tab_name(n), reference_default(n), "{n:?}");
    }
}
