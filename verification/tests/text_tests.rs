use std::path::Path;
use zyringe::order::sort_names;
use zyringe::path::join_path;
use zyringe::procfs::{cmdline_text, cmdline_words, env_entry, env_value, environ_pairs};

#[test]
fn joins_like_std_paths() {
    for (b, n) in [("/a", "b"), ("/a/", "b"), ("", "b"), ("/a", "/abs"), ("a", "b/c"), ("/", "x")] {
        assert_eq!(join_path(b, n), Path::new(b).join(n).to_str().unwrap());
    }
}

#[test]
fn names_sort_like_std() {
    let names: Vec<String> = ["b", "B", "a", "é", "aa", "", "a"].iter().map(|s| s.to_string()).collect();
    let mut expect = names.clone();
    expect.sort();
    assert_eq!(sort_names(names), expect);
}

#[test]
fn environment_blocks_are_read() {
    let raw = b"HOME=/home/u\0A=1=2\0\0bad\xff=x\0LANG=C\0";
    assert_eq!(env_value(raw, "A"), Some("1=2".to_string()));
    assert_eq!(env_value(raw, "LANG"), Some("C".to_string()));
    assert_eq!(env_value(raw, "HOM"), None);
    assert_eq!(env_entry("KEY=v", "KEY"), Some("v".to_string()));
    assert_eq!(env_entry("KEYS=v", "KEY"), None);
    let pairs = environ_pairs(raw).unwrap();
    assert_eq!(
        pairs,
        vec![
            ("HOME".to_string(), "/home/u".to_string()),
            ("A".to_string(), "1=2".to_string()),
            ("LANG".to_string(), "C".to_string()),
        ]
    );
    assert_eq!(environ_pairs(b"noequals\0"), None);
}

#[test]
fn command_lines_are_read() {
    let raw = b"/usr/bin/game\0-screen\0\0fullscreen\0";
    assert_eq!(cmdline_words(raw), vec!["/usr/bin/game", "-screen", "fullscreen"]);
    assert_eq!(cmdline_text(raw), Some("/usr/bin/game -screen fullscreen".to_string()));
    assert_eq!(cmdline_text(b""), None);
    assert_eq!(cmdline_text(b"\0\0"), None);
    assert_eq!(cmdline_text(b"a\xffb"), Some("a\u{fffd}b".to_string()));
}
