use git_ignore::text::{
    chars_less, chars_of, eq_ignore_ascii_case, join_strings, starts_with, str_equals,
    strip_suffix, to_lowercase,
};

#[test]
fn compares_strings_by_characters() {
    assert!(str_equals("file", "file"));
    assert!(!str_equals("file", "files"));
    assert!(!str_equals("File", "file"));
    assert!(eq_ignore_ascii_case("NODE", "node"));
    assert!(!eq_ignore_ascii_case("Ä", "ä"));
    assert!(!eq_ignore_ascii_case("node", "nodes"));
}

#[test]
fn prefixes_and_suffixes() {
    assert!(starts_with("node", "no"));
    assert!(starts_with("node", ""));
    assert!(!starts_with("no", "node"));
    assert_eq!(strip_suffix("Node.gitignore", ".gitignore"), Some("Node".to_string()));
    assert_eq!(strip_suffix("README.md", ".gitignore"), None);
    assert_eq!(strip_suffix("Ünïcode.gitignore", ".gitignore"), Some("Ünïcode".to_string()));
}

#[test]
fn orders_by_code_point() {
    assert!(chars_less(&chars_of("a"), &chars_of("b")));
    assert!(chars_less(&chars_of("ab"), &chars_of("abc")));
    assert!(!chars_less(&chars_of("abc"), &chars_of("abc")));
    assert!(chars_less(&chars_of("Z"), &chars_of("a")));
    assert!(chars_less(&chars_of("z"), &chars_of("é")));
}

#[test]
fn joins_and_lowercases() {
    let parts = vec!["a".to_string(), "b".to_string(), "c".to_string()];
    assert_eq!(join_strings(&parts, ", "), "a, b, c");
    assert_eq!(join_strings(&Vec::new(), ", "), "");
    assert_eq!(to_lowercase("ÄrGER"), "ärger");
}
