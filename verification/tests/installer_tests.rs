use git_ignore::installer::append_bytes;

fn after_append(existing: &str, content: &str) -> String {
    let mut file = existing.as_bytes().to_vec();
    file.extend(append_bytes(existing.as_bytes(), content));
    String::from_utf8(file).unwrap()
}

#[test]
fn creates_gitignore_when_missing() {
    assert_eq!(after_append("", "node_modules/\n"), "node_modules/\n");
}

#[test]
fn appends_without_deduplicating_existing_entries() {
    assert_eq!(after_append("node_modules/\n", "node_modules/\n"), "node_modules/\nnode_modules/\n");
}

#[test]
fn inserts_newline_before_append_when_file_has_no_trailing_newline() {
    assert_eq!(after_append("target", "node_modules/"), "target\nnode_modules/\n");
}

#[test]
fn empty_content_still_ends_with_a_newline() {
    assert_eq!(append_bytes(b"", ""), b"\n".to_vec());
    assert_eq!(append_bytes(b"x\n", "a\nb"), b"a\nb\n".to_vec());
}

#[test]
fn multibyte_content_is_appended_as_utf8() {
    assert_eq!(after_append("a", "ü\n"), "a\nü\n");
}
