use git_ignore::template::{
    select_by_prefix, stable_order, complete_candidates, format_template_list, resolve_template, templates_from_contents,
    ContentEntry, ResolveError, Template,
};

fn template(name: &str, file_name: &str) -> Template {
    Template { name: name.to_string(), file_name: file_name.to_string() }
}

fn entry(name: &str, path: &str, content_type: &str) -> ContentEntry {
    ContentEntry {
        name: name.to_string(),
        path: path.to_string(),
        content_type: content_type.to_string(),
    }
}

fn templates_from_json(source: &str) -> Vec<Template> {
    let value: serde_json::Value = serde_json::from_str(source).unwrap();
    let contents = value
        .as_array()
        .unwrap()
        .iter()
        .map(|item| {
            entry(
                item["name"].as_str().unwrap(),
                item["path"].as_str().unwrap(),
                item["type"].as_str().unwrap(),
            )
        })
        .collect();
    templates_from_contents(contents)
}

#[test]
fn extracts_only_root_gitignore_templates() {
    let source = r##"
        [
          {"name":"Node.gitignore","path":"Node.gitignore","type":"file"},
          {"name":"Global","path":"Global","type":"dir"},
          {"name":"macOS.gitignore","path":"Global/macOS.gitignore","type":"file"},
          {"name":"community","path":"community","type":"dir"},
          {"name":"README.md","path":"README.md","type":"file"}
        ]
        "##;

    let templates = templates_from_json(source);

    assert_eq!(
        templates,
        vec![Template { name: "Node".to_string(), file_name: "Node.gitignore".to_string() }]
    );
}

#[test]
fn resolves_exact_match_before_case_insensitive_match() {
    let templates = vec![template("Node", "Node.gitignore"), template("node", "node.gitignore")];

    assert_eq!(resolve_template(&templates, "Node").unwrap().file_name, "Node.gitignore");
}

#[test]
fn resolves_unique_case_insensitive_match() {
    let templates = vec![template("Node", "Node.gitignore")];

    assert_eq!(resolve_template(&templates, "node").unwrap().name, "Node");
}

#[test]
fn rejects_ambiguous_case_insensitive_match() {
    let templates = vec![template("Node", "Node.gitignore"), template("node", "node.gitignore")];

    let error = resolve_template(&templates, "NODE").unwrap_err();
    assert!(matches!(error, ResolveError::Ambiguous { .. }));
}

#[test]
fn rejects_unknown_template() {
    let templates = vec![template("Node", "Node.gitignore")];

    let error = resolve_template(&templates, "Rust").unwrap_err();
    assert!(matches!(error, ResolveError::NotFound { .. }));
}

#[test]
fn ambiguous_error_lists_candidates_in_order() {
    let templates = vec![
        template("Node", "Node.gitignore"),
        template("Rust", "Rust.gitignore"),
        template("node", "node.gitignore"),
    ];

    let error = resolve_template(&templates, "NODE").unwrap_err();
    assert_eq!(
        error,
        ResolveError::Ambiguous { name: "NODE".to_string(), candidates: "Node, node".to_string() }
    );
    assert_eq!(error.message(), "template 'NODE' is ambiguous: Node, node");
}

#[test]
fn not_found_error_names_the_request() {
    let templates: Vec<Template> = vec![];
    let error = resolve_template(&templates, "Rust").unwrap_err();
    assert_eq!(error, ResolveError::NotFound { name: "Rust".to_string() });
    assert_eq!(error.message(), "template 'Rust' was not found");
}

#[test]
fn case_match_ignores_only_ascii_case() {
    let templates = vec![template("Ärger", "Ärger.gitignore")];
    assert!(resolve_template(&templates, "ärger").is_err());
    assert_eq!(resolve_template(&templates, "ÄRGER").unwrap().name, "Ärger");
}

#[test]
fn exact_match_picks_the_first_of_equal_names() {
    let templates = vec![template("Go", "first.gitignore"), template("Go", "second.gitignore")];
    assert_eq!(resolve_template(&templates, "Go").unwrap().file_name, "first.gitignore");
}

#[test]
fn sorts_by_lowercase_name_keeping_order_of_equal_keys() {
    let contents = vec![
        entry("b.gitignore", "b.gitignore", "file"),
        entry("A.gitignore", "A.gitignore", "file"),
        entry("Zig.gitignore", "Zig.gitignore", "file"),
        entry("a.gitignore", "a.gitignore", "file"),
        entry("C.gitignore", "C.gitignore", "dir"),
    ];
    let names: Vec<String> =
        templates_from_contents(contents).into_iter().map(|t| t.name).collect();
    assert_eq!(names, vec!["A", "a", "b", "Zig"]);
}

#[test]
fn a_bare_suffix_is_a_template_with_an_empty_name() {
    let contents = vec![entry(".gitignore", ".gitignore", "file")];
    assert_eq!(templates_from_contents(contents), vec![template("", ".gitignore")]);
}

#[test]
fn formats_one_name_per_line() {
    let templates = vec![template("Node", "Node.gitignore"), template("Rust", "Rust.gitignore")];
    assert_eq!(format_template_list(&templates), "Node\nRust\n");
    assert_eq!(format_template_list(&[]), "\n");
}

#[test]
fn completes_names_by_lowercase_prefix() {
    let templates = vec![
        template("Node", "Node.gitignore"),
        template("Nim", "Nim.gitignore"),
        template("Rust", "Rust.gitignore"),
    ];
    assert_eq!(complete_candidates(&templates, "no"), "Node\n");
    assert_eq!(complete_candidates(&templates, "N"), "Node\nNim\n");
    assert_eq!(complete_candidates(&templates, ""), "Node\nNim\nRust\n");
    assert_eq!(complete_candidates(&templates, "x"), "\n");
}

#[test]
fn orders_lowercase_keys_stably() {
    let keys: Vec<Vec<char>> =
        ["rust", "go", "node", "go"].iter().map(|k| k.chars().collect()).collect();
    assert_eq!(stable_order(&keys), vec![1, 3, 2, 0]);
    let sorted = templates_from_contents(vec![
        entry("Rust.gitignore", "Rust.gitignore", "file"),
        entry("node.gitignore", "node.gitignore", "file"),
        entry("Go.gitignore", "Go.gitignore", "file"),
    ]);
    let names: Vec<String> = sorted.into_iter().map(|t| t.name).collect();
    assert_eq!(names, vec!["Go", "node", "Rust"]);
}

#[test]
fn selects_lowercased_names_by_prefix() {
    let lowered: Vec<String> = ["node", "nim", "rust"].iter().map(|s| s.to_string()).collect();
    assert_eq!(select_by_prefix(&lowered, "n"), vec![0, 1]);
    assert_eq!(select_by_prefix(&lowered, "no"), vec![0]);
    assert_eq!(select_by_prefix(&lowered, ""), vec![0, 1, 2]);
    assert_eq!(select_by_prefix(&lowered, "x"), Vec::<usize>::new());
}
