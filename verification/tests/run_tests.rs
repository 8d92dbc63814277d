use git_ignore::cache::ManifestCache;
use git_ignore::completion::{completion_script, UnsupportedShell};
use git_ignore::config::{AppConfig, CacheConfigFile, ConfigFile};
use git_ignore::installer::append_bytes;
use git_ignore::service::{
    cache_enabled, installed_message, plan_request, CachedFetch, CliArgs, Command, FetchAction,
    FetchEvent, FetchStage, Request, CACHE_CLEARED,
};
use git_ignore::template::{
    complete_candidates, completion_output, format_template_list, resolve_template, templates_from_contents,
    ContentEntry, Template,
};
use git_ignore::urls::{raw_template_url, UrlError};
use git_ignore::version::version_string;

fn args(command: Option<Command>, template: Option<&str>, no_cache: bool) -> CliArgs {
    CliArgs { no_cache, version: false, command, template: template.map(|t| t.to_string()) }
}

/// The listing that the test server answers with.
fn served_listing() -> Vec<Template> {
    let entry = |name: &str, path: &str, kind: &str| ContentEntry {
        name: name.to_string(),
        path: path.to_string(),
        content_type: kind.to_string(),
    };
    templates_from_contents(vec![
        entry("Node.gitignore", "Node.gitignore", "file"),
        entry("Rust.gitignore", "Rust.gitignore", "file"),
        entry("Global", "Global", "dir"),
        entry("macOS.gitignore", "Global/macOS.gitignore", "file"),
    ])
}

/// Drives a cached fetch to the end; `cached` is what the cache holds fresh.
/// Gives the data handed out and the actions taken.
fn fetch_through_cache<T: Clone>(
    enabled: bool,
    cached: Option<T>,
    fetched: T,
) -> (T, Vec<FetchAction>) {
    let mut machine = CachedFetch::new(enabled);
    let mut actions = Vec::new();
    let mut event = FetchEvent::Begin;
    loop {
        let action = machine.step(event).unwrap();
        actions.push(action);
        event = match action {
            FetchAction::ReadCache => {
                if cached.is_some() { FetchEvent::CacheHit } else { FetchEvent::CacheMiss }
            }
            FetchAction::Fetch => FetchEvent::Fetched,
            FetchAction::WriteCache => FetchEvent::CacheWritten,
            FetchAction::UseCached => return (cached.unwrap(), actions),
            FetchAction::UseFetched => return (fetched, actions),
            FetchAction::Fail => panic!("no failure was reported"),
        };
    }
}

#[test]
fn lists_templates_from_mock_server() {
    let request = plan_request(args(Some(Command::List), None, false));
    assert_eq!(request, Request::List);
    let (templates, actions) = fetch_through_cache(true, None, served_listing());
    let output = format_template_list(&templates);

    assert_eq!(output, "Node\nRust\n");
    assert_eq!(actions.iter().filter(|a| **a == FetchAction::Fetch).count(), 1);
}

#[test]
fn lists_templates_without_arguments() {
    assert_eq!(plan_request(args(None, None, false)), Request::List);
    let (templates, _) = fetch_through_cache(true, None, served_listing());

    assert_eq!(format_template_list(&templates), "Node\nRust\n");
}

#[test]
fn appends_selected_template_from_mock_server() {
    let request = plan_request(args(None, Some("Node"), false));
    let name = match request {
        Request::Install { name } => name,
        other => panic!("unexpected request {other:?}"),
    };
    let (templates, _) = fetch_through_cache(true, None, served_listing());
    let template = resolve_template(&templates, &name).unwrap();
    let raw = raw_template_url("http://127.0.0.1:9/raw/", &template.file_name).unwrap();
    assert_eq!(raw, "http://127.0.0.1:9/raw/Node.gitignore");
    let (content, _) = fetch_through_cache(true, None, "node_modules/\n".to_string());
    let file = append_bytes(b"", &content);
    let output = installed_message(&template.name, "/tmp/project/.gitignore");

    assert_eq!(String::from_utf8(file).unwrap(), "node_modules/\n");
    assert!(output.contains("appended Node"));
}

#[test]
fn prints_zsh_completion() {
    let request =
        plan_request(args(Some(Command::Completion { shell: "zsh".to_string() }), None, false));
    let shell = match request {
        Request::Completion { shell } => shell,
        other => panic!("unexpected request {other:?}"),
    };
    let output = completion_script(&shell).unwrap();

    assert!(output.contains("git-ignore __complete"));
    assert!(output.contains("compdef _git-ignore git-ignore"));
}

#[test]
fn completes_by_prefix() {
    let request = plan_request(args(
        Some(Command::Complete { prefix: Some("No".to_string()) }),
        None,
        false,
    ));
    let prefix = match request {
        Request::Complete { prefix } => prefix,
        other => panic!("unexpected request {other:?}"),
    };
    let (templates, _) = fetch_through_cache(true, None, served_listing());

    assert_eq!(complete_candidates(&templates, &prefix), "Node\n");
}

#[test]
fn no_cache_bypasses_existing_manifest_cache() {
    let cli = args(Some(Command::List), None, true);
    let enabled = cache_enabled(&AppConfig::default().cache, cli.no_cache);
    assert_eq!(plan_request(cli), Request::List);
    let cached = ManifestCache {
        fetched_at: 4_102_444_800,
        templates: vec![Template {
            name: "Cached".to_string(),
            file_name: "Cached.gitignore".to_string(),
        }],
    }
    .into_fresh(1_700_000_000, 600);
    assert!(cached.is_some());
    let (templates, actions) = fetch_through_cache(enabled, cached, served_listing());

    assert_eq!(format_template_list(&templates), "Node\nRust\n");
    assert_eq!(actions, vec![FetchAction::Fetch, FetchAction::UseFetched]);
}

#[test]
fn fresh_cache_spares_the_network() {
    let (templates, actions) =
        fetch_through_cache(true, Some(vec![]), served_listing());
    assert!(templates.is_empty());
    assert_eq!(actions, vec![FetchAction::ReadCache, FetchAction::UseCached]);
}

#[test]
fn fetched_data_is_written_before_use() {
    let (_, actions) = fetch_through_cache(true, None, 1u8);
    assert_eq!(
        actions,
        vec![
            FetchAction::ReadCache,
            FetchAction::Fetch,
            FetchAction::WriteCache,
            FetchAction::UseFetched
        ]
    );
}

#[test]
fn out_of_order_events_are_refused() {
    let mut machine = CachedFetch::new(true);
    assert_eq!(machine.step(FetchEvent::Fetched), None);
    assert_eq!(machine.stage, FetchStage::Start);
    assert_eq!(machine.step(FetchEvent::Begin), Some(FetchAction::ReadCache));
    assert_eq!(machine.step(FetchEvent::Begin), None);
    assert_eq!(machine.stage, FetchStage::ReadingCache);
}

#[test]
fn version_flag_wins_over_everything() {
    let mut cli = args(Some(Command::CacheClear), Some("Node"), true);
    cli.version = true;
    assert_eq!(plan_request(cli), Request::Version);
    assert_eq!(version_string("1.2.3", "2024-01-02", "abc1234"), "1.2.3 2024-01-02 abc1234");
}

#[test]
fn cache_clear_and_missing_prefix() {
    assert_eq!(plan_request(args(Some(Command::CacheClear), None, false)), Request::ClearCache);
    assert_eq!(CACHE_CLEARED, "cache cleared\n");
    assert_eq!(
        plan_request(args(Some(Command::Complete { prefix: None }), None, false)),
        Request::Complete { prefix: String::new() }
    );
}

#[test]
fn completion_scripts_by_shell() {
    assert!(completion_script("bash").unwrap().contains("complete -F _git_ignore_complete git-ignore"));
    let error = completion_script("fish").unwrap_err();
    assert_eq!(error, UnsupportedShell { shell: "fish".to_string() });
    assert_eq!(error.message(), "unsupported shell 'fish'; expected bash or zsh");
}

#[test]
fn config_file_keys_override_defaults() {
    let default = AppConfig::default();
    assert!(default.cache.enabled);
    assert_eq!(default.cache.ttl_seconds, 600);
    assert_eq!(AppConfig::from_config_file(ConfigFile { cache: None }), default);
    let config = AppConfig::from_config_file(ConfigFile {
        cache: Some(CacheConfigFile { enabled: Some(false), ttl_seconds: None }),
    });
    assert!(!config.cache.enabled);
    assert_eq!(config.cache.ttl_seconds, 600);
    assert!(!cache_enabled(&config.cache, false));
    let config = AppConfig::from_config_file(ConfigFile {
        cache: Some(CacheConfigFile { enabled: None, ttl_seconds: Some(5) }),
    });
    assert!(config.cache.enabled);
    assert_eq!(config.cache.ttl_seconds, 5);
}

#[test]
fn raw_urls_join_and_check_scheme() {
    assert_eq!(
        raw_template_url(
            "https://raw.githubusercontent.com/github/gitignore/refs/heads/main/",
            "Node.gitignore"
        )
        .unwrap(),
        "https://raw.githubusercontent.com/github/gitignore/refs/heads/main/Node.gitignore"
    );
    assert_eq!(
        raw_template_url("https://example.com/base", "A B.gitignore").unwrap(),
        "https://example.com/base/A%20B.gitignore"
    );
    let error = raw_template_url("not a url", "Node.gitignore").unwrap_err();
    assert_eq!(
        error,
        UrlError::InvalidBase { cause: "relative URL without a base".to_string() }
    );
    assert_eq!(error.message(), "invalid raw base URL: relative URL without a base");
    assert_eq!(raw_template_url("data:text/plain,x", "Node.gitignore"), Err(UrlError::CannotBeABase));
    assert_eq!(raw_template_url("ftp://example.com/raw/", "Node.gitignore"), Err(UrlError::UnsupportedScheme));
    assert_eq!(UrlError::UnsupportedScheme.message(), "unsupported raw template URL scheme");
}

#[test]
fn completion_prints_nothing_without_a_template_list() {
    assert_eq!(completion_output(None, "No"), "");
    let templates = served_listing();
    assert_eq!(completion_output(Some(&templates), "ru"), "Rust\n");
}

#[test]
fn broken_cache_fails_without_fetching() {
    let mut machine = CachedFetch::new(true);
    assert_eq!(machine.step(FetchEvent::Begin), Some(FetchAction::ReadCache));
    assert_eq!(machine.step(FetchEvent::CacheReadFailed), Some(FetchAction::Fail));
    assert_eq!(machine.stage, FetchStage::Failed);
    assert_eq!(machine.step(FetchEvent::CacheMiss), None);
}

#[test]
fn failed_fetch_or_write_fails_the_run() {
    let mut machine = CachedFetch::new(false);
    assert_eq!(machine.step(FetchEvent::Begin), Some(FetchAction::Fetch));
    assert_eq!(machine.step(FetchEvent::FetchFailed), Some(FetchAction::Fail));
    let mut machine = CachedFetch::new(true);
    machine.step(FetchEvent::Begin);
    machine.step(FetchEvent::CacheMiss);
    assert_eq!(machine.step(FetchEvent::Fetched), Some(FetchAction::WriteCache));
    assert_eq!(machine.step(FetchEvent::CacheWriteFailed), Some(FetchAction::Fail));
    assert_eq!(machine.step(FetchEvent::CacheWritten), None);
}

#[test]
fn too_long_url_error_text() {
    assert_eq!(UrlError::TooLong.message(), "raw template URL is too long");
}
