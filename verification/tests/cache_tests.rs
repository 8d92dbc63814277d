use git_ignore::cache::{is_fresh, ManifestCache, TemplateCache};
use git_ignore::template::Template;
use std::time::{SystemTime, UNIX_EPOCH};

fn now_unix() -> u64 {
    SystemTime::now().duration_since(UNIX_EPOCH).unwrap().as_secs()
}

fn node() -> Template {
    Template { name: "Node".to_string(), file_name: "Node.gitignore".to_string() }
}

#[test]
fn returns_fresh_manifest_cache() {
    let templates = vec![node()];
    let record = ManifestCache::new(&templates, now_unix());

    assert_eq!(record.into_fresh(now_unix(), 600), Some(templates));
}

#[test]
fn ignores_expired_manifest_cache() {
    let record = ManifestCache { fetched_at: 1, templates: vec![node()] };

    assert_eq!(record.into_fresh(now_unix(), 1), None);
}

#[test]
fn saved_manifest_reads_back_while_fresh() {
    let templates = vec![node()];
    let record = ManifestCache::new(&templates, 1_000);
    assert_eq!(record.fetched_at, 1_000);
    assert_eq!(record.into_fresh(1_600, 600), Some(templates));
}

#[test]
fn expired_manifest_reads_back_as_nothing() {
    let record = ManifestCache { fetched_at: 1, templates: vec![node()] };
    assert_eq!(record.into_fresh(1_700_000_000, 1), None);
}

#[test]
fn template_content_expires_one_second_past_ttl() {
    let record = TemplateCache::new("node_modules/\n", 100);
    assert_eq!(record.content, "node_modules/\n");
    assert_eq!(TemplateCache::new("x", 100).into_fresh(110, 10), Some("x".to_string()));
    assert_eq!(record.into_fresh(111, 10), None);
}

#[test]
fn data_stamped_in_the_future_is_fresh() {
    assert!(is_fresh(10, 4_102_444_800, 0));
    assert!(is_fresh(5, 5, 0));
    assert!(!is_fresh(6, 5, 0));
    assert!(is_fresh(u64::MAX, 0, u64::MAX));
}
