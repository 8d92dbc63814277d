//! What the cache keeps, and when kept data is still fresh. Reading and
//! writing the cache files, and reading the clock, happen outside.

use vstd::prelude::*;

use crate::template::{Template, clone_template};

verus! {

/// Data fetched at `fetched_at` (seconds since the Unix epoch) is fresh at
/// `now` when no more than `ttl_seconds` have passed; data stamped later
/// than `now` counts as just fetched.
pub open spec fn fresh(now: u64, fetched_at: u64, ttl_seconds: u64) -> bool {
    (if now >= fetched_at { now - fetched_at } else { 0 }) <= ttl_seconds
}

/// Whether data fetched at `fetched_at` is still fresh at `now`.
pub fn is_fresh(now: u64, fetched_at: u64, ttl_seconds: u64) -> (r: bool)
    ensures
        r == fresh(now, fetched_at, ttl_seconds),
{
    now.saturating_sub(fetched_at) <= ttl_seconds
}

/// What reading kept data at `now` gives: the data while it is fresh, nothing after.
pub open spec fn read_back<T>(fetched_at: u64, value: T, now: u64, ttl_seconds: u64) -> Option<T> {
    if fresh(now, fetched_at, ttl_seconds) {
        Some(value)
    } else {
        None
    }
}

/// The kept list of templates, with the time it was fetched.
#[derive(Debug)]
pub struct ManifestCache {
    pub fetched_at: u64,
    pub templates: Vec<Template>,
}

/// A kept template file, with the time it was fetched.
#[derive(Debug)]
pub struct TemplateCache {
    pub fetched_at: u64,
    pub content: String,
}

fn copy_templates(templates: &[Template]) -> (r: Vec<Template>)
    ensures
        r@ == templates@,
{
    let mut r: Vec<Template> = Vec::new();
    let mut i: usize = 0;
    while i < templates.len()
        invariant
            i <= templates.len(),
            r@ == templates@.take(i as int),
        decreases templates.len() - i,
    {
        r.push(clone_template(&templates[i]));
        assert(r@ =~= templates@.take(i + 1));
        i = i + 1;
    }
    assert(templates@.take(i as int) =~= templates@);
    r
}

impl ManifestCache {
    /// The record that saving `templates` at `now` writes.
    pub fn new(templates: &[Template], now: u64) -> (r: Self)
        ensures
            r.fetched_at == now,
            r.templates@ == templates@,
    {
        ManifestCache { fetched_at: now, templates: copy_templates(templates) }
    }

    /// What loading this record at `now` gives: its templates while they are fresh.
    pub fn into_fresh(self, now: u64, ttl_seconds: u64) -> (r: Option<Vec<Template>>)
        ensures
            r == read_back(self.fetched_at, self.templates, now, ttl_seconds),
    {
        if is_fresh(now, self.fetched_at, ttl_seconds) {
            Some(self.templates)
        } else {
            None
        }
    }
}

impl TemplateCache {
    /// The record that saving `content` at `now` writes.
    pub fn new(content: &str, now: u64) -> (r: Self)
        ensures
            r.fetched_at == now,
            r.content@ == content@,
    {
        TemplateCache { fetched_at: now, content: content.to_string() }
    }

    /// What loading this record at `now` gives: its content while it is fresh.
    pub fn into_fresh(self, now: u64, ttl_seconds: u64) -> (r: Option<String>)
        ensures
            r == read_back(self.fetched_at, self.content, now, ttl_seconds),
    {
        if is_fresh(now, self.fetched_at, ttl_seconds) {
            Some(self.content)
        } else {
            None
        }
    }
}

/// Data saved at `saved_at` reads back unchanged at any `now` up to
/// `ttl_seconds` later (or earlier than `saved_at`), and reads back as
/// nothing once more time has passed.
pub proof fn lemma_saved_reads_back<T>(value: T, saved_at: u64, now: u64, ttl_seconds: u64)
    ensures
        now <= saved_at + ttl_seconds ==> read_back(saved_at, value, now, ttl_seconds) == Some(value),
        now > saved_at + ttl_seconds ==> read_back(saved_at, value, now, ttl_seconds) is None,
{
}

/// Freshness only runs out: data stale at some time is stale at every later time.
pub proof fn lemma_staleness_lasts(fetched_at: u64, ttl_seconds: u64, earlier: u64, later: u64)
    requires
        earlier <= later,
        !fresh(earlier, fetched_at, ttl_seconds),
    ensures
        !fresh(later, fetched_at, ttl_seconds),
{
}

} // verus!
