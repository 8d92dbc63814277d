//! The settings of `config.toml`, with their defaults.

use vstd::prelude::*;

verus! {

/// Whether caching is on when the file does not say.
pub const DEFAULT_CACHE_ENABLED: bool = true;

/// How long, in seconds, cached data stays fresh when the file does not say.
pub const DEFAULT_TTL_SECONDS: u64 = 600;

/// The `[cache]` table of the file, as written: each key may be missing.
#[derive(Clone, Copy, Debug, PartialEq, Eq)]
pub struct CacheConfigFile {
    pub enabled: Option<bool>,
    pub ttl_seconds: Option<u64>,
}

/// The whole file, as written: the `[cache]` table may be missing.
#[derive(Clone, Copy, Debug, PartialEq, Eq)]
pub struct ConfigFile {
    pub cache: Option<CacheConfigFile>,
}

/// The cache settings in force.
#[derive(Clone, Copy, Debug, PartialEq, Eq)]
pub struct CacheConfig {
    pub enabled: bool,
    /// How long cached data stays fresh, in seconds.
    pub ttl_seconds: u64,
}

/// The settings in force.
#[derive(Clone, Copy, Debug, PartialEq, Eq)]
pub struct AppConfig {
    pub cache: CacheConfig,
}

/// The settings that a file gives: each missing key takes its default.
pub open spec fn config_from(file: ConfigFile) -> AppConfig {
    let enabled = match file.cache {
        Some(c) => match c.enabled {
            Some(e) => e,
            None => DEFAULT_CACHE_ENABLED,
        },
        None => DEFAULT_CACHE_ENABLED,
    };
    let ttl = match file.cache {
        Some(c) => match c.ttl_seconds {
            Some(t) => t,
            None => DEFAULT_TTL_SECONDS,
        },
        None => DEFAULT_TTL_SECONDS,
    };
    AppConfig { cache: CacheConfig { enabled, ttl_seconds: ttl } }
}

/// The settings when there is no file.
pub open spec fn default_config() -> AppConfig {
    AppConfig { cache: CacheConfig { enabled: DEFAULT_CACHE_ENABLED, ttl_seconds: DEFAULT_TTL_SECONDS } }
}

impl AppConfig {
    /// The settings that a parsed file gives.
    pub fn from_config_file(file: ConfigFile) -> (r: Self)
        ensures
            r == config_from(file),
    {
        let cache = match file.cache {
            Some(c) => c,
            None => CacheConfigFile { enabled: None, ttl_seconds: None },
        };
        let enabled = match cache.enabled {
            Some(e) => e,
            None => DEFAULT_CACHE_ENABLED,
        };
        let ttl_seconds = match cache.ttl_seconds {
            Some(t) => t,
            None => DEFAULT_TTL_SECONDS,
        };
        AppConfig { cache: CacheConfig { enabled, ttl_seconds } }
    }
}

impl Default for AppConfig {
    /// The settings when there is no file: caching on, fresh for 600 seconds.
    fn default() -> (r: Self)
        ensures
            r == default_config(),
    {
        AppConfig { cache: CacheConfig { enabled: DEFAULT_CACHE_ENABLED, ttl_seconds: DEFAULT_TTL_SECONDS } }
    }
}

/// A file that says nothing gives the same settings as no file at all, and
/// so does a file whose `[cache]` table is empty.
pub proof fn lemma_empty_file_is_default()
    ensures
        config_from(ConfigFile { cache: None }) == default_config(),
        config_from(ConfigFile { cache: Some(CacheConfigFile { enabled: None, ttl_seconds: None }) })
            == default_config(),
{
}

/// Each key that the file gives is the setting in force.
pub proof fn lemma_file_keys_win(enabled: bool, ttl_seconds: u64)
    ensures
        config_from(
            ConfigFile { cache: Some(CacheConfigFile { enabled: Some(enabled), ttl_seconds: Some(ttl_seconds) }) },
        ) == (AppConfig { cache: CacheConfig { enabled, ttl_seconds } }),
{
}

} // verus!
