//! Global `fijjit` configuration.
use vstd::prelude::*;

verus! {

/// Global configuration (normally loaded from `fijjit.toml`).
pub struct Config {
    /// Path to the Obscura binary. Defaults to `/tmp/obscura`.
    pub obscura_path: Option<String>,
    /// Global Slack webhook URL.
    pub slack_webhook: Option<String>,
    /// Per-scraper overrides keyed by scraper name.
    pub scrapers: Vec<(String, ScraperConfig)>,
}

/// Per-scraper overrides.
pub struct ScraperConfig {
    /// Cron expression, e.g. "*/30 * * * *".
    pub schedule: Option<String>,
    /// Extra scraper-specific keys, e.g. target URL overrides.
    pub extra: Vec<(String, toml::Value)>,
}

impl Config {
    /// The Obscura binary path, defaulting to `/tmp/obscura`.
    pub fn obscura(&self) -> (r: &str)
        ensures
            r@ == (match self.obscura_path {
                Some(p) => p@,
                None => "/tmp/obscura"@,
            }),
    {
        match &self.obscura_path {
            Some(p) => p.as_str(),
            None => "/tmp/obscura",
        }
    }
}

} // verus!
