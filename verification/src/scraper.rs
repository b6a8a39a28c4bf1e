//! What a scraper reports, and the interface every scraper offers.
use vstd::prelude::*;
use crate::str_map::StrMap;

verus! {

/// What a scraper found on a given run.
#[derive(Debug)]
pub enum ScrapeResult {
    /// Nothing worth notifying about.
    NoChange,
    /// One or more alerts to send to Slack, one Slack message per entry.
    Alerts(Vec<String>),
}

/// Implemented by every scraper.
pub trait Scraper {
    /// The scraper's name, as a specification.
    spec fn spec_name(&self) -> Seq<char>;

    /// Short unique identifier used in CLI commands, e.g. `"bike-discount"`.
    fn name(&self) -> (r: &str)
        ensures
            r@ == self.spec_name(),
    ;

    /// Human-readable description shown in `fijit list`.
    fn description(&self) -> &str;

    /// Per-scraper Slack webhook, resolved against the environment `env`.
    /// `None` falls back to the global webhook.
    /// A scraper without its own webhook keeps this default, which has none.
    fn slack_webhook(&self, env: &StrMap) -> (r: Option<String>)
        default_ensures
            r is None,
    {
        None
    }

    /// Default cron schedule, shown in `fijit list`.
    /// A scraper without a schedule keeps this default, which has none.
    fn schedule(&self) -> (r: Option<&str>)
        default_ensures
            r is None,
    {
        None
    }

    /// Message template to send to Slack when the scraper returns an error.
    /// Supports `{name}` and `{error}` placeholders. `None` logs errors silently.
    /// A scraper without an error message keeps this default, which has none.
    fn on_error_message(&self) -> (r: Option<&str>)
        default_ensures
            r is None,
    {
        None
    }
}

} // verus!
