//! What a `fijjit` scraper reports.
use vstd::prelude::*;

verus! {

/// What a scraper found on a given run.
#[derive(Debug)]
pub enum ScrapeResult {
    /// Nothing worth notifying about.
    NoChange,
    /// A single alert.
    Alert(String),
    /// Several alerts, one Slack message per entry.
    Alerts(Vec<String>),
}

} // verus!
