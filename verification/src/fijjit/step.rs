//! `fijjit` pipeline steps: flat records tagged by `action`.
use vstd::prelude::*;

verus! {

/// A single declarative step in a scraper pipeline.
///
/// Which fields are required depends on `action`.
#[derive(Debug, Clone)]
pub struct Step {
    /// What this step does.
    pub action: Action,
    /// CSS selector (required by `query_all`).
    pub selector: Option<String>,
    /// JavaScript expression (required by `eval_json`).
    pub script: Option<String>,
    /// Element field to inspect (`"text"`, `"class"`, `"href"`, `"value"`).
    pub field: Option<String>,
    /// Comparison operator (required by `filter`, `alert_if`, `alert_if_any`).
    pub op: Option<Op>,
    /// The value to compare against, or a literal value for `set`.
    pub value: Option<String>,
    /// Variable name to write to (used by `set` and `map`).
    pub var: Option<String>,
    /// Slack message template (required by `alert_*` actions).
    pub message: Option<String>,
    /// Seconds to wait after page load before evaluating (default: 3).
    pub wait: Option<u64>,
}

/// The operation a pipeline step performs.
#[derive(Debug, Clone, Copy, PartialEq, Eq, Structural)]
pub enum Action {
    /// Fetch the scraper URL and query all elements matching a CSS `selector`.
    QueryAll,
    /// Fetch the scraper URL, evaluate a JS `script`, and parse the JSON result.
    EvalJson,
    /// Keep only the first element whose `field` equals `value`.
    Find,
    /// Keep all elements whose `field` satisfies `op` against `value`.
    Filter,
    /// Store a literal `value` into a named `var`.
    SetVar,
    /// Collect `field` from all elements and join them into a named `var`.
    MapVar,
    /// Emit an alert if the first matching element's `field` satisfies `op` against `value`.
    AlertIf,
    /// Emit an alert if the current element list is empty.
    AlertIfEmpty,
    /// Emit one alert per element whose `field` satisfies `op` against `value`.
    AlertIfAny,
    /// Print the current element list to stdout.
    Log,
}

/// A binary comparison operator.
#[derive(Debug, Clone, Copy, PartialEq, Eq, Structural)]
pub enum Op {
    /// Exact equality.
    Eq,
    /// Not equal.
    NotEq,
    /// Field contains the value as a substring.
    Contains,
    /// Field does not contain the value as a substring.
    NotContains,
    /// Field matches the value as a regular expression.
    Matches,
}

} // verus!
