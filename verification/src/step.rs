//! Declarative pipeline step types.
use vstd::prelude::*;

verus! {

/// A single declarative step in a scraper pipeline.
///
/// Each variant carries exactly the fields its action needs, so a config that
/// omits a required field fails when it is read rather than during execution.
#[derive(Debug, Clone)]
pub enum Step {
    /// Fetch the scraper URL and query all elements matching a CSS `selector`.
    /// Replaces the current element list with the matches.
    QueryAll {
        /// CSS selector to match.
        selector: String,
        /// Extra HTML attributes to capture beyond the built-in
        /// `text`/`class`/`href`/`value`, e.g. `["data-price", "aria-label"]`.
        attrs: Vec<String>,
        /// Seconds to wait after page load before evaluating (default: 3).
        wait: Option<u64>,
    },
    /// Fetch the scraper URL, evaluate a JS `script`, and parse the JSON result.
    /// Replaces the current element list with the parsed elements.
    EvalJson {
        /// JavaScript expression returning a JSON array of elements.
        script: String,
        /// Seconds to wait after page load before evaluating (default: 3).
        wait: Option<u64>,
    },
    /// Keep only the first element whose `field` matches `value` (optionally via `op`).
    Find {
        /// Element field to inspect (a built-in or a captured attribute).
        field: String,
        /// Comparison operator. Defaults to exact equality when omitted.
        op: Option<Op>,
        /// Value to compare against; supports `{field}` interpolation.
        value: String,
    },
    /// Keep all elements whose `field` satisfies `op` against `value`.
    Filter {
        /// Element field to inspect (a built-in or a captured attribute).
        field: String,
        /// Comparison operator.
        op: Op,
        /// Value to compare against; supports `{field}` interpolation.
        value: String,
    },
    /// Store a literal `value` into a named `var`.
    SetVar {
        /// Variable name to write to.
        var: String,
        /// Literal value (supports `${ENV_VAR}` interpolation).
        value: String,
    },
    /// Collect `field` from all elements and join them into a named `var`.
    MapVar {
        /// Element field to collect.
        field: String,
        /// Variable name to write the comma-joined result to.
        var: String,
    },
    /// Reorder the elements by `field`.
    Sort {
        /// Field to order by.
        field: String,
        /// Ascending (default) or descending.
        order: SortOrder,
        /// Compare values as numbers rather than as text.
        numeric: bool,
    },
    /// Add a derived `field` to every element from a `template`.
    Compute {
        /// Field written onto every element.
        field: String,
        /// Template with `{name}` placeholders.
        template: String,
    },
    /// For each element, fetch the URL in `field` and extract `selector` on
    /// that page. The element list is replaced by the flattened matches.
    Follow {
        /// Field holding the link to follow (default `href`).
        field: String,
        /// CSS selector extracted on each followed page.
        selector: String,
        /// Extra HTML attributes to capture.
        attrs: Vec<String>,
        /// Seconds to wait after page load before evaluating (default: 3).
        wait: Option<u64>,
    },
    /// Emit a Slack alert. Trigger behaviour is controlled by `on` (default: `"any"`).
    Alert {
        /// Slack message template.
        message: String,
        /// Trigger mode (default: `"any"`).
        on: AlertTrigger,
        /// Field to watch, or the identity key for `added`/`removed`.
        field: Option<String>,
        /// Variable to watch instead of a field (for `change`/`decrease`/`increase`).
        var: Option<String>,
        /// Assumed previous value when no prior state exists.
        default: Option<String>,
        /// Stable identifier for the persisted state of a stateful alert.
        /// When omitted, state falls back to the step's position.
        id: Option<String>,
    },
    /// Print the current element list to stdout.
    Log,
}

/// Direction of a `sort` step.
#[derive(Debug, Clone, Copy, PartialEq, Eq, Structural)]
pub enum SortOrder {
    /// Ascending (the default).
    Asc,
    /// Descending.
    Desc,
}

/// Controls when an `alert` step fires.
#[derive(Debug, Clone, Copy, PartialEq, Eq, Structural)]
pub enum AlertTrigger {
    /// Fire once when the element list is non-empty. Uses the first element's
    /// fields for template interpolation. This is the default.
    Any,
    /// Fire one alert per element.
    Each,
    /// Fire when the element list is empty.
    Empty,
    /// Fire when the watched value changes from its previous value.
    Change,
    /// Fire when the watched value, read as a number, is strictly lower than last run.
    Decrease,
    /// Fire when the watched value, read as a number, is strictly higher than last run.
    Increase,
    /// Fire once per element whose identity `field` was not present last run.
    Added,
    /// Fire once per identity `field` present last run but now gone.
    Removed,
}

impl Default for AlertTrigger {
    fn default() -> (r: AlertTrigger)
        ensures
            r == AlertTrigger::Any,
    {
        AlertTrigger::Any
    }
}

impl Default for SortOrder {
    fn default() -> (r: SortOrder)
        ensures
            r == SortOrder::Asc,
    {
        SortOrder::Asc
    }
}

impl AlertTrigger {
    /// Whether this is the default trigger (`Any`); used to skip serialization.
    pub fn is_default(&self) -> (r: bool)
        ensures
            r == (*self == AlertTrigger::Any),
    {
        match self {
            AlertTrigger::Any => true,
            _ => false,
        }
    }
}

/// A binary comparison operator.
#[derive(Debug, Clone, Copy, PartialEq, Eq, Structural)]
pub enum Op {
    /// Exact equality.
    Eq,
    /// Not equal.
    NotEq,
    /// Field contains the value as a substring.
    Contains,
    /// Field does not contain the value as a substring.
    NotContains,
    /// Field matches the value as a regular expression.
    Matches,
    /// Field starts with value.
    StartsWith,
    /// Field ends with value.
    EndsWith,
    /// Field, read as a number, is greater than value. Currency symbols and
    /// thousands separators are ignored, so `"£1,299.00"` compares as `1299.00`.
    /// No match if either side isn't numeric.
    Gt,
    /// Field, read as a number, is less than value.
    Lt,
    /// Field, read as a number, is greater than or equal to value.
    Gte,
    /// Field, read as a number, is less than or equal to value.
    Lte,
}

} // verus!
