//! The `fijjit` pipeline: scraper definitions and the execution of their steps.
use vstd::prelude::*;
use crate::element::{opt_str_view, opt_view};
use crate::fijjit::config::Config;
use crate::fijjit::element::{basic_field, BasicElementView, Element};
use crate::fijjit::scraper::ScrapeResult;
use crate::fijjit::step::{Action, Op, Step};
use crate::ops::op_holds;
use crate::pipeline::{fetch_views, usable_webhook, wait_or_default, FetchRequest, FetchView, StepAction};
use crate::records::{json_quoted, non_empty, JsonRecord};
use crate::scraper::Scraper;
use crate::stages::put_opt;
use crate::str_map::StrMap;
use crate::template::{render_env, render_template};

pub use crate::template::{interpolate_env, interpolate_template};
use crate::text::{join, join_strings, push_str_chars, str_eq, strings_view};

verus! {

/// A scraper definition (normally read from a TOML file in `scrapers/`).
pub struct ScraperDef {
    /// Unique identifier used in CLI commands and crontab entries.
    pub name: String,
    /// Human-readable description shown in `fijjit list`.
    pub description: Option<String>,
    /// Page URL that `query_all` and `eval_json` steps will fetch.
    pub url: Option<String>,
    /// Default cron schedule displayed in `fijjit list`.
    pub schedule: Option<String>,
    /// Per-scraper Slack webhook, overriding the global one. Supports `${ENV_VAR}`.
    pub slack_webhook: Option<String>,
    /// Ordered list of pipeline steps.
    pub steps: Vec<Step>,
}

/// A config-file-driven scraper that executes a declarative pipeline.
pub struct ConfigScraper {
    /// Parsed scraper definition.
    pub def: ScraperDef,
    /// Global config.
    pub config: Config,
}

impl ConfigScraper {
    /// Create a new `ConfigScraper` from a definition and the global config.
    pub fn new(def: ScraperDef, config: Config) -> (r: ConfigScraper)
        ensures
            r.def == def,
            r.config == config,
    {
        ConfigScraper { def, config }
    }

    /// Resolve the Slack webhook, preferring the per-scraper value over the
    /// global one; both are expanded against `env`, and one that expands to
    /// nothing counts as absent.
    pub fn resolved_webhook(&self, env: &StrMap) -> (r: Option<String>)
        ensures
            opt_view(r) == (match usable_webhook(self.def.slack_webhook, env@) {
                Some(w) => Some(w),
                None => usable_webhook(self.config.slack_webhook, env@),
            }),
    {
        let own = match &self.def.slack_webhook {
            Some(s) => {
                let e = interpolate_env(s.as_str(), env);
                if e.as_str().is_empty() {
                    None
                } else {
                    Some(e)
                }
            },
            None => None,
        };
        match own {
            Some(w) => Some(w),
            None => match &self.config.slack_webhook {
                Some(s) => {
                    let e = interpolate_env(s.as_str(), env);
                    if e.as_str().is_empty() {
                        None
                    } else {
                        Some(e)
                    }
                },
                None => None,
            },
        }
    }
}

impl Scraper for ConfigScraper {
    open spec fn spec_name(&self) -> Seq<char> {
        self.def.name@
    }

    fn name(&self) -> (r: &str) {
        self.def.name.as_str()
    }

    fn description(&self) -> (r: &str)
        ensures
            r@ == (match self.def.description {
                Some(d) => d@,
                None => Seq::<char>::empty(),
            }),
    {
        match &self.def.description {
            Some(d) => d.as_str(),
            None => {
                proof {
                    reveal_strlit("");
                }
                ""
            },
        }
    }

    fn slack_webhook(&self, env: &StrMap) -> (r: Option<String>)
        ensures
            opt_view(r) == (match usable_webhook(self.def.slack_webhook, env@) {
                Some(w) => Some(w),
                None => usable_webhook(self.config.slack_webhook, env@),
            }),
    {
        self.resolved_webhook(env)
    }

    fn schedule(&self) -> (r: Option<&str>)
        ensures
            opt_str_view(r) == opt_view(self.def.schedule),
    {
        match &self.def.schedule {
            Some(s) => Some(s.as_str()),
            None => None,
        }
    }
}

/// A required field that a step lacks.
#[derive(Debug, Clone, Copy, PartialEq, Eq, Structural)]
pub enum Missing {
    /// `query_all` without `selector`.
    QueryAllSelector,
    /// `eval_json` without `script`.
    EvalJsonScript,
    /// `find` without `field`.
    FindField,
    /// `find` without `value`.
    FindValue,
    /// `filter` without `field`.
    FilterField,
    /// `filter` without `op`.
    FilterOp,
    /// `filter` without `value`.
    FilterValue,
    /// `set` without `var`.
    SetVar,
    /// `set` without `value`.
    SetValue,
    /// `map` without `field`.
    MapField,
    /// `map` without `var`.
    MapVar,
    /// `alert_if` without `field`.
    AlertIfField,
    /// `alert_if` without `op`.
    AlertIfOp,
    /// `alert_if` without `value`.
    AlertIfValue,
    /// `alert_if` without `message`.
    AlertIfMessage,
    /// `alert_if_empty` without `message`.
    AlertIfEmptyMessage,
    /// `alert_if_any` without `field`.
    AlertIfAnyField,
    /// `alert_if_any` without `op`.
    AlertIfAnyOp,
    /// `alert_if_any` without `value`.
    AlertIfAnyValue,
    /// `alert_if_any` without `message`.
    AlertIfAnyMessage,
}

/// The action and field names of a missing-field error.
pub open spec fn missing_names(m: Missing) -> (Seq<char>, Seq<char>) {
    match m {
        Missing::QueryAllSelector => ("query_all"@, "selector"@),
        Missing::EvalJsonScript => ("eval_json"@, "script"@),
        Missing::FindField => ("find"@, "field"@),
        Missing::FindValue => ("find"@, "value"@),
        Missing::FilterField => ("filter"@, "field"@),
        Missing::FilterOp => ("filter"@, "op"@),
        Missing::FilterValue => ("filter"@, "value"@),
        Missing::SetVar => ("set"@, "var"@),
        Missing::SetValue => ("set"@, "value"@),
        Missing::MapField => ("map"@, "field"@),
        Missing::MapVar => ("map"@, "var"@),
        Missing::AlertIfField => ("alert_if"@, "field"@),
        Missing::AlertIfOp => ("alert_if"@, "op"@),
        Missing::AlertIfValue => ("alert_if"@, "value"@),
        Missing::AlertIfMessage => ("alert_if"@, "message"@),
        Missing::AlertIfEmptyMessage => ("alert_if_empty"@, "message"@),
        Missing::AlertIfAnyField => ("alert_if_any"@, "field"@),
        Missing::AlertIfAnyOp => ("alert_if_any"@, "op"@),
        Missing::AlertIfAnyValue => ("alert_if_any"@, "value"@),
        Missing::AlertIfAnyMessage => ("alert_if_any"@, "message"@),
    }
}

fn names_exec(m: Missing) -> (r: (&'static str, &'static str))
    ensures
        (r.0@, r.1@) == missing_names(m),
{
    match m {
        Missing::QueryAllSelector => ("query_all", "selector"),
        Missing::EvalJsonScript => ("eval_json", "script"),
        Missing::FindField => ("find", "field"),
        Missing::FindValue => ("find", "value"),
        Missing::FilterField => ("filter", "field"),
        Missing::FilterOp => ("filter", "op"),
        Missing::FilterValue => ("filter", "value"),
        Missing::SetVar => ("set", "var"),
        Missing::SetValue => ("set", "value"),
        Missing::MapField => ("map", "field"),
        Missing::MapVar => ("map", "var"),
        Missing::AlertIfField => ("alert_if", "field"),
        Missing::AlertIfOp => ("alert_if", "op"),
        Missing::AlertIfValue => ("alert_if", "value"),
        Missing::AlertIfMessage => ("alert_if", "message"),
        Missing::AlertIfEmptyMessage => ("alert_if_empty", "message"),
        Missing::AlertIfAnyField => ("alert_if_any", "field"),
        Missing::AlertIfAnyOp => ("alert_if_any", "op"),
        Missing::AlertIfAnyValue => ("alert_if_any", "value"),
        Missing::AlertIfAnyMessage => ("alert_if_any", "message"),
    }
}

impl Missing {
    /// The error message: `"<action> requires '<field>'"`.
    pub fn message(&self) -> (r: String)
        ensures
            r@ == missing_names(*self).0 + " requires '"@ + missing_names(*self).1 + "'"@,
    {
        let (a, f) = names_exec(*self);
        let mut s = String::new();
        push_str_chars(&mut s, a);
        push_str_chars(&mut s, " requires '");
        push_str_chars(&mut s, f);
        push_str_chars(&mut s, "'");
        assert(s@ =~= missing_names(*self).0 + " requires '"@ + missing_names(*self).1 + "'"@);
        s
    }
}

/// The same operator in the full operator set.
pub open spec fn full_op(op: Op) -> crate::step::Op {
    match op {
        Op::Eq => crate::step::Op::Eq,
        Op::NotEq => crate::step::Op::NotEq,
        Op::Contains => crate::step::Op::Contains,
        Op::NotContains => crate::step::Op::NotContains,
        Op::Matches => crate::step::Op::Matches,
    }
}

/// Evaluate `field_val op value`.
pub fn eval_op(field_val: &str, op: &Op, value: &str) -> (r: bool)
    ensures
        r == op_holds(full_op(*op), field_val@, value@),
{
    let full = match op {
        Op::Eq => crate::step::Op::Eq,
        Op::NotEq => crate::step::Op::NotEq,
        Op::Contains => crate::step::Op::Contains,
        Op::NotContains => crate::step::Op::NotContains,
        Op::Matches => crate::step::Op::Matches,
    };
    crate::ops::eval_op(field_val, &full, value)
}

/// The views of a sequence of elements.
pub open spec fn basic_views(es: Seq<Element>) -> Seq<BasicElementView> {
    es.map_values(|e: Element| e@)
}

/// The template variables for an element: `base` plus its present fields.
pub open spec fn basic_vars(e: BasicElementView, base: Map<Seq<char>, Seq<char>>) -> Map<Seq<char>, Seq<char>> {
    put_opt(put_opt(put_opt(put_opt(base, "text"@, e.text), "class"@, e.class), "href"@, e.href), "value"@, e.value)
}

fn put_opt_exec(m: &mut StrMap, k: &str, v: &Option<String>)
    ensures
        final(m)@ == put_opt(old(m)@, k@, opt_view(*v)),
{
    match v {
        Some(x) => m.insert(k.to_owned(), x.clone()),
        None => {},
    }
}

/// The template variables for `el` on top of `base`.
pub fn element_vars(el: &Element, base: &StrMap) -> (m: StrMap)
    ensures
        m@ == basic_vars(el@, base@),
{
    let mut m = base.clone();
    put_opt_exec(&mut m, "text", &el.text);
    put_opt_exec(&mut m, "class", &el.class);
    put_opt_exec(&mut m, "href", &el.href);
    put_opt_exec(&mut m, "value", &el.value);
    m
}

/// The element a record describes (its extra attributes are not kept).
pub open spec fn basic_record(r: JsonRecord) -> BasicElementView {
    BasicElementView {
        text: non_empty(r.text),
        class: non_empty(r.class),
        href: non_empty(r.href),
        value: non_empty(r.value),
    }
}

fn keep_non_empty(o: &Option<String>) -> (r: Option<String>)
    ensures
        opt_view(r) == non_empty(*o),
{
    match o {
        Some(s) => if s.as_str().is_empty() {
            None
        } else {
            Some(s.clone())
        },
        None => None,
    }
}

/// The element described by an extracted record. Empty values are dropped.
pub fn json_to_element(rec: &JsonRecord) -> (e: Element)
    ensures
        e@ == basic_record(*rec),
{
    Element {
        text: keep_non_empty(&rec.text),
        class: keep_non_empty(&rec.class),
        href: keep_non_empty(&rec.href),
        value: keep_non_empty(&rec.value),
    }
}

/// Whether the element's `field` is present and satisfies the test (`op`, or
/// plain equality when `op` is absent) against `value`.
pub open spec fn basic_passes(e: BasicElementView, field: Seq<char>, op: Option<Op>, value: Seq<char>) -> bool {
    match basic_field(e, field) {
        Some(v) => match op {
            Some(o) => op_holds(full_op(o), v, value),
            None => v == value,
        },
        None => false,
    }
}

fn passes_exec(el: &Element, field: &str, op: Option<Op>, value: &str) -> (r: bool)
    ensures
        r == basic_passes(el@, field@, op, value@),
{
    match el.get_field(field) {
        Some(v) => match op {
            Some(o) => eval_op(v, &o, value),
            None => str_eq(v, value),
        },
        None => false,
    }
}

/// The elements that pass, in order.
pub open spec fn passing(es: Seq<BasicElementView>, field: Seq<char>, op: Option<Op>, value: Seq<char>) -> Seq<BasicElementView>
    decreases es.len(),
{
    if es.len() == 0 {
        seq![]
    } else if basic_passes(es.last(), field, op, value) {
        passing(es.drop_last(), field, op, value).push(es.last())
    } else {
        passing(es.drop_last(), field, op, value)
    }
}

fn passing_exec(es: &Vec<Element>, field: &str, op: Option<Op>, value: &str) -> (r: Vec<Element>)
    ensures
        basic_views(r@) == passing(basic_views(es@), field@, op, value@),
{
    let mut r: Vec<Element> = Vec::new();
    let mut i: usize = 0;
    while i < es.len()
        invariant
            i <= es@.len(),
            basic_views(r@) == passing(basic_views(es@.take(i as int)), field@, op, value@),
        decreases es@.len() - i,
    {
        proof {
            assert(basic_views(es@.take(i + 1)).drop_last() =~= basic_views(es@.take(i as int)));
            assert(basic_views(es@.take(i + 1)).last() == es@[i as int]@);
        }
        if passes_exec(&es[i], field, op, value) {
            let ghost before = r@;
            r.push(es[i].clone());
            assert(basic_views(r@) =~= basic_views(before).push(es@[i as int]@));
        }
        i += 1;
    }
    assert(es@.take(es@.len() as int) =~= es@);
    r
}

/// The present values of `field`, in element order.
pub open spec fn basic_values(es: Seq<BasicElementView>, field: Seq<char>) -> Seq<Seq<char>>
    decreases es.len(),
{
    if es.len() == 0 {
        seq![]
    } else {
        match basic_field(es.last(), field) {
            Some(v) => basic_values(es.drop_last(), field).push(v),
            None => basic_values(es.drop_last(), field),
        }
    }
}

fn values_exec(es: &Vec<Element>, field: &str) -> (r: Vec<String>)
    ensures
        strings_view(r@) == basic_values(basic_views(es@), field@),
{
    let mut r: Vec<String> = Vec::new();
    let mut i: usize = 0;
    while i < es.len()
        invariant
            i <= es@.len(),
            strings_view(r@) == basic_values(basic_views(es@.take(i as int)), field@),
        decreases es@.len() - i,
    {
        proof {
            assert(basic_views(es@.take(i + 1)).drop_last() =~= basic_views(es@.take(i as int)));
            assert(basic_views(es@.take(i + 1)).last() == es@[i as int]@);
        }
        match es[i].get_field(field) {
            Some(v) => {
                let ghost before = r@;
                r.push(v.to_owned());
                assert(strings_view(r@) =~= strings_view(before).push(v@));
            },
            None => {},
        }
        i += 1;
    }
    assert(es@.take(es@.len() as int) =~= es@);
    r
}

/// The messages rendered for each element, in order.
pub open spec fn messages_for(es: Seq<BasicElementView>, message: Seq<char>, vars: Map<Seq<char>, Seq<char>>) -> Seq<Seq<char>> {
    es.map_values(|e: BasicElementView| render_template(message, basic_vars(e, vars)))
}

fn messages_exec(es: &Vec<Element>, message: &str, vars: &StrMap) -> (r: Vec<String>)
    ensures
        strings_view(r@) == messages_for(basic_views(es@), message@, vars@),
{
    let mut r: Vec<String> = Vec::new();
    let mut i: usize = 0;
    while i < es.len()
        invariant
            i <= es@.len(),
            strings_view(r@) == messages_for(basic_views(es@).take(i as int), message@, vars@),
        decreases es@.len() - i,
    {
        let ev = element_vars(&es[i], vars);
        let msg = interpolate_template(message, &ev);
        let ghost before = r@;
        r.push(msg);
        assert(strings_view(r@) =~= strings_view(before).push(msg@));
        assert(basic_views(es@).take(i + 1) =~= basic_views(es@).take(i as int).push(es@[i as int]@));
        assert(strings_view(r@) =~= messages_for(basic_views(es@).take(i + 1), message@, vars@));
        i += 1;
    }
    assert(basic_views(es@).take(es@.len() as int) =~= basic_views(es@));
    r
}

/// The state carried from step to step.
pub struct PipelineState {
    /// The current element list.
    pub elements: Vec<Element>,
    /// Template variables.
    pub vars: StrMap,
    /// Alerts emitted so far.
    pub alerts: Vec<String>,
}

/// The abstract value of a [`PipelineState`].
pub struct BasicPipelineView {
    pub elements: Seq<BasicElementView>,
    pub vars: Map<Seq<char>, Seq<char>>,
    pub alerts: Seq<Seq<char>>,
}

impl View for PipelineState {
    type V = BasicPipelineView;

    open spec fn view(&self) -> BasicPipelineView {
        BasicPipelineView {
            elements: basic_views(self.elements@),
            vars: self.vars@,
            alerts: strings_view(self.alerts@),
        }
    }
}

/// `o`'s characters, or the missing-field error `m`.
pub open spec fn need(o: Option<String>, m: Missing) -> Result<Seq<char>, Missing> {
    match o {
        Some(s) => Ok(s@),
        None => Err(m),
    }
}

/// `o`'s operator, or the missing-field error `m`.
pub open spec fn need_op(o: Option<Op>, m: Missing) -> Result<Op, Missing> {
    match o {
        Some(x) => Ok(x),
        None => Err(m),
    }
}

/// The extraction script of `query_all` for `selector`.
pub open spec fn basic_query_script(selector: Seq<char>) -> Seq<char> {
    "JSON.stringify(Array.from(document.querySelectorAll("@ + json_quoted(selector)
        + ")).map(el => ({text: el.textContent.replace(/\\s+/g,' ').trim(), class: el.className, href: el.getAttribute('href'), value: el.getAttribute('value')})))"@
}

/// The effect of a step on the state, or the first missing required field
/// (checked in the order the fields are listed for the action). Fetching
/// steps and `log` leave the state unchanged.
pub open spec fn basic_outcome(step: Step, env: Map<Seq<char>, Seq<char>>, ps: BasicPipelineView) -> Result<BasicPipelineView, Missing> {
    match step.action {
        Action::QueryAll => match need(step.selector, Missing::QueryAllSelector) {
            Ok(_) => Ok(ps),
            Err(m) => Err(m),
        },
        Action::EvalJson => match need(step.script, Missing::EvalJsonScript) {
            Ok(_) => Ok(ps),
            Err(m) => Err(m),
        },
        Action::Find => match (need(step.field, Missing::FindField), need(step.value, Missing::FindValue)) {
            (Err(m), _) => Err(m),
            (_, Err(m)) => Err(m),
            (Ok(f), Ok(v)) => {
                let p = passing(ps.elements, f, step.op, v);
                Ok(BasicPipelineView { elements: if p.len() > 0 { seq![p[0]] } else { seq![] }, ..ps })
            },
        },
        Action::Filter => match (need(step.field, Missing::FilterField), need_op(step.op, Missing::FilterOp), need(step.value, Missing::FilterValue)) {
            (Err(m), _, _) => Err(m),
            (_, Err(m), _) => Err(m),
            (_, _, Err(m)) => Err(m),
            (Ok(f), Ok(o), Ok(v)) => Ok(BasicPipelineView { elements: passing(ps.elements, f, Some(o), v), ..ps }),
        },
        Action::SetVar => match (need(step.var, Missing::SetVar), need(step.value, Missing::SetValue)) {
            (Err(m), _) => Err(m),
            (_, Err(m)) => Err(m),
            (Ok(k), Ok(v)) => Ok(BasicPipelineView { vars: ps.vars.insert(k, render_env(v, env)), ..ps }),
        },
        Action::MapVar => match (need(step.field, Missing::MapField), need(step.var, Missing::MapVar)) {
            (Err(m), _) => Err(m),
            (_, Err(m)) => Err(m),
            (Ok(f), Ok(k)) => Ok(BasicPipelineView { vars: ps.vars.insert(k, join(basic_values(ps.elements, f), ", "@)), ..ps }),
        },
        Action::AlertIf => match (need(step.field, Missing::AlertIfField), need_op(step.op, Missing::AlertIfOp), need(step.value, Missing::AlertIfValue), need(step.message, Missing::AlertIfMessage)) {
            (Err(m), _, _, _) => Err(m),
            (_, Err(m), _, _) => Err(m),
            (_, _, Err(m), _) => Err(m),
            (_, _, _, Err(m)) => Err(m),
            (Ok(f), Ok(o), Ok(v), Ok(msg)) => {
                let p = passing(ps.elements, f, Some(o), v);
                Ok(BasicPipelineView { alerts: if p.len() > 0 { ps.alerts + messages_for(seq![p[0]], msg, ps.vars) } else { ps.alerts }, ..ps })
            },
        },
        Action::AlertIfEmpty => match need(step.message, Missing::AlertIfEmptyMessage) {
            Err(m) => Err(m),
            Ok(msg) => Ok(BasicPipelineView { alerts: if ps.elements.len() == 0 { ps.alerts.push(render_template(msg, ps.vars)) } else { ps.alerts }, ..ps }),
        },
        Action::AlertIfAny => match (need(step.field, Missing::AlertIfAnyField), need_op(step.op, Missing::AlertIfAnyOp), need(step.value, Missing::AlertIfAnyValue), need(step.message, Missing::AlertIfAnyMessage)) {
            (Err(m), _, _, _) => Err(m),
            (_, Err(m), _, _) => Err(m),
            (_, _, Err(m), _) => Err(m),
            (_, _, _, Err(m)) => Err(m),
            (Ok(f), Ok(o), Ok(v), Ok(msg)) => Ok(BasicPipelineView { alerts: ps.alerts + messages_for(passing(ps.elements, f, Some(o), v), msg, ps.vars), ..ps }),
        },
        Action::Log => Ok(ps),
    }
}

/// The page a fetching step loads.
pub open spec fn basic_fetch(step: Step, url: Seq<char>, env: Map<Seq<char>, Seq<char>>) -> FetchView {
    match step.action {
        Action::QueryAll => FetchView {
            url,
            script: basic_query_script(render_env(step.selector.unwrap()@, env)),
            wait: wait_or_default(step.wait),
        },
        _ => FetchView { url, script: step.script.unwrap()@, wait: wait_or_default(step.wait) },
    }
}

fn append_all(alerts: &mut Vec<String>, more: Vec<String>)
    ensures
        strings_view(final(alerts)@) == strings_view(old(alerts)@) + strings_view(more@),
{
    let mut i: usize = 0;
    while i < more.len()
        invariant
            i <= more@.len(),
            strings_view(alerts@) == strings_view(old(alerts)@) + strings_view(more@.take(i as int)),
        decreases more@.len() - i,
    {
        let ghost before = alerts@;
        alerts.push(more[i].clone());
        assert(strings_view(alerts@) =~= strings_view(before).push(more@[i as int]@));
        assert(strings_view(more@.take(i + 1)) =~= strings_view(more@.take(i as int)).push(more@[i as int]@));
        i += 1;
    }
    assert(more@.take(more@.len() as int) =~= more@);
}

fn script_for(selector: &str) -> (r: String)
    ensures
        r@ == basic_query_script(selector@),
{
    let mut out = String::new();
    push_str_chars(&mut out, "JSON.stringify(Array.from(document.querySelectorAll(");
    let sel = crate::records::json_string_of(selector);
    push_str_chars(&mut out, sel.as_str());
    push_str_chars(&mut out, ")).map(el => ({text: el.textContent.replace(/\\s+/g,' ').trim(), class: el.className, href: el.getAttribute('href'), value: el.getAttribute('value')})))");
    assert(out@ =~= basic_query_script(selector@));
    out
}

/// Execute one step against `url` and the environment `env`. Steps that only
/// compute are applied to `ps`; `query_all` and `eval_json` return the page
/// to load, whose records the caller hands to [`apply_fetched`]; `log` asks
/// the caller to print the elements.
pub fn execute_step(step: &Step, url: &str, env: &StrMap, ps: &mut PipelineState) -> (r: Result<StepAction, Missing>)
    ensures
        match basic_outcome(*step, env@, old(ps)@) {
            Ok(v) => r is Ok && final(ps)@ == v,
            Err(m) => r == Err::<StepAction, Missing>(m) && final(ps)@ == old(ps)@,
        },
        r is Ok && (step.action == Action::QueryAll || step.action == Action::EvalJson) ==> (r matches Ok(StepAction::Fetch(reqs)) && fetch_views(reqs@) == seq![basic_fetch(*step, url@, env@)]),
        r is Ok && step.action == Action::Log ==> r matches Ok(StepAction::Log),
{
    match step.action {
        Action::QueryAll => {
            let selector = match &step.selector {
                Some(s) => s,
                None => return Err(Missing::QueryAllSelector),
            };
            let sel = interpolate_env(selector.as_str(), env);
            let script = script_for(sel.as_str());
            let mut reqs: Vec<FetchRequest> = Vec::new();
            reqs.push(FetchRequest { url: url.to_owned(), script, wait: match step.wait { Some(w) => w, None => 3 } });
            assert(fetch_views(reqs@) =~= seq![basic_fetch(*step, url@, env@)]);
            Ok(StepAction::Fetch(reqs))
        },
        Action::EvalJson => {
            let script = match &step.script {
                Some(s) => s.clone(),
                None => return Err(Missing::EvalJsonScript),
            };
            let mut reqs: Vec<FetchRequest> = Vec::new();
            reqs.push(FetchRequest { url: url.to_owned(), script, wait: match step.wait { Some(w) => w, None => 3 } });
            assert(fetch_views(reqs@) =~= seq![basic_fetch(*step, url@, env@)]);
            Ok(StepAction::Fetch(reqs))
        },
        Action::Find => {
            let field = match &step.field { Some(s) => s, None => return Err(Missing::FindField) };
            let value = match &step.value { Some(s) => s, None => return Err(Missing::FindValue) };
            let p = passing_exec(&ps.elements, field.as_str(), step.op, value.as_str());
            let mut found: Vec<Element> = Vec::new();
            if p.len() > 0 {
                found.push(p[0].clone());
            }
            assert(basic_views(found@) =~= (if basic_views(p@).len() > 0 { seq![basic_views(p@)[0]] } else { Seq::<BasicElementView>::empty() }));
            ps.elements = found;
            Ok(StepAction::Continue)
        },
        Action::Filter => {
            let field = match &step.field { Some(s) => s, None => return Err(Missing::FilterField) };
            let op = match step.op { Some(o) => o, None => return Err(Missing::FilterOp) };
            let value = match &step.value { Some(s) => s, None => return Err(Missing::FilterValue) };
            let p = passing_exec(&ps.elements, field.as_str(), Some(op), value.as_str());
            ps.elements = p;
            Ok(StepAction::Continue)
        },
        Action::SetVar => {
            let var = match &step.var { Some(s) => s, None => return Err(Missing::SetVar) };
            let value = match &step.value { Some(s) => s, None => return Err(Missing::SetValue) };
            let v = interpolate_env(value.as_str(), env);
            ps.vars.insert(var.clone(), v);
            Ok(StepAction::Continue)
        },
        Action::MapVar => {
            let field = match &step.field { Some(s) => s, None => return Err(Missing::MapField) };
            let var = match &step.var { Some(s) => s, None => return Err(Missing::MapVar) };
            let vals = values_exec(&ps.elements, field.as_str());
            let joined = join_strings(&vals, ", ");
            ps.vars.insert(var.clone(), joined);
            Ok(StepAction::Continue)
        },
        Action::AlertIf => {
            let field = match &step.field { Some(s) => s, None => return Err(Missing::AlertIfField) };
            let op = match step.op { Some(o) => o, None => return Err(Missing::AlertIfOp) };
            let value = match &step.value { Some(s) => s, None => return Err(Missing::AlertIfValue) };
            let message = match &step.message { Some(s) => s, None => return Err(Missing::AlertIfMessage) };
            let p = passing_exec(&ps.elements, field.as_str(), Some(op), value.as_str());
            if p.len() > 0 {
                let mut first: Vec<Element> = Vec::new();
                first.push(p[0].clone());
                assert(basic_views(first@) =~= seq![basic_views(p@)[0]]);
                let msgs = messages_exec(&first, message.as_str(), &ps.vars);
                append_all(&mut ps.alerts, msgs);
            }
            Ok(StepAction::Continue)
        },
        Action::AlertIfEmpty => {
            let message = match &step.message { Some(s) => s, None => return Err(Missing::AlertIfEmptyMessage) };
            if ps.elements.len() == 0 {
                let msg = interpolate_template(message.as_str(), &ps.vars);
                let ghost before = ps.alerts@;
                ps.alerts.push(msg);
                assert(strings_view(ps.alerts@) =~= strings_view(before).push(msg@));
            }
            Ok(StepAction::Continue)
        },
        Action::AlertIfAny => {
            let field = match &step.field { Some(s) => s, None => return Err(Missing::AlertIfAnyField) };
            let op = match step.op { Some(o) => o, None => return Err(Missing::AlertIfAnyOp) };
            let value = match &step.value { Some(s) => s, None => return Err(Missing::AlertIfAnyValue) };
            let message = match &step.message { Some(s) => s, None => return Err(Missing::AlertIfAnyMessage) };
            let p = passing_exec(&ps.elements, field.as_str(), Some(op), value.as_str());
            let msgs = messages_exec(&p, message.as_str(), &ps.vars);
            append_all(&mut ps.alerts, msgs);
            Ok(StepAction::Continue)
        },
        Action::Log => Ok(StepAction::Log),
    }
}

/// Replace the element list with the records of the loaded page.
pub fn apply_fetched(page: &Vec<JsonRecord>, ps: &mut PipelineState)
    ensures
        final(ps)@ == (BasicPipelineView {
            elements: page@.map_values(|r: JsonRecord| basic_record(r)),
            ..old(ps)@
        }),
{
    let mut out: Vec<Element> = Vec::new();
    let mut j: usize = 0;
    while j < page.len()
        invariant
            j <= page@.len(),
            basic_views(out@) == page@.take(j as int).map_values(|r: JsonRecord| basic_record(r)),
        decreases page@.len() - j,
    {
        let el = json_to_element(&page[j]);
        let ghost before = basic_views(out@);
        out.push(el);
        assert(basic_views(out@) =~= before.push(el@));
        assert(page@.take(j + 1).map_values(|r: JsonRecord| basic_record(r)) =~= page@.take(j as int).map_values(|r: JsonRecord| basic_record(r)).push(basic_record(page@[j as int])));
        j += 1;
    }
    assert(page@.take(page@.len() as int) =~= page@);
    ps.elements = out;
}

/// The state a run starts from: the global variables are not part of this
/// configuration, so only `url` is set.
pub fn start_pipeline(def: &ScraperDef, env: &StrMap) -> (r: (String, PipelineState))
    ensures
        r.0@ == (match def.url {
            Some(u) => render_env(u@, env@),
            None => Seq::<char>::empty(),
        }),
        r.1@ == (BasicPipelineView {
            elements: seq![],
            vars: Map::<Seq<char>, Seq<char>>::empty().insert("url"@, r.0@),
            alerts: seq![],
        }),
{
    let url = match &def.url {
        Some(u) => interpolate_env(u.as_str(), env),
        None => String::new(),
    };
    let mut vars = StrMap::new();
    vars.insert("url".to_owned(), url.clone());
    let ps = PipelineState { elements: Vec::new(), vars, alerts: Vec::new() };
    assert(basic_views(ps.elements@) =~= Seq::<BasicElementView>::empty());
    assert(strings_view(ps.alerts@) =~= Seq::<Seq<char>>::empty());
    (url, ps)
}

/// The result of a finished run: no alert, one alert, or several.
pub fn finish_pipeline(ps: PipelineState) -> (r: ScrapeResult)
    ensures
        match r {
            ScrapeResult::NoChange => ps.alerts@.len() == 0,
            ScrapeResult::Alert(a) => ps.alerts@.len() == 1 && a == ps.alerts@[0],
            ScrapeResult::Alerts(a) => ps.alerts@.len() > 1 && a@ == ps.alerts@,
        },
{
    let mut alerts = ps.alerts;
    if alerts.len() == 0 {
        ScrapeResult::NoChange
    } else if alerts.len() == 1 {
        ScrapeResult::Alert(alerts.remove(0))
    } else {
        ScrapeResult::Alerts(alerts)
    }
}

} // verus!
