//! Config-driven pipeline: scraper definitions and the execution of their steps.
use vstd::prelude::*;
use crate::alerts::{alert_outcome, run_alert};
use crate::config::Config;
use crate::element::{opt_view, with_field, Element, ElementView, field_value};
use crate::records::{
    build_query_script, json_to_element, law_query_script_captures, query_script, record_element,
    script_captures, JsonRecord,
};
use crate::scraper::{ScrapeResult, Scraper};
use crate::stages::{
    all_passing, collect_field, compute_field, computed, field_values, find_first, first_passing,
    keep_passing, sort_elements, sorted_by, views,
};
use crate::step::{AlertTrigger, Step};
use crate::str_map::StrMap;
use crate::template::render_env;
use crate::text::{join, join_strings, nat_text, strings_view, usize_text};
use crate::urls::{resolve_url, resolved_url};

pub use crate::alerts::PipelineError;
pub use crate::template::{interpolate_env, interpolate_template};

verus! {

#[verifier::external_type_specification]
#[verifier::external_body]
pub struct ExPathBuf(std::path::PathBuf);

/// Error handler for a scraper, sent to Slack when a run fails.
pub struct OnError {
    /// Slack message template. Supports `{name}` and `{error}` placeholders.
    pub message: String,
}

/// A scraper definition (normally read from a TOML file in `scrapers/`).
pub struct ScraperDef {
    /// Unique identifier used in CLI commands and crontab entries.
    pub name: String,
    /// Human-readable description shown in `fijit list`.
    pub description: Option<String>,
    /// Page URL that `query_all` and `eval_json` steps will fetch.
    pub url: Option<String>,
    /// Default cron schedule displayed in `fijit list`.
    pub schedule: Option<String>,
    /// Per-scraper Slack webhook, overriding the global one. Supports `${ENV_VAR}`.
    pub slack_webhook: Option<String>,
    /// Ordered list of pipeline steps.
    pub steps: Vec<Step>,
    /// Optional error handler.
    pub on_error: Option<OnError>,
    /// Path this definition was loaded from; alert state is persisted there.
    pub source_path: Option<std::path::PathBuf>,
}

/// A config-file-driven scraper that executes a declarative pipeline.
pub struct ConfigScraper {
    /// Parsed scraper definition.
    pub def: ScraperDef,
    /// Global config (obscura path, global webhook, vars).
    pub config: Config,
}

/// The expanded webhook, when it is present and expands to something non-empty.
pub open spec fn usable_webhook(w: Option<String>, env: Map<Seq<char>, Seq<char>>) -> Option<Seq<char>> {
    match w {
        Some(s) => if render_env(s@, env).len() > 0 {
            Some(render_env(s@, env))
        } else {
            None
        },
        None => None,
    }
}

fn usable_webhook_exec(w: &Option<String>, env: &StrMap) -> (r: Option<String>)
    ensures
        opt_view(r) == usable_webhook(*w, env@),
{
    match w {
        Some(s) => {
            let e = interpolate_env(s.as_str(), env);
            if e.as_str().is_empty() {
                None
            } else {
                Some(e)
            }
        },
        None => None,
    }
}

impl ConfigScraper {
    /// Create a new `ConfigScraper` from a definition and the global config.
    pub fn new(def: ScraperDef, config: Config) -> (r: ConfigScraper)
        ensures
            r.def == def,
            r.config == config,
    {
        ConfigScraper { def, config }
    }

    /// Resolve the Slack webhook, preferring the per-scraper value over the
    /// global one. Both are expanded against the environment `env`; one that
    /// expands to nothing counts as absent.
    pub fn resolved_webhook(&self, env: &StrMap) -> (r: Option<String>)
        ensures
            opt_view(r) == (match usable_webhook(self.def.slack_webhook, env@) {
                Some(w) => Some(w),
                None => usable_webhook(self.config.slack_webhook, env@),
            }),
    {
        match usable_webhook_exec(&self.def.slack_webhook, env) {
            Some(w) => Some(w),
            None => usable_webhook_exec(&self.config.slack_webhook, env),
        }
    }
}

impl Scraper for ConfigScraper {
    open spec fn spec_name(&self) -> Seq<char> {
        self.def.name@
    }

    fn name(&self) -> (r: &str) {
        self.def.name.as_str()
    }

    fn description(&self) -> (r: &str)
        ensures
            r@ == (match self.def.description {
                Some(d) => d@,
                None => Seq::<char>::empty(),
            }),
    {
        match &self.def.description {
            Some(d) => d.as_str(),
            None => {
                proof {
                    reveal_strlit("");
                }
                ""
            },
        }
    }

    fn slack_webhook(&self, env: &StrMap) -> (r: Option<String>)
        ensures
            opt_view(r) == (match usable_webhook(self.def.slack_webhook, env@) {
                Some(w) => Some(w),
                None => usable_webhook(self.config.slack_webhook, env@),
            }),
    {
        self.resolved_webhook(env)
    }

    fn schedule(&self) -> (r: Option<&str>)
        ensures
            crate::element::opt_str_view(r) == opt_view(self.def.schedule),
    {
        match &self.def.schedule {
            Some(s) => Some(s.as_str()),
            None => None,
        }
    }

    fn on_error_message(&self) -> (r: Option<&str>)
        ensures
            crate::element::opt_str_view(r) == (match self.def.on_error {
                Some(e) => Some(e.message@),
                None => None,
            }),
    {
        match &self.def.on_error {
            Some(e) => Some(e.message.as_str()),
            None => None,
        }
    }
}

/// What the pipeline runs against: the page URL and the environment.
pub struct PipelineCtx {
    /// The scraper URL, already expanded.
    pub url: String,
    /// A snapshot of the process environment, for `${ENV_VAR}` expansion.
    pub env: StrMap,
}

/// The state carried from step to step.
pub struct PipelineState {
    /// The current element list.
    pub elements: Vec<Element>,
    /// Template variables.
    pub vars: StrMap,
    /// Alerts emitted so far.
    pub alerts: Vec<String>,
    /// Persisted alert state, keyed by alert id.
    pub state: StrMap,
}

/// The abstract value of a [`PipelineState`].
pub struct PipelineView {
    pub elements: Seq<ElementView>,
    pub vars: Map<Seq<char>, Seq<char>>,
    pub alerts: Seq<Seq<char>>,
    pub state: Map<Seq<char>, Seq<char>>,
}

impl View for PipelineState {
    type V = PipelineView;

    open spec fn view(&self) -> PipelineView {
        PipelineView {
            elements: views(self.elements@),
            vars: self.vars@,
            alerts: strings_view(self.alerts@),
            state: self.state@,
        }
    }
}

/// A page the app must load and extract, for a `query_all`, `eval_json` or
/// `follow` step.
pub struct FetchRequest {
    /// Page to load.
    pub url: String,
    /// Script to evaluate on the page; it yields a JSON array of elements.
    pub script: String,
    /// Seconds to wait after page load.
    pub wait: u64,
}

/// The abstract value of a [`FetchRequest`].
pub struct FetchView {
    pub url: Seq<char>,
    pub script: Seq<char>,
    pub wait: u64,
}

/// The views of the requests.
pub open spec fn fetch_views(rs: Seq<FetchRequest>) -> Seq<FetchView> {
    rs.map_values(|r: FetchRequest| FetchView { url: r.url@, script: r.script@, wait: r.wait })
}

/// What the app must do after a step.
pub enum StepAction {
    /// Nothing: the step is complete.
    Continue,
    /// Load these pages and hand their records to [`apply_fetched`].
    Fetch(Vec<FetchRequest>),
    /// Print the current element list.
    Log,
}

/// Whether the step loads pages.
pub open spec fn is_fetch(step: Step) -> bool {
    step is QueryAll || step is EvalJson || step is Follow
}

/// `wait`, defaulting to 3 seconds.
pub open spec fn wait_or_default(w: Option<u64>) -> u64 {
    match w {
        Some(x) => x,
        None => 3,
    }
}

/// The links of `follow`: for each element with `field`, the link resolved
/// against `base`.
pub open spec fn follow_links(es: Seq<ElementView>, field: Seq<char>, base: Seq<char>) -> Seq<Seq<char>>
    decreases es.len(),
{
    if es.len() == 0 {
        seq![]
    } else {
        match field_value(es.last(), field) {
            Some(l) => follow_links(es.drop_last(), field, base).push(resolved_url(base, l)),
            None => follow_links(es.drop_last(), field, base),
        }
    }
}

/// The pages a fetching step loads.
pub open spec fn fetches(step: Step, url: Seq<char>, env: Map<Seq<char>, Seq<char>>, es: Seq<ElementView>) -> Seq<FetchView> {
    match step {
        Step::QueryAll { selector, attrs, wait } => seq![
            FetchView {
                url,
                script: query_script(render_env(selector@, env), attrs@),
                wait: wait_or_default(wait),
            },
        ],
        Step::EvalJson { script, wait } => seq![
            FetchView { url, script: script@, wait: wait_or_default(wait) },
        ],
        Step::Follow { field, selector, attrs, wait } => follow_links(es, field@, url).map_values(
            |t: Seq<char>|
                FetchView {
                    url: t,
                    script: query_script(render_env(selector@, env), attrs@),
                    wait: wait_or_default(wait),
                },
        ),
        _ => seq![],
    }
}

/// The persisted-state key of an alert: its `id`, or else the step's position.
pub open spec fn state_key(id: Option<String>, idx: nat) -> Seq<char> {
    match id {
        Some(s) => s@,
        None => nat_text(idx),
    }
}

/// The effect of a step on the pipeline state. Fetching steps and `log`
/// leave it unchanged here (fetched pages are applied by `apply_fetched`).
pub open spec fn step_outcome(
    step: Step,
    env: Map<Seq<char>, Seq<char>>,
    ps: PipelineView,
    idx: nat,
) -> Result<PipelineView, PipelineError> {
    match step {
        Step::Find { field, op, value } => Ok(
            PipelineView {
                elements: first_passing(ps.elements, field@, op, value@, ps.vars),
                ..ps
            },
        ),
        Step::Filter { field, op, value } => Ok(
            PipelineView { elements: all_passing(ps.elements, field@, op, value@, ps.vars), ..ps },
        ),
        Step::SetVar { var, value } => Ok(
            PipelineView { vars: ps.vars.insert(var@, render_env(value@, env)), ..ps },
        ),
        Step::MapVar { field, var } => Ok(
            PipelineView {
                vars: ps.vars.insert(var@, join(field_values(ps.elements, field@), ", "@)),
                ..ps
            },
        ),
        Step::Sort { field, order, numeric } => Ok(
            PipelineView { elements: sorted_by(ps.elements, field@, numeric, order), ..ps },
        ),
        Step::Compute { field, template } => Ok(
            PipelineView { elements: computed(ps.elements, field@, template@, ps.vars), ..ps },
        ),
        Step::Alert { message, on, field, var, default, id } => match alert_outcome(
            message@,
            on,
            opt_view(field),
            opt_view(var),
            opt_view(default),
            state_key(id, idx),
            ps.elements,
            ps.vars,
            ps.alerts,
            ps.state,
        ) {
            Ok((a, st)) => Ok(PipelineView { alerts: a, state: st, ..ps }),
            Err(e) => Err(e),
        },
        _ => Ok(ps),
    }
}

fn fetch_request(url: &str, script: &String, wait: Option<u64>) -> (r: FetchRequest)
    ensures
        r.url@ == url@,
        r.script@ == script@,
        r.wait == wait_or_default(wait),
{
    FetchRequest {
        url: url.to_owned(),
        script: script.clone(),
        wait: match wait {
            Some(w) => w,
            None => 3,
        },
    }
}

/// Execute one step. Steps that only compute are applied to `ps` here;
/// `query_all`, `eval_json` and `follow` return the pages to load, whose
/// records the caller hands to [`apply_fetched`]; `log` asks the caller to
/// print the elements.
pub fn execute_step(step: &Step, ctx: &PipelineCtx, ps: &mut PipelineState, step_idx: usize) -> (r:
    Result<StepAction, PipelineError>)
    ensures
        match step_outcome(*step, ctx.env@, old(ps)@, step_idx as nat) {
            Ok(v) => r is Ok && final(ps)@ == v,
            Err(e) => r == Err::<StepAction, PipelineError>(e) && final(ps)@ == old(ps)@,
        },
        is_fetch(*step) ==> (r matches Ok(StepAction::Fetch(reqs)) && fetch_views(reqs@) == fetches(
            *step,
            ctx.url@,
            ctx.env@,
            old(ps)@.elements,
        )),
        *step is Log ==> r matches Ok(StepAction::Log),
        !is_fetch(*step) && !(*step is Log) ==> (r is Ok ==> r matches Ok(StepAction::Continue)),
{
    match step {
        Step::QueryAll { selector, attrs, wait } => {
            let sel = interpolate_env(selector.as_str(), &ctx.env);
            let script = build_query_script(sel.as_str(), attrs);
            let mut reqs: Vec<FetchRequest> = Vec::new();
            reqs.push(fetch_request(ctx.url.as_str(), &script, *wait));
            assert(fetch_views(reqs@) =~= fetches(*step, ctx.url@, ctx.env@, old(ps)@.elements));
            Ok(StepAction::Fetch(reqs))
        },
        Step::EvalJson { script, wait } => {
            let mut reqs: Vec<FetchRequest> = Vec::new();
            reqs.push(fetch_request(ctx.url.as_str(), script, *wait));
            assert(fetch_views(reqs@) =~= fetches(*step, ctx.url@, ctx.env@, old(ps)@.elements));
            Ok(StepAction::Fetch(reqs))
        },
        Step::Follow { field, selector, attrs, wait } => {
            let sel = interpolate_env(selector.as_str(), &ctx.env);
            let script = build_query_script(sel.as_str(), attrs);
            let mut reqs: Vec<FetchRequest> = Vec::new();
            let mut i: usize = 0;
            while i < ps.elements.len()
                invariant
                    i <= ps.elements@.len(),
                    ps@ == old(ps)@,
                    script@ == query_script(render_env(selector@, ctx.env@), attrs@),
                    fetch_views(reqs@) == follow_links(views(ps.elements@.take(i as int)), field@, ctx.url@).map_values(
                        |t: Seq<char>|
                            FetchView {
                                url: t,
                                script: query_script(render_env(selector@, ctx.env@), attrs@),
                                wait: wait_or_default(*wait),
                            },
                    ),
                decreases ps.elements@.len() - i,
            {
                proof {
                    assert(views(ps.elements@.take(i + 1)).drop_last() =~= views(ps.elements@.take(i as int)));
                    assert(views(ps.elements@.take(i + 1)).last() == ps.elements@[i as int]@);
                }
                match ps.elements[i].get_field(field.as_str()) {
                    Some(l) => {
                        let target = resolve_url(ctx.url.as_str(), l);
                        let ghost before = reqs@;
                        reqs.push(fetch_request(target.as_str(), &script, *wait));
                        assert(fetch_views(reqs@) =~= fetch_views(before).push(
                            FetchView { url: target@, script: script@, wait: wait_or_default(*wait) },
                        ));
                    },
                    None => {},
                }
                i += 1;
            }
            assert(ps.elements@.take(ps.elements@.len() as int) =~= ps.elements@);
            Ok(StepAction::Fetch(reqs))
        },
        Step::Find { field, op, value } => {
            let found = find_first(&ps.elements, field.as_str(), *op, value.as_str(), &ps.vars);
            ps.elements = found;
            Ok(StepAction::Continue)
        },
        Step::Filter { field, op, value } => {
            let kept = keep_passing(&ps.elements, field.as_str(), *op, value.as_str(), &ps.vars);
            ps.elements = kept;
            Ok(StepAction::Continue)
        },
        Step::SetVar { var, value } => {
            let v = interpolate_env(value.as_str(), &ctx.env);
            ps.vars.insert(var.clone(), v);
            Ok(StepAction::Continue)
        },
        Step::MapVar { field, var } => {
            let collected = collect_field(&ps.elements, field.as_str());
            let joined = join_strings(&collected, ", ");
            ps.vars.insert(var.clone(), joined);
            Ok(StepAction::Continue)
        },
        Step::Sort { field, order, numeric } => {
            let sorted = sort_elements(&ps.elements, field.as_str(), *order, *numeric);
            ps.elements = sorted;
            Ok(StepAction::Continue)
        },
        Step::Compute { field, template } => {
            compute_field(&mut ps.elements, field.as_str(), template.as_str(), &ps.vars);
            Ok(StepAction::Continue)
        },
        Step::Alert { message, on, field, var, default, id } => {
            let key = match id {
                Some(s) => s.clone(),
                None => usize_text(step_idx),
            };
            match run_alert(
                message.as_str(),
                *on,
                field,
                var,
                default,
                key,
                &ps.elements,
                &ps.vars,
                &mut ps.alerts,
                &mut ps.state,
            ) {
                Ok(()) => Ok(StepAction::Continue),
                Err(e) => Err(e),
            }
        },
        Step::Log => Ok(StepAction::Log),
    }
}

/// The elements of one fetched page; with a `source`, each also gets a
/// `source` field holding it.
pub open spec fn page_elements(page: Seq<JsonRecord>, source: Option<Seq<char>>) -> Seq<ElementView> {
    page.map_values(
        |r: JsonRecord|
            match source {
                Some(u) => with_field(record_element(r), "source"@, u),
                None => record_element(r),
            },
    )
}

/// The elements of all fetched pages, in request order.
pub open spec fn fetched_elements(pages: Seq<Vec<JsonRecord>>, urls: Seq<Seq<char>>, tag_source: bool) -> Seq<ElementView>
    decreases pages.len(),
{
    if pages.len() == 0 {
        seq![]
    } else {
        fetched_elements(pages.drop_last(), urls, tag_source) + page_elements(
            pages.last()@,
            if tag_source {
                Some(urls[pages.len() - 1])
            } else {
                None
            },
        )
    }
}

/// Replace the element list with the records extracted from the pages that
/// `execute_step` asked for (`pages[i]` from `requests[i]`). For `follow`,
/// each element also records the page it came from in its `source` field.
pub fn apply_fetched(
    step: &Step,
    requests: &Vec<FetchRequest>,
    pages: &Vec<Vec<JsonRecord>>,
    ps: &mut PipelineState,
)
    requires
        is_fetch(*step),
        pages@.len() == requests@.len(),
    ensures
        final(ps)@ == (PipelineView {
            elements: fetched_elements(
                pages@,
                fetch_views(requests@).map_values(|f: FetchView| f.url),
                *step is Follow,
            ),
            ..old(ps)@
        }),
{
    let tag = match step {
        Step::Follow { .. } => true,
        _ => false,
    };
    let ghost urls = fetch_views(requests@).map_values(|f: FetchView| f.url);
    let mut out: Vec<Element> = Vec::new();
    let mut i: usize = 0;
    while i < pages.len()
        invariant
            i <= pages@.len(),
            pages@.len() == requests@.len(),
            urls == fetch_views(requests@).map_values(|f: FetchView| f.url),
            views(out@) == fetched_elements(pages@.take(i as int), urls, tag),
        decreases pages@.len() - i,
    {
        let page = &pages[i];
        let ghost before = views(out@);
        let ghost src: Option<Seq<char>> = if tag { Some(urls[i as int]) } else { None };
        let mut j: usize = 0;
        while j < page.len()
            invariant
                j <= page@.len(),
                i < requests@.len(),
                urls == fetch_views(requests@).map_values(|f: FetchView| f.url),
                src == (if tag { Some(urls[i as int]) } else { None::<Seq<char>> }),
                views(out@) == before + page_elements(page@.take(j as int), src),
            decreases page@.len() - j,
        {
            let mut el = json_to_element(&page[j]);
            if tag {
                assert(urls[i as int] == requests@[i as int].url@);
                el.set_field("source", requests[i].url.clone());
            }
            let ghost b2 = views(out@);
            out.push(el);
            assert(views(out@) =~= b2.push(el@));
            assert(page_elements(page@.take(j + 1), src) =~= page_elements(page@.take(j as int), src).push(el@));
            j += 1;
        }
        proof {
            assert(page@.take(page@.len() as int) =~= page@);
            assert(pages@.take(i + 1).drop_last() =~= pages@.take(i as int));
            assert(pages@.take(i + 1).last() == pages@[i as int]);
        }
        i += 1;
    }
    assert(pages@.take(pages@.len() as int) =~= pages@);
    ps.elements = out;
}

/// The state a run starts from: the scraper URL expanded against `env`, the
/// global variables plus `url`, no elements, no alerts, and the persisted
/// alert state.
pub fn start_pipeline(def: &ScraperDef, config: &Config, env: &StrMap, persisted: StrMap) -> (r: (
    PipelineCtx,
    PipelineState,
))
    ensures
        r.0.url@ == (match def.url {
            Some(u) => render_env(u@, env@),
            None => Seq::<char>::empty(),
        }),
        r.0.env@ == env@,
        r.1@ == (PipelineView {
            elements: seq![],
            vars: config.vars@.insert("url"@, r.0.url@),
            alerts: seq![],
            state: persisted@,
        }),
{
    let url = match &def.url {
        Some(u) => interpolate_env(u.as_str(), env),
        None => String::new(),
    };
    let mut vars = config.vars.clone();
    vars.insert("url".to_owned(), url.clone());
    let ps = PipelineState { elements: Vec::new(), vars, alerts: Vec::new(), state: persisted };
    assert(views(ps.elements@) =~= Seq::<ElementView>::empty());
    assert(strings_view(ps.alerts@) =~= Seq::<Seq<char>>::empty());
    (PipelineCtx { url, env: env.clone() }, ps)
}

/// The result of a finished run: the alerts, or `NoChange` when there are none.
pub fn finish_pipeline(ps: PipelineState) -> (r: ScrapeResult)
    ensures
        match r {
            ScrapeResult::NoChange => ps.alerts@.len() == 0,
            ScrapeResult::Alerts(a) => a@ == ps.alerts@ && a@.len() > 0,
        },
{
    if ps.alerts.len() == 0 {
        ScrapeResult::NoChange
    } else {
        ScrapeResult::Alerts(ps.alerts)
    }
}

/// A `query_all` step loads the pipeline's page once, and a `follow` step
/// loads each followed link, always with a script that captures the step's
/// own selector (with `${VAR}`s expanded) and every attribute the step
/// lists in `attrs`.
pub proof fn law_fetch_scripts_capture_step_attrs(
    step: Step,
    url: Seq<char>,
    env: Map<Seq<char>, Seq<char>>,
    es: Seq<ElementView>,
)
    ensures
        match step {
            Step::QueryAll { selector, attrs, wait } => fetches(step, url, env, es).len() == 1
                && fetches(step, url, env, es)[0].url == url && script_captures(
                fetches(step, url, env, es)[0].script,
                render_env(selector@, env),
                attrs@,
            ),
            Step::Follow { field, selector, attrs, wait } => fetches(step, url, env, es).len()
                == follow_links(es, field@, url).len() && forall|i: int|
                0 <= i < fetches(step, url, env, es).len() ==> #[trigger] fetches(step, url, env, es)[i].url
                    == follow_links(es, field@, url)[i] && script_captures(
                    fetches(step, url, env, es)[i].script,
                    render_env(selector@, env),
                    attrs@,
                ),
            _ => true,
        },
{
    match step {
        Step::QueryAll { selector, attrs, wait } => {
            law_query_script_captures(render_env(selector@, env), attrs@);
        },
        Step::Follow { field, selector, attrs, wait } => {
            law_query_script_captures(render_env(selector@, env), attrs@);
        },
        _ => {},
    }
}

/// An `alert` step only adds alerts and updates the persisted state: the
/// element list and the variables stay as they were.
pub proof fn law_alert_keeps_list(step: Step, env: Map<Seq<char>, Seq<char>>, ps: PipelineView, idx: nat)
    requires
        step is Alert,
    ensures
        step_outcome(step, env, ps, idx) matches Ok(v) ==> v.elements == ps.elements && v.vars
            == ps.vars,
{
}

/// Steps that fetch, and `log`, change nothing until the fetched pages are
/// applied.
pub proof fn law_fetch_and_log_wait(step: Step, env: Map<Seq<char>, Seq<char>>, ps: PipelineView, idx: nat)
    requires
        is_fetch(step) || step is Log,
    ensures
        step_outcome(step, env, ps, idx) == Ok::<PipelineView, PipelineError>(ps),
{
}

/// An alert with an `id` keeps its state under that id wherever the step
/// stands in the pipeline.
pub proof fn law_state_key_ignores_position(id: String, i: nat, j: nat)
    ensures
        state_key(Some(id), i) == state_key(Some(id), j),
{
}

/// After `follow`, every element records in its `source` field the page it
/// was extracted from.
pub proof fn law_follow_tags_source(pages: Seq<Vec<JsonRecord>>, urls: Seq<Seq<char>>)
    requires
        pages.len() <= urls.len(),
    ensures
        forall|e: ElementView|
            #[trigger] fetched_elements(pages, urls, true).contains(e) ==> exists|i: int|
                0 <= i < pages.len() && field_value(e, "source"@) == Some(urls[i]),
    decreases pages.len(),
{
    if pages.len() > 0 {
        let d = pages.drop_last();
        law_follow_tags_source(d, urls);
        let n = pages.len() - 1;
        let front = fetched_elements(d, urls, true);
        let back = page_elements(pages.last()@, Some(urls[n]));
        assert forall|e: ElementView| #[trigger] fetched_elements(pages, urls, true).contains(e) implies exists|
            i: int,
        | 0 <= i < pages.len() && field_value(e, "source"@) == Some(urls[i]) by {
            let all = fetched_elements(pages, urls, true);
            assert(all == front + back);
            let k = choose|k: int| 0 <= k < all.len() && all[k] == e;
            if k < front.len() {
                assert(front[k] == e);
                assert(front.contains(e));
                let i = choose|i: int| 0 <= i < d.len() && field_value(e, "source"@) == Some(urls[i]);
                assert(d.len() <= pages.len());
            } else {
                assert(back[k - front.len()] == e);
                crate::element::law_set_then_get(
                    record_element(pages.last()@[k - front.len()]),
                    "source"@,
                    urls[n],
                );
            }
        }
    }
}

} // verus!
