use fijit::element::Element;
use fijit::number::parse_number;
use fijit::ops::eval_op;
use fijit::pipeline::{
    execute_step, interpolate_env, interpolate_template, PipelineCtx, PipelineError, PipelineState,
    StepAction,
};
use fijit::records::{json_to_element, JsonRecord};
use fijit::step::{AlertTrigger, Op, SortOrder, Step};
use fijit::str_map::StrMap;
use fijit::urls::resolve_url;

fn vars_of(pairs: &[(&str, &str)]) -> StrMap {
    let mut m = StrMap::new();
    for (k, v) in pairs {
        m.insert((*k).to_owned(), (*v).to_owned());
    }
    m
}

fn el(value: &str) -> Element {
    Element { value: Some(value.to_owned()), ..Default::default() }
}

fn el_text(text: &str) -> Element {
    Element { text: Some(text.to_owned()), ..Default::default() }
}

fn state(elements: Vec<Element>) -> PipelineState {
    PipelineState { elements, vars: StrMap::new(), alerts: Vec::new(), state: StrMap::new() }
}

fn ctx() -> PipelineCtx {
    PipelineCtx { url: "https://shop.test/sale/bikes?x=1#list".to_owned(), env: StrMap::new() }
}

fn run_step(step: &Step, ps: &mut PipelineState) -> StepAction {
    execute_step(step, &ctx(), ps, 0).unwrap()
}

/// Runs one step against a state map carried over between runs and returns
/// the alerts it emitted.
fn run_persist(step: &Step, mut ps: PipelineState, persisted: &mut StrMap) -> Vec<String> {
    ps.state = std::mem::replace(persisted, StrMap::new());
    run_step(step, &mut ps);
    *persisted = ps.state;
    ps.alerts
}

fn alert(on: AlertTrigger, field: Option<&str>, var: Option<&str>, id: &str) -> Step {
    Step::Alert {
        message: "{text}{value}".into(),
        on,
        field: field.map(str::to_owned),
        var: var.map(str::to_owned),
        default: None,
        id: Some(id.to_owned()),
    }
}

fn number_value(s: &str) -> Option<f64> {
    parse_number(s).map(|n| n.to_text().parse::<f64>().unwrap())
}

#[test]
fn interpolate_env_replaces_known_var() {
    let env = vars_of(&[("FIJJIT_TEST_VAR", "hello")]);
    assert_eq!(interpolate_env("prefix_${FIJJIT_TEST_VAR}_suffix", &env), "prefix_hello_suffix");
}

#[test]
fn interpolate_env_unknown_var_becomes_empty() {
    let env = StrMap::new();
    assert_eq!(interpolate_env("${FIJJIT_DEFINITELY_NOT_SET_XYZ}", &env), "");
}

#[test]
fn interpolate_template_replaces_known_key() {
    let vars = vars_of(&[("url", "https://example.com")]);
    assert_eq!(interpolate_template("buy at {url}", &vars), "buy at https://example.com");
}

#[test]
fn interpolate_template_leaves_unknown_key() {
    let vars = StrMap::new();
    assert_eq!(interpolate_template("{unknown}", &vars), "{unknown}");
}

#[test]
fn eval_op_contains() {
    assert!(eval_op("foo bar baz", &Op::Contains, "bar"));
    assert!(!eval_op("foo baz", &Op::Contains, "bar"));
}

#[test]
fn eval_op_matches_regex() {
    assert!(eval_op("--stock-1 active", &Op::Matches, r"--stock-\d"));
    assert!(!eval_op("--stock-4 active", &Op::Matches, r"--stock-1$"));
}

#[test]
fn parse_number_extracts_from_noisy_strings() {
    assert_eq!(number_value("£1,299.00 incl. VAT"), Some(1299.0));
    assert_eq!(number_value("$42.99"), Some(42.99));
    assert_eq!(number_value("12 in stock"), Some(12.0));
    assert_eq!(number_value("-5°C"), Some(-5.0));
    assert_eq!(number_value("sold out"), None);
}

#[test]
fn eval_op_numeric_comparisons() {
    assert!(eval_op("£1,299.00", &Op::Lt, "1500"));
    assert!(eval_op("£1,299.00", &Op::Gt, "1000"));
    assert!(eval_op("42", &Op::Gte, "42"));
    assert!(eval_op("42", &Op::Lte, "42"));
    assert!(!eval_op("42", &Op::Gt, "42"));
    // Non-numeric field never matches a numeric op.
    assert!(!eval_op("sold out", &Op::Lt, "100"));
}

#[test]
fn json_to_element_maps_fields() {
    let rec = JsonRecord {
        text: Some("58 cm".to_owned()),
        class: Some("item --stock-1".to_owned()),
        href: None,
        value: Some(String::new()),
        attrs: Vec::new(),
    };
    let el = json_to_element(&rec);
    assert_eq!(el.text.as_deref(), Some("58 cm"));
    assert_eq!(el.class.as_deref(), Some("item --stock-1"));
    assert!(el.href.is_none());
    assert!(el.value.is_none());
    assert!(el.attrs.is_empty());
}

#[test]
fn json_to_element_captures_extra_attrs() {
    let rec = JsonRecord {
        text: Some("Bike".to_owned()),
        class: None,
        href: None,
        value: None,
        attrs: vec![
            ("data-price".to_owned(), "£1,299.00".to_owned()),
            ("aria-label".to_owned(), String::new()),
            ("data-sku".to_owned(), "ABC".to_owned()),
        ],
    };
    let el = json_to_element(&rec);
    // Empty attribute values are dropped, non-empty ones are addressable by name.
    assert_eq!(el.get_field("data-price"), Some("£1,299.00"));
    assert_eq!(el.get_field("data-sku"), Some("ABC"));
    assert_eq!(el.get_field("aria-label"), None);
    assert_eq!(el.get_field("text"), Some("Bike"));
    // A custom attr is usable by a numeric op (e.g. price thresholds).
    assert!(eval_op(el.get_field("data-price").unwrap(), &Op::Lt, "1500"));
}

#[test]
fn resolve_url_handles_absolute_relative_and_full() {
    let base = "https://shop.test/sale/bikes?x=1#list";
    assert_eq!(resolve_url(base, "/p/bike-123"), "https://shop.test/p/bike-123");
    assert_eq!(resolve_url(base, "p/bike-123"), "https://shop.test/p/bike-123");
    assert_eq!(resolve_url(base, "https://other.test/x"), "https://other.test/x");
}

#[test]
fn sort_numeric_ascending_then_descending() {
    let mut ps = state(vec![el("€1,799.00"), el("€1,499.00"), el("sold out")]);
    run_step(&Step::Sort { field: "value".into(), order: SortOrder::Asc, numeric: true }, &mut ps);
    // Numeric values sort low→high; the non-numeric one lands last.
    let order: Vec<_> = ps.elements.iter().map(|e| e.value.as_deref()).collect();
    assert_eq!(order, vec![Some("€1,499.00"), Some("€1,799.00"), Some("sold out")]);

    run_step(&Step::Sort { field: "value".into(), order: SortOrder::Desc, numeric: true }, &mut ps);
    assert_eq!(ps.elements[0].value.as_deref(), Some("sold out"));
    assert_eq!(ps.elements[1].value.as_deref(), Some("€1,799.00"));
}

#[test]
fn compute_writes_a_derived_field() {
    let mut ps = state(vec![Element {
        text: Some("Backroad AL".into()),
        value: Some("€1,499.00".into()),
        ..Default::default()
    }]);
    run_step(&Step::Compute { field: "label".into(), template: "{text} @ {value}".into() }, &mut ps);
    assert_eq!(ps.elements[0].get_field("label"), Some("Backroad AL @ €1,499.00"));
}

#[test]
fn filter_compares_one_field_against_another() {
    let cheaper = Element {
        value: Some("1499".into()),
        attrs: vars_of(&[("old", "2099")]),
        ..Default::default()
    };
    let not_cheaper = Element {
        value: Some("2099".into()),
        attrs: vars_of(&[("old", "2099")]),
        ..Default::default()
    };
    let mut ps = state(vec![cheaper, not_cheaper]);
    run_step(
        &Step::Filter {
            field: "value".into(),
            op: Op::Lt,
            value: "{old}".into(), // field-to-field: current < old price
        },
        &mut ps,
    );
    assert_eq!(ps.elements.len(), 1);
    assert_eq!(ps.elements[0].value.as_deref(), Some("1499"));
}

#[test]
fn state_backed_triggers_fire_on_the_right_transitions() {
    // One in-memory map stands in for the scraper's persisted state, carried
    // across runs exactly as the pipeline persists it. Distinct ids coexist.
    let mut st = StrMap::new();

    // decrease: no prior reading -> silent; then a drop -> fires; flat -> silent.
    let drop_alert = alert(AlertTrigger::Decrease, Some("value"), None, "price");
    assert!(run_persist(&drop_alert, state(vec![el("2099")]), &mut st).is_empty());
    assert_eq!(run_persist(&drop_alert, state(vec![el("1499")]), &mut st).len(), 1);
    assert!(run_persist(&drop_alert, state(vec![el("1499")]), &mut st).is_empty());

    // increase: first reading silent, then a rise fires.
    let rise_alert = alert(AlertTrigger::Increase, Some("value"), None, "up");
    assert!(run_persist(&rise_alert, state(vec![el("1799")]), &mut st).is_empty());
    assert_eq!(run_persist(&rise_alert, state(vec![el("1899")]), &mut st).len(), 1);

    // change watching a var rather than the first element.
    let set_alert = alert(AlertTrigger::Change, None, Some("models"), "set");
    for (val, expect) in [("A, B", 1usize), ("A, B", 0), ("A, B, C", 1)] {
        let mut ps = state(vec![]);
        ps.vars.insert("models".into(), val.into());
        assert_eq!(run_persist(&set_alert, ps, &mut st).len(), expect, "change-on-var for {val:?}");
    }

    // added: empty baseline fires for all; next run fires only the new key.
    let add_alert = alert(AlertTrigger::Added, Some("text"), None, "models");
    let r = run_persist(&add_alert, state(vec![el_text("APEX"), el_text("GRX")]), &mut st);
    assert_eq!(r.len(), 2);
    let r = run_persist(
        &add_alert,
        state(vec![el_text("APEX"), el_text("GRX"), el_text("FORCE")]),
        &mut st,
    );
    assert_eq!(r.len(), 1);
    assert!(r[0].contains("FORCE"), "only the new model fires");

    // removed: a key present last run but gone now fires, exposing its value.
    let rm_alert = alert(AlertTrigger::Removed, Some("text"), None, "rm");
    run_persist(&rm_alert, state(vec![el_text("APEX"), el_text("GRX")]), &mut st);
    let r = run_persist(&rm_alert, state(vec![el_text("APEX")]), &mut st);
    assert_eq!(r.len(), 1);
    assert!(r[0].contains("GRX"), "the dropped model fires");
}

#[test]
fn change_alert_fires_once_for_a_new_reading_then_stays_silent() {
    let mut st = StrMap::new();
    let watch = alert(AlertTrigger::Change, Some("value"), None, "v");
    assert_eq!(run_persist(&watch, state(vec![el("in stock")]), &mut st), vec!["{text}in stock".to_owned()]);
    assert!(run_persist(&watch, state(vec![el("in stock")]), &mut st).is_empty());
    assert_eq!(st.get("v").map(String::as_str), Some("in stock"));
    assert_eq!(run_persist(&watch, state(vec![el("sold out")]), &mut st).len(), 1);
}

#[test]
fn change_alert_uses_the_default_as_first_reading() {
    let mut st = StrMap::new();
    let watch = Step::Alert {
        message: "now {value}".into(),
        on: AlertTrigger::Change,
        field: Some("value".into()),
        var: None,
        default: Some("sold out".into()),
        id: None,
    };
    assert!(run_persist(&watch, state(vec![el("sold out")]), &mut st).is_empty());
    // Without an id the state is kept under the step's position.
    assert_eq!(st.get("0").map(String::as_str), Some("sold out"));
}

#[test]
fn direction_alert_keeps_its_baseline_across_non_numeric_readings() {
    let mut st = StrMap::new();
    let drop_alert = alert(AlertTrigger::Decrease, Some("value"), None, "p");
    assert!(run_persist(&drop_alert, state(vec![el("€1,500")]), &mut st).is_empty());
    assert!(run_persist(&drop_alert, state(vec![el("sold out")]), &mut st).is_empty());
    assert_eq!(st.get("p").map(String::as_str), Some("€1,500"));
    assert_eq!(run_persist(&drop_alert, state(vec![el("€1,200")]), &mut st), vec!["{text}€1,200".to_owned()]);
}

#[test]
fn added_and_removed_are_silent_when_nothing_changed() {
    let mut st = StrMap::new();
    let add_alert = alert(AlertTrigger::Added, Some("text"), None, "a");
    assert_eq!(run_persist(&add_alert, state(vec![el_text("X"), el_text("Y")]), &mut st).len(), 2);
    assert!(run_persist(&add_alert, state(vec![el_text("X"), el_text("Y")]), &mut st).is_empty());
    assert_eq!(st.get("a").map(String::as_str), Some("X\nY"));
    let rm_alert = alert(AlertTrigger::Removed, Some("text"), None, "a");
    assert!(run_persist(&rm_alert, state(vec![el_text("Y"), el_text("X")]), &mut st).is_empty());
}

#[test]
fn list_triggers_fire_on_the_list_shape() {
    let msg = |on| Step::Alert {
        message: "hit {text}".into(),
        on,
        field: None,
        var: None,
        default: None,
        id: None,
    };
    let mut ps = state(vec![el_text("a"), el_text("b")]);
    run_step(&msg(AlertTrigger::Any), &mut ps);
    run_step(&msg(AlertTrigger::Each), &mut ps);
    run_step(&msg(AlertTrigger::Empty), &mut ps);
    assert_eq!(ps.alerts, vec!["hit a", "hit a", "hit b"]);
    // The element list is left as it was.
    assert_eq!(ps.elements.len(), 2);
    let mut empty = state(vec![]);
    run_step(&msg(AlertTrigger::Any), &mut empty);
    run_step(&msg(AlertTrigger::Empty), &mut empty);
    assert_eq!(empty.alerts, vec!["hit {text}"]);
}

#[test]
fn alert_without_what_to_watch_is_an_error() {
    let mut ps = state(vec![el("1")]);
    let watch = Step::Alert {
        message: "m".into(),
        on: AlertTrigger::Increase,
        field: None,
        var: None,
        default: None,
        id: None,
    };
    let err = execute_step(&watch, &ctx(), &mut ps, 3).err().unwrap();
    assert_eq!(err, PipelineError::AlertNeedsFieldOrVar);
    assert_eq!(err.message(), "alert on=change/decrease/increase requires 'field' or 'var'");
    let members = Step::Alert {
        message: "m".into(),
        on: AlertTrigger::Removed,
        field: None,
        var: None,
        default: None,
        id: None,
    };
    let err = execute_step(&members, &ctx(), &mut ps, 3).err().unwrap();
    assert_eq!(err, PipelineError::AlertNeedsField);
    assert_eq!(err.message(), "alert on=added/removed requires 'field'");
    assert!(ps.alerts.is_empty());
    assert!(ps.state.is_empty());
}

#[test]
fn find_keeps_only_the_first_match() {
    let mut ps = state(vec![el_text("a 1"), el_text("b 2"), el_text("b 3")]);
    run_step(&Step::Find { field: "text".into(), op: Some(Op::StartsWith), value: "b".into() }, &mut ps);
    assert_eq!(ps.elements.len(), 1);
    assert_eq!(ps.elements[0].text.as_deref(), Some("b 2"));
    let mut none = state(vec![el_text("a")]);
    run_step(&Step::Find { field: "text".into(), op: None, value: "z".into() }, &mut none);
    assert!(none.elements.is_empty());
}

#[test]
fn set_and_map_store_variables() {
    let env = vars_of(&[("WHO", "me")]);
    let c = PipelineCtx { url: "https://x.test".into(), env };
    let mut ps = state(vec![el_text("A"), el("no text"), el_text("B")]);
    execute_step(&Step::SetVar { var: "greet".into(), value: "hi ${WHO}".into() }, &c, &mut ps, 0).unwrap();
    execute_step(&Step::MapVar { field: "text".into(), var: "models".into() }, &c, &mut ps, 1).unwrap();
    assert_eq!(ps.vars.get("greet").map(String::as_str), Some("hi me"));
    assert_eq!(ps.vars.get("models").map(String::as_str), Some("A, B"));
}

#[test]
fn text_sort_gives_the_same_map_whatever_the_page_order() {
    let sort = Step::Sort { field: "text".into(), order: SortOrder::Asc, numeric: false };
    let map = Step::MapVar { field: "text".into(), var: "m".into() };
    let mut a = state(vec![el_text("GRX"), el_text("APEX"), el_text("FORCE")]);
    let mut b = state(vec![el_text("FORCE"), el_text("GRX"), el_text("APEX")]);
    for ps in [&mut a, &mut b] {
        run_step(&sort, ps);
        run_step(&map, ps);
    }
    assert_eq!(a.vars.get("m").map(String::as_str), Some("APEX, FORCE, GRX"));
    assert_eq!(a.vars.get("m"), b.vars.get("m"));
}

#[test]
fn fetching_steps_ask_for_pages() {
    let mut ps = state(vec![
        Element { href: Some("/p/1".into()), ..Default::default() },
        Element { href: Some("https://else.test/2".into()), ..Default::default() },
        el("no link"),
    ]);
    match run_step(&Step::EvalJson { script: "[1]".into(), wait: None }, &mut ps) {
        StepAction::Fetch(reqs) => {
            assert_eq!(reqs.len(), 1);
            assert_eq!(reqs[0].url, "https://shop.test/sale/bikes?x=1#list");
            assert_eq!(reqs[0].script, "[1]");
            assert_eq!(reqs[0].wait, 3);
        }
        _ => panic!("eval_json must fetch"),
    }
    let follow = Step::Follow { field: "href".into(), selector: ".size".into(), attrs: vec![], wait: Some(5) };
    match run_step(&follow, &mut ps) {
        StepAction::Fetch(reqs) => {
            let urls: Vec<_> = reqs.iter().map(|r| r.url.as_str()).collect();
            assert_eq!(urls, vec!["https://shop.test/p/1", "https://else.test/2"]);
            assert!(reqs.iter().all(|r| r.wait == 5 && r.script.contains("\".size\"")));
            let pages = vec![
                vec![JsonRecord { text: Some("S".into()), class: None, href: None, value: None, attrs: vec![] }],
                vec![],
            ];
            fijit::pipeline::apply_fetched(&follow, &reqs, &pages, &mut ps);
            assert_eq!(ps.elements.len(), 1);
            assert_eq!(ps.elements[0].get_field("source"), Some("https://shop.test/p/1"));
        }
        _ => panic!("follow must fetch"),
    }
    assert!(matches!(run_step(&Step::Log, &mut ps), StepAction::Log));
}

#[test]
fn resolving_a_resolved_link_changes_nothing() {
    let base = "http://shop.test/list";
    for href in ["p/1", "/p/1", "//p/1", "https://x.test/y"] {
        let once = resolve_url(base, href);
        assert_eq!(resolve_url(base, &once), once);
    }
    assert_eq!(resolve_url("http://shop.test", "a"), "http://shop.test/a");
}

#[test]
fn text_without_placeholders_is_left_alone() {
    let env = vars_of(&[("A", "1")]);
    assert_eq!(interpolate_env("cost: $5 {A}", &env), "cost: $5 {A}");
    assert_eq!(interpolate_env("${A}$", &env), "1$");
    assert_eq!(interpolate_template("{x} {y}", &StrMap::new()), "{x} {y}");
}

#[test]
fn numeric_ops_mirror_each_other() {
    for (a, b) in [("£10", "9.99"), ("3", "3.0"), ("-1", "1"), ("n/a", "1")] {
        assert_eq!(eval_op(a, &Op::Gt, b), eval_op(b, &Op::Lt, a));
        assert_eq!(eval_op(a, &Op::Gte, b), eval_op(b, &Op::Lte, a));
    }
    assert!(eval_op("3", &Op::Gte, "3.0") && eval_op("3", &Op::Lte, "3.00"));
    assert!(eval_op("abc", &Op::NotEq, "abd") && !eval_op("abc", &Op::NotContains, "b"));
}
