use fijit::fijjit::element::Element;
use fijit::fijjit::pipeline::{
    eval_op, execute_step, finish_pipeline, interpolate_env, interpolate_template, json_to_element,
    start_pipeline, Missing, PipelineState, ScraperDef,
};
use fijit::fijjit::scraper::ScrapeResult;
use fijit::fijjit::step::{Action, Op, Step};
use fijit::pipeline::StepAction;
use fijit::records::JsonRecord;
use fijit::str_map::StrMap;

fn step(action: Action) -> Step {
    Step {
        action,
        selector: None,
        script: None,
        field: None,
        op: None,
        value: None,
        var: None,
        message: None,
        wait: None,
    }
}

fn el_text(t: &str) -> Element {
    Element { text: Some(t.to_owned()), ..Default::default() }
}

#[test]
fn pipeline_interpolate_env_replaces_known_var() {
    let mut env = StrMap::new();
    env.insert("FIJJIT_TEST_VAR".to_owned(), "hello".to_owned());
    assert_eq!(interpolate_env("prefix_${FIJJIT_TEST_VAR}_suffix", &env), "prefix_hello_suffix");
}

#[test]
fn pipeline_interpolate_env_unknown_var_becomes_empty() {
    assert_eq!(interpolate_env("${FIJJIT_DEFINITELY_NOT_SET_XYZ}", &StrMap::new()), "");
}

#[test]
fn pipeline_interpolate_template_replaces_known_key() {
    let mut vars = StrMap::new();
    vars.insert("url".to_owned(), "https://example.com".to_owned());
    assert_eq!(interpolate_template("buy at {url}", &vars), "buy at https://example.com");
}

#[test]
fn pipeline_interpolate_template_leaves_unknown_key() {
    let vars = StrMap::new();
    assert_eq!(interpolate_template("{unknown}", &vars), "{unknown}");
}

#[test]
fn pipeline_eval_op_contains() {
    assert!(eval_op("foo bar baz", &Op::Contains, "bar"));
    assert!(!eval_op("foo baz", &Op::Contains, "bar"));
}

#[test]
fn pipeline_eval_op_matches_regex() {
    assert!(eval_op("--stock-1 active", &Op::Matches, r"--stock-\d"));
    assert!(!eval_op("--stock-4 active", &Op::Matches, r"--stock-1$"));
}

#[test]
fn pipeline_json_to_element_maps_fields() {
    let rec = JsonRecord {
        text: Some("58 cm".to_owned()),
        class: Some("item --stock-1".to_owned()),
        href: None,
        value: Some(String::new()),
        attrs: Vec::new(),
    };
    let el = json_to_element(&rec);
    assert_eq!(el.text.as_deref(), Some("58 cm"));
    assert_eq!(el.class.as_deref(), Some("item --stock-1"));
    assert!(el.href.is_none());
    assert!(el.value.is_none());
}

#[test]
fn missing_fields_are_reported_by_name() {
    let def = ScraperDef {
        name: "t".into(),
        description: None,
        url: Some("https://e.test/${PATH_PART}".into()),
        schedule: None,
        slack_webhook: None,
        steps: vec![],
    };
    let mut env = StrMap::new();
    env.insert("PATH_PART".into(), "shop".into());
    let (url, mut ps) = start_pipeline(&def, &env);
    assert_eq!(url, "https://e.test/shop");
    let err = execute_step(&step(Action::Filter), &url, &env, &mut ps).err().unwrap();
    assert_eq!(err, Missing::FilterField);
    assert_eq!(err.message(), "filter requires 'field'");
    let err = execute_step(&step(Action::QueryAll), &url, &env, &mut ps).err().unwrap();
    assert_eq!(err.message(), "query_all requires 'selector'");
}

#[test]
fn alert_steps_report_one_or_many() {
    let mut ps = PipelineState {
        elements: vec![el_text("in stock A"), el_text("sold out"), el_text("in stock B")],
        vars: StrMap::new(),
        alerts: Vec::new(),
    };
    let env = StrMap::new();
    let mut first = step(Action::AlertIf);
    first.field = Some("text".into());
    first.op = Some(Op::Contains);
    first.value = Some("in stock".into());
    first.message = Some("got {text}".into());
    assert!(matches!(execute_step(&first, "u", &env, &mut ps), Ok(StepAction::Continue)));
    match finish_pipeline(ps) {
        ScrapeResult::Alert(m) => assert_eq!(m, "got in stock A"),
        _ => panic!("one alert expected"),
    }

    let mut ps = PipelineState {
        elements: vec![el_text("in stock A"), el_text("sold out"), el_text("in stock B")],
        vars: StrMap::new(),
        alerts: Vec::new(),
    };
    let mut any = first.clone();
    any.action = Action::AlertIfAny;
    execute_step(&any, "u", &env, &mut ps).unwrap();
    match finish_pipeline(ps) {
        ScrapeResult::Alerts(ms) => assert_eq!(ms, vec!["got in stock A", "got in stock B"]),
        _ => panic!("two alerts expected"),
    }
}
