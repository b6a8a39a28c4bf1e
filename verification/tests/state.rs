use fijit::state_file::{load_state, save_state, StateError};
use fijit::str_map::StrMap;

const SCRAPER: &str = "# my scraper\n\
                       name = \"x\"\n\
                       url = \"https://e.test\"\n\n\
                       [[steps]]\n\
                       action = \"query_all\"\n\
                       selector = \".p\"  # the products\n";

#[test]
fn state_persists_into_the_scraper_file_preserving_comments() {
    let mut map = StrMap::new();
    map.insert("set".to_owned(), "A, B".to_owned());
    map.insert("models".to_owned(), "APEX\nGRX".to_owned());
    let written = save_state(SCRAPER, &map).unwrap().unwrap();

    // The hand-written comments and structure survive the rewrite.
    assert!(written.contains("# my scraper"), "leading comment preserved");
    assert!(written.contains("# the products"), "inline comment preserved");
    assert!(written.contains("[state]"));
    // Keys are written in ascending order.
    assert!(written.find("models").unwrap() < written.find("set =").unwrap());

    // State round-trips back out, newline-joined sets included.
    let loaded = load_state(Some(&written));
    assert_eq!(loaded.entries().len(), 2);
    assert_eq!(loaded.get("set").map(String::as_str), Some("A, B"));
    assert_eq!(loaded.get("models").map(String::as_str), Some("APEX\nGRX"));

    // The file with its [state] table is still the same scraper definition.
    let def: toml::Value = toml::from_str(&written).unwrap();
    assert_eq!(def["name"].as_str(), Some("x"));
    assert_eq!(def["steps"].as_array().map(Vec::len), Some(1));
}

#[test]
fn saving_again_replaces_the_state_table() {
    let mut first = StrMap::new();
    first.insert("a".into(), "1".into());
    let once = save_state(SCRAPER, &first).unwrap().unwrap();
    let mut second = StrMap::new();
    second.insert("b".into(), "2".into());
    let twice = save_state(&once, &second).unwrap().unwrap();
    assert_eq!(twice.matches("[state]").count(), 1);
    let loaded = load_state(Some(&twice));
    assert_eq!(loaded.get("a"), None);
    assert_eq!(loaded.get("b").map(String::as_str), Some("2"));
}

#[test]
fn nothing_to_save_and_invalid_files() {
    assert!(save_state(SCRAPER, &StrMap::new()).unwrap().is_none());
    let mut m = StrMap::new();
    m.insert("k".into(), "v".into());
    assert!(matches!(save_state("not = [valid", &m), Err(StateError::NotToml(_))));
    assert!(load_state(None).is_empty());
    assert!(load_state(Some("not = [valid")).is_empty());
    assert!(load_state(Some(SCRAPER)).is_empty());
    // Only string values of the [state] table are state.
    let loaded = load_state(Some("[state]\nx = \"1\"\ny = 2\n"));
    assert_eq!(loaded.entries().len(), 1);
    assert_eq!(loaded.get("x").map(String::as_str), Some("1"));
}

#[test]
fn saving_replaces_a_state_key_and_keeps_the_other_items() {
    let text = "state = 1\nname = \"x\"  # kept\nlimits = [1, 2]\n\n[meta]\nowner = \"me\"\n";
    let mut m = StrMap::new();
    m.insert("a".to_owned(), "1".to_owned());
    let written = save_state(text, &m).unwrap().unwrap();
    assert!(written.contains("# kept"));
    let loaded = load_state(Some(&written));
    assert_eq!(loaded.entries().len(), 1);
    assert_eq!(loaded.get("a").map(String::as_str), Some("1"));
    let def: toml::Value = toml::from_str(&written).unwrap();
    assert_eq!(def["name"].as_str(), Some("x"));
    assert_eq!(def["limits"].as_array().map(Vec::len), Some(2));
    assert_eq!(def["meta"]["owner"].as_str(), Some("me"));
    assert_eq!(def["state"]["a"].as_str(), Some("1"));
}
