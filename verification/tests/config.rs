use fijit::config::{config_dir, join_path, locate_config, Config};
use fijit::str_map::StrMap;

#[test]
fn defaults_obscura_path() {
    let config = Config { obscura_path: None, slack_webhook: None, vars: StrMap::new(), scrapers: Vec::new() };
    assert_eq!(config.obscura(), "/tmp/obscura");
}

#[test]
fn configured_obscura_path_is_used() {
    let mut config = Config::empty();
    assert!(config.scrapers.is_empty());
    config.obscura_path = Some("/usr/bin/obscura".into());
    assert_eq!(config.obscura(), "/usr/bin/obscura");
}

#[test]
fn local_config_is_preferred() {
    assert_eq!(locate_config("fijit.toml", true, "/h/.config/fijit/config.toml", true).unwrap(), "fijit.toml");
    assert_eq!(
        locate_config("fijit.toml", false, "/h/.config/fijit/config.toml", true).unwrap(),
        "/h/.config/fijit/config.toml"
    );
    assert_eq!(
        locate_config("fijit.toml", false, "/h/.config/fijit/config.toml", false).unwrap_err(),
        "no config found — create ./fijit.toml or /h/.config/fijit/config.toml"
    );
}

#[test]
fn global_config_dir_follows_home() {
    assert_eq!(config_dir(Some("/home/u"), "fijit"), "/home/u/.config/fijit");
    assert_eq!(config_dir(Some("/home/u/"), "fijjit"), "/home/u/.config/fijjit");
    assert_eq!(config_dir(None, "fijit"), ".config/fijit");
    assert_eq!(join_path("", "a"), "a");
}
