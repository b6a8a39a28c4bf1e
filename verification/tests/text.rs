use fijit::lines::{lines, trim, trim_end};
use fijit::number::parse_number;
use fijit::obscura::{exit_message, ObscuraRunner};
use fijit::records::{build_query_script, json_string_of};
use fijit::str_map::StrMap;
use fijit::text::join_strings;
use fijit::template::interpolate_template;

#[test]
fn numbers_are_read_exactly() {
    assert_eq!(parse_number("£1,299.00 incl. VAT").unwrap().to_text(), "1299.00");
    assert_eq!(parse_number("-5°C").unwrap().to_text(), "-5");
    assert_eq!(parse_number("v2.").unwrap().to_text(), "2.");
    assert!(parse_number("").is_none());
    let a = parse_number("1.50").unwrap();
    let b = parse_number("€1.5").unwrap();
    let c = parse_number("1.499").unwrap();
    assert_eq!(a.compare(&b), 0);
    assert_eq!(a.compare(&c), 1);
    assert_eq!(c.compare(&a), -1);
}

#[test]
fn lines_follow_str_lines() {
    let text = "foo\r\nbar\n\nbaz\r";
    let expected: Vec<String> = text.lines().map(str::to_owned).collect();
    assert_eq!(lines(text), expected);
    assert_eq!(lines("a\nb\n"), vec!["a", "b"]);
    assert!(lines("").is_empty());
    assert_eq!(trim("  x y \t"), "x y");
    assert_eq!(trim_end("  x \n"), "  x");
}

#[test]
fn joined_lines_split_back() {
    let keys = vec!["APEX".to_owned(), "GRX".to_owned(), "FORCE".to_owned()];
    let joined = join_strings(&keys, "\n");
    assert_eq!(joined, "APEX\nGRX\nFORCE");
    assert_eq!(lines(&joined), keys);
}

#[test]
fn obscura_output_json_line_is_found() {
    let r = ObscuraRunner::new("/bin/obscura");
    assert_eq!(r.binary, "/bin/obscura");
    assert_eq!(r.eval_json("loading...\n  [{\"text\": \"a\"}]  \n{}").as_deref(), Ok("[{\"text\": \"a\"}]"));
    assert_eq!(r.eval_json("no json here\n"), Err("no JSON found in obscura output:\nno json here\n".to_string()));
    assert_eq!(
        r.eval_args("https://e.test", "1+1", 3),
        vec!["fetch", "https://e.test", "--stealth", "--wait", "3", "--eval", "1+1", "--quiet"]
    );
}

#[test]
fn query_script_quotes_selector_and_attrs() {
    assert_eq!(json_string_of("a\"b"), "\"a\\\"b\"");
    let script = build_query_script(".p[data-x=\"1\"]", &vec!["data-price".to_owned()]);
    assert!(script.starts_with("JSON.stringify(Array.from(document.querySelectorAll(\".p[data-x=\\\"1\\\"]\"))"));
    assert!(script.contains("attrs: {\"data-price\": el.getAttribute(\"data-price\")}"));
    let bare = build_query_script(".p", &vec![]);
    assert!(bare.ends_with("attrs: {}})))"));
}

#[test]
fn template_without_braces_is_unchanged() {
    let mut vars = StrMap::new();
    vars.insert("x".into(), "y".into());
    assert_eq!(interpolate_template("plain text", &vars), "plain text");
    assert_eq!(interpolate_template("{a}{x}{", &StrMap::new()), "{a}{x}{");
    assert_eq!(interpolate_template("a {x", &vars), "a {x");
    assert_eq!(interpolate_template("{x}{x", &vars), "y{x");
    assert_eq!(interpolate_template("{x} and {x}", &vars), "y and y");
}

#[test]
fn obscura_output_without_json_is_cut_at_a_char_boundary() {
    let r = ObscuraRunner::new("/bin/obscura");
    let raw = "a".to_string() + &"é".repeat(250);
    let err = r.eval_json(&raw).unwrap_err();
    let expected = "no JSON found in obscura output:\n".to_string() + "a" + &"é".repeat(199);
    assert_eq!(err, expected);
    let short = "x".repeat(450);
    let err = r.eval_json(&short).unwrap_err();
    assert_eq!(err, "no JSON found in obscura output:\n".to_string() + &"x".repeat(400));
}

#[test]
fn obscura_exit_message_keeps_the_first_300_chars() {
    let long = "ü".repeat(310);
    assert_eq!(exit_message("exit status: 2", "boom"), "obscura exited exit status: 2: boom");
    assert_eq!(
        exit_message("exit status: 1", &long),
        "obscura exited exit status: 1: ".to_string() + &"ü".repeat(300)
    );
}
