use wmpf_debugger::hook::{check_version_config, inject_config};
use wmpf_debugger::relay::now_nanos;

#[test]
fn config_replaces_every_marker() {
    let script = "const a = @@CONFIG@@;\nconst b = @@CONFIG@@;";
    assert_eq!(inject_config(script, "{\"x\":1}"), "const a = {\"x\":1};\nconst b = {\"x\":1};");
}

#[test]
fn script_without_marker_is_unchanged() {
    assert_eq!(inject_config("send('hi') // é", "{}"), "send('hi') // é");
    assert_eq!(inject_config("", "{}"), "");
    assert_eq!(inject_config("@@CONFIG@", "{}"), "@@CONFIG@");
}

#[test]
fn markers_are_taken_from_the_left() {
    assert_eq!(inject_config("@@@CONFIG@@@", "X"), "@X@");
    assert_eq!(inject_config("@@CONFIG@@@@CONFIG@@", "é"), "éé");
    assert_eq!(inject_config("@@CONFIG@@", "@@CONFIG@@"), "@@CONFIG@@");
}

#[test]
fn valid_config_is_accepted() {
    assert_eq!(check_version_config("a.json", "{\"k\": [1, 2]}".to_string()), Ok("{\"k\": [1, 2]}".to_string()));
}

#[test]
fn invalid_config_is_refused_with_the_parser_message() {
    let expected = serde_json::from_str::<serde_json::Value>("{oops").unwrap_err().to_string();
    assert_eq!(
        check_version_config("cfg/a.json", "{oops".to_string()),
        Err(format!("invalid JSON in cfg/a.json: {}", expected))
    );
}

#[test]
fn clock_reading_below_a_microsecond() {
    assert_eq!(now_nanos(1_700_000_000_123_456_789), 789);
    assert_eq!(now_nanos(999), 999);
    assert_eq!(now_nanos(1000), 0);
}
