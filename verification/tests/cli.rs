use wmpf_debugger::cli::{parse_cli_args, CliCommand, CliError, CliOptions};
use wmpf_debugger::constants::{CDP_PORT, DEBUG_PORT};

fn args(list: &[&str]) -> Vec<String> {
    let mut v = vec!["wmpf_debugger".to_string()];
    v.extend(list.iter().map(|s| s.to_string()));
    v
}

fn run_options(list: &[&str]) -> CliOptions {
    match parse_cli_args(&args(list)) {
        Ok(CliCommand::Run(o)) => o,
        _ => panic!("expected options to run with"),
    }
}

fn invalid(list: &[&str]) -> (String, String) {
    match parse_cli_args(&args(list)) {
        Err(CliError::InvalidPort { name, value }) => (name, value),
        _ => panic!("expected an invalid port"),
    }
}

#[test]
fn no_arguments_give_defaults() {
    let o = run_options(&[]);
    assert_eq!(
        o,
        CliOptions { debug_port: 9421, cdp_port: 62666, debug_main: false, debug_frida: false }
    );
    assert_eq!(DEBUG_PORT, 9421);
    assert_eq!(CDP_PORT, 62666);
}

#[test]
fn flags_and_ports_are_read() {
    let o = run_options(&["--debug-main", "--debug-port", "8000", "--cdp-port", "+9000", "--debug-frida"]);
    assert_eq!(o, CliOptions { debug_port: 8000, cdp_port: 9000, debug_main: true, debug_frida: true });
}

#[test]
fn later_port_wins() {
    let o = run_options(&["--cdp-port", "1", "--cdp-port", "65535"]);
    assert_eq!(o.cdp_port, 65535);
    assert_eq!(o.debug_port, 9421);
}

#[test]
fn missing_port_value_keeps_default() {
    let o = run_options(&["--debug-main", "--debug-port"]);
    assert_eq!(o.debug_port, 9421);
    assert!(o.debug_main);
    let o = run_options(&["--cdp-port"]);
    assert_eq!(o.cdp_port, 62666);
}

#[test]
fn port_zero_is_invalid() {
    assert_eq!(invalid(&["--debug-port", "0"]), ("--debug-port".to_string(), "0".to_string()));
}

#[test]
fn port_out_of_range_or_not_a_number_is_invalid() {
    assert_eq!(invalid(&["--cdp-port", "70000"]), ("--cdp-port".to_string(), "70000".to_string()));
    assert_eq!(invalid(&["--cdp-port", "-1"]), ("--cdp-port".to_string(), "-1".to_string()));
    assert_eq!(invalid(&["--debug-port", "80a"]), ("--debug-port".to_string(), "80a".to_string()));
    assert_eq!(invalid(&["--debug-port", ""]), ("--debug-port".to_string(), "".to_string()));
    assert_eq!(invalid(&["--debug-port", "+"]), ("--debug-port".to_string(), "+".to_string()));
}

#[test]
fn port_value_is_taken_even_if_it_looks_like_an_option() {
    assert_eq!(
        invalid(&["--debug-port", "--debug-main"]),
        ("--debug-port".to_string(), "--debug-main".to_string())
    );
}

#[test]
fn invalid_port_message() {
    match parse_cli_args(&args(&["--cdp-port", "x"])) {
        Err(e) => assert_eq!(e.message(), "invalid --cdp-port: x"),
        _ => panic!("expected an error"),
    }
}

#[test]
fn help_is_asked_for() {
    assert!(matches!(parse_cli_args(&args(&["-h"])), Ok(CliCommand::Help)));
    assert!(matches!(parse_cli_args(&args(&["--debug-main", "--help", "--bogus"])), Ok(CliCommand::Help)));
}

#[test]
fn unknown_option_is_reported() {
    match parse_cli_args(&args(&["--debug-main", "--bogus", "--help"])) {
        Ok(CliCommand::UnknownOption(a)) => assert_eq!(a, "--bogus"),
        _ => panic!("expected an unknown option"),
    }
}

#[test]
fn first_error_stops_reading() {
    assert_eq!(invalid(&["--debug-port", "0", "--bogus"]), ("--debug-port".to_string(), "0".to_string()));
}
