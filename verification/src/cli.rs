//! Command-line options.

use vstd::prelude::*;
use crate::constants::{CDP_PORT, DEBUG_PORT};
use crate::json::{str_equal, text};

verus! {

/// A command-line error.
pub enum CliError {
    /// A port option whose value is not a port number from 1 to 65535.
    InvalidPort { name: String, value: String },
}

impl CliError {
    /// The message of the error: `invalid <option>: <value>`.
    pub fn message(&self) -> (r: String)
        ensures
            match self {
                CliError::InvalidPort { name, value } => r@ == "invalid "@ + name@ + ": "@ + value@,
            },
    {
        match self {
            CliError::InvalidPort { name, value } => {
                let mut s = text("invalid ");
                s.append(name.as_str());
                s.append(": ");
                s.append(value.as_str());
                s
            },
        }
    }
}

/// The options the program runs with.
#[derive(Clone, Copy, Debug, PartialEq, Eq, Structural)]
pub struct CliOptions {
    pub debug_port: u16,
    pub cdp_port: u16,
    pub debug_main: bool,
    pub debug_frida: bool,
}

/// What the command line asks for.
pub enum CliCommand {
    /// Run with these options.
    Run(CliOptions),
    /// Show the help text.
    Help,
    /// An option that is not known.
    UnknownOption(String),
}

pub open spec fn is_ascii_digit(c: char) -> bool {
    '0' <= c <= '9'
}

/// Whether every character of `s` is an ASCII digit.
pub open spec fn all_digits(s: Seq<char>) -> bool {
    forall|i: int| 0 <= i < s.len() ==> is_ascii_digit(#[trigger] s[i])
}

/// The number written by a sequence of decimal digits.
pub open spec fn decimal_value(s: Seq<char>) -> nat
    decreases s.len(),
{
    if s.len() == 0 {
        0
    } else {
        decimal_value(s.drop_last()) * 10 + (s.last() as nat - 48) as nat
    }
}

/// What `str::parse::<u16>` gives: an optional `+`, then one or more ASCII
/// digits whose value is at most 65535.
pub open spec fn parse_u16_spec(s: Seq<char>) -> Option<u16> {
    let digits = if s.len() > 0 && s[0] == '+' {
        s.drop_first()
    } else {
        s
    };
    if digits.len() > 0 && all_digits(digits) && decimal_value(digits) <= 65535 {
        Some(decimal_value(digits) as u16)
    } else {
        None
    }
}

/// Parses a decimal `u16`.
///
/// Calls `str::parse::<u16>`, which the contract takes to accept an optional
/// `+` followed by one or more ASCII digits of value at most 65535, as its
/// documentation and `from_str_radix` describe.
#[verifier::external_body]
fn parse_u16(s: &str) -> (r: Option<u16>)
    ensures
        r == parse_u16_spec(s@),
{
    match s.parse::<u16>() {
        Ok(v) => Some(v),
        Err(_) => None,
    }
}

/// The value of a port option: the default where the value is missing, the
/// number where it is one from 1 to 65535, otherwise an error naming the
/// option and the value.
pub open spec fn port_spec(value: Option<Seq<char>>, default: u16) -> Option<u16> {
    match value {
        None => Some(default),
        Some(v) => match parse_u16_spec(v) {
            Some(p) => if p == 0 {
                None
            } else {
                Some(p)
            },
            None => None,
        },
    }
}

fn parse_port(name: &str, value: Option<&str>, default: u16) -> (r: Result<u16, CliError>)
    ensures
        match port_spec(
            match value {
                Some(v) => Some(v@),
                None => None,
            },
            default,
        ) {
            Some(p) => r == Ok::<u16, CliError>(p),
            None => r matches Err(CliError::InvalidPort { name: n, value: v }) && n@ == name@ && (
            value matches Some(s) && v@ == s@),
        },
{
    match value {
        None => Ok(default),
        Some(v) => match parse_u16(v) {
            Some(port) => {
                if port == 0 {
                    Err(CliError::InvalidPort { name: text(name), value: text(v) })
                } else {
                    Ok(port)
                }
            },
            None => Err(CliError::InvalidPort { name: text(name), value: text(v) }),
        },
    }
}

/// The result of reading the arguments from position `i` on with the
/// options read so far.
pub enum ParseOutcome {
    Run(CliOptions),
    Help,
    Unknown(Seq<char>),
    InvalidPort(Seq<char>, Seq<char>),
}

/// The argument at `i`, if there is one.
pub open spec fn arg_at(args: Seq<Seq<char>>, i: int) -> Option<Seq<char>> {
    if 0 <= i < args.len() {
        Some(args[i])
    } else {
        None
    }
}

/// The position after an option at `i` and its value.
pub open spec fn after_value(args: Seq<Seq<char>>, i: int) -> int {
    if i + 2 <= args.len() {
        i + 2
    } else {
        args.len() as int
    }
}

/// Reads the arguments from position `i` on: `--help` and `-h` ask for help,
/// the two flags set their options, a port option takes the next argument
/// (its default where there is none), anything else is unknown.
pub open spec fn parse_from(args: Seq<Seq<char>>, i: int, opts: CliOptions) -> ParseOutcome
    decreases args.len() - i,
{
    if i < 1 || i >= args.len() {
        ParseOutcome::Run(opts)
    } else {
        let a = args[i];
        if a == "--help"@ || a == "-h"@ {
            ParseOutcome::Help
        } else if a == "--debug-main"@ {
            parse_from(args, i + 1, CliOptions { debug_main: true, ..opts })
        } else if a == "--debug-frida"@ {
            parse_from(args, i + 1, CliOptions { debug_frida: true, ..opts })
        } else if a == "--debug-port"@ {
            match port_spec(arg_at(args, i + 1), DEBUG_PORT) {
                Some(p) => parse_from(args, after_value(args, i), CliOptions { debug_port: p, ..opts }),
                None => ParseOutcome::InvalidPort("--debug-port"@, args[i + 1]),
            }
        } else if a == "--cdp-port"@ {
            match port_spec(arg_at(args, i + 1), CDP_PORT) {
                Some(p) => parse_from(args, after_value(args, i), CliOptions { cdp_port: p, ..opts }),
                None => ParseOutcome::InvalidPort("--cdp-port"@, args[i + 1]),
            }
        } else {
            ParseOutcome::Unknown(a)
        }
    }
}

/// The options before any argument is read.
pub open spec fn default_options() -> CliOptions {
    CliOptions { debug_port: DEBUG_PORT, cdp_port: CDP_PORT, debug_main: false, debug_frida: false }
}

/// The meaning of a command line (the program name first).
pub open spec fn parse_args_spec(args: Seq<Seq<char>>) -> ParseOutcome {
    parse_from(args, 1, default_options())
}

/// Reads the command line `args` (the program name first): the options to
/// run with, a request for help, an unknown option, or an invalid port.
pub fn parse_cli_args(args: &Vec<String>) -> (r: Result<CliCommand, CliError>)
    ensures
        match parse_args_spec(args@.map_values(|s: String| s@)) {
            ParseOutcome::Run(o) => r matches Ok(CliCommand::Run(x)) && x == o,
            ParseOutcome::Help => r matches Ok(CliCommand::Help),
            ParseOutcome::Unknown(a) => r matches Ok(CliCommand::UnknownOption(x)) && x@ == a,
            ParseOutcome::InvalidPort(n, v) => r matches Err(CliError::InvalidPort { name, value })
                && name@ == n && value@ == v,
        },
{
    let ghost sargs = args@.map_values(|s: String| s@);
    let mut opts = CliOptions {
        debug_port: DEBUG_PORT,
        cdp_port: CDP_PORT,
        debug_main: false,
        debug_frida: false,
    };
    let mut i: usize = 1;
    while i < args.len()
        invariant
            1 <= i,
            sargs == args@.map_values(|s: String| s@),
            parse_args_spec(sargs) == parse_from(sargs, i as int, opts),
        decreases args@.len() - i,
    {
        let a = args[i].as_str();
        assert(sargs[i as int] == a@);
        if str_equal(a, "--help") || str_equal(a, "-h") {
            return Ok(CliCommand::Help);
        } else if str_equal(a, "--debug-main") {
            opts = CliOptions { debug_main: true, ..opts };
        } else if str_equal(a, "--debug-frida") {
            opts = CliOptions { debug_frida: true, ..opts };
        } else if str_equal(a, "--debug-port") {
            let value = if i + 1 < args.len() {
                assert(sargs[i + 1] == args@[i + 1]@);
                Some(args[i + 1].as_str())
            } else {
                None
            };
            match parse_port("--debug-port", value, DEBUG_PORT) {
                Ok(p) => {
                    opts = CliOptions { debug_port: p, ..opts };
                },
                Err(e) => {
                    return Err(e);
                },
            }
            i = if i + 1 < args.len() {
                i + 2
            } else {
                args.len()
            };
            continue;
        } else if str_equal(a, "--cdp-port") {
            let value = if i + 1 < args.len() {
                assert(sargs[i + 1] == args@[i + 1]@);
                Some(args[i + 1].as_str())
            } else {
                None
            };
            match parse_port("--cdp-port", value, CDP_PORT) {
                Ok(p) => {
                    opts = CliOptions { cdp_port: p, ..opts };
                },
                Err(e) => {
                    return Err(e);
                },
            }
            i = if i + 1 < args.len() {
                i + 2
            } else {
                args.len()
            };
            continue;
        } else {
            return Ok(CliCommand::UnknownOption(text(a)));
        }
        i = i + 1;
    }
    Ok(CliCommand::Run(opts))
}


/// Whether `flag` stands among the arguments from position `i` on.
pub open spec fn flag_given(args: Seq<Seq<char>>, i: int, flag: Seq<char>) -> bool {
    exists|j: int| i <= j < args.len() && args[j] == flag
}

proof fn lemma_option_names()
    ensures
        "--help"@ != "--debug-main"@,
        "--help"@ != "--debug-frida"@,
        "-h"@ != "--debug-main"@,
        "-h"@ != "--debug-frida"@,
        "--debug-main"@ != "--debug-frida"@,
        "--debug-port"@ != "--debug-main"@,
        "--debug-port"@ != "--debug-frida"@,
        "--cdp-port"@ != "--debug-main"@,
        "--cdp-port"@ != "--debug-frida"@,
        parse_u16_spec("--debug-main"@) is None,
        parse_u16_spec("--debug-frida"@) is None,
{
    reveal_strlit("--help");
    reveal_strlit("-h");
    reveal_strlit("--debug-main");
    reveal_strlit("--debug-frida");
    reveal_strlit("--debug-port");
    reveal_strlit("--cdp-port");
    assert("--help"@[2] != "--debug-main"@[2]);
    assert("--help"@[2] != "--debug-frida"@[2]);
    assert("--debug-main"@[8] != "--debug-frida"@[8]);
    assert("--debug-port"@[8] != "--debug-main"@[8]);
    assert("--debug-port"@[8] != "--debug-frida"@[8]);
    assert("--cdp-port"@[2] != "--debug-main"@[2]);
    assert("--cdp-port"@[2] != "--debug-frida"@[2]);
    let dm = "--debug-main"@;
    let df = "--debug-frida"@;
    assert(dm[0] == '-' && !is_ascii_digit(dm[0]));
    assert(df[0] == '-' && !is_ascii_digit(df[0]));
    lemma_not_a_number(dm);
    lemma_not_a_number(df);
}

proof fn lemma_not_a_number(s: Seq<char>)
    requires
        s.len() > 0,
        s[0] == '-',
    ensures
        parse_u16_spec(s) is None,
{
    let digits = if s.len() > 0 && s[0] == '+' {
        s.drop_first()
    } else {
        s
    };
    assert(digits == s);
    assert(!is_ascii_digit(digits[0]));
}

/// Reading the arguments from `i` on, when it ends in options to run with,
/// sets `--debug-main` and `--debug-frida` exactly where those flags are
/// given and keeps them as they were otherwise.
pub proof fn lemma_flags_from(args: Seq<Seq<char>>, i: int, opts: CliOptions)
    requires
        i >= 1,
    ensures
        parse_from(args, i, opts) matches ParseOutcome::Run(o) ==> {
            &&& o.debug_main == (opts.debug_main || flag_given(args, i, "--debug-main"@))
            &&& o.debug_frida == (opts.debug_frida || flag_given(args, i, "--debug-frida"@))
        },
    decreases args.len() - i,
{
    lemma_option_names();
    if i >= args.len() {
    } else {
        let a = args[i];
        let m = "--debug-main"@;
        let f = "--debug-frida"@;
        if a == "--help"@ || a == "-h"@ {
        } else if a == m {
            lemma_flags_from(args, i + 1, CliOptions { debug_main: true, ..opts });
            assert(flag_given(args, i, m));
            if flag_given(args, i + 1, f) {
                let j = choose|j: int| i + 1 <= j < args.len() && args[j] == f;
                assert(flag_given(args, i, f));
            }
            if flag_given(args, i, f) {
                let j = choose|j: int| i <= j < args.len() && args[j] == f;
                assert(j != i);
                assert(flag_given(args, i + 1, f));
            }
        } else if a == f {
            lemma_flags_from(args, i + 1, CliOptions { debug_frida: true, ..opts });
            assert(flag_given(args, i, f));
            if flag_given(args, i + 1, m) {
                let j = choose|j: int| i + 1 <= j < args.len() && args[j] == m;
                assert(flag_given(args, i, m));
            }
            if flag_given(args, i, m) {
                let j = choose|j: int| i <= j < args.len() && args[j] == m;
                assert(j != i);
                assert(flag_given(args, i + 1, m));
            }
        } else if a == "--debug-port"@ || a == "--cdp-port"@ {
            let next = after_value(args, i);
            let default = if a == "--debug-port"@ { DEBUG_PORT } else { CDP_PORT };
            match port_spec(arg_at(args, i + 1), default) {
                Some(p) => {
                    let o2 = if a == "--debug-port"@ {
                        CliOptions { debug_port: p, ..opts }
                    } else {
                        CliOptions { cdp_port: p, ..opts }
                    };
                    assert(parse_from(args, i, opts) == parse_from(args, next, o2));
                    lemma_flags_from(args, next, o2);
                    if i + 1 < args.len() {
                        assert(args[i + 1] != m);
                        assert(args[i + 1] != f);
                    }
                    assert forall|g: Seq<char>| g == m || g == f implies flag_given(args, i, g)
                        == flag_given(args, next, g) by {
                        if flag_given(args, i, g) {
                            let j = choose|j: int| i <= j < args.len() && args[j] == g;
                            assert(j >= next);
                        }
                        if flag_given(args, next, g) {
                            let j = choose|j: int| next <= j < args.len() && args[j] == g;
                            assert(i <= j);
                        }
                    }
                },
                None => {},
            }
        } else {
        }
    }
}

/// A command line that ends in options to run with has `--debug-main` set
/// exactly where that flag is given, and `--debug-frida` exactly where that
/// one is: each flag sets its own option and no other.
pub proof fn lemma_flags_given(args: Seq<Seq<char>>)
    ensures
        parse_args_spec(args) matches ParseOutcome::Run(o) ==> {
            &&& o.debug_main == flag_given(args, 1, "--debug-main"@)
            &&& o.debug_frida == flag_given(args, 1, "--debug-frida"@)
        },
{
    lemma_flags_from(args, 1, default_options());
}

} // verus!
