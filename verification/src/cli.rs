//! Command-line argument parsing.

use crate::text::{
    ascii_lower, ascii_lower_chars, chars_eq, chars_of, chars_start_with, push_str, starts_with,
    string_from_chars, string_of, trim, trim_chars,
};
use vstd::prelude::*;

verus! {

/// How much is logged: nothing, or messages up to a severity.
#[derive(Debug, Clone, Copy, PartialEq, Eq, Hash, Structural)]
pub enum LevelFilter {
    Off,
    Error,
    Warn,
    Info,
    Debug,
    Trace,
}

/// Parsed command-line arguments.
#[derive(Debug, Clone, PartialEq, Eq)]
pub struct CliArgs {
    /// Attach or allocate a console window and enable log output.
    pub console: bool,
    /// Explicit path of a configuration file.
    pub config_path: Option<String>,
    /// Log level given on the command line.
    pub log_level: Option<LevelFilter>,
    /// Show the help text and exit.
    pub show_help: bool,
    /// Show the version and exit.
    pub show_version: bool,
}

/// The abstract value of parsed arguments.
pub struct CliState {
    pub console: bool,
    pub config_path: Option<Seq<char>>,
    pub log_level: Option<LevelFilter>,
    pub show_help: bool,
    pub show_version: bool,
}

/// The arguments before any is read.
pub open spec fn cli_initial() -> CliState {
    CliState { console: false, config_path: None, log_level: None, show_help: false, show_version: false }
}

/// The abstract value of `c`.
pub open spec fn cli_view(c: CliArgs) -> CliState {
    CliState {
        console: c.console,
        config_path: match c.config_path {
            Some(p) => Some(p@),
            None => None,
        },
        log_level: c.log_level,
        show_help: c.show_help,
        show_version: c.show_version,
    }
}

impl Default for CliArgs {
    fn default() -> (r: Self)
        ensures
            cli_view(r) == cli_initial(),
    {
        CliArgs { console: false, config_path: None, log_level: None, show_help: false, show_version: false }
    }
}

pub open spec fn msg_invalid_level(t: Seq<char>) -> Seq<char> {
    "Invalid log level '"@ + t + "'. Valid values are: error, warn, info, debug, trace"@
}

/// The level a command-line value names, after trimming and ASCII
/// lower-casing it, or the message refusing it.
pub open spec fn level_of(s: Seq<char>) -> Result<LevelFilter, Seq<char>> {
    let t = ascii_lower(trim(s));
    if t == "off"@ {
        Ok(LevelFilter::Off)
    } else if t == "error"@ || t == "err"@ {
        Ok(LevelFilter::Error)
    } else if t == "warn"@ || t == "warning"@ {
        Ok(LevelFilter::Warn)
    } else if t == "info"@ {
        Ok(LevelFilter::Info)
    } else if t == "debug"@ {
        Ok(LevelFilter::Debug)
    } else if t == "trace"@ {
        Ok(LevelFilter::Trace)
    } else {
        Err(msg_invalid_level(t))
    }
}

/// `st` with `p` as its configuration path, refused when `p` is blank or
/// a path was already given.
pub open spec fn with_config(st: CliState, p: Seq<char>) -> Result<CliState, Seq<char>> {
    if p.len() == 0 || trim(p).len() == 0 {
        Err("Configuration file path cannot be empty"@)
    } else if st.config_path is Some {
        Err(
            "Multiple configuration files specified: '"@ + st.config_path->0 + "' and '"@ + p
                + "'"@,
        )
    } else {
        Ok(CliState { config_path: Some(p), ..st })
    }
}

/// Every argument from `i` on taken as a configuration path.
pub open spec fn positional_from(args: Seq<Seq<char>>, i: int, st: CliState) -> Result<
    CliState,
    Seq<char>,
>
    decreases args.len() - i,
{
    if i >= args.len() || i < 0 {
        Ok(st)
    } else {
        match with_config(st, args[i]) {
            Ok(st2) => positional_from(args, i + 1, st2),
            Err(e) => Err(e),
        }
    }
}

/// Parsing the arguments from `i` on, starting from `st`.
pub open spec fn parse_from(args: Seq<Seq<char>>, i: int, st: CliState) -> Result<
    CliState,
    Seq<char>,
>
    decreases args.len() - i,
{
    if i >= args.len() || i < 0 {
        Ok(st)
    } else {
        let a = args[i];
        if a == "--"@ {
            positional_from(args, i + 1, st)
        } else if a == "-c"@ || a == "--console"@ {
            parse_from(args, i + 1, CliState { console: true, ..st })
        } else if a == "-h"@ || a == "--help"@ {
            parse_from(args, i + 1, CliState { show_help: true, ..st })
        } else if a == "-V"@ || a == "--version"@ {
            parse_from(args, i + 1, CliState { show_version: true, ..st })
        } else if a == "-l"@ || a == "--log-level"@ {
            if i + 1 >= args.len() {
                Err(
                    "Option '"@ + a
                        + "' requires a log level argument (error, warn, info, debug, trace)"@,
                )
            } else {
                match level_of(args[i + 1]) {
                    Ok(l) => parse_from(args, i + 2, CliState { log_level: Some(l), ..st }),
                    Err(e) => Err(e),
                }
            }
        } else if starts_with(a, "--log-level="@) {
            match level_of(a.skip(12)) {
                Ok(l) => parse_from(args, i + 1, CliState { log_level: Some(l), ..st }),
                Err(e) => Err(e),
            }
        } else if a == "--config"@ {
            if i + 1 >= args.len() {
                Err("Option '--config' requires a file path argument"@)
            } else if trim(args[i + 1]).len() == 0 {
                Err("Option '--config' requires a non-empty file path"@)
            } else {
                match with_config(st, args[i + 1]) {
                    Ok(st2) => parse_from(args, i + 2, st2),
                    Err(e) => Err(e),
                }
            }
        } else if starts_with(a, "--config="@) {
            if trim(a.skip(9)).len() == 0 {
                Err("Option '--config=' requires a non-empty file path"@)
            } else {
                match with_config(st, a.skip(9)) {
                    Ok(st2) => parse_from(args, i + 1, st2),
                    Err(e) => Err(e),
                }
            }
        } else if a.len() > 0 && a[0] == '-' {
            Err("Unknown option '"@ + a + "'. Use --help for usage information."@)
        } else {
            match with_config(st, a) {
                Ok(st2) => parse_from(args, i + 1, st2),
                Err(e) => Err(e),
            }
        }
    }
}

/// The texts of the arguments.
pub open spec fn arg_texts(args: Seq<&str>) -> Seq<Seq<char>> {
    args.map_values(|a: &str| a@)
}

/// `r` is what parsing yielded, given the abstract outcome `o`.
pub open spec fn cli_outcome(o: Result<CliState, Seq<char>>, r: Result<CliArgs, String>) -> bool {
    match o {
        Ok(st) => r matches Ok(c) && cli_view(c) == st,
        Err(m) => r matches Err(e) && e@ == m,
    }
}

/// `level_of` computed.
fn level_from_chars(v: &[char]) -> (r: Result<LevelFilter, String>)
    ensures
        match level_of(v@) {
            Ok(l) => r == Ok::<LevelFilter, String>(l),
            Err(m) => r matches Err(e) && e@ == m,
        },
{
    let trimmed = trim_chars(v);
    let t = ascii_lower_chars(trimmed.as_slice());
    let ts = t.as_slice();
    if chars_eq(ts, "off") {
        Ok(LevelFilter::Off)
    } else if chars_eq(ts, "error") || chars_eq(ts, "err") {
        Ok(LevelFilter::Error)
    } else if chars_eq(ts, "warn") || chars_eq(ts, "warning") {
        Ok(LevelFilter::Warn)
    } else if chars_eq(ts, "info") {
        Ok(LevelFilter::Info)
    } else if chars_eq(ts, "debug") {
        Ok(LevelFilter::Debug)
    } else if chars_eq(ts, "trace") {
        Ok(LevelFilter::Trace)
    } else {
        let mut m = string_of("Invalid log level '");
        let other = string_from_chars(ts);
        push_str(&mut m, other.as_str());
        push_str(&mut m, "'. Valid values are: error, warn, info, debug, trace");
        Err(m)
    }
}

/// Parses a log level name, case-insensitively and ignoring surrounding
/// white space; `err` and `warning` are accepted as aliases.
pub fn parse_level_filter(s: &str) -> (r: Result<LevelFilter, String>)
    ensures
        match level_of(s@) {
            Ok(l) => r == Ok::<LevelFilter, String>(l),
            Err(m) => r matches Err(e) && e@ == m,
        },
{
    let v = chars_of(s);
    level_from_chars(v.as_slice())
}

impl CliArgs {
    /// Parses the arguments (without the program name).
    pub fn parse(args: &[&str]) -> (r: Result<Self, String>)
        ensures
            cli_outcome(parse_from(arg_texts(args@), 0, cli_initial()), r),
    {
        let ghost texts = arg_texts(args@);
        let mut cli = CliArgs::default();
        let n = args.len();
        let mut i: usize = 0;
        while i < n
            invariant
                n == args@.len(),
                texts == arg_texts(args@),
                i <= n,
                parse_from(texts, 0, cli_initial()) == parse_from(texts, i as int, cli_view(cli)),
            decreases n - i,
        {
            let arg = chars_of(args[i]);
            let a = arg.as_slice();
            assert(a@ == texts[i as int]);
            if chars_eq(a, "--") {
                let mut j: usize = i + 1;
                while j < n
                    invariant
                        n == args@.len(),
                        texts == arg_texts(args@),
                        i < j <= n,
                        parse_from(texts, 0, cli_initial()) == positional_from(
                            texts,
                            j as int,
                            cli_view(cli),
                        ),
                    decreases n - j,
                {
                    let p = chars_of(args[j]);
                    assert(p@ == texts[j as int]);
                    match Self::set_config_path(&mut cli, p.as_slice()) {
                        Ok(()) => {},
                        Err(e) => {
                            return Err(e);
                        },
                    }
                    j = j + 1;
                }
                return Ok(cli);
            } else if chars_eq(a, "-c") || chars_eq(a, "--console") {
                cli.console = true;
                i = i + 1;
            } else if chars_eq(a, "-h") || chars_eq(a, "--help") {
                cli.show_help = true;
                i = i + 1;
            } else if chars_eq(a, "-V") || chars_eq(a, "--version") {
                cli.show_version = true;
                i = i + 1;
            } else if chars_eq(a, "-l") || chars_eq(a, "--log-level") {
                if i + 1 >= n {
                    let mut m = string_of("Option '");
                    push_str(&mut m, args[i]);
                    push_str(&mut m, "' requires a log level argument (error, warn, info, debug, trace)");
                    return Err(m);
                }
                let v = chars_of(args[i + 1]);
                assert(v@ == texts[i + 1]);
                match level_from_chars(v.as_slice()) {
                    Ok(l) => {
                        cli.log_level = Some(l);
                    },
                    Err(e) => {
                        return Err(e);
                    },
                }
                i = i + 2;
            } else if chars_start_with(a, "--log-level=") {
                proof {
                    reveal_strlit("--log-level=");
                }
                let v = slice_from(a, 12);
                match level_from_chars(v.as_slice()) {
                    Ok(l) => {
                        cli.log_level = Some(l);
                    },
                    Err(e) => {
                        return Err(e);
                    },
                }
                i = i + 1;
            } else if chars_eq(a, "--config") {
                if i + 1 >= n {
                    return Err(string_of("Option '--config' requires a file path argument"));
                }
                let p = chars_of(args[i + 1]);
                assert(p@ == texts[i + 1]);
                let tp = trim_chars(p.as_slice());
                if tp.len() == 0 {
                    return Err(string_of("Option '--config' requires a non-empty file path"));
                }
                match Self::set_config_path(&mut cli, p.as_slice()) {
                    Ok(()) => {},
                    Err(e) => {
                        return Err(e);
                    },
                }
                i = i + 2;
            } else if chars_start_with(a, "--config=") {
                proof {
                    reveal_strlit("--config=");
                }
                let p = slice_from(a, 9);
                let tp = trim_chars(p.as_slice());
                if tp.len() == 0 {
                    return Err(string_of("Option '--config=' requires a non-empty file path"));
                }
                match Self::set_config_path(&mut cli, p.as_slice()) {
                    Ok(()) => {},
                    Err(e) => {
                        return Err(e);
                    },
                }
                i = i + 1;
            } else if a.len() > 0 && a[0] == '-' {
                let mut m = string_of("Unknown option '");
                push_str(&mut m, args[i]);
                push_str(&mut m, "'. Use --help for usage information.");
                return Err(m);
            } else {
                match Self::set_config_path(&mut cli, a) {
                    Ok(()) => {},
                    Err(e) => {
                        return Err(e);
                    },
                }
                i = i + 1;
            }
        }
        Ok(cli)
    }

    fn set_config_path(cli: &mut CliArgs, path: &[char]) -> (r: Result<(), String>)
        ensures
            match with_config(cli_view(*old(cli)), path@) {
                Ok(st) => r is Ok && cli_view(*final(cli)) == st,
                Err(m) => r matches Err(e) && e@ == m && *final(cli) == *old(cli),
            },
    {
        let t = trim_chars(path);
        if path.len() == 0 || t.len() == 0 {
            return Err(string_of("Configuration file path cannot be empty"));
        }
        match &cli.config_path {
            Some(existing) => {
                let mut m = string_of("Multiple configuration files specified: '");
                push_str(&mut m, existing.as_str());
                push_str(&mut m, "' and '");
                let p = string_from_chars(path);
                push_str(&mut m, p.as_str());
                push_str(&mut m, "'");
                return Err(m);
            },
            None => {},
        }
        cli.config_path = Some(string_from_chars(path));
        Ok(())
    }

    /// The text shown for `--help`.
    pub fn help_text() -> (r: &'static str)
        ensures
            r@ == help_message(),
    {
        "TickScope - Multi-Broker Real-time FX Tick Comparison\n\nUSAGE:\n    tick-scope [OPTIONS] [CONFIG_PATH]\n\nARGS:\n    <CONFIG_PATH>           Path to custom TOML configuration file (optional)\n\nOPTIONS:\n    -c, --console           Attach or allocate a console window and enable log output\n    -l, --log-level <LVL>   Set log level (error, warn, info, debug, trace) [default: info]\n        --config <PATH>     Alternative way to specify custom configuration file path\n    -V, --version           Print version information and exit\n    -h, --help              Print this help information and exit\n"
    }
}

/// The help text.
pub open spec fn help_message() -> Seq<char> {
    "TickScope - Multi-Broker Real-time FX Tick Comparison\n\nUSAGE:\n    tick-scope [OPTIONS] [CONFIG_PATH]\n\nARGS:\n    <CONFIG_PATH>           Path to custom TOML configuration file (optional)\n\nOPTIONS:\n    -c, --console           Attach or allocate a console window and enable log output\n    -l, --log-level <LVL>   Set log level (error, warn, info, debug, trace) [default: info]\n        --config <PATH>     Alternative way to specify custom configuration file path\n    -V, --version           Print version information and exit\n    -h, --help              Print this help information and exit\n"@
}

/// The characters of `a` from `k` on.
fn slice_from(a: &[char], k: usize) -> (r: Vec<char>)
    requires
        k <= a@.len(),
    ensures
        r@ == a@.skip(k as int),
{
    let mut out: Vec<char> = Vec::new();
    let mut i: usize = k;
    while i < a.len()
        invariant
            k <= i <= a@.len(),
            out@ == a@.subrange(k as int, i as int),
        decreases a@.len() - i,
    {
        out.push(a[i]);
        assert(a@.subrange(k as int, i + 1) =~= a@.subrange(k as int, i as int).push(a@[i as int]));
        i = i + 1;
    }
    assert(a@.subrange(k as int, a@.len() as int) =~= a@.skip(k as int));
    out
}

/// The message refusing a second configuration path `p2` after `p1`.
pub open spec fn msg_multiple_configs(p1: Seq<char>, p2: Seq<char>) -> Seq<char> {
    "Multiple configuration files specified: '"@ + p1 + "' and '"@ + p2 + "'"@
}

/// A second configuration path is never silently taken: however the two
/// paths `p1` and `p2` are given (both positional, the first after
/// `--config`, the second as `--config=`, or both after `--`), parsing
/// refuses them naming both, while `p1` alone is taken as the path.
pub proof fn lemma_second_config_path_rejected(p1: Seq<char>, p2: Seq<char>)
    requires
        p1.len() > 0,
        p2.len() > 0,
        trim(p1).len() > 0,
        trim(p2).len() > 0,
        p1[0] != '-',
        p2[0] != '-',
    ensures
        parse_from(seq![p1], 0, cli_initial()) == Ok::<CliState, Seq<char>>(
            CliState { config_path: Some(p1), ..cli_initial() },
        ),
        parse_from(seq![p1, p2], 0, cli_initial()) == Err::<CliState, Seq<char>>(msg_multiple_configs(p1, p2)),
        parse_from(seq!["--config"@, p1, p2], 0, cli_initial()) == Err::<CliState, Seq<char>>(
            msg_multiple_configs(p1, p2),
        ),
        parse_from(seq![p1, "--config="@ + p2], 0, cli_initial()) == Err::<CliState, Seq<char>>(
            msg_multiple_configs(p1, p2),
        ),
        parse_from(seq!["--"@, p1, p2], 0, cli_initial()) == Err::<CliState, Seq<char>>(
            msg_multiple_configs(p1, p2),
        ),
{
    reveal_strlit("--");
    reveal_strlit("-c");
    reveal_strlit("--console");
    reveal_strlit("-h");
    reveal_strlit("--help");
    reveal_strlit("-V");
    reveal_strlit("--version");
    reveal_strlit("-l");
    reveal_strlit("--log-level");
    reveal_strlit("--log-level=");
    reveal_strlit("--config");
    reveal_strlit("--config=");
    let st1 = CliState { config_path: Some(p1), ..cli_initial() };
    let c2 = "--config="@ + p2;
    assert(!starts_with(p1, "--log-level="@)) by {
        if starts_with(p1, "--log-level="@) {
            assert(p1[0] == p1.subrange(0, 12)[0]);
        }
    }
    assert(!starts_with(p1, "--config="@)) by {
        if starts_with(p1, "--config="@) {
            assert(p1[0] == p1.subrange(0, 9)[0]);
        }
    }
    assert(!starts_with(p2, "--log-level="@)) by {
        if starts_with(p2, "--log-level="@) {
            assert(p2[0] == p2.subrange(0, 12)[0]);
        }
    }
    assert(!starts_with(p2, "--config="@)) by {
        if starts_with(p2, "--config="@) {
            assert(p2[0] == p2.subrange(0, 9)[0]);
        }
    }
    assert(p1 != "--"@ && p1 != "-c"@ && p1 != "--console"@ && p1 != "-h"@ && p1 != "--help"@);
    assert(p1 != "-V"@ && p1 != "--version"@ && p1 != "-l"@ && p1 != "--log-level"@ && p1 != "--config"@);
    assert(p2 != "--"@ && p2 != "-c"@ && p2 != "--console"@ && p2 != "-h"@ && p2 != "--help"@);
    assert(p2 != "-V"@ && p2 != "--version"@ && p2 != "-l"@ && p2 != "--log-level"@ && p2 != "--config"@);
    assert(with_config(cli_initial(), p1) == Ok::<CliState, Seq<char>>(st1));
    assert(with_config(st1, p2) == Err::<CliState, Seq<char>>(msg_multiple_configs(p1, p2)));
    // One path.
    assert(parse_from(seq![p1], 1, st1) == Ok::<CliState, Seq<char>>(st1));
    // Two positional paths.
    let a2 = seq![p1, p2];
    assert(a2[1] == p2);
    assert(parse_from(a2, 0, cli_initial()) == parse_from(a2, 1, st1));
    // After `--config`.
    let a3 = seq!["--config"@, p1, p2];
    assert(a3[2] == p2 && a3[1] == p1 && a3[0] == "--config"@);
    assert(parse_from(a3, 0, cli_initial()) == parse_from(a3, 2, st1));
    // The second as `--config=`.
    assert(c2.skip(9) =~= p2);
    assert(c2.subrange(0, 9) =~= "--config="@);
    assert(starts_with(c2, "--config="@));
    assert(c2 != "--"@ && c2 != "-c"@ && c2 != "--console"@ && c2 != "-h"@ && c2 != "--help"@);
    assert(c2.len() == 9 + p2.len());
    assert(c2[2] == 'c');
    assert(c2 != "--log-level"@) by {
        if c2 == "--log-level"@ {
            assert("--log-level"@[2] == 'l');
        }
    }
    assert(c2 != "-V"@ && c2 != "--version"@ && c2 != "-l"@ && c2 != "--config"@);
    assert(!starts_with(c2, "--log-level="@)) by {
        if starts_with(c2, "--log-level="@) {
            assert(c2.subrange(0, 12)[2] == "--log-level="@[2]);
            assert(c2[2] == "--config="@[2]);
        }
    }
    let a4 = seq![p1, c2];
    assert(a4[1] == c2);
    assert(parse_from(a4, 0, cli_initial()) == parse_from(a4, 1, st1));
    // Both after `--`.
    let a5 = seq!["--"@, p1, p2];
    assert(a5[1] == p1 && a5[2] == p2);
    assert(positional_from(a5, 1, cli_initial()) == positional_from(a5, 2, st1));
}

} // verus!
