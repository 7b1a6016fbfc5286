//! Command-line parsing and log formatting together.

use tick_compare::cli::{parse_level_filter, CliArgs, LevelFilter};
use tick_compare::logging::{format_log_line, Level};

fn path(s: &str) -> Option<String> {
    Some(s.to_string())
}

#[test]
fn test_cli_parsing_matrix() {
    let cli = CliArgs::parse(&Vec::<&str>::new()).unwrap();
    assert!(!cli.console);
    assert_eq!(cli.config_path, None);
    assert_eq!(cli.log_level, None);
    assert!(!cli.show_help);

    assert!(CliArgs::parse(&["-c"]).unwrap().console);
    assert!(CliArgs::parse(&["--console"]).unwrap().console);

    assert!(CliArgs::parse(&["-h"]).unwrap().show_help);
    assert!(CliArgs::parse(&["--help"]).unwrap().show_help);

    let cli = CliArgs::parse(&["config/custom.toml"]).unwrap();
    assert_eq!(cli.config_path, path("config/custom.toml"));
    assert!(!cli.console);

    let cli1 = CliArgs::parse(&["-c", "config/custom.toml"]).unwrap();
    let cli2 = CliArgs::parse(&["config/custom.toml", "-c"]).unwrap();
    let cli3 = CliArgs::parse(&["--console", "config/custom.toml"]).unwrap();
    let cli4 = CliArgs::parse(&["config/custom.toml", "--console"]).unwrap();
    for cli in [cli1, cli2, cli3, cli4] {
        assert!(cli.console);
        assert_eq!(cli.config_path, path("config/custom.toml"));
    }

    let cli = CliArgs::parse(&["--config", "my.toml"]).unwrap();
    assert_eq!(cli.config_path, path("my.toml"));

    let cli = CliArgs::parse(&["--config=my.toml"]).unwrap();
    assert_eq!(cli.config_path, path("my.toml"));

    let cli = CliArgs::parse(&["-l", "warn"]).unwrap();
    assert_eq!(cli.log_level, Some(LevelFilter::Warn));

    let cli = CliArgs::parse(&["--log-level", "debug"]).unwrap();
    assert_eq!(cli.log_level, Some(LevelFilter::Debug));

    let cli = CliArgs::parse(&["--log-level=trace"]).unwrap();
    assert_eq!(cli.log_level, Some(LevelFilter::Trace));

    let cli = CliArgs::parse(&["-c", "--log-level=debug", "--config", "cfg.toml"]).unwrap();
    assert!(cli.console);
    assert_eq!(cli.log_level, Some(LevelFilter::Debug));
    assert_eq!(cli.config_path, path("cfg.toml"));

    assert!(CliArgs::parse(&["-V"]).unwrap().show_version);
    assert!(CliArgs::parse(&["--version"]).unwrap().show_version);

    let cli = CliArgs::parse(&["-c", "--", "cfg.toml"]).unwrap();
    assert!(cli.console);
    assert_eq!(cli.config_path, path("cfg.toml"));
}

#[test]
fn test_cli_error_cases() {
    assert!(CliArgs::parse(&["--bogus"]).is_err());
    assert!(CliArgs::parse(&["-x"]).is_err());

    assert!(CliArgs::parse(&["--config"]).is_err());
    assert!(CliArgs::parse(&["--config="]).is_err());
    assert!(CliArgs::parse(&["--config", ""]).is_err());
    assert!(CliArgs::parse(&["--config", "   "]).is_err());
    assert!(CliArgs::parse(&[""]).is_err());
    assert!(CliArgs::parse(&["   "]).is_err());
    assert!(CliArgs::parse(&["-l"]).is_err());
    assert!(CliArgs::parse(&["--log-level"]).is_err());

    assert!(CliArgs::parse(&["-l", "superdebug"]).is_err());
    assert!(CliArgs::parse(&["--log-level=notalevel"]).is_err());

    assert!(CliArgs::parse(&["a.toml", "b.toml"]).is_err());
    assert!(CliArgs::parse(&["--config", "a.toml", "b.toml"]).is_err());
    assert!(CliArgs::parse(&["a.toml", "--config=b.toml"]).is_err());
    assert!(CliArgs::parse(&["--", "a.toml", "b.toml"]).is_err());
}

#[test]
fn test_log_level_case_insensitivity_and_aliases() {
    assert_eq!(parse_level_filter("INFO").unwrap(), LevelFilter::Info);
    assert_eq!(parse_level_filter("info").unwrap(), LevelFilter::Info);
    assert_eq!(parse_level_filter("Debug").unwrap(), LevelFilter::Debug);
    assert_eq!(parse_level_filter("DEBUG").unwrap(), LevelFilter::Debug);
    assert_eq!(parse_level_filter("WARN").unwrap(), LevelFilter::Warn);
    assert_eq!(parse_level_filter("warning").unwrap(), LevelFilter::Warn);
    assert_eq!(parse_level_filter("ERROR").unwrap(), LevelFilter::Error);
    assert_eq!(parse_level_filter("err").unwrap(), LevelFilter::Error);
    assert_eq!(parse_level_filter("ERR").unwrap(), LevelFilter::Error);
    assert_eq!(parse_level_filter("Trace").unwrap(), LevelFilter::Trace);
    assert_eq!(parse_level_filter("off").unwrap(), LevelFilter::Off);
}

#[test]
fn test_logging_formatting_and_target_cleanup() {
    let msg = format!("Hello, {}!", "world");
    let line = format_log_line(
        "2026-09-26 12:34:56.789",
        Level::Info,
        "tick_compare::transport::router",
        &msg,
        false,
    );
    assert_eq!(
        line,
        "2026-09-26 12:34:56.789 [INFO ] [transport::router] Hello, world!\n"
    );

    let line_scoped = format_log_line(
        "2026-09-26 12:34:56.789",
        Level::Error,
        "tick_scope::coordinator",
        &msg,
        false,
    );
    assert_eq!(
        line_scoped,
        "2026-09-26 12:34:56.789 [ERROR] [coordinator] Hello, world!\n"
    );
}

#[test]
fn test_is_console_allocated_in_test_env() {
    assert!(!tick_compare::logging::is_console_allocated());
}
