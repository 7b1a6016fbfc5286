//! Command-line parsing.

use tick_compare::cli::{CliArgs, LevelFilter};

fn path(s: &str) -> Option<String> {
    Some(s.to_string())
}

#[test]
fn test_default_empty_args() {
    let empty: Vec<&str> = vec![];
    let cli = CliArgs::parse(&empty).unwrap();
    assert!(!cli.console);
    assert_eq!(cli.config_path, None);
    assert_eq!(cli.log_level, None);
    assert!(!cli.show_help);
}

#[test]
fn test_console_flags() {
    let cli = CliArgs::parse(&["-c"]).unwrap();
    assert!(cli.console);

    let cli = CliArgs::parse(&["--console"]).unwrap();
    assert!(cli.console);
}

#[test]
fn test_help_flags() {
    let cli = CliArgs::parse(&["-h"]).unwrap();
    assert!(cli.show_help);

    let cli = CliArgs::parse(&["--help"]).unwrap();
    assert!(cli.show_help);
}

#[test]
fn test_positional_config_path() {
    let cli = CliArgs::parse(&["config/custom.toml"]).unwrap();
    assert_eq!(cli.config_path, path("config/custom.toml"));
    assert!(!cli.console);

    let cli = CliArgs::parse(&["config/custom.toml", "--console"]).unwrap();
    assert!(cli.console);
    assert_eq!(cli.config_path, path("config/custom.toml"));

    let cli = CliArgs::parse(&["-c", "config/custom.toml"]).unwrap();
    assert!(cli.console);
    assert_eq!(cli.config_path, path("config/custom.toml"));
}

#[test]
fn test_named_config_option() {
    let cli = CliArgs::parse(&["--config", "config/custom.toml"]).unwrap();
    assert_eq!(cli.config_path, path("config/custom.toml"));

    let cli = CliArgs::parse(&["--config=config/custom.toml"]).unwrap();
    assert_eq!(cli.config_path, path("config/custom.toml"));

    let cli = CliArgs::parse(&["-c", "--config", "my.toml"]).unwrap();
    assert!(cli.console);
    assert_eq!(cli.config_path, path("my.toml"));
}

#[test]
fn test_log_level_flags() {
    let cli = CliArgs::parse(&["-l", "debug"]).unwrap();
    assert_eq!(cli.log_level, Some(LevelFilter::Debug));

    let cli = CliArgs::parse(&["--log-level", "warn"]).unwrap();
    assert_eq!(cli.log_level, Some(LevelFilter::Warn));

    let cli = CliArgs::parse(&["--log-level=trace"]).unwrap();
    assert_eq!(cli.log_level, Some(LevelFilter::Trace));

    let cli = CliArgs::parse(&["-l", "error", "-c"]).unwrap();
    assert!(cli.console);
    assert_eq!(cli.log_level, Some(LevelFilter::Error));
}

#[test]
fn test_duplicate_config_error() {
    let err = CliArgs::parse(&["foo.toml", "bar.toml"]).unwrap_err();
    assert!(err.contains("Multiple configuration files specified"));

    let err = CliArgs::parse(&["--config", "foo.toml", "bar.toml"]).unwrap_err();
    assert!(err.contains("Multiple configuration files specified"));
}

#[test]
fn test_unknown_option_error() {
    let err = CliArgs::parse(&["--invalid-option"]).unwrap_err();
    assert!(err.contains("Unknown option '--invalid-option'"));
}

#[test]
fn test_missing_argument_error() {
    let err = CliArgs::parse(&["--config"]).unwrap_err();
    assert!(err.contains("requires a file path argument"));

    let err = CliArgs::parse(&["--log-level"]).unwrap_err();
    assert!(err.contains("requires a log level argument"));

    let err = CliArgs::parse(&["--config="]).unwrap_err();
    assert!(err.contains("requires a non-empty file path"));
}

#[test]
fn test_invalid_log_level() {
    let err = CliArgs::parse(&["-l", "superverbose"]).unwrap_err();
    assert!(err.contains("Invalid log level 'superverbose'"));
}

#[test]
fn test_version_flags() {
    let cli = CliArgs::parse(&["-V"]).unwrap();
    assert!(cli.show_version);

    let cli = CliArgs::parse(&["--version"]).unwrap();
    assert!(cli.show_version);
}

#[test]
fn test_option_delimiter() {
    let cli = CliArgs::parse(&["-c", "--", "my_config.toml"]).unwrap();
    assert!(cli.console);
    assert_eq!(cli.config_path, path("my_config.toml"));

    let err = CliArgs::parse(&["--", "first.toml", "second.toml"]).unwrap_err();
    assert!(err.contains("Multiple configuration files specified"));
}

#[test]
fn test_empty_config_path_rejected() {
    let err = CliArgs::parse(&[""]).unwrap_err();
    assert!(err.contains("Configuration file path cannot be empty"));

    let err = CliArgs::parse(&["   "]).unwrap_err();
    assert!(err.contains("Configuration file path cannot be empty"));

    let err = CliArgs::parse(&["--config", ""]).unwrap_err();
    assert!(err.contains("requires a non-empty file path"));

    let err = CliArgs::parse(&["--config", "   "]).unwrap_err();
    assert!(err.contains("requires a non-empty file path"));
}

#[test]
fn test_help_text_content() {
    let help = CliArgs::help_text();
    assert!(help.contains("--console"));
    assert!(help.contains("--log-level"));
    assert!(help.contains("--version"));
    assert!(help.contains("--help"));
}

#[test]
fn exact_error_messages() {
    assert_eq!(
        CliArgs::parse(&["-x"]).unwrap_err(),
        "Unknown option '-x'. Use --help for usage information."
    );
    assert_eq!(
        CliArgs::parse(&["-l"]).unwrap_err(),
        "Option '-l' requires a log level argument (error, warn, info, debug, trace)"
    );
    assert_eq!(
        CliArgs::parse(&["a.toml", "b.toml"]).unwrap_err(),
        "Multiple configuration files specified: 'a.toml' and 'b.toml'"
    );
    assert_eq!(
        CliArgs::parse(&["--log-level= Loud "]).unwrap_err(),
        "Invalid log level 'loud'. Valid values are: error, warn, info, debug, trace"
    );
    assert_eq!(
        CliArgs::parse(&["--config"]).unwrap_err(),
        "Option '--config' requires a file path argument"
    );
}

#[test]
fn later_log_level_wins_and_unicode_whitespace_trims() {
    let cli = CliArgs::parse(&["-l", "warn", "--log-level", "\u{3000}TRACE\u{2003}"]).unwrap();
    assert_eq!(cli.log_level, Some(LevelFilter::Trace));
    assert!(CliArgs::parse(&["\u{00A0}"]).is_err());
    let cli = CliArgs::parse(&["--", "-c"]).unwrap();
    assert!(!cli.console);
    assert_eq!(cli.config_path, path("-c"));
}
