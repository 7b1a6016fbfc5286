//! Timestamps, calendar dates, log lines and the console logger's filter.

use tick_compare::cli::LevelFilter;
use tick_compare::logging::{
    apply_max_level, civil_from_days, format_log_line, format_utc_timestamp, init_disabled_logging,
    resolve_log_level, setup_console, ConsoleLogger, Level,
};

#[test]
fn test_format_utc_timestamp_known_epoch() {
    assert_eq!(format_utc_timestamp(0, 0), "1970-01-01 00:00:00.000");
    // 98_745_123 ms after the epoch.
    assert_eq!(format_utc_timestamp(98_745, 123), "1970-01-02 03:25:45.123");
}

#[test]
fn test_civil_from_days_leap_years() {
    let (y, m, d) = civil_from_days(11016);
    assert_eq!((y, m, d), (2000, 2, 29));

    let (y, m, d) = civil_from_days(19782);
    assert_eq!((y, m, d), (2024, 2, 29));
}

#[test]
fn test_format_log_line_plain() {
    let msg = format!("Test message: {}", 42);
    let line = format_log_line(
        "2026-09-26 12:00:00.000",
        Level::Info,
        "tick_compare::transport::tcp",
        &msg,
        false,
    );
    assert_eq!(
        line,
        "2026-09-26 12:00:00.000 [INFO ] [transport::tcp] Test message: 42\n"
    );
}

#[test]
fn test_format_log_line_with_color() {
    let line = format_log_line(
        "2026-09-26 12:00:00.000",
        Level::Warn,
        "tick_scope::main",
        "Warning occurred",
        true,
    );
    assert!(line.contains("\x1b[33;1mWARN \x1b[0m"));
    assert!(line.contains("[main] Warning occurred"));
}

#[test]
fn test_console_logger_enabled() {
    let logger = ConsoleLogger::new(LevelFilter::Warn, false);
    assert!(logger.enabled(Level::Error));
    assert!(logger.enabled(Level::Warn));
    assert!(!logger.enabled(Level::Info));
    assert!(!logger.enabled(Level::Debug));
}

#[test]
fn test_init_disabled_logging_sets_max_level_off() {
    init_disabled_logging();
    assert_eq!(log::max_level(), log::LevelFilter::Off);
    apply_max_level(LevelFilter::Warn);
    assert_eq!(log::max_level(), log::LevelFilter::Warn);
    apply_max_level(LevelFilter::Trace);
    assert_eq!(log::max_level(), log::LevelFilter::Trace);
    init_disabled_logging();
    assert_eq!(log::max_level(), log::LevelFilter::Off);
}

#[test]
fn calendar_edges() {
    assert_eq!(civil_from_days(-1), (1969, 12, 31));
    assert_eq!(civil_from_days(59), (1970, 3, 1));
    assert_eq!(civil_from_days(-719_468), (0, 3, 1));
    assert_eq!(civil_from_days(10_957), (2000, 1, 1));
    assert_eq!(civil_from_days(47_541), (2100, 3, 1));
    assert_eq!(format_utc_timestamp(-1, 999), "1969-12-31 23:59:59.999");
    assert_eq!(format_utc_timestamp(-62_167_219_200 - 86_400, 5), "-001-12-31 00:00:00.005");
}

#[test]
fn level_resolution() {
    assert_eq!(resolve_log_level(Some(LevelFilter::Error), Some("trace")), LevelFilter::Error);
    assert_eq!(resolve_log_level(None, Some(" DEBUG ")), LevelFilter::Debug);
    assert_eq!(resolve_log_level(None, Some("verbose")), LevelFilter::Info);
    assert_eq!(resolve_log_level(None, None), LevelFilter::Info);
    assert!(setup_console());
    let off = ConsoleLogger::new(LevelFilter::Off, true);
    assert!(!off.enabled(Level::Error));
    let all = ConsoleLogger::new(LevelFilter::Trace, true);
    assert!(all.enabled(Level::Trace));
}

#[test]
fn colored_levels_and_untouched_targets() {
    let line = format_log_line("t", Level::Error, "other::module", "m", true);
    assert_eq!(line, "t [\x1b[31;1mERROR\x1b[0m] [other::module] m\n");
    let line = format_log_line("t", Level::Trace, "tick_compare::", "", false);
    assert_eq!(line, "t [TRACE] [] \n");
}
