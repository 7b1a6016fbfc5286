//! Diagnostic logging: timestamps, calendar dates, line formatting and the
//! console logger's level filter.

use crate::cli::{level_of, LevelFilter};
use crate::text::{
    chars_of, chars_start_with, dec, push_char, push_dec_padded, push_signed_padded, push_str,
    signed_zero_pad, starts_with, string_from_chars, string_of, strip_prefix, zero_pad,
};
use vstd::prelude::*;

verus! {

/// The severity of one log message.
#[derive(Debug, Clone, Copy, PartialEq, Eq, Hash, Structural)]
pub enum Level {
    Error,
    Warn,
    Info,
    Debug,
    Trace,
}

// ---------------------------------------------------------------------
// Calendar
// ---------------------------------------------------------------------

/// Gregorian leap year.
pub open spec fn is_leap_year(y: int) -> bool {
    (y % 4 == 0 && y % 100 != 0) || y % 400 == 0
}

/// Days in month `m` (1..=12) of year `y`.
pub open spec fn days_in_month(y: int, m: int) -> int {
    if m == 2 {
        if is_leap_year(y) {
            29
        } else {
            28
        }
    } else if m == 4 || m == 6 || m == 9 || m == 11 {
        30
    } else {
        31
    }
}

/// Leap years from year 1 up to and including `y` (counted backwards,
/// negatively, for years before 1).
pub open spec fn leap_years_through(y: int) -> int {
    y / 4 - y / 100 + y / 400
}

/// Days of the months before month `m` in a common year.
pub open spec fn days_before_month_common(m: int) -> int {
    if m <= 1 {
        0
    } else if m == 2 {
        31
    } else if m == 3 {
        59
    } else if m == 4 {
        90
    } else if m == 5 {
        120
    } else if m == 6 {
        151
    } else if m == 7 {
        181
    } else if m == 8 {
        212
    } else if m == 9 {
        243
    } else if m == 10 {
        273
    } else if m == 11 {
        304
    } else {
        334
    }
}

/// The day number of a date, counted from 1970-01-01 as day zero, in the
/// proleptic Gregorian calendar.
pub open spec fn days_from_civil(y: int, m: int, d: int) -> int {
    365 * (y - 1970) + (leap_years_through(y - 1) - leap_years_through(1969))
        + days_before_month_common(m) + (if m > 2 && is_leap_year(y) {
        1int
    } else {
        0int
    }) + d - 1
}

/// `(y, m, d)` is a real date and is day `days` counted from 1970-01-01.
pub open spec fn is_civil_date_of(days: int, y: int, m: int, d: int) -> bool {
    1 <= m <= 12 && 1 <= d <= days_in_month(y, m) && days_from_civil(y, m, d) == days
}

/// The (year, month, day) of a day counted from 1970-01-01.
#[verifier::spinoff_prover]
#[verifier::rlimit(40)]
pub fn civil_from_days(days_since_unix_epoch: i64) -> (r: (i64, u32, u32))
    requires
        days_since_unix_epoch + 719_468 <= i64::MAX,
    ensures
        is_civil_date_of(days_since_unix_epoch as int, r.0 as int, r.1 as int, r.2 as int),
{
    let z = days_since_unix_epoch + 719_468;
    let era = if z >= 0 {
        z
    } else {
        z - 146_096
    } / 146_097;
    let day_of_era = z - era * 146_097;
    let year_of_era = (day_of_era - day_of_era / 1_460 + day_of_era / 36_524 - day_of_era
        / 146_096) / 365;
    let mut year = year_of_era + era * 400;
    let day_of_year = day_of_era - (365 * year_of_era + year_of_era / 4 - year_of_era / 100);
    let month_prime = (5 * day_of_year + 2) / 153;
    let day = day_of_year - (153 * month_prime + 2) / 5 + 1;
    let month = month_prime + if month_prime < 10 {
        3
    } else {
        -9
    };
    if month <= 2 {
        year = year + 1;
    }
    proof {
        let zz = days_since_unix_epoch + 719_468;
        assert(era == zz / 146_097) by {
            if zz < 0 {
                assert((zz - 146_096) / 146_097 <= 0);
            }
        }
        lemma_civil_date(
            days_since_unix_epoch as int,
            era as int,
            year_of_era as int,
            day_of_year as int,
            month_prime as int,
        );
    }
    (year, month as u32, day as u32)
}

proof fn lemma_century(doe: int, b: int)
    requires
        0 <= b <= 3,
        36524 * b <= doe < 36524 * b + 36524,
    ensures
        ({
            let yoe = (doe - doe / 1460 + doe / 36524 - doe / 146096) / 365;
            let doy = doe - (365 * yoe + yoe / 4 - yoe / 100);
            &&& 0 <= yoe <= 399
            &&& 0 <= doy
            &&& doy < 365 + (if is_leap_year(yoe + 1) {
                1int
            } else {
                0int
            })
        }),
{
    let doc = doe - 36524 * b;
    let q = doc / 1461;
    let r = doc % 1461;
    assert(doc == 1461 * q + r);
    assert(0 <= q <= 24);
    assert(doe / 36524 == b);
    assert(doe / 146096 == 0);
    let e = (24 * b + q + r) / 1460;
    assert(doe == 1460 * (25 * b + q) + (24 * b + q + r));
    assert(doe / 1460 == 25 * b + q + e);
    assert(e == 0 || e == 1);
    let t = doe - doe / 1460 + doe / 36524 - doe / 146096;
    assert(t == 365 * (100 * b + 4 * q) + (r - e));
    assert(0 <= r - e <= 1459);
    let yy = (r - e) / 365;
    let yoe = t / 365;
    assert(yoe == 100 * b + 4 * q + yy);
    assert(yoe / 4 == 25 * b + q);
    assert(yoe / 100 == b);
    let doy = doe - (365 * yoe + yoe / 4 - yoe / 100);
    assert(doy == r - 365 * yy);
}

/// Within a 400-year era counted from 1 March, the year and the day of
/// that year.
proof fn lemma_era(doe: int)
    requires
        0 <= doe <= 146096,
    ensures
        ({
            let yoe = (doe - doe / 1460 + doe / 36524 - doe / 146096) / 365;
            let doy = doe - (365 * yoe + yoe / 4 - yoe / 100);
            &&& 0 <= yoe <= 399
            &&& 0 <= doy
            &&& doy < 365 + (if is_leap_year(yoe + 1) {
                1int
            } else {
                0int
            })
        }),
{
    if doe < 146096 {
        lemma_century(doe, doe / 36524);
    }
}

/// Within a year counted from 1 March, the month and the day.
proof fn lemma_month(doy: int, leap: bool)
    requires
        0 <= doy < 365 + (if leap {
            1int
        } else {
            0int
        }),
    ensures
        ({
            let mp = (5 * doy + 2) / 153;
            let d = doy - (153 * mp + 2) / 5 + 1;
            &&& 0 <= mp <= 11
            &&& 1 <= d
            &&& d <= (if mp == 11 {
                if leap {
                    29int
                } else {
                    28int
                }
            } else if mp == 1 || mp == 3 || mp == 6 || mp == 8 {
                30int
            } else {
                31int
            })
        }),
{
}

proof fn lemma_leap_shift(e: int, k: int)
    ensures
        leap_years_through(400 * e + k) == 97 * e + leap_years_through(k),
        is_leap_year(400 * e + k) == is_leap_year(k),
{
    assert((400 * e + k) / 4 == 100 * e + k / 4);
    assert((400 * e + k) / 100 == 4 * e + k / 100);
    assert((400 * e + k) / 400 == e + k / 400);
    assert((400 * e + k) % 4 == k % 4);
    assert((400 * e + k) % 100 == k % 100);
    assert((400 * e + k) % 400 == k % 400);
}

#[verifier::spinoff_prover]
#[verifier::rlimit(30)]
proof fn lemma_leap_step(k: int)
    ensures
        leap_years_through(k) == leap_years_through(k - 1) + (if is_leap_year(k) {
            1int
        } else {
            0int
        }),
{
    assert((k - 1) / 4 == k / 4 - (if k % 4 == 0 {
        1int
    } else {
        0int
    }));
    assert((k - 1) / 100 == k / 100 - (if k % 100 == 0 {
        1int
    } else {
        0int
    }));
    assert((k - 1) / 400 == k / 400 - (if k % 400 == 0 {
        1int
    } else {
        0int
    }));
    assert(k % 100 == 0 ==> k % 4 == 0);
    assert(k % 400 == 0 ==> k % 100 == 0);
}

proof fn lemma_month_table(mp: int)
    requires
        0 <= mp <= 11,
    ensures
        days_before_month_common(if mp < 10 {
            mp + 3
        } else {
            mp - 9
        }) == (153 * mp + 2) / 5 + (if mp < 10 {
            59int
        } else {
            -306int
        }),
{
}

proof fn lemma_day_number(era: int, yoe: int, doy: int, mp: int, d: int)
    requires
        0 <= yoe <= 399,
        0 <= mp <= 11,
        d == doy - (153 * mp + 2) / 5 + 1,
    ensures
        ({
            let m = if mp < 10 {
                mp + 3
            } else {
                mp - 9
            };
            let y = yoe + era * 400 + (if m <= 2 {
                1int
            } else {
                0int
            });
            days_from_civil(y, m, d) == era * 146_097 + 365 * yoe + yoe / 4 - yoe / 100 + doy
                - 719_468
        }),
{
    let m = if mp < 10 {
        mp + 3
    } else {
        mp - 9
    };
    let y0 = era * 400 + yoe;
    lemma_month_table(mp);
    lemma_leap_shift(era, yoe);
    lemma_leap_shift(era, yoe - 1);
    lemma_leap_step(yoe);
    assert(leap_years_through(1969) == 477);
    assert(leap_years_through(yoe) == yoe / 4 - yoe / 100);
    if m <= 2 {
        assert(days_from_civil(y0 + 1, m, d) == 365 * (y0 + 1 - 1970) + (leap_years_through(y0)
            - 477) + days_before_month_common(m) + d - 1);
    } else {
        assert(days_from_civil(y0, m, d) == 365 * (y0 - 1970) + (leap_years_through(y0 - 1)
            - 477) + days_before_month_common(m) + (if is_leap_year(y0) {
            1int
        } else {
            0int
        }) + d - 1);
    }
}

/// The steps of the conversion give a real date whose day number is
/// `days`.
proof fn lemma_civil_date(days: int, era: int, yoe: int, doy: int, mp: int)
    requires
        era == (days + 719_468) / 146_097,
        ({
            let doe = days + 719_468 - era * 146_097;
            &&& yoe == (doe - doe / 1460 + doe / 36524 - doe / 146096) / 365
            &&& doy == doe - (365 * yoe + yoe / 4 - yoe / 100)
        }),
        mp == (5 * doy + 2) / 153,
    ensures
        ({
            let d = doy - (153 * mp + 2) / 5 + 1;
            let m = if mp < 10 {
                mp + 3
            } else {
                mp - 9
            };
            let y = yoe + era * 400 + (if m <= 2 {
                1int
            } else {
                0int
            });
            &&& 0 <= yoe <= 399
            &&& 0 <= doy <= 365
            &&& 0 <= mp <= 11
            &&& is_civil_date_of(days, y, m, d)
        }),
{
    let z = days + 719_468;
    let doe = z - era * 146_097;
    vstd::arithmetic::div_mod::lemma_fundamental_div_mod(z, 146_097);
    assert(0 <= doe <= 146096);
    lemma_era(doe);
    let leap = is_leap_year(yoe + 1);
    lemma_month(doy, leap);
    let d = doy - (153 * mp + 2) / 5 + 1;
    lemma_day_number(era, yoe, doy, mp, d);
    lemma_leap_shift(era, yoe + 1);
}

// ---------------------------------------------------------------------
// Timestamps
// ---------------------------------------------------------------------

/// The text of a UTC timestamp `YYYY-MM-DD HH:MM:SS.mmm`.
pub open spec fn timestamp_text(y: int, mo: int, d: int, h: int, mi: int, s: int, ms: int) -> Seq<char> {
    signed_zero_pad(y, 4) + "-"@ + zero_pad(dec(mo as nat), 2) + "-"@ + zero_pad(dec(d as nat), 2)
        + " "@ + zero_pad(dec(h as nat), 2) + ":"@ + zero_pad(dec(mi as nat), 2) + ":"@ + zero_pad(
        dec(s as nat),
        2,
    ) + "."@ + zero_pad(dec(ms as nat), 3)
}

/// Formats `total_secs` seconds and `millis` milliseconds after the Unix
/// epoch as a UTC timestamp `YYYY-MM-DD HH:MM:SS.mmm`.
#[verifier::spinoff_prover]
#[verifier::rlimit(40)]
pub fn format_utc_timestamp(total_secs: i64, millis: u32) -> (r: String)
    ensures
        ({
            let days = total_secs as int / 86_400;
            let ds = total_secs as int % 86_400;
            exists|y: int, mo: int, d: int|
                is_civil_date_of(days, y, mo, d) && #[trigger] timestamp_text(y, mo, d, ds / 3600, (ds % 3600) / 60, ds % 60, millis as int) == r@
        }),
{
    let mut days = total_secs / 86_400;
    let mut day_secs = total_secs % 86_400;
    if day_secs < 0 {
        days = days - 1;
        day_secs = day_secs + 86_400;
    }
    assert(days == total_secs as int / 86_400 && day_secs == total_secs as int % 86_400);
    let (year, month, day) = civil_from_days(days);
    let hour = day_secs / 3600;
    let min = (day_secs % 3600) / 60;
    let sec = day_secs % 60;
    let mut out = String::new();
    push_signed_padded(&mut out, year, 4);
    push_char(&mut out, '-');
    push_dec_padded(&mut out, month as u64, 2);
    push_char(&mut out, '-');
    push_dec_padded(&mut out, day as u64, 2);
    push_char(&mut out, ' ');
    push_dec_padded(&mut out, hour as u64, 2);
    push_char(&mut out, ':');
    push_dec_padded(&mut out, min as u64, 2);
    push_char(&mut out, ':');
    push_dec_padded(&mut out, sec as u64, 2);
    push_char(&mut out, '.');
    push_dec_padded(&mut out, millis as u64, 3);
    proof {
        reveal_strlit("-");
        reveal_strlit(" ");
        reveal_strlit(":");
        reveal_strlit(".");
        assert(out@ =~= timestamp_text(year as int, month as int, day as int, hour as int, min as int, sec as int, millis as int));
    }
    out
}

// ---------------------------------------------------------------------
// Log lines
// ---------------------------------------------------------------------

/// The level column of a log line, coloured with ANSI escapes or plain.
pub open spec fn level_text(level: Level, use_color: bool) -> Seq<char> {
    if use_color {
        match level {
            Level::Error => "\x1b[31;1mERROR\x1b[0m"@,
            Level::Warn => "\x1b[33;1mWARN \x1b[0m"@,
            Level::Info => "\x1b[32;1mINFO \x1b[0m"@,
            Level::Debug => "\x1b[36;1mDEBUG\x1b[0m"@,
            Level::Trace => "\x1b[35;1mTRACE\x1b[0m"@,
        }
    } else {
        match level {
            Level::Error => "ERROR"@,
            Level::Warn => "WARN "@,
            Level::Info => "INFO "@,
            Level::Debug => "DEBUG"@,
            Level::Trace => "TRACE"@,
        }
    }
}

/// The log target without the crate prefix `tick_compare::` or
/// `tick_scope::`.
pub open spec fn clean_target(target: Seq<char>) -> Seq<char> {
    match strip_prefix(target, "tick_compare::"@) {
        Some(t) => t,
        None => match strip_prefix(target, "tick_scope::"@) {
            Some(t) => t,
            None => target,
        },
    }
}

/// One formatted log line.
pub open spec fn log_line(timestamp: Seq<char>, level: Level, target: Seq<char>, message: Seq<char>, use_color: bool) -> Seq<char> {
    timestamp + " ["@ + level_text(level, use_color) + "] ["@ + clean_target(target) + "] "@
        + message + "\n"@
}

fn level_str(level: Level, use_color: bool) -> (r: &'static str)
    ensures
        r@ == level_text(level, use_color),
{
    if use_color {
        match level {
            Level::Error => "\x1b[31;1mERROR\x1b[0m",
            Level::Warn => "\x1b[33;1mWARN \x1b[0m",
            Level::Info => "\x1b[32;1mINFO \x1b[0m",
            Level::Debug => "\x1b[36;1mDEBUG\x1b[0m",
            Level::Trace => "\x1b[35;1mTRACE\x1b[0m",
        }
    } else {
        match level {
            Level::Error => "ERROR",
            Level::Warn => "WARN ",
            Level::Info => "INFO ",
            Level::Debug => "DEBUG",
            Level::Trace => "TRACE",
        }
    }
}

/// Formats one log line: timestamp, level, target without the crate
/// prefix, message, newline.
pub fn format_log_line(timestamp: &str, level: Level, target: &str, message: &str, use_color: bool) -> (r: String)
    ensures
        r@ == log_line(timestamp@, level, target@, message@, use_color),
{
    let t = chars_of(target);
    let clean = if chars_start_with(t.as_slice(), "tick_compare::") {
        proof {
            reveal_strlit("tick_compare::");
        }
        skip_chars(t.as_slice(), 14)
    } else if chars_start_with(t.as_slice(), "tick_scope::") {
        proof {
            reveal_strlit("tick_scope::");
        }
        skip_chars(t.as_slice(), 12)
    } else {
        t
    };
    let mut out = string_of(timestamp);
    push_str(&mut out, " [");
    push_str(&mut out, level_str(level, use_color));
    push_str(&mut out, "] [");
    let c = string_from_chars(clean.as_slice());
    push_str(&mut out, c.as_str());
    push_str(&mut out, "] ");
    push_str(&mut out, message);
    push_str(&mut out, "\n");
    out
}

/// The characters of `a` from `k` on.
fn skip_chars(a: &[char], k: usize) -> (r: Vec<char>)
    requires
        k <= a@.len(),
    ensures
        r@ == a@.skip(k as int),
{
    let mut out: Vec<char> = Vec::new();
    let mut i: usize = k;
    while i < a.len()
        invariant
            k <= i <= a@.len(),
            out@ == a@.subrange(k as int, i as int),
        decreases a@.len() - i,
    {
        out.push(a[i]);
        assert(a@.subrange(k as int, i + 1) =~= a@.subrange(k as int, i as int).push(a@[i as int]));
        i = i + 1;
    }
    assert(a@.subrange(k as int, a@.len() as int) =~= a@.skip(k as int));
    out
}

// ---------------------------------------------------------------------
// Levels and the console logger
// ---------------------------------------------------------------------

/// The rank of a message level, Error highest priority at 1.
pub open spec fn level_rank(l: Level) -> int {
    match l {
        Level::Error => 1,
        Level::Warn => 2,
        Level::Info => 3,
        Level::Debug => 4,
        Level::Trace => 5,
    }
}

/// The rank of a filter: the highest message rank it lets through, 0 for
/// `Off`.
pub open spec fn filter_rank(f: LevelFilter) -> int {
    match f {
        LevelFilter::Off => 0,
        LevelFilter::Error => 1,
        LevelFilter::Warn => 2,
        LevelFilter::Info => 3,
        LevelFilter::Debug => 4,
        LevelFilter::Trace => 5,
    }
}

/// A console logger's settings: the level filter and whether lines are
/// coloured.
pub struct ConsoleLogger {
    pub level: LevelFilter,
    pub use_color: bool,
}

impl ConsoleLogger {
    pub fn new(level: LevelFilter, use_color: bool) -> (r: Self)
        ensures
            r.level == level,
            r.use_color == use_color,
    {
        ConsoleLogger { level, use_color }
    }

    /// Whether a message of `level` is written.
    pub fn enabled(&self, level: Level) -> (r: bool)
        ensures
            r == (level_rank(level) <= filter_rank(self.level)),
    {
        let l: u8 = match level {
            Level::Error => 1,
            Level::Warn => 2,
            Level::Info => 3,
            Level::Debug => 4,
            Level::Trace => 5,
        };
        let f: u8 = match self.level {
            LevelFilter::Off => 0,
            LevelFilter::Error => 1,
            LevelFilter::Warn => 2,
            LevelFilter::Info => 3,
            LevelFilter::Debug => 4,
            LevelFilter::Trace => 5,
        };
        l <= f
    }
}

/// The level to log at: the one given on the command line, else the one
/// named by the `RUST_LOG` value if it parses, else `Info`.
pub fn resolve_log_level(explicit: Option<LevelFilter>, env_value: Option<&str>) -> (r: LevelFilter)
    ensures
        r == match explicit {
            Some(l) => l,
            None => match env_value {
                Some(v) => match level_of(v@) {
                    Ok(l) => l,
                    Err(_) => LevelFilter::Info,
                },
                None => LevelFilter::Info,
            },
        },
{
    match explicit {
        Some(l) => l,
        None => match env_value {
            Some(v) => match crate::cli::parse_level_filter(v) {
                Ok(l) => l,
                Err(_) => LevelFilter::Info,
            },
            None => LevelFilter::Info,
        },
    }
}

/// Calls `log::set_max_level` with the corresponding filter. It changes
/// process-wide state, of which nothing is stated.
#[verifier::external_body]
fn set_log_max_level(level: LevelFilter) {
    log::set_max_level(
        match level {
            LevelFilter::Off => log::LevelFilter::Off,
            LevelFilter::Error => log::LevelFilter::Error,
            LevelFilter::Warn => log::LevelFilter::Warn,
            LevelFilter::Info => log::LevelFilter::Info,
            LevelFilter::Debug => log::LevelFilter::Debug,
            LevelFilter::Trace => log::LevelFilter::Trace,
        },
    );
}

/// Turns all logging off.
pub fn init_disabled_logging() {
    set_log_max_level(LevelFilter::Off);
}

/// Sets the process-wide maximum log level.
pub fn apply_max_level(level: LevelFilter) {
    set_log_max_level(level);
}

/// Prepares the console for log output; nothing needs doing outside
/// Windows, and it succeeds.
pub fn setup_console() -> (r: bool)
    ensures
        r,
{
    true
}

/// Releases a console window allocated for this process; none is
/// allocated outside Windows.
pub fn cleanup_console() {
}

/// Whether a console window was allocated for this process; never outside
/// Windows.
pub fn is_console_allocated() -> (r: bool)
    ensures
        !r,
{
    false
}

} // verus!
