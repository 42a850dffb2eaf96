//! The listening-day calendar: a listening day starts at 05:00 UTC, and
//! calendar fields of a Unix timestamp come from chrono.
use chrono::{DateTime, Datelike, Timelike};
use vstd::prelude::*;

verus! {

/// Earliest timestamp that the calendar accepts (seconds); chrono represents
/// every instant between this and `MAX_TIMESTAMP`.
pub const MIN_TIMESTAMP: i64 = -8_000_000_000_000;

/// Latest timestamp that the calendar accepts (seconds).
pub const MAX_TIMESTAMP: i64 = 8_000_000_000_000;

pub const SECONDS_PER_HOUR: i64 = 3_600;

pub const SECONDS_PER_DAY: i64 = 86_400;

/// A listening day starts this many seconds after UTC midnight (05:00).
pub const DAY_START_OFFSET: i64 = 18_000;

/// Earliest and latest calendar years that chrono represents.
pub const MIN_YEAR: i32 = -262_143;

pub const MAX_YEAR: i32 = 262_142;

/// Added to a year so that month keys are never negative.
pub const YEAR_BIAS: i64 = 300_000;

/// Earliest and latest listening timestamps the engine takes; they keep every
/// instant the engine derives from them (a day earlier, a year earlier)
/// within chrono's range.
pub const MIN_LISTEN_TS: i64 = -7_000_000_000_000;

pub const MAX_LISTEN_TS: i64 = 7_000_000_000_000;

pub open spec fn listen_time(ts: int) -> bool {
    MIN_LISTEN_TS <= ts <= MAX_LISTEN_TS
}

pub open spec fn valid_timestamp(ts: int) -> bool {
    MIN_TIMESTAMP <= ts <= MAX_TIMESTAMP
}

/// Seconds elapsed since the UTC midnight that starts the calendar day of `ts`.
pub open spec fn seconds_of_day(ts: int) -> int {
    ts % 86_400
}

/// UTC hour of the day (0 to 23).
pub open spec fn hour_of(ts: int) -> int {
    seconds_of_day(ts) / 3_600
}

/// UTC midnight that starts the calendar day of `ts`.
pub open spec fn midnight_of(ts: int) -> int {
    ts - seconds_of_day(ts)
}

/// Start of the listening day that holds `ts`: 05:00 of the same calendar day
/// from 05:00 on, 05:00 of the previous calendar day before it.
pub open spec fn day_start_of(ts: int) -> int {
    if hour_of(ts) < 5 {
        midnight_of(ts) - 86_400 + 18_000
    } else {
        midnight_of(ts) + 18_000
    }
}

/// Calendar (year, month) of a timestamp in UTC, as chrono computes it.
pub uninterp spec fn civil_year_month(ts: int) -> (int, int);

/// The label "Mon, Jan 02" of a timestamp in UTC, as chrono formats it.
pub uninterp spec fn date_label_of(ts: int) -> Seq<char>;

/// Relies on chrono's `DateTime::from_timestamp` and
/// `Timelike::num_seconds_from_midnight`: the seconds since UTC midnight,
/// which chrono computes as the Euclidean remainder by 86 400.
#[verifier::external_body]
fn utc_seconds_of_day(ts: i64) -> (r: u32)
    requires
        valid_timestamp(ts as int),
    ensures
        r as int == seconds_of_day(ts as int),
{
    DateTime::from_timestamp(ts, 0).unwrap().num_seconds_from_midnight()
}

/// Relies on chrono's `DateTime::from_timestamp` with `Datelike::year` and
/// `Datelike::month`: the UTC calendar year and month (1 to 12).
#[verifier::external_body]
fn utc_year_month(ts: i64) -> (r: (i32, u32))
    requires
        valid_timestamp(ts as int),
    ensures
        (r.0 as int, r.1 as int) == civil_year_month(ts as int),
        1 <= r.1 <= 12,
        MIN_YEAR <= r.0 <= MAX_YEAR,
{
    let dt = DateTime::from_timestamp(ts, 0).unwrap();
    (dt.year(), dt.month())
}

/// Relies on chrono's `DateTime::format` with the pattern "%a, %b %d".
#[verifier::external_body]
fn utc_date_label(ts: i64) -> (r: String)
    requires
        valid_timestamp(ts as int),
    ensures
        r@ == date_label_of(ts as int),
{
    DateTime::from_timestamp(ts, 0).unwrap().format("%a, %b %d").to_string()
}

pub proof fn lemma_day_start_bounds(ts: int)
    ensures
        ts - 86_400 < day_start_of(ts) <= ts,
{
}

pub proof fn lemma_hour_range(ts: int)
    ensures
        0 <= hour_of(ts) < 24,
{
}

/// UTC hour of the day of `ts`.
pub fn hour(ts: i64) -> (r: u32)
    requires
        valid_timestamp(ts as int),
    ensures
        r as int == hour_of(ts as int),
        r < 24,
{
    utc_seconds_of_day(ts) / 3_600
}

/// Start of the listening day that holds `ts`.
pub fn day_start(ts: i64) -> (r: i64)
    requires
        valid_timestamp(ts as int),
    ensures
        r as int == day_start_of(ts as int),
        hour_of(ts as int) < 5 ==> r as int == midnight_of(ts as int) - SECONDS_PER_DAY
            + DAY_START_OFFSET,
        hour_of(ts as int) >= 5 ==> r as int == midnight_of(ts as int) + DAY_START_OFFSET,
        r <= ts < r + SECONDS_PER_DAY,
{
    let sod = utc_seconds_of_day(ts);
    let midnight = ts - sod as i64;
    if sod < 18_000 {
        midnight - SECONDS_PER_DAY + DAY_START_OFFSET
    } else {
        midnight + DAY_START_OFFSET
    }
}

/// The calendar (year, month) of `ts` in UTC.
pub fn year_month(ts: i64) -> (r: (i32, u32))
    requires
        valid_timestamp(ts as int),
    ensures
        (r.0 as int, r.1 as int) == civil_year_month(ts as int),
        1 <= r.1 <= 12,
        MIN_YEAR <= r.0 <= MAX_YEAR,
{
    utc_year_month(ts)
}

/// Key of the calendar month of `ts`, increasing with the month.
pub open spec fn month_key_of(ts: int) -> int {
    (civil_year_month(ts).0 + YEAR_BIAS) * 12 + civil_year_month(ts).1 - 1
}

pub open spec fn year_of_key(k: int) -> int {
    k / 12 - YEAR_BIAS
}

pub open spec fn month_of_key(k: int) -> int {
    k % 12 + 1
}

/// The key of the calendar month of `ts`.
pub fn month_key(ts: i64) -> (r: i64)
    requires
        valid_timestamp(ts as int),
    ensures
        r as int == month_key_of(ts as int),
        year_of_key(r as int) == civil_year_month(ts as int).0,
        month_of_key(r as int) == civil_year_month(ts as int).1,
        MIN_YEAR <= year_of_key(r as int) <= MAX_YEAR,
        0 <= r,
{
    let (y, m) = utc_year_month(ts);
    (y as i64 + YEAR_BIAS) * 12 + m as i64 - 1
}

/// The year of a month key.
pub fn key_year(k: i64) -> (r: i32)
    requires
        0 <= k,
        year_of_key(k as int) <= MAX_YEAR,
    ensures
        r as int == year_of_key(k as int),
{
    (k / 12 - YEAR_BIAS) as i32
}

/// The month (1 to 12) of a month key.
pub fn key_month(k: i64) -> (r: u32)
    requires
        0 <= k,
    ensures
        r as int == month_of_key(k as int),
        1 <= r <= 12,
{
    (k % 12 + 1) as u32
}

pub open spec fn month_name_of(m: int) -> Seq<char> {
    if m == 1 {
        "January"@
    } else if m == 2 {
        "February"@
    } else if m == 3 {
        "March"@
    } else if m == 4 {
        "April"@
    } else if m == 5 {
        "May"@
    } else if m == 6 {
        "June"@
    } else if m == 7 {
        "July"@
    } else if m == 8 {
        "August"@
    } else if m == 9 {
        "September"@
    } else if m == 10 {
        "October"@
    } else if m == 11 {
        "November"@
    } else if m == 12 {
        "December"@
    } else {
        "Unknown"@
    }
}

pub open spec fn month_abbrev_of(m: int) -> Seq<char> {
    if m == 1 {
        "Jan"@
    } else if m == 2 {
        "Feb"@
    } else if m == 3 {
        "Mar"@
    } else if m == 4 {
        "Apr"@
    } else if m == 5 {
        "May"@
    } else if m == 6 {
        "Jun"@
    } else if m == 7 {
        "Jul"@
    } else if m == 8 {
        "Aug"@
    } else if m == 9 {
        "Sep"@
    } else if m == 10 {
        "Oct"@
    } else if m == 11 {
        "Nov"@
    } else if m == 12 {
        "Dec"@
    } else {
        "???"@
    }
}

/// Three-letter English label of month `m` (1 to 12).
pub fn month_abbrev(m: u32) -> (r: &'static str)
    ensures
        r@ == month_abbrev_of(m as int),
{
    match m {
        1 => "Jan",
        2 => "Feb",
        3 => "Mar",
        4 => "Apr",
        5 => "May",
        6 => "Jun",
        7 => "Jul",
        8 => "Aug",
        9 => "Sep",
        10 => "Oct",
        11 => "Nov",
        12 => "Dec",
        _ => "???",
    }
}

/// English name of month `m` (1 to 12), "Unknown" otherwise.
pub fn format_month(m: u32) -> (r: &'static str)
    ensures
        r@ == month_name_of(m as int),
{
    match m {
        1 => "January",
        2 => "February",
        3 => "March",
        4 => "April",
        5 => "May",
        6 => "June",
        7 => "July",
        8 => "August",
        9 => "September",
        10 => "October",
        11 => "November",
        12 => "December",
        _ => "Unknown",
    }
}

/// The display label of the day that starts at `ts`.
pub fn date_label(ts: i64) -> (r: String)
    requires
        valid_timestamp(ts as int),
    ensures
        r@ == date_label_of(ts as int),
{
    utc_date_label(ts)
}

} // verus!
