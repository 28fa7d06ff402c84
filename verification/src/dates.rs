//! Calendar dates, as `chrono` computes them.
//!
//! A date is handled as its day number (`Datelike::num_days_from_ce`: days
//! in the proleptic Gregorian calendar, 1 January of year 1 being day 1) and
//! its weekday (`Weekday::num_days_from_monday`: Monday 0 .. Sunday 6). The
//! number of days between two dates is the difference of their day numbers.
use vstd::prelude::*;
use chrono::Datelike;

verus! {

/// What `NaiveDate::parse_from_str(text, format)` yields: the date's day
/// number and weekday, or the rendering of the parse error.
pub uninterp spec fn parsed_date(text: Seq<char>, format: Seq<char>) -> Result<(i32, u32), Seq<char>>;

/// The format of dates in this library: "YYYY-MM-DD".
pub open spec fn date_format() -> Seq<char> {
    "%Y-%m-%d"@
}

/// A "YYYY-MM-DD" date text read by `chrono`.
pub open spec fn ymd_date(text: Seq<char>) -> Result<(i32, u32), Seq<char>> {
    parsed_date(text, date_format())
}

/// The UTC calendar date of a UNIX timestamp, rendered with `format`; `None`
/// when `DateTime::from_timestamp` refuses the timestamp.
pub uninterp spec fn formatted_utc_date(ts: i64, format: Seq<char>) -> Option<Seq<char>>;

/// The UTC calendar date of a UNIX timestamp as "YYYY-MM-DD".
pub open spec fn utc_date_text(ts: i64) -> Option<Seq<char>> {
    formatted_utc_date(ts, date_format())
}

/// The month, day of the month and weekday (Monday 0) of a UNIX timestamp at
/// the fixed offset of `offset_secs` seconds east of UTC; `None` when
/// `DateTime::from_timestamp` refuses the timestamp.
pub uninterp spec fn offset_date(ts: i64, offset_secs: i32) -> Option<(u32, u32, u32)>;

/// The offset of China Standard Time (UTC+8), in seconds.
pub open spec fn east8_offset() -> i32 {
    28800
}

/// The month, day and weekday of a UNIX timestamp at UTC+8.
pub open spec fn east8_date(ts: i64) -> Option<(u32, u32, u32)> {
    offset_date(ts, east8_offset())
}

/// The earliest UNIX timestamp `chrono` represents (`DateTime::<Utc>::MIN_UTC`,
/// the first second of year -262143, whose 1 January has day number
/// -95 746 129).
pub open spec fn min_utc_timestamp() -> int {
    -8_334_601_228_800
}

/// The day number of the UTC calendar date of a UNIX timestamp: whole days
/// since 1970-01-01 (rounded down) plus 719 163, the day number of
/// 1970-01-01; `None` outside the times `chrono` represents, where
/// `DateTime::from_timestamp` refuses the timestamp.
pub open spec fn utc_day_number(ts: i64) -> Option<i32> {
    if min_utc_timestamp() <= ts <= max_utc_timestamp() {
        Some((ts as int / 86400 + 719_163) as i32)
    } else {
        None
    }
}

/// The month and day of the month of the date with the given day number;
/// `None` when `chrono` cannot represent that date.
pub uninterp spec fn month_day_of(day_number: i32) -> Option<(u32, u32)>;

/// `NaiveDate::parse_from_str(text, format)`, reduced to the date's
/// `num_days_from_ce()` and `weekday().num_days_from_monday()`, or the error's
/// message. The contract claims that the result is [`parsed_date`] of the
/// text and format, and that the weekday follows from the day number: day 1
/// (1 January of year 1 in the proleptic Gregorian calendar) is a Monday, so
/// the weekday counted from Monday is the day number less one, modulo 7.
#[verifier::external_body]
pub(crate) fn parse_ymd(text: &str, format: &str) -> (r: Result<(i32, u32), String>)
    ensures
        match r {
            Ok((d, w)) => parsed_date(text@, format@) == Ok::<(i32, u32), Seq<char>>((d, w)) && w
                == (d - 1) % 7,
            Err(e) => parsed_date(text@, format@) == Err::<(i32, u32), Seq<char>>(e@),
        },
{
    match chrono::NaiveDate::parse_from_str(text, format) {
        Ok(d) => Ok((d.num_days_from_ce(), d.weekday().num_days_from_monday())),
        Err(e) => Err(e.to_string()),
    }
}

/// `DateTime::from_timestamp(ts, 0)` rendered with `format(format)`. A
/// format `chrono` cannot render makes `to_string` panic, so `requires`
/// admits only the library's date format, which renders every date. The
/// contract claims only that the result is [`formatted_utc_date`] of `ts`
/// and the format.
#[verifier::external_body]
pub(crate) fn format_utc_date(ts: i64, format: &str) -> (r: Option<String>)
    requires
        format@ == date_format(),
    ensures
        match r {
            Some(s) => formatted_utc_date(ts, format@) == Some(s@),
            None => formatted_utc_date(ts, format@) is None,
        },
{
    chrono::DateTime::from_timestamp(ts, 0).map(|d| d.format(format).to_string())
}

/// `DateTime::from_timestamp(ts, 0)` seen at the fixed offset
/// `FixedOffset::east_opt(offset_secs)`, reduced to `month()`, `day()` and
/// `weekday().num_days_from_monday()`. `east_opt` accepts offsets strictly
/// within one day, which `requires` asks. The contract claims that the result
/// is [`offset_date`] of `ts` and the offset, and that the weekday is below 7.
#[verifier::external_body]
pub(crate) fn offset_fields(ts: i64, offset_secs: i32) -> (r: Option<(u32, u32, u32)>)
    requires
        -86_400 < offset_secs < 86_400,
    ensures
        r == offset_date(ts, offset_secs),
        r matches Some((m, d, w)) ==> w < 7,
{
    chrono::FixedOffset::east_opt(offset_secs).and_then(|offset| {
        chrono::DateTime::from_timestamp(ts, 0).map(|d| d.with_timezone(&offset))
    }).map(|l| (l.month(), l.day(), l.weekday().num_days_from_monday()))
}

/// The day number of the UTC date of `ts`, as
/// `DateTime::from_timestamp(ts, 0)`'s `date_naive().num_days_from_ce()`
/// gives it: `from_timestamp` takes the day `ts.div_euclid(86_400) + 719_163`
/// and refuses it outside `NaiveDate::MIN ..= NaiveDate::MAX`, and
/// `num_days_from_ce` gives that day back.
pub(crate) fn utc_day_number_of(ts: i64) -> (r: Option<i32>)
    ensures
        r == utc_day_number(ts),
{
    if ts < -8_334_601_228_800 || ts > 8_210_266_876_799 {
        return None;
    }
    match ts.checked_div_euclid(86_400) {
        Some(d) => {
            assert(-96_465_293 <= ts as int / 86400 <= 95_026_236) by (nonlinear_arith)
                requires
                    -8_334_601_228_800 <= ts <= 8_210_266_876_799,
            ;
            Some((d + 719_163) as i32)
        },
        None => None,
    }
}

/// `NaiveDate::from_num_days_from_ce_opt(day_number)`, reduced to `month()`
/// and `day()`. The contract claims only that the result is
/// [`month_day_of`] of the day number.
#[verifier::external_body]
pub(crate) fn month_day_of_day_number(day_number: i32) -> (r: Option<(u32, u32)>)
    ensures
        r == month_day_of(day_number),
{
    chrono::NaiveDate::from_num_days_from_ce_opt(day_number).map(|d| (d.month(), d.day()))
}

/// The year and month of the UTC calendar date of a UNIX timestamp; `None`
/// when `DateTime::from_timestamp` refuses the timestamp.
pub uninterp spec fn utc_year_month(ts: i64) -> Option<(i32, u32)>;

/// `DateTime::from_timestamp(ts, 0)` reduced to `year()` and `month()`. The
/// contract claims that the result is [`utc_year_month`] of `ts` and that
/// the month is between 1 and 12.
#[verifier::external_body]
pub(crate) fn year_month_of(ts: i64) -> (r: Option<(i32, u32)>)
    ensures
        r == utc_year_month(ts),
        r matches Some((y, m)) ==> 1 <= m <= 12,
{
    chrono::DateTime::from_timestamp(ts, 0).map(|d| (d.year(), d.month()))
}

/// The latest UNIX timestamp `chrono` represents (`DateTime::<Utc>::MAX_UTC`,
/// the last second of year 262142).
pub open spec fn max_utc_timestamp() -> int {
    8_210_266_876_799
}

/// A clock reading: a time from 1970 on that `chrono` represents.
pub open spec fn clock_reading(t: i64) -> bool {
    0 <= t <= max_utc_timestamp()
}

/// Subtracting `t` from any clock reading stays within `i64`.
pub open spec fn clock_difference_fits(t: i64) -> bool {
    max_utc_timestamp() - i64::MAX <= t
}

/// `SystemTime::now().duration_since(UNIX_EPOCH)` in whole seconds (what
/// `Duration::as_secs` gives), or `None` when the system clock is set before
/// 1970. The reading depends on the clock, so nothing is stated of it.
#[verifier::external_body]
fn seconds_since_epoch() -> (r: Option<u64>) {
    std::time::SystemTime::now().duration_since(std::time::UNIX_EPOCH).ok().map(|d| d.as_secs())
}

/// The current time as a UNIX timestamp, as `chrono::Utc::now().timestamp()`
/// gives it: `None` where `Utc::now` would panic, that is when the system
/// clock is set before 1970 or beyond the latest time `chrono` represents.
pub fn utc_now() -> (r: Option<i64>)
    ensures
        r matches Some(t) ==> clock_reading(t),
{
    match seconds_since_epoch() {
        Some(s) => if s <= 8_210_266_876_799 {
            Some(s as i64)
        } else {
            None
        },
        None => None,
    }
}

} // verus!
