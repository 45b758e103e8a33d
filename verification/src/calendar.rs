//! Calendar facts for the dashboard's month view: month lengths, the
//! weekday a month starts on and the dashboard's date and clock texts,
//! computed with `chrono`'s `NaiveDate` and `NaiveTime`.
use vstd::prelude::*;
use chrono::{Datelike, NaiveDate, NaiveTime};
use vstd::arithmetic::div_mod::lemma_fundamental_div_mod;

verus! {

/// The earliest year a `chrono::NaiveDate` can hold.
pub const MIN_YEAR: i32 = -262143;

/// The latest year a `chrono::NaiveDate` can hold.
pub const MAX_YEAR: i32 = 262142;

/// A calendar date (proleptic Gregorian).
#[derive(Debug, Clone, Copy, PartialEq, Eq, Structural)]
pub struct Ymd {
    pub year: i32,
    pub month: u32,
    pub day: u32,
}

/// Gregorian leap years: divisible by 4, except centuries not divisible by 400.
pub open spec fn is_leap(y: int) -> bool {
    (y % 4 == 0 && y % 100 != 0) || y % 400 == 0
}

/// The number of days of month `m` (1 to 12) of year `y`.
pub open spec fn month_len(y: int, m: int) -> int {
    if m == 2 {
        if is_leap(y) {
            29
        } else {
            28
        }
    } else if m == 4 || m == 6 || m == 9 || m == 11 {
        30
    } else {
        31
    }
}

/// Whether `(y, m, d)` is a date that `chrono::NaiveDate` can hold.
pub open spec fn valid_date(y: int, m: int, d: int) -> bool {
    MIN_YEAR <= y <= MAX_YEAR && 1 <= m <= 12 && 1 <= d <= month_len(y, m)
}

/// The day before a date.
pub open spec fn prev_day(date: Ymd) -> Ymd {
    if date.day > 1 {
        Ymd { day: (date.day - 1) as u32, ..date }
    } else if date.month > 1 {
        Ymd {
            year: date.year,
            month: (date.month - 1) as u32,
            day: month_len(date.year as int, date.month - 1) as u32,
        }
    } else {
        Ymd { year: (date.year - 1) as i32, month: 12, day: 31 }
    }
}

/// Days in the months of year `y` before month `m`.
pub open spec fn days_before_month(y: int, m: int) -> int {
    let table = seq![0int, 31, 59, 90, 120, 151, 181, 212, 243, 273, 304, 334];
    table[m - 1] + if is_leap(y) && m > 2 {
        1int
    } else {
        0int
    }
}

/// The day number of a date, counting 0001-01-01 as day 1.
pub open spec fn days_from_ce(y: int, m: int, d: int) -> int {
    365 * (y - 1) + (y - 1) / 4 - (y - 1) / 100 + (y - 1) / 400 + days_before_month(y, m) + d
}

/// The weekday of a date counted from Sunday: Sunday 0, Monday 1, ...,
/// Saturday 6. 0001-01-01 was a Monday.
pub open spec fn weekday_from_sunday(y: int, m: int, d: int) -> int {
    days_from_ce(y, m, d) % 7
}

/// `chrono::NaiveDate::from_ymd_opt`: the date, or `None` when it does not
/// exist or its year is outside `MIN_YEAR..=MAX_YEAR`.
#[verifier::external_body]
fn naive_date(year: i32, month: u32, day: u32) -> (r: Option<Ymd>)
    ensures
        r is Some <==> valid_date(year as int, month as int, day as int),
        r matches Some(d) ==> d == (Ymd { year, month, day }),
{
    match NaiveDate::from_ymd_opt(year, month, day) {
        Some(n) => Some(Ymd { year: n.year(), month: n.month(), day: n.day() }),
        None => None,
    }
}

/// `chrono::NaiveDate::pred_opt`: the day before, `None` before the first
/// day `chrono` can hold.
#[verifier::external_body]
fn naive_pred(date: Ymd) -> (r: Option<Ymd>)
    requires
        valid_date(date.year as int, date.month as int, date.day as int),
    ensures
        r is None <==> date == (Ymd { year: MIN_YEAR, month: 1, day: 1 }),
        r matches Some(p) ==> p == prev_day(date),
{
    match NaiveDate::from_ymd_opt(date.year, date.month, date.day) {
        Some(n) => match n.pred_opt() {
            Some(p) => Some(Ymd { year: p.year(), month: p.month(), day: p.day() }),
            None => None,
        },
        None => None,
    }
}

/// `chrono::Weekday::num_days_from_sunday` of `chrono::NaiveDate::weekday`:
/// the weekday of a date, Sunday 0 to Saturday 6.
#[verifier::external_body]
fn naive_weekday_from_sunday(date: Ymd) -> (r: u32)
    requires
        valid_date(date.year as int, date.month as int, date.day as int),
    ensures
        r == weekday_from_sunday(date.year as int, date.month as int, date.day as int),
{
    match NaiveDate::from_ymd_opt(date.year, date.month, date.day) {
        Some(n) => n.weekday().num_days_from_sunday(),
        None => 0,
    }
}

/// The years and months for which `days_in_month` finds the first day of
/// the next month, and a day before it.
pub open spec fn days_in_month_defined(year: int, month: int) -> bool {
    if month == 12 {
        MIN_YEAR < year + 1 <= MAX_YEAR
    } else if month == 0 {
        MIN_YEAR < year <= MAX_YEAR
    } else {
        MIN_YEAR <= year <= MAX_YEAR && month < 12
    }
}

/// The number of days in a month: the day before the first of the next
/// month. Month 0 counts as the December before.
pub fn days_in_month(year: i32, month: u32) -> (n: u32)
    requires
        days_in_month_defined(year as int, month as int),
    ensures
        n == (if month == 0 { 31 } else { month_len(year as int, month as int) }),
{
    let next = if month == 12 {
        naive_date(year + 1, 1, 1)
    } else {
        naive_date(year, month + 1, 1)
    };
    let first = next.unwrap();
    let last = naive_pred(first).unwrap();
    last.day
}

/// The weekday, counted from Sunday, of the first day of a month.
pub fn first_weekday(year: i32, month: u32) -> (wd: u32)
    requires
        valid_date(year as int, month as int, 1),
    ensures
        wd == weekday_from_sunday(year as int, month as int, 1),
        wd < 7,
{
    let first = naive_date(year, month, 1).unwrap();
    naive_weekday_from_sunday(first)
}

/// The English name of month `m` (1 to 12).
pub open spec fn long_month_name(m: int) -> Seq<char> {
    if m == 1 {
        "January"@
    } else if m == 2 {
        "February"@
    } else if m == 3 {
        "March"@
    } else if m == 4 {
        "April"@
    } else if m == 5 {
        "May"@
    } else if m == 6 {
        "June"@
    } else if m == 7 {
        "July"@
    } else if m == 8 {
        "August"@
    } else if m == 9 {
        "September"@
    } else if m == 10 {
        "October"@
    } else if m == 11 {
        "November"@
    } else {
        "December"@
    }
}

/// The three-letter English abbreviation of month `m` (1 to 12).
pub open spec fn short_month_name(m: int) -> Seq<char> {
    long_month_name(m).take(3)
}

/// The three-letter English abbreviation of weekday `w`, Sunday 0 to Saturday 6.
pub open spec fn short_weekday_name(w: int) -> Seq<char> {
    if w == 0 {
        "Sun"@
    } else if w == 1 {
        "Mon"@
    } else if w == 2 {
        "Tue"@
    } else if w == 3 {
        "Wed"@
    } else if w == 4 {
        "Thu"@
    } else if w == 5 {
        "Fri"@
    } else {
        "Sat"@
    }
}

/// The decimal digit `n` (0 to 9).
pub open spec fn digit_char(n: int) -> char {
    (48 + n) as char
}

/// `n` (0 to 99) written with two digits, a leading zero below ten.
pub open spec fn two_digits(n: int) -> Seq<char> {
    seq![digit_char(n / 10), digit_char(n % 10)]
}

/// `n` (0 to 99) written with as many digits as it needs.
pub open spec fn unpadded(n: int) -> Seq<char> {
    if n < 10 {
        seq![digit_char(n)]
    } else {
        two_digits(n)
    }
}

/// The dashboard's date line: weekday and month abbreviations and the day,
/// as in "Tue, Mar 5".
pub open spec fn date_text(y: int, m: int, d: int) -> Seq<char> {
    short_weekday_name(weekday_from_sunday(y, m, d)) + ", "@ + short_month_name(m) + " "@ + unpadded(d)
}

/// The dashboard's clock: hours and minutes, two digits each, as in "07:05".
pub open spec fn clock_text(hour: int, minute: int) -> Seq<char> {
    two_digits(hour) + ":"@ + two_digits(minute)
}

/// `chrono::NaiveDate::format` on a date, written out with `to_string`:
/// with "%B" the month's English name, with "%a, %b %-d" the date line
/// (`chrono`'s English weekday and month abbreviations and the day without
/// padding). No other format is passed to it.
#[verifier::external_body]
fn naive_date_format(date: Ymd, fmt: &str) -> (s: String)
    requires
        valid_date(date.year as int, date.month as int, date.day as int),
        fmt@ == "%B"@ || fmt@ == "%a, %b %-d"@,
    ensures
        fmt@ == "%B"@ ==> s@ == long_month_name(date.month as int),
        fmt@ == "%a, %b %-d"@ ==> s@ == date_text(date.year as int, date.month as int, date.day as int),
{
    match NaiveDate::from_ymd_opt(date.year, date.month, date.day) {
        Some(n) => n.format(fmt).to_string(),
        None => String::new(),
    }
}

/// `chrono::NaiveTime::format` on the time `hour:minute:00`, written out with
/// `to_string`: with "%H:%M" the hour and the minute, two digits each.
#[verifier::external_body]
fn naive_time_format(hour: u32, minute: u32, fmt: &str) -> (s: String)
    requires
        hour < 24,
        minute < 60,
        fmt@ == "%H:%M"@,
    ensures
        s@ == clock_text(hour as int, minute as int),
{
    match NaiveTime::from_hms_opt(hour, minute, 0) {
        Some(t) => t.format(fmt).to_string(),
        None => String::new(),
    }
}

/// The name of the month of a date, as the month view's title shows it.
pub fn month_name(year: i32, month: u32) -> (s: String)
    requires
        valid_date(year as int, month as int, 1),
    ensures
        s@ == long_month_name(month as int),
{
    naive_date_format(Ymd { year, month, day: 1 }, "%B")
}

/// The date line under the clock, as in "Tue, Mar 5".
pub fn date_line(year: i32, month: u32, day: u32) -> (s: String)
    requires
        valid_date(year as int, month as int, day as int),
    ensures
        s@ == date_text(year as int, month as int, day as int),
{
    naive_date_format(Ymd { year, month, day }, "%a, %b %-d")
}

/// The clock, as in "07:05".
pub fn clock_line(hour: u32, minute: u32) -> (s: String)
    requires
        hour < 24,
        minute < 60,
    ensures
        s@ == clock_text(hour as int, minute as int),
{
    naive_time_format(hour, minute, "%H:%M")
}

/// The month table: months 1, 3, 5, 7, 8, 10 and 12 have 31 days, months
/// 4, 6, 9 and 11 have 30, and February has 29 days in years divisible by 4
/// but not by 100, or divisible by 400, and 28 in the others.
pub proof fn law_month_table(y: int, m: int)
    requires
        1 <= m <= 12,
    ensures
        (m == 1 || m == 3 || m == 5 || m == 7 || m == 8 || m == 10 || m == 12) ==> month_len(y, m) == 31,
        (m == 4 || m == 6 || m == 9 || m == 11) ==> month_len(y, m) == 30,
        m == 2 ==> month_len(y, m) == (if (y % 4 == 0 && y % 100 != 0) || y % 400 == 0 {
            29int
        } else {
            28int
        }),
{
}

/// Weekdays follow one another: the day after a date falls one weekday later
/// (Saturday, 6, is followed by Sunday, 0), also across the end of a month
/// and of a year; and 1 January 2000 was a Saturday.
pub proof fn law_weekdays_advance(y: int, m: int, d: int)
    requires
        1 <= m <= 12,
        1 <= d <= month_len(y, m),
    ensures
        weekday_from_sunday(2000, 1, 1) == 6,
        0 <= weekday_from_sunday(y, m, d) < 7,
        d < month_len(y, m) ==> weekday_from_sunday(y, m, d + 1) == (weekday_from_sunday(y, m, d) + 1)
            % 7,
        d == month_len(y, m) && m < 12 ==> weekday_from_sunday(y, m + 1, 1) == (weekday_from_sunday(
            y,
            m,
            d,
        ) + 1) % 7,
        d == month_len(y, m) && m == 12 ==> weekday_from_sunday(y + 1, 1, 1) == (weekday_from_sunday(
            y,
            m,
            d,
        ) + 1) % 7,
{
    let n = days_from_ce(y, m, d);
    lemma_mod7_step(n);
    if d < month_len(y, m) {
        assert(days_from_ce(y, m, d + 1) == n + 1);
    }
    if d == month_len(y, m) && m < 12 {
        lemma_month_step(y, m);
        assert(days_from_ce(y, m + 1, 1) == n + 1);
    }
    if d == month_len(y, m) && m == 12 {
        lemma_year_step(y);
    }
    assert(days_from_ce(2000, 1, 1) == 730120);
}

proof fn lemma_mod7_step(n: int)
    ensures
        (n + 1) % 7 == (n % 7 + 1) % 7,
        0 <= n % 7 < 7,
{
}

proof fn lemma_month_step(y: int, m: int)
    requires
        1 <= m < 12,
    ensures
        days_before_month(y, m + 1) == days_before_month(y, m) + month_len(y, m),
{
}

/// The number of multiples of `4`, `100` and `400` up to `a + 1` grows by
/// one exactly when `a + 1` is one.
proof fn lemma_div_steps(a: int)
    ensures
        (a + 1) / 4 == a / 4 + (if (a + 1) % 4 == 0 { 1int } else { 0int }),
        (a + 1) / 100 == a / 100 + (if (a + 1) % 100 == 0 { 1int } else { 0int }),
        (a + 1) / 400 == a / 400 + (if (a + 1) % 400 == 0 { 1int } else { 0int }),
{
    lemma_fundamental_div_mod(a, 4);
    lemma_fundamental_div_mod(a + 1, 4);
    lemma_fundamental_div_mod(a, 100);
    lemma_fundamental_div_mod(a + 1, 100);
    lemma_fundamental_div_mod(a, 400);
    lemma_fundamental_div_mod(a + 1, 400);
}

proof fn lemma_year_step(y: int)
    ensures
        days_from_ce(y + 1, 1, 1) == days_from_ce(y, 12, 31) + 1,
{
    lemma_div_steps(y - 1);
}

/// Every month has 28 to 31 days, and February has 29 exactly in leap years.
pub proof fn law_month_lengths(y: int, m: int)
    requires
        1 <= m <= 12,
    ensures
        28 <= month_len(y, m) <= 31,
        m == 2 ==> (month_len(y, m) == 29 <==> is_leap(y)),
{
}

} // verus!
