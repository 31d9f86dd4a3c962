//! Dates of the proleptic Gregorian calendar, read and compared with chrono,
//! and the A/B week of a date relative to the first week of the school year.

use chrono::Datelike;
use chrono::NaiveDate;
use vstd::prelude::*;

verus! {

/// `y` is a leap year of the Gregorian calendar.
pub open spec fn is_leap_year(y: int) -> bool {
    (y % 4 == 0 && y % 100 != 0) || y % 400 == 0
}

/// The number of days of month `m` (1 to 12) of year `y`.
pub open spec fn days_in_month(y: int, m: int) -> int {
    if m == 2 {
        if is_leap_year(y) {
            29
        } else {
            28
        }
    } else if m == 4 || m == 6 || m == 9 || m == 11 {
        30
    } else {
        31
    }
}

/// The number of days of year `y` before month `m` begins.
pub open spec fn days_before_month(y: int, m: int) -> int
    decreases m,
{
    if m <= 1 {
        0
    } else {
        days_before_month(y, m - 1) + days_in_month(y, m - 1)
    }
}

/// `(y, m, d)` is a date that chrono's `NaiveDate` can hold: a real day of
/// the calendar whose year lies in chrono's range of years.
pub open spec fn is_chrono_date(date: (i32, u32, u32)) -> bool {
    let (y, m, d) = date;
    &&& -262143 <= y <= 262142
    &&& 1 <= m <= 12
    &&& 1 <= d <= days_in_month(y as int, m as int)
}

/// The number of the day `(y, m, d)`, counted so that 1 January of year 1 is
/// day 1 and consecutive days have consecutive numbers.
pub open spec fn day_number(date: (i32, u32, u32)) -> int {
    let (y, m, d) = date;
    let p = y - 1;
    365 * p + p / 4 - p / 100 + p / 400 + days_before_month(y as int, m as int) + d
}

/// Division by 7 rounding towards zero, as `i64` division does.
pub open spec fn div7_towards_zero(x: int) -> int {
    if x >= 0 {
        x / 7
    } else {
        -((-x) / 7)
    }
}

/// The remainder of `x` by 2 with the sign of `x`, as `i64 % 2` gives it.
pub open spec fn rem2_towards_zero(x: int) -> int {
    if x >= 0 {
        x % 2
    } else {
        -((-x) % 2)
    }
}

/// What chrono's `NaiveDate::parse_from_str(s, fmt)` reads from `s` with the
/// format `fmt`, as year, month and day, or `None` where it fails.
pub uninterp spec fn chrono_parse_date(s: Seq<char>, fmt: Seq<char>) -> Option<(i32, u32, u32)>;

/// Reads a date from `s` in the format `fmt` with chrono's
/// `NaiveDate::parse_from_str`, giving its year, month and day.
///
/// Trusted: the result is chrono's (named `chrono_parse_date`), and a date it
/// returns is one that `NaiveDate` holds (chrono returns only valid dates in
/// its range of years). Which strings chrono accepts is left unstated.
#[verifier::external_body]
fn parse_date(s: &str, fmt: &str) -> (r: Option<(i32, u32, u32)>)
    ensures
        r == chrono_parse_date(s@, fmt@),
        r matches Some(date) ==> is_chrono_date(date),
{
    match NaiveDate::parse_from_str(s, fmt) {
        Ok(d) => Some((d.year(), d.month(), d.day())),
        Err(_) => None,
    }
}

/// The number of whole weeks from `earlier` to `later`, computed by chrono:
/// `later.signed_duration_since(earlier).num_weeks()`.
///
/// Trusted: the duration between two dates is the difference of their day
/// numbers, and `num_weeks` divides the days by 7 rounding towards zero.
#[verifier::external_body]
fn weeks_between(later: (i32, u32, u32), earlier: (i32, u32, u32)) -> (r: i64)
    requires
        is_chrono_date(later),
        is_chrono_date(earlier),
    ensures
        r == div7_towards_zero(day_number(later) - day_number(earlier)),
{
    let a = NaiveDate::from_ymd_opt(later.0, later.1, later.2).unwrap();
    let b = NaiveDate::from_ymd_opt(earlier.0, earlier.1, earlier.2).unwrap();
    a.signed_duration_since(b).num_weeks()
}

/// The first day of the school year from which A and B weeks are counted.
pub open spec fn reference_date() -> (i32, u32, u32) {
    (2022, 8, 22)
}

/// The format of the dates in the captions of the substitution pages.
pub open spec fn caption_date_format() -> Seq<char> {
    "%d.%m.%Y"@
}

/// The date that `s` names in the caption format, if chrono reads one.
pub open spec fn caption_date(s: Seq<char>) -> Option<(i32, u32, u32)> {
    chrono_parse_date(s, caption_date_format())
}

/// The week number of `date` that decides A and B weeks: the whole weeks
/// since the reference date, modulo 2 with the sign of the week count.
pub open spec fn week_of(date: (i32, u32, u32)) -> int {
    rem2_towards_zero(div7_towards_zero(day_number(date) - day_number(reference_date())))
}

/// Law: the week number of a date is -1, 0 or 1.
pub proof fn law_week_number_is_small(date: (i32, u32, u32))
    ensures
        -1 <= week_of(date) <= 1,
{
}

/// Reads a caption date such as `"22.08.2022"`.
pub fn read_caption_date(s: &str) -> (r: Option<(i32, u32, u32)>)
    ensures
        r == caption_date(s@),
        r matches Some(date) ==> is_chrono_date(date),
{
    parse_date(s, "%d.%m.%Y")
}

/// Bound on the day numbers of the dates chrono holds.
proof fn lemma_day_number_bounds(date: (i32, u32, u32))
    requires
        is_chrono_date(date),
    ensures
        -100_000_000 <= day_number(date) <= 100_000_000,
{
    let (y, m, d) = date;
    lemma_days_before_month_bounds(y as int, m as int);
}

proof fn lemma_days_before_month_bounds(y: int, m: int)
    requires
        1 <= m <= 12,
    ensures
        0 <= days_before_month(y, m) <= 31 * (m - 1),
    decreases m,
{
    if m > 1 {
        lemma_days_before_month_bounds(y, m - 1);
    }
}

/// The week number (as [`week_of`]) of a date that chrono holds.
pub fn week_number(date: (i32, u32, u32)) -> (r: i64)
    requires
        is_chrono_date(date),
    ensures
        r == week_of(date),
{
    proof {
        reveal_with_fuel(days_before_month, 9);
        lemma_day_number_bounds(date);
        lemma_day_number_bounds(reference_date());
    }
    let w = weeks_between(date, (2022, 8, 22));
    if w >= 0 {
        w % 2
    } else {
        0 - ((0 - w) % 2)
    }
}

} // verus!
