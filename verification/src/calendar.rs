//! The boundary to the `chrono` crate: calendar instants and the check that
//! a day/month/year triple names a real day on the proleptic Gregorian
//! calendar. The rule for month lengths and leap years is stated here as
//! spec functions; `chrono` does the calendar work at run time.

use vstd::prelude::*;

verus! {

/// The largest year a calendar instant can carry. `chrono` stores the year
/// of a `NaiveDate` in the upper bits of an `i32` and keeps one year of
/// headroom, which caps it at `(i32::MAX >> 13) - 1`.
pub const MAX_CALENDAR_YEAR: u64 = 262142;

/// A leap year of the proleptic Gregorian calendar (non-negative years).
pub open spec fn is_leap_year(y: int) -> bool
    recommends
        0 <= y,
{
    y % 4 == 0 && (y % 100 != 0 || y % 400 == 0)
}

/// The number of days of month `m` in year `y`.
pub open spec fn days_in_month(y: int, m: int) -> int
    recommends
        0 <= y,
        1 <= m <= 12,
{
    if m == 2 {
        if is_leap_year(y) {
            29
        } else {
            28
        }
    } else if m == 4 || m == 6 || m == 9 || m == 11 {
        30
    } else {
        31
    }
}

#[verifier::external_type_specification]
#[verifier::external_body]
pub struct ExNaiveDate(chrono::NaiveDate);

#[verifier::external_type_specification]
#[verifier::external_body]
pub struct ExNaiveDateTime(chrono::NaiveDateTime);

// Names for what chrono's `Datelike` accessors read from a `NaiveDate`: the
// day of the month, the month of the year, and the year. Each is a function
// of the value alone; the wrappers below say how the constructors set them
// and what the accessors return.
pub uninterp spec fn date_day_of(d: chrono::NaiveDate) -> u32;

pub uninterp spec fn date_month_of(d: chrono::NaiveDate) -> u32;

pub uninterp spec fn date_year_of(d: chrono::NaiveDate) -> i32;

// The same three components of a `NaiveDateTime`, which carries a
// `NaiveDate` and a time of day.
pub uninterp spec fn instant_day_of(t: chrono::NaiveDateTime) -> u32;

pub uninterp spec fn instant_month_of(t: chrono::NaiveDateTime) -> u32;

pub uninterp spec fn instant_year_of(t: chrono::NaiveDateTime) -> i32;

/// Relies on chrono's `NaiveDate::from_ymd_opt`: for a non-negative year it
/// returns `Some` exactly when the month and day exist in that year of the
/// proleptic Gregorian calendar and the year is small enough for `chrono`'s
/// packed representation; the date it builds carries exactly the given
/// year, month and day.
#[verifier::external_body]
pub fn calendar_date_from_ymd(year: i32, month: u32, day: u32) -> (r: Option<chrono::NaiveDate>)
    requires
        0 <= year,
    ensures
        r.is_some() <==> {
            &&& year <= MAX_CALENDAR_YEAR
            &&& 1 <= month <= 12
            &&& 1 <= day <= days_in_month(year as int, month as int)
        },
        r matches Some(d) ==> {
            &&& date_day_of(d) == day
            &&& date_month_of(d) == month
            &&& date_year_of(d) == year
        },
{
    chrono::NaiveDate::from_ymd_opt(year, month, day)
}

/// Relies on chrono's `From<NaiveDate> for NaiveDateTime`, which attaches
/// the midnight time to the day, keeping its year, month and day, and never
/// fails.
#[verifier::external_body]
pub fn calendar_date_at_midnight(d: chrono::NaiveDate) -> (r: chrono::NaiveDateTime)
    ensures
        instant_day_of(r) == date_day_of(d),
        instant_month_of(r) == date_month_of(d),
        instant_year_of(r) == date_year_of(d),
{
    chrono::NaiveDateTime::from(d)
}

/// Relies on chrono's `Datelike::day` for `NaiveDateTime`: the day of the
/// month, between 1 and 31.
#[verifier::external_body]
pub fn calendar_instant_day(t: &chrono::NaiveDateTime) -> (r: u32)
    ensures
        r == instant_day_of(*t),
        1 <= r <= 31,
{
    chrono::Datelike::day(t)
}

/// Relies on chrono's `Datelike::month` for `NaiveDateTime`: the month of
/// the year, between 1 and 12.
#[verifier::external_body]
pub fn calendar_instant_month(t: &chrono::NaiveDateTime) -> (r: u32)
    ensures
        r == instant_month_of(*t),
        1 <= r <= 12,
{
    chrono::Datelike::month(t)
}

/// Relies on chrono's `Datelike::year` for `NaiveDateTime`: the year of the
/// date, which `chrono` keeps between `-262143` and `262142`.
#[verifier::external_body]
pub fn calendar_instant_year(t: &chrono::NaiveDateTime) -> (r: i32)
    ensures
        r == instant_year_of(*t),
        -262143 <= r <= MAX_CALENDAR_YEAR,
{
    chrono::Datelike::year(t)
}

} // verus!
