//! Calendar dates and times of day as plain numbers. Whether three numbers
//! make a date or a time is decided by the `chrono` crate.
use vstd::prelude::*;

verus! {

/// A day of the proleptic Gregorian calendar.
#[derive(Debug, Clone, Copy, PartialEq, Eq, Structural)]
pub struct CalendarDate {
    pub year: i32,
    pub month: u32,
    pub day: u32,
}

/// A time of day, to the second.
#[derive(Debug, Clone, Copy, PartialEq, Eq, Structural)]
pub struct TimeOfDay {
    pub hour: u32,
    pub minute: u32,
    pub second: u32,
}

/// The first year that `chrono` has dates for.
pub const MIN_YEAR: i32 = -262143;

/// The last year that `chrono` has dates for.
pub const MAX_YEAR: i32 = 262142;

/// Whether `year` has a 29th of February.
pub open spec fn is_leap_year(year: int) -> bool {
    year % 4 == 0 && (year % 100 != 0 || year % 400 == 0)
}

/// The number of days of a month, and 0 for a month that there is not.
pub open spec fn days_in_month(year: int, month: int) -> int {
    if month == 2 {
        if is_leap_year(year) {
            29
        } else {
            28
        }
    } else if month == 4 || month == 6 || month == 9 || month == 11 {
        30
    } else if 1 <= month <= 12 {
        31
    } else {
        0
    }
}

/// Whether the day exists in the calendar, in a year that `chrono` covers.
pub open spec fn is_calendar_date(year: int, month: int, day: int) -> bool {
    MIN_YEAR <= year <= MAX_YEAR && 1 <= month <= 12 && 1 <= day <= days_in_month(year, month)
}

/// Whether the three numbers are an hour, a minute and a second of a day.
pub open spec fn is_time_of_day(hour: int, minute: int, second: int) -> bool {
    0 <= hour < 24 && 0 <= minute < 60 && 0 <= second < 60
}

/// Calls `chrono::TimeZone::with_ymd_and_hms` on `chrono::Utc` and reads the
/// calendar day back from the moment it returns. Not proved, taken from
/// chrono's source: a single moment comes back exactly when the day exists
/// in the calendar within chrono's years and the time is a time of day, and
/// its UTC date then has the year, month and day that went in.
#[verifier::external_body]
fn utc_date_at(
    year: i32,
    month: u32,
    day: u32,
    hour: u32,
    minute: u32,
    second: u32,
) -> (r: Option<CalendarDate>)
    ensures
        r.is_some() <==> (is_calendar_date(year as int, month as int, day as int)
            && is_time_of_day(hour as int, minute as int, second as int)),
        r matches Some(d) ==> d.year == year && d.month == month && d.day == day,
{
    match chrono::TimeZone::with_ymd_and_hms(&chrono::Utc, year, month, day, hour, minute, second) {
        chrono::LocalResult::Single(at) => {
            let date = at.date_naive();
            Some(CalendarDate {
                year: chrono::Datelike::year(&date),
                month: chrono::Datelike::month(&date),
                day: chrono::Datelike::day(&date),
            })
        },
        chrono::LocalResult::Ambiguous(_, _) => None,
        chrono::LocalResult::None => None,
    }
}

/// Calls `chrono::NaiveTime::from_hms_opt` and reads the three numbers back
/// from the time it returns. Not proved, taken from chrono's source: a time
/// comes back exactly when the hour is under 24 and the minute and second
/// are under 60, and it then has the hour, minute and second that went in.
#[verifier::external_body]
fn naive_time(hour: u32, minute: u32, second: u32) -> (r: Option<TimeOfDay>)
    ensures
        r.is_some() <==> is_time_of_day(hour as int, minute as int, second as int),
        r matches Some(t) ==> t.hour == hour && t.minute == minute && t.second == second,
{
    match chrono::NaiveTime::from_hms_opt(hour, minute, second) {
        Some(t) => Some(TimeOfDay {
            hour: chrono::Timelike::hour(&t),
            minute: chrono::Timelike::minute(&t),
            second: chrono::Timelike::second(&t),
        }),
        None => None,
    }
}

impl CalendarDate {
    /// The date with this year, month and day, where the calendar has it.
    /// The day is looked up at noon, UTC.
    pub fn from_ymd(year: i32, month: u32, day: u32) -> (r: Option<CalendarDate>)
        ensures
            r.is_some() <==> is_calendar_date(year as int, month as int, day as int),
            r matches Some(d) ==> d == (CalendarDate { year, month, day }),
    {
        utc_date_at(year, month, day, 12, 0, 0)
    }
}

impl TimeOfDay {
    /// The time with this hour, minute and second, where a day has it.
    pub fn from_hms(hour: u32, minute: u32, second: u32) -> (r: Option<TimeOfDay>)
        ensures
            r.is_some() <==> is_time_of_day(hour as int, minute as int, second as int),
            r matches Some(t) ==> t == (TimeOfDay { hour, minute, second }),
    {
        naive_time(hour, minute, second)
    }
}

} // verus!
