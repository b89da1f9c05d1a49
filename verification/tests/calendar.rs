use chrono::{Datelike, NaiveDate, NaiveTime, Timelike};
use meter_telegram::calendar::{CalendarDate, TimeOfDay};

fn leap(year: i32) -> bool {
    year % 4 == 0 && (year % 100 != 0 || year % 400 == 0)
}

fn month_days(year: i32, month: u32) -> u32 {
    match month {
        2 => {
            if leap(year) {
                29
            } else {
                28
            }
        }
        4 | 6 | 9 | 11 => 30,
        1..=12 => 31,
        _ => 0,
    }
}

#[test]
fn from_ymd_gives_the_day_asked_for() {
    assert_eq!(
        CalendarDate::from_ymd(2023, 5, 19),
        Some(CalendarDate { year: 2023, month: 5, day: 19 })
    );
    let d = CalendarDate::from_ymd(2024, 2, 29).unwrap();
    let n = NaiveDate::from_ymd_opt(2024, 2, 29).unwrap();
    assert_eq!((d.year, d.month, d.day), (n.year(), n.month(), n.day()));
}

#[test]
fn from_ymd_rejects_days_that_are_not() {
    assert_eq!(CalendarDate::from_ymd(2023, 2, 29), None);
    assert_eq!(CalendarDate::from_ymd(2023, 4, 31), None);
    assert_eq!(CalendarDate::from_ymd(2023, 0, 1), None);
    assert_eq!(CalendarDate::from_ymd(2023, 13, 1), None);
    assert_eq!(CalendarDate::from_ymd(2023, 1, 0), None);
    assert_eq!(CalendarDate::from_ymd(2023, 1, 32), None);
    assert_eq!(CalendarDate::from_ymd(1900, 2, 29), None);
    assert!(CalendarDate::from_ymd(2000, 2, 29).is_some());
}

#[test]
fn from_ymd_year_limits() {
    assert!(CalendarDate::from_ymd(262142, 12, 31).is_some());
    assert_eq!(CalendarDate::from_ymd(262143, 1, 1), None);
    assert!(CalendarDate::from_ymd(-262143, 1, 1).is_some());
    assert_eq!(CalendarDate::from_ymd(-262144, 12, 31), None);
    assert_eq!(CalendarDate::from_ymd(i32::MAX, 1, 1), None);
    assert_eq!(CalendarDate::from_ymd(i32::MIN, 1, 1), None);
}

#[test]
fn from_ymd_follows_the_calendar_rule() {
    for year in [-401, -400, -100, -4, -1, 0, 1, 4, 100, 400, 1900, 2000, 2023, 2024, 2100] {
        for month in 0u32..=14 {
            for day in 0u32..=33 {
                let expected = 1 <= day && day <= month_days(year, month);
                let got = CalendarDate::from_ymd(year, month, day);
                assert_eq!(got.is_some(), expected, "{year}-{month}-{day}");
                if let Some(d) = got {
                    assert_eq!(d, CalendarDate { year, month, day });
                }
            }
        }
    }
}

#[test]
fn from_hms_gives_the_time_asked_for() {
    assert_eq!(
        TimeOfDay::from_hms(12, 34, 56),
        Some(TimeOfDay { hour: 12, minute: 34, second: 56 })
    );
    let t = TimeOfDay::from_hms(23, 59, 59).unwrap();
    let n = NaiveTime::from_hms_opt(23, 59, 59).unwrap();
    assert_eq!((t.hour, t.minute, t.second), (n.hour(), n.minute(), n.second()));
    assert_eq!(TimeOfDay::from_hms(0, 0, 0), Some(TimeOfDay { hour: 0, minute: 0, second: 0 }));
}

#[test]
fn from_hms_rejects_times_that_are_not() {
    assert_eq!(TimeOfDay::from_hms(24, 0, 0), None);
    assert_eq!(TimeOfDay::from_hms(23, 60, 0), None);
    assert_eq!(TimeOfDay::from_hms(23, 59, 60), None);
    assert_eq!(TimeOfDay::from_hms(u32::MAX, 0, 0), None);
}

#[test]
fn from_hms_follows_the_clock_rule() {
    for hour in 0u32..=25 {
        for minute in [0u32, 1, 30, 59, 60, 61] {
            for second in [0u32, 1, 30, 59, 60, 61] {
                let expected = hour < 24 && minute < 60 && second < 60;
                let got = TimeOfDay::from_hms(hour, minute, second);
                assert_eq!(got.is_some(), expected);
                if let Some(t) = got {
                    assert_eq!(t, TimeOfDay { hour, minute, second });
                }
            }
        }
    }
}
