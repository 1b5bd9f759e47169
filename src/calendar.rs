//! Calendar dates and times of day, to the second.
use chrono::{Datelike, Timelike};
use crate::text::padded;
use vstd::prelude::*;

verus! {

/// A local calendar date and time of day, to the second.
#[derive(Clone, Copy, Debug, PartialEq, Eq, Structural)]
pub struct DateTime {
    pub year: u16,
    pub month: u8,
    pub day: u8,
    pub hour: u8,
    pub minute: u8,
    pub second: u8,
}

pub open spec fn is_leap_year(y: int) -> bool {
    (y % 4 == 0 && y % 100 != 0) || y % 400 == 0
}

pub open spec fn days_in_month(y: int, m: int) -> int {
    if m == 2 {
        if is_leap_year(y) {
            29
        } else {
            28
        }
    } else if m == 4 || m == 6 || m == 9 || m == 11 {
        30
    } else {
        31
    }
}

/// The date exists in the proleptic Gregorian calendar.
pub open spec fn is_calendar_date(y: int, m: int, d: int) -> bool {
    1 <= m <= 12 && 1 <= d <= days_in_month(y, m)
}

pub open spec fn is_time_of_day(h: int, m: int, s: int) -> bool {
    0 <= h < 24 && 0 <= m < 60 && 0 <= s < 60
}

/// The text form of a date and time, in chrono's format syntax.
pub const DATETIME_FORMAT: &'static str = "%Y-%m-%dT%H:%M:%S";

/// The day of the week of a date in the proleptic Gregorian calendar,
/// Monday being 1 and Sunday 7 (Sakamoto's method).
pub open spec fn weekday_of(year: int, month: int, day: int) -> u8 {
    let t: int = if month == 1 {
        0
    } else if month == 2 {
        3
    } else if month == 3 {
        2
    } else if month == 4 {
        5
    } else if month == 5 {
        0
    } else if month == 6 {
        3
    } else if month == 7 {
        5
    } else if month == 8 {
        1
    } else if month == 9 {
        4
    } else if month == 10 {
        6
    } else if month == 11 {
        2
    } else {
        4
    };
    let y = if month < 3 {
        year - 1
    } else {
        year
    };
    let from_sunday = (y + y / 4 - y / 100 + y / 400 + t + day) % 7;
    if from_sunday == 0 {
        7
    } else {
        from_sunday as u8
    }
}

/// The date and time that text names in the format `fmt`, as (year,
/// month, day, hour, minute, second).
pub uninterp spec fn parsed_datetime(s: Seq<char>, fmt: Seq<char>) -> Option<
    (i32, u32, u32, u32, u32, u32),
>;

/// The text `YYYY-MM-DDTHH:MM:SS` of a date and time, each part padded
/// with zeros.
pub open spec fn datetime_text(
    year: int,
    month: int,
    day: int,
    hour: int,
    minute: int,
    second: int,
) -> Seq<char> {
    padded(year as nat, 4) + seq!['-'] + padded(month as nat, 2) + seq!['-'] + padded(
        day as nat,
        2,
    ) + seq!['T'] + padded(hour as nat, 2) + seq![':'] + padded(minute as nat, 2) + seq![':']
        + padded(second as nat, 2)
}

impl DateTime {
    /// The date exists and the time of day is in range.
    pub open spec fn valid(self) -> bool {
        is_calendar_date(self.year as int, self.month as int, self.day as int) && is_time_of_day(
            self.hour as int,
            self.minute as int,
            self.second as int,
        )
    }

    /// A valid date whose year the bus can carry (one byte above 1900).
    pub open spec fn wf(self) -> bool {
        self.valid() && 1900 <= self.year <= 2155
    }

    pub open spec fn text(self) -> Seq<char> {
        datetime_text(
            self.year as int,
            self.month as int,
            self.day as int,
            self.hour as int,
            self.minute as int,
            self.second as int,
        )
    }

    /// Whether this is a valid date and time that the bus can carry.
    pub fn check(&self) -> (r: bool)
        ensures
            r == self.wf(),
    {
        self.year >= 1900 && self.year <= 2155 && date_exists(
            self.year as i32,
            self.month as u32,
            self.day as u32,
        ) && self.hour < 24 && self.minute < 60 && self.second < 60
    }

    /// The day of the week, Monday being 1.
    pub fn weekday(&self) -> (r: u8)
        requires
            self.valid(),
        ensures
            r == weekday_of(self.year as int, self.month as int, self.day as int),
            1 <= r <= 7,
    {
        weekday_number(self.year as i32, self.month as u32, self.day as u32)
    }

    /// The text `YYYY-MM-DDTHH:MM:SS`.
    pub fn to_text(&self) -> (r: String)
        requires
            self.valid(),
            self.year <= 9999,
        ensures
            r@ == self.text(),
    {
        format_datetime(self, DATETIME_FORMAT)
    }
}

/// What `datetime_from_text` makes of a parsed date and time.
pub open spec fn datetime_of(t: (i32, u32, u32, u32, u32, u32)) -> Option<DateTime> {
    let d = DateTime {
        year: t.0 as u16,
        month: t.1 as u8,
        day: t.2 as u8,
        hour: t.3 as u8,
        minute: t.4 as u8,
        second: t.5 as u8,
    };
    if 1900 <= t.0 <= 2155 && t.1 < 256 && t.2 < 256 && t.3 < 256 && t.4 < 256 && t.5 < 256
        && d.wf() {
        Some(d)
    } else {
        None
    }
}

/// The date and time that `s` names, if the bus can carry it.
pub open spec fn datetime_from_text(s: Seq<char>) -> Option<DateTime> {
    match parsed_datetime(s, DATETIME_FORMAT@) {
        Some(t) => datetime_of(t),
        None => None,
    }
}

/// Read a date and time in the form `YYYY-MM-DDTHH:MM:SS`.
pub fn parse_datetime(s: &str) -> (r: Option<DateTime>)
    ensures
        r == datetime_from_text(s@),
{
    match parse_datetime_text(s, DATETIME_FORMAT) {
        None => None,
        Some(t) => {
            if t.0 < 1900 || t.0 > 2155 || t.1 > 255 || t.2 > 255 || t.3 > 255 || t.4 > 255 || t.5
                > 255 {
                return None;
            }
            let d = DateTime {
                year: t.0 as u16,
                month: t.1 as u8,
                day: t.2 as u8,
                hour: t.3 as u8,
                minute: t.4 as u8,
                second: t.5 as u8,
            };
            if d.check() {
                Some(d)
            } else {
                None
            }
        },
    }
}

/// Relies on `chrono::NaiveDate::from_ymd_opt`, which gives a date exactly
/// when the month and day exist in that year, for years in its range.
#[verifier::external_body]
fn date_exists(year: i32, month: u32, day: u32) -> (r: bool)
    requires
        0 <= year <= 65535,
    ensures
        r == is_calendar_date(year as int, month as int, day as int),
{
    chrono::NaiveDate::from_ymd_opt(year, month, day).is_some()
}

/// Relies on `chrono::Weekday::number_from_monday` of the date that
/// `chrono::NaiveDate::from_ymd_opt` gives: Monday is 1, Sunday is 7, in the
/// proleptic Gregorian calendar that `weekday_of` computes.
#[verifier::external_body]
fn weekday_number(year: i32, month: u32, day: u32) -> (r: u8)
    requires
        0 <= year <= 65535,
        is_calendar_date(year as int, month as int, day as int),
    ensures
        r == weekday_of(year as int, month as int, day as int),
{
    chrono::NaiveDate::from_ymd_opt(year, month, day).unwrap().weekday().number_from_monday() as u8
}

/// Relies on `chrono::NaiveDateTime::parse_from_str`, whose result depends
/// on the text and the format alone.
#[verifier::external_body]
fn parse_datetime_text(s: &str, fmt: &str) -> (r: Option<(i32, u32, u32, u32, u32, u32)>)
    ensures
        r == parsed_datetime(s@, fmt@),
{
    chrono::NaiveDateTime::parse_from_str(s, fmt).ok().map(
        |t| (t.year(), t.month(), t.day(), t.hour(), t.minute(), t.second()),
    )
}

/// Relies on `chrono::NaiveDateTime::format` with the format
/// `%Y-%m-%dT%H:%M:%S`: chrono writes a year from 0 to 9999 as four digits
/// and the other parts as two, padded with zeros. Writing it out fails on a
/// format that chrono cannot read, so the format is the library's own.
#[verifier::external_body]
fn format_datetime(t: &DateTime, fmt: &str) -> (r: String)
    requires
        t.valid(),
        t.year <= 9999,
        fmt == DATETIME_FORMAT,
    ensures
        r@ == datetime_text(
            t.year as int,
            t.month as int,
            t.day as int,
            t.hour as int,
            t.minute as int,
            t.second as int,
        ),
{
    let date = chrono::NaiveDate::from_ymd_opt(t.year as i32, t.month as u32, t.day as u32);
    let time = date.unwrap().and_hms_opt(t.hour as u32, t.minute as u32, t.second as u32);
    time.unwrap().format(fmt).to_string()
}

/// Relies on `chrono::DateTime::from_timestamp`: second 0 of Unix time is
/// 1970-01-01T00:00:00.
#[verifier::external_body]
pub(crate) fn unix_epoch() -> (r: DateTime)
    ensures
        r == (DateTime { year: 1970, month: 1, day: 1, hour: 0, minute: 0, second: 0 }),
{
    let t = chrono::DateTime::from_timestamp(0, 0).unwrap().naive_utc();
    DateTime {
        year: t.year() as u16,
        month: t.month() as u8,
        day: t.day() as u8,
        hour: t.hour() as u8,
        minute: t.minute() as u8,
        second: t.second() as u8,
    }
}

} // verus!
