//! Civil date and time in UTC, held as plain calendar fields.

use vstd::prelude::*;

verus! {

/// The earliest year that a date can have.
pub const MIN_YEAR: i32 = -262143;

/// The latest year that a date can have.
pub const MAX_YEAR: i32 = 262142;

/// Leap years of the proleptic Gregorian calendar. Years before 1 follow
/// astronomical numbering, so year 0 is a leap year.
pub open spec fn is_leap_year(year: int) -> bool {
    year % 4 == 0 && (year % 100 != 0 || year % 400 == 0)
}

/// The number of days of `month` in `year`, for a month from 1 to 12.
pub open spec fn days_in_month(year: int, month: int) -> int {
    if month == 2 {
        if is_leap_year(year) {
            29
        } else {
            28
        }
    } else if month == 4 || month == 6 || month == 9 || month == 11 {
        30
    } else {
        31
    }
}

/// Whether day `day` of month `month` of `year` exists in the calendar and
/// the year is one that a date can have.
pub open spec fn is_date(year: int, month: int, day: int) -> bool {
    &&& MIN_YEAR <= year <= MAX_YEAR
    &&& 1 <= month <= 12
    &&& 1 <= day <= days_in_month(year, month)
}

/// Whether the fields name a time of day. A nanosecond count of a thousand
/// million or more stands for a leap second, and is possible only in the
/// last second of a minute.
pub open spec fn is_time(hour: int, minute: int, second: int, nanosecond: int) -> bool {
    &&& 0 <= hour < 24
    &&& 0 <= minute < 60
    &&& 0 <= second < 60
    &&& 0 <= nanosecond < 2_000_000_000
    &&& (nanosecond >= 1_000_000_000 ==> second == 59)
}

/// A point in time as its calendar fields: what a `Timestamp` stands for.
pub struct Moment {
    pub year: int,
    pub month: int,
    pub day: int,
    pub hour: int,
    pub minute: int,
    pub second: int,
    pub nanosecond: int,
}

impl Moment {
    /// The fields name an existing date and a time of day.
    pub open spec fn is_valid(self) -> bool {
        &&& is_date(self.year, self.month, self.day)
        &&& is_time(self.hour, self.minute, self.second, self.nanosecond)
    }

    /// Chronological order: `self` comes strictly before `other`. The fields
    /// are compared from the year down to the nanosecond.
    pub open spec fn precedes(self, other: Moment) -> bool {
        ||| self.year < other.year
        ||| self.year == other.year && self.month < other.month
        ||| self.year == other.year && self.month == other.month && self.day < other.day
        ||| self.year == other.year && self.month == other.month && self.day == other.day
            && self.time_precedes(other)
    }

    /// The order of the times of day, for two moments of one date.
    pub open spec fn time_precedes(self, other: Moment) -> bool {
        ||| self.hour < other.hour
        ||| self.hour == other.hour && self.minute < other.minute
        ||| self.hour == other.hour && self.minute == other.minute && self.second < other.second
        ||| self.hour == other.hour && self.minute == other.minute && self.second == other.second
            && self.nanosecond < other.nanosecond
    }
}

/// The text that RFC 2822 gives a moment in UTC, such as
/// `Wed, 5 Jun 2024 23:59:59 +0000`.
pub uninterp spec fn rfc2822_text(moment: Moment) -> Seq<char>;

/// The text that shows a moment in UTC as date, time and zone, such as
/// `2024-06-05 23:59:59 UTC`.
pub uninterp spec fn utc_text(moment: Moment) -> Seq<char>;

/// A date and time in UTC. Every value names an existing calendar date and a
/// time of day.
#[derive(Clone, Copy, Debug, PartialEq, Eq)]
pub struct Timestamp {
    year: i32,
    month: u32,
    day: u32,
    hour: u32,
    minute: u32,
    second: u32,
    nanosecond: u32,
}

impl View for Timestamp {
    type V = Moment;

    closed spec fn view(&self) -> Moment {
        Moment {
            year: self.year as int,
            month: self.month as int,
            day: self.day as int,
            hour: self.hour as int,
            minute: self.minute as int,
            second: self.second as int,
            nanosecond: self.nanosecond as int,
        }
    }
}

/// `chrono::NaiveDate::from_ymd_opt`, read back as year, month and day. The
/// date is made exactly when the day exists in the proleptic Gregorian
/// calendar and the year lies between `MIN_YEAR` and `MAX_YEAR`; its fields
/// are then the ones given.
#[verifier::external_body]
pub(crate) fn calendar_date(year: i32, month: u32, day: u32) -> (date: Option<(i32, u32, u32)>)
    ensures
        date == (if is_date(year as int, month as int, day as int) {
            Some((year, month, day))
        } else {
            None::<(i32, u32, u32)>
        }),
{
    chrono::NaiveDate::from_ymd_opt(year, month, day).map(
        |d| (chrono::Datelike::year(&d), chrono::Datelike::month(&d), chrono::Datelike::day(&d)),
    )
}

/// `chrono::NaiveTime::from_hms_opt`, read back as hour, minute and second.
/// The time is made exactly when the hour is below 24 and minute and second
/// are below 60; its fields are then the ones given.
#[verifier::external_body]
pub(crate) fn time_of_day(hour: u32, minute: u32, second: u32) -> (time: Option<(u32, u32, u32)>)
    ensures
        time == (if is_time(hour as int, minute as int, second as int, 0) {
            Some((hour, minute, second))
        } else {
            None::<(u32, u32, u32)>
        }),
{
    chrono::NaiveTime::from_hms_opt(hour, minute, second).map(
        |t| (chrono::Timelike::hour(&t), chrono::Timelike::minute(&t), chrono::Timelike::second(&t)),
    )
}

/// `chrono::NaiveTime::from_hms_nano_opt`, telling only whether the time was
/// made. It is made exactly when hour, minute and second are in range and the
/// nanoseconds are below a thousand million, or below two thousand million in
/// second 59.
#[verifier::external_body]
pub(crate) fn is_time_of_day(hour: u32, minute: u32, second: u32, nanosecond: u32) -> (made: bool)
    ensures
        made == is_time(hour as int, minute as int, second as int, nanosecond as int),
{
    chrono::NaiveTime::from_hms_nano_opt(hour, minute, second, nanosecond).is_some()
}

/// `chrono::DateTime::<Utc>::to_rfc2822` on the moment that `t` stands for.
/// The text depends on the moment alone. Outside the years 0 to 9999 the call
/// does not return.
#[verifier::external_body]
pub(crate) fn rfc2822(t: &Timestamp) -> (text: String)
    requires
        t.wf(),
        0 <= t@.year <= 9999,
    ensures
        text@ == rfc2822_text(t@),
{
    let date = chrono::NaiveDate::from_ymd_opt(t.year, t.month, t.day).unwrap();
    let naive = date.and_hms_nano_opt(t.hour, t.minute, t.second, t.nanosecond).unwrap();
    naive.and_utc().to_rfc2822()
}

/// `chrono::DateTime::<Utc>`'s `Display` on the moment that `t` stands for.
/// The text depends on the moment alone.
#[verifier::external_body]
pub(crate) fn utc_display(t: &Timestamp) -> (text: String)
    requires
        t.wf(),
    ensures
        text@ == utc_text(t@),
{
    let date = chrono::NaiveDate::from_ymd_opt(t.year, t.month, t.day).unwrap();
    let naive = date.and_hms_nano_opt(t.hour, t.minute, t.second, t.nanosecond).unwrap();
    naive.and_utc().to_string()
}

impl Timestamp {
    /// The invariant of the type: the fields name an existing date and a time
    /// of day.
    #[verifier::type_invariant]
    pub open spec fn wf(&self) -> bool {
        self@.is_valid()
    }

    /// The timestamp with the given fields, if they name an existing date and
    /// a time of day.
    pub fn new(
        year: i32,
        month: u32,
        day: u32,
        hour: u32,
        minute: u32,
        second: u32,
        nanosecond: u32,
    ) -> (made: Option<Timestamp>)
        ensures
            made is Some <==> is_date(year as int, month as int, day as int) && is_time(
                hour as int,
                minute as int,
                second as int,
                nanosecond as int,
            ),
            made matches Some(t) ==> t@ == (Moment {
                year: year as int,
                month: month as int,
                day: day as int,
                hour: hour as int,
                minute: minute as int,
                second: second as int,
                nanosecond: nanosecond as int,
            }),
    {
        match calendar_date(year, month, day) {
            None => None,
            Some((y, m, d)) => {
                if is_time_of_day(hour, minute, second, nanosecond) {
                    Some(Timestamp { year: y, month: m, day: d, hour, minute, second, nanosecond })
                } else {
                    None
                }
            },
        }
    }

    /// The timestamp at the start of a second, for a date and a time of day
    /// that are known to exist.
    pub(crate) fn from_date_and_time(
        year: i32,
        month: u32,
        day: u32,
        hour: u32,
        minute: u32,
        second: u32,
    ) -> (t: Timestamp)
        requires
            is_date(year as int, month as int, day as int),
            is_time(hour as int, minute as int, second as int, 0),
        ensures
            t@ == (Moment {
                year: year as int,
                month: month as int,
                day: day as int,
                hour: hour as int,
                minute: minute as int,
                second: second as int,
                nanosecond: 0,
            }),
    {
        Timestamp { year, month, day, hour, minute, second, nanosecond: 0 }
    }

    /// The year; years before 1 count down through 0.
    pub fn year(&self) -> (year: i32)
        ensures
            year == self@.year,
    {
        self.year
    }

    /// The month, from 1 to 12.
    pub fn month(&self) -> (month: u32)
        ensures
            month == self@.month,
    {
        self.month
    }

    /// The day of the month, from 1.
    pub fn day(&self) -> (day: u32)
        ensures
            day == self@.day,
    {
        self.day
    }

    /// The hour, from 0 to 23.
    pub fn hour(&self) -> (hour: u32)
        ensures
            hour == self@.hour,
    {
        self.hour
    }

    /// The minute, from 0 to 59.
    pub fn minute(&self) -> (minute: u32)
        ensures
            minute == self@.minute,
    {
        self.minute
    }

    /// The second, from 0 to 59.
    pub fn second(&self) -> (second: u32)
        ensures
            second == self@.second,
    {
        self.second
    }

    /// The nanoseconds of the second; a thousand million or more in a leap second.
    pub fn nanosecond(&self) -> (nanosecond: u32)
        ensures
            nanosecond == self@.nanosecond,
    {
        self.nanosecond
    }

    /// Whether `self` comes strictly before `other`.
    pub fn is_before(&self, other: &Timestamp) -> (before: bool)
        ensures
            before == self@.precedes(other@),
    {
        if self.year != other.year {
            self.year < other.year
        } else if self.month != other.month {
            self.month < other.month
        } else if self.day != other.day {
            self.day < other.day
        } else if self.hour != other.hour {
            self.hour < other.hour
        } else if self.minute != other.minute {
            self.minute < other.minute
        } else if self.second != other.second {
            self.second < other.second
        } else {
            self.nanosecond < other.nanosecond
        }
    }
}

} // verus!
