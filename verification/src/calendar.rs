//! Calendar dates, times of day, and the date-time value the rest of the
//! library works with.
//!
//! Whether a date or a time exists is decided by `chrono`; what it decides is
//! stated here as `is_calendar_date` and `is_time_of_day`.

use crate::text::{decimal_text, push_decimal, push_text};
use vstd::prelude::*;

verus! {

/// `chrono::NaiveDate`, of which only its being there is used.
#[verifier::external_type_specification]
#[verifier::external_body]
pub struct ExNaiveDate(chrono::NaiveDate);

/// `chrono::NaiveTime`, of which only its being there is used.
#[verifier::external_type_specification]
#[verifier::external_body]
pub struct ExNaiveTime(chrono::NaiveTime);

/// Leap years of the proleptic Gregorian calendar.
pub open spec fn is_leap_year(year: int) -> bool {
    year % 4 == 0 && (year % 100 != 0 || year % 400 == 0)
}

/// The number of days of a month, for `month` from 1 to 12.
pub open spec fn days_in_month(year: int, month: int) -> int {
    if month == 2 {
        if is_leap_year(year) {
            29
        } else {
            28
        }
    } else if month == 4 || month == 6 || month == 9 || month == 11 {
        30
    } else {
        31
    }
}

/// The day `day` of month `month` of year `year` exists, and the year is one
/// that `chrono::NaiveDate` can hold.
pub open spec fn is_calendar_date(year: int, month: int, day: int) -> bool {
    &&& -262_143 <= year <= 262_142
    &&& 1 <= month <= 12
    &&& 1 <= day <= days_in_month(year, month)
}

/// `hour:minute:second` is a time of day; there is no second 60.
pub open spec fn is_time_of_day(hour: int, minute: int, second: int) -> bool {
    0 <= hour < 24 && 0 <= minute < 60 && 0 <= second < 60
}

/// `chrono::NaiveDate::from_ymd_opt` gives a date exactly when the day exists
/// in the proleptic Gregorian calendar and the year lies within the years a
/// `NaiveDate` can hold, -262143 to 262142. Nothing is claimed of the date
/// itself.
pub assume_specification[ chrono::NaiveDate::from_ymd_opt ](
    year: i32,
    month: u32,
    day: u32,
) -> (date: Option<chrono::NaiveDate>)
    ensures
        date.is_some() == is_calendar_date(year as int, month as int, day as int),
;

/// `chrono::NaiveTime::from_hms_opt` gives a time exactly when the hour is
/// below 24 and minute and second are below 60. Nothing is claimed of the time
/// itself.
pub assume_specification[ chrono::NaiveTime::from_hms_opt ](hour: u32, min: u32, sec: u32) -> (time:
    Option<chrono::NaiveTime>)
    ensures
        time.is_some() == is_time_of_day(hour as int, min as int, sec as int),
;

/// Why a timestamp was refused.
#[derive(Clone, Copy, Debug, PartialEq, Eq)]
pub enum TimestampError {
    /// The text does not have the shape of a timestamp.
    Malformed,
    /// Year, month and day do not form a date of the calendar.
    InvalidCalendarDate { year: u32, month: u32, day: u32 },
    /// Hour, minute and second do not form a time of day.
    InvalidTimeOfDay { hour: u32, minute: u32, second: u32 },
}

impl TimestampError {
    /// The message shown for this error.
    pub open spec fn message(self) -> Seq<char> {
        match self {
            TimestampError::Malformed => "Invalid timestamp format"@,
            TimestampError::InvalidCalendarDate { year, month, day } => "Invalid YMD "@
                + decimal_text(year as nat) + "-"@ + decimal_text(month as nat) + "-"@
                + decimal_text(day as nat),
            TimestampError::InvalidTimeOfDay { hour, minute, second } => "Invalid HMS: "@
                + decimal_text(hour as nat) + ":"@ + decimal_text(minute as nat) + ":"@
                + decimal_text(second as nat),
        }
    }

    /// The message shown for this error, with the offending numbers as they
    /// were read.
    pub fn to_string(&self) -> (text: String)
        ensures
            text@ == self.message(),
    {
        let mut text = String::new();
        match *self {
            TimestampError::Malformed => {
                push_text(&mut text, "Invalid timestamp format");
            },
            TimestampError::InvalidCalendarDate { year, month, day } => {
                push_text(&mut text, "Invalid YMD ");
                push_decimal(&mut text, year as u64);
                push_text(&mut text, "-");
                push_decimal(&mut text, month as u64);
                push_text(&mut text, "-");
                push_decimal(&mut text, day as u64);
            },
            TimestampError::InvalidTimeOfDay { hour, minute, second } => {
                push_text(&mut text, "Invalid HMS: ");
                push_decimal(&mut text, hour as u64);
                push_text(&mut text, ":");
                push_decimal(&mut text, minute as u64);
                push_text(&mut text, ":");
                push_decimal(&mut text, second as u64);
            },
        }
        assert(text@ =~= self.message());
        text
    }
}

/// A date and a time of day, to the millisecond, without a time zone.
#[derive(Clone, Copy, Debug, PartialEq, Eq)]
pub struct DateTime {
    pub year: u32,
    pub month: u32,
    pub day: u32,
    pub hour: u32,
    pub minute: u32,
    pub second: u32,
    pub millisecond: u32,
}

impl DateTime {
    /// The value names a real instant: a day of the calendar in a year of at
    /// most four digits, a time of day, and less than a second of
    /// milliseconds.
    pub open spec fn is_valid(self) -> bool {
        &&& self.year <= 9999
        &&& is_calendar_date(self.year as int, self.month as int, self.day as int)
        &&& is_time_of_day(self.hour as int, self.minute as int, self.second as int)
        &&& self.millisecond < 1000
    }

    /// `self` lies in an earlier second than `other`.
    pub open spec fn earlier_second(self, other: DateTime) -> bool {
        self.year < other.year || (self.year == other.year && (self.month < other.month || (
        self.month == other.month && (self.day < other.day || (self.day == other.day && (self.hour
            < other.hour || (self.hour == other.hour && (self.minute < other.minute || (self.minute
            == other.minute && self.second < other.second)))))))))
    }

    /// `self` lies in the same second as `other`.
    pub open spec fn same_second(self, other: DateTime) -> bool {
        &&& self.year == other.year
        &&& self.month == other.month
        &&& self.day == other.day
        &&& self.hour == other.hour
        &&& self.minute == other.minute
        &&& self.second == other.second
    }

    /// What `new` gives for these numbers: the date is looked at first, then
    /// the time.
    pub open spec fn checked(
        year: u32,
        month: u32,
        day: u32,
        hour: u32,
        minute: u32,
        second: u32,
        millisecond: u32,
    ) -> Result<DateTime, TimestampError> {
        if year > 9999 || !is_calendar_date(year as int, month as int, day as int) {
            Err(TimestampError::InvalidCalendarDate { year, month, day })
        } else if !is_time_of_day(hour as int, minute as int, second as int) || millisecond
            >= 1000 {
            Err(TimestampError::InvalidTimeOfDay { hour, minute, second })
        } else {
            Ok(DateTime { year, month, day, hour, minute, second, millisecond })
        }
    }

    /// Builds a date-time from its parts, or says which part of it does not
    /// exist.
    pub fn new(
        year: u32,
        month: u32,
        day: u32,
        hour: u32,
        minute: u32,
        second: u32,
        millisecond: u32,
    ) -> (made: Result<DateTime, TimestampError>)
        ensures
            made == Self::checked(year, month, day, hour, minute, second, millisecond),
            made matches Ok(date_time) ==> date_time.is_valid(),
    {
        if year > 9999 {
            return Err(TimestampError::InvalidCalendarDate { year, month, day });
        }
        if chrono::NaiveDate::from_ymd_opt(year as i32, month, day).is_none() {
            return Err(TimestampError::InvalidCalendarDate { year, month, day });
        }
        if chrono::NaiveTime::from_hms_opt(hour, minute, second).is_none() || millisecond >= 1000 {
            return Err(TimestampError::InvalidTimeOfDay { hour, minute, second });
        }
        Ok(DateTime { year, month, day, hour, minute, second, millisecond })
    }
}

/// The leap years from year 0 up to, but without, `year`.
pub open spec fn leap_years_before(year: int) -> int {
    (year + 3) / 4 - (year + 99) / 100 + (year + 399) / 400
}

/// The days from the first day of year 0 up to, but without, the first day
/// of `year`.
pub open spec fn days_before_year(year: int) -> int {
    365 * year + leap_years_before(year)
}

/// The days of `year` that lie before the first day of `month`.
pub open spec fn days_before_month(year: int, month: int) -> int
    decreases month,
{
    if month <= 1 {
        0
    } else {
        days_before_month(year, month - 1) + days_in_month(year, month - 1)
    }
}

/// The days from the first day of year 0 up to, but without, the given day.
pub open spec fn day_number(year: int, month: int, day: int) -> int {
    days_before_year(year) + days_before_month(year, month) + day - 1
}

/// Whether `year` is a leap year.
pub fn leap_year(year: u32) -> (leap: bool)
    ensures
        leap == is_leap_year(year as int),
{
    year % 4 == 0 && (year % 100 != 0 || year % 400 == 0)
}

/// The number of days of a month.
pub fn month_length(year: u32, month: u32) -> (days: u32)
    ensures
        days == days_in_month(year as int, month as int),
{
    if month == 2 {
        if leap_year(year) {
            29
        } else {
            28
        }
    } else if month == 4 || month == 6 || month == 9 || month == 11 {
        30
    } else {
        31
    }
}

impl DateTime {
    /// Whether the value names a real instant.
    pub fn check(&self) -> (valid: bool)
        ensures
            valid == self.is_valid(),
    {
        DateTime::new(
            self.year,
            self.month,
            self.day,
            self.hour,
            self.minute,
            self.second,
            self.millisecond,
        ).is_ok()
    }

    /// The same time of day seven days earlier; `None` for a value that
    /// names no instant, and in the first week of year 0.
    pub open spec fn week_earlier(self) -> Option<DateTime> {
        if !self.is_valid() {
            None
        } else if self.day > 7 {
            Some(DateTime { day: (self.day - 7) as u32, ..self })
        } else if self.month > 1 {
            Some(
                DateTime {
                    month: (self.month - 1) as u32,
                    day: (self.day + days_in_month(self.year as int, self.month - 1) - 7) as u32,
                    ..self
                },
            )
        } else if self.year > 0 {
            Some(
                DateTime { year: (self.year - 1) as u32, month: 12, day: (self.day + 24) as u32, ..self },
            )
        } else {
            None
        }
    }

    /// The same time of day seven days earlier.
    pub fn week_before(&self) -> (earlier: Option<DateTime>)
        ensures
            earlier == self.week_earlier(),
            earlier matches Some(date_time) ==> date_time.is_valid(),
    {
        proof {
            if self.is_valid() {
                lemma_week_earlier(*self);
            }
        }
        if !self.check() {
            None
        } else if self.day > 7 {
            Some(DateTime { day: self.day - 7, ..*self })
        } else if self.month > 1 {
            let borrowed: u32 = month_length(self.year, self.month - 1);
            Some(DateTime { month: self.month - 1, day: self.day + borrowed - 7, ..*self })
        } else if self.year > 0 {
            Some(DateTime { year: self.year - 1, month: 12, day: self.day + 24, ..*self })
        } else {
            None
        }
    }
}

/// The days of a year that lie before December.
proof fn lemma_days_before_december(year: int)
    ensures
        days_before_month(year, 12) == if is_leap_year(year) {
            335int
        } else {
            334int
        },
{
    assert(days_before_month(year, 1) == 0);
    assert(days_before_month(year, 2) == 31);
    assert(days_before_month(year, 3) == 31 + days_in_month(year, 2));
    assert(days_before_month(year, 4) == 62 + days_in_month(year, 2));
    assert(days_before_month(year, 5) == 92 + days_in_month(year, 2));
    assert(days_before_month(year, 6) == 123 + days_in_month(year, 2));
    assert(days_before_month(year, 7) == 153 + days_in_month(year, 2));
    assert(days_before_month(year, 8) == 184 + days_in_month(year, 2));
    assert(days_before_month(year, 9) == 215 + days_in_month(year, 2));
    assert(days_before_month(year, 10) == 245 + days_in_month(year, 2));
    assert(days_before_month(year, 11) == 276 + days_in_month(year, 2));
    assert(days_before_month(year, 12) == 306 + days_in_month(year, 2));
}

/// Among the numbers up to `year + 1` there is one more multiple of four than
/// among those up to `year` exactly if `year` is one.
proof fn lemma_fourth_year(year: int)
    requires
        0 <= year,
    ensures
        (year + 4) / 4 - (year + 3) / 4 == if year % 4 == 0 {
            1int
        } else {
            0int
        },
{
}

/// The same for the multiples of one hundred.
proof fn lemma_hundredth_year(year: int)
    requires
        0 <= year,
    ensures
        (year + 100) / 100 - (year + 99) / 100 == if year % 100 == 0 {
            1int
        } else {
            0int
        },
{
}

/// The same for the multiples of four hundred.
proof fn lemma_four_hundredth_year(year: int)
    requires
        0 <= year,
    ensures
        (year + 400) / 400 - (year + 399) / 400 == if year % 400 == 0 {
            1int
        } else {
            0int
        },
{
}

/// A multiple of four hundred is one of one hundred, and that is one of four.
proof fn lemma_multiples(year: int)
    requires
        0 <= year,
    ensures
        year % 400 == 0 ==> year % 100 == 0,
        year % 100 == 0 ==> year % 4 == 0,
{
}

/// One more leap year lies before `year + 1` than before `year` exactly if
/// `year` is a leap year.
proof fn lemma_leap_years_step(year: int)
    requires
        0 <= year,
    ensures
        leap_years_before(year + 1) == leap_years_before(year) + if is_leap_year(year) {
            1int
        } else {
            0int
        },
{
    lemma_fourth_year(year);
    lemma_hundredth_year(year);
    lemma_four_hundredth_year(year);
    lemma_multiples(year);
}

/// A year has 365 days, and one more if it is a leap year.
pub proof fn lemma_year_length(year: int)
    requires
        0 <= year,
    ensures
        days_before_year(year + 1) == days_before_year(year) + if is_leap_year(year) {
            366int
        } else {
            365int
        },
        days_before_month(year, 12) + 31 == days_before_year(year + 1) - days_before_year(year),
{
    lemma_days_before_december(year);
    lemma_leap_years_step(year);
}

/// `week_earlier` gives a real instant that lies exactly seven days before,
/// at the same time of day; it gives none only in the first seven days of
/// year 0.
pub proof fn lemma_week_earlier(date: DateTime)
    requires
        date.is_valid(),
    ensures
        match date.week_earlier() {
            Some(earlier) => {
                &&& earlier.is_valid()
                &&& day_number(earlier.year as int, earlier.month as int, earlier.day as int) + 7
                    == day_number(date.year as int, date.month as int, date.day as int)
                &&& earlier.hour == date.hour
                &&& earlier.minute == date.minute
                &&& earlier.second == date.second
                &&& earlier.millisecond == date.millisecond
            },
            None => day_number(date.year as int, date.month as int, date.day as int) < 7,
        },
{
    if date.day > 7 {
    } else if date.month > 1 {
    } else if date.year > 0 {
        lemma_year_length(date.year - 1);
    } else {
    }
}

} // verus!
