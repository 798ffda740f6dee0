//! Calendar dates, times of day and UTC instants, with the text forms in
//! which a filter writes them.

use crate::filters::text::{all_digits, decimal_digits, decimal_value, digit_value, is_digit};
use chrono::{Datelike, Offset, TimeZone, Timelike};
use vstd::prelude::*;

verus! {

/// The earliest year that a date can hold.
pub const MIN_YEAR: i32 = -262143;

/// The latest year that a date can hold.
pub const MAX_YEAR: i32 = 262142;

/// Seconds in a day.
pub const DAY_SECONDS: i32 = 86400;

/// Nanoseconds in a second.
pub const SECOND_NANOS: u32 = 1_000_000_000;

// ---------------------------------------------------------------------------
// The calendar
// ---------------------------------------------------------------------------

/// Leap years of the proleptic Gregorian calendar.
pub open spec fn is_leap_year(year: int) -> bool {
    year % 4 == 0 && (year % 100 != 0 || year % 400 == 0)
}

/// The number of days of a month.
pub open spec fn days_in_month(year: int, month: int) -> int {
    if month == 2 {
        if is_leap_year(year) {
            29
        } else {
            28
        }
    } else if month == 4 || month == 6 || month == 9 || month == 11 {
        30
    } else {
        31
    }
}

/// A calendar date as three numbers.
pub ghost struct DateView {
    pub year: int,
    pub month: int,
    pub day: int,
}

impl DateView {
    /// The date exists in the calendar and its year is in range.
    pub open spec fn wf(self) -> bool {
        &&& MIN_YEAR <= self.year <= MAX_YEAR
        &&& 1 <= self.month <= 12
        &&& 1 <= self.day <= days_in_month(self.year, self.month)
    }

    /// The day after this one.
    pub open spec fn next_day(self) -> DateView {
        if self.day < days_in_month(self.year, self.month) {
            DateView { day: self.day + 1, ..self }
        } else if self.month < 12 {
            DateView { year: self.year, month: self.month + 1, day: 1 }
        } else {
            DateView { year: self.year + 1, month: 1, day: 1 }
        }
    }

    /// The day before this one.
    pub open spec fn previous_day(self) -> DateView {
        if self.day > 1 {
            DateView { day: self.day - 1, ..self }
        } else if self.month > 1 {
            DateView {
                year: self.year,
                month: self.month - 1,
                day: days_in_month(self.year, self.month - 1),
            }
        } else {
            DateView { year: self.year - 1, month: 12, day: 31 }
        }
    }
}

/// A time of day. A nanosecond count from `SECOND_NANOS` up stands for a
/// leap second: the second after the one that `second` names.
pub ghost struct TimeView {
    pub hour: int,
    pub minute: int,
    pub second: int,
    pub nanosecond: int,
}

impl TimeView {
    /// The numbers name a time of day.
    pub open spec fn wf(self) -> bool {
        &&& 0 <= self.hour < 24
        &&& 0 <= self.minute < 60
        &&& 0 <= self.second < 60
        &&& 0 <= self.nanosecond < 2 * SECOND_NANOS
    }

    /// A leap second is only written after second 59.
    pub open spec fn is_plain(self) -> bool {
        self.nanosecond >= SECOND_NANOS ==> self.second == 59
    }

    /// Whole seconds since midnight.
    pub open spec fn second_of_day(self) -> int {
        self.hour * 3600 + self.minute * 60 + self.second
    }

    /// The time that `seconds` whole seconds since midnight give, with the
    /// nanoseconds of `self`.
    pub open spec fn at_second_of_day(self, seconds: int) -> TimeView {
        TimeView {
            hour: seconds / 3600,
            minute: (seconds / 60) % 60,
            second: seconds % 60,
            nanosecond: self.nanosecond,
        }
    }
}

/// An instant, as the date and time that a clock in UTC shows.
pub ghost struct DateTimeView {
    pub date: DateView,
    pub time: TimeView,
}

impl DateTimeView {
    /// The date and the time are well formed.
    pub open spec fn wf(self) -> bool {
        self.date.wf() && self.time.wf()
    }
}

/// The date and time that a clock in UTC shows when a clock that is
/// `offset` seconds ahead of UTC, by less than a day either way, shows
/// `date` and `time`.
pub open spec fn moved_to_utc(date: DateView, time: TimeView, offset: int) -> DateTimeView {
    let seconds = time.second_of_day() - offset;
    if seconds < 0 {
        DateTimeView { date: date.previous_day(), time: time.at_second_of_day(seconds + DAY_SECONDS) }
    } else if seconds >= DAY_SECONDS {
        DateTimeView { date: date.next_day(), time: time.at_second_of_day(seconds - DAY_SECONDS) }
    } else {
        DateTimeView { date, time: time.at_second_of_day(seconds) }
    }
}

/// The UTC instant of a local date and time that is `offset` seconds ahead
/// of UTC, where the result's year is still in range.
pub open spec fn utc_of_local(date: DateView, time: TimeView, offset: int) -> Option<DateTimeView> {
    let moved = moved_to_utc(date, time, offset);
    if MIN_YEAR <= moved.date.year <= MAX_YEAR {
        Some(moved)
    } else {
        None
    }
}

// ---------------------------------------------------------------------------
// Text forms that are read
// ---------------------------------------------------------------------------

/// The number that the two digits of `t` from `at` write.
pub open spec fn two_at(t: Seq<char>, at: int) -> int {
    digit_value(t[at]) * 10 + digit_value(t[at + 1])
}

/// The number that the four digits of `t` from `at` write.
pub open spec fn four_at(t: Seq<char>, at: int) -> int {
    two_at(t, at) * 100 + two_at(t, at + 2)
}

/// `t` holds two digits from `at`.
pub open spec fn two_digits_at(t: Seq<char>, at: int) -> bool {
    0 <= at && at + 2 <= t.len() && is_digit(t[at]) && is_digit(t[at + 1])
}

/// `t` has the shape `dddd-dd-dd`.
pub open spec fn is_date_text(t: Seq<char>) -> bool {
    &&& t.len() == 10
    &&& two_digits_at(t, 0)
    &&& two_digits_at(t, 2)
    &&& t[4] == '-'
    &&& two_digits_at(t, 5)
    &&& t[7] == '-'
    &&& two_digits_at(t, 8)
}

/// The date that a text of the shape `dddd-dd-dd` writes, if there is such
/// a day.
pub open spec fn date_of_text(t: Seq<char>) -> Option<DateView> {
    let date = DateView { year: four_at(t, 0), month: two_at(t, 5), day: two_at(t, 8) };
    if date.wf() {
        Some(date)
    } else {
        None
    }
}

/// The number of digits of the hour with which a time text begins.
pub open spec fn hour_width(t: Seq<char>) -> int {
    if t.len() >= 2 && is_digit(t[1]) {
        2
    } else {
        1
    }
}

/// `t` has the shape `h:mm`, `h:mm:ss` or `h:mm:ss.f`, with one or two
/// digits for the hour and one or more for the fraction.
pub open spec fn is_time_text(t: Seq<char>) -> bool {
    let h = hour_width(t);
    &&& t.len() >= h + 3
    &&& is_digit(t[0])
    &&& t[h] == ':'
    &&& two_digits_at(t, h + 1)
    &&& t.len() > h + 3 ==> {
        &&& t.len() >= h + 6
        &&& t[h + 3] == ':'
        &&& two_digits_at(t, h + 4)
        &&& t.len() > h + 6 ==> {
            &&& t.len() >= h + 8
            &&& t[h + 6] == '.'
            &&& all_digits(t.subrange(h + 7, t.len() as int))
        }
    }
}

/// A time text names its seconds.
pub open spec fn time_text_has_seconds(t: Seq<char>) -> bool {
    t.len() > hour_width(t) + 3
}

/// Ten to the power `n`.
pub open spec fn power_of_ten(n: nat) -> int
    decreases n,
{
    if n == 0 {
        1
    } else {
        10 * power_of_ten((n - 1) as nat)
    }
}

/// The nanoseconds that the digits `f` after a decimal point write; digits
/// past the ninth are dropped.
pub open spec fn fraction_nanos(f: Seq<char>) -> int {
    if f.len() >= 9 {
        decimal_value(f.subrange(0, 9))
    } else {
        decimal_value(f) * power_of_ten((9 - f.len()) as nat)
    }
}

/// Decimal digits write a number below ten to their count.
pub(crate) proof fn lemma_decimal_value_bound(digits: Seq<char>)
    requires
        all_digits(digits),
    ensures
        0 <= decimal_value(digits) < power_of_ten(digits.len()),
    decreases digits.len(),
{
    if digits.len() > 0 {
        let front = digits.drop_last();
        assert forall|i: int| 0 <= i < front.len() implies is_digit(#[trigger] front[i]) by {
            assert(front[i] == digits[i]);
        }
        lemma_decimal_value_bound(front);
    }
}

/// The digits of a fraction write less than a second.
pub(crate) proof fn lemma_fraction_nanos(f: Seq<char>)
    requires
        all_digits(f),
    ensures
        0 <= fraction_nanos(f) < SECOND_NANOS,
{
    reveal_with_fuel(power_of_ten, 10);
    if f.len() >= 9 {
        let head = f.subrange(0, 9);
        assert forall|i: int| 0 <= i < head.len() implies is_digit(#[trigger] head[i]) by {
            assert(head[i] == f[i]);
        }
        lemma_decimal_value_bound(head);
    } else {
        lemma_decimal_value_bound(f);
        let value = decimal_value(f);
        let below = power_of_ten(f.len());
        let scale = power_of_ten((9 - f.len()) as nat);
        assert(power_of_ten(0) == 1);
        assert(power_of_ten(1) == 10);
        assert(power_of_ten(2) == 100);
        assert(power_of_ten(3) == 1_000);
        assert(power_of_ten(4) == 10_000);
        assert(power_of_ten(5) == 100_000);
        assert(power_of_ten(6) == 1_000_000);
        assert(power_of_ten(7) == 10_000_000);
        assert(power_of_ten(8) == 100_000_000);
        assert(power_of_ten(9) == 1_000_000_000);
        let k = f.len();
        assert(below * scale == 1_000_000_000 && scale >= 1) by {
            if k == 0 {
            } else if k == 1 {
            } else if k == 2 {
            } else if k == 3 {
            } else if k == 4 {
            } else if k == 5 {
            } else if k == 6 {
            } else if k == 7 {
            } else {
                assert(k == 8);
            }
        }
        assert(0 <= value * scale <= (below - 1) * scale) by (nonlinear_arith)
            requires
                0 <= value <= below - 1,
                scale >= 1,
        ;
        assert((below - 1) * scale == below * scale - scale) by (nonlinear_arith);
    }
}

/// The time of a time text is a time of day, with a leap second only at
/// second 59.
pub(crate) proof fn lemma_time_of_text(t: Seq<char>)
    requires
        is_time_text(t),
    ensures
        time_of_text(t) matches Some(time) ==> time.wf() && time.is_plain(),
{
    let h = hour_width(t);
    if t.len() > h + 6 {
        lemma_fraction_nanos(t.subrange(h + 7, t.len() as int));
    }
}

/// The time that a time text writes, if its numbers are in range. Second
/// 60 is read as a leap second.
pub open spec fn time_of_text(t: Seq<char>) -> Option<TimeView> {
    let h = hour_width(t);
    let hour = if h == 2 {
        two_at(t, 0)
    } else {
        digit_value(t[0])
    };
    let minute = two_at(t, h + 1);
    let second = if t.len() > h + 3 {
        two_at(t, h + 4)
    } else {
        0
    };
    let nanos = if t.len() > h + 6 {
        fraction_nanos(t.subrange(h + 7, t.len() as int))
    } else {
        0
    };
    if hour > 23 || minute > 59 || second > 60 {
        None
    } else if second == 60 {
        Some(TimeView { hour, minute, second: 59, nanosecond: nanos + SECOND_NANOS })
    } else {
        Some(TimeView { hour, minute, second, nanosecond: nanos })
    }
}

/// The pattern by which a time text is read.
pub open spec fn time_pattern(t: Seq<char>) -> Seq<char> {
    if time_text_has_seconds(t) {
        "%H:%M:%S%.f"@
    } else {
        "%H:%M"@
    }
}

/// `t` has the shape `+hh:mm` or `+hhmm`, with either sign.
pub open spec fn is_offset_text(t: Seq<char>) -> bool {
    &&& t.len() == 5 || t.len() == 6
    &&& t[0] == '+' || t[0] == '-'
    &&& two_digits_at(t, 1)
    &&& t.len() == 6 ==> t[3] == ':'
    &&& two_digits_at(t, t.len() - 2)
}

/// The seconds east of UTC that an offset text writes, if that is less
/// than a day and the minutes are below sixty.
pub open spec fn offset_of_text(t: Seq<char>) -> Option<int> {
    let hours = two_at(t, 1);
    let minutes = two_at(t, t.len() - 2);
    let seconds = hours * 3600 + minutes * 60;
    if minutes > 59 || seconds >= DAY_SECONDS {
        None
    } else if t[0] == '-' {
        Some(-seconds)
    } else {
        Some(seconds)
    }
}

/// Whether the time zone database knows a zone by this name.
pub uninterp spec fn is_zone_name(name: Seq<char>) -> bool;

/// The seconds east of UTC of the zone `name` when its clocks show the
/// given day and second of that day; where they show it twice, at the
/// earlier of the two instants. `None` where they never show it.
pub uninterp spec fn zone_offset_seconds(
    name: Seq<char>,
    year: int,
    month: int,
    day: int,
    second_of_day: int,
) -> Option<int>;

// ---------------------------------------------------------------------------
// Text forms that are written
// ---------------------------------------------------------------------------

/// A year as text: four digits for the years 0 to 9999, else a sign and at
/// least four digits.
pub open spec fn year_text(year: int) -> Seq<char> {
    if 0 <= year <= 9999 {
        decimal_digits(year, 4)
    } else if year < 0 {
        seq!['-'] + decimal_digits(-year, year_width(-year))
    } else {
        seq!['+'] + decimal_digits(year, year_width(year))
    }
}

/// The number of digits with which a year outside 0 to 9999 is written.
pub open spec fn year_width(magnitude: int) -> nat {
    if magnitude < 10000 {
        4
    } else if magnitude < 100000 {
        5
    } else {
        6
    }
}

/// `YYYY-MM-DD`.
pub open spec fn date_text(date: DateView) -> Seq<char> {
    year_text(date.year) + seq!['-'] + decimal_digits(date.month, 2) + seq!['-'] + decimal_digits(
        date.day,
        2,
    )
}

/// `HH:MM:SS`, a leap second written as second 60. Fractions of a second
/// are not written.
pub open spec fn time_text(time: TimeView) -> Seq<char> {
    decimal_digits(time.hour, 2) + seq![':'] + decimal_digits(time.minute, 2) + seq![':']
        + decimal_digits(time.second + time.nanosecond / (SECOND_NANOS as int), 2)
}

/// `YYYY-MM-DDTHH:MM:SS.mmmZ`: the date and time with the milliseconds and
/// the mark of UTC.
pub open spec fn date_time_text(instant: DateTimeView) -> Seq<char> {
    date_text(instant.date) + seq!['T'] + time_text(instant.time) + seq!['.'] + decimal_digits(
        (instant.time.nanosecond % (SECOND_NANOS as int)) / 1_000_000,
        3,
    ) + seq!['Z']
}

// ---------------------------------------------------------------------------
// The types
// ---------------------------------------------------------------------------

/// A calendar date without a time or a zone.
#[derive(Clone, Copy, Debug, PartialEq, Eq)]
pub struct Date {
    year: i32,
    month: u8,
    day: u8,
}

/// A time of day without a date or a zone.
#[derive(Clone, Copy, Debug, PartialEq, Eq)]
pub struct Time {
    hour: u8,
    minute: u8,
    second: u8,
    nanosecond: u32,
}

/// An instant, held as the date and time in UTC.
#[derive(Clone, Copy, Debug, PartialEq, Eq)]
pub struct DateTime {
    date: Date,
    time: Time,
}

impl View for Date {
    type V = DateView;

    closed spec fn view(&self) -> DateView {
        DateView { year: self.year as int, month: self.month as int, day: self.day as int }
    }
}

impl View for Time {
    type V = TimeView;

    closed spec fn view(&self) -> TimeView {
        TimeView {
            hour: self.hour as int,
            minute: self.minute as int,
            second: self.second as int,
            nanosecond: self.nanosecond as int,
        }
    }
}

impl View for DateTime {
    type V = DateTimeView;

    closed spec fn view(&self) -> DateTimeView {
        DateTimeView { date: self.date@, time: self.time@ }
    }
}

/// Whether `year` is a leap year.
fn leap_year(year: i32) -> (r: bool)
    requires
        MIN_YEAR <= year <= MAX_YEAR,
    ensures
        r == is_leap_year(year as int),
{
    // 262400 is a multiple of 400 that lifts every year above zero.
    let lifted: u32 = (year + 262400) as u32;
    assert(lifted as int == year + 262400);
    assert(lifted as int % 4 == 0 <==> (year as int) % 4 == 0);
    assert(lifted as int % 100 == 0 <==> (year as int) % 100 == 0);
    assert(lifted as int % 400 == 0 <==> (year as int) % 400 == 0);
    lifted % 4 == 0 && (lifted % 100 != 0 || lifted % 400 == 0)
}

/// The number of days of a month.
fn month_days(year: i32, month: u32) -> (r: u32)
    requires
        MIN_YEAR <= year <= MAX_YEAR,
    ensures
        r == days_in_month(year as int, month as int),
{
    if month == 2 {
        if leap_year(year) {
            29
        } else {
            28
        }
    } else if month == 4 || month == 6 || month == 9 || month == 11 {
        30
    } else {
        31
    }
}

impl Date {
    /// Every value of the type is well formed.
    #[verifier::type_invariant]
    pub open spec fn inv(self) -> bool {
        self@.wf()
    }

    /// The date of the given year, month and day, where the calendar has it.
    pub fn from_ymd_opt(year: i32, month: u32, day: u32) -> (r: Option<Date>)
        ensures
            match r {
                Some(d) => d@ == (DateView { year: year as int, month: month as int, day: day as int })
                    && d@.wf(),
                None => !(DateView { year: year as int, month: month as int, day: day as int }).wf(),
            },
    {
        if year < MIN_YEAR || year > MAX_YEAR || month < 1 || month > 12 || day < 1 {
            return None;
        }
        if day > month_days(year, month) {
            return None;
        }
        Some(Date { year, month: month as u8, day: day as u8 })
    }

    /// The year.
    pub fn year(&self) -> (r: i32)
        ensures
            r == self@.year,
    {
        self.year
    }

    /// The month, from 1.
    pub fn month(&self) -> (r: u32)
        ensures
            r == self@.month,
    {
        self.month as u32
    }

    /// The day of the month, from 1.
    pub fn day(&self) -> (r: u32)
        ensures
            r == self@.day,
    {
        self.day as u32
    }

}

impl Time {
    /// Every value of the type is well formed.
    #[verifier::type_invariant]
    pub open spec fn inv(self) -> bool {
        self@.wf()
    }

    /// The time of the given hour, minute and second.
    pub fn from_hms_opt(hour: u32, minute: u32, second: u32) -> (r: Option<Time>)
        ensures
            match r {
                Some(t) => t@ == (TimeView {
                    hour: hour as int,
                    minute: minute as int,
                    second: second as int,
                    nanosecond: 0,
                }) && t@.wf(),
                None => hour >= 24 || minute >= 60 || second >= 60,
            },
    {
        Time::from_hms_nano_opt(hour, minute, second, 0)
    }

    /// The time of the given hour, minute, second and nanosecond. A leap
    /// second is a nanosecond count from `SECOND_NANOS` up, at second 59.
    pub fn from_hms_nano_opt(hour: u32, minute: u32, second: u32, nanosecond: u32) -> (r: Option<
        Time,
    >)
        ensures
            match r {
                Some(t) => t@ == (TimeView {
                    hour: hour as int,
                    minute: minute as int,
                    second: second as int,
                    nanosecond: nanosecond as int,
                }) && t@.wf() && t@.is_plain(),
                None => hour >= 24 || minute >= 60 || second >= 60 || nanosecond >= 2
                    * SECOND_NANOS || (nanosecond >= SECOND_NANOS && second != 59),
            },
    {
        if hour >= 24 || minute >= 60 || second >= 60 || nanosecond >= 2 * SECOND_NANOS {
            return None;
        }
        if nanosecond >= SECOND_NANOS && second != 59 {
            return None;
        }
        Some(Time { hour: hour as u8, minute: minute as u8, second: second as u8, nanosecond })
    }

    /// The hour.
    pub fn hour(&self) -> (r: u32)
        ensures
            r == self@.hour,
    {
        self.hour as u32
    }

    /// The minute.
    pub fn minute(&self) -> (r: u32)
        ensures
            r == self@.minute,
    {
        self.minute as u32
    }

    /// The second.
    pub fn second(&self) -> (r: u32)
        ensures
            r == self@.second,
    {
        self.second as u32
    }

    /// The nanoseconds; from `SECOND_NANOS` up in a leap second.
    pub fn nanosecond(&self) -> (r: u32)
        ensures
            r == self@.nanosecond,
    {
        self.nanosecond
    }

}

impl DateTime {
    /// The instant at which a clock in UTC shows `date` and `time`.
    pub fn new(date: Date, time: Time) -> (r: DateTime)
        ensures
            r@ == (DateTimeView { date: date@, time: time@ }),
    {
        DateTime { date, time }
    }

    /// The instant at which a clock in UTC shows the given date and time.
    pub fn from_ymd_and_hms(
        year: i32,
        month: u32,
        day: u32,
        hour: u32,
        minute: u32,
        second: u32,
    ) -> (r: Option<DateTime>)
        ensures
            match r {
                Some(dt) => dt@ == (DateTimeView {
                    date: DateView { year: year as int, month: month as int, day: day as int },
                    time: TimeView {
                        hour: hour as int,
                        minute: minute as int,
                        second: second as int,
                        nanosecond: 0,
                    },
                }) && dt@.wf(),
                None => !(DateView { year: year as int, month: month as int, day: day as int }).wf()
                    || hour >= 24 || minute >= 60 || second >= 60,
            },
    {
        match Date::from_ymd_opt(year, month, day) {
            Some(date) => match Time::from_hms_opt(hour, minute, second) {
                Some(time) => Some(DateTime { date, time }),
                None => None,
            },
            None => None,
        }
    }

    /// The date that a clock in UTC shows at this instant.
    pub fn date(&self) -> (r: Date)
        ensures
            r@ == self@.date,
    {
        self.date
    }

    /// The time that a clock in UTC shows at this instant.
    pub fn time(&self) -> (r: Time)
        ensures
            r@ == self@.time,
    {
        self.time
    }

}

// ---------------------------------------------------------------------------
// Reading through chrono
// ---------------------------------------------------------------------------

/// `chrono::NaiveDate::parse_from_str` with the pattern `%Y-%m-%d`. On a
/// text of the shape `dddd-dd-dd` it reads the three numbers and gives the
/// date where the calendar has that day, and fails otherwise.
#[verifier::external_body]
pub(crate) fn date_from_text(text: &str) -> (r: Option<Date>)
    requires
        is_date_text(text@),
    ensures
        match r {
            Some(d) => date_of_text(text@) == Some(d@),
            None => date_of_text(text@) is None,
        },
{
    let date = chrono::NaiveDate::parse_from_str(text, "%Y-%m-%d").ok()?;
    Some(Date { year: date.year(), month: date.month() as u8, day: date.day() as u8 })
}

/// `chrono::NaiveTime::parse_from_str`. On a time text read by the pattern
/// that fits it, it gives the time where the hour is below 24, the minute
/// below 60 and the second at most 60, and fails otherwise; second 60
/// comes back as a leap second at second 59, and of a fraction the first
/// nine digits count.
#[verifier::external_body]
pub(crate) fn time_from_text(text: &str, pattern: &str) -> (r: Option<Time>)
    requires
        is_time_text(text@),
        pattern@ == time_pattern(text@),
    ensures
        match r {
            Some(t) => time_of_text(text@) == Some(t@),
            None => time_of_text(text@) is None,
        },
{
    let time = chrono::NaiveTime::parse_from_str(text, pattern).ok()?;
    Some(
        Time {
            hour: time.hour() as u8,
            minute: time.minute() as u8,
            second: time.second() as u8,
            nanosecond: time.nanosecond(),
        },
    )
}

/// `FromStr` of `chrono::FixedOffset`. On an offset text it gives the
/// seconds east of UTC where the minutes are below 60 and the whole is
/// less than a day, and fails otherwise.
#[verifier::external_body]
pub(crate) fn offset_from_text(text: &str) -> (r: Option<i32>)
    requires
        is_offset_text(text@),
    ensures
        match r {
            Some(seconds) => offset_of_text(text@) == Some(seconds as int),
            None => offset_of_text(text@) is None,
        },
{
    let offset: chrono::FixedOffset = text.parse().ok()?;
    Some(offset.local_minus_utc())
}

/// `FromStr` of `chrono_tz::Tz`: whether the time zone database that is
/// built into the program has a zone of this name.
#[verifier::external_body]
pub(crate) fn zone_is_known(name: &str) -> (r: bool)
    ensures
        r == is_zone_name(name@),
{
    name.parse::<chrono_tz::Tz>().is_ok()
}

/// `offset_from_local_datetime` of `chrono_tz::Tz`, and of its answer the
/// earliest: the offset of a known zone at a local date and time. An
/// offset is always less than a day.
#[verifier::external_body]
pub(crate) fn zone_offset_at(name: &str, date: Date, time: Time) -> (r: Option<i32>)
    requires
        is_zone_name(name@),
        date@.wf(),
        time@.wf(),
    ensures
        match r {
            Some(seconds) => zone_offset_seconds(
                name@,
                date@.year,
                date@.month,
                date@.day,
                time@.second_of_day(),
            ) == Some(seconds as int) && -DAY_SECONDS < seconds < DAY_SECONDS,
            None => zone_offset_seconds(
                name@,
                date@.year,
                date@.month,
                date@.day,
                time@.second_of_day(),
            ) is None,
        },
{
    let zone: chrono_tz::Tz = name.parse().ok()?;
    let local = chrono::NaiveDate::from_ymd_opt(date.year, date.month as u32, date.day as u32)?
        .and_hms_opt(time.hour as u32, time.minute as u32, time.second as u32)?;
    let offset = zone.offset_from_local_datetime(&local).earliest()?;
    Some(offset.fix().local_minus_utc())
}

/// `and_local_timezone` of `chrono::NaiveDateTime` with a fixed offset,
/// then `naive_utc`: the date and time in UTC of a local date and time. The
/// offset in seconds is taken from the seconds of the day, which may move
/// the date by one day; the nanoseconds stay. It fails only where the
/// year leaves the range.
#[verifier::external_body]
pub(crate) fn utc_from_local(date: Date, time: Time, offset: i32) -> (r: Option<DateTime>)
    requires
        date@.wf(),
        time@.wf(),
        time@.is_plain(),
        -DAY_SECONDS < offset < DAY_SECONDS,
    ensures
        match r {
            Some(dt) => utc_of_local(date@, time@, offset as int) == Some(dt@),
            None => utc_of_local(date@, time@, offset as int) is None,
        },
{
    let local = chrono::NaiveDate::from_ymd_opt(date.year, date.month as u32, date.day as u32)?
        .and_hms_nano_opt(time.hour as u32, time.minute as u32, time.second as u32, time.nanosecond)?;
    let utc = local.and_local_timezone(chrono::FixedOffset::east_opt(offset)?).earliest()?.naive_utc();
    Some(
        DateTime {
            date: Date { year: utc.year(), month: utc.month() as u8, day: utc.day() as u8 },
            time: Time {
                hour: utc.hour() as u8,
                minute: utc.minute() as u8,
                second: utc.second() as u8,
                nanosecond: utc.nanosecond(),
            },
        },
    )
}

} // verus!
