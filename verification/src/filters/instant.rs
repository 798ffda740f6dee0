//! Instants as seconds on one line of time: what it means that two local
//! dates and times with their offsets are the same instant.

use crate::filters::temporal::{
    days_in_month, is_leap_year, moved_to_utc, DateTimeView, DateView, TimeView, DAY_SECONDS,
};
use vstd::prelude::*;

verus! {

/// The number of leap years from the year 0 up to, and without, `year`;
/// negative before the year 0.
pub open spec fn leap_years_before(year: int) -> int {
    (year + 3) / 4 - (year + 99) / 100 + (year + 399) / 400
}

/// The number of days from the first day of the year 0 up to the first
/// day of `year`.
pub open spec fn days_before_year(year: int) -> int {
    365 * year + leap_years_before(year)
}

/// The number of days of `year` before its month `month`.
pub open spec fn days_before_month(year: int, month: int) -> int {
    (if month <= 1 {
        0int
    } else if month == 2 {
        31
    } else if month == 3 {
        59
    } else if month == 4 {
        90
    } else if month == 5 {
        120
    } else if month == 6 {
        151
    } else if month == 7 {
        181
    } else if month == 8 {
        212
    } else if month == 9 {
        243
    } else if month == 10 {
        273
    } else if month == 11 {
        304
    } else {
        334
    }) + (if month > 2 && is_leap_year(year) {
        1int
    } else {
        0
    })
}

/// The date is a day of the calendar, in whatever year.
pub open spec fn is_calendar_day(date: DateView) -> bool {
    1 <= date.month <= 12 && 1 <= date.day <= days_in_month(date.year, date.month)
}

/// The number of the day: the days from the first day of the year 0 up to
/// the date.
pub open spec fn day_number(date: DateView) -> int {
    days_before_year(date.year) + days_before_month(date.year, date.month) + date.day - 1
}

/// The seconds from the first midnight of the year 0 up to the date and
/// time, a leap second counted with the second before it.
pub open spec fn seconds_on_the_line(date: DateView, time: TimeView) -> int {
    day_number(date) * DAY_SECONDS + time.second_of_day()
}

/// Counting the multiples of four steps up after a multiple of four.
proof fn lemma_step_4(year: int)
    ensures
        (year + 4) / 4 - (year + 3) / 4 == (if year % 4 == 0 {
            1int
        } else {
            0
        }),
{
}

/// Counting the multiples of a hundred steps up after a multiple of a
/// hundred.
proof fn lemma_step_100(year: int)
    ensures
        (year + 100) / 100 - (year + 99) / 100 == (if year % 100 == 0 {
            1int
        } else {
            0
        }),
{
}

/// Counting the multiples of four hundred steps up after a multiple of
/// four hundred.
proof fn lemma_step_400(year: int)
    ensures
        (year + 400) / 400 - (year + 399) / 400 == (if year % 400 == 0 {
            1int
        } else {
            0
        }),
{
}

/// A multiple of four hundred is one of a hundred, and that one of four.
proof fn lemma_multiples(year: int)
    ensures
        year % 400 == 0 ==> year % 100 == 0,
        year % 100 == 0 ==> year % 4 == 0,
{
}

/// The count of leap years steps up after a leap year.
proof fn lemma_leap_step(year: int)
    ensures
        leap_years_before(year + 1) == leap_years_before(year) + (if is_leap_year(year) {
            1int
        } else {
            0
        }),
{
    lemma_step_4(year);
    lemma_step_100(year);
    lemma_step_400(year);
    lemma_multiples(year);
}

/// A year is 365 days long, and a leap year 366.
pub(crate) proof fn lemma_year_length(year: int)
    ensures
        days_before_year(year + 1) == days_before_year(year) + (if is_leap_year(year) {
            366int
        } else {
            365
        }),
{
    lemma_leap_step(year);
}

/// Later years begin later, by at least 365 days a year.
pub(crate) proof fn lemma_years_apart(from: int, to: int)
    requires
        from <= to,
    ensures
        days_before_year(to) >= days_before_year(from) + 365 * (to - from),
    decreases to - from,
{
    if from < to {
        lemma_years_apart(from, to - 1);
        lemma_year_length(to - 1);
    }
}

/// The day after a day has the next number.
pub(crate) proof fn lemma_next_day(date: DateView)
    requires
        is_calendar_day(date),
    ensures
        is_calendar_day(date.next_day()),
        day_number(date.next_day()) == day_number(date) + 1,
{
    lemma_year_length(date.year);
}

/// The day before a day has the number before.
pub(crate) proof fn lemma_previous_day(date: DateView)
    requires
        is_calendar_day(date),
    ensures
        is_calendar_day(date.previous_day()),
        day_number(date.previous_day()) == day_number(date) - 1,
{
    lemma_year_length(date.year - 1);
}

/// Two days of the calendar with the same number are the same day.
pub(crate) proof fn lemma_day_number_one_to_one(first: DateView, second: DateView)
    requires
        is_calendar_day(first),
        is_calendar_day(second),
        day_number(first) == day_number(second),
    ensures
        first == second,
{
    let a = days_before_month(first.year, first.month) + first.day - 1;
    let b = days_before_month(second.year, second.month) + second.day - 1;
    lemma_year_length(first.year);
    lemma_year_length(second.year);
    assert(0 <= a < days_before_year(first.year + 1) - days_before_year(first.year));
    assert(0 <= b < days_before_year(second.year + 1) - days_before_year(second.year));
    if first.year < second.year {
        lemma_years_apart(first.year + 1, second.year);
        assert(false);
    }
    if second.year < first.year {
        lemma_years_apart(second.year + 1, first.year);
        assert(false);
    }
    assert(a == b);
    assert(first.month == second.month);
}

/// Moving a local date and time to UTC takes the offset from its seconds
/// on the line of time, and keeps the fraction of the second.
pub(crate) proof fn lemma_moved_to_utc(date: DateView, time: TimeView, offset: int)
    requires
        is_calendar_day(date),
        time.wf(),
        -DAY_SECONDS < offset < DAY_SECONDS,
    ensures
        ({
            let moved = moved_to_utc(date, time, offset);
            &&& is_calendar_day(moved.date)
            &&& moved.time.wf()
            &&& moved.time.nanosecond == time.nanosecond
            &&& seconds_on_the_line(moved.date, moved.time) == seconds_on_the_line(date, time)
                - offset
        }),
{
    let seconds = time.second_of_day() - offset;
    let within = if seconds < 0 {
        seconds + DAY_SECONDS
    } else if seconds >= DAY_SECONDS {
        seconds - DAY_SECONDS
    } else {
        seconds
    };
    assert(0 <= within < 86400);
    lemma_time_at(time, within);
    if seconds < 0 {
        lemma_previous_day(date);
    } else if seconds >= DAY_SECONDS {
        lemma_next_day(date);
    }
}

/// The time at a second of the day is a time of day at that second.
pub(crate) proof fn lemma_time_at(time: TimeView, seconds: int)
    requires
        time.wf(),
        0 <= seconds < 86400,
    ensures
        time.at_second_of_day(seconds).wf(),
        time.at_second_of_day(seconds).second_of_day() == seconds,
{
    let h = seconds / 3600;
    let m = (seconds / 60) % 60;
    let x = seconds % 60;
    assert(0 <= h < 24);
    assert(seconds / 60 == h * 60 + m) by {
        assert((seconds / 60) / 60 == seconds / 3600);
    }
    assert(seconds == (seconds / 60) * 60 + x);
}

/// Two times of day at the same second with the same fraction are the
/// same time.
pub(crate) proof fn lemma_time_one_to_one(first: TimeView, second: TimeView)
    requires
        first.wf(),
        second.wf(),
        first.second_of_day() == second.second_of_day(),
        first.nanosecond == second.nanosecond,
    ensures
        first == second,
{
    let a = first.minute * 60 + first.second;
    let b = second.minute * 60 + second.second;
    assert(0 <= a < 3600 && 0 <= b < 3600);
    assert(first.hour * 3600 + a == second.hour * 3600 + b);
    assert(first.hour == second.hour);
    assert(first.minute == second.minute);
}

/// Two instants in UTC at the same second on the line of time, with the
/// same fraction, are the same date and time.
pub(crate) proof fn lemma_instant_one_to_one(first: DateTimeView, second: DateTimeView)
    requires
        is_calendar_day(first.date),
        is_calendar_day(second.date),
        first.time.wf(),
        second.time.wf(),
        first.time.nanosecond == second.time.nanosecond,
        seconds_on_the_line(first.date, first.time) == seconds_on_the_line(
            second.date,
            second.time,
        ),
    ensures
        first == second,
{
    let a = first.time.second_of_day();
    let b = second.time.second_of_day();
    assert(0 <= a < 86400 && 0 <= b < 86400);
    assert(day_number(first.date) * 86400 + a == day_number(second.date) * 86400 + b);
    assert(day_number(first.date) == day_number(second.date));
    lemma_day_number_one_to_one(first.date, second.date);
    lemma_time_one_to_one(first.time, second.time);
}

} // verus!
