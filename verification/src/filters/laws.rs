//! Laws of the grammar and of the canonical text.

use crate::filters::ast::ExprView;
use crate::filters::error::Error;
use crate::filters::failures::lemma_filter_failure;
use crate::filters::grammar::{filter, parse};
use crate::filters::instant::{lemma_instant_one_to_one, lemma_moved_to_utc, seconds_on_the_line};
use crate::filters::literal::{date_time_value, zone_offset, ZoneMark};
use crate::filters::round_trip::{is_filter_tree, lemma_filter};
use crate::filters::temporal::{
    date_of_text, is_offset_text, moved_to_utc, time_of_text, two_at, utc_of_local, DateTimeView,
    DateView, TimeView, DAY_SECONDS,
};
use crate::filters::text::{lemma_skip_spaces_within, skip_spaces};
use crate::filters::to_query_string::expr_text;
use vstd::prelude::*;

verus! {

/// Two date-time literals with the same date and time, whose zone marks
/// give the same offset from UTC at that date and time, write the same
/// instant: it does not matter whether the offset is written as `Z`, as a
/// signed offset in one of its forms, or as the name of a zone.
pub proof fn lemma_same_offset_same_instant(
    date: Seq<char>,
    time: Seq<char>,
    first: ZoneMark,
    second: ZoneMark,
)
    requires
        date_of_text(date) is Some,
        time_of_text(time) is Some,
        zone_offset(first, date_of_text(date)->0, time_of_text(time)->0) == zone_offset(
            second,
            date_of_text(date)->0,
            time_of_text(time)->0,
        ),
    ensures
        date_time_value(date, time, first) == date_time_value(date, time, second),
{
}

/// The instant of a date-time literal is that of its date and time, moved
/// by the offset of its zone mark.
pub proof fn lemma_instant_of_offset(date: Seq<char>, time: Seq<char>, mark: ZoneMark, offset: int)
    requires
        date_of_text(date) is Some,
        time_of_text(time) is Some,
        zone_offset(mark, date_of_text(date)->0, time_of_text(time)->0) == Ok::<int, Error>(offset),
    ensures
        date_time_value(date, time, mark) == (match utc_of_local(
            date_of_text(date)->0,
            time_of_text(time)->0,
            offset,
        ) {
            Some(instant) => Ok::<DateTimeView, Error>(instant),
            None => Err::<DateTimeView, Error>(Error::ParsingDateTime),
        }),
{
}

/// `Z` and every signed offset of zero hours and zero minutes, with
/// either sign and with or without the colon, write the same offset:
/// zero.
pub proof fn lemma_zero_offsets(mark: ZoneMark, date: DateView, time: TimeView)
    requires
        mark is Utc || (mark matches ZoneMark::Offset(text) && is_offset_text(text) && two_at(
            text,
            1,
        ) == 0 && two_at(text, text.len() - 2) == 0),
    ensures
        zone_offset(mark, date, time) == Ok::<int, Error>(0),
{
}

/// Reading back: the canonical text of a tree is read as that tree,
/// for every tree that the canonical text can express. Those are the
/// filter trees: their names are names of the grammar that do not begin
/// with `not`, but for `not` and one letter, and identifiers do not begin
/// like a keyword; their literals are written in full by their text;
/// comparisons and list tests hold value expressions where the grammar
/// reads one; and no negation is the left operand of an `and` or `or`.
pub proof fn lemma_canonical_text_is_read_back(e: ExprView)
    requires
        is_filter_tree(e),
    ensures
        parse(expr_text(e)) == Ok::<ExprView, Error>(e),
{
    let s = expr_text(e);
    assert(s.subrange(0, s.len() as int) =~= s);
    assert(skip_spaces(s, s.len() as int) == s.len());
    lemma_filter(e, s, 0);
    assert(skip_spaces(s, 0) == 0);
    let found = filter(s, 0)->0;
    lemma_skip_spaces_within(s, s.len() as int, found.end);
}

/// A text is refused either because it does not follow the grammar, or
/// as a literal in it that writes no value: a date, a time, an instant,
/// an offset, a zone name or an escape. A number and an identifier of 128
/// bits that the grammar finds are always read.
pub proof fn lemma_failures_of_parse(s: Seq<char>)
    ensures
        parse(s) matches Err(e) ==> e == Error::Parsing || e.is_of_literal(),
{
    lemma_filter_failure(s, skip_spaces(s, 0));
}

/// The same instant is the same value: two local dates and times, each
/// with its offset from UTC, that stand at the same second on the line of
/// time once their offsets are taken off, and that have the same fraction
/// of a second, give the same instant in UTC.
pub proof fn lemma_same_instant_same_value(
    first_date: DateView,
    first_time: TimeView,
    first_offset: int,
    second_date: DateView,
    second_time: TimeView,
    second_offset: int,
)
    requires
        first_date.wf(),
        first_time.wf(),
        -DAY_SECONDS < first_offset < DAY_SECONDS,
        second_date.wf(),
        second_time.wf(),
        -DAY_SECONDS < second_offset < DAY_SECONDS,
        first_time.nanosecond == second_time.nanosecond,
        seconds_on_the_line(first_date, first_time) - first_offset == seconds_on_the_line(
            second_date,
            second_time,
        ) - second_offset,
    ensures
        utc_of_local(first_date, first_time, first_offset) == utc_of_local(
            second_date,
            second_time,
            second_offset,
        ),
{
    lemma_moved_to_utc(first_date, first_time, first_offset);
    lemma_moved_to_utc(second_date, second_time, second_offset);
    lemma_instant_one_to_one(
        moved_to_utc(first_date, first_time, first_offset),
        moved_to_utc(second_date, second_time, second_offset),
    );
}

/// Two date-time literals that name the same instant write the same
/// value, however each names it: where both dates and times are read and
/// both zone marks give an offset, and the two stand at the same second on
/// the line of time with the same fraction of a second.
pub proof fn lemma_same_instant_same_literal(
    first_date: Seq<char>,
    first_time: Seq<char>,
    first_mark: ZoneMark,
    second_date: Seq<char>,
    second_time: Seq<char>,
    second_mark: ZoneMark,
)
    requires
        date_of_text(first_date) matches Some(d1) && time_of_text(first_time) matches Some(t1)
            && zone_offset(first_mark, d1, t1) matches Ok(o1) && date_of_text(second_date) matches Some(
            d2,
        ) && time_of_text(second_time) matches Some(t2) && zone_offset(second_mark, d2, t2) matches Ok(
            o2,
        ) && t1.wf() && t2.wf() && -DAY_SECONDS < o1 < DAY_SECONDS && -DAY_SECONDS < o2
            < DAY_SECONDS && t1.nanosecond == t2.nanosecond && seconds_on_the_line(d1, t1) - o1
            == seconds_on_the_line(d2, t2) - o2,
    ensures
        date_time_value(first_date, first_time, first_mark) == date_time_value(
            second_date,
            second_time,
            second_mark,
        ),
{
    let d1 = date_of_text(first_date)->0;
    let t1 = time_of_text(first_time)->0;
    let o1 = zone_offset(first_mark, d1, t1)->Ok_0;
    let d2 = date_of_text(second_date)->0;
    let t2 = time_of_text(second_time)->0;
    let o2 = zone_offset(second_mark, d2, t2)->Ok_0;
    lemma_same_instant_same_value(d1, t1, o1, d2, t2, o2);
}

} // verus!
