//! The literals of a filter: how each is recognised in a text and which
//! value it writes.

use crate::filters::ast::{Value, ValueView};
use crate::filters::error::Error;
use crate::filters::number::{
    canonical_number_text, lemma_number_text_end, number_end_from, number_text_end, Decimal,
};
use crate::filters::temporal::{
    date_from_text, date_of_text, is_date_text, is_offset_text, is_time_text, is_zone_name,
    lemma_time_of_text,
    offset_from_text, offset_of_text, time_from_text, time_of_text, two_digits_at, utc_from_local,
    utc_of_local, zone_is_known, zone_offset_at, zone_offset_seconds, Date, DateTime,
    DateTimeView, DateView, Time, TimeView, DAY_SECONDS,
};
use crate::filters::text::{
    digits_end, digits_end_from, hex_value, hex_value_of, is_digit, is_digit_char, is_hex_digit,
    is_hex_digit_char, is_letter, lemma_digits_end, lemma_run_end, run_end, run_end_from,
    CharClass,
};
use crate::filters::uuid::{is_hyphen_place, is_uuid_text, uuid_bytes_of_text, uuid_from_text, Uuid};
use vstd::prelude::*;
use vstd::string::StrSliceExecFns;
use vstd::string::StringExecFns;

verus! {

/// What a rule of the grammar found at a position: its value, or why the
/// text that it took writes none, and where it stopped.
pub ghost struct Parsed<T> {
    pub value: Result<T, Error>,
    pub end: int,
}

// ---------------------------------------------------------------------------
// Strings
// ---------------------------------------------------------------------------

/// The number that hexadecimal digits write.
pub open spec fn hex_number(digits: Seq<char>) -> int
    decreases digits.len(),
{
    if digits.len() == 0 {
        0
    } else {
        hex_number(digits.drop_last()) * 16 + hex_value(digits.last())
    }
}

/// `n` is a Unicode scalar value.
pub open spec fn is_scalar_value(n: int) -> bool {
    (0 <= n <= 0xD7FF) || (0xE000 <= n <= 0x10FFFF)
}

/// The character that the digits of a `\u` escape name: at most eight
/// digits, whose number is a scalar value.
pub open spec fn code_point(digits: Seq<char>) -> Result<char, Error> {
    if digits.len() <= 8 && is_scalar_value(hex_number(digits)) {
        Ok(hex_number(digits) as char)
    } else {
        Err(Error::ParsingUnicodeCodePoint)
    }
}

/// What an escape writes, read from the character after the backslash.
pub open spec fn escape(s: Seq<char>, pos: int) -> Option<Parsed<char>> {
    if !(0 <= pos < s.len()) {
        None
    } else if s[pos] == '\'' {
        Some(Parsed { value: Ok('\''), end: pos + 1 })
    } else if s[pos] == 'n' {
        Some(Parsed { value: Ok('\n'), end: pos + 1 })
    } else if s[pos] == 'r' {
        Some(Parsed { value: Ok('\r'), end: pos + 1 })
    } else if s[pos] == 't' {
        Some(Parsed { value: Ok('\t'), end: pos + 1 })
    } else if s[pos] == '\\' {
        Some(Parsed { value: Ok('\\'), end: pos + 1 })
    } else if s[pos] == 'u' && run_end(s, pos + 1, CharClass::Hex) > pos + 1 {
        let end = run_end(s, pos + 1, CharClass::Hex);
        Some(Parsed { value: code_point(s.subrange(pos + 1, end)), end })
    } else {
        None
    }
}

/// One character of a string literal: an escape, or any character but the
/// quote. A backslash that begins no escape stands for itself.
pub open spec fn string_item(s: Seq<char>, pos: int) -> Option<Parsed<char>> {
    if !(0 <= pos < s.len()) {
        None
    } else if s[pos] == '\\' && escape(s, pos + 1) is Some {
        escape(s, pos + 1)
    } else if s[pos] == '\'' {
        None
    } else {
        Some(Parsed { value: Ok(s[pos]), end: pos + 1 })
    }
}

/// A character before the rest of a text, or the first failure of the two.
pub open spec fn character_then(
    first: Result<char, Error>,
    rest: Result<Seq<char>, Error>,
) -> Result<Seq<char>, Error> {
    match first {
        Err(e) => Err(e),
        Ok(c) => match rest {
            Err(e) => Err(e),
            Ok(cs) => Ok(seq![c] + cs),
        },
    }
}

/// The characters of a string literal from `pos` up to the quote that
/// ends it, or to the end of the text.
pub open spec fn string_items(s: Seq<char>, pos: int) -> Parsed<Seq<char>>
    decreases s.len() - pos,
{
    match string_item(s, pos) {
        Some(item) if pos < item.end <= s.len() => {
            let rest = string_items(s, item.end);
            Parsed { value: character_then(item.value, rest.value), end: rest.end }
        },
        _ => Parsed { value: Ok(Seq::empty()), end: pos },
    }
}

/// A string literal: a quote, characters, a quote.
pub open spec fn string_literal(s: Seq<char>, pos: int) -> Option<Parsed<ValueView>> {
    if 0 <= pos < s.len() && s[pos] == '\'' {
        let body = string_items(s, pos + 1);
        if 0 <= body.end < s.len() && s[body.end] == '\'' {
            Some(
                Parsed {
                    value: match body.value {
                        Ok(text) => Ok(ValueView::String(text)),
                        Err(e) => Err(e),
                    },
                    end: body.end + 1,
                },
            )
        } else {
            None
        }
    } else {
        None
    }
}

// ---------------------------------------------------------------------------
// Dates, times and instants
// ---------------------------------------------------------------------------

/// A date text stands at `pos`.
pub open spec fn date_at(s: Seq<char>, pos: int) -> bool {
    0 <= pos && pos + 10 <= s.len() && is_date_text(s.subrange(pos, pos + 10))
}

/// The end of the time text that starts at `pos`, if one does: the hour
/// takes two digits where it can, and seconds and a fraction are taken
/// where they follow.
pub open spec fn time_text_end(s: Seq<char>, pos: int) -> Option<int> {
    if !(0 <= pos < s.len() && is_digit(s[pos])) {
        None
    } else {
        let minutes = if pos + 1 < s.len() && is_digit(s[pos + 1]) {
            pos + 2
        } else {
            pos + 1
        };
        if !(minutes < s.len() && s[minutes] == ':' && two_digits_at(s, minutes + 1)) {
            None
        } else {
            let seconds = minutes + 3;
            if !(seconds < s.len() && s[seconds] == ':' && two_digits_at(s, seconds + 1)) {
                Some(seconds)
            } else {
                let fraction = seconds + 3;
                if fraction + 1 < s.len() && s[fraction] == '.' && is_digit(s[fraction + 1]) {
                    Some(digits_end(s, fraction + 1))
                } else {
                    Some(fraction)
                }
            }
        }
    }
}

/// How a date-time literal names its zone.
pub ghost enum ZoneMark {
    /// `Z`.
    Utc,
    /// A signed offset, written out as `+hh:mm` or `+hhmm`.
    Offset(Seq<char>),
    /// The name of a zone of the time zone database.
    Named(Seq<char>),
}

/// `c` may begin the name of a time zone.
pub open spec fn is_zone_start(c: char) -> bool {
    is_letter(c) || c == '-' || c == '_' || c == '/' || c == '+'
}

/// The zone mark that starts at `pos`, if one does, and its end. An offset
/// of hours alone is completed with `00` minutes.
pub open spec fn zone_mark(s: Seq<char>, pos: int) -> Option<(ZoneMark, int)> {
    if !(0 <= pos < s.len()) {
        None
    } else if s[pos] == 'Z' {
        Some((ZoneMark::Utc, pos + 1))
    } else if (s[pos] == '+' || s[pos] == '-') && two_digits_at(s, pos + 1) {
        if pos + 3 < s.len() && s[pos + 3] == ':' && two_digits_at(s, pos + 4) {
            Some((ZoneMark::Offset(s.subrange(pos, pos + 6)), pos + 6))
        } else if !(pos + 3 < s.len() && s[pos + 3] == ':') && two_digits_at(s, pos + 3) {
            Some((ZoneMark::Offset(s.subrange(pos, pos + 5)), pos + 5))
        } else {
            Some((ZoneMark::Offset(s.subrange(pos, pos + 3) + seq!['0', '0']), pos + 3))
        }
    } else if is_zone_start(s[pos]) && run_end(s, pos + 1, CharClass::Zone) > pos + 1 {
        let end = run_end(s, pos + 1, CharClass::Zone);
        Some((ZoneMark::Named(s.subrange(pos, end)), end))
    } else {
        None
    }
}

/// The seconds east of UTC of a zone mark at a local date and time.
pub open spec fn zone_offset(mark: ZoneMark, date: DateView, time: TimeView) -> Result<int, Error> {
    match mark {
        ZoneMark::Utc => Ok(0),
        ZoneMark::Offset(text) => match offset_of_text(text) {
            Some(seconds) => Ok(seconds),
            None => Err(Error::ParsingTimeZone),
        },
        ZoneMark::Named(name) => if !is_zone_name(name) {
            Err(Error::ParsingTimeZoneNamed)
        } else {
            match zone_offset_seconds(
                name,
                date.year,
                date.month,
                date.day,
                time.second_of_day(),
            ) {
                Some(seconds) => Ok(seconds),
                None => Err(Error::ParsingDateTime),
            }
        },
    }
}

/// The instant that a date text, a time text and a zone mark write. Of
/// several failures the first in this order is reported: the date, the
/// time, the zone mark, the instant.
pub open spec fn date_time_value(date: Seq<char>, time: Seq<char>, mark: ZoneMark) -> Result<
    DateTimeView,
    Error,
> {
    match date_of_text(date) {
        None => Err(Error::ParsingDate),
        Some(d) => match time_of_text(time) {
            None => Err(Error::ParsingTime),
            Some(t) => match zone_offset(mark, d, t) {
                Err(e) => Err(e),
                Ok(offset) => match utc_of_local(d, t, offset) {
                    Some(instant) => Ok(instant),
                    None => Err(Error::ParsingDateTime),
                },
            },
        },
    }
}

/// A date-time literal: a date, `T`, a time and a zone mark.
pub open spec fn date_time_literal(s: Seq<char>, pos: int) -> Option<Parsed<ValueView>> {
    if date_at(s, pos) && pos + 10 < s.len() && s[pos + 10] == 'T' {
        match time_text_end(s, pos + 11) {
            None => None,
            Some(time_end) => match zone_mark(s, time_end) {
                None => None,
                Some((mark, end)) => Some(
                    Parsed {
                        value: match date_time_value(
                            s.subrange(pos, pos + 10),
                            s.subrange(pos + 11, time_end),
                            mark,
                        ) {
                            Ok(instant) => Ok(ValueView::DateTime(instant)),
                            Err(e) => Err(e),
                        },
                        end,
                    },
                ),
            },
        }
    } else {
        None
    }
}

/// A date literal.
pub open spec fn date_literal(s: Seq<char>, pos: int) -> Option<Parsed<ValueView>> {
    if date_at(s, pos) {
        Some(
            Parsed {
                value: match date_of_text(s.subrange(pos, pos + 10)) {
                    Some(date) => Ok(ValueView::Date(date)),
                    None => Err(Error::ParsingDate),
                },
                end: pos + 10,
            },
        )
    } else {
        None
    }
}

/// A time literal.
pub open spec fn time_literal(s: Seq<char>, pos: int) -> Option<Parsed<ValueView>> {
    match time_text_end(s, pos) {
        Some(end) => Some(
            Parsed {
                value: match time_of_text(s.subrange(pos, end)) {
                    Some(time) => Ok(ValueView::Time(time)),
                    None => Err(Error::ParsingTime),
                },
                end,
            },
        ),
        None => None,
    }
}

// ---------------------------------------------------------------------------
// Identifiers, numbers and keywords
// ---------------------------------------------------------------------------

/// A UUID literal: the hyphenated form, in either case.
pub open spec fn uuid_literal(s: Seq<char>, pos: int) -> Option<Parsed<ValueView>> {
    if 0 <= pos && pos + 36 <= s.len() && is_uuid_text(s.subrange(pos, pos + 36)) {
        Some(
            Parsed {
                value: Ok(ValueView::Uuid(uuid_bytes_of_text(s.subrange(pos, pos + 36)))),
                end: pos + 36,
            },
        )
    } else {
        None
    }
}

/// A number literal: digits, and optionally a point and more digits.
pub open spec fn number_literal(s: Seq<char>, pos: int) -> Option<Parsed<ValueView>> {
    match number_text_end(s, pos) {
        Some(end) => Some(
            Parsed {
                value: Ok(ValueView::Number(canonical_number_text(s.subrange(pos, end)))),
                end,
            },
        ),
        None => None,
    }
}

/// `c` is the lower-case letter `letter`, or its capital.
pub open spec fn is_letter_of(c: char, letter: char) -> bool {
    c == letter || ('A' <= c <= 'Z' && c as int + 32 == letter as int)
}

/// The letters of `word`, each in either case, stand in `s` at `pos`.
pub open spec fn has_word_any_case(s: Seq<char>, pos: int, word: Seq<char>) -> bool {
    &&& 0 <= pos
    &&& pos + word.len() <= s.len()
    &&& forall|i: int| 0 <= i < word.len() ==> is_letter_of(#[trigger] s[pos + i], word[i])
}

/// `true` or `false`, in any mix of cases.
pub open spec fn bool_literal(s: Seq<char>, pos: int) -> Option<Parsed<ValueView>> {
    if has_word_any_case(s, pos, seq!['t', 'r', 'u', 'e']) {
        Some(Parsed { value: Ok(ValueView::Bool(true)), end: pos + 4 })
    } else if has_word_any_case(s, pos, seq!['f', 'a', 'l', 's', 'e']) {
        Some(Parsed { value: Ok(ValueView::Bool(false)), end: pos + 5 })
    } else {
        None
    }
}

/// `null`, in any mix of cases.
pub open spec fn null_literal(s: Seq<char>, pos: int) -> Option<Parsed<ValueView>> {
    if has_word_any_case(s, pos, seq!['n', 'u', 'l', 'l']) {
        Some(Parsed { value: Ok(ValueView::Null), end: pos + 4 })
    } else {
        None
    }
}

/// The literal that starts at `pos`, if one does. The kinds are tried in
/// this order: string, date-time, date, time, UUID, number, truth value,
/// null. The first whose shape is found there decides: where its text
/// writes no value, that failure is the result, and no later kind is
/// tried.
pub open spec fn literal(s: Seq<char>, pos: int) -> Option<Parsed<ValueView>> {
    if string_literal(s, pos) is Some {
        string_literal(s, pos)
    } else if date_time_literal(s, pos) is Some {
        date_time_literal(s, pos)
    } else if date_literal(s, pos) is Some {
        date_literal(s, pos)
    } else if time_literal(s, pos) is Some {
        time_literal(s, pos)
    } else if uuid_literal(s, pos) is Some {
        uuid_literal(s, pos)
    } else if number_literal(s, pos) is Some {
        number_literal(s, pos)
    } else if bool_literal(s, pos) is Some {
        bool_literal(s, pos)
    } else {
        null_literal(s, pos)
    }
}

/// `c` may begin an identifier.
pub open spec fn is_name_start(c: char) -> bool {
    is_letter(c) || c == '_'
}

/// The end of the identifier that starts at `pos`, if one does: a letter
/// or an underscore, and then one or more letters, digits and underscores.
pub open spec fn identifier_end(s: Seq<char>, pos: int) -> Option<int> {
    if 0 <= pos < s.len() && is_name_start(s[pos]) && run_end(s, pos + 1, CharClass::Name) > pos
        + 1 {
        Some(run_end(s, pos + 1, CharClass::Name))
    } else {
        None
    }
}

// ---------------------------------------------------------------------------
// Reading
// ---------------------------------------------------------------------------

/// What a reader returns stands for what the grammar finds.
pub open spec fn found<T: View>(
    r: Option<(Result<T, Error>, usize)>,
    m: Option<Parsed<T::V>>,
) -> bool {
    match r {
        None => m is None,
        Some((value, end)) => m matches Some(p) && p.end == end as int && match value {
            Ok(v) => p.value == Ok::<T::V, Error>(v@),
            Err(e) => p.value == Err::<T::V, Error>(e),
        },
    }
}

/// `std::string::String::push` puts one character at the end of a text.
pub assume_specification[ std::string::String::push ](text: &mut std::string::String, c: char)
    ensures
        final(text)@ == old(text)@.push(c),
;

/// `char::from_u32` gives the character of a number that is a Unicode
/// scalar value, and nothing for any other number.
pub assume_specification[ char::from_u32 ](n: u32) -> (r: Option<char>)
    ensures
        r == (if is_scalar_value(n as int) {
            Some(n as char)
        } else {
            None::<char>
        }),
;

/// Sixteen to the power `k`.
pub open spec fn sixteen_to(k: nat) -> int
    decreases k,
{
    if k == 0 {
        1
    } else {
        16 * sixteen_to((k - 1) as nat)
    }
}

/// Hexadecimal digits write a number below sixteen to their count.
pub(crate) proof fn lemma_hex_number_bound(digits: Seq<char>)
    requires
        forall|i: int| 0 <= i < digits.len() ==> is_hex_digit(#[trigger] digits[i]),
    ensures
        0 <= hex_number(digits) < sixteen_to(digits.len()),
    decreases digits.len(),
{
    if digits.len() > 0 {
        let front = digits.drop_last();
        assert forall|i: int| 0 <= i < front.len() implies is_hex_digit(#[trigger] front[i]) by {
            assert(front[i] == digits[i]);
        }
        lemma_hex_number_bound(front);
    }
}

/// The character that the hexadecimal digits from `from` to `to` name.
fn read_code_point(chars: &[char], from: usize, to: usize) -> (r: Result<char, Error>)
    requires
        from <= to <= chars@.len(),
        forall|i: int| from <= i < to ==> is_hex_digit(#[trigger] chars@[i]),
    ensures
        r == code_point(chars@.subrange(from as int, to as int)),
{
    if to - from > 8 {
        return Err(Error::ParsingUnicodeCodePoint);
    }
    let ghost digits = chars@.subrange(from as int, to as int);
    let mut number: u32 = 0;
    let mut i: usize = from;
    while i < to
        invariant
            from <= i <= to <= chars@.len(),
            to - from <= 8,
            digits == chars@.subrange(from as int, to as int),
            forall|k: int| from <= k < to ==> is_hex_digit(#[trigger] chars@[k]),
            number == hex_number(digits.take(i - from)),
        decreases to - i,
    {
        let ghost before = digits.take(i - from);
        let ghost after = digits.take(i - from + 1);
        proof {
            assert(after.drop_last() =~= before);
            assert(after.last() == chars@[i as int]);
            assert forall|k: int| 0 <= k < after.len() implies is_hex_digit(#[trigger] after[k]) by {
                assert(after[k] == chars@[from + k]);
            }
            lemma_hex_number_bound(after);
            reveal_with_fuel(sixteen_to, 9);
            assert(sixteen_to(after.len()) <= sixteen_to(8));
            assert(sixteen_to(8) == 0x1_0000_0000);
        }
        number = number * 16 + hex_value_of(chars[i]) as u32;
        i += 1;
    }
    assert(digits.take(to - from) =~= digits);
    match char::from_u32(number) {
        Some(c) => Ok(c),
        None => Err(Error::ParsingUnicodeCodePoint),
    }
}

/// What the escape after a backslash writes, and where it ends.
fn read_escape(chars: &[char], pos: usize) -> (r: Option<(Result<char, Error>, usize)>)
    requires
        pos <= chars@.len(),
    ensures
        match r {
            None => escape(chars@, pos as int) is None,
            Some((value, end)) => escape(chars@, pos as int) == Some(
                Parsed { value, end: end as int },
            ) && pos < end <= chars@.len(),
        },
{
    if pos >= chars.len() {
        return None;
    }
    let c = chars[pos];
    if c == '\'' {
        Some((Ok('\''), pos + 1))
    } else if c == 'n' {
        Some((Ok('\n'), pos + 1))
    } else if c == 'r' {
        Some((Ok('\r'), pos + 1))
    } else if c == 't' {
        Some((Ok('\t'), pos + 1))
    } else if c == '\\' {
        Some((Ok('\\'), pos + 1))
    } else if c == 'u' {
        let end = run_end_from(chars, pos + 1, CharClass::Hex);
        if end > pos + 1 {
            proof {
                lemma_run_end(chars@, pos + 1, CharClass::Hex);
            }
            Some((read_code_point(chars, pos + 1, end), end))
        } else {
            None
        }
    } else {
        None
    }
}

/// One character of a string literal, and where it ends.
fn read_string_item(chars: &[char], pos: usize) -> (r: Option<(Result<char, Error>, usize)>)
    requires
        pos <= chars@.len(),
    ensures
        match r {
            None => string_item(chars@, pos as int) is None,
            Some((value, end)) => string_item(chars@, pos as int) == Some(
                Parsed { value, end: end as int },
            ) && pos < end <= chars@.len(),
        },
{
    if pos >= chars.len() {
        return None;
    }
    let c = chars[pos];
    if c == '\\' {
        match read_escape(chars, pos + 1) {
            Some(item) => Some(item),
            None => Some((Ok(c), pos + 1)),
        }
    } else if c == '\'' {
        None
    } else {
        Some((Ok(c), pos + 1))
    }
}

/// What has been read of a string so far, before what is still to read.
pub open spec fn text_then(
    first: Result<Seq<char>, Error>,
    rest: Result<Seq<char>, Error>,
) -> Result<Seq<char>, Error> {
    match first {
        Err(e) => Err(e),
        Ok(a) => match rest {
            Err(e) => Err(e),
            Ok(b) => Ok(a + b),
        },
    }
}

/// The string literal at `pos`, if one stands there.
pub(crate) fn read_string(chars: &[char], pos: usize) -> (r: Option<(Result<Value, Error>, usize)>)
    requires
        pos <= chars@.len(),
    ensures
        found(r, string_literal(chars@, pos as int)),
        r matches Some((_, end)) ==> pos < end <= chars@.len(),
{
    if pos >= chars.len() || chars[pos] != '\'' {
        return None;
    }
    let mut text = String::new();
    let mut failure: Option<Error> = None;
    let mut at: usize = pos + 1;
    let ghost whole = string_items(chars@, pos + 1);
    loop
        invariant
            pos < at <= chars@.len(),
            whole == string_items(chars@, pos + 1),
            whole.end == string_items(chars@, at as int).end,
            whole.value == text_then(
                match failure {
                    Some(e) => Err(e),
                    None => Ok(text@),
                },
                string_items(chars@, at as int).value,
            ),
        ensures
            string_item(chars@, at as int) is None,
        decreases chars@.len() - at,
    {
        match read_string_item(chars, at) {
            None => {
                break ;
            },
            Some((value, end)) => {
                let ghost rest = string_items(chars@, end as int).value;
                match value {
                    Ok(c) => {
                        if failure.is_none() {
                            proof {
                                if let Ok(cs) = rest {
                                    assert(text@.push(c) + cs =~= text@ + (seq![c] + cs));
                                }
                            }
                            text.push(c);
                        }
                    },
                    Err(e) => {
                        if failure.is_none() {
                            failure = Some(e);
                        }
                    },
                }
                at = end;
            },
        }
    }
    proof {
        assert(string_items(chars@, at as int).value == Ok::<Seq<char>, Error>(Seq::empty()));
        assert(text@ + Seq::<char>::empty() =~= text@);
    }
    if at < chars.len() && chars[at] == '\'' {
        match failure {
            Some(e) => Some((Err(e), at + 1)),
            None => Some((Ok(Value::String(text)), at + 1)),
        }
    } else {
        None
    }
}

/// Two digits stand at `at`.
fn two_digits_from(chars: &[char], at: usize) -> (r: bool)
    requires
        at <= chars@.len(),
    ensures
        r == two_digits_at(chars@, at as int),
{
    chars.len() - at >= 2 && is_digit_char(chars[at]) && is_digit_char(chars[at + 1])
}

/// A date text stands at `pos`.
fn date_stands_at(chars: &[char], pos: usize) -> (r: bool)
    requires
        pos <= chars@.len(),
    ensures
        r == date_at(chars@, pos as int),
{
    if chars.len() - pos < 10 {
        return false;
    }
    let ghost t = chars@.subrange(pos as int, pos + 10);
    proof {
        assert forall|i: int| 0 <= i < 10 implies #[trigger] t[i] == chars@[pos + i] by {}
    }
    two_digits_from(chars, pos) && two_digits_from(chars, pos + 2) && chars[pos + 4] == '-'
        && two_digits_from(chars, pos + 5) && chars[pos + 7] == '-' && two_digits_from(
        chars,
        pos + 8,
    )
}

/// What starts at `pos` and ends where `time_text_end` says is a time text.
pub(crate) proof fn lemma_time_text_end(s: Seq<char>, pos: int)
    requires
        time_text_end(s, pos) is Some,
    ensures
        pos < time_text_end(s, pos)->0 <= s.len(),
        is_time_text(s.subrange(pos, time_text_end(s, pos)->0)),
{
    let end = time_text_end(s, pos)->0;
    let minutes = if pos + 1 < s.len() && is_digit(s[pos + 1]) {
        pos + 2
    } else {
        pos + 1
    };
    let fraction = minutes + 6;
    if minutes + 5 < s.len() && s[minutes + 3] == ':' && two_digits_at(s, minutes + 4)
        && fraction + 1 < s.len() && s[fraction] == '.' && is_digit(s[fraction + 1]) {
        lemma_digits_end(s, fraction + 1);
    }
    let t = s.subrange(pos, end);
    assert forall|i: int| 0 <= i < t.len() implies #[trigger] t[i] == s[pos + i] by {}
    let h = minutes - pos;
    assert(t[0] == s[pos]);
    if t.len() >= 2 {
        assert(t[1] == s[pos + 1]);
    }
    assert(t[h] == s[pos + h]);
    assert(t[h + 1] == s[pos + h + 1]);
    assert(t[h + 2] == s[pos + h + 2]);
    if t.len() > h + 3 {
        assert(t[h + 3] == s[pos + h + 3]);
        assert(t[h + 4] == s[pos + h + 4]);
        assert(t[h + 5] == s[pos + h + 5]);
        if t.len() > h + 6 {
            assert(t[h + 6] == s[pos + h + 6]);
            let f = t.subrange(h + 7, t.len() as int);
            assert forall|i: int| 0 <= i < f.len() implies is_digit(#[trigger] f[i]) by {
                assert(f[i] == s[pos + h + 7 + i]);
            }
        }
    }
}

/// The end of the time text at `pos`, if one stands there.
fn time_end_from(chars: &[char], pos: usize) -> (r: Option<usize>)
    requires
        pos <= chars@.len(),
    ensures
        match r {
            Some(end) => time_text_end(chars@, pos as int) == Some(end as int) && pos < end
                <= chars@.len(),
            None => time_text_end(chars@, pos as int) is None,
        },
{
    let n = chars.len();
    if pos >= n || !is_digit_char(chars[pos]) {
        return None;
    }
    let minutes = if pos + 1 < n && is_digit_char(chars[pos + 1]) {
        pos + 2
    } else {
        pos + 1
    };
    if !(minutes < n && chars[minutes] == ':' && two_digits_from(chars, minutes + 1)) {
        return None;
    }
    let seconds = minutes + 3;
    if !(seconds < n && chars[seconds] == ':' && two_digits_from(chars, seconds + 1)) {
        return Some(seconds);
    }
    let fraction = seconds + 3;
    if n - fraction > 1 && chars[fraction] == '.' && is_digit_char(chars[fraction + 1]) {
        Some(digits_end_from(chars, fraction + 1))
    } else {
        Some(fraction)
    }
}

/// How a date-time literal names its zone, as it is held while reading.
pub(crate) enum ZoneText {
    /// `Z`.
    Utc,
    /// A signed offset, written out as `+hh:mm` or `+hhmm`.
    Offset(String),
    /// The name of a zone.
    Named(String),
}

impl View for ZoneText {
    type V = ZoneMark;

    closed spec fn view(&self) -> ZoneMark {
        match self {
            ZoneText::Utc => ZoneMark::Utc,
            ZoneText::Offset(text) => ZoneMark::Offset(text@),
            ZoneText::Named(name) => ZoneMark::Named(name@),
        }
    }
}

/// An offset mark is an offset text.
pub(crate) proof fn lemma_zone_mark(s: Seq<char>, pos: int)
    requires
        zone_mark(s, pos) is Some,
    ensures
        zone_mark(s, pos) matches Some((mark, end)) ==> pos < end <= s.len() && (mark matches ZoneMark::Offset(
            text,
        ) ==> is_offset_text(text)),
{
    lemma_run_end(s, pos + 1, CharClass::Zone);
    if let Some((ZoneMark::Offset(text), end)) = zone_mark(s, pos) {
        if end == pos + 3 {
            let t = s.subrange(pos, pos + 3);
            assert(t[0] == s[pos]);
            assert(t[1] == s[pos + 1]);
            assert(t[2] == s[pos + 2]);
            assert(text.len() == 5);
            assert(text[0] == t[0] && text[1] == t[1] && text[2] == t[2]);
            assert(text[3] == '0' && text[4] == '0');
        } else {
            assert forall|i: int| 0 <= i < text.len() implies #[trigger] text[i] == s[pos + i] by {}
            assert(text[0] == s[pos]);
            assert(text[1] == s[pos + 1]);
            assert(text[2] == s[pos + 2]);
            assert(text[3] == s[pos + 3]);
            assert(text[4] == s[pos + 4]);
            if end == pos + 6 {
                assert(text[5] == s[pos + 5]);
            }
        }
    }
}

/// The zone mark at `pos`, if one stands there, and its end.
fn read_zone_mark(text: &str, chars: &[char], pos: usize) -> (r: Option<(ZoneText, usize)>)
    requires
        chars@ == text@,
        pos <= chars@.len(),
    ensures
        match r {
            Some((mark, end)) => zone_mark(chars@, pos as int) == Some((mark@, end as int)),
            None => zone_mark(chars@, pos as int) is None,
        },
{
    let n = chars.len();
    if pos >= n {
        return None;
    }
    let c = chars[pos];
    if c == 'Z' {
        Some((ZoneText::Utc, pos + 1))
    } else if (c == '+' || c == '-') && two_digits_from(chars, pos + 1) {
        let colon = pos + 3 < n && chars[pos + 3] == ':';
        if colon && two_digits_from(chars, pos + 4) {
            let mark = text.substring_char(pos, pos + 6);
            Some((ZoneText::Offset(String::from_str(mark)), pos + 6))
        } else if !colon && two_digits_from(chars, pos + 3) {
            let mark = text.substring_char(pos, pos + 5);
            Some((ZoneText::Offset(String::from_str(mark)), pos + 5))
        } else {
            let hours = text.substring_char(pos, pos + 3);
            proof {
                reveal_strlit("00");
                assert("00"@ =~= seq!['0', '0']);
            }
            Some((ZoneText::Offset(String::from_str(hours).concat("00")), pos + 3))
        }
    } else {
        let letter = ('a' <= c && c <= 'z') || ('A' <= c && c <= 'Z');
        if letter || c == '-' || c == '_' || c == '/' || c == '+' {
            let end = run_end_from(chars, pos + 1, CharClass::Zone);
            if end > pos + 1 {
                let name = text.substring_char(pos, end);
                Some((ZoneText::Named(String::from_str(name)), end))
            } else {
                None
            }
        } else {
            None
        }
    }
}

/// The seconds east of UTC of a zone mark at a local date and time.
fn read_zone_offset(mark: &ZoneText, date: Date, time: Time) -> (r: Result<i32, Error>)
    requires
        mark@ matches ZoneMark::Offset(text) ==> is_offset_text(text),
    ensures
        match r {
            Ok(seconds) => zone_offset(mark@, date@, time@) == Ok::<int, Error>(seconds as int)
                && -DAY_SECONDS < seconds < DAY_SECONDS,
            Err(e) => zone_offset(mark@, date@, time@) == Err::<int, Error>(e),
        },
{
    proof {
        use_type_invariant(&date);
        use_type_invariant(&time);
    }
    match mark {
        ZoneText::Utc => Ok(0),
        ZoneText::Offset(text) => match offset_from_text(text.as_str()) {
            Some(seconds) => Ok(seconds),
            None => Err(Error::ParsingTimeZone),
        },
        ZoneText::Named(name) => {
            if !zone_is_known(name.as_str()) {
                Err(Error::ParsingTimeZoneNamed)
            } else {
                match zone_offset_at(name.as_str(), date, time) {
                    Some(seconds) => Ok(seconds),
                    None => Err(Error::ParsingDateTime),
                }
            }
        },
    }
}

/// The date-time literal at `pos`, if one stands there.
pub(crate) fn read_date_time(text: &str, chars: &[char], pos: usize) -> (r: Option<
    (Result<Value, Error>, usize),
>)
    requires
        chars@ == text@,
        pos <= chars@.len(),
    ensures
        found(r, date_time_literal(chars@, pos as int)),
        r matches Some((_, end)) ==> pos < end <= chars@.len(),
{
    let n = chars.len();
    if !date_stands_at(chars, pos) || chars.len() - pos < 11 || chars[pos + 10] != 'T' {
        return None;
    }
    let time_end = match time_end_from(chars, pos + 11) {
        Some(end) => end,
        None => {
            return None;
        },
    };
    let (mark, end) = match read_zone_mark(text, chars, time_end) {
        Some(found) => found,
        None => {
            return None;
        },
    };
    proof {
        lemma_time_text_end(chars@, pos + 11);
        lemma_zone_mark(chars@, time_end as int);
        lemma_time_of_text(chars@.subrange(pos + 11, time_end as int));
    }
    let date = match date_from_text(text.substring_char(pos, pos + 10)) {
        Some(date) => date,
        None => {
            return Some((Err(Error::ParsingDate), end));
        },
    };
    let time_text = text.substring_char(pos + 11, time_end);
    let pattern = if time_end - (pos + 11) > 5 {
        "%H:%M:%S%.f"
    } else {
        "%H:%M"
    };
    let time = match time_from_text(time_text, pattern) {
        Some(time) => time,
        None => {
            return Some((Err(Error::ParsingTime), end));
        },
    };
    let offset = match read_zone_offset(&mark, date, time) {
        Ok(offset) => offset,
        Err(e) => {
            return Some((Err(e), end));
        },
    };
    proof {
        use_type_invariant(&date);
        use_type_invariant(&time);
    }
    match utc_from_local(date, time, offset) {
        Some(instant) => Some((Ok(Value::DateTime(instant)), end)),
        None => Some((Err(Error::ParsingDateTime), end)),
    }
}

/// The date literal at `pos`, if one stands there.
pub(crate) fn read_date(text: &str, chars: &[char], pos: usize) -> (r: Option<
    (Result<Value, Error>, usize),
>)
    requires
        chars@ == text@,
        pos <= chars@.len(),
    ensures
        found(r, date_literal(chars@, pos as int)),
        r matches Some((_, end)) ==> pos < end <= chars@.len(),
{
    let n = chars.len();
    if !date_stands_at(chars, pos) {
        return None;
    }
    match date_from_text(text.substring_char(pos, pos + 10)) {
        Some(date) => Some((Ok(Value::Date(date)), pos + 10)),
        None => Some((Err(Error::ParsingDate), pos + 10)),
    }
}

/// The time literal at `pos`, if one stands there.
pub(crate) fn read_time(text: &str, chars: &[char], pos: usize) -> (r: Option<
    (Result<Value, Error>, usize),
>)
    requires
        chars@ == text@,
        pos <= chars@.len(),
    ensures
        found(r, time_literal(chars@, pos as int)),
        r matches Some((_, end)) ==> pos < end <= chars@.len(),
{
    let n = chars.len();
    let end = match time_end_from(chars, pos) {
        Some(end) => end,
        None => {
            return None;
        },
    };
    proof {
        lemma_time_text_end(chars@, pos as int);
    }
    let pattern = if end - pos > 5 {
        "%H:%M:%S%.f"
    } else {
        "%H:%M"
    };
    match time_from_text(text.substring_char(pos, end), pattern) {
        Some(time) => Some((Ok(Value::Time(time)), end)),
        None => Some((Err(Error::ParsingTime), end)),
    }
}

/// The UUID literal at `pos`, if one stands there.
pub(crate) fn read_uuid(text: &str, chars: &[char], pos: usize) -> (r: Option<
    (Result<Value, Error>, usize),
>)
    requires
        chars@ == text@,
        pos <= chars@.len(),
    ensures
        found(r, uuid_literal(chars@, pos as int)),
        r matches Some((_, end)) ==> pos < end <= chars@.len(),
{
    let n = chars.len();
    if n - pos < 36 {
        return None;
    }
    let ghost t = chars@.subrange(pos as int, pos + 36);
    let mut i: usize = 0;
    while i < 36
        invariant
            i <= 36,
            pos + 36 <= chars.len(),
            t == chars@.subrange(pos as int, pos + 36),
            forall|k: int|
                0 <= k < i ==> if is_hyphen_place(k) {
                    #[trigger] t[k] == '-'
                } else {
                    is_hex_digit(t[k])
                },
        decreases 36 - i,
    {
        let c = chars[pos + i];
        assert(t[i as int] == c);
        let fits = if i == 8 || i == 13 || i == 18 || i == 23 {
            c == '-'
        } else {
            is_hex_digit_char(c)
        };
        if !fits {
            return None;
        }
        i += 1;
    }
    match uuid_from_text(text.substring_char(pos, pos + 36)) {
        Some(id) => Some((Ok(Value::Uuid(id)), pos + 36)),
        None => Some((Err(Error::ParsingUuid), pos + 36)),
    }
}

/// The number literal at `pos`, if one stands there.
pub(crate) fn read_number(text: &str, chars: &[char], pos: usize) -> (r: Option<
    (Result<Value, Error>, usize),
>)
    requires
        chars@ == text@,
        pos <= chars@.len(),
    ensures
        found(r, number_literal(chars@, pos as int)),
        r matches Some((_, end)) ==> pos < end <= chars@.len(),
{
    let n = chars.len();
    let end = match number_end_from(chars, pos) {
        Some(end) => end,
        None => {
            return None;
        },
    };
    proof {
        lemma_number_text_end(chars@, pos as int);
        lemma_digits_end(chars@.subrange(pos as int, end as int), 0);
    }
    match Decimal::from_decimal_text(text.substring_char(pos, end)) {
        Ok(number) => Some((Ok(Value::Number(number)), end)),
        Err(e) => Some((Err(e), end)),
    }
}

/// The letters of `word`, each in either case, stand at `pos`.
fn word_any_case_at(chars: &[char], pos: usize, word: &[char]) -> (r: bool)
    requires
        pos <= chars@.len(),
    ensures
        r == has_word_any_case(chars@, pos as int, word@),
{
    if word.len() > chars.len() - pos {
        return false;
    }
    let mut i: usize = 0;
    while i < word.len()
        invariant
            i <= word.len(),
            pos + word.len() <= chars.len(),
            forall|j: int| 0 <= j < i ==> is_letter_of(#[trigger] chars@[pos + j], word@[j]),
        decreases word.len() - i,
    {
        let c = chars[pos + i];
        let w = word[i];
        if !(c == w || ('A' <= c && c <= 'Z' && ((c as u8) + 32) as char == w)) {
            assert(!is_letter_of(chars@[pos + i], word@[i as int]));
            return false;
        }
        i += 1;
    }
    true
}

/// The `true` or `false` at `pos`, if one stands there.
pub(crate) fn read_bool(chars: &[char], pos: usize) -> (r: Option<(Result<Value, Error>, usize)>)
    requires
        pos <= chars@.len(),
    ensures
        found(r, bool_literal(chars@, pos as int)),
        r matches Some((_, end)) ==> pos < end <= chars@.len(),
{
    let n = chars.len();
    if word_any_case_at(chars, pos, &['t', 'r', 'u', 'e']) {
        Some((Ok(Value::Bool(true)), pos + 4))
    } else if word_any_case_at(chars, pos, &['f', 'a', 'l', 's', 'e']) {
        Some((Ok(Value::Bool(false)), pos + 5))
    } else {
        None
    }
}

/// The `null` at `pos`, if one stands there.
pub(crate) fn read_null(chars: &[char], pos: usize) -> (r: Option<(Result<Value, Error>, usize)>)
    requires
        pos <= chars@.len(),
    ensures
        found(r, null_literal(chars@, pos as int)),
        r matches Some((_, end)) ==> pos < end <= chars@.len(),
{
    let n = chars.len();
    if word_any_case_at(chars, pos, &['n', 'u', 'l', 'l']) {
        Some((Ok(Value::Null), pos + 4))
    } else {
        None
    }
}

/// The literal at `pos`, if one stands there, and where it ends.
pub(crate) fn read_literal(text: &str, chars: &[char], pos: usize) -> (r: Option<
    (Result<Value, Error>, usize),
>)
    requires
        chars@ == text@,
        pos <= chars@.len(),
    ensures
        found(r, literal(chars@, pos as int)),
        r matches Some((_, end)) ==> pos < end <= chars@.len(),
{
    let found = read_string(chars, pos);
    if found.is_some() {
        return found;
    }
    let found = read_date_time(text, chars, pos);
    if found.is_some() {
        return found;
    }
    let found = read_date(text, chars, pos);
    if found.is_some() {
        return found;
    }
    let found = read_time(text, chars, pos);
    if found.is_some() {
        return found;
    }
    let found = read_uuid(text, chars, pos);
    if found.is_some() {
        return found;
    }
    let found = read_number(text, chars, pos);
    if found.is_some() {
        return found;
    }
    let found = read_bool(chars, pos);
    if found.is_some() {
        return found;
    }
    read_null(chars, pos)
}

/// The end of the identifier at `pos`, if one stands there.
pub(crate) fn identifier_end_from(chars: &[char], pos: usize) -> (r: Option<usize>)
    requires
        pos <= chars@.len(),
    ensures
        match r {
            Some(end) => identifier_end(chars@, pos as int) == Some(end as int) && pos < end
                <= chars@.len(),
            None => identifier_end(chars@, pos as int) is None,
        },
{
    if pos >= chars.len() {
        return None;
    }
    let c = chars[pos];
    if !(('a' <= c && c <= 'z') || ('A' <= c && c <= 'Z') || c == '_') {
        return None;
    }
    let end = run_end_from(chars, pos + 1, CharClass::Name);
    if end > pos + 1 {
        Some(end)
    } else {
        None
    }
}

} // verus!
