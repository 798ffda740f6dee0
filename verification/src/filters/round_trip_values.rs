//! Reading back the text of a literal.

use crate::filters::ast::{ValueView};
use crate::filters::error::Error;
use crate::filters::grammar::{has_char};
use crate::filters::literal::{
    date_at, date_time_literal, escape, has_word_any_case, identifier_end, is_letter_of, literal,
    string_item, string_items, string_literal, time_text_end, Parsed,
};
use crate::filters::number::{is_canonical_decimal, is_number_text, number_text_end};
use crate::filters::round_trip::{
    is_stop, lemma_first_chars, lemma_name_end, lemma_no_early_literal, lemma_no_keyword_at,
    lemma_no_skip, lemma_no_uuid, starts_plain,
};
use crate::filters::text::{
    digits_end, has_word, is_digit, is_hex_digit, is_space, lemma_part, lemma_run_end,
    lemma_run_end_is, lemma_word_chars, run_end, skip_spaces, CharClass,
};
use crate::filters::literal::{date_time_value, zone_mark, zone_offset, ZoneMark};
use crate::filters::temporal::{
    date_of_text, date_text, date_time_text, fraction_nanos, hour_width, is_date_text,
    power_of_ten, time_of_text, time_text, two_at, two_digits_at, utc_of_local, DateTimeView,
    DateView, TimeView, SECOND_NANOS,
};
use crate::filters::text::{decimal_digits, decimal_value, digit_char, digit_value, hex_value};
use crate::filters::to_query_string::{escaped, escaped_text, value_text};
use crate::filters::uuid::{
    digit_at_place, digit_place, is_hyphen_place, is_uuid_text, uuid_bytes_of_text, uuid_text,
};
use vstd::prelude::*;

verus! {

/// What a literal lemma shows: the literal is read at `pos` up to `at`,
/// nothing there can be the name of a call, and a text begins there.
pub open spec fn reads_literal(s: Seq<char>, pos: int, v: ValueView, at: int) -> bool {
    &&& 0 <= pos <= s.len()
    &&& literal(s, pos) == Some(Parsed { value: Ok::<ValueView, Error>(v), end: at })
    &&& identifier_end(s, pos) matches Some(name_end) ==> !has_char(
        s,
        skip_spaces(s, name_end),
        '(',
    )
    &&& starts_plain(s, pos)
}

// ---------------------------------------------------------------------------
// Keywords
// ---------------------------------------------------------------------------

/// A word that stands at `pos` stands there in any mix of cases.
proof fn lemma_word_any_case(s: Seq<char>, pos: int, word: Seq<char>)
    requires
        has_word(s, pos, word),
    ensures
        has_word_any_case(s, pos, word),
{
    lemma_word_chars(s, pos, word);
}

/// `null`, `true` and `false` are read back.
pub(crate) proof fn lemma_keyword(v: ValueView, s: Seq<char>, pos: int)
    requires
        v is Null || v is Bool,
        has_word(s, pos, value_text(v)),
        is_stop(s, pos + value_text(v).len()),
        !has_char(s, skip_spaces(s, pos + value_text(v).len()), '('),
    ensures
        reads_literal(s, pos, v, pos + value_text(v).len()),
{
    let w = value_text(v);
    lemma_word_chars(s, pos, w);
    assert(s[pos + 0] == w[0]);
    assert(s[pos + 1] == w[1]);
    assert(s[pos + 2] == w[2]);
    assert forall|i: int| 1 <= i < w.len() implies CharClass::Name.has(#[trigger] w[i]) by {
        if i == 1 {
        } else if i == 2 {
        } else if i == 3 {
        } else {
        }
    }
    assert(!has_word(w, 0, seq!['n', 'o', 't'])) by {
        if has_word(w, 0, seq!['n', 'o', 't']) {
            lemma_word_chars(w, 0, seq!['n', 'o', 't']);
            assert(w[0int + 1] == 'o');
        }
    }
    lemma_name_end(w, s, pos);
    lemma_no_early_literal(s, pos);
    if v is Null {
        lemma_no_uuid(s, pos, 0);
        lemma_no_keyword_at(s, pos, seq!['t', 'r', 'u', 'e']);
        lemma_no_keyword_at(s, pos, seq!['f', 'a', 'l', 's', 'e']);
        lemma_word_any_case(s, pos, w);
    } else if v == ValueView::Bool(true) {
        lemma_no_uuid(s, pos, 0);
        lemma_word_any_case(s, pos, w);
    } else {
        assert(v == ValueView::Bool(false));
        lemma_no_uuid(s, pos, 2);
        lemma_no_keyword_at(s, pos, seq!['t', 'r', 'u', 'e']);
        lemma_word_any_case(s, pos, w);
    }
}

// ---------------------------------------------------------------------------
// Strings
// ---------------------------------------------------------------------------

/// The escaped text of a beginning of a text begins its escaped text.
proof fn lemma_escaped_prefix(text: Seq<char>, k: int)
    requires
        0 <= k <= text.len(),
    ensures
        escaped_text(text.take(k)).len() <= escaped_text(text).len(),
        escaped_text(text).subrange(0, escaped_text(text.take(k)).len() as int) == escaped_text(
            text.take(k),
        ),
    decreases text.len(),
{
    if k == text.len() {
        assert(text.take(k) =~= text);
        assert(escaped_text(text).subrange(0, escaped_text(text).len() as int) =~= escaped_text(
            text,
        ));
    } else {
        let front = text.drop_last();
        assert(front.take(k) =~= text.take(k));
        lemma_escaped_prefix(front, k);
        let a = escaped_text(front);
        let p = escaped_text(text.take(k));
        assert(escaped_text(text) =~= a + escaped(text.last()));
        assert(escaped_text(text).subrange(0, p.len() as int) =~= a.subrange(0, p.len() as int));
    }
}

/// One more character of a text adds its escaped form to the escaped
/// text.
proof fn lemma_escaped_step(text: Seq<char>, k: int)
    requires
        0 <= k < text.len(),
    ensures
        escaped_text(text.take(k + 1)) == escaped_text(text.take(k)) + escaped(text[k]),
{
    assert(text.take(k + 1).drop_last() =~= text.take(k));
    assert(text.take(k + 1).last() == text[k]);
}

/// The characters between the quotes of a written string are read back,
/// from any of them on.
proof fn lemma_string_items(text: Seq<char>, s: Seq<char>, pos: int, k: int)
    requires
        0 <= k <= text.len(),
        has_word(s, pos, escaped_text(text) + seq!['\'']),
    ensures
        string_items(s, pos + escaped_text(text.take(k)).len()) == (Parsed {
            value: Ok::<Seq<char>, Error>(text.skip(k)),
            end: pos + escaped_text(text).len(),
        }),
    decreases text.len() - k,
{
    let whole = escaped_text(text) + seq!['\''];
    let n = escaped_text(text).len() as int;
    let p = pos + escaped_text(text.take(k)).len();
    lemma_word_chars(s, pos, whole);
    lemma_escaped_prefix(text, k);
    if k == text.len() {
        assert(text.take(k) =~= text);
        assert(s[pos + n] == whole[n]);
        assert(s[p] == '\'');
        assert(string_item(s, p) is None);
        assert(text.skip(k) =~= Seq::<char>::empty());
    } else {
        let c = text[k];
        let e = escaped(c);
        lemma_escaped_step(text, k);
        lemma_escaped_prefix(text, k + 1);
        let q = escaped_text(text.take(k)).len() as int;
        let next = escaped_text(text.take(k + 1));
        assert(next.len() == q + e.len());
        assert forall|j: int| 0 <= j < e.len() implies s[p + j] == e[j] by {
            assert(s[pos + (q + j)] == whole[q + j]);
            assert(whole[q + j] == escaped_text(text)[q + j]);
            assert(escaped_text(text).subrange(0, next.len() as int)[q + j] == next[q + j]);
        }
        assert(s[p + 0] == e[0]);
        if e.len() == 2 {
            assert(s[p + 1] == e[1]);
            assert(escape(s, p + 1) == Some(Parsed { value: Ok::<char, Error>(c), end: p + 2 }));
        }
        assert(string_item(s, p) == Some(
            Parsed { value: Ok::<char, Error>(c), end: p + e.len() },
        ));
        lemma_string_items(text, s, pos, k + 1);
        assert(seq![c] + text.skip(k + 1) =~= text.skip(k));
    }
}

/// A written string is read back.
pub(crate) proof fn lemma_string(text: Seq<char>, s: Seq<char>, pos: int)
    requires
        has_word(s, pos, value_text(ValueView::String(text))),
    ensures
        reads_literal(
            s,
            pos,
            ValueView::String(text),
            pos + value_text(ValueView::String(text)).len(),
        ),
{
    let body = escaped_text(text);
    let n = body.len() as int;
    let t = value_text(ValueView::String(text));
    assert(t =~= seq!['\''] + body + seq!['\'']);
    assert(t.subrange(1, 1 + (n + 1)) =~= body + seq!['\'']);
    lemma_part(s, pos, t, 1, body + seq!['\'']);
    lemma_word_chars(s, pos, t);
    assert(s[pos + 0] == t[0]);
    assert(s[pos + (n + 1)] == t[n + 1]);
    lemma_string_items(text, s, pos + 1, 0);
    assert(text.take(0) =~= Seq::<char>::empty());
    assert(text.skip(0) =~= text);
    lemma_first_chars(s, pos);
}

// ---------------------------------------------------------------------------
// Numbers
// ---------------------------------------------------------------------------

/// A run of a word that stands in `s`, and that ends before the end of
/// the word or before a character outside the class, is a run of `s`.
proof fn lemma_run_in_word(s: Seq<char>, pos: int, word: Seq<char>, k: int, class: CharClass)
    requires
        has_word(s, pos, word),
        0 <= k <= word.len(),
        run_end(word, k, class) == word.len() ==> pos + word.len() == s.len() || !class.has(
            s[pos + word.len()],
        ),
    ensures
        run_end(s, pos + k, class) == pos + run_end(word, k, class),
{
    let e = run_end(word, k, class);
    lemma_run_end(word, k, class);
    lemma_word_chars(s, pos, word);
    assert forall|i: int| pos + k <= i < pos + e implies class.has(#[trigger] s[i]) by {
        assert(s[pos + (i - pos)] == word[i - pos]);
    }
    if e < word.len() {
        assert(s[pos + e] == word[e]);
    }
    lemma_run_end_is(s, pos + k, pos + e, class);
}

/// A number text holds digits and at most a point, and begins with a
/// digit.
proof fn lemma_number_chars(c: Seq<char>)
    requires
        is_number_text(c),
    ensures
        c.len() >= 1,
        is_digit(c[0]),
        forall|j: int| 0 <= j < c.len() ==> is_digit(#[trigger] c[j]) || c[j] == '.',
{
    lemma_run_end(c, 0, CharClass::Digit);
    let i = digits_end(c, 0);
    if i < c.len() {
        lemma_run_end(c, i + 1, CharClass::Digit);
    }
}

/// A written number that is not negative is read back.
pub(crate) proof fn lemma_number(c: Seq<char>, s: Seq<char>, pos: int)
    requires
        is_canonical_decimal(c),
        c.len() > 0 && c[0] != '-',
        has_word(s, pos, c),
        is_stop(s, pos + c.len()),
    ensures
        reads_literal(s, pos, ValueView::Number(c), pos + c.len()),
{
    let n = c.len() as int;
    let at = pos + n;
    lemma_number_chars(c);
    lemma_word_chars(s, pos, c);
    assert(s[pos + 0] == c[0]);
    // The number ends where the text ends.
    let i = digits_end(c, 0);
    lemma_run_end(c, 0, CharClass::Digit);
    lemma_run_in_word(s, pos, c, 0, CharClass::Digit);
    if i < n {
        assert(s[pos + i] == c[i]);
        lemma_run_in_word(s, pos, c, i + 1, CharClass::Digit);
    }
    assert(number_text_end(s, pos) == Some(at));
    assert(s.subrange(pos, at) == c);
    // Nothing that is tried before a number stands there.
    assert(string_literal(s, pos) is None);
    assert(!date_at(s, pos)) by {
        if pos + 10 <= s.len() {
            let t = s.subrange(pos, pos + 10);
            assert(t[4] == s[pos + 4]);
            if n > 4 {
                assert(s[pos + 4] == c[4]);
            } else {
                assert(t[n] == s[pos + n]);
            }
        }
    }
    assert(time_text_end(s, pos) is None) by {
        if n > 1 {
            assert(s[pos + 1] == c[1]);
        }
        if n > 2 {
            assert(s[pos + 2] == c[2]);
        }
    }
    if n > 8 {
        assert(s[pos + 8] == c[8]);
        lemma_no_uuid(s, pos, 8);
    } else {
        lemma_no_uuid(s, pos, n);
    }
    lemma_first_chars(s, pos);
    assert(identifier_end(s, pos) is None);
}

// ---------------------------------------------------------------------------
// Dates and times
// ---------------------------------------------------------------------------

/// The character of a digit is a digit of that value.
proof fn lemma_digit_char(d: int)
    requires
        0 <= d <= 9,
    ensures
        is_digit(digit_char(d)),
        digit_value(digit_char(d)) == d,
{
}

/// A number below ten thousand is the sum of its four digits, each
/// times its power of ten.
proof fn lemma_split_four(n: int)
    requires
        0 <= n <= 9999,
    ensures
        0 <= n / 1000 <= 9,
        0 <= (n / 100) % 10 <= 9,
        0 <= (n / 10) % 10 <= 9,
        0 <= n % 10 <= 9,
        ((n / 1000) * 10 + (n / 100) % 10) * 100 + ((n / 10) % 10) * 10 + n % 10 == n,
{
}

/// A number below a thousand is the sum of its three digits, each times
/// its power of ten.
proof fn lemma_split_three(n: int)
    requires
        0 <= n <= 999,
    ensures
        0 <= n / 100 <= 9,
        0 <= (n / 10) % 10 <= 9,
        0 <= n % 10 <= 9,
        ((n / 100) * 10 + (n / 10) % 10) * 10 + n % 10 == n,
{
}

/// The digits of a number, written out.
proof fn lemma_decimal_digits(n: int)
    ensures
        decimal_digits(n, 2) == seq![digit_char((n / 10) % 10), digit_char(n % 10)],
        decimal_digits(n, 3) == seq![
            digit_char((n / 100) % 10),
            digit_char((n / 10) % 10),
            digit_char(n % 10),
        ],
        decimal_digits(n, 4) == seq![
            digit_char((n / 1000) % 10),
            digit_char((n / 100) % 10),
            digit_char((n / 10) % 10),
            digit_char(n % 10),
        ],
{
    reveal_with_fuel(decimal_digits, 5);
    assert((n / 10) / 10 == n / 100);
    assert((n / 100) / 10 == n / 1000);
    assert(decimal_digits(n, 2) =~= seq![digit_char((n / 10) % 10), digit_char(n % 10)]);
    assert(decimal_digits(n, 3) =~= seq![
        digit_char((n / 100) % 10),
        digit_char((n / 10) % 10),
        digit_char(n % 10),
    ]);
    assert(decimal_digits(n, 4) =~= seq![
        digit_char((n / 1000) % 10),
        digit_char((n / 100) % 10),
        digit_char((n / 10) % 10),
        digit_char(n % 10),
    ]);
}

/// The two digits of a number below a hundred write that number.
proof fn lemma_two_digits(n: int)
    requires
        0 <= n <= 99,
    ensures
        decimal_digits(n, 2) == seq![digit_char(n / 10), digit_char(n % 10)],
        is_digit(digit_char(n / 10)),
        is_digit(digit_char(n % 10)),
        digit_value(digit_char(n / 10)) * 10 + digit_value(digit_char(n % 10)) == n,
{
    lemma_decimal_digits(n);
    lemma_digit_char(n / 10);
    lemma_digit_char(n % 10);
}

/// The three digits of a number below a thousand write that number.
proof fn lemma_three_digits(n: int)
    requires
        0 <= n <= 999,
    ensures
        decimal_digits(n, 3) == seq![
            digit_char(n / 100),
            digit_char((n / 10) % 10),
            digit_char(n % 10),
        ],
        is_digit(digit_char(n / 100)),
        is_digit(digit_char((n / 10) % 10)),
        is_digit(digit_char(n % 10)),
        decimal_value(decimal_digits(n, 3)) == n,
{
    lemma_decimal_digits(n);
    lemma_split_three(n);
    lemma_digit_char(n / 100);
    lemma_digit_char((n / 10) % 10);
    lemma_digit_char(n % 10);
    let a = digit_char(n / 100);
    let b = digit_char((n / 10) % 10);
    let c = digit_char(n % 10);
    let t = seq![a, b, c];
    reveal_with_fuel(decimal_value, 4);
    assert(t.drop_last() =~= seq![a, b]);
    assert(t.drop_last().drop_last() =~= seq![a]);
    assert(t.drop_last().drop_last().drop_last() =~= Seq::<char>::empty());
    assert(decimal_value(t.drop_last().drop_last()) == n / 100);
    assert(decimal_value(t.drop_last()) == (n / 100) * 10 + (n / 10) % 10);
}

/// The four digits of a number below ten thousand write that number.
proof fn lemma_four_digits(n: int)
    requires
        0 <= n <= 9999,
    ensures
        decimal_digits(n, 4) == seq![
            digit_char(n / 1000),
            digit_char((n / 100) % 10),
            digit_char((n / 10) % 10),
            digit_char(n % 10),
        ],
        is_digit(digit_char(n / 1000)),
        is_digit(digit_char((n / 100) % 10)),
        is_digit(digit_char((n / 10) % 10)),
        is_digit(digit_char(n % 10)),
        (digit_value(digit_char(n / 1000)) * 10 + digit_value(digit_char((n / 100) % 10))) * 100
            + digit_value(digit_char((n / 10) % 10)) * 10 + digit_value(digit_char(n % 10)) == n,
{
    lemma_decimal_digits(n);
    lemma_split_four(n);
    lemma_digit_char(n / 1000);
    lemma_digit_char((n / 100) % 10);
    lemma_digit_char((n / 10) % 10);
    lemma_digit_char(n % 10);
}

/// The text of a date in the years 0 to 9999 is a date text that writes
/// the date.
pub(crate) proof fn lemma_date_text(d: DateView)
    requires
        d.wf(),
        0 <= d.year <= 9999,
    ensures
        date_text(d).len() == 10,
        is_date_text(date_text(d)),
        date_of_text(date_text(d)) == Some(d),
{
    lemma_four_digits(d.year);
    lemma_two_digits(d.month);
    lemma_two_digits(d.day);
    let t = date_text(d);
    let y = decimal_digits(d.year, 4);
    let m = decimal_digits(d.month, 2);
    let a = decimal_digits(d.day, 2);
    assert(t =~= seq![y[0], y[1], y[2], y[3], '-', m[0], m[1], '-', a[0], a[1]]);
    assert(two_at(t, 0) * 100 + two_at(t, 2) == d.year);
    assert(two_at(t, 5) == d.month);
    assert(two_at(t, 8) == d.day);
}

/// The second that the text of a time shows: that of the time, and with
/// a leap second the one after it.
pub open spec fn shown_second(time: TimeView) -> int {
    time.second + time.nanosecond / (SECOND_NANOS as int)
}

/// The text of a time has the shape `hh:mm:ss`.
proof fn lemma_time_text(time: TimeView)
    requires
        time.wf(),
    ensures
        time_text(time).len() == 8,
        two_digits_at(time_text(time), 0),
        time_text(time)[2] == ':',
        two_digits_at(time_text(time), 3),
        time_text(time)[5] == ':',
        two_digits_at(time_text(time), 6),
        two_at(time_text(time), 0) == time.hour,
        two_at(time_text(time), 3) == time.minute,
        two_at(time_text(time), 6) == shown_second(time),
        0 <= shown_second(time) <= 60,
{
    let sec = shown_second(time);
    lemma_two_digits(time.hour);
    lemma_two_digits(time.minute);
    lemma_two_digits(sec);
    let t = time_text(time);
    let h = decimal_digits(time.hour, 2);
    let m = decimal_digits(time.minute, 2);
    let x = decimal_digits(sec, 2);
    assert(t =~= seq![h[0], h[1], ':', m[0], m[1], ':', x[0], x[1]]);
}

/// A written date in the years 0 to 9999 is read back.
pub(crate) proof fn lemma_date(d: DateView, s: Seq<char>, pos: int)
    requires
        d.wf(),
        0 <= d.year <= 9999,
        has_word(s, pos, date_text(d)),
        is_stop(s, pos + date_text(d).len()),
    ensures
        reads_literal(s, pos, ValueView::Date(d), pos + date_text(d).len()),
{
    let t = date_text(d);
    lemma_date_text(d);
    lemma_word_chars(s, pos, t);
    assert(s[pos + 0] == t[0]);
    assert(s.subrange(pos, pos + 10) == t);
    assert(date_at(s, pos));
    assert(string_literal(s, pos) is None);
    assert(date_time_literal(s, pos) is None);
    lemma_first_chars(s, pos);
    assert(identifier_end(s, pos) is None);
}

/// A written time of whole seconds is read back.
pub(crate) proof fn lemma_time(time: TimeView, s: Seq<char>, pos: int)
    requires
        time.wf(),
        time.is_plain(),
        time.nanosecond % (SECOND_NANOS as int) == 0,
        has_word(s, pos, time_text(time)),
        is_stop(s, pos + time_text(time).len()),
    ensures
        reads_literal(s, pos, ValueView::Time(time), pos + time_text(time).len()),
{
    let t = time_text(time);
    lemma_time_text(time);
    lemma_word_chars(s, pos, t);
    assert(s[pos + 0] == t[0] && s[pos + 1] == t[1] && s[pos + 2] == t[2] && s[pos + 3] == t[3]
        && s[pos + 4] == t[4] && s[pos + 5] == t[5] && s[pos + 6] == t[6] && s[pos + 7] == t[7]);
    assert(s.subrange(pos, pos + 8) == t);
    assert(time_text_end(s, pos) == Some(pos + 8));
    assert(hour_width(t) == 2);
    assert(time_of_text(t) == Some(time));
    assert(string_literal(s, pos) is None);
    assert(!date_at(s, pos)) by {
        if pos + 10 <= s.len() {
            assert(s.subrange(pos, pos + 10)[2] == s[pos + 2]);
        }
    }
    lemma_first_chars(s, pos);
    assert(identifier_end(s, pos) is None);
}

/// The time of day of a second of the day is the time of which it is
/// the second of the day.
proof fn lemma_second_of_day(time: TimeView)
    requires
        time.wf(),
    ensures
        0 <= time.second_of_day() < 86400,
        time.at_second_of_day(time.second_of_day()) == time,
{
    let sod = time.second_of_day();
    let h = time.hour;
    let m = time.minute;
    let x = time.second;
    assert(sod == h * 3600 + (m * 60 + x));
    assert(0 <= m * 60 + x < 3600);
    assert(sod / 3600 == h);
    assert(sod / 60 == h * 60 + m);
    assert((sod / 60) % 60 == m);
    assert(sod % 60 == x);
}

/// The time, the point and the milliseconds of a written instant are a
/// time text that writes the time.
proof fn lemma_time_with_fraction(time: TimeView)
    requires
        time.wf(),
        time.is_plain(),
        time.nanosecond % 1_000_000 == 0,
    ensures
        ({
            let ms = (time.nanosecond % (SECOND_NANOS as int)) / 1_000_000;
            let t = time_text(time) + seq!['.'] + decimal_digits(ms, 3);
            &&& t.len() == 12
            &&& is_digit(t[9])
            &&& is_digit(t[10])
            &&& is_digit(t[11])
            &&& time_of_text(t) == Some(time)
        }),
{
    let ms = (time.nanosecond % (SECOND_NANOS as int)) / 1_000_000;
    let tt = time_text(time);
    let f = decimal_digits(ms, 3);
    let t = tt + seq!['.'] + f;
    lemma_time_text(time);
    lemma_three_digits(ms);
    assert(t =~= seq![tt[0], tt[1], tt[2], tt[3], tt[4], tt[5], tt[6], tt[7], '.', f[0], f[1], f[2]]);
    assert(hour_width(t) == 2);
    assert(t.subrange(9, 12) =~= f);
    reveal_with_fuel(power_of_ten, 7);
    assert(power_of_ten(6) == 1_000_000);
    assert(fraction_nanos(f) == ms * 1_000_000);
    assert(two_at(t, 0) == time.hour);
    assert(two_at(t, 3) == time.minute);
    assert(two_at(t, 6) == shown_second(time));
}

/// A written instant in the years 0 to 9999 and of whole milliseconds is
/// read back.
pub(crate) proof fn lemma_date_time(instant: DateTimeView, s: Seq<char>, pos: int)
    requires
        instant.wf(),
        0 <= instant.date.year <= 9999,
        instant.time.is_plain(),
        instant.time.nanosecond % 1_000_000 == 0,
        has_word(s, pos, date_time_text(instant)),
    ensures
        reads_literal(s, pos, ValueView::DateTime(instant), pos + date_time_text(instant).len()),
{
    let d = instant.date;
    let time = instant.time;
    let ms = (time.nanosecond % (SECOND_NANOS as int)) / 1_000_000;
    let dt = date_text(d);
    let tf = time_text(time) + seq!['.'] + decimal_digits(ms, 3);
    let t = date_time_text(instant);
    lemma_date_text(d);
    lemma_time_text(time);
    lemma_time_with_fraction(time);
    assert(t =~= dt + seq!['T'] + tf + seq!['Z']);
    assert(t.len() == 24);
    assert(t.subrange(0, 10) =~= dt);
    assert(t.subrange(11, 23) =~= tf);
    lemma_part(s, pos, t, 0, dt);
    lemma_part(s, pos, t, 11, tf);
    lemma_word_chars(s, pos, t);
    lemma_word_chars(s, pos + 11, tf);
    assert(s[pos + 0] == t[0]);
    assert(s[pos + 10] == t[10]);
    assert(s[pos + 23] == t[23]);
    assert(s[pos + 10] == 'T');
    assert(s[pos + 23] == 'Z');
    let q = pos + 11;
    assert(s[q + 0] == tf[0] && s[q + 1] == tf[1] && s[q + 2] == tf[2] && s[q + 3] == tf[3] && s[q
        + 4] == tf[4] && s[q + 5] == tf[5] && s[q + 6] == tf[6] && s[q + 7] == tf[7] && s[q + 8]
        == tf[8] && s[q + 9] == tf[9] && s[q + 10] == tf[10] && s[q + 11] == tf[11]);
    assert(s.subrange(pos, pos + 10) == dt);
    assert(s.subrange(q, q + 12) == tf);
    assert(date_at(s, pos));
    assert forall|i: int| q + 9 <= i < q + 12 implies is_digit(#[trigger] s[i]) by {
        if i == q + 9 {
        } else if i == q + 10 {
        } else {
        }
    }
    lemma_run_end_is(s, q + 9, q + 12, CharClass::Digit);
    assert(time_text_end(s, q) == Some(q + 12));
    assert(zone_mark(s, q + 12) == Some((ZoneMark::Utc, q + 13)));
    lemma_second_of_day(time);
    assert(zone_offset(ZoneMark::Utc, d, time) == Ok::<int, Error>(0));
    assert(utc_of_local(d, time, 0) == Some(instant));
    assert(date_time_value(dt, tf, ZoneMark::Utc) == Ok::<DateTimeView, Error>(instant));
    assert(string_literal(s, pos) is None);
    lemma_first_chars(s, pos);
    assert(identifier_end(s, pos) is None);
}

// ---------------------------------------------------------------------------
// Identifiers of 128 bits
// ---------------------------------------------------------------------------

/// The text of sixteen bytes is a hyphenated identifier that writes them.
pub(crate) proof fn lemma_uuid_text(bytes: Seq<u8>)
    requires
        bytes.len() == 16,
    ensures
        uuid_text(bytes).len() == 36,
        is_uuid_text(uuid_text(bytes)),
        uuid_bytes_of_text(uuid_text(bytes)) == bytes,
        forall|i: int|
            0 <= i < 36 && !is_hyphen_place(i) ==> is_hex_digit(#[trigger] uuid_text(bytes)[i])
                && !is_letter_of(uuid_text(bytes)[i], 'n') && uuid_text(bytes)[i] != '\''
                && !is_space(uuid_text(bytes)[i]),
{
    let t = uuid_text(bytes);
    assert forall|i: int| 0 <= i < 36 && !is_hyphen_place(i) implies is_hex_digit(#[trigger] t[i])
        && hex_value(t[i]) == digit_at_place(bytes, i) && !is_letter_of(t[i], 'n') && t[i] != '\''
        && !is_space(t[i]) by {
        let d = digit_at_place(bytes, i);
        assert(0 <= d < 16);
    }
    assert forall|b: int| 0 <= b < 16 implies #[trigger] uuid_bytes_of_text(t)[b] == bytes[b] by {
        let hi = digit_place(2 * b);
        let lo = digit_place(2 * b + 1);
        assert(!is_hyphen_place(hi) && !is_hyphen_place(lo));
        assert(hex_value(t[hi]) == digit_at_place(bytes, hi));
        assert(hex_value(t[lo]) == digit_at_place(bytes, lo));
        assert(digit_at_place(bytes, hi) == bytes[b] as int / 16);
        assert(digit_at_place(bytes, lo) == bytes[b] as int % 16);
    }
    assert(uuid_bytes_of_text(t) =~= bytes);
}

/// A text of the shape of a hyphenated identifier is read as the bytes
/// that it writes.
proof fn lemma_uuid_shape(t: Seq<char>, s: Seq<char>, pos: int)
    requires
        is_uuid_text(t),
        has_word(s, pos, t),
    ensures
        reads_literal(s, pos, ValueView::Uuid(uuid_bytes_of_text(t)), pos + 36),
{
    lemma_word_chars(s, pos, t);
    assert(s.subrange(pos, pos + 36) == t);
    assert(is_hex_digit(t[0]) && is_hex_digit(t[1]) && is_hex_digit(t[2]) && is_hex_digit(t[4]));
    assert(s[pos + 0] == t[0]);
    assert(s[pos + 1] == t[1]);
    assert(s[pos + 2] == t[2]);
    assert(s[pos + 4] == t[4]);
    assert(string_literal(s, pos) is None);
    assert(!date_at(s, pos)) by {
        if pos + 10 <= s.len() {
            assert(s.subrange(pos, pos + 10)[4] == s[pos + 4]);
        }
    }
    assert(time_text_end(s, pos) is None);
    assert(!has_word(s, pos, seq!['n', 'o', 't'])) by {
        lemma_first_chars(s, pos);
    }
    // What may be read as a name ends at the first hyphen.
    assert forall|i: int| pos + 1 <= i < pos + 8 implies CharClass::Name.has(#[trigger] s[i]) by {
        assert(s[pos + (i - pos)] == t[i - pos]);
        assert(is_hex_digit(t[i - pos]));
    }
    assert(t[8] == '-');
    assert(s[pos + 8] == t[8]);
    lemma_run_end_is(s, pos + 1, pos + 8, CharClass::Name);
    lemma_no_skip(s, pos + 8);
}

/// A written identifier of 128 bits is read back.
pub(crate) proof fn lemma_uuid(bytes: Seq<u8>, s: Seq<char>, pos: int)
    requires
        bytes.len() == 16,
        has_word(s, pos, uuid_text(bytes)),
    ensures
        reads_literal(s, pos, ValueView::Uuid(bytes), pos + uuid_text(bytes).len()),
{
    lemma_uuid_text(bytes);
    lemma_uuid_shape(uuid_text(bytes), s, pos);
}

} // verus!
