//! Exact decimal numbers, held in canonical positional notation.

use crate::filters::error::Error;
use crate::filters::text::{
    all_digits, chars_of, digits_end, digits_end_from, is_digit, lemma_digits_end,
    lemma_digits_end_is,
};
use vstd::prelude::*;

verus! {

/// `t` is one or more digits, then optionally a point and zero or more
/// digits.
pub open spec fn is_number_text(t: Seq<char>) -> bool {
    let i = digits_end(t, 0);
    i >= 1 && (i == t.len() || (t[i] == '.' && digits_end(t, i + 1) == t.len()))
}

/// `t` is a number text, or a minus sign and a number text.
pub open spec fn is_decimal_text(t: Seq<char>) -> bool {
    is_number_text(t) || (t.len() > 0 && t[0] == '-' && is_number_text(t.subrange(1, t.len() as int)))
}

/// The digits before the point of a number text.
pub open spec fn integer_part(t: Seq<char>) -> Seq<char> {
    t.subrange(0, digits_end(t, 0))
}

/// The digits after the point of a number text.
pub open spec fn fraction_part(t: Seq<char>) -> Seq<char> {
    let i = digits_end(t, 0);
    if i < t.len() {
        t.subrange(i + 1, t.len() as int)
    } else {
        Seq::empty()
    }
}

/// `d` without the zeros at its start, but for its last digit.
pub open spec fn without_leading_zeros(d: Seq<char>) -> Seq<char>
    decreases d.len(),
{
    if d.len() > 1 && d[0] == '0' {
        without_leading_zeros(d.drop_first())
    } else {
        d
    }
}

/// `d` without the zeros at its end.
pub open spec fn without_trailing_zeros(d: Seq<char>) -> Seq<char>
    decreases d.len(),
{
    if d.len() > 0 && d.last() == '0' {
        without_trailing_zeros(d.drop_last())
    } else {
        d
    }
}

/// The digits before and after the point, written as one number.
pub open spec fn join_parts(integer: Seq<char>, fraction: Seq<char>) -> Seq<char> {
    if fraction.len() == 0 {
        integer
    } else {
        integer + seq!['.'] + fraction
    }
}

/// The shortest text that writes the same number as the number text `t`:
/// no zeros before the integer part or after the fraction, and no point
/// without a fraction.
pub open spec fn canonical_number_text(t: Seq<char>) -> Seq<char> {
    join_parts(
        without_leading_zeros(integer_part(t)),
        without_trailing_zeros(fraction_part(t)),
    )
}

/// The canonical text of a decimal text: that of its digits, with the
/// minus sign where the number is not zero.
pub open spec fn canonical_decimal_text(t: Seq<char>) -> Seq<char> {
    if t.len() > 0 && t[0] == '-' {
        let magnitude = canonical_number_text(t.subrange(1, t.len() as int));
        if magnitude == seq!['0'] {
            magnitude
        } else {
            seq!['-'] + magnitude
        }
    } else {
        canonical_number_text(t)
    }
}

/// `c` is a decimal text in canonical form.
pub open spec fn is_canonical_decimal(c: Seq<char>) -> bool {
    is_decimal_text(c) && canonical_decimal_text(c) == c
}

/// Without its leading zeros a run of digits is a run of digits that
/// begins with no zero, unless it is one digit long.
proof fn lemma_without_leading_zeros(d: Seq<char>)
    requires
        d.len() >= 1,
        all_digits(d),
    ensures
        without_leading_zeros(d).len() >= 1,
        all_digits(without_leading_zeros(d)),
        without_leading_zeros(d).len() == 1 || without_leading_zeros(d)[0] != '0',
        without_leading_zeros(without_leading_zeros(d)) == without_leading_zeros(d),
    decreases d.len(),
{
    if d.len() > 1 && d[0] == '0' {
        let rest = d.drop_first();
        assert forall|i: int| 0 <= i < rest.len() implies is_digit(#[trigger] rest[i]) by {
            assert(rest[i] == d[i + 1]);
        }
        lemma_without_leading_zeros(rest);
    }
}

/// Without its trailing zeros a run of digits is a run of digits that
/// ends with no zero.
proof fn lemma_without_trailing_zeros(d: Seq<char>)
    requires
        all_digits(d),
    ensures
        all_digits(without_trailing_zeros(d)),
        without_trailing_zeros(d).len() == 0 || without_trailing_zeros(d).last() != '0',
        without_trailing_zeros(without_trailing_zeros(d)) == without_trailing_zeros(d),
    decreases d.len(),
{
    if d.len() > 0 && d.last() == '0' {
        let rest = d.drop_last();
        assert forall|i: int| 0 <= i < rest.len() implies is_digit(#[trigger] rest[i]) by {
            assert(rest[i] == d[i]);
        }
        lemma_without_trailing_zeros(rest);
    }
}

/// The parts of a number text are digits.
proof fn lemma_number_parts(t: Seq<char>)
    requires
        is_number_text(t),
    ensures
        integer_part(t).len() >= 1,
        all_digits(integer_part(t)),
        all_digits(fraction_part(t)),
{
    lemma_digits_end(t, 0);
    let i = digits_end(t, 0);
    if i < t.len() {
        lemma_digits_end(t, i + 1);
        let f = fraction_part(t);
        assert forall|k: int| 0 <= k < f.len() implies is_digit(#[trigger] f[k]) by {
            assert(f[k] == t[i + 1 + k]);
        }
    }
}

/// Digits, and digits after a point, join to a number text with those parts.
proof fn lemma_join_parts(integer: Seq<char>, fraction: Seq<char>)
    requires
        integer.len() >= 1,
        all_digits(integer),
        all_digits(fraction),
    ensures
        is_number_text(join_parts(integer, fraction)),
        integer_part(join_parts(integer, fraction)) == integer,
        fraction_part(join_parts(integer, fraction)) == fraction,
{
    let c = join_parts(integer, fraction);
    let n = integer.len() as int;
    assert forall|i: int| 0 <= i < n implies is_digit(#[trigger] c[i]) by {
        assert(c[i] == integer[i]);
    }
    if fraction.len() == 0 {
        lemma_digits_end_is(c, 0, n);
        assert(integer_part(c) =~= integer);
        assert(fraction_part(c) =~= fraction);
    } else {
        assert(c[n] == '.');
        lemma_digits_end_is(c, 0, n);
        assert forall|i: int| n + 1 <= i < c.len() implies is_digit(#[trigger] c[i]) by {
            assert(c[i] == fraction[i - n - 1]);
        }
        lemma_digits_end_is(c, n + 1, c.len() as int);
        assert(integer_part(c) =~= integer);
        assert(fraction_part(c) =~= fraction);
    }
}

/// The canonical text of a number text is a number text, and its own
/// canonical text.
pub(crate) proof fn lemma_canonical_number_text(t: Seq<char>)
    requires
        is_number_text(t),
    ensures
        is_number_text(canonical_number_text(t)),
        canonical_number_text(canonical_number_text(t)) == canonical_number_text(t),
        is_digit(canonical_number_text(t)[0]),
{
    lemma_number_parts(t);
    lemma_without_leading_zeros(integer_part(t));
    lemma_without_trailing_zeros(fraction_part(t));
    lemma_join_parts(
        without_leading_zeros(integer_part(t)),
        without_trailing_zeros(fraction_part(t)),
    );
}

/// The canonical text of a decimal text is canonical.
pub(crate) proof fn lemma_canonical_decimal_text(t: Seq<char>)
    requires
        is_decimal_text(t),
    ensures
        is_canonical_decimal(canonical_decimal_text(t)),
{
    let c = canonical_decimal_text(t);
    if t.len() > 0 && t[0] == '-' {
        let magnitude = canonical_number_text(t.subrange(1, t.len() as int));
        lemma_canonical_number_text(t.subrange(1, t.len() as int));
        if magnitude != seq!['0'] {
            assert(c.subrange(1, c.len() as int) =~= magnitude);
        }
    } else {
        lemma_canonical_number_text(t);
    }
}

/// An exact decimal number of any size, held as the canonical text that
/// writes it: all the digits of the number, and no zero that does not
/// count.
#[derive(Debug, PartialEq, Eq)]
pub struct Decimal {
    text: String,
}

impl View for Decimal {
    type V = Seq<char>;

    /// The canonical text of the number.
    closed spec fn view(&self) -> Seq<char> {
        self.text@
    }
}

/// `FromStr` of `bigdecimal::BigDecimal`, then `normalized` and
/// `to_plain_string`. A decimal text is always read; the normalized number
/// has no zero at the end of its digits, and its plain text writes those
/// digits without an exponent: the canonical text.
#[verifier::external_body]
fn canonical_text(text: &str) -> (r: Option<String>)
    requires
        is_decimal_text(text@),
    ensures
        r is Some,
        r->0@ == canonical_decimal_text(text@),
{
    let number = text.parse::<bigdecimal::BigDecimal>().ok()?;
    Some(number.normalized().to_plain_string())
}

/// The end of the number text that starts at `pos`, if one does.
pub open spec fn number_text_end(s: Seq<char>, pos: int) -> Option<int> {
    let i = digits_end(s, pos);
    if i == pos {
        None
    } else if i < s.len() && s[i] == '.' {
        Some(digits_end(s, i + 1))
    } else {
        Some(i)
    }
}

/// What starts at `pos` and ends where `number_text_end` says is a number
/// text.
pub(crate) proof fn lemma_number_text_end(s: Seq<char>, pos: int)
    requires
        0 <= pos <= s.len(),
        number_text_end(s, pos) is Some,
    ensures
        pos < number_text_end(s, pos)->0 <= s.len(),
        is_number_text(s.subrange(pos, number_text_end(s, pos)->0)),
{
    let end = number_text_end(s, pos)->0;
    lemma_digits_end(s, pos);
    let i = digits_end(s, pos);
    if i < s.len() && s[i] == '.' {
        lemma_digits_end(s, i + 1);
    }
    let t = s.subrange(pos, end);
    assert forall|k: int| 0 <= k < i - pos implies is_digit(#[trigger] t[k]) by {
        assert(t[k] == s[pos + k]);
    }
    if i < end {
        assert(t[i - pos] == s[i]);
    }
    lemma_digits_end_is(t, 0, i - pos);
    if i < s.len() && s[i] == '.' {
        assert forall|k: int| i - pos + 1 <= k < t.len() implies is_digit(#[trigger] t[k]) by {
            assert(t[k] == s[pos + k]);
        }
        lemma_digits_end_is(t, i - pos + 1, t.len() as int);
    }
}

/// The end of the number text at `pos`, if one stands there.
pub(crate) fn number_end_from(chars: &[char], pos: usize) -> (r: Option<usize>)
    requires
        pos <= chars@.len(),
    ensures
        match r {
            Some(end) => number_text_end(chars@, pos as int) == Some(end as int) && pos < end
                <= chars@.len(),
            None => number_text_end(chars@, pos as int) is None,
        },
{
    let i = digits_end_from(chars, pos);
    if i == pos {
        None
    } else if i < chars.len() && chars[i] == '.' {
        Some(digits_end_from(chars, i + 1))
    } else {
        Some(i)
    }
}

impl Clone for Decimal {
    fn clone(&self) -> (r: Self)
        ensures
            r@ == self@,
    {
        proof {
            use_type_invariant(self);
        }
        Decimal { text: self.text.clone() }
    }
}

impl Decimal {
    /// Every decimal holds a canonical text.
    #[verifier::type_invariant]
    pub open spec fn inv(self) -> bool {
        is_canonical_decimal(self@)
    }

    /// The number that a decimal text writes.
    pub(crate) fn from_decimal_text(text: &str) -> (r: Result<Decimal, Error>)
        requires
            is_decimal_text(text@),
        ensures
            r matches Ok(d) && d@ == canonical_decimal_text(text@),
    {
        match canonical_text(text) {
            Some(canonical) => {
                proof {
                    lemma_canonical_decimal_text(text@);
                }
                Ok(Decimal { text: canonical })
            },
            None => Err(Error::ParsingNumber),
        }
    }

    /// Reads a number: digits, optionally a point and more digits, and
    /// optionally a minus sign before them. Any other text is refused.
    pub fn from_str(text: &str) -> (r: Result<Decimal, Error>)
        ensures
            match r {
                Ok(d) => is_decimal_text(text@) && d@ == canonical_decimal_text(text@),
                Err(e) => !is_decimal_text(text@) && e == Error::ParsingNumber,
            },
    {
        let chars = chars_of(text);
        let start: usize = if chars.len() > 0 && chars[0] == '-' {
            1
        } else {
            0
        };
        let end = number_end_from(chars.as_slice(), start);
        proof {
            let s = chars@;
            let body = s.subrange(start as int, s.len() as int);
            if end == Some(chars.len()) {
                lemma_number_text_end(s, start as int);
            } else {
                // What follows the number, or the lack of digits, refuses the text.
                lemma_digits_end(s, start as int);
                let i = digits_end(s, start as int);
                assert forall|k: int| 0 <= k < i - start implies is_digit(#[trigger] body[k]) by {
                    assert(body[k] == s[start + k]);
                }
                if i < s.len() {
                    assert(body[i - start] == s[i]);
                }
                lemma_digits_end_is(body, 0, i - start);
                if i > start && i < s.len() && s[i] == '.' {
                    lemma_digits_end(s, i + 1);
                    let j = digits_end(s, i + 1);
                    assert forall|k: int| i - start + 1 <= k < j - start implies is_digit(
                        #[trigger] body[k],
                    ) by {
                        assert(body[k] == s[start + k]);
                    }
                    assert(body[j - start] == s[j]);
                    lemma_digits_end_is(body, i - start + 1, j - start);
                }
                assert(!is_number_text(body));
                if start == 1 {
                    lemma_digits_end(s, 0);
                    assert(digits_end(s, 0) == 0);
                } else {
                    assert(body =~= s);
                }
            }
        }
        if end == Some(chars.len()) {
            proof {
                if start == 0 {
                    assert(chars@.subrange(0, chars@.len() as int) =~= chars@);
                }
            }
            Decimal::from_decimal_text(text)
        } else {
            Err(Error::ParsingNumber)
        }
    }

    /// The canonical text of the number.
    pub fn as_str(&self) -> (r: &str)
        ensures
            r@ == self@,
            is_canonical_decimal(r@),
    {
        proof {
            use_type_invariant(self);
        }
        self.text.as_str()
    }
}

} // verus!
