//! Character classes and scanning helpers over a sequence of characters.

use vstd::prelude::*;

verus! {

/// Whitespace that may separate tokens.
pub open spec fn is_space(c: char) -> bool {
    c == ' ' || c == '\t' || c == '\n' || c == '\r'
}

/// An ASCII decimal digit.
pub open spec fn is_digit(c: char) -> bool {
    '0' <= c <= '9'
}

/// An ASCII hexadecimal digit, in either case.
pub open spec fn is_hex_digit(c: char) -> bool {
    is_digit(c) || ('a' <= c <= 'f') || ('A' <= c <= 'F')
}

/// An ASCII letter.
pub open spec fn is_letter(c: char) -> bool {
    ('a' <= c <= 'z') || ('A' <= c <= 'Z')
}

/// `word` stands in `s` at `pos`.
pub open spec fn has_word(s: Seq<char>, pos: int, word: Seq<char>) -> bool {
    &&& 0 <= pos
    &&& pos + word.len() <= s.len()
    &&& s.subrange(pos, pos + word.len()) == word
}

/// The first position at or after `pos` that holds no whitespace.
pub open spec fn skip_spaces(s: Seq<char>, pos: int) -> int
    decreases s.len() - pos,
{
    if 0 <= pos < s.len() && is_space(s[pos]) {
        skip_spaces(s, pos + 1)
    } else {
        pos
    }
}

/// Skipping stops at the first character that is no whitespace.
pub(crate) proof fn lemma_skip_spaces(s: Seq<char>, pos: int)
    requires
        0 <= pos <= s.len(),
    ensures
        pos <= skip_spaces(s, pos) <= s.len(),
        forall|i: int| pos <= i < skip_spaces(s, pos) ==> is_space(#[trigger] s[i]),
        skip_spaces(s, pos) < s.len() ==> !is_space(s[skip_spaces(s, pos)]),
    decreases s.len() - pos,
{
    if pos < s.len() && is_space(s[pos]) {
        lemma_skip_spaces(s, pos + 1);
    }
}

/// From a place within a run of whitespace, skipping ends where it ends
/// from the start of the run.
pub(crate) proof fn lemma_skip_spaces_within(s: Seq<char>, pos: int, within: int)
    requires
        0 <= pos <= within <= skip_spaces(s, pos),
        pos <= s.len(),
    ensures
        skip_spaces(s, within) == skip_spaces(s, pos),
    decreases within - pos,
{
    lemma_skip_spaces(s, pos);
    if pos < within {
        lemma_skip_spaces_within(s, pos + 1, within);
    }
}

/// A part of a word that stands in `s` stands in `s` at its place.
pub(crate) proof fn lemma_part(s: Seq<char>, pos: int, word: Seq<char>, offset: int, part: Seq<char>)
    requires
        has_word(s, pos, word),
        0 <= offset,
        offset + part.len() <= word.len(),
        word.subrange(offset, offset + part.len()) == part,
    ensures
        has_word(s, pos + offset, part),
{
    assert(s.subrange(pos + offset, pos + offset + part.len()) =~= word.subrange(
        offset,
        offset + part.len(),
    )) by {
        assert forall|i: int| 0 <= i < part.len() implies s[pos + offset + i] == #[trigger] word[offset
            + i] by {
            assert(s.subrange(pos, pos + word.len())[offset + i] == word[offset + i]);
        }
    }
}

/// The characters of a word that stands in `s` are those of `s`.
pub(crate) proof fn lemma_word_chars(s: Seq<char>, pos: int, word: Seq<char>)
    requires
        has_word(s, pos, word),
    ensures
        forall|i: int| 0 <= i < word.len() ==> #[trigger] s[pos + i] == word[i],
{
    assert forall|i: int| 0 <= i < word.len() implies #[trigger] s[pos + i] == word[i] by {
        assert(s.subrange(pos, pos + word.len())[i] == word[i]);
    }
}

/// Whether `c` is whitespace.
pub(crate) fn is_space_char(c: char) -> (r: bool)
    ensures
        r == is_space(c),
{
    c == ' ' || c == '\t' || c == '\n' || c == '\r'
}

/// Whether `c` is a decimal digit.
pub(crate) fn is_digit_char(c: char) -> (r: bool)
    ensures
        r == is_digit(c),
{
    '0' <= c && c <= '9'
}

/// Whether `word` stands at `pos`.
pub(crate) fn word_at(chars: &[char], pos: usize, word: &[char]) -> (r: bool)
    requires
        pos <= chars@.len(),
    ensures
        r == has_word(chars@, pos as int, word@),
{
    if word.len() > chars.len() - pos {
        return false;
    }
    let mut i: usize = 0;
    while i < word.len()
        invariant
            i <= word.len(),
            pos + word.len() <= chars.len(),
            forall|j: int| 0 <= j < i ==> chars@[pos + j] == word@[j],
        decreases word.len() - i,
    {
        if chars[pos + i] != word[i] {
            assert(chars@.subrange(pos as int, pos + word@.len())[i as int] != word@[i as int]);
            return false;
        }
        i += 1;
    }
    assert(chars@.subrange(pos as int, pos + word@.len()) =~= word@);
    true
}

/// The first position at or after `pos` that holds no whitespace.
pub(crate) fn skip_spaces_from(chars: &[char], pos: usize) -> (r: usize)
    requires
        pos <= chars@.len(),
    ensures
        r == skip_spaces(chars@, pos as int),
        pos <= r <= chars@.len(),
{
    let mut i: usize = pos;
    while i < chars.len() && is_space_char(chars[i])
        invariant
            pos <= i <= chars@.len(),
            skip_spaces(chars@, pos as int) == skip_spaces(chars@, i as int),
        decreases chars@.len() - i,
    {
        i += 1;
    }
    i
}

/// The value of a decimal digit.
pub open spec fn digit_value(c: char) -> int {
    c as int - '0' as int
}

/// The character of a decimal digit.
pub open spec fn digit_char(d: int) -> char {
    if d == 0 {
        '0'
    } else if d == 1 {
        '1'
    } else if d == 2 {
        '2'
    } else if d == 3 {
        '3'
    } else if d == 4 {
        '4'
    } else if d == 5 {
        '5'
    } else if d == 6 {
        '6'
    } else if d == 7 {
        '7'
    } else if d == 8 {
        '8'
    } else {
        '9'
    }
}

/// Every character of `s` is a decimal digit.
pub open spec fn all_digits(s: Seq<char>) -> bool {
    forall|i: int| 0 <= i < s.len() ==> is_digit(#[trigger] s[i])
}

/// The number that the decimal digits of `s` write.
pub open spec fn decimal_value(s: Seq<char>) -> int
    decreases s.len(),
{
    if s.len() == 0 {
        0
    } else {
        decimal_value(s.drop_last()) * 10 + digit_value(s.last())
    }
}

/// The `width` low decimal digits of `n`, most significant first.
pub open spec fn decimal_digits(n: int, width: nat) -> Seq<char>
    decreases width,
{
    if width == 0 {
        Seq::empty()
    } else {
        decimal_digits(n / 10, (width - 1) as nat).push(digit_char(n % 10))
    }
}

/// The character of a decimal digit.
pub(crate) fn char_of_digit(d: u8) -> (r: char)
    requires
        d <= 9,
    ensures
        r == digit_char(d as int),
        is_digit(r),
        digit_value(r) == d,
{
    (d + 48) as char
}

/// A class of characters of which a token may be a run.
#[derive(Clone, Copy, Debug, PartialEq, Eq, Structural)]
pub enum CharClass {
    /// Decimal digits.
    Digit,
    /// Hexadecimal digits.
    Hex,
    /// Letters, digits and the underscore.
    Name,
    /// What a time zone name may hold: letters, digits, `-`, `_`, `/`, `+`.
    Zone,
}

impl CharClass {
    /// `c` belongs to the class.
    pub open spec fn has(self, c: char) -> bool {
        match self {
            CharClass::Digit => is_digit(c),
            CharClass::Hex => is_hex_digit(c),
            CharClass::Name => is_letter(c) || is_digit(c) || c == '_',
            CharClass::Zone => is_letter(c) || is_digit(c) || c == '-' || c == '_' || c == '/'
                || c == '+',
        }
    }

    /// Whether `c` belongs to the class.
    pub(crate) fn holds(self, c: char) -> (r: bool)
        ensures
            r == self.has(c),
    {
        let letter = ('a' <= c && c <= 'z') || ('A' <= c && c <= 'Z');
        let digit = '0' <= c && c <= '9';
        match self {
            CharClass::Digit => digit,
            CharClass::Hex => digit || ('a' <= c && c <= 'f') || ('A' <= c && c <= 'F'),
            CharClass::Name => letter || digit || c == '_',
            CharClass::Zone => letter || digit || c == '-' || c == '_' || c == '/' || c == '+',
        }
    }
}

/// The end of the run of characters of `class` that starts at `pos`.
pub open spec fn run_end(s: Seq<char>, pos: int, class: CharClass) -> int
    decreases s.len() - pos,
{
    if 0 <= pos < s.len() && class.has(s[pos]) {
        run_end(s, pos + 1, class)
    } else {
        pos
    }
}

/// A run ends where the first character outside the class stands.
pub(crate) proof fn lemma_run_end(s: Seq<char>, pos: int, class: CharClass)
    requires
        0 <= pos <= s.len(),
    ensures
        pos <= run_end(s, pos, class) <= s.len(),
        forall|i: int| pos <= i < run_end(s, pos, class) ==> class.has(#[trigger] s[i]),
        run_end(s, pos, class) < s.len() ==> !class.has(s[run_end(s, pos, class)]),
    decreases s.len() - pos,
{
    if pos < s.len() && class.has(s[pos]) {
        lemma_run_end(s, pos + 1, class);
    }
}

/// Characters of the class from `pos` up to `end`, and none at `end`, make
/// `end` the end of the run.
pub(crate) proof fn lemma_run_end_is(s: Seq<char>, pos: int, end: int, class: CharClass)
    requires
        0 <= pos <= end <= s.len(),
        forall|i: int| pos <= i < end ==> class.has(#[trigger] s[i]),
        end < s.len() ==> !class.has(s[end]),
    ensures
        run_end(s, pos, class) == end,
    decreases end - pos,
{
    if pos < end {
        lemma_run_end_is(s, pos + 1, end, class);
    }
}

/// The end of the run of characters of `class` that starts at `pos`.
pub(crate) fn run_end_from(chars: &[char], pos: usize, class: CharClass) -> (r: usize)
    requires
        pos <= chars@.len(),
    ensures
        r == run_end(chars@, pos as int, class),
        pos <= r <= chars@.len(),
{
    let mut i: usize = pos;
    while i < chars.len() && class.holds(chars[i])
        invariant
            pos <= i <= chars@.len(),
            run_end(chars@, pos as int, class) == run_end(chars@, i as int, class),
        decreases chars@.len() - i,
    {
        i += 1;
    }
    i
}

/// The end of the run of digits that starts at `pos`.
pub open spec fn digits_end(s: Seq<char>, pos: int) -> int {
    run_end(s, pos, CharClass::Digit)
}

/// A run of digits ends where the first character that is no digit stands.
pub(crate) proof fn lemma_digits_end(s: Seq<char>, pos: int)
    requires
        0 <= pos <= s.len(),
    ensures
        pos <= digits_end(s, pos) <= s.len(),
        forall|i: int| pos <= i < digits_end(s, pos) ==> is_digit(#[trigger] s[i]),
        digits_end(s, pos) < s.len() ==> !is_digit(s[digits_end(s, pos)]),
{
    lemma_run_end(s, pos, CharClass::Digit);
}

/// Digits from `pos` up to `end`, and none at `end`, make `end` the end of
/// the run.
pub(crate) proof fn lemma_digits_end_is(s: Seq<char>, pos: int, end: int)
    requires
        0 <= pos <= end <= s.len(),
        forall|i: int| pos <= i < end ==> is_digit(#[trigger] s[i]),
        end < s.len() ==> !is_digit(s[end]),
    ensures
        digits_end(s, pos) == end,
{
    lemma_run_end_is(s, pos, end, CharClass::Digit);
}

/// The end of the run of digits that starts at `pos`.
pub(crate) fn digits_end_from(chars: &[char], pos: usize) -> (r: usize)
    requires
        pos <= chars@.len(),
    ensures
        r == digits_end(chars@, pos as int),
        pos <= r <= chars@.len(),
{
    run_end_from(chars, pos, CharClass::Digit)
}

/// The value of a hexadecimal digit.
pub open spec fn hex_value(c: char) -> int {
    if is_digit(c) {
        c as int - '0' as int
    } else if 'a' <= c <= 'f' {
        c as int - 'a' as int + 10
    } else {
        c as int - 'A' as int + 10
    }
}

/// The lower-case character of a hexadecimal digit.
pub open spec fn hex_char(d: int) -> char {
    if d < 10 {
        digit_char(d)
    } else if d == 10 {
        'a'
    } else if d == 11 {
        'b'
    } else if d == 12 {
        'c'
    } else if d == 13 {
        'd'
    } else if d == 14 {
        'e'
    } else {
        'f'
    }
}

/// Whether `c` is a hexadecimal digit.
pub(crate) fn is_hex_digit_char(c: char) -> (r: bool)
    ensures
        r == is_hex_digit(c),
{
    ('0' <= c && c <= '9') || ('a' <= c && c <= 'f') || ('A' <= c && c <= 'F')
}

/// The value of a hexadecimal digit.
pub(crate) fn hex_value_of(c: char) -> (r: u8)
    requires
        is_hex_digit(c),
    ensures
        r == hex_value(c),
        r < 16,
{
    if '0' <= c && c <= '9' {
        (c as u8) - 48
    } else if 'a' <= c && c <= 'f' {
        (c as u8) - 97 + 10
    } else {
        (c as u8) - 65 + 10
    }
}

/// The lower-case character of a hexadecimal digit.
pub(crate) fn char_of_hex(d: u8) -> (r: char)
    requires
        d < 16,
    ensures
        r == hex_char(d as int),
        is_hex_digit(r),
        hex_value(r) == d,
{
    if d < 10 {
        (d + 48) as char
    } else {
        (d - 10 + 97) as char
    }
}

/// The characters of a text, one by one.
pub(crate) fn chars_of(text: &str) -> (r: Vec<char>)
    ensures
        r@ == text@,
{
    let mut out: Vec<char> = Vec::new();
    for c in it: text.chars()
        invariant
            out@ == it.seq().take(it.index() as int),
            it.seq() == text@,
    {
        out.push(c);
    }
    out
}

} // verus!
