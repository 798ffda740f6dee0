//! Reading back what was written: the trees whose canonical text the
//! grammar reads as the same tree, and the proof that it does.

use crate::filters::ast::{CompareOperator, ExprView, ValueView};
use crate::filters::error::Error;
use crate::filters::grammar::{
    any_expr, comparison_operator, filter, filter_list, has_char, lemma_any_compare,
    lemma_any_group, lemma_any_in, lemma_any_value, lemma_filter_and, lemma_filter_none,
    lemma_filter_not, lemma_filter_operand_alone, lemma_filter_or, lemma_list_empty,
    lemma_list_first, lemma_more_next, lemma_more_none, lemma_value_call, lemma_value_identifier,
    lemma_value_literal, more_filters, negation_at, value_expr,
};
use crate::filters::literal::{
    date_at, date_literal, date_time_literal, has_word_any_case, identifier_end, is_letter_of,
    is_name_start, literal, number_literal, string_literal, time_literal, uuid_literal, Parsed,
};
use crate::filters::number::is_canonical_decimal;
use crate::filters::round_trip_values::{
    lemma_date, lemma_date_time, lemma_keyword, lemma_number, lemma_string, lemma_time,
    lemma_uuid, reads_literal,
};
use crate::filters::temporal::SECOND_NANOS;
use crate::filters::text::{
    digits_end, has_word, is_digit, is_hex_digit, is_letter, is_space, lemma_part,
    lemma_run_end_is, lemma_skip_spaces, lemma_skip_spaces_within, lemma_word_chars, skip_spaces,
    CharClass,
};
use crate::filters::to_query_string::{expr_text, list_text, operand_text, value_text};
use crate::filters::uuid::is_hyphen_place;
use vstd::prelude::*;

verus! {

// ---------------------------------------------------------------------------
// What may follow a text
// ---------------------------------------------------------------------------

/// A token ends at `at`: the text ends there, or whitespace, a closing
/// parenthesis or a comma stands there.
pub open spec fn is_stop(s: Seq<char>, at: int) -> bool {
    0 <= at <= s.len() && (at == s.len() || is_space(s[at]) || s[at] == ')' || s[at] == ',')
}

/// After the whitespace from `at` the text ends, or a closing parenthesis
/// or a comma stands.
pub open spec fn closes(s: Seq<char>, at: int) -> bool {
    let next = skip_spaces(s, at);
    0 <= at <= s.len() && (next == s.len() || s[next] == ')' || s[next] == ',')
}

/// What stands at `at` ends an operand: the text closes there, or ` or `
/// or ` and ` follows.
pub open spec fn joins(s: Seq<char>, at: int) -> bool {
    closes(s, at) || has_word(s, at, seq![' ', 'o', 'r', ' ']) || has_word(
        s,
        at,
        seq![' ', 'a', 'n', 'd', ' '],
    )
}

/// What stands at `pos` begins no negation, no group and no whitespace.
pub open spec fn starts_plain(s: Seq<char>, pos: int) -> bool {
    &&& 0 <= pos < s.len()
    &&& !is_space(s[pos])
    &&& s[pos] != '('
    &&& s[pos] != ')'
    &&& s[pos] != ','
    &&& !negation_at(s, pos)
}

/// `end` lies in the whitespace that follows `at`.
pub open spec fn ends_near(s: Seq<char>, at: int, end: int) -> bool {
    at <= end <= skip_spaces(s, at)
}

// ---------------------------------------------------------------------------
// The trees that are read back
// ---------------------------------------------------------------------------

/// A name that is read back as a name: a letter or an underscore, then
/// one or more letters, digits and underscores. It does not begin with
/// `not`, unless just one letter or underscore follows: after `not` the
/// rest would be read as the filter that is negated, and one letter is
/// none.
pub open spec fn is_written_name(name: Seq<char>) -> bool {
    &&& name.len() >= 2
    &&& is_name_start(name[0])
    &&& forall|i: int| 1 <= i < name.len() ==> CharClass::Name.has(#[trigger] name[i])
    &&& has_word(name, 0, seq!['n', 'o', 't']) ==> name.len() == 4 && is_name_start(name[3])
}

/// A name that is read back as an identifier: a written name that does
/// not begin like `true`, `false` or `null` in any mix of cases.
pub open spec fn is_written_identifier(name: Seq<char>) -> bool {
    &&& is_written_name(name)
    &&& !has_word_any_case(name, 0, seq!['t', 'r', 'u', 'e'])
    &&& !has_word_any_case(name, 0, seq!['f', 'a', 'l', 's', 'e'])
    &&& !has_word_any_case(name, 0, seq!['n', 'u', 'l', 'l'])
}

/// A literal that is read back: any text, truth value and identifier of
/// 128 bits and the null literal; a number that is not negative; a date
/// in the years 0 to 9999; a time of whole seconds; an instant in those
/// years of whole milliseconds. A leap second must stand at second 59.
pub open spec fn is_written_value(v: ValueView) -> bool {
    match v {
        ValueView::Null => true,
        ValueView::Bool(_) => true,
        ValueView::String(_) => true,
        ValueView::Number(text) => is_canonical_decimal(text) && text[0] != '-',
        ValueView::Uuid(bytes) => bytes.len() == 16,
        ValueView::Date(date) => date.wf() && 0 <= date.year <= 9999,
        ValueView::Time(time) => time.wf() && time.is_plain() && time.nanosecond % (
        SECOND_NANOS as int) == 0,
        ValueView::DateTime(instant) => instant.wf() && 0 <= instant.date.year <= 9999
            && instant.time.is_plain() && instant.time.nanosecond % 1_000_000 == 0,
    }
}

/// A tree that is read back where a value expression is read.
pub open spec fn is_value_tree(e: ExprView) -> bool
    decreases e, 0int,
{
    match e {
        ExprView::Function(name, args) => is_written_name(name) && are_filter_trees(args, 0),
        ExprView::Identifier(name) => is_written_identifier(name),
        ExprView::Value(v) => is_written_value(v),
        _ => false,
    }
}

/// A tree that is read back without parentheses as an operand of `and`
/// and `or`: a comparison of two value trees, a list test of a value tree,
/// or a value tree.
pub open spec fn is_plain_tree(e: ExprView) -> bool
    decreases e, 1int,
{
    match e {
        ExprView::Compare(l, _, r) => is_value_tree(*l) && is_value_tree(*r),
        ExprView::In(l, items) => is_value_tree(*l) && are_filter_trees(items, 0),
        _ => is_value_tree(e),
    }
}

/// A tree that is read back: a plain tree, a negation of a filter tree,
/// or an `and` or `or` whose right operand is a filter tree and whose
/// left operand is a plain tree or again an `and` or `or` of this kind. A
/// negation cannot be a left operand: written without parentheses, its
/// `not` would cover the whole `and` or `or`.
pub open spec fn is_filter_tree(e: ExprView) -> bool
    decreases e, 2int,
{
    match e {
        ExprView::Not(inner) => is_filter_tree(*inner),
        ExprView::Or(l, r) | ExprView::And(l, r) => is_filter_tree(*r) && !(*l is Not)
            && is_filter_tree(*l),
        _ => is_plain_tree(e),
    }
}

/// The items of a list from item `from` on are filter trees.
pub open spec fn are_filter_trees(items: Seq<ExprView>, from: int) -> bool
    decreases items, items.len() - from,
{
    if !(0 <= from < items.len()) {
        true
    } else {
        is_filter_tree(items[from]) && are_filter_trees(items, from + 1)
    }
}

// ---------------------------------------------------------------------------
// Small facts about texts
// ---------------------------------------------------------------------------

/// What stands at `pos` begins a text: no whitespace, and nothing that
/// ends a list or a group.
pub open spec fn starts_text(s: Seq<char>, pos: int) -> bool {
    0 <= pos < s.len() && !is_space(s[pos]) && s[pos] != ')' && s[pos] != ','
}

/// The items of a list after item `from - 1`, each with the comma and the
/// space before it.
pub open spec fn tail_text(items: Seq<ExprView>, from: int) -> Seq<char> {
    if 0 <= from < items.len() {
        seq![',', ' '] + list_text(items, from)
    } else {
        Seq::empty()
    }
}

/// The word between the operands of an `or`, and else of an `and`.
pub open spec fn connective_word(e: ExprView) -> Seq<char> {
    if e is Or {
        seq![' ', 'o', 'r', ' ']
    } else {
        seq![' ', 'a', 'n', 'd', ' ']
    }
}

/// The left operand of an `and` or `or`.
pub open spec fn left_operand(e: ExprView) -> ExprView {
    match e {
        ExprView::Or(l, _) => *l,
        ExprView::And(l, _) => *l,
        _ => e,
    }
}

/// The right operand of an `and` or `or`.
pub open spec fn right_operand(e: ExprView) -> ExprView {
    match e {
        ExprView::Or(_, r) => *r,
        ExprView::And(_, r) => *r,
        _ => e,
    }
}

/// A word that stands at `pos` has its first characters there.
pub(crate) proof fn lemma_first_chars(s: Seq<char>, pos: int)
    ensures
        forall|w: Seq<char>|
            w.len() > 0 && #[trigger] has_word(s, pos, w) ==> 0 <= pos < s.len() && s[pos] == w[0],
{
    assert forall|w: Seq<char>| w.len() > 0 && #[trigger] has_word(s, pos, w) implies 0 <= pos
        < s.len() && s[pos] == w[0] by {
        lemma_word_chars(s, pos, w);
        assert(s[pos + 0] == w[0]);
    }
}

/// Where no whitespace stands, nothing is skipped.
pub(crate) proof fn lemma_no_skip(s: Seq<char>, pos: int)
    requires
        0 <= pos <= s.len(),
        pos < s.len() ==> !is_space(s[pos]),
    ensures
        skip_spaces(s, pos) == pos,
{
}

/// One space before a text is skipped.
pub(crate) proof fn lemma_skip_one(s: Seq<char>, pos: int)
    requires
        0 <= pos < s.len(),
        s[pos] == ' ',
        pos + 1 < s.len() ==> !is_space(s[pos + 1]),
    ensures
        skip_spaces(s, pos) == pos + 1,
{
    lemma_no_skip(s, pos + 1);
}

/// The operator whose letters stand at `pos` is the one that is read
/// there.
proof fn lemma_comparison_operator(s: Seq<char>, pos: int, op: CompareOperator)
    requires
        has_word(s, pos, op.text()),
    ensures
        comparison_operator(s, pos) == Some(op),
        0 <= pos < s.len(),
        s[pos] == 'e' || s[pos] == 'n' || s[pos] == 'g' || s[pos] == 'l',
{
    lemma_word_chars(s, pos, op.text());
    assert(s[pos + 0] == op.text()[0]);
    assert(s[pos + 1] == op.text()[1]);
    assert forall|w: Seq<char>| w.len() == 2 && #[trigger] has_word(s, pos, w) implies w[0] == s[pos]
        && w[1] == s[pos + 1] by {
        lemma_word_chars(s, pos, w);
        assert(s[pos + 0] == w[0]);
        assert(s[pos + 1] == w[1]);
    }
}

/// No comparison operator and no `in` begins with what stands at `pos`.
proof fn lemma_no_operator(s: Seq<char>, pos: int)
    requires
        0 <= pos <= s.len(),
        pos == s.len() || s[pos] == ')' || s[pos] == ',' || s[pos] == 'o' || s[pos] == 'a',
    ensures
        comparison_operator(s, pos) is None,
        !has_word(s, pos, seq!['i', 'n']),
        !has_char(s, pos, '('),
{
    lemma_first_chars(s, pos);
}

/// Where the text closes, no `or` and no `and` stands.
proof fn lemma_no_connective(s: Seq<char>, pos: int)
    requires
        0 <= pos <= s.len(),
        pos == s.len() || s[pos] == ')' || s[pos] == ',',
    ensures
        !has_word(s, pos, seq!['o', 'r']),
        !has_word(s, pos, seq!['a', 'n', 'd']),
{
    lemma_first_chars(s, pos);
}

/// What joins an operand to the next ends a token, and after the
/// whitespace from there stands the end of the text, a closing
/// parenthesis, a comma, or the `o` or `a` of a connective.
proof fn lemma_joins(s: Seq<char>, at: int)
    requires
        joins(s, at),
    ensures
        is_stop(s, at),
        at <= skip_spaces(s, at) <= s.len(),
        ({
            let next = skip_spaces(s, at);
            next == s.len() || s[next] == ')' || s[next] == ',' || s[next] == 'o' || s[next]
                == 'a'
        }),
        has_word(s, at, seq![' ', 'o', 'r', ' ']) ==> skip_spaces(s, at) == at + 1 && has_word(
            s,
            at + 1,
            seq!['o', 'r'],
        ) && s[at + 3] == ' ',
        has_word(s, at, seq![' ', 'a', 'n', 'd', ' ']) ==> skip_spaces(s, at) == at + 1
            && has_word(s, at + 1, seq!['a', 'n', 'd']) && !has_word(s, at + 1, seq!['o', 'r'])
            && s[at + 4] == ' ',
{
    if has_word(s, at, seq![' ', 'o', 'r', ' ']) {
        let w = seq![' ', 'o', 'r', ' '];
        lemma_word_chars(s, at, w);
        assert(s[at + 0] == ' ' && s[at + 1] == 'o' && s[at + 3] == ' ');
        lemma_skip_one(s, at);
        assert(w.subrange(1, 3) =~= seq!['o', 'r']);
        lemma_part(s, at, w, 1, seq!['o', 'r']);
    } else if has_word(s, at, seq![' ', 'a', 'n', 'd', ' ']) {
        let w = seq![' ', 'a', 'n', 'd', ' '];
        lemma_word_chars(s, at, w);
        assert(s[at + 0] == ' ' && s[at + 1] == 'a' && s[at + 4] == ' ');
        lemma_skip_one(s, at);
        assert(w.subrange(1, 4) =~= seq!['a', 'n', 'd']);
        lemma_part(s, at, w, 1, seq!['a', 'n', 'd']);
        lemma_first_chars(s, at + 1);
    } else {
        lemma_skip_spaces(s, at);
        if skip_spaces(s, at) > at {
            assert(is_space(s[at]));
        }
    }
}

/// A text that closes at `at` ends an operand there.
proof fn lemma_closes(s: Seq<char>, at: int)
    requires
        closes(s, at),
    ensures
        joins(s, at),
        at <= skip_spaces(s, at) <= s.len(),
{
    lemma_skip_spaces(s, at);
}

/// Where a token ends that no opening parenthesis follows, and what
/// stands before it begins a text, the text before it is not empty.
pub(crate) proof fn lemma_not_empty(s: Seq<char>, pos: int, at: int)
    requires
        starts_text(s, pos),
        is_stop(s, at),
        pos <= at,
    ensures
        pos < at,
{
}

// ---------------------------------------------------------------------------
// Where no literal stands
// ---------------------------------------------------------------------------

/// No UUID literal stands at `pos` where one of its first 36 characters
/// is not what the shape asks for.
pub(crate) proof fn lemma_no_uuid(s: Seq<char>, pos: int, k: int)
    requires
        0 <= k < 36,
        0 <= pos,
        pos + 36 <= s.len() ==> if is_hyphen_place(k) {
            s[pos + k] != '-'
        } else {
            !is_hex_digit(s[pos + k])
        },
    ensures
        uuid_literal(s, pos) is None,
{
    if pos + 36 <= s.len() {
        let t = s.subrange(pos, pos + 36);
        assert(t[k] == s[pos + k]);
    }
}

/// No keyword stands where the first character is no letter.
pub(crate) proof fn lemma_no_keyword_at(s: Seq<char>, pos: int, word: Seq<char>)
    requires
        0 <= pos <= s.len(),
        word.len() > 0,
        pos < s.len() ==> !is_letter_of(s[pos], word[0]),
    ensures
        !has_word_any_case(s, pos, word),
{
    if has_word_any_case(s, pos, word) {
        assert(is_letter_of(s[pos + 0], word[0]));
    }
}

/// No string, date, time or number stands where neither a quote nor a
/// digit stands.
pub(crate) proof fn lemma_no_early_literal(s: Seq<char>, pos: int)
    requires
        0 <= pos <= s.len(),
        pos < s.len() ==> s[pos] != '\'' && !is_digit(s[pos]),
    ensures
        string_literal(s, pos) is None,
        date_time_literal(s, pos) is None,
        date_literal(s, pos) is None,
        time_literal(s, pos) is None,
        number_literal(s, pos) is None,
{
    if pos + 10 <= s.len() {
        assert(s.subrange(pos, pos + 10)[0] == s[pos]);
    }
    assert(!date_at(s, pos));
    assert(digits_end(s, pos) == pos);
}

/// No literal stands where neither a quote nor a digit stands, no UUID
/// and no keyword.
pub(crate) proof fn lemma_no_literal(s: Seq<char>, pos: int)
    requires
        0 <= pos <= s.len(),
        pos < s.len() ==> s[pos] != '\'' && !is_digit(s[pos]),
        uuid_literal(s, pos) is None,
        !has_word_any_case(s, pos, seq!['t', 'r', 'u', 'e']),
        !has_word_any_case(s, pos, seq!['f', 'a', 'l', 's', 'e']),
        !has_word_any_case(s, pos, seq!['n', 'u', 'l', 'l']),
    ensures
        literal(s, pos) is None,
{
    if pos + 10 <= s.len() {
        assert(s.subrange(pos, pos + 10)[0] == s[pos]);
    }
    assert(!date_at(s, pos));
    assert(digits_end(s, pos) == pos);
}

/// Nothing that begins a filter stands where the text ends or a closing
/// parenthesis stands.
proof fn lemma_no_filter(s: Seq<char>, pos: int)
    requires
        0 <= pos <= s.len(),
        pos == s.len() || s[pos] == ')',
    ensures
        filter(s, pos) is None,
{
    lemma_first_chars(s, pos);
    lemma_no_uuid(s, pos, 0);
    lemma_no_keyword_at(s, pos, seq!['t', 'r', 'u', 'e']);
    lemma_no_keyword_at(s, pos, seq!['f', 'a', 'l', 's', 'e']);
    lemma_no_keyword_at(s, pos, seq!['n', 'u', 'l', 'l']);
    lemma_no_literal(s, pos);
    lemma_filter_none(s, pos);
}

// ---------------------------------------------------------------------------
// Names
// ---------------------------------------------------------------------------

/// A letter or an underscore before a character that no name holds
/// begins no filter.
proof fn lemma_lone_letter(s: Seq<char>, pos: int)
    requires
        0 <= pos < s.len(),
        is_name_start(s[pos]),
        pos + 1 < s.len() ==> !CharClass::Name.has(s[pos + 1]),
    ensures
        filter(s, pos) is None,
{
    assert(!has_word(s, pos, seq!['n', 'o', 't'])) by {
        if has_word(s, pos, seq!['n', 'o', 't']) {
            lemma_word_chars(s, pos, seq!['n', 'o', 't']);
            assert(s[pos + 1] == 'o');
        }
    }
    lemma_no_uuid(s, pos, 1);
    assert(!has_word_any_case(s, pos, seq!['t', 'r', 'u', 'e'])) by {
        if has_word_any_case(s, pos, seq!['t', 'r', 'u', 'e']) {
            assert(is_letter_of(s[pos + 1], seq!['t', 'r', 'u', 'e'][1]));
        }
    }
    assert(!has_word_any_case(s, pos, seq!['f', 'a', 'l', 's', 'e'])) by {
        if has_word_any_case(s, pos, seq!['f', 'a', 'l', 's', 'e']) {
            assert(is_letter_of(s[pos + 1], seq!['f', 'a', 'l', 's', 'e'][1]));
        }
    }
    assert(!has_word_any_case(s, pos, seq!['n', 'u', 'l', 'l'])) by {
        if has_word_any_case(s, pos, seq!['n', 'u', 'l', 'l']) {
            assert(is_letter_of(s[pos + 1], seq!['n', 'u', 'l', 'l'][1]));
        }
    }
    lemma_no_literal(s, pos);
    assert(identifier_end(s, pos) is None);
    lemma_filter_none(s, pos);
}

/// A written name that stands before a character that no name holds is
/// read as a name of its whole length.
pub(crate) proof fn lemma_name_end(name: Seq<char>, s: Seq<char>, pos: int)
    requires
        is_written_name(name),
        has_word(s, pos, name),
        pos + name.len() < s.len() ==> !CharClass::Name.has(s[pos + name.len()]),
    ensures
        identifier_end(s, pos) == Some(pos + name.len()),
        starts_plain(s, pos),
        s.subrange(pos, pos + name.len()) == name,
        is_name_start(s[pos]),
{
    let n = name.len() as int;
    lemma_word_chars(s, pos, name);
    assert(s[pos + 0] == name[0]);
    assert forall|i: int| pos + 1 <= i < pos + n implies CharClass::Name.has(#[trigger] s[i]) by {
        assert(s[pos + (i - pos)] == name[i - pos]);
    }
    lemma_run_end_is(s, pos + 1, pos + n, CharClass::Name);
    if has_word(s, pos, seq!['n', 'o', 't']) {
        lemma_word_chars(s, pos, seq!['n', 'o', 't']);
        assert(s[pos + 0] == 'n' && s[pos + 1] == 'o' && s[pos + 2] == 't');
        assert(s[pos + 1] == name[1]);
        if n >= 3 {
            assert(s[pos + 2] == name[2]);
            assert(name.subrange(0, 3) =~= seq!['n', 'o', 't']);
            // One letter after `not` is no filter.
            assert(s[pos + 3] == name[3]);
            lemma_no_skip(s, pos + 3);
            lemma_lone_letter(s, pos + 3);
        } else {
            assert(false);
        }
    }
}

/// A keyword with which a name does not begin does not stand where the
/// name stands before the end of a token.
proof fn lemma_no_keyword(name: Seq<char>, s: Seq<char>, pos: int, word: Seq<char>)
    requires
        has_word(s, pos, name),
        is_stop(s, pos + name.len()),
        !has_word_any_case(name, 0, word),
        forall|i: int| 0 <= i < word.len() ==> is_letter(#[trigger] word[i]),
    ensures
        !has_word_any_case(s, pos, word),
{
    let n = name.len() as int;
    lemma_word_chars(s, pos, name);
    if has_word_any_case(s, pos, word) {
        if n >= word.len() {
            assert forall|i: int| 0 <= i < word.len() implies is_letter_of(
                #[trigger] name[0 + i],
                word[i],
            ) by {
                assert(s[pos + i] == name[i]);
            }
            assert(false);
        } else {
            assert(is_letter_of(s[pos + n], word[n]));
            assert(is_letter(word[n]));
            assert(false);
        }
    }
}

/// A written identifier that stands before the end of a token, and is
/// not followed by an opening parenthesis, is read as that identifier.
proof fn lemma_identifier(name: Seq<char>, s: Seq<char>, pos: int)
    requires
        is_written_identifier(name),
        has_word(s, pos, name),
        is_stop(s, pos + name.len()),
        !has_char(s, skip_spaces(s, pos + name.len()), '('),
    ensures
        value_expr(s, pos) == Some(
            Parsed { value: Ok(ExprView::Identifier(name)), end: pos + name.len() },
        ),
        starts_plain(s, pos),
{
    let n = name.len() as int;
    lemma_name_end(name, s, pos);
    lemma_word_chars(s, pos, name);
    if n >= 9 {
        assert(s[pos + 8] == name[8]);
        lemma_no_uuid(s, pos, 8);
    } else {
        lemma_no_uuid(s, pos, n);
    }
    let t = seq!['t', 'r', 'u', 'e'];
    assert forall|i: int| 0 <= i < t.len() implies is_letter(#[trigger] t[i]) by {}
    lemma_no_keyword(name, s, pos, t);
    let f = seq!['f', 'a', 'l', 's', 'e'];
    assert forall|i: int| 0 <= i < f.len() implies is_letter(#[trigger] f[i]) by {}
    lemma_no_keyword(name, s, pos, f);
    let u = seq!['n', 'u', 'l', 'l'];
    assert forall|i: int| 0 <= i < u.len() implies is_letter(#[trigger] u[i]) by {}
    lemma_no_keyword(name, s, pos, u);
    lemma_no_literal(s, pos);
    lemma_value_identifier(s, pos, pos + n);
}

/// A written literal that stands before the end of a token, and is not
/// followed by an opening parenthesis, is read as that literal.
proof fn lemma_written_value(v: ValueView, s: Seq<char>, pos: int)
    requires
        is_written_value(v),
        has_word(s, pos, value_text(v)),
        is_stop(s, pos + value_text(v).len()),
        !has_char(s, skip_spaces(s, pos + value_text(v).len()), '('),
    ensures
        value_expr(s, pos) == Some(
            Parsed { value: Ok(ExprView::Value(v)), end: pos + value_text(v).len() },
        ),
        starts_plain(s, pos),
{
    let at = pos + value_text(v).len();
    match v {
        ValueView::Null => lemma_keyword(v, s, pos),
        ValueView::Bool(_) => lemma_keyword(v, s, pos),
        ValueView::String(text) => lemma_string(text, s, pos),
        ValueView::Number(text) => lemma_number(text, s, pos),
        ValueView::Uuid(bytes) => lemma_uuid(bytes, s, pos),
        ValueView::Date(date) => lemma_date(date, s, pos),
        ValueView::Time(time) => lemma_time(time, s, pos),
        ValueView::DateTime(instant) => lemma_date_time(instant, s, pos),
    }
    assert(reads_literal(s, pos, v, at));
    lemma_value_literal(s, pos, v, at);
}

// ---------------------------------------------------------------------------
// Trees
// ---------------------------------------------------------------------------

/// A value tree is read back where a value expression is read.
proof fn lemma_value(e: ExprView, s: Seq<char>, pos: int)
    requires
        is_value_tree(e),
        has_word(s, pos, expr_text(e)),
        is_stop(s, pos + expr_text(e).len()),
        !has_char(s, skip_spaces(s, pos + expr_text(e).len()), '('),
    ensures
        value_expr(s, pos) == Some(Parsed { value: Ok(e), end: pos + expr_text(e).len() }),
        starts_plain(s, pos),
    decreases e, 0int,
{
    match e {
        ExprView::Value(v) => {
            assert(value_text(v) == expr_text(e));
            lemma_written_value(v, s, pos);
        },
        ExprView::Identifier(name) => {
            lemma_identifier(name, s, pos);
        },
        ExprView::Function(name, args) => {
            let t = expr_text(e);
            let n = name.len() as int;
            let lt = list_text(args, 0);
            let m = lt.len() as int;
            assert(t =~= name + seq!['('] + lt + seq![')']);
            assert(t.subrange(0, n) =~= name);
            assert(t.subrange(n + 1, n + 1 + (m + 1)) =~= lt + seq![')']);
            lemma_part(s, pos, t, 0, name);
            lemma_part(s, pos, t, n + 1, lt + seq![')']);
            lemma_word_chars(s, pos, t);
            assert(s[pos + n] == t[n]);
            assert(s[pos + n] == '(');
            lemma_name_end(name, s, pos);
            lemma_no_skip(s, pos + n);
            lemma_whole_list(args, s, pos + n + 1);
            let close = pos + n + 1 + m;
            assert(s[pos + (n + 1 + m)] == t[n + 1 + m]);
            assert(s[close] == ')');
            lemma_no_skip(s, close);
            lemma_value_call(s, pos, pos + n, args, close);
        },
        _ => {},
    }
}

/// A list of filter trees before its closing parenthesis is read back.
proof fn lemma_whole_list(items: Seq<ExprView>, s: Seq<char>, pos: int)
    requires
        are_filter_trees(items, 0),
        has_word(s, pos, list_text(items, 0) + seq![')']),
    ensures
        filter_list(s, pos) == (Parsed {
            value: Ok::<Seq<ExprView>, Error>(items),
            end: pos + list_text(items, 0).len(),
        }),
        skip_spaces(s, pos) == pos,
        0 <= pos < s.len(),
    decreases items, items.len() + 1,
{
    let lt = list_text(items, 0);
    let whole = lt + seq![')'];
    lemma_word_chars(s, pos, whole);
    assert(s[pos + 0] == whole[0]);
    if items.len() == 0 {
        assert(s[pos] == ')');
        lemma_no_filter(s, pos);
        lemma_no_skip(s, pos);
        lemma_list_empty(s, pos);
        assert(items =~= Seq::<ExprView>::empty());
    } else {
        let it = expr_text(items[0]);
        let k = it.len() as int;
        let tail = tail_text(items, 1);
        assert(lt =~= it + tail);
        assert(whole.subrange(0, k) =~= it);
        assert(whole.subrange(k, k + (tail.len() + 1)) =~= tail + seq![')']);
        lemma_part(s, pos, whole, 0, it);
        lemma_part(s, pos, whole, k, tail + seq![')']);
        let at = pos + k;
        lemma_word_chars(s, at, tail + seq![')']);
        assert(s[at + 0] == (tail + seq![')'])[0]);
        assert(s[at] == ',' || s[at] == ')');
        lemma_no_skip(s, at);
        lemma_filter(items[0], s, pos);
        lemma_no_skip(s, pos);
        let found = filter(s, pos)->0;
        assert(found == Parsed { value: Ok::<ExprView, Error>(items[0]), end: at });
        lemma_more(items, 1, s, at);
        let rest = items.subrange(1, items.len() as int);
        lemma_list_first(s, pos, items[0], at, rest, at + tail.len());
        assert(seq![items[0]] + rest =~= items);
    }
}

/// The items of a list after the first, before its closing parenthesis,
/// are read back.
proof fn lemma_more(items: Seq<ExprView>, from: int, s: Seq<char>, pos: int)
    requires
        1 <= from <= items.len(),
        are_filter_trees(items, from),
        has_word(s, pos, tail_text(items, from) + seq![')']),
    ensures
        more_filters(s, pos) == (Parsed {
            value: Ok::<Seq<ExprView>, Error>(items.subrange(from, items.len() as int)),
            end: pos + tail_text(items, from).len(),
        }),
    decreases items, items.len() - from,
{
    let whole = tail_text(items, from) + seq![')'];
    lemma_word_chars(s, pos, whole);
    assert(s[pos + 0] == whole[0]);
    if from == items.len() {
        assert(s[pos] == ')');
        lemma_no_skip(s, pos);
        lemma_more_none(s, pos);
        assert(items.subrange(from, items.len() as int) =~= Seq::<ExprView>::empty());
    } else {
        let it = expr_text(items[from]);
        let k = it.len() as int;
        let tail = tail_text(items, from + 1);
        assert(list_text(items, from) =~= it + tail);
        assert(whole =~= seq![',', ' '] + it + tail + seq![')']);
        assert(s[pos] == ',');
        assert(s[pos + 1] == whole[1]);
        assert(s[pos + 1] == ' ');
        assert(whole.subrange(2, 2 + k) =~= it);
        assert(whole.subrange(2 + k, 2 + k + (tail.len() + 1)) =~= tail + seq![')']);
        lemma_part(s, pos, whole, 2, it);
        lemma_part(s, pos, whole, 2 + k, tail + seq![')']);
        let at = pos + 2 + k;
        lemma_word_chars(s, at, tail + seq![')']);
        assert(s[at + 0] == (tail + seq![')'])[0]);
        assert(s[at] == ',' || s[at] == ')');
        lemma_no_skip(s, at);
        lemma_filter(items[from], s, pos + 2);
        lemma_no_skip(s, pos);
        lemma_skip_one(s, pos + 1);
        let found = filter(s, pos + 2)->0;
        assert(found == Parsed { value: Ok::<ExprView, Error>(items[from]), end: at });
        lemma_more(items, from + 1, s, at);
        let rest = items.subrange(from + 1, items.len() as int);
        lemma_more_next(s, pos, items[from], at, rest, at + tail.len());
        assert(seq![items[from]] + rest =~= items.subrange(from, items.len() as int));
    }
}

/// A plain tree is read back where an operand is read.
proof fn lemma_plain(e: ExprView, s: Seq<char>, pos: int)
    requires
        is_plain_tree(e),
        has_word(s, pos, expr_text(e)),
        joins(s, pos + expr_text(e).len()),
    ensures
        any_expr(s, pos) matches Some(found) && found.value == Ok::<ExprView, Error>(e)
            && ends_near(s, pos + expr_text(e).len(), found.end),
        starts_plain(s, pos),
    decreases e, 1int,
{
    let t = expr_text(e);
    let at = pos + t.len();
    lemma_joins(s, at);
    match e {
        ExprView::Compare(l, op, r) => {
            let tl = expr_text(*l);
            let tr = expr_text(*r);
            let k = tl.len() as int;
            let o = op.text();
            assert(o.len() == 2);
            assert(t =~= tl + seq![' '] + o + seq![' '] + tr);
            assert(t.subrange(0, k) =~= tl);
            assert(t.subrange(k + 1, k + 1 + 2) =~= o);
            assert(t.subrange(k + 4, k + 4 + tr.len()) =~= tr);
            lemma_part(s, pos, t, 0, tl);
            lemma_part(s, pos, t, k + 1, o);
            lemma_part(s, pos, t, k + 4, tr);
            lemma_word_chars(s, pos, t);
            let al = pos + k;
            assert(s[pos + k] == t[k]);
            assert(s[al] == ' ');
            assert(s[pos + (k + 3)] == t[k + 3]);
            assert(s[al + 3] == ' ');
            lemma_comparison_operator(s, al + 1, op);
            lemma_skip_one(s, al);
            lemma_value(*l, s, pos);
            lemma_value(*r, s, al + 4);
            lemma_skip_one(s, al + 3);
            lemma_any_compare(s, pos, *l, al, op, *r, at);
        },
        ExprView::In(l, items) => {
            let tl = expr_text(*l);
            let k = tl.len() as int;
            let lt = list_text(items, 0);
            let m = lt.len() as int;
            let w = seq![' ', 'i', 'n', ' ', '('];
            assert(t =~= tl + w + lt + seq![')']);
            assert(t.subrange(0, k) =~= tl);
            assert(t.subrange(k, k + 5) =~= w);
            assert(t.subrange(k + 5, k + 5 + (m + 1)) =~= lt + seq![')']);
            lemma_part(s, pos, t, 0, tl);
            lemma_part(s, pos, t, k, w);
            lemma_part(s, pos, t, k + 5, lt + seq![')']);
            let al = pos + k;
            lemma_word_chars(s, al, w);
            assert(s[al + 0] == ' ' && s[al + 1] == 'i' && s[al + 2] == 'n' && s[al + 3] == ' '
                && s[al + 4] == '(');
            lemma_skip_one(s, al);
            lemma_value(*l, s, pos);
            lemma_first_chars(s, al + 1);
            assert(comparison_operator(s, al + 1) is None);
            assert(w.subrange(1, 3) =~= seq!['i', 'n']);
            lemma_part(s, al, w, 1, seq!['i', 'n']);
            lemma_skip_one(s, al + 3);
            lemma_whole_list(items, s, al + 5);
            let close = al + 5 + m;
            lemma_word_chars(s, pos, t);
            assert(s[pos + (k + 5 + m)] == t[k + 5 + m]);
            assert(s[close] == ')');
            lemma_no_skip(s, close);
            lemma_any_in(s, pos, *l, al, items, close);
        },
        _ => {
            lemma_value(e, s, pos);
            lemma_not_empty(s, pos, at);
            lemma_no_operator(s, skip_spaces(s, at));
            lemma_any_value(s, pos, Parsed { value: Ok(e), end: at });
        },
    }
}

/// An operand of `and` or `or` is read back where an operand is read: a
/// plain tree as it is, an `and` or `or` from between its parentheses.
proof fn lemma_operand(e: ExprView, s: Seq<char>, pos: int)
    requires
        is_filter_tree(e),
        !(e is Not),
        has_word(s, pos, operand_text(e)),
        joins(s, pos + operand_text(e).len()),
    ensures
        any_expr(s, pos) matches Some(found) && found.value == Ok::<ExprView, Error>(e)
            && ends_near(s, pos + operand_text(e).len(), found.end),
        starts_text(s, pos),
        !negation_at(s, pos),
    decreases e, 3int,
{
    if e is And || e is Or {
        let t = expr_text(e);
        let k = t.len() as int;
        let ot = operand_text(e);
        assert(ot =~= seq!['('] + t + seq![')']);
        assert(ot.subrange(1, 1 + k) =~= t);
        lemma_part(s, pos, ot, 1, t);
        lemma_word_chars(s, pos, ot);
        assert(s[pos + 0] == ot[0]);
        assert(s[pos + (1 + k)] == ot[1 + k]);
        let close = pos + 1 + k;
        assert(s[close] == ')');
        lemma_no_skip(s, close);
        lemma_filter(e, s, pos + 1);
        lemma_no_skip(s, pos + 1);
        lemma_first_chars(s, pos);
        lemma_joins(s, pos + ot.len());
        lemma_any_group(s, pos, filter(s, pos + 1)->0);
    } else {
        lemma_plain(e, s, pos);
    }
}

/// A filter tree is read back where a filter is read.
pub(crate) proof fn lemma_filter(e: ExprView, s: Seq<char>, pos: int)
    requires
        is_filter_tree(e),
        has_word(s, pos, expr_text(e)),
        closes(s, pos + expr_text(e).len()),
    ensures
        filter(s, pos) matches Some(found) && found.value == Ok::<ExprView, Error>(e) && ends_near(
            s,
            pos + expr_text(e).len(),
            found.end,
        ),
        starts_text(s, pos),
    decreases e, 2int,
{
    let t = expr_text(e);
    let at = pos + t.len();
    lemma_closes(s, at);
    match e {
        ExprView::Not(inner) => {
            let ti = expr_text(*inner);
            let w = seq!['n', 'o', 't', ' '];
            assert(t =~= w + ti);
            assert(t.subrange(0, 3) =~= seq!['n', 'o', 't']);
            assert(t.subrange(4, 4 + (ti.len() as int)) =~= ti);
            lemma_part(s, pos, t, 0, seq!['n', 'o', 't']);
            lemma_part(s, pos, t, 4, ti);
            lemma_word_chars(s, pos, t);
            assert(s[pos + 0] == t[0]);
            assert(s[pos + 3] == t[3]);
            lemma_filter(*inner, s, pos + 4);
            lemma_skip_one(s, pos + 3);
            let found = filter(s, pos + 4)->0;
            lemma_filter_not(s, pos, *inner, found.end);
        },
        ExprView::Or(l, r) => {
            assert(t =~= operand_text(*l) + connective_word(e) + operand_text(*r));
            lemma_connective(e, s, pos);
        },
        ExprView::And(l, r) => {
            assert(t =~= operand_text(*l) + connective_word(e) + operand_text(*r));
            lemma_connective(e, s, pos);
        },
        _ => {
            lemma_plain(e, s, pos);
            let found = any_expr(s, pos)->0;
            lemma_skip_spaces_within(s, at, found.end);
            lemma_no_connective(s, skip_spaces(s, at));
            lemma_filter_operand_alone(s, pos, found);
        },
    }
}

/// An `and` or `or` is read back: its left operand as an operand and
/// its right operand as a filter.
proof fn lemma_connective(e: ExprView, s: Seq<char>, pos: int)
    requires
        e is Or || e is And,
        is_filter_tree(e),
        has_word(
            s,
            pos,
            operand_text(left_operand(e)) + connective_word(e) + operand_text(right_operand(e)),
        ),
        closes(
            s,
            pos + operand_text(left_operand(e)).len() + connective_word(e).len() + operand_text(
                right_operand(e),
            ).len(),
        ),
    ensures
        filter(s, pos) matches Some(found) && found.value == Ok::<ExprView, Error>(e) && ends_near(
            s,
            pos + operand_text(left_operand(e)).len() + connective_word(e).len() + operand_text(
                right_operand(e),
            ).len(),
            found.end,
        ),
        starts_text(s, pos),
    decreases e, 1int,
{
    let l = left_operand(e);
    let r = right_operand(e);
    let word = connective_word(e);
    let tl = operand_text(l);
    let tr = operand_text(r);
    let k = tl.len() as int;
    let w = word.len() as int;
    let t = tl + word + tr;
    assert(t.subrange(0, k) =~= tl);
    assert(t.subrange(k, k + w) =~= word);
    assert(t.subrange(k + w, k + w + tr.len()) =~= tr);
    lemma_part(s, pos, t, 0, tl);
    lemma_part(s, pos, t, k, word);
    lemma_part(s, pos, t, k + w, tr);
    let al = pos + k;
    lemma_joins(s, al);
    lemma_operand(l, s, pos);
    let left = any_expr(s, pos)->0;
    lemma_skip_spaces_within(s, al, left.end);
    let pr = al + w;
    lemma_filter_operand(r, s, pr);
    lemma_skip_one(s, pr - 1);
    let right = filter(s, pr)->0;
    if e is Or {
        lemma_filter_or(s, pos, l, left.end, r, right.end);
    } else {
        lemma_filter_and(s, pos, l, left.end, r, right.end);
    }
}

/// The right operand of a connective is read back where a filter is
/// read: a filter tree as it is, an `and` or `or` from between its
/// parentheses.
proof fn lemma_filter_operand(e: ExprView, s: Seq<char>, pos: int)
    requires
        is_filter_tree(e),
        has_word(s, pos, operand_text(e)),
        closes(s, pos + operand_text(e).len()),
    ensures
        filter(s, pos) matches Some(found) && found.value == Ok::<ExprView, Error>(e) && ends_near(
            s,
            pos + operand_text(e).len(),
            found.end,
        ),
        starts_text(s, pos),
    decreases e, 4int,
{
    if e is And || e is Or {
        let at = pos + operand_text(e).len();
        lemma_closes(s, at);
        lemma_operand(e, s, pos);
        let found = any_expr(s, pos)->0;
        lemma_skip_spaces_within(s, at, found.end);
        lemma_no_connective(s, skip_spaces(s, at));
        lemma_filter_operand_alone(s, pos, found);
    } else {
        lemma_filter(e, s, pos);
    }
}

} // verus!
