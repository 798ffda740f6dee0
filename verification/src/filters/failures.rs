//! Which failures the grammar can report.

use crate::filters::ast::ExprView;
use crate::filters::error::Error;
use crate::filters::grammar::{
    after_value_expr, any_expr, comparison_operator, filter, filter_list, function_call,
    has_char, is_after, more_filters, value_expr, Tail,
};
use crate::filters::literal::{
    date_time_literal, identifier_end, literal, string_item, string_items, string_literal,
    Parsed,
};
use crate::filters::text::{has_word, skip_spaces};
use vstd::prelude::*;

verus! {

/// What was found carries a value, or the failure of a literal.
pub open spec fn fails_as_literal<T>(found: Parsed<T>) -> bool {
    found.value matches Err(e) ==> e.is_of_literal()
}

/// The characters of a string fail only by an escape that names no
/// character.
proof fn lemma_string_items_failure(s: Seq<char>, pos: int)
    ensures
        fails_as_literal(string_items(s, pos)),
    decreases s.len() - pos,
{
    match string_item(s, pos) {
        Some(item) if pos < item.end <= s.len() => {
            lemma_string_items_failure(s, item.end);
        },
        _ => {},
    }
}

/// A literal fails only as a literal.
pub(crate) proof fn lemma_literal_failure(s: Seq<char>, pos: int)
    ensures
        literal(s, pos) matches Some(found) ==> fails_as_literal(found),
{
    lemma_string_items_failure(s, pos + 1);
    assert(string_literal(s, pos) matches Some(found) ==> fails_as_literal(found));
    assert(date_time_literal(s, pos) matches Some(found) ==> fails_as_literal(found));
}

/// A filter fails only as a literal in it.
pub(crate) proof fn lemma_filter_failure(s: Seq<char>, pos: int)
    ensures
        filter(s, pos) matches Some(found) ==> fails_as_literal(found),
    decreases s.len() - pos, 5int,
{
    reveal(filter);
    reveal(any_expr);
    reveal(after_value_expr);
    reveal(value_expr);
    reveal(function_call);
    reveal(filter_list);
    reveal(more_filters);
    if has_word(s, pos, seq!['n', 'o', 't']) && is_after(s, pos, skip_spaces(s, pos + 3)) {
        lemma_filter_failure(s, skip_spaces(s, pos + 3));
    }
    if 0 <= pos <= s.len() {
        lemma_any_failure(s, pos);
        if let Some(left) = any_expr(s, pos) {
            let word = skip_spaces(s, left.end);
            if has_word(s, word, seq!['o', 'r']) && is_after(s, pos, skip_spaces(s, word + 2)) {
                lemma_filter_failure(s, skip_spaces(s, word + 2));
            } else if has_word(s, word, seq!['a', 'n', 'd']) && is_after(
                s,
                pos,
                skip_spaces(s, word + 3),
            ) {
                lemma_filter_failure(s, skip_spaces(s, word + 3));
            }
        }
    }
}

/// An operand fails only as a literal in it.
proof fn lemma_any_failure(s: Seq<char>, pos: int)
    ensures
        any_expr(s, pos) matches Some(found) ==> fails_as_literal(found),
    decreases s.len() - pos, 4int,
{
    reveal(filter);
    reveal(any_expr);
    reveal(after_value_expr);
    reveal(value_expr);
    reveal(function_call);
    reveal(filter_list);
    reveal(more_filters);
    if has_char(s, pos, '(') && is_after(s, pos, skip_spaces(s, pos + 1)) {
        lemma_filter_failure(s, skip_spaces(s, pos + 1));
    }
    if 0 <= pos <= s.len() {
        lemma_value_failure(s, pos);
        if let Some(left) = value_expr(s, pos) {
            let next = skip_spaces(s, left.end);
            if is_after(s, pos, next) {
                lemma_tail_failure(s, next);
            }
        }
    }
}

/// What follows a value expression fails only as a literal in it.
proof fn lemma_tail_failure(s: Seq<char>, pos: int)
    ensures
        match after_value_expr(s, pos) {
            Tail::Compare(_, right) => fails_as_literal(right),
            Tail::In(list) => fails_as_literal(list),
            Tail::End => true,
        },
    decreases s.len() - pos, 3int,
{
    reveal(filter);
    reveal(any_expr);
    reveal(after_value_expr);
    reveal(value_expr);
    reveal(function_call);
    reveal(filter_list);
    reveal(more_filters);
    if comparison_operator(s, pos) is Some && is_after(s, pos, skip_spaces(s, pos + 2)) {
        lemma_value_failure(s, skip_spaces(s, pos + 2));
    }
    let open = skip_spaces(s, pos + 2);
    let first = skip_spaces(s, open + 1);
    if has_word(s, pos, seq!['i', 'n']) && has_char(s, open, '(') && is_after(s, pos, first) {
        lemma_list_failure(s, first);
    }
}

/// A value expression fails only as a literal in it.
proof fn lemma_value_failure(s: Seq<char>, pos: int)
    ensures
        value_expr(s, pos) matches Some(found) ==> fails_as_literal(found),
    decreases s.len() - pos, 2int,
{
    reveal(filter);
    reveal(any_expr);
    reveal(after_value_expr);
    reveal(value_expr);
    reveal(function_call);
    reveal(filter_list);
    reveal(more_filters);
    if 0 <= pos <= s.len() {
        lemma_call_failure(s, pos);
        lemma_literal_failure(s, pos);
    }
}

/// A call fails only as a literal in it.
proof fn lemma_call_failure(s: Seq<char>, pos: int)
    ensures
        function_call(s, pos) matches Some(found) ==> fails_as_literal(found),
    decreases s.len() - pos, 1int,
{
    reveal(filter);
    reveal(any_expr);
    reveal(after_value_expr);
    reveal(value_expr);
    reveal(function_call);
    reveal(filter_list);
    reveal(more_filters);
    if let Some(name_end) = identifier_end(s, pos) {
        let open = skip_spaces(s, name_end);
        let first = skip_spaces(s, open + 1);
        if has_char(s, open, '(') && is_after(s, pos, first) {
            lemma_list_failure(s, first);
        }
    }
}

/// A list fails only as a literal in it.
proof fn lemma_list_failure(s: Seq<char>, pos: int)
    ensures
        fails_as_literal(filter_list(s, pos)),
    decreases s.len() - pos, 7int,
{
    reveal(filter);
    reveal(any_expr);
    reveal(after_value_expr);
    reveal(value_expr);
    reveal(function_call);
    reveal(filter_list);
    reveal(more_filters);
    if 0 <= pos <= s.len() {
        lemma_filter_failure(s, pos);
        if let Some(first) = filter(s, pos) {
            if is_after(s, pos, first.end) {
                lemma_more_failure(s, first.end);
            }
        }
    }
}

/// The further items of a list fail only as a literal in them.
proof fn lemma_more_failure(s: Seq<char>, pos: int)
    ensures
        fails_as_literal(more_filters(s, pos)),
    decreases s.len() - pos, 6int,
{
    reveal(filter);
    reveal(any_expr);
    reveal(after_value_expr);
    reveal(value_expr);
    reveal(function_call);
    reveal(filter_list);
    reveal(more_filters);
    let comma = skip_spaces(s, pos);
    let next = skip_spaces(s, comma + 1);
    if has_char(s, comma, ',') && is_after(s, pos, next) {
        lemma_filter_failure(s, next);
        if let Some(item) = filter(s, next) {
            if is_after(s, pos, item.end) {
                lemma_more_failure(s, item.end);
            }
        }
    }
}

} // verus!
