//! The grammar of filters, as functions from a text and a position to what
//! stands there.
//!
//! Every rule either finds nothing at a position, or says what it found
//! and where it stopped. A rule that tries several forms takes the first
//! that is found, in the order written, and never comes back to a later
//! one. A literal whose text writes no value is still found: the rule
//! then carries the failure in place of a value, and the rules around it
//! go on reading, so that a text must follow the grammar to its end before
//! such a failure is reported.

use crate::filters::ast::{CompareOperator, ExprView, ValueView};
use crate::filters::error::Error;
use crate::filters::literal::{identifier_end, literal, Parsed};
use crate::filters::text::{has_word, skip_spaces};
use vstd::prelude::*;

verus! {

/// `next` is a position of `s` after `pos`.
pub open spec fn is_after(s: Seq<char>, pos: int, next: int) -> bool {
    0 <= pos < next <= s.len()
}

/// The character `c` stands in `s` at `pos`.
pub open spec fn has_char(s: Seq<char>, pos: int, c: char) -> bool {
    0 <= pos < s.len() && s[pos] == c
}

/// The comparison operator whose two letters stand at `pos`.
pub open spec fn comparison_operator(s: Seq<char>, pos: int) -> Option<CompareOperator> {
    if has_word(s, pos, seq!['e', 'q']) {
        Some(CompareOperator::Equal)
    } else if has_word(s, pos, seq!['n', 'e']) {
        Some(CompareOperator::NotEqual)
    } else if has_word(s, pos, seq!['g', 't']) {
        Some(CompareOperator::GreaterThan)
    } else if has_word(s, pos, seq!['g', 'e']) {
        Some(CompareOperator::GreaterOrEqual)
    } else if has_word(s, pos, seq!['l', 't']) {
        Some(CompareOperator::LessThan)
    } else if has_word(s, pos, seq!['l', 'e']) {
        Some(CompareOperator::LessOrEqual)
    } else {
        None
    }
}

/// The value of a rule with one part.
pub open spec fn with_one<A, B>(part: Result<A, Error>, make: spec_fn(A) -> B) -> Result<B, Error> {
    match part {
        Ok(a) => Ok(make(a)),
        Err(e) => Err(e),
    }
}

/// The value of a rule with two parts: of two failures that of `first`
/// is reported.
pub open spec fn with_two<A, B, C>(
    first: Result<A, Error>,
    second: Result<B, Error>,
    make: spec_fn(A, B) -> C,
) -> Result<C, Error> {
    match first {
        Err(e) => Err(e),
        Ok(a) => match second {
            Err(e) => Err(e),
            Ok(b) => Ok(make(a, b)),
        },
    }
}

/// An item before the rest of a list, or the first failure of the two.
pub open spec fn item_then(
    first: Result<ExprView, Error>,
    rest: Result<Seq<ExprView>, Error>,
) -> Result<Seq<ExprView>, Error> {
    with_two(first, rest, |e: ExprView, es: Seq<ExprView>| seq![e] + es)
}

/// What may follow a value expression.
pub ghost enum Tail {
    /// A comparison operator and its right operand.
    Compare(CompareOperator, Parsed<ExprView>),
    /// `in` and a list in parentheses.
    In(Parsed<Seq<ExprView>>),
    /// Nothing that belongs to the value expression.
    End,
}

/// `filter := "not" filter | any_expr "or" filter | any_expr "and" filter |
/// any_expr`. The connectives group to the right, in the order in which
/// they stand: `a and b or c` is `a and (b or c)`, and `not` covers all
/// that follows it.
#[verifier::opaque]
pub open spec fn filter(s: Seq<char>, pos: int) -> Option<Parsed<ExprView>>
    decreases s.len() - pos, 5int,
{
    let negated = if has_word(s, pos, seq!['n', 'o', 't']) && is_after(
        s,
        pos,
        skip_spaces(s, pos + 3),
    ) {
        filter(s, skip_spaces(s, pos + 3))
    } else {
        None
    };
    match negated {
        Some(inner) => Some(
            Parsed {
                value: with_one(inner.value, |e: ExprView| ExprView::Not(Box::new(e))),
                end: inner.end,
            },
        ),
        None => if !(0 <= pos <= s.len()) {
            None
        } else {
            match any_expr(s, pos) {
                None => None,
                Some(left) => {
                    let word = skip_spaces(s, left.end);
                    let right = if has_word(s, word, seq!['o', 'r']) && is_after(
                        s,
                        pos,
                        skip_spaces(s, word + 2),
                    ) {
                        filter(s, skip_spaces(s, word + 2))
                    } else if has_word(s, word, seq!['a', 'n', 'd']) && is_after(
                        s,
                        pos,
                        skip_spaces(s, word + 3),
                    ) {
                        filter(s, skip_spaces(s, word + 3))
                    } else {
                        None
                    };
                    match right {
                        None => Some(left),
                        Some(right) => Some(
                            Parsed {
                                value: if has_word(s, word, seq!['o', 'r']) {
                                    with_two(
                                        left.value,
                                        right.value,
                                        |l: ExprView, r: ExprView|
                                            ExprView::Or(Box::new(l), Box::new(r)),
                                    )
                                } else {
                                    with_two(
                                        left.value,
                                        right.value,
                                        |l: ExprView, r: ExprView|
                                            ExprView::And(Box::new(l), Box::new(r)),
                                    )
                                },
                                end: right.end,
                            },
                        ),
                    }
                },
            }
        },
    }
}

/// `any_expr := "(" filter ")" | value_expr after_value_expr?`. Of the
/// failures of a comparison or of a list test, that of what follows the
/// first operand is reported before that of the operand itself.
#[verifier::opaque]
pub open spec fn any_expr(s: Seq<char>, pos: int) -> Option<Parsed<ExprView>>
    decreases s.len() - pos, 4int,
{
    let group = if has_char(s, pos, '(') && is_after(s, pos, skip_spaces(s, pos + 1)) {
        match filter(s, skip_spaces(s, pos + 1)) {
            Some(inner) if has_char(s, skip_spaces(s, inner.end), ')') => Some(
                Parsed { value: inner.value, end: skip_spaces(s, inner.end) + 1 },
            ),
            _ => None,
        }
    } else {
        None
    };
    match group {
        Some(group) => Some(group),
        None => if !(0 <= pos <= s.len()) {
            None
        } else {
            match value_expr(s, pos) {
                None => None,
                Some(left) => {
                    let next = skip_spaces(s, left.end);
                    if !is_after(s, pos, next) {
                        None
                    } else {
                        match after_value_expr(s, next) {
                            Tail::Compare(op, right) => Some(
                                Parsed {
                                    value: with_two(
                                        right.value,
                                        left.value,
                                        |r: ExprView, l: ExprView|
                                            ExprView::Compare(Box::new(l), op, Box::new(r)),
                                    ),
                                    end: right.end,
                                },
                            ),
                            Tail::In(list) => Some(
                                Parsed {
                                    value: with_two(
                                        list.value,
                                        left.value,
                                        |items: Seq<ExprView>, l: ExprView|
                                            ExprView::In(Box::new(l), items),
                                    ),
                                    end: list.end,
                                },
                            ),
                            Tail::End => Some(Parsed { value: left.value, end: next }),
                        }
                    }
                },
            }
        },
    }
}

/// `after_value_expr := comparison_op value_expr | "in" "(" filter_list
/// ")"`, or nothing.
#[verifier::opaque]
pub open spec fn after_value_expr(s: Seq<char>, pos: int) -> Tail
    decreases s.len() - pos, 3int,
{
    let compared = match comparison_operator(s, pos) {
        Some(op) if is_after(s, pos, skip_spaces(s, pos + 2)) => match value_expr(
            s,
            skip_spaces(s, pos + 2),
        ) {
            Some(right) => Some(Tail::Compare(op, right)),
            None => None,
        },
        _ => None,
    };
    match compared {
        Some(tail) => tail,
        None => {
            let open = skip_spaces(s, pos + 2);
            let first = skip_spaces(s, open + 1);
            if has_word(s, pos, seq!['i', 'n']) && has_char(s, open, '(') && is_after(
                s,
                pos,
                first,
            ) {
                let list = filter_list(s, first);
                let close = skip_spaces(s, list.end);
                if has_char(s, close, ')') {
                    Tail::In(Parsed { value: list.value, end: close + 1 })
                } else {
                    Tail::End
                }
            } else {
                Tail::End
            }
        },
    }
}

/// `value_expr := function_call | literal | identifier`.
#[verifier::opaque]
pub open spec fn value_expr(s: Seq<char>, pos: int) -> Option<Parsed<ExprView>>
    decreases s.len() - pos, 2int,
{
    if !(0 <= pos <= s.len()) {
        None
    } else {
        match function_call(s, pos) {
            Some(call) => Some(call),
            None => match literal(s, pos) {
                Some(found) => Some(
                    Parsed {
                        value: with_one(found.value, |v: ValueView| ExprView::Value(v)),
                        end: found.end,
                    },
                ),
                None => match identifier_end(s, pos) {
                    Some(end) => Some(
                        Parsed { value: Ok(ExprView::Identifier(s.subrange(pos, end))), end },
                    ),
                    None => None,
                },
            },
        }
    }
}

/// `function_call := identifier "(" filter_list ")"`.
#[verifier::opaque]
pub open spec fn function_call(s: Seq<char>, pos: int) -> Option<Parsed<ExprView>>
    decreases s.len() - pos, 1int,
{
    match identifier_end(s, pos) {
        None => None,
        Some(name_end) => {
            let open = skip_spaces(s, name_end);
            let first = skip_spaces(s, open + 1);
            if has_char(s, open, '(') && is_after(s, pos, first) {
                let list = filter_list(s, first);
                let close = skip_spaces(s, list.end);
                if has_char(s, close, ')') {
                    Some(
                        Parsed {
                            value: with_one(
                                list.value,
                                |args: Seq<ExprView>|
                                    ExprView::Function(s.subrange(pos, name_end), args),
                            ),
                            end: close + 1,
                        },
                    )
                } else {
                    None
                }
            } else {
                None
            }
        },
    }
}

/// `filter_list := (filter ("," filter)*)?`: the filters up to the last
/// that is found. Of several failures that of the first item is reported.
#[verifier::opaque]
pub open spec fn filter_list(s: Seq<char>, pos: int) -> Parsed<Seq<ExprView>>
    decreases s.len() - pos, 7int,
{
    if !(0 <= pos <= s.len()) {
        Parsed { value: Ok(Seq::empty()), end: pos }
    } else {
        match filter(s, pos) {
            Some(first) if is_after(s, pos, first.end) => {
                let rest = more_filters(s, first.end);
                Parsed { value: item_then(first.value, rest.value), end: rest.end }
            },
            _ => Parsed { value: Ok(Seq::empty()), end: pos },
        }
    }
}

/// `("," filter)*`: the filters that follow the first of a list.
#[verifier::opaque]
pub open spec fn more_filters(s: Seq<char>, pos: int) -> Parsed<Seq<ExprView>>
    decreases s.len() - pos, 6int,
{
    let comma = skip_spaces(s, pos);
    let next = skip_spaces(s, comma + 1);
    if has_char(s, comma, ',') && is_after(s, pos, next) {
        match filter(s, next) {
            Some(item) if is_after(s, pos, item.end) => {
                let rest = more_filters(s, item.end);
                Parsed { value: item_then(item.value, rest.value), end: rest.end }
            },
            _ => Parsed { value: Ok(Seq::empty()), end: pos },
        }
    } else {
        Parsed { value: Ok(Seq::empty()), end: pos }
    }
}

/// The tree that a text writes: one filter, with nothing but whitespace
/// before and after it. A text that does not follow the grammar fails
/// with `Error::Parsing`; one that does, but holds a literal that writes
/// no value, fails as that literal does.
pub open spec fn parse(s: Seq<char>) -> Result<ExprView, Error> {
    match filter(s, skip_spaces(s, 0)) {
        Some(found) if skip_spaces(s, found.end) == s.len() => found.value,
        _ => Err(Error::Parsing),
    }
}

// ---------------------------------------------------------------------------
// The rules, one form at a time
// ---------------------------------------------------------------------------

/// A negation is read at `pos`: `not` stands there, and a filter after
/// it.
pub open spec fn negation_at(s: Seq<char>, pos: int) -> bool {
    &&& has_word(s, pos, seq!['n', 'o', 't'])
    &&& is_after(s, pos, skip_spaces(s, pos + 3))
    &&& filter(s, skip_spaces(s, pos + 3)) is Some
}

/// `not` before a filter is the negation of that filter.
pub(crate) proof fn lemma_filter_not(s: Seq<char>, pos: int, inner: ExprView, end: int)
    requires
        has_word(s, pos, seq!['n', 'o', 't']),
        is_after(s, pos, skip_spaces(s, pos + 3)),
        filter(s, skip_spaces(s, pos + 3)) == Some(Parsed { value: Ok(inner), end }),
    ensures
        filter(s, pos) == Some(Parsed { value: Ok(ExprView::Not(Box::new(inner))), end }),
{
    reveal(filter);
    reveal(any_expr);
    reveal(after_value_expr);
    reveal(value_expr);
    reveal(function_call);
    reveal(filter_list);
    reveal(more_filters);
}

/// An operand, `or` and a filter are the `or` of the two.
pub(crate) proof fn lemma_filter_or(
    s: Seq<char>,
    pos: int,
    l: ExprView,
    left_end: int,
    r: ExprView,
    end: int,
)
    requires
        0 <= pos <= s.len(),
        !negation_at(s, pos),
        any_expr(s, pos) == Some(Parsed { value: Ok(l), end: left_end }),
        has_word(s, skip_spaces(s, left_end), seq!['o', 'r']),
        is_after(s, pos, skip_spaces(s, skip_spaces(s, left_end) + 2)),
        filter(s, skip_spaces(s, skip_spaces(s, left_end) + 2)) == Some(
            Parsed { value: Ok(r), end },
        ),
    ensures
        filter(s, pos) == Some(Parsed { value: Ok(ExprView::Or(Box::new(l), Box::new(r))), end }),
{
    reveal(filter);
    reveal(any_expr);
    reveal(after_value_expr);
    reveal(value_expr);
    reveal(function_call);
    reveal(filter_list);
    reveal(more_filters);
}

/// An operand, `and` and a filter are the `and` of the two.
pub(crate) proof fn lemma_filter_and(
    s: Seq<char>,
    pos: int,
    l: ExprView,
    left_end: int,
    r: ExprView,
    end: int,
)
    requires
        0 <= pos <= s.len(),
        !negation_at(s, pos),
        any_expr(s, pos) == Some(Parsed { value: Ok(l), end: left_end }),
        !has_word(s, skip_spaces(s, left_end), seq!['o', 'r']),
        has_word(s, skip_spaces(s, left_end), seq!['a', 'n', 'd']),
        is_after(s, pos, skip_spaces(s, skip_spaces(s, left_end) + 3)),
        filter(s, skip_spaces(s, skip_spaces(s, left_end) + 3)) == Some(
            Parsed { value: Ok(r), end },
        ),
    ensures
        filter(s, pos) == Some(Parsed { value: Ok(ExprView::And(Box::new(l), Box::new(r))), end }),
{
    reveal(filter);
    reveal(any_expr);
    reveal(after_value_expr);
    reveal(value_expr);
    reveal(function_call);
    reveal(filter_list);
    reveal(more_filters);
}

/// An operand that no connective follows is a filter by itself.
pub(crate) proof fn lemma_filter_operand_alone(s: Seq<char>, pos: int, left: Parsed<ExprView>)
    requires
        0 <= pos <= s.len(),
        !negation_at(s, pos),
        any_expr(s, pos) == Some(left),
        !has_word(s, skip_spaces(s, left.end), seq!['o', 'r']),
        !has_word(s, skip_spaces(s, left.end), seq!['a', 'n', 'd']),
    ensures
        filter(s, pos) == Some(left),
{
    reveal(filter);
    reveal(any_expr);
    reveal(after_value_expr);
    reveal(value_expr);
    reveal(function_call);
    reveal(filter_list);
    reveal(more_filters);
}

/// A filter between parentheses is an operand.
pub(crate) proof fn lemma_any_group(s: Seq<char>, pos: int, inner: Parsed<ExprView>)
    requires
        has_char(s, pos, '('),
        is_after(s, pos, skip_spaces(s, pos + 1)),
        filter(s, skip_spaces(s, pos + 1)) == Some(inner),
        has_char(s, skip_spaces(s, inner.end), ')'),
    ensures
        any_expr(s, pos) == Some(
            Parsed { value: inner.value, end: skip_spaces(s, inner.end) + 1 },
        ),
{
    reveal(filter);
    reveal(any_expr);
    reveal(after_value_expr);
    reveal(value_expr);
    reveal(function_call);
    reveal(filter_list);
    reveal(more_filters);
}

/// A value expression, a comparison operator and a value expression are
/// a comparison.
pub(crate) proof fn lemma_any_compare(
    s: Seq<char>,
    pos: int,
    l: ExprView,
    left_end: int,
    op: CompareOperator,
    r: ExprView,
    end: int,
)
    requires
        0 <= pos <= s.len(),
        !has_char(s, pos, '('),
        value_expr(s, pos) == Some(Parsed { value: Ok(l), end: left_end }),
        is_after(s, pos, skip_spaces(s, left_end)),
        comparison_operator(s, skip_spaces(s, left_end)) == Some(op),
        is_after(s, skip_spaces(s, left_end), skip_spaces(s, skip_spaces(s, left_end) + 2)),
        value_expr(s, skip_spaces(s, skip_spaces(s, left_end) + 2)) == Some(
            Parsed { value: Ok(r), end },
        ),
    ensures
        any_expr(s, pos) == Some(
            Parsed { value: Ok(ExprView::Compare(Box::new(l), op, Box::new(r))), end },
        ),
{
    reveal(filter);
    reveal(any_expr);
    reveal(after_value_expr);
    reveal(value_expr);
    reveal(function_call);
    reveal(filter_list);
    reveal(more_filters);
}

/// A value expression, `in` and a list between parentheses are a list
/// test.
pub(crate) proof fn lemma_any_in(
    s: Seq<char>,
    pos: int,
    l: ExprView,
    left_end: int,
    items: Seq<ExprView>,
    list_end: int,
)
    requires
        0 <= pos <= s.len(),
        !has_char(s, pos, '('),
        value_expr(s, pos) == Some(Parsed { value: Ok(l), end: left_end }),
        is_after(s, pos, skip_spaces(s, left_end)),
        comparison_operator(s, skip_spaces(s, left_end)) is None,
        has_word(s, skip_spaces(s, left_end), seq!['i', 'n']),
        has_char(s, skip_spaces(s, skip_spaces(s, left_end) + 2), '('),
        is_after(
            s,
            skip_spaces(s, left_end),
            skip_spaces(s, skip_spaces(s, skip_spaces(s, left_end) + 2) + 1),
        ),
        filter_list(s, skip_spaces(s, skip_spaces(s, skip_spaces(s, left_end) + 2) + 1)) == (Parsed {
            value: Ok::<Seq<ExprView>, Error>(items),
            end: list_end,
        }),
        has_char(s, skip_spaces(s, list_end), ')'),
    ensures
        any_expr(s, pos) == Some(
            Parsed {
                value: Ok(ExprView::In(Box::new(l), items)),
                end: skip_spaces(s, list_end) + 1,
            },
        ),
{
    reveal(filter);
    reveal(any_expr);
    reveal(after_value_expr);
    reveal(value_expr);
    reveal(function_call);
    reveal(filter_list);
    reveal(more_filters);
}

/// A value expression that neither a comparison operator nor `in`
/// follows is an operand by itself, with the whitespace after it.
pub(crate) proof fn lemma_any_value(s: Seq<char>, pos: int, left: Parsed<ExprView>)
    requires
        0 <= pos <= s.len(),
        !has_char(s, pos, '('),
        value_expr(s, pos) == Some(left),
        is_after(s, pos, skip_spaces(s, left.end)),
        comparison_operator(s, skip_spaces(s, left.end)) is None,
        !has_word(s, skip_spaces(s, left.end), seq!['i', 'n']),
    ensures
        any_expr(s, pos) == Some(Parsed { value: left.value, end: skip_spaces(s, left.end) }),
{
    reveal(filter);
    reveal(any_expr);
    reveal(after_value_expr);
    reveal(value_expr);
    reveal(function_call);
    reveal(filter_list);
    reveal(more_filters);
}

/// An identifier and a list between parentheses are a call.
pub(crate) proof fn lemma_value_call(
    s: Seq<char>,
    pos: int,
    name_end: int,
    args: Seq<ExprView>,
    list_end: int,
)
    requires
        0 <= pos <= s.len(),
        identifier_end(s, pos) == Some(name_end),
        has_char(s, skip_spaces(s, name_end), '('),
        is_after(s, pos, skip_spaces(s, skip_spaces(s, name_end) + 1)),
        filter_list(s, skip_spaces(s, skip_spaces(s, name_end) + 1)) == (Parsed {
            value: Ok::<Seq<ExprView>, Error>(args),
            end: list_end,
        }),
        has_char(s, skip_spaces(s, list_end), ')'),
    ensures
        value_expr(s, pos) == Some(
            Parsed {
                value: Ok(ExprView::Function(s.subrange(pos, name_end), args)),
                end: skip_spaces(s, list_end) + 1,
            },
        ),
{
    reveal(filter);
    reveal(any_expr);
    reveal(after_value_expr);
    reveal(value_expr);
    reveal(function_call);
    reveal(filter_list);
    reveal(more_filters);
}

/// A literal that cannot be the name of a call is a value expression.
pub(crate) proof fn lemma_value_literal(s: Seq<char>, pos: int, v: ValueView, end: int)
    requires
        0 <= pos <= s.len(),
        identifier_end(s, pos) matches Some(name_end) ==> !has_char(
            s,
            skip_spaces(s, name_end),
            '(',
        ),
        literal(s, pos) == Some(Parsed { value: Ok(v), end }),
    ensures
        value_expr(s, pos) == Some(Parsed { value: Ok(ExprView::Value(v)), end }),
{
    reveal(filter);
    reveal(any_expr);
    reveal(after_value_expr);
    reveal(value_expr);
    reveal(function_call);
    reveal(filter_list);
    reveal(more_filters);
}

/// An identifier that is no literal and not the name of a call is a
/// value expression.
pub(crate) proof fn lemma_value_identifier(s: Seq<char>, pos: int, end: int)
    requires
        0 <= pos <= s.len(),
        identifier_end(s, pos) == Some(end),
        !has_char(s, skip_spaces(s, end), '('),
        literal(s, pos) is None,
    ensures
        value_expr(s, pos) == Some(
            Parsed { value: Ok(ExprView::Identifier(s.subrange(pos, end))), end },
        ),
{
    reveal(filter);
    reveal(any_expr);
    reveal(after_value_expr);
    reveal(value_expr);
    reveal(function_call);
    reveal(filter_list);
    reveal(more_filters);
}

/// Where nothing begins a filter, none is found.
pub(crate) proof fn lemma_filter_none(s: Seq<char>, pos: int)
    requires
        0 <= pos <= s.len(),
        !negation_at(s, pos),
        !has_char(s, pos, '('),
        identifier_end(s, pos) is None,
        literal(s, pos) is None,
    ensures
        filter(s, pos) is None,
{
    reveal(filter);
    reveal(any_expr);
    reveal(after_value_expr);
    reveal(value_expr);
    reveal(function_call);
    reveal(filter_list);
    reveal(more_filters);
    assert(function_call(s, pos) is None);
    assert(value_expr(s, pos) is None);
    assert(any_expr(s, pos) is None);
}

/// Where no filter is found, the list is empty.
pub(crate) proof fn lemma_list_empty(s: Seq<char>, pos: int)
    requires
        0 <= pos <= s.len(),
        filter(s, pos) is None,
    ensures
        filter_list(s, pos) == (Parsed {
            value: Ok::<Seq<ExprView>, Error>(Seq::empty()),
            end: pos,
        }),
{
    reveal(filter);
    reveal(any_expr);
    reveal(after_value_expr);
    reveal(value_expr);
    reveal(function_call);
    reveal(filter_list);
    reveal(more_filters);
}

/// A filter and the filters after it are a list.
pub(crate) proof fn lemma_list_first(
    s: Seq<char>,
    pos: int,
    first: ExprView,
    end: int,
    rest: Seq<ExprView>,
    rest_end: int,
)
    requires
        0 <= pos <= s.len(),
        filter(s, pos) == Some(Parsed { value: Ok(first), end }),
        is_after(s, pos, end),
        more_filters(s, end) == (Parsed { value: Ok::<Seq<ExprView>, Error>(rest), end: rest_end }),
    ensures
        filter_list(s, pos) == (Parsed {
            value: Ok::<Seq<ExprView>, Error>(seq![first] + rest),
            end: rest_end,
        }),
{
    reveal(filter);
    reveal(any_expr);
    reveal(after_value_expr);
    reveal(value_expr);
    reveal(function_call);
    reveal(filter_list);
    reveal(more_filters);
}

/// Where no comma follows, the list has no further items.
pub(crate) proof fn lemma_more_none(s: Seq<char>, pos: int)
    requires
        !has_char(s, skip_spaces(s, pos), ','),
    ensures
        more_filters(s, pos) == (Parsed {
            value: Ok::<Seq<ExprView>, Error>(Seq::empty()),
            end: pos,
        }),
{
    reveal(filter);
    reveal(any_expr);
    reveal(after_value_expr);
    reveal(value_expr);
    reveal(function_call);
    reveal(filter_list);
    reveal(more_filters);
}

/// A comma, a filter and the filters after it are the further items of
/// a list.
pub(crate) proof fn lemma_more_next(
    s: Seq<char>,
    pos: int,
    item: ExprView,
    end: int,
    rest: Seq<ExprView>,
    rest_end: int,
)
    requires
        has_char(s, skip_spaces(s, pos), ','),
        is_after(s, pos, skip_spaces(s, skip_spaces(s, pos) + 1)),
        filter(s, skip_spaces(s, skip_spaces(s, pos) + 1)) == Some(
            Parsed { value: Ok(item), end },
        ),
        is_after(s, pos, end),
        more_filters(s, end) == (Parsed { value: Ok::<Seq<ExprView>, Error>(rest), end: rest_end }),
    ensures
        more_filters(s, pos) == (Parsed {
            value: Ok::<Seq<ExprView>, Error>(seq![item] + rest),
            end: rest_end,
        }),
{
    reveal(filter);
    reveal(any_expr);
    reveal(after_value_expr);
    reveal(value_expr);
    reveal(function_call);
    reveal(filter_list);
    reveal(more_filters);
}

} // verus!
