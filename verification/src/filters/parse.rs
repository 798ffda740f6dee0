//! The parser: it reads a text as the grammar says.

use crate::filters::ast::{lemma_models, models, CompareOperator, Expr, ExprView, Value};
use crate::filters::error::Error;
use crate::filters::failures::lemma_filter_failure;
use crate::filters::grammar::{
    after_value_expr, any_expr, comparison_operator, filter, filter_list, function_call, has_char,
    item_then, more_filters, parse, value_expr, Tail,
};
use crate::filters::literal::{found, identifier_end_from, read_literal, Parsed};
use crate::filters::text::{chars_of, skip_spaces, skip_spaces_from, word_at};
use vstd::prelude::*;
use vstd::string::StrSliceExecFns;
use vstd::string::StringExecFns;

verus! {

/// What was read after a value expression.
enum TailRead {
    Compare(CompareOperator, Result<Expr, Error>, usize),
    In(Result<Vec<Expr>, Error>, usize),
    End,
}

/// A list that was read stands for the list that the grammar finds.
spec fn found_list(value: Result<Vec<Expr>, Error>, end: usize, m: Parsed<Seq<ExprView>>) -> bool {
    &&& m.end == end as int
    &&& match value {
        Ok(items) => m.value == Ok::<Seq<ExprView>, Error>(models(items@)),
        Err(e) => m.value == Err::<Seq<ExprView>, Error>(e),
    }
}

/// What was read after a value expression stands for what the grammar
/// finds there.
spec fn found_tail(r: TailRead, tail: Tail) -> bool {
    match r {
        TailRead::Compare(op, value, end) => tail matches Tail::Compare(o, m) && o == op && found(
            Some((value, end)),
            Some(m),
        ),
        TailRead::In(value, end) => tail matches Tail::In(m) && found_list(value, end, m),
        TailRead::End => tail is End,
    }
}

/// Two lists of items, one after the other, or the first failure.
spec fn list_then(
    first: Result<Seq<ExprView>, Error>,
    rest: Result<Seq<ExprView>, Error>,
) -> Result<Seq<ExprView>, Error> {
    match first {
        Err(e) => Err(e),
        Ok(a) => match rest {
            Err(e) => Err(e),
            Ok(b) => Ok(a + b),
        },
    }
}

/// The items that were read so far, or the first failure among them.
spec fn so_far(items: Seq<Expr>, failure: Option<Error>) -> Result<Seq<ExprView>, Error> {
    match failure {
        Some(e) => Err(e),
        None => Ok(models(items)),
    }
}

/// The comparison operator at `pos`, if one stands there.
fn read_comparison_operator(chars: &[char], pos: usize) -> (r: Option<CompareOperator>)
    requires
        pos <= chars@.len(),
    ensures
        r == comparison_operator(chars@, pos as int),
{
    if word_at(chars, pos, &['e', 'q']) {
        Some(CompareOperator::Equal)
    } else if word_at(chars, pos, &['n', 'e']) {
        Some(CompareOperator::NotEqual)
    } else if word_at(chars, pos, &['g', 't']) {
        Some(CompareOperator::GreaterThan)
    } else if word_at(chars, pos, &['g', 'e']) {
        Some(CompareOperator::GreaterOrEqual)
    } else if word_at(chars, pos, &['l', 't']) {
        Some(CompareOperator::LessThan)
    } else if word_at(chars, pos, &['l', 'e']) {
        Some(CompareOperator::LessOrEqual)
    } else {
        None
    }
}

/// The character `c` stands at `pos`.
fn char_at(chars: &[char], pos: usize, c: char) -> (r: bool)
    ensures
        r == has_char(chars@, pos as int, c),
{
    pos < chars.len() && chars[pos] == c
}

/// The filter at `pos`, if one stands there, and where it ends.
fn read_filter(text: &str, chars: &[char], pos: usize) -> (r: Option<(Result<Expr, Error>, usize)>)
    requires
        chars@ == text@,
        pos <= chars@.len(),
    ensures
        found(r, filter(chars@, pos as int)),
        r matches Some((_, end)) ==> pos < end <= chars@.len(),
    decreases chars@.len() - pos, 5int,
{
    proof {
        reveal(filter);
        reveal(any_expr);
        reveal(after_value_expr);
        reveal(value_expr);
        reveal(function_call);
        reveal(filter_list);
        reveal(more_filters);
    }
    let n = chars.len();
    if word_at(chars, pos, &['n', 'o', 't']) {
        let inner = skip_spaces_from(chars, pos + 3);
        match read_filter(text, chars, inner) {
            Some((value, end)) => {
                let value = match value {
                    Ok(e) => Ok(Expr::Not(Box::new(e))),
                    Err(e) => Err(e),
                };
                return Some((value, end));
            },
            None => {},
        }
    }
    match read_any_expr(text, chars, pos) {
        None => None,
        Some((left, left_end)) => {
            let word = skip_spaces_from(chars, left_end);
            let or = word_at(chars, word, &['o', 'r']);
            let right = if or {
                read_filter(text, chars, skip_spaces_from(chars, word + 2))
            } else if word_at(chars, word, &['a', 'n', 'd']) {
                read_filter(text, chars, skip_spaces_from(chars, word + 3))
            } else {
                None
            };
            match right {
                None => Some((left, left_end)),
                Some((right, end)) => {
                    let value = match left {
                        Err(e) => Err(e),
                        Ok(l) => match right {
                            Err(e) => Err(e),
                            Ok(r) => Ok(
                                if or {
                                    Expr::Or(Box::new(l), Box::new(r))
                                } else {
                                    Expr::And(Box::new(l), Box::new(r))
                                },
                            ),
                        },
                    };
                    Some((value, end))
                },
            }
        },
    }
}

/// The operand at `pos`, if one stands there, and where it ends.
fn read_any_expr(text: &str, chars: &[char], pos: usize) -> (r: Option<
    (Result<Expr, Error>, usize),
>)
    requires
        chars@ == text@,
        pos <= chars@.len(),
    ensures
        found(r, any_expr(chars@, pos as int)),
        r matches Some((_, end)) ==> pos < end <= chars@.len(),
    decreases chars@.len() - pos, 4int,
{
    proof {
        reveal(filter);
        reveal(any_expr);
        reveal(after_value_expr);
        reveal(value_expr);
        reveal(function_call);
        reveal(filter_list);
        reveal(more_filters);
    }
    let n = chars.len();
    if char_at(chars, pos, '(') {
        match read_filter(text, chars, skip_spaces_from(chars, pos + 1)) {
            Some((value, end)) => {
                let close = skip_spaces_from(chars, end);
                if char_at(chars, close, ')') {
                    return Some((value, close + 1));
                }
            },
            None => {},
        }
    }
    match read_value_expr(text, chars, pos) {
        None => None,
        Some((left, left_end)) => {
            let next = skip_spaces_from(chars, left_end);
            match read_after_value_expr(text, chars, next) {
                TailRead::Compare(op, right, end) => {
                    let value = match right {
                        Err(e) => Err(e),
                        Ok(r) => match left {
                            Err(e) => Err(e),
                            Ok(l) => Ok(Expr::Compare(Box::new(l), op, Box::new(r))),
                        },
                    };
                    Some((value, end))
                },
                TailRead::In(list, end) => {
                    let value = match list {
                        Err(e) => Err(e),
                        Ok(items) => match left {
                            Err(e) => Err(e),
                            Ok(l) => {
                                let e = Expr::In(Box::new(l), items);
                                proof {
                                    lemma_models(e);
                                }
                                Ok(e)
                            },
                        },
                    };
                    Some((value, end))
                },
                TailRead::End => Some((left, next)),
            }
        },
    }
}

/// What follows a value expression at `pos` and belongs to it.
fn read_after_value_expr(text: &str, chars: &[char], pos: usize) -> (r: TailRead)
    requires
        chars@ == text@,
        pos <= chars@.len(),
    ensures
        found_tail(r, after_value_expr(chars@, pos as int)),
        match r {
            TailRead::Compare(_, _, end) => pos < end <= chars@.len(),
            TailRead::In(_, end) => pos < end <= chars@.len(),
            TailRead::End => true,
        },
    decreases chars@.len() - pos, 3int,
{
    proof {
        reveal(filter);
        reveal(any_expr);
        reveal(after_value_expr);
        reveal(value_expr);
        reveal(function_call);
        reveal(filter_list);
        reveal(more_filters);
    }
    let n = chars.len();
    match read_comparison_operator(chars, pos) {
        Some(op) => {
            match read_value_expr(text, chars, skip_spaces_from(chars, pos + 2)) {
                Some((right, end)) => {
                    return TailRead::Compare(op, right, end);
                },
                None => {},
            }
        },
        None => {},
    }
    if !word_at(chars, pos, &['i', 'n']) {
        return TailRead::End;
    }
    let open = skip_spaces_from(chars, pos + 2);
    if !char_at(chars, open, '(') {
        return TailRead::End;
    }
    let first = skip_spaces_from(chars, open + 1);
    let (list, list_end) = read_filter_list(text, chars, first);
    let close = skip_spaces_from(chars, list_end);
    if char_at(chars, close, ')') {
        TailRead::In(list, close + 1)
    } else {
        TailRead::End
    }
}

/// The value expression at `pos`, if one stands there, and where it ends.
fn read_value_expr(text: &str, chars: &[char], pos: usize) -> (r: Option<
    (Result<Expr, Error>, usize),
>)
    requires
        chars@ == text@,
        pos <= chars@.len(),
    ensures
        found(r, value_expr(chars@, pos as int)),
        r matches Some((_, end)) ==> pos < end <= chars@.len(),
    decreases chars@.len() - pos, 2int,
{
    proof {
        reveal(filter);
        reveal(any_expr);
        reveal(after_value_expr);
        reveal(value_expr);
        reveal(function_call);
        reveal(filter_list);
        reveal(more_filters);
    }
    let call = read_function_call(text, chars, pos);
    if call.is_some() {
        return call;
    }
    match read_literal(text, chars, pos) {
        Some((value, end)) => {
            let value = match value {
                Ok(v) => Ok(Expr::Value(v)),
                Err(e) => Err(e),
            };
            Some((value, end))
        },
        None => match identifier_end_from(chars, pos) {
            Some(end) => {
                let name = String::from_str(text.substring_char(pos, end));
                Some((Ok(Expr::Identifier(name)), end))
            },
            None => None,
        },
    }
}

/// The call at `pos`, if one stands there, and where it ends.
fn read_function_call(text: &str, chars: &[char], pos: usize) -> (r: Option<
    (Result<Expr, Error>, usize),
>)
    requires
        chars@ == text@,
        pos <= chars@.len(),
    ensures
        found(r, function_call(chars@, pos as int)),
        r matches Some((_, end)) ==> pos < end <= chars@.len(),
    decreases chars@.len() - pos, 1int,
{
    proof {
        reveal(filter);
        reveal(any_expr);
        reveal(after_value_expr);
        reveal(value_expr);
        reveal(function_call);
        reveal(filter_list);
        reveal(more_filters);
    }
    let n = chars.len();
    let name_end = match identifier_end_from(chars, pos) {
        Some(end) => end,
        None => {
            return None;
        },
    };
    let open = skip_spaces_from(chars, name_end);
    if !char_at(chars, open, '(') {
        return None;
    }
    let first = skip_spaces_from(chars, open + 1);
    let (list, list_end) = read_filter_list(text, chars, first);
    let close = skip_spaces_from(chars, list_end);
    if !char_at(chars, close, ')') {
        return None;
    }
    let value = match list {
        Err(e) => Err(e),
        Ok(args) => {
            let name = String::from_str(text.substring_char(pos, name_end));
            let e = Expr::Function(name, args);
            proof {
                lemma_models(e);
            }
            Ok(e)
        },
    };
    Some((value, close + 1))
}

/// The list of filters at `pos`, which may be empty, and where it ends.
fn read_filter_list(text: &str, chars: &[char], pos: usize) -> (r: (
    Result<Vec<Expr>, Error>,
    usize,
))
    requires
        chars@ == text@,
        pos <= chars@.len(),
    ensures
        found_list(r.0, r.1, filter_list(chars@, pos as int)),
        pos <= r.1 <= chars@.len(),
    decreases chars@.len() - pos, 7int,
{
    proof {
        reveal(filter);
        reveal(any_expr);
        reveal(after_value_expr);
        reveal(value_expr);
        reveal(function_call);
        reveal(filter_list);
        reveal(more_filters);
    }
    let n = chars.len();
    let mut items: Vec<Expr> = Vec::new();
    let mut failure: Option<Error> = None;
    let mut at: usize = pos;
    match read_filter(text, chars, pos) {
        None => {
            assert(models(items@) =~= Seq::<ExprView>::empty());
            return (Ok(items), pos);
        },
        Some((value, end)) => {
            match value {
                Ok(e) => {
                    items.push(e);
                },
                Err(e) => {
                    failure = Some(e);
                },
            }
            at = end;
        },
    }
    let ghost whole = filter_list(chars@, pos as int);
    proof {
        let first = filter(chars@, pos as int)->0;
        let rest = more_filters(chars@, at as int);
        assert(whole.value == item_then(first.value, rest.value));
        if failure is None {
            assert(models(items@) =~= seq![first.value->Ok_0]);
        }
        assert(whole.value == list_then(so_far(items@, failure), rest.value));
    }
    loop
        invariant
            chars@ == text@,
            n == chars@.len(),
            pos < at <= n,
            whole.end == more_filters(chars@, at as int).end,
            whole.value == list_then(so_far(items@, failure), more_filters(chars@, at as int).value),
        ensures
            pos < at <= n,
            whole.end == at,
            whole.value == so_far(items@, failure),
        decreases n - at,
    {
        proof {
            reveal(filter);
            reveal(any_expr);
            reveal(after_value_expr);
            reveal(value_expr);
            reveal(function_call);
            reveal(filter_list);
            reveal(more_filters);
        }
        let ghost here = more_filters(chars@, at as int);
        let comma = skip_spaces_from(chars, at);
        if !char_at(chars, comma, ',') {
            proof {
                if let Ok(a) = so_far(items@, failure) {
                    assert(a + Seq::<ExprView>::empty() =~= a);
                }
            }
            break ;
        }
        let next = skip_spaces_from(chars, comma + 1);
        match read_filter(text, chars, next) {
            None => {
                proof {
                    if let Ok(a) = so_far(items@, failure) {
                        assert(a + Seq::<ExprView>::empty() =~= a);
                    }
                }
                break ;
            },
            Some((value, end)) => {
                let ghost item = filter(chars@, next as int)->0;
                let ghost rest = more_filters(chars@, end as int);
                let ghost before = so_far(items@, failure);
                proof {
                    assert(here.value == item_then(item.value, rest.value));
                    assert(here.end == rest.end);
                }
                match value {
                    Ok(e) => {
                        if failure.is_none() {
                            proof {
                                assert(models(items@.push(e)) =~= models(items@).push(e@));
                                if let Ok(b) = rest.value {
                                    assert(models(items@).push(e@) + b =~= models(items@) + (seq![
                                        e@,
                                    ] + b));
                                }
                            }
                            items.push(e);
                        }
                    },
                    Err(e) => {
                        if failure.is_none() {
                            failure = Some(e);
                        }
                    },
                }
                at = end;
            },
        }
    }
    match failure {
        Some(e) => (Err(e), at),
        None => (Ok(items), at),
    }
}

/// Reads a filter: one expression, with nothing but whitespace before and
/// after it.
///
/// The result is the tree that the grammar gives to the text. A text that
/// does not follow the grammar is refused with `Error::Parsing`; one that
/// does, but in which a literal writes no value, is refused with the
/// failure of that literal.
pub fn parse_str(query: &str) -> (r: Result<Expr, Error>)
    ensures
        match r {
            Ok(e) => parse(query@) == Ok::<ExprView, Error>(e@),
            Err(e) => parse(query@) == Err::<ExprView, Error>(e) && (e == Error::Parsing
                || e.is_of_literal()),
        },
{
    proof {
        lemma_filter_failure(query@, skip_spaces(query@, 0));
    }
    let chars = chars_of(query);
    let start = skip_spaces_from(chars.as_slice(), 0);
    match read_filter(query, chars.as_slice(), start) {
        Some((value, end)) => {
            if skip_spaces_from(chars.as_slice(), end) == chars.len() {
                value
            } else {
                Err(Error::Parsing)
            }
        },
        None => Err(Error::Parsing),
    }
}

} // verus!
