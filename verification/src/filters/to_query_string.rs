//! The canonical text of an expression: the text that the parser reads
//! back as the same tree, with no more parentheses than that needs.

use crate::filters::ast::{lemma_models, models, Expr, ExprView, Value, ValueView};
use crate::filters::error::Error;
use crate::filters::temporal::{
    date_text, date_time_text, time_text, year_text, Date, DateTime, Time, SECOND_NANOS,
};
use crate::filters::text::{char_of_digit, char_of_hex, chars_of, decimal_digits};
use crate::filters::uuid::{uuid_text, Uuid};
use vstd::prelude::*;
use vstd::string::StringExecFns;

verus! {

/// How a character stands between the quotes of a string literal.
pub open spec fn escaped(c: char) -> Seq<char> {
    if c == '\'' {
        seq!['\\', '\'']
    } else if c == '\\' {
        seq!['\\', '\\']
    } else if c == '\n' {
        seq!['\\', 'n']
    } else if c == '\r' {
        seq!['\\', 'r']
    } else if c == '\t' {
        seq!['\\', 't']
    } else {
        seq![c]
    }
}

/// The characters of a text, each as it stands between quotes.
pub open spec fn escaped_text(s: Seq<char>) -> Seq<char>
    decreases s.len(),
{
    if s.len() == 0 {
        Seq::empty()
    } else {
        escaped_text(s.drop_last()) + escaped(s.last())
    }
}

/// The text of a literal.
pub open spec fn value_text(v: ValueView) -> Seq<char> {
    match v {
        ValueView::Null => seq!['n', 'u', 'l', 'l'],
        ValueView::Bool(true) => seq!['t', 'r', 'u', 'e'],
        ValueView::Bool(false) => seq!['f', 'a', 'l', 's', 'e'],
        ValueView::Number(text) => text,
        ValueView::Uuid(bytes) => uuid_text(bytes),
        ValueView::DateTime(instant) => date_time_text(instant),
        ValueView::Date(date) => date_text(date),
        ValueView::Time(time) => time_text(time),
        ValueView::String(text) => seq!['\''] + escaped_text(text) + seq!['\''],
    }
}

/// The canonical text of an expression.
pub open spec fn expr_text(e: ExprView) -> Seq<char>
    decreases e, 0int,
{
    match e {
        ExprView::Or(l, r) => operand_text(*l) + seq![' ', 'o', 'r', ' '] + operand_text(*r),
        ExprView::And(l, r) => operand_text(*l) + seq![' ', 'a', 'n', 'd', ' '] + operand_text(*r),
        ExprView::Compare(l, op, r) => expr_text(*l) + seq![' '] + op.text() + seq![' ']
            + expr_text(*r),
        ExprView::In(l, items) => expr_text(*l) + seq![' ', 'i', 'n', ' ', '('] + list_text(
            items,
            0,
        ) + seq![')'],
        ExprView::Not(inner) => seq!['n', 'o', 't', ' '] + expr_text(*inner),
        ExprView::Function(name, args) => name + seq!['('] + list_text(args, 0) + seq![')'],
        ExprView::Identifier(name) => name,
        ExprView::Value(v) => value_text(v),
    }
}

/// The text of an operand of `and` or `or`: in parentheses where the
/// operand is itself an `and` or an `or`.
pub open spec fn operand_text(e: ExprView) -> Seq<char>
    decreases e, 1int,
{
    if e is And || e is Or {
        seq!['('] + expr_text(e) + seq![')']
    } else {
        expr_text(e)
    }
}

/// The texts of the items of a list from item `from` on, with a comma and
/// a space between two of them.
pub open spec fn list_text(items: Seq<ExprView>, from: int) -> Seq<char>
    decreases items, items.len() - from,
{
    if !(0 <= from < items.len()) {
        Seq::empty()
    } else if from + 1 == items.len() {
        expr_text(items[from])
    } else {
        expr_text(items[from]) + seq![',', ' '] + list_text(items, from + 1)
    }
}

/// Puts the characters of `word` at the end of `out`.
fn push_word(out: &mut String, word: &[char])
    ensures
        final(out)@ == old(out)@ + word@,
{
    let mut i: usize = 0;
    while i < word.len()
        invariant
            i <= word.len(),
            out@ == old(out)@ + word@.take(i as int),
        decreases word.len() - i,
    {
        out.push(word[i]);
        proof {
            assert(word@.take(i + 1) =~= word@.take(i as int).push(word@[i as int]));
        }
        i += 1;
    }
    assert(word@.take(word.len() as int) =~= word@);
}

/// Puts the `width` low decimal digits of `n` at the end of `out`.
fn push_decimal(out: &mut String, n: u32, width: usize)
    ensures
        final(out)@ == old(out)@ + decimal_digits(n as int, width as nat),
    decreases width,
{
    if width > 0 {
        push_decimal(out, n / 10, width - 1);
        out.push(char_of_digit((n % 10) as u8));
    }
}

/// Puts a text between quotes at the end of `out`.
fn push_quoted(out: &mut String, text: &str)
    ensures
        final(out)@ == old(out)@ + (seq!['\''] + escaped_text(text@) + seq!['\'']),
{
    let chars = chars_of(text);
    out.push('\'');
    let mut i: usize = 0;
    while i < chars.len()
        invariant
            i <= chars.len(),
            out@ == old(out)@ + seq!['\''] + escaped_text(chars@.take(i as int)),
        decreases chars.len() - i,
    {
        let c = chars[i];
        proof {
            assert(chars@.take(i + 1).drop_last() =~= chars@.take(i as int));
            assert(chars@.take(i + 1).last() == c);
        }
        if c == '\'' {
            push_word(out, &['\\', '\'']);
        } else if c == '\\' {
            push_word(out, &['\\', '\\']);
        } else if c == '\n' {
            push_word(out, &['\\', 'n']);
        } else if c == '\r' {
            push_word(out, &['\\', 'r']);
        } else if c == '\t' {
            push_word(out, &['\\', 't']);
        } else {
            push_word(out, &[c]);
        }
        i += 1;
    }
    assert(chars@.take(chars.len() as int) =~= chars@);
    out.push('\'');
}

/// Puts the hyphenated text of an identifier at the end of `out`.
fn push_uuid(out: &mut String, id: &Uuid)
    ensures
        final(out)@ == old(out)@ + uuid_text(id@),
{
    let bytes = id.as_bytes();
    let mut i: usize = 0;
    while i < 36
        invariant
            i <= 36,
            bytes@ == id@,
            bytes@.len() == 16,
            out@ == old(out)@ + uuid_text(id@).take(i as int),
        decreases 36 - i,
    {
        proof {
            assert(uuid_text(id@).take(i + 1) =~= uuid_text(id@).take(i as int).push(
                uuid_text(id@)[i as int],
            ));
        }
        if i == 8 || i == 13 || i == 18 || i == 23 {
            out.push('-');
        } else {
            let k = if i < 8 {
                i
            } else if i < 13 {
                i - 1
            } else if i < 18 {
                i - 2
            } else if i < 23 {
                i - 3
            } else {
                i - 4
            };
            let byte = bytes[k / 2];
            let digit = if k % 2 == 0 {
                byte / 16
            } else {
                byte % 16
            };
            out.push(char_of_hex(digit));
        }
        i += 1;
    }
    assert(uuid_text(id@).take(36) =~= uuid_text(id@));
}

/// Puts `YYYY-MM-DD` at the end of `out`.
fn push_date(out: &mut String, date: Date)
    ensures
        final(out)@ == old(out)@ + date_text(date@),
{
    proof {
        use_type_invariant(&date);
    }
    let year = date.year();
    if 0 <= year && year <= 9999 {
        push_decimal(out, year as u32, 4);
    } else {
        let magnitude: u32 = if year < 0 {
            out.push('-');
            (-year) as u32
        } else {
            out.push('+');
            year as u32
        };
        let width: usize = if magnitude < 10000 {
            4
        } else if magnitude < 100000 {
            5
        } else {
            6
        };
        push_decimal(out, magnitude, width);
    }
    out.push('-');
    push_decimal(out, date.month(), 2);
    out.push('-');
    push_decimal(out, date.day(), 2);
    proof {
        let y = year_text(date@.year);
        let m = decimal_digits(date@.month, 2);
        let d = decimal_digits(date@.day, 2);
        assert(out@ =~= old(out)@ + (y + seq!['-'] + m + seq!['-'] + d));
    }
}

/// Puts `HH:MM:SS` at the end of `out`.
fn push_time(out: &mut String, time: Time)
    ensures
        final(out)@ == old(out)@ + time_text(time@),
{
    proof {
        use_type_invariant(&time);
    }
    push_decimal(out, time.hour(), 2);
    out.push(':');
    push_decimal(out, time.minute(), 2);
    out.push(':');
    push_decimal(out, time.second() + time.nanosecond() / SECOND_NANOS, 2);
    proof {
        let h = decimal_digits(time@.hour, 2);
        let m = decimal_digits(time@.minute, 2);
        let s = decimal_digits(time@.second + time@.nanosecond / (SECOND_NANOS as int), 2);
        assert(out@ =~= old(out)@ + (h + seq![':'] + m + seq![':'] + s));
    }
}

/// Puts `YYYY-MM-DDTHH:MM:SS.mmmZ` at the end of `out`.
fn push_date_time(out: &mut String, instant: DateTime)
    ensures
        final(out)@ == old(out)@ + date_time_text(instant@),
{
    let time = instant.time();
    push_date(out, instant.date());
    out.push('T');
    push_time(out, time);
    out.push('.');
    push_decimal(out, (time.nanosecond() % SECOND_NANOS) / 1_000_000, 3);
    out.push('Z');
    proof {
        let d = date_text(instant@.date);
        let t = time_text(instant@.time);
        let ms = decimal_digits((instant@.time.nanosecond % (SECOND_NANOS as int)) / 1_000_000, 3);
        assert(out@ =~= old(out)@ + (d + seq!['T'] + t + seq!['.'] + ms + seq!['Z']));
    }
}

/// Puts the text of a literal at the end of `out`.
pub(crate) fn write_value(out: &mut String, value: &Value)
    ensures
        final(out)@ == old(out)@ + value_text(value@),
{
    match value {
        Value::Null => push_word(out, &['n', 'u', 'l', 'l']),
        Value::Bool(true) => push_word(out, &['t', 'r', 'u', 'e']),
        Value::Bool(false) => push_word(out, &['f', 'a', 'l', 's', 'e']),
        Value::Number(number) => out.append(number.as_str()),
        Value::Uuid(id) => push_uuid(out, id),
        Value::DateTime(instant) => push_date_time(out, *instant),
        Value::Date(date) => push_date(out, *date),
        Value::Time(time) => push_time(out, *time),
        Value::String(text) => push_quoted(out, text.as_str()),
    }
}

/// Puts the canonical text of an operand of `and` or `or` at the end of
/// `out`.
fn write_operand(out: &mut String, expr: &Expr)
    ensures
        final(out)@ == old(out)@ + operand_text(expr@),
    decreases expr, 1int,
{
    match expr {
        Expr::And(_, _) | Expr::Or(_, _) => {
            out.push('(');
            write_expr(out, expr);
            out.push(')');
            assert(out@ =~= old(out)@ + (seq!['('] + expr_text(expr@) + seq![')']));
        },
        _ => write_expr(out, expr),
    }
}

/// Puts the canonical texts of the items of a list at the end of `out`.
#[verifier::loop_isolation(false)]
fn write_list(out: &mut String, items: &Vec<Expr>)
    ensures
        final(out)@ == old(out)@ + list_text(models(items@), 0),
    decreases items, 2int,
{
    let ghost views = models(items@);
    let mut i: usize = 0;
    while i < items.len()
        invariant
            i <= items.len(),
            old(out)@ + list_text(views, 0) == out@ + (if 0 < i < items.len() {
                seq![',', ' ']
            } else {
                Seq::<char>::empty()
            }) + list_text(views, i as int),
        decreases items.len() - i,
    {
        let ghost before = out@;
        if i > 0 {
            push_word(out, &[',', ' ']);
        }
        write_expr(out, &items[i]);
        proof {
            let item = expr_text(views[i as int]);
            let rest = list_text(views, i + 1);
            if i + 1 == items.len() {
                assert(out@ + Seq::<char>::empty() + rest =~= out@);
                if i > 0 {
                    assert(before + seq![',', ' '] + item =~= out@);
                } else {
                    assert(before + Seq::<char>::empty() + item =~= out@);
                }
            } else {
                if i > 0 {
                    assert(before + seq![',', ' '] + (item + seq![',', ' '] + rest) =~= out@ + seq![
                        ',',
                        ' ',
                    ] + rest);
                } else {
                    assert(before + Seq::<char>::empty() + (item + seq![',', ' '] + rest) =~= out@
                        + seq![',', ' '] + rest);
                }
            }
        }
        i += 1;
    }
    assert(out@ + Seq::<char>::empty() + Seq::<char>::empty() =~= out@);
}

/// Puts the canonical text of an expression at the end of `out`.
fn write_expr(out: &mut String, expr: &Expr)
    ensures
        final(out)@ == old(out)@ + expr_text(expr@),
    decreases expr, 0int,
{
    match expr {
        Expr::Or(l, r) => {
            write_operand(out, l);
            push_word(out, &[' ', 'o', 'r', ' ']);
            write_operand(out, r);
            assert(out@ =~= old(out)@ + (operand_text(l@) + seq![' ', 'o', 'r', ' ']
                + operand_text(r@)));
        },
        Expr::And(l, r) => {
            write_operand(out, l);
            push_word(out, &[' ', 'a', 'n', 'd', ' ']);
            write_operand(out, r);
            assert(out@ =~= old(out)@ + (operand_text(l@) + seq![' ', 'a', 'n', 'd', ' ']
                + operand_text(r@)));
        },
        Expr::Compare(l, op, r) => {
            write_expr(out, l);
            out.push(' ');
            out.append(op.as_str());
            out.push(' ');
            write_expr(out, r);
            assert(out@ =~= old(out)@ + (expr_text(l@) + seq![' '] + op.text() + seq![' ']
                + expr_text(r@)));
        },
        Expr::In(l, items) => {
            proof {
                lemma_models(*expr);
            }
            write_expr(out, l);
            push_word(out, &[' ', 'i', 'n', ' ', '(']);
            write_list(out, items);
            out.push(')');
            assert(out@ =~= old(out)@ + (expr_text(l@) + seq![' ', 'i', 'n', ' ', '(']
                + list_text(models(items@), 0) + seq![')']));
        },
        Expr::Not(inner) => {
            push_word(out, &['n', 'o', 't', ' ']);
            write_expr(out, inner);
            assert(out@ =~= old(out)@ + (seq!['n', 'o', 't', ' '] + expr_text(inner@)));
        },
        Expr::Function(name, args) => {
            proof {
                lemma_models(*expr);
            }
            out.append(name.as_str());
            out.push('(');
            write_list(out, args);
            out.push(')');
            assert(out@ =~= old(out)@ + (name@ + seq!['('] + list_text(models(args@), 0) + seq![
                ')',
            ]));
        },
        Expr::Identifier(name) => out.append(name.as_str()),
        Expr::Value(value) => write_value(out, value),
    }
}

/// Puts the canonical text of `expr` at the end of `out`. The text is
/// always written, and the result always `Ok`.
pub fn write_query_string(out: &mut String, expr: &Expr) -> (r: Result<(), Error>)
    ensures
        r is Ok,
        final(out)@ == old(out)@ + expr_text(expr@),
{
    write_expr(out, expr);
    Ok(())
}

/// The canonical text of `expr`. Every expression has one, so the result
/// is always `Ok`.
pub fn to_query_string(expr: &Expr) -> (r: Result<String, Error>)
    ensures
        r matches Ok(text) && text@ == expr_text(expr@),
{
    let mut out = String::new();
    write_expr(&mut out, expr);
    assert(Seq::<char>::empty() + expr_text(expr@) =~= expr_text(expr@));
    Ok(out)
}

} // verus!
