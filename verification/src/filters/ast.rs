//! The expression tree shared by the parser, the validator and the renderer.

use crate::filters::number::{is_canonical_decimal, Decimal};
use crate::filters::temporal::{Date, DateTime, DateTimeView, DateView, Time, TimeView};
use crate::filters::uuid::Uuid;
use vstd::prelude::*;
use vstd::string::StringExecFns;

verus! {

/// A comparison operator.
#[derive(Clone, Copy, Debug, PartialEq, Eq, Structural)]
pub enum CompareOperator {
    /// Equal to.
    Equal,
    /// Not equal to.
    NotEqual,
    /// Greater than.
    GreaterThan,
    /// Greater than or equal to.
    GreaterOrEqual,
    /// Less than.
    LessThan,
    /// Less than or equal to.
    LessOrEqual,
}

impl CompareOperator {
    /// The two letters that write the operator.
    pub open spec fn text(self) -> Seq<char> {
        match self {
            CompareOperator::Equal => seq!['e', 'q'],
            CompareOperator::NotEqual => seq!['n', 'e'],
            CompareOperator::GreaterThan => seq!['g', 't'],
            CompareOperator::GreaterOrEqual => seq!['g', 'e'],
            CompareOperator::LessThan => seq!['l', 't'],
            CompareOperator::LessOrEqual => seq!['l', 'e'],
        }
    }

    /// The two letters that write the operator, as a text of its own.
    pub fn to_string(&self) -> (r: String)
        ensures
            r@ == self.text(),
    {
        String::from_str(self.as_str())
    }

    /// The two letters that write the operator.
    pub fn as_str(&self) -> (r: &'static str)
        ensures
            r@ == self.text(),
    {
        proof {
            reveal_strlit("eq");
            reveal_strlit("ne");
            reveal_strlit("gt");
            reveal_strlit("ge");
            reveal_strlit("lt");
            reveal_strlit("le");
        }
        let r = match self {
            CompareOperator::Equal => "eq",
            CompareOperator::NotEqual => "ne",
            CompareOperator::GreaterThan => "gt",
            CompareOperator::GreaterOrEqual => "ge",
            CompareOperator::LessThan => "lt",
            CompareOperator::LessOrEqual => "le",
        };
        assert(r@ =~= self.text());
        r
    }
}

/// A literal.
#[derive(Debug, PartialEq, Eq)]
pub enum Value {
    /// The null literal.
    Null,
    /// `true` or `false`.
    Bool(bool),
    /// An exact decimal number.
    Number(Decimal),
    /// A 128-bit identifier.
    Uuid(Uuid),
    /// An instant, in UTC.
    DateTime(DateTime),
    /// A calendar date.
    Date(Date),
    /// A time of day.
    Time(Time),
    /// A text, with its escapes already decoded.
    String(String),
}

/// What a literal stands for.
pub ghost enum ValueView {
    Null,
    Bool(bool),
    /// The canonical text of the number.
    Number(Seq<char>),
    /// The sixteen bytes of the identifier.
    Uuid(Seq<u8>),
    DateTime(DateTimeView),
    Date(DateView),
    Time(TimeView),
    String(Seq<char>),
}

impl ValueView {
    /// The literal holds a value that its type can hold.
    pub open spec fn wf(self) -> bool {
        match self {
            ValueView::Number(text) => is_canonical_decimal(text),
            ValueView::Uuid(bytes) => bytes.len() == 16,
            ValueView::DateTime(instant) => instant.wf(),
            ValueView::Date(date) => date.wf(),
            ValueView::Time(time) => time.wf(),
            _ => true,
        }
    }
}

impl View for Value {
    type V = ValueView;

    open spec fn view(&self) -> ValueView {
        match self {
            Value::Null => ValueView::Null,
            Value::Bool(b) => ValueView::Bool(*b),
            Value::Number(n) => ValueView::Number(n@),
            Value::Uuid(id) => ValueView::Uuid(id@),
            Value::DateTime(instant) => ValueView::DateTime(instant@),
            Value::Date(date) => ValueView::Date(date@),
            Value::Time(time) => ValueView::Time(time@),
            Value::String(text) => ValueView::String(text@),
        }
    }
}

impl Clone for Value {
    fn clone(&self) -> (r: Self)
        ensures
            r@ == self@,
    {
        match self {
            Value::Null => Value::Null,
            Value::Bool(b) => Value::Bool(*b),
            Value::Number(n) => Value::Number(n.clone()),
            Value::Uuid(id) => Value::Uuid(*id),
            Value::DateTime(instant) => Value::DateTime(*instant),
            Value::Date(date) => Value::Date(*date),
            Value::Time(time) => Value::Time(*time),
            Value::String(text) => Value::String(text.clone()),
        }
    }
}

/// A filter expression.
#[derive(Debug, PartialEq, Eq)]
pub enum Expr {
    /// Either operand holds.
    Or(Box<Expr>, Box<Expr>),
    /// Both operands hold.
    And(Box<Expr>, Box<Expr>),
    /// A comparison of two expressions.
    Compare(Box<Expr>, CompareOperator, Box<Expr>),
    /// The first expression is one of the listed ones.
    In(Box<Expr>, Vec<Expr>),
    /// The operand does not hold.
    Not(Box<Expr>),
    /// A call of a named function on its arguments.
    Function(String, Vec<Expr>),
    /// A name that stands for a field.
    Identifier(String),
    /// A literal.
    Value(Value),
}

/// What an expression stands for: the same tree over sequences.
pub ghost enum ExprView {
    Or(Box<ExprView>, Box<ExprView>),
    And(Box<ExprView>, Box<ExprView>),
    Compare(Box<ExprView>, CompareOperator, Box<ExprView>),
    In(Box<ExprView>, Seq<ExprView>),
    Not(Box<ExprView>),
    Function(Seq<char>, Seq<ExprView>),
    Identifier(Seq<char>),
    Value(ValueView),
}

impl Expr {
    /// The tree that this expression stands for.
    pub open spec fn model(&self) -> ExprView
        decreases self,
    {
        match self {
            Expr::Or(l, r) => ExprView::Or(Box::new(l.model()), Box::new(r.model())),
            Expr::And(l, r) => ExprView::And(Box::new(l.model()), Box::new(r.model())),
            Expr::Compare(l, op, r) => ExprView::Compare(
                Box::new(l.model()),
                *op,
                Box::new(r.model()),
            ),
            Expr::In(l, items) => ExprView::In(
                Box::new(l.model()),
                Seq::new(
                    items@.len(),
                    |i: int|
                        if 0 <= i < items@.len() {
                            items@[i].model()
                        } else {
                            ExprView::Value(ValueView::Null)
                        },
                ),
            ),
            Expr::Not(e) => ExprView::Not(Box::new(e.model())),
            Expr::Function(name, args) => ExprView::Function(
                name@,
                Seq::new(
                    args@.len(),
                    |i: int|
                        if 0 <= i < args@.len() {
                            args@[i].model()
                        } else {
                            ExprView::Value(ValueView::Null)
                        },
                ),
            ),
            Expr::Identifier(name) => ExprView::Identifier(name@),
            Expr::Value(v) => ExprView::Value(v@),
        }
    }

    /// A copy of the expression.
    #[verifier::loop_isolation(false)]
    pub fn duplicate(&self) -> (r: Expr)
        ensures
            r@ == self@,
        decreases self,
    {
        match self {
            Expr::Or(l, r) => Expr::Or(Box::new(l.duplicate()), Box::new(r.duplicate())),
            Expr::And(l, r) => Expr::And(Box::new(l.duplicate()), Box::new(r.duplicate())),
            Expr::Compare(l, op, r) => Expr::Compare(
                Box::new(l.duplicate()),
                *op,
                Box::new(r.duplicate()),
            ),
            Expr::In(l, items) => {
                let mut copies: Vec<Expr> = Vec::new();
                let mut i: usize = 0;
                while i < items.len()
                    invariant
                        i <= items.len(),
                        copies@.len() == i,
                        forall|j: int| 0 <= j < i ==> copies@[j]@ == items@[j]@,
                    decreases items.len() - i,
                {
                    copies.push(items[i].duplicate());
                    i += 1;
                }
                let r = Expr::In(Box::new(l.duplicate()), copies);
                assert(r@->In_1 =~= self@->In_1);
                r
            },
            Expr::Not(e) => Expr::Not(Box::new(e.duplicate())),
            Expr::Function(name, args) => {
                let mut copies: Vec<Expr> = Vec::new();
                let mut i: usize = 0;
                while i < args.len()
                    invariant
                        i <= args.len(),
                        copies@.len() == i,
                        forall|j: int| 0 <= j < i ==> copies@[j]@ == args@[j]@,
                    decreases args.len() - i,
                {
                    copies.push(args[i].duplicate());
                    i += 1;
                }
                let r = Expr::Function(name.clone(), copies);
                assert(r@->Function_1 =~= self@->Function_1);
                r
            },
            Expr::Identifier(name) => Expr::Identifier(name.clone()),
            Expr::Value(v) => Expr::Value(v.clone()),
        }
    }
}

impl View for Expr {
    type V = ExprView;

    open spec fn view(&self) -> ExprView {
        self.model()
    }
}

impl Clone for Expr {
    fn clone(&self) -> (r: Self)
        ensures
            r@ == self@,
    {
        self.duplicate()
    }
}

/// The trees that a sequence of expressions stands for.
pub open spec fn models(items: Seq<Expr>) -> Seq<ExprView> {
    Seq::new(items.len(), |i: int| items[i]@)
}

/// The tree of a list node holds the trees of its items.
pub(crate) proof fn lemma_models(e: Expr)
    ensures
        e matches Expr::In(l, items) ==> e@ == ExprView::In(Box::new(l@), models(items@)),
        e matches Expr::Function(name, args) ==> e@ == ExprView::Function(name@, models(args@)),
{
    match e {
        Expr::In(l, items) => {
            assert(e@->In_1 =~= models(items@));
        },
        Expr::Function(name, args) => {
            assert(e@->Function_1 =~= models(args@));
        },
        _ => {},
    }
}

} // verus!
