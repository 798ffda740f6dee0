//! The type validator: it gives an expression its type against the types
//! of the known identifiers and functions, or says what does not fit.

use crate::filters::ast::{lemma_models, models, Expr, ExprView, Value, ValueView};
use vstd::hash_map::StringHashMap;
use vstd::prelude::*;

verus! {

/// The type of an expression.
#[derive(Clone, Copy, Debug, PartialEq, Eq, Structural)]
pub enum Type {
    /// A truth value.
    Boolean,
    /// A decimal number.
    Number,
    /// A text.
    String,
    /// A 128-bit identifier.
    Uuid,
    /// A calendar date.
    Date,
    /// A time of day.
    Time,
    /// An instant.
    DateTime,
    /// The type of the null literal alone. It may be compared with a value
    /// of any type, and fits nowhere else where another type is asked for.
    Null,
}

impl Type {
    /// Values of the two types may be compared: the types are the same, or
    /// one of them is that of the null literal.
    pub open spec fn comparable(self, other: Type) -> bool {
        self == other || self == Type::Null || other == Type::Null
    }

    /// Values of the two types may be compared.
    pub fn is_comparable(self, other: Type) -> (r: bool)
        ensures
            r == self.comparable(other),
    {
        self == other || self == Type::Null || other == Type::Null
    }
}

/// Why an expression has no type.
#[derive(Clone, Debug, PartialEq, Eq)]
pub enum ValidationError {
    /// No identifier of this name is known.
    UndefinedIdentifier { name: String },
    /// No function of this name is known.
    UndefinedFunction { name: String },
    /// Two operands do not have types that go together; where one operand
    /// must be a truth value, `lhs` is `Boolean`.
    ComparingIncompatibleTypes { lhs: Type, rhs: Type },
    /// The argument at `position`, counted from one, has another type than
    /// the function asks for.
    IncorrectFunctionArgumentType { name: String, position: usize, expected: Type, given: Type },
    /// The function was given fewer arguments than it asks for, or more
    /// than it takes. `expected` is the number of its fixed arguments.
    IncorrectFunctionArgumentCount { name: String, expected: usize, given: usize },
}

/// What a validation error says.
#[allow(inconsistent_fields)]
pub ghost enum ValidationErrorView {
    UndefinedIdentifier { name: Seq<char> },
    UndefinedFunction { name: Seq<char> },
    ComparingIncompatibleTypes { lhs: Type, rhs: Type },
    IncorrectFunctionArgumentType { name: Seq<char>, position: int, expected: Type, given: Type },
    IncorrectFunctionArgumentCount { name: Seq<char>, expected: int, given: int },
}

impl View for ValidationError {
    type V = ValidationErrorView;

    open spec fn view(&self) -> ValidationErrorView {
        match self {
            ValidationError::UndefinedIdentifier { name } => ValidationErrorView::UndefinedIdentifier {
                name: name@,
            },
            ValidationError::UndefinedFunction { name } => ValidationErrorView::UndefinedFunction {
                name: name@,
            },
            ValidationError::ComparingIncompatibleTypes {
                lhs,
                rhs,
            } => ValidationErrorView::ComparingIncompatibleTypes { lhs: *lhs, rhs: *rhs },
            ValidationError::IncorrectFunctionArgumentType {
                name,
                position,
                expected,
                given,
            } => ValidationErrorView::IncorrectFunctionArgumentType {
                name: name@,
                position: *position as int,
                expected: *expected,
                given: *given,
            },
            ValidationError::IncorrectFunctionArgumentCount {
                name,
                expected,
                given,
            } => ValidationErrorView::IncorrectFunctionArgumentCount {
                name: name@,
                expected: *expected as int,
                given: *given as int,
            },
        }
    }
}

/// What a function asks for and gives: the types of its fixed arguments,
/// the type of every further argument if it takes any, and the type of
/// its result.
pub ghost struct Signature {
    pub fixed: Seq<Type>,
    pub variadic: Option<Type>,
    pub result: Type,
}

/// The types of the known identifiers, by name.
pub struct IdentifiersTypeMap {
    types: StringHashMap<Type>,
}

/// The signatures of the known functions, by name.
pub struct FunctionsTypeMap {
    signatures: StringHashMap<(Vec<Type>, Option<Type>, Type)>,
}

impl View for IdentifiersTypeMap {
    type V = Map<Seq<char>, Type>;

    closed spec fn view(&self) -> Map<Seq<char>, Type> {
        self.types@
    }
}

impl View for FunctionsTypeMap {
    type V = Map<Seq<char>, Signature>;

    closed spec fn view(&self) -> Map<Seq<char>, Signature> {
        Map::new(
            |name: Seq<char>| self.signatures@.dom().contains(name),
            |name: Seq<char>|
                Signature {
                    fixed: self.signatures@[name].0@,
                    variadic: self.signatures@[name].1,
                    result: self.signatures@[name].2,
                },
        )
    }
}

impl IdentifiersTypeMap {
    /// The map that knows no identifier.
    pub fn new() -> (r: IdentifiersTypeMap)
        ensures
            r@ == Map::<Seq<char>, Type>::empty(),
    {
        IdentifiersTypeMap { types: StringHashMap::new() }
    }

    /// Gives the identifier `name` the type `ty`, in place of any type that
    /// it had.
    pub fn insert(&mut self, name: String, ty: Type)
        ensures
            final(self)@ == old(self)@.insert(name@, ty),
    {
        self.types.insert(name, ty);
    }

    /// The type of the identifier `name`, if it is known.
    pub fn get(&self, name: &str) -> (r: Option<Type>)
        ensures
            r == (if self@.dom().contains(name@) {
                Some(self@[name@])
            } else {
                None::<Type>
            }),
    {
        match self.types.get(name) {
            Some(ty) => Some(*ty),
            None => None,
        }
    }
}

impl FunctionsTypeMap {
    /// The map that knows no function.
    pub fn new() -> (r: FunctionsTypeMap)
        ensures
            r@ == Map::<Seq<char>, Signature>::empty(),
    {
        let r = FunctionsTypeMap { signatures: StringHashMap::new() };
        assert(r@ =~= Map::<Seq<char>, Signature>::empty());
        r
    }

    /// Gives the function `name` its signature, in place of any that it
    /// had: the types of its fixed arguments, the type of every further
    /// argument if it takes any, and the type of its result.
    pub fn insert(&mut self, name: String, fixed: Vec<Type>, variadic: Option<Type>, result: Type)
        ensures
            final(self)@ == old(self)@.insert(
                name@,
                Signature { fixed: fixed@, variadic, result },
            ),
    {
        let ghost key = name@;
        let ghost signature = Signature { fixed: fixed@, variadic, result };
        self.signatures.insert(name, (fixed, variadic, result));
        assert(self@ =~= old(self)@.insert(key, signature));
    }

    /// The function `name` is known.
    pub fn contains(&self, name: &str) -> (r: bool)
        ensures
            r == self@.dom().contains(name@),
    {
        self.signatures.contains_key(name)
    }
}

/// The type of a literal.
pub open spec fn type_of_value(v: ValueView) -> Type {
    match v {
        ValueView::Null => Type::Null,
        ValueView::Bool(_) => Type::Boolean,
        ValueView::Number(_) => Type::Number,
        ValueView::Uuid(_) => Type::Uuid,
        ValueView::DateTime(_) => Type::DateTime,
        ValueView::Date(_) => Type::Date,
        ValueView::Time(_) => Type::Time,
        ValueView::String(_) => Type::String,
    }
}

/// The type that argument `index`, counted from zero, must have, if the
/// function takes an argument there.
pub open spec fn expected_argument(signature: Signature, index: int) -> Option<Type> {
    if 0 <= index < signature.fixed.len() {
        Some(signature.fixed[index])
    } else {
        signature.variadic
    }
}

/// The type of an expression, or the first thing that does not fit, in
/// this order of reading: an operand before what is asked of it, the left
/// operand before the right one, the items of a list and the arguments of
/// a call from first to last.
///
/// A literal has the type of its kind and an identifier the type that
/// `identifiers` gives it. The operands of a comparison must have
/// comparable types; those of `and`, `or` and `not` must be truth values;
/// every item of a list test must be comparable with the tested
/// expression. All of these are truth values. A call has the result type
/// of its function: each argument must have exactly the type that the
/// function asks for at its place, no argument may stand where the
/// function takes none, and no fixed argument may be missing.
pub open spec fn type_of(
    e: ExprView,
    identifiers: Map<Seq<char>, Type>,
    functions: Map<Seq<char>, Signature>,
) -> Result<Type, ValidationErrorView>
    decreases e, 0int,
{
    match e {
        ExprView::Value(v) => Ok(type_of_value(v)),
        ExprView::Identifier(name) => if identifiers.dom().contains(name) {
            Ok(identifiers[name])
        } else {
            Err(ValidationErrorView::UndefinedIdentifier { name })
        },
        ExprView::Compare(l, _, r) => match type_of(*l, identifiers, functions) {
            Err(e) => Err(e),
            Ok(lhs) => match type_of(*r, identifiers, functions) {
                Err(e) => Err(e),
                Ok(rhs) => if lhs.comparable(rhs) {
                    Ok(Type::Boolean)
                } else {
                    Err(ValidationErrorView::ComparingIncompatibleTypes { lhs, rhs })
                },
            },
        },
        ExprView::And(l, r) | ExprView::Or(l, r) => match type_of(*l, identifiers, functions) {
            Err(e) => Err(e),
            Ok(lhs) => match type_of(*r, identifiers, functions) {
                Err(e) => Err(e),
                Ok(rhs) => if lhs == Type::Boolean && rhs == Type::Boolean {
                    Ok(Type::Boolean)
                } else {
                    Err(ValidationErrorView::ComparingIncompatibleTypes { lhs, rhs })
                },
            },
        },
        ExprView::Not(inner) => match type_of(*inner, identifiers, functions) {
            Err(e) => Err(e),
            Ok(rhs) => if rhs == Type::Boolean {
                Ok(Type::Boolean)
            } else {
                Err(ValidationErrorView::ComparingIncompatibleTypes { lhs: Type::Boolean, rhs })
            },
        },
        ExprView::In(l, items) => match type_of(*l, identifiers, functions) {
            Err(e) => Err(e),
            Ok(lhs) => match first_unfit_item(items, 0, lhs, identifiers, functions) {
                Some(e) => Err(e),
                None => Ok(Type::Boolean),
            },
        },
        ExprView::Function(name, args) => if !functions.dom().contains(name) {
            Err(ValidationErrorView::UndefinedFunction { name })
        } else {
            match first_unfit_argument(args, 0, name, functions[name], identifiers, functions) {
                Some(e) => Err(e),
                None => if args.len() < functions[name].fixed.len() {
                    Err(
                        ValidationErrorView::IncorrectFunctionArgumentCount {
                            name,
                            expected: functions[name].fixed.len() as int,
                            given: args.len() as int,
                        },
                    )
                } else {
                    Ok(functions[name].result)
                },
            }
        },
    }
}

/// What does not fit in the items of a list test from item `from` on, if
/// anything: an item without a type, or one whose type is not comparable
/// with `lhs`.
pub open spec fn first_unfit_item(
    items: Seq<ExprView>,
    from: int,
    lhs: Type,
    identifiers: Map<Seq<char>, Type>,
    functions: Map<Seq<char>, Signature>,
) -> Option<ValidationErrorView>
    decreases items, items.len() - from,
{
    if !(0 <= from < items.len()) {
        None
    } else {
        match type_of(items[from], identifiers, functions) {
            Err(e) => Some(e),
            Ok(rhs) => if !lhs.comparable(rhs) {
                Some(ValidationErrorView::ComparingIncompatibleTypes { lhs, rhs })
            } else {
                first_unfit_item(items, from + 1, lhs, identifiers, functions)
            },
        }
    }
}

/// What does not fit in the arguments of a call from argument `from` on,
/// if anything: an argument where the function takes none, one without a
/// type, or one of another type than the function asks for.
pub open spec fn first_unfit_argument(
    args: Seq<ExprView>,
    from: int,
    name: Seq<char>,
    signature: Signature,
    identifiers: Map<Seq<char>, Type>,
    functions: Map<Seq<char>, Signature>,
) -> Option<ValidationErrorView>
    decreases args, args.len() - from,
{
    if !(0 <= from < args.len()) {
        None
    } else {
        match expected_argument(signature, from) {
            None => Some(
                ValidationErrorView::IncorrectFunctionArgumentCount {
                    name,
                    expected: signature.fixed.len() as int,
                    given: args.len() as int,
                },
            ),
            Some(expected) => match type_of(args[from], identifiers, functions) {
                Err(e) => Some(e),
                Ok(given) => if given != expected {
                    Some(
                        ValidationErrorView::IncorrectFunctionArgumentType {
                            name,
                            position: from + 1,
                            expected,
                            given,
                        },
                    )
                } else {
                    first_unfit_argument(args, from + 1, name, signature, identifiers, functions)
                },
            },
        }
    }
}

/// A result of the validator stands for a result of the rules.
pub open spec fn same_type_result(
    r: Result<Type, ValidationError>,
    m: Result<Type, ValidationErrorView>,
) -> bool {
    match r {
        Ok(t) => m == Ok::<Type, ValidationErrorView>(t),
        Err(e) => m == Err::<Type, ValidationErrorView>(e@),
    }
}

impl Value {
    /// The type of the literal.
    pub fn type_of(&self) -> (r: Type)
        ensures
            r == type_of_value(self@),
    {
        match self {
            Value::Null => Type::Null,
            Value::Bool(_) => Type::Boolean,
            Value::Number(_) => Type::Number,
            Value::Uuid(_) => Type::Uuid,
            Value::DateTime(_) => Type::DateTime,
            Value::Date(_) => Type::Date,
            Value::Time(_) => Type::Time,
            Value::String(_) => Type::String,
        }
    }
}

impl Expr {
    /// The type of the expression against the given identifiers and
    /// functions, or the first thing in it that does not fit.
    #[verifier::loop_isolation(false)]
    pub fn validate(&self, identifiers: &IdentifiersTypeMap, functions: &FunctionsTypeMap) -> (r:
        Result<Type, ValidationError>)
        ensures
            same_type_result(r, type_of(self@, identifiers@, functions@)),
        decreases self,
    {
        match self {
            Expr::Value(v) => Ok(v.type_of()),
            Expr::Identifier(name) => match identifiers.get(name.as_str()) {
                Some(ty) => Ok(ty),
                None => Err(ValidationError::UndefinedIdentifier { name: name.clone() }),
            },
            Expr::Compare(l, _, r) => {
                let lhs = match l.validate(identifiers, functions) {
                    Ok(ty) => ty,
                    Err(e) => {
                        return Err(e);
                    },
                };
                let rhs = match r.validate(identifiers, functions) {
                    Ok(ty) => ty,
                    Err(e) => {
                        return Err(e);
                    },
                };
                if lhs.is_comparable(rhs) {
                    Ok(Type::Boolean)
                } else {
                    Err(ValidationError::ComparingIncompatibleTypes { lhs, rhs })
                }
            },
            Expr::And(l, r) | Expr::Or(l, r) => {
                let lhs = match l.validate(identifiers, functions) {
                    Ok(ty) => ty,
                    Err(e) => {
                        return Err(e);
                    },
                };
                let rhs = match r.validate(identifiers, functions) {
                    Ok(ty) => ty,
                    Err(e) => {
                        return Err(e);
                    },
                };
                if lhs == Type::Boolean && rhs == Type::Boolean {
                    Ok(Type::Boolean)
                } else {
                    Err(ValidationError::ComparingIncompatibleTypes { lhs, rhs })
                }
            },
            Expr::Not(inner) => {
                let rhs = match inner.validate(identifiers, functions) {
                    Ok(ty) => ty,
                    Err(e) => {
                        return Err(e);
                    },
                };
                if rhs == Type::Boolean {
                    Ok(Type::Boolean)
                } else {
                    Err(ValidationError::ComparingIncompatibleTypes { lhs: Type::Boolean, rhs })
                }
            },
            Expr::In(l, items) => {
                proof {
                    lemma_models(*self);
                }
                let lhs = match l.validate(identifiers, functions) {
                    Ok(ty) => ty,
                    Err(e) => {
                        return Err(e);
                    },
                };
                let ghost views = models(items@);
                let mut i: usize = 0;
                while i < items.len()
                    invariant
                        i <= items.len(),
                        views == models(items@),
                        first_unfit_item(views, 0, lhs, identifiers@, functions@)
                            == first_unfit_item(views, i as int, lhs, identifiers@, functions@),
                    decreases items.len() - i,
                {
                    let rhs = match items[i].validate(identifiers, functions) {
                        Ok(ty) => ty,
                        Err(e) => {
                            return Err(e);
                        },
                    };
                    if !lhs.is_comparable(rhs) {
                        return Err(ValidationError::ComparingIncompatibleTypes { lhs, rhs });
                    }
                    i += 1;
                }
                Ok(Type::Boolean)
            },
            Expr::Function(name, args) => {
                proof {
                    lemma_models(*self);
                }
                let (fixed, variadic, result) = match functions.signatures.get(name.as_str()) {
                    Some(signature) => signature,
                    None => {
                        return Err(ValidationError::UndefinedFunction { name: name.clone() });
                    },
                };
                let ghost views = models(args@);
                let ghost signature = functions@[name@];
                let mut i: usize = 0;
                while i < args.len()
                    invariant
                        i <= args.len(),
                        views == models(args@),
                        signature == (Signature { fixed: fixed@, variadic: *variadic, result: *result }),
                        first_unfit_argument(views, 0, name@, signature, identifiers@, functions@)
                            == first_unfit_argument(
                            views,
                            i as int,
                            name@,
                            signature,
                            identifiers@,
                            functions@,
                        ),
                    decreases args.len() - i,
                {
                    let expected = if i < fixed.len() {
                        fixed[i]
                    } else {
                        match variadic {
                            Some(ty) => *ty,
                            None => {
                                return Err(
                                    ValidationError::IncorrectFunctionArgumentCount {
                                        name: name.clone(),
                                        expected: fixed.len(),
                                        given: args.len(),
                                    },
                                );
                            },
                        }
                    };
                    let given = match args[i].validate(identifiers, functions) {
                        Ok(ty) => ty,
                        Err(e) => {
                            return Err(e);
                        },
                    };
                    if given != expected {
                        return Err(
                            ValidationError::IncorrectFunctionArgumentType {
                                name: name.clone(),
                                position: i + 1,
                                expected,
                                given,
                            },
                        );
                    }
                    i += 1;
                }
                if args.len() < fixed.len() {
                    Err(
                        ValidationError::IncorrectFunctionArgumentCount {
                            name: name.clone(),
                            expected: fixed.len(),
                            given: args.len(),
                        },
                    )
                } else {
                    Ok(*result)
                }
            },
        }
    }
}

} // verus!
