//! The filter expression tree, its parser, its type validator and its
//! canonical text form.

pub mod ast;
pub mod error;
pub mod failures;
pub mod grammar;
pub mod instant;
pub mod laws;
pub mod literal;
pub mod number;
pub mod parse;
pub mod round_trip;
pub mod round_trip_values;
pub mod temporal;
pub mod text;
pub mod to_query_string;
pub mod uuid;
pub mod validate;

pub use ast::{CompareOperator, Expr, Value};
pub use error::Error;
pub use number::Decimal;
pub use parse::parse_str;
pub use temporal::{Date, DateTime, Time};
pub use to_query_string::{to_query_string, write_query_string};
pub use uuid::Uuid;
pub use validate::{FunctionsTypeMap, IdentifiersTypeMap, Type, ValidationError};
