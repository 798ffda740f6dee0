//! Parsing, type validation and canonical rendering of OData v4 `$filter`
//! expressions.

pub mod filters;
