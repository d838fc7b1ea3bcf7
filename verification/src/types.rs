//! Structural target types for conversion requests.
//!
//! A `Type` is never inferred; it only ever appears as the target of a
//! runtime conversion (bindings, assignments, function parameters and
//! returns).  Record and variant types map field names to types; the fields
//! are kept as an ordered list and names are expected to be unique within
//! one type.

use vstd::prelude::*;

verus! {

#[derive(Debug)]
pub enum Type {
    Str,
    Int,
    Bool,
    Unit,
    Float,
    List(Box<Type>),
    Mapping(Box<Type>, Box<Type>),
    Tuple(Vec<Type>),
    Variant(Vec<(String, Type)>),
    Record(Vec<(String, Type)>),
}

} // verus!
