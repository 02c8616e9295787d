//! The tagged scalar union carried by records and statement parameters.

use vstd::prelude::*;

verus! {

/// A database value: the SQL null (`Nil`) or a typed scalar.
///
/// The surrounding tool casts richer driver-specific value types to and from
/// this union before they reach the engine; the engine itself only moves
/// values between records and statement parameter lists.
#[derive(Debug, PartialEq, Eq)]
pub enum Value {
    Nil,
    Bool(bool),
    Int(i64),
    Text(String),
}

impl Value {
    /// True exactly on the SQL null value.
    pub fn is_nil(&self) -> (r: bool)
        ensures
            r == (self is Nil),
    {
        match self {
            Value::Nil => true,
            _ => false,
        }
    }

    /// An equal copy of the value.
    pub fn clone_value(&self) -> (r: Value)
        ensures
            r == *self,
    {
        match self {
            Value::Nil => Value::Nil,
            Value::Bool(b) => Value::Bool(*b),
            Value::Int(i) => Value::Int(*i),
            Value::Text(s) => Value::Text(s.clone()),
        }
    }
}

} // verus!
