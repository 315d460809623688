//! The tagged runtime value of the Woflang machine.

use vstd::prelude::*;
use crate::error::WofError;

verus! {

/// How many fixed-point units make one whole number in a [`Value::Double`].
///
/// Non-integer numbers are kept as a count of billionths, so `2.5` is the
/// count `2_500_000_000`. This keeps all numeric state in plain integers.
pub const DOUBLE_SCALE: i128 = 1_000_000_000;

/// Mathematical model of a [`Value`]: the same four variants over
/// unbounded integers and character sequences.
pub enum AbstractValue {
    Int(int),
    Dbl(int),
    Str(Seq<char>),
    Sym(Seq<char>),
}

/// A tagged runtime datum: integer, fixed-point double, string or symbol.
pub enum Value {
    /// A whole number.
    Integer(i64),
    /// A non-integer number, as a count of billionths (see [`DOUBLE_SCALE`]).
    Double(i128),
    /// Owned text.
    Str(String),
    /// An uninterpreted name.
    Symbol(String),
}

impl View for Value {
    type V = AbstractValue;

    open spec fn view(&self) -> AbstractValue {
        match self {
            Value::Integer(i) => AbstractValue::Int(*i as int),
            Value::Double(n) => AbstractValue::Dbl(*n as int),
            Value::Str(s) => AbstractValue::Str(s@),
            Value::Symbol(s) => AbstractValue::Sym(s@),
        }
    }
}

/// Truthiness of a value: a number is true when nonzero, text when nonempty.
pub open spec fn spec_truthy(v: AbstractValue) -> bool {
    match v {
        AbstractValue::Int(i) => i != 0,
        AbstractValue::Dbl(n) => n != 0,
        AbstractValue::Str(s) => s.len() > 0,
        AbstractValue::Sym(s) => s.len() > 0,
    }
}

impl Value {
    /// Whether the value counts as true in a conditional: numbers are true
    /// when nonzero, strings and symbols when nonempty.
    pub fn is_truthy(&self) -> (r: bool)
        ensures
            r == spec_truthy(self@),
    {
        match self {
            Value::Integer(i) => *i != 0,
            Value::Double(n) => *n != 0,
            Value::Str(s) => !s.as_str().is_empty(),
            Value::Symbol(s) => !s.as_str().is_empty(),
        }
    }

    /// The integer behind an [`Value::Integer`]; any other variant is a
    /// type mismatch.
    pub fn as_integer(&self) -> (r: Result<i64, WofError>)
        ensures
            match r {
                Ok(i) => self@ == AbstractValue::Int(i as int),
                Err(e) => e == WofError::TypeMismatch && !(self@ is Int),
            },
    {
        match self {
            Value::Integer(i) => Ok(*i),
            _ => Err(WofError::TypeMismatch),
        }
    }

    /// The fixed-point count behind a [`Value::Double`]; any other variant
    /// is a type mismatch.
    pub fn as_double(&self) -> (r: Result<i128, WofError>)
        ensures
            match r {
                Ok(n) => self@ == AbstractValue::Dbl(n as int),
                Err(e) => e == WofError::TypeMismatch && !(self@ is Dbl),
            },
    {
        match self {
            Value::Double(n) => Ok(*n),
            _ => Err(WofError::TypeMismatch),
        }
    }

    /// The text behind a string or a symbol; a number is a type mismatch.
    pub fn as_str(&self) -> (r: Result<&str, WofError>)
        ensures
            match r {
                Ok(s) => self@ == AbstractValue::Str(s@) || self@ == AbstractValue::Sym(s@),
                Err(e) => e == WofError::TypeMismatch && !(self@ is Str) && !(self@ is Sym),
            },
    {
        match self {
            Value::Str(s) => Ok(s.as_str()),
            Value::Symbol(s) => Ok(s.as_str()),
            _ => Err(WofError::TypeMismatch),
        }
    }
}

impl Clone for Value {
    /// A clone carries the same abstract value.
    fn clone(&self) -> (r: Self)
        ensures
            r@ == self@,
    {
        match self {
            Value::Integer(i) => Value::Integer(*i),
            Value::Double(n) => Value::Double(*n),
            Value::Str(s) => Value::Str(s.clone()),
            Value::Symbol(s) => Value::Symbol(s.clone()),
        }
    }
}

} // verus!
