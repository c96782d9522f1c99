//! The immediate value representation and the error sum shared by the reader,
//! the heap, the environment and the evaluator.

use vstd::prelude::*;

verus! {

/// Identifier of an object in the heap arena.
pub type GcId = usize;

/// The inner sum of the numeric tower: a signed 64-bit integer or an IEEE-754
/// binary64 value carried as its raw bit pattern. The bit pattern is opaque to
/// the core; the host interprets it (see `crate::float::FloatHost`).
#[derive(Clone, Copy, PartialEq, Eq, Structural, Debug)]
pub enum Number {
    Int(i64),
    Float(u64),
}

/// An immediate, copyable datum: an inline scalar or a handle into the heap.
#[derive(Clone, Copy, PartialEq, Eq, Structural, Debug)]
pub enum Value {
    Number(Number),
    Boolean(bool),
    Char(u8),
    Object(GcId),
    Nil,
}

/// The discriminated error sum. Each variant carries a human-readable message.
#[derive(Debug, Clone, PartialEq, Eq)]
pub enum SchemeError {
    EvalError(String),
    TypeError(String),
    UnboundVariable(String),
    SyntaxError(String),
    ImplementationError(String),
    ArgCountError(String),
    OverflowError(String),
}

/// The kind of a `SchemeError`, without its message. Specifications pin down
/// the kind of every error; messages are free-form prose for the user.
#[derive(Clone, Copy, PartialEq, Eq, Structural, Debug)]
pub enum ErrKind {
    Eval,
    Type,
    Unbound,
    Syntax,
    Implementation,
    ArgCount,
    Overflow,
}

impl SchemeError {
    /// The kind of this error.
    pub open spec fn kind(&self) -> ErrKind {
        match self {
            SchemeError::EvalError(_) => ErrKind::Eval,
            SchemeError::TypeError(_) => ErrKind::Type,
            SchemeError::UnboundVariable(_) => ErrKind::Unbound,
            SchemeError::SyntaxError(_) => ErrKind::Syntax,
            SchemeError::ImplementationError(_) => ErrKind::Implementation,
            SchemeError::ArgCountError(_) => ErrKind::ArgCount,
            SchemeError::OverflowError(_) => ErrKind::Overflow,
        }
    }
}

/// Forgets the message of an error result, keeping the payload and the kind.
pub open spec fn res_kind(r: Result<Value, SchemeError>) -> Result<Value, ErrKind> {
    match r {
        Ok(v) => Ok(v),
        Err(e) => Err(e.kind()),
    }
}

impl Value {
    /// Scalars evaluate to themselves.
    pub open spec fn is_scalar(&self) -> bool {
        match self {
            Value::Object(_) => false,
            _ => true,
        }
    }

    /// A termination measure for walks over the heap: objects only ever point
    /// at objects with strictly smaller identifiers, so the rank of a value
    /// bounds the depth of any structure hanging off it.
    pub open spec fn rank(&self) -> int {
        match self {
            Value::Object(id) => *id + 1,
            _ => 0,
        }
    }

    /// The sole false value is `#f`; everything else, `()` and `0` included,
    /// counts as true.
    pub open spec fn is_false_spec(&self) -> bool {
        *self == Value::Boolean(false)
    }

    /// Whether this value is the distinguished false value `#f`.
    pub fn is_false(&self) -> (r: bool)
        ensures
            r == self.is_false_spec(),
    {
        matches!(self, Value::Boolean(false))
    }

    /// A short noun for this value's shape, for error messages.
    pub fn kind_name(&self) -> (r: &'static str)
        ensures
            *self matches Value::Object(_) ==> r@ == "Object"@,
    {
        match self {
            Value::Number(Number::Int(_)) => "Integer",
            Value::Number(Number::Float(_)) => "Float",
            Value::Boolean(_) => "Boolean",
            Value::Char(_) => "Char",
            Value::Object(_) => "Object",
            Value::Nil => "Nil",
        }
    }
}

} // verus!
