//! Arithmetic and comparison on the two-variant numeric sum.
//!
//! Mixed-mode operations promote the integer operand to binary64 through the
//! host (`FloatHost`); division always promotes. Integer results that do not
//! fit a signed 64-bit integer yield an overflow error, and an integer
//! remainder by zero is an evaluation error: no operation here panics.

use vstd::prelude::*;

use crate::float::FloatHost;
use crate::types::{ErrKind, Number, SchemeError};

verus! {

/// Forgets the message of an error result, keeping the payload and the kind.
pub open spec fn kind_res<T>(r: Result<T, SchemeError>) -> Result<T, ErrKind> {
    match r {
        Ok(v) => Ok(v),
        Err(e) => Err(e.kind()),
    }
}

/// The bit pattern a number contributes to a mixed-mode operation.
pub open spec fn spec_num_bits<F: FloatHost>(a: Number) -> u64 {
    match a {
        Number::Int(x) => F::from_int_spec(x),
        Number::Float(p) => p,
    }
}

/// The sum; integer overflow is an error.
pub open spec fn spec_num_add<F: FloatHost>(a: Number, b: Number) -> Result<Number, ErrKind> {
    match (a, b) {
        (Number::Int(x), Number::Int(y)) => if x + y > i64::MAX || x + y < i64::MIN {
            Err(ErrKind::Overflow)
        } else {
            Ok(Number::Int((x + y) as i64))
        },
        _ => Ok(Number::Float(F::add_spec(spec_num_bits::<F>(a), spec_num_bits::<F>(b)))),
    }
}

/// The difference; integer overflow is an error.
pub open spec fn spec_num_sub<F: FloatHost>(a: Number, b: Number) -> Result<Number, ErrKind> {
    match (a, b) {
        (Number::Int(x), Number::Int(y)) => if x - y > i64::MAX || x - y < i64::MIN {
            Err(ErrKind::Overflow)
        } else {
            Ok(Number::Int((x - y) as i64))
        },
        _ => Ok(Number::Float(F::sub_spec(spec_num_bits::<F>(a), spec_num_bits::<F>(b)))),
    }
}

/// The product; integer overflow is an error.
pub open spec fn spec_num_mul<F: FloatHost>(a: Number, b: Number) -> Result<Number, ErrKind> {
    match (a, b) {
        (Number::Int(x), Number::Int(y)) => if x * y > i64::MAX || x * y < i64::MIN {
            Err(ErrKind::Overflow)
        } else {
            Ok(Number::Int((x * y) as i64))
        },
        _ => Ok(Number::Float(F::mul_spec(spec_num_bits::<F>(a), spec_num_bits::<F>(b)))),
    }
}

/// The quotient: both operands promote, even two integers.
pub open spec fn spec_num_div<F: FloatHost>(a: Number, b: Number) -> Number {
    Number::Float(F::div_spec(spec_num_bits::<F>(a), spec_num_bits::<F>(b)))
}

/// The remainder; integer remainder by zero is an error, the remainder of
/// the smallest integer by -1 is 0 (mathematically exact, though the
/// machine's division would trap on it), and mixed modes promote.
pub open spec fn spec_num_rem<F: FloatHost>(a: Number, b: Number) -> Result<Number, ErrKind> {
    match (a, b) {
        (Number::Int(x), Number::Int(y)) => if y == 0 {
            Err(ErrKind::Eval)
        } else if x == i64::MIN && y == -1 {
            Ok(Number::Int(0))
        } else {
            match x.checked_rem(y) {
                Some(z) => Ok(Number::Int(z)),
                None => Err(ErrKind::Eval),
            }
        },
        _ => Ok(Number::Float(F::rem_spec(spec_num_bits::<F>(a), spec_num_bits::<F>(b)))),
    }
}

/// The negation; negating the smallest integer is an overflow error.
pub open spec fn spec_num_neg<F: FloatHost>(a: Number) -> Result<Number, ErrKind> {
    match a {
        Number::Int(x) => if x == i64::MIN {
            Err(ErrKind::Overflow)
        } else {
            Ok(Number::Int((-x) as i64))
        },
        Number::Float(p) => Ok(Number::Float(F::neg_spec(p))),
    }
}

/// The numeric comparison: `Some(-1)`, `Some(0)`, `Some(1)`, or `None` when
/// unordered; mixed modes promote the integer operand.
pub open spec fn spec_num_cmp<F: FloatHost>(a: Number, b: Number) -> Option<i8> {
    match (a, b) {
        (Number::Int(x), Number::Int(y)) => if x < y {
            Some(-1i8)
        } else if x == y {
            Some(0i8)
        } else {
            Some(1i8)
        },
        _ => F::cmp_spec(spec_num_bits::<F>(a), spec_num_bits::<F>(b)),
    }
}

/// The bit pattern a number contributes to a mixed-mode operation.
pub fn num_bits<F: FloatHost>(fops: &F, a: Number) -> (r: u64)
    ensures
        r == spec_num_bits::<F>(a),
{
    match a {
        Number::Int(x) => fops.from_int(x),
        Number::Float(p) => p,
    }
}

/// Adds two numbers.
pub fn num_add<F: FloatHost>(fops: &F, a: Number, b: Number) -> (r: Result<Number, SchemeError>)
    ensures
        kind_res(r) == spec_num_add::<F>(a, b),
{
    match (a, b) {
        (Number::Int(x), Number::Int(y)) => match x.checked_add(y) {
            Some(z) => Ok(Number::Int(z)),
            None => Err(
                SchemeError::OverflowError(String::from_str("integer addition overflows")),
            ),
        },
        _ => Ok(Number::Float(fops.add(num_bits(fops, a), num_bits(fops, b)))),
    }
}

/// Subtracts `b` from `a`.
pub fn num_sub<F: FloatHost>(fops: &F, a: Number, b: Number) -> (r: Result<Number, SchemeError>)
    ensures
        kind_res(r) == spec_num_sub::<F>(a, b),
{
    match (a, b) {
        (Number::Int(x), Number::Int(y)) => match x.checked_sub(y) {
            Some(z) => Ok(Number::Int(z)),
            None => Err(
                SchemeError::OverflowError(String::from_str("integer subtraction overflows")),
            ),
        },
        _ => Ok(Number::Float(fops.sub(num_bits(fops, a), num_bits(fops, b)))),
    }
}

/// Multiplies two numbers.
pub fn num_mul<F: FloatHost>(fops: &F, a: Number, b: Number) -> (r: Result<Number, SchemeError>)
    ensures
        kind_res(r) == spec_num_mul::<F>(a, b),
{
    match (a, b) {
        (Number::Int(x), Number::Int(y)) => match x.checked_mul(y) {
            Some(z) => Ok(Number::Int(z)),
            None => Err(
                SchemeError::OverflowError(String::from_str("integer multiplication overflows")),
            ),
        },
        _ => Ok(Number::Float(fops.mul(num_bits(fops, a), num_bits(fops, b)))),
    }
}

/// Divides `a` by `b`; the result is always a float.
pub fn num_div<F: FloatHost>(fops: &F, a: Number, b: Number) -> (r: Number)
    ensures
        r == spec_num_div::<F>(a, b),
{
    Number::Float(fops.div(num_bits(fops, a), num_bits(fops, b)))
}

/// The remainder of `a` by `b`; integer when both operands are integers.
pub fn num_rem<F: FloatHost>(fops: &F, a: Number, b: Number) -> (r: Result<Number, SchemeError>)
    ensures
        kind_res(r) == spec_num_rem::<F>(a, b),
{
    match (a, b) {
        (Number::Int(x), Number::Int(y)) => if y == 0 {
            Err(SchemeError::EvalError(String::from_str("integer remainder by zero")))
        } else if x == i64::MIN && y == -1 {
            Ok(Number::Int(0))
        } else {
            match x.checked_rem(y) {
                Some(z) => Ok(Number::Int(z)),
                None => Err(
                    SchemeError::EvalError(String::from_str("integer remainder by zero")),
                ),
            }
        },
        _ => Ok(Number::Float(fops.rem(num_bits(fops, a), num_bits(fops, b)))),
    }
}

/// Negates a number.
pub fn num_neg<F: FloatHost>(fops: &F, a: Number) -> (r: Result<Number, SchemeError>)
    ensures
        kind_res(r) == spec_num_neg::<F>(a),
{
    match a {
        Number::Int(x) => if x == i64::MIN {
            Err(SchemeError::OverflowError(String::from_str("integer negation overflows")))
        } else {
            Ok(Number::Int(-x))
        },
        Number::Float(p) => Ok(Number::Float(fops.neg(p))),
    }
}

/// Compares two numbers; `None` when unordered.
pub fn num_cmp<F: FloatHost>(fops: &F, a: Number, b: Number) -> (r: Option<i8>)
    ensures
        r == spec_num_cmp::<F>(a, b),
{
    match (a, b) {
        (Number::Int(x), Number::Int(y)) => if x < y {
            Some(-1)
        } else if x == y {
            Some(0)
        } else {
            Some(1)
        },
        _ => fops.cmp(num_bits(fops, a), num_bits(fops, b)),
    }
}

} // verus!
