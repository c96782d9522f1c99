//! The host's floating-point services.
//!
//! The core carries IEEE-754 binary64 values as opaque `u64` bit patterns and
//! never computes with them itself. Every operation on such a payload goes
//! through this trait, which the embedding program implements with its own
//! floating-point unit. Each executable method is pinned to an uninterpreted
//! per-implementation spec function, so within one host the operations are
//! functions of the bit patterns alone; the core is verified for every host
//! that keeps that promise, and nothing further is assumed about the values
//! the operations return.

use vstd::prelude::*;

verus! {

/// The character-sequence model used by the trait's spec members; embedding
/// programs name it when they write the (never executed) spec stubs.
pub type GhostChars = Seq<char>;

/// Floating-point operations supplied by the embedding program, acting on
/// IEEE-754 binary64 bit patterns.
pub trait FloatHost {
    /// The bit pattern for the binary64 value nearest to `i`.
    spec fn from_int_spec(i: i64) -> u64;

    /// The bit pattern of the binary64 sum of `a` and `b`.
    spec fn add_spec(a: u64, b: u64) -> u64;

    /// The bit pattern of the binary64 difference of `a` and `b`.
    spec fn sub_spec(a: u64, b: u64) -> u64;

    /// The bit pattern of the binary64 product of `a` and `b`.
    spec fn mul_spec(a: u64, b: u64) -> u64;

    /// The bit pattern of the binary64 quotient of `a` and `b`.
    spec fn div_spec(a: u64, b: u64) -> u64;

    /// The bit pattern of the binary64 remainder of `a` by `b`.
    spec fn rem_spec(a: u64, b: u64) -> u64;

    /// The bit pattern of the binary64 negation of `a`.
    spec fn neg_spec(a: u64) -> u64;

    /// The numeric comparison of `a` and `b`: `Some(-1)`, `Some(0)` or
    /// `Some(1)` when ordered, `None` when unordered (a NaN is involved).
    spec fn cmp_spec(a: u64, b: u64) -> Option<i8>;

    /// The value of `a` truncated to an `i32`, or `None` when out of range.
    spec fn to_i32_spec(a: u64) -> Option<i32>;

    /// The bit pattern denoted by a decimal literal, or `None` when the text
    /// is not a well-formed decimal number.
    spec fn parse_spec(s: GhostChars) -> Option<u64>;

    /// The decimal rendering of `a`, with at least one digit after the point.
    spec fn format_spec(a: u64) -> GhostChars;

    fn from_int(&self, i: i64) -> (r: u64)
        ensures
            r == Self::from_int_spec(i),
    ;

    fn add(&self, a: u64, b: u64) -> (r: u64)
        ensures
            r == Self::add_spec(a, b),
    ;

    fn sub(&self, a: u64, b: u64) -> (r: u64)
        ensures
            r == Self::sub_spec(a, b),
    ;

    fn mul(&self, a: u64, b: u64) -> (r: u64)
        ensures
            r == Self::mul_spec(a, b),
    ;

    fn div(&self, a: u64, b: u64) -> (r: u64)
        ensures
            r == Self::div_spec(a, b),
    ;

    fn rem(&self, a: u64, b: u64) -> (r: u64)
        ensures
            r == Self::rem_spec(a, b),
    ;

    fn neg(&self, a: u64) -> (r: u64)
        ensures
            r == Self::neg_spec(a),
    ;

    fn cmp(&self, a: u64, b: u64) -> (r: Option<i8>)
        ensures
            r == Self::cmp_spec(a, b),
    ;

    fn to_i32(&self, a: u64) -> (r: Option<i32>)
        ensures
            r == Self::to_i32_spec(a),
    ;

    fn parse(&self, s: &str) -> (r: Option<u64>)
        ensures
            r == Self::parse_spec(s@),
    ;

    fn format(&self, a: u64) -> (r: String)
        ensures
            r@ == Self::format_spec(a),
    ;
}

} // verus!
