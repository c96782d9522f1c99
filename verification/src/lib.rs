//! A small Scheme-family interpreter core: a reader that turns bytes into
//! source values, an arena heap that interns symbols and allocates composite
//! objects addressed by integer identifiers, a lexically scoped environment of
//! symbol-to-value bindings, and an evaluator with a primitive library.
//!
//! Floating-point payloads are carried as opaque IEEE-754 bit patterns; the
//! operations on them are supplied by the host through the [`float::FloatHost`]
//! trait, so the interpreter core itself is independent of the host's
//! floating-point unit.

pub mod types;
pub mod float;
pub mod heap;
pub mod env;
pub mod numbers;
pub mod interp;
pub mod parser;
pub mod text;
pub mod display;
pub mod laws;
