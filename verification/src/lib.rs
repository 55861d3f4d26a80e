//! Evaluation core for a small expression language: a flattened,
//! alternating sequence of operand constants and binary operators is
//! collapsed tier by tier, in a fixed precedence and associativity order,
//! into a single scalar.
//!
//! Numeric values are opaque 64-bit scalars. The numeric meaning of each
//! operator is supplied by the caller as a function from an operator and
//! two scalars to a scalar; the engine proves exactly in which order it
//! combines operands, whatever that function computes.

pub mod error;
pub mod evaler;
pub mod evalns;
pub mod grammar;
pub mod reduce;
