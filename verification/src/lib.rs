//! Symbolic normal ordering of second-quantization operator products via
//! Wick's theorem.
//!
//! The crate models indices, creation/annihilation operators, Kronecker
//! deltas, terms (a coefficient, an operator string and a delta collection)
//! and sums of terms, and provides two verified engines: the full vacuum
//! contraction (a signed sum of delta products) and the general expansion
//! into normal-ordered plus partial-contraction terms.

pub mod attr;
pub mod coeff;
pub mod expr;
pub mod index;
pub mod op;
pub mod result_expr;
pub mod wick;
pub mod text;
