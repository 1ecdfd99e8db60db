//! Arithmetic in prime fields and the group law of short Weierstrass curves
//! `y² = x³ + a·x + b` over them.
//!
//! - `finite_field` and `finite_fields` hold the elements of ℤ/pℤ, with a
//!   modulus of 32 and of 64 bits, their operators and the field laws.
//! - `elliptic_curve` holds the points of a curve over any type with the
//!   field operators, their sum and their multiples.
//! - `prime_field_curve` shows that over ℤ/pℤ the sum is always defined and
//!   stays on the curve.
//! - `number_theory` and `curve_algebra` hold the arithmetic that the laws
//!   rest on: Fermat's little theorem, and the roots of the cubic in which a
//!   line meets the curve.

pub mod curve_algebra;
pub mod elliptic_curve;
pub mod finite_field;
pub mod finite_fields;
pub mod number_theory;
pub mod prime_field_curve;
