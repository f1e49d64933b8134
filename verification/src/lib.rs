//! Polynomial-based secret sharing over the secp256k1 scalar field and curve
//! group: standard-form (coefficient) polynomials evaluated by Horner's
//! method, Lagrange-form (sample) polynomials evaluated by basis
//! interpolation, a homomorphic mapping from scalar polynomials to point
//! polynomials, share issuance and secret derivation, and a hash-to-curve
//! routine for generating base points with no known discrete logarithm.

pub mod evaluation;
pub mod field;
pub mod group;
pub mod hashing;
pub mod lagrange;
pub mod ops;
pub mod sharing;
pub mod standard;
