//! Algorithms used by the evaluation rules: integer gcd, dense integer polynomials, and the
//! heuristic polynomial gcd over the integers.
pub mod gcd;
pub mod poly;
pub mod gcd_poly_zz;
pub mod rational;
