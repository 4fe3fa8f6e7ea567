//! Numerical definite-integral estimation over exact rational arithmetic.
//!
//! The crate offers composite trapezoidal and Simpson rules (fixed and
//! doubling-adaptive), Romberg extrapolation on top of the trapezoidal
//! refinements, and Gauss-Legendre quadrature for caller-supplied node sets.
//! All arithmetic is exact: every estimate is a rational number, and every
//! public routine carries a contract that pins the returned value down to the
//! weighted sum it stands for. Computations whose exact value no longer fits
//! the machine representation report that instead of rounding.

pub mod gauss;
pub mod integrand;
pub mod laws;
pub mod outcome;
pub mod rational;
pub mod romberg;
pub mod simpson;
pub mod sums;
pub mod trapezoid;
