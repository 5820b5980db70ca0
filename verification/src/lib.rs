//! Exact integer arithmetic behind the measures of the n-dimensional sphere.
//!
//! The volume and the surface of a sphere of radius `r` in `n` dimensions are
//! products of a power of two, a power of `π / 2`, a power of `r` and the
//! reciprocal of a double factorial; only the surface of a point is zero.
//! This crate computes the exponents and the double factorial, and proves
//! that they describe the classical formulas.

pub mod factorial;
pub mod measure;

pub use crate::factorial::double_fact;
pub use crate::factorial::DOUBLE_FACT_LIMIT;
pub use crate::measure::sphere_surface_terms;
pub use crate::measure::sphere_volume_terms;
pub use crate::measure::MeasureError;
pub use crate::measure::MeasureTerms;
