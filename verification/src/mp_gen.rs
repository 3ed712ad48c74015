//! Synthetic model-point cohorts for pricing and testing.

pub mod pricing_mp_gen;
pub mod s_mp_gen;
