//! A monthly cash-flow projection engine for cohorts of insurance
//! policies, with a multi-run orchestrator and a persisted result
//! bundle.  All rates and amounts are fixed-point integers in the scale
//! of [`fixed::FX_ONE`], and every computation is specified and verified
//! down to that arithmetic.

pub mod assumptions;
pub mod bundle;
pub mod codec;
pub mod errors;
pub mod fixed;
pub mod model_points;
pub mod mp_gen;
pub mod projections;
pub mod rng;
pub mod text;
