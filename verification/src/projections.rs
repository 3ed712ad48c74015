//! The projection engine: per-model-point timelines, the single-run
//! engine that fans a cohort out in chunks, and the multi-run
//! orchestrator with its persistence bundle.

pub mod asl_se_model;
pub mod projection_mp;
pub mod projection_multi_runs;
pub mod projection_single_run;
pub mod s;
pub mod se_model;
pub mod structs;
