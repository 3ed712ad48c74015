//! The seeded random `S`-variant cohort generator.

use crate::model_points::{generated_point_ok, ModelPoint};
use vstd::prelude::*;

verus! {

/// Generates a random `S`-variant cohort from a seed; see
/// [`crate::model_points::generate_s_model_points`] for the ranges every
/// generated record satisfies.
pub fn generate_s_model_points(mp_size: usize, seed: usize) -> (r: Vec<ModelPoint>)
    requires
        mp_size <= i32::MAX,
    ensures
        r@.len() == mp_size,
        forall|i: int| 0 <= i < mp_size ==> generated_point_ok(#[trigger] r@[i], i),
{
    crate::model_points::generate_s_model_points(mp_size, seed)
}

} // verus!
