//! The `SE` model-point variant: interface only.

use crate::assumptions::AssumptionScenario;
use crate::errors::Error;
use crate::projections::structs::{MonthRow, SEModelPoint};
use vstd::prelude::*;

verus! {

impl SEModelPoint {
    /// No projection algorithm is defined for this variant; projecting
    /// it reports exactly that.
    pub fn project(&self, _assumptions: &AssumptionScenario) -> (r: Result<Vec<MonthRow>, Error>)
        ensures
            r == Err::<Vec<MonthRow>, Error>(Error::UnsupportedModelPoint),
    {
        Err(Error::UnsupportedModelPoint)
    }
}

} // verus!
