//! The `ASLSE` model-point variant: interface only.

use crate::assumptions::AssumptionScenario;
use crate::errors::Error;
use crate::projections::structs::{ASLSEModelPoint, MonthRow};
use vstd::prelude::*;

verus! {

impl ASLSEModelPoint {
    /// No projection algorithm is defined for this variant; projecting
    /// it reports exactly that.
    pub fn project(&self, _assumptions: &AssumptionScenario) -> (r: Result<Vec<MonthRow>, Error>)
        ensures
            r == Err::<Vec<MonthRow>, Error>(Error::UnsupportedModelPoint),
    {
        Err(Error::UnsupportedModelPoint)
    }
}

} // verus!
