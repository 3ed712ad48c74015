//! The polymorphic model point: one tagged union over the three cohort
//! variants, with projection dispatched by tag.

use crate::assumptions::AssumptionScenario;
use crate::errors::Error;
use crate::projections::s::{project_s_mp, s_project_err, s_project_ok, s_timeline};
use crate::projections::structs::{ASLSEModelPoint, MonthRow, SEModelPoint, SModelPoint};
use vstd::prelude::*;

verus! {

/// A model point of any variant.
#[derive(Clone, Debug)]
pub enum ModelPoint {
    SModel(SModelPoint),
    SEModel(SEModelPoint),
    ASLSEModel(ASLSEModelPoint),
}

impl ModelPoint {
    /// Projects this model point under a scenario.  The `S` variant runs
    /// the full pipeline; the stubbed variants report that they carry no
    /// projection algorithm.
    pub fn project(&self, assumptions: &AssumptionScenario) -> (r: Result<Vec<MonthRow>, Error>)
        requires
            self matches ModelPoint::SModel(mp) ==> {
                &&& 0 <= mp.term
                &&& 0 <= mp.policy_count
                &&& 0 <= mp.sum_insured
                &&& 12 * (mp.term as int) + 1 <= usize::MAX
            },
        ensures
            self matches ModelPoint::SModel(mp) ==> {
                &&& (r is Ok <==> s_project_ok(*mp, *assumptions))
                &&& (r matches Ok(rows) ==> rows@ == s_timeline(*mp, *assumptions))
                &&& (r matches Err(e) ==> e == s_project_err(*mp, *assumptions))
            },
            !(self is SModel) ==> r == Err::<Vec<MonthRow>, Error>(Error::UnsupportedModelPoint),
    {
        match self {
            ModelPoint::SModel(mp) => project_s_mp(mp, assumptions),
            ModelPoint::SEModel(mp) => mp.project(assumptions),
            ModelPoint::ASLSEModel(mp) => mp.project(assumptions),
        }
    }
}

} // verus!
