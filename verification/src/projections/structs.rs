//! Typed model-point records and the monthly timeline row.
//!
//! A model point describes one cohort of identical policies.  The `S`
//! variant is fully projectable; the `SE` and `ASLSE` variants carry
//! their fields as an interface but have no projection algorithm.
//! Monetary fields (`policy_count`, `sum_insured`) are fixed-point
//! values in the scale of [`crate::fixed::FX_ONE`].

use vstd::prelude::*;

verus! {

/// A calendar date held as plain values.
#[derive(Clone, Copy, PartialEq, Eq, Structural, Debug)]
pub struct Date {
    pub year: i32,
    pub month: u8,
    pub day: u8,
}

/// The simple single-premium-pattern cohort variant.
#[derive(Clone, Debug)]
pub struct SModelPoint {
    pub model: String,
    pub id: i32,
    pub entry_age: i32,
    pub gender: String,
    pub term: i32,
    pub policy_count: i64,
    pub sum_insured: i64,
}

/// A cohort part-way through its term.  Interface only: no projection
/// algorithm is defined for it.
#[derive(Clone, Debug)]
pub struct SEModelPoint {
    pub model: String,
    pub id: i32,
    pub entry_age: i32,
    pub gender: String,
    pub term: i32,
    pub policy_count: i64,
    pub sum_insured: i64,
    pub duration_mth: i32,
}

/// A cohort with an issue date and premium payment pattern.  Interface
/// only: no projection algorithm is defined for it.
#[derive(Clone, Debug)]
pub struct ASLSEModelPoint {
    pub model: String,
    pub id: i32,
    pub entry_age: i32,
    pub gender: String,
    pub term: i32,
    pub policy_count: i64,
    pub sum_insured: i64,
    pub duration_mth: i32,
    pub issue_date: Date,
    pub payment_freq: i32,
    pub payment_term: i32,
}

/// One row of a projected monthly timeline.  All rates, factors and
/// amounts are fixed-point; `t`, `duration` and `age` are plain counts.
#[derive(Clone, Copy, PartialEq, Eq, Structural, Debug)]
pub struct MonthRow {
    pub id: i64,
    pub term: i64,
    pub sum_insured: i64,
    pub claim_pp: i64,
    pub t: i64,
    pub duration: i64,
    pub age: i64,
    pub mort_rate: i64,
    pub lapse_rate: i64,
    pub inf_rate: i64,
    pub real_acq_exp_pp: i64,
    pub real_mtn_exp_pp: i64,
    pub spot_rate: i64,
    pub load_rate: i64,
    pub spot_rate_mth: i64,
    pub discount_factor: i64,
    pub inf_factor: i64,
    pub real_exp_pp: i64,
    pub exp_pp: i64,
    pub mort_rate_mth: i64,
    pub lapse_rate_mth: i64,
    pub pols_if: i64,
    pub pols_maturity: i64,
    pub pols_death: i64,
    pub pols_lapse: i64,
    pub prem_pp: i64,
    pub premiums: i64,
    pub claims: i64,
    pub expenses: i64,
    pub commissions: i64,
    pub net_cf: i64,
}

impl MonthRow {
    /// The all-zero row that timeline construction starts from.
    pub fn zeroed() -> (r: MonthRow)
        ensures
            r == MonthRow::zeroed_v(),
    {
        MonthRow {
            id: 0,
            term: 0,
            sum_insured: 0,
            claim_pp: 0,
            t: 0,
            duration: 0,
            age: 0,
            mort_rate: 0,
            lapse_rate: 0,
            inf_rate: 0,
            real_acq_exp_pp: 0,
            real_mtn_exp_pp: 0,
            spot_rate: 0,
            load_rate: 0,
            spot_rate_mth: 0,
            discount_factor: 0,
            inf_factor: 0,
            real_exp_pp: 0,
            exp_pp: 0,
            mort_rate_mth: 0,
            lapse_rate_mth: 0,
            pols_if: 0,
            pols_maturity: 0,
            pols_death: 0,
            pols_lapse: 0,
            prem_pp: 0,
            premiums: 0,
            claims: 0,
            expenses: 0,
            commissions: 0,
            net_cf: 0,
        }
    }

    /// Specification-level form of [`MonthRow::zeroed`].
    pub open spec fn zeroed_v() -> MonthRow {
        MonthRow {
            id: 0,
            term: 0,
            sum_insured: 0,
            claim_pp: 0,
            t: 0,
            duration: 0,
            age: 0,
            mort_rate: 0,
            lapse_rate: 0,
            inf_rate: 0,
            real_acq_exp_pp: 0,
            real_mtn_exp_pp: 0,
            spot_rate: 0,
            load_rate: 0,
            spot_rate_mth: 0,
            discount_factor: 0,
            inf_factor: 0,
            real_exp_pp: 0,
            exp_pp: 0,
            mort_rate_mth: 0,
            lapse_rate_mth: 0,
            pols_if: 0,
            pols_maturity: 0,
            pols_death: 0,
            pols_lapse: 0,
            prem_pp: 0,
            premiums: 0,
            claims: 0,
            expenses: 0,
            commissions: 0,
            net_cf: 0,
        }
    }
}

} // verus!
