//! The deterministic pricing cohort: every combination of entry age 20
//! to 59, term 10, 15 or 20, and gender, one policy of 1,000 each.

use crate::fixed::FX_ONE;
use crate::model_points::ModelPoint;
use vstd::prelude::*;

verus! {

/// Generates the full pricing cohort: the 240 combinations of 40 entry
/// ages, 3 terms and 2 genders, enumerated age-major, term-middle,
/// gender-minor, with ids 1 upward.
pub fn generate_s_model_points() -> (r: Vec<ModelPoint>)
    ensures
        r@.len() == 240,
        forall|i: int|
            0 <= i < 240 ==> {
                let row = #[trigger] r@[i];
                &&& row.model@ == "s_model"@
                &&& row.id == i + 1
                &&& row.entry_age == 20 + i / 6
                &&& row.term == (if (i / 2) % 3 == 0 {
                    10int
                } else if (i / 2) % 3 == 1 {
                    15int
                } else {
                    20int
                })
                &&& row.gender@ == (if i % 2 == 0 {
                    "M"@
                } else {
                    "F"@
                })
                &&& row.policy_count == FX_ONE
                &&& row.sum_insured == 1000 * (FX_ONE as int)
                &&& row.duration_mth is None
                &&& row.issue_date is None
                &&& row.payment_freq is None
                &&& row.payment_term is None
            },
{
    let mut out: Vec<ModelPoint> = Vec::new();
    let mut i: usize = 0;
    while i < 240
        invariant
            i <= 240,
            out@.len() == i,
            forall|j: int|
                0 <= j < i ==> {
                    let row = #[trigger] out@[j];
                    &&& row.model@ == "s_model"@
                    &&& row.id == j + 1
                    &&& row.entry_age == 20 + j / 6
                    &&& row.term == (if (j / 2) % 3 == 0 {
                        10int
                    } else if (j / 2) % 3 == 1 {
                        15int
                    } else {
                        20int
                    })
                    &&& row.gender@ == (if j % 2 == 0 {
                        "M"@
                    } else {
                        "F"@
                    })
                    &&& row.policy_count == FX_ONE
                    &&& row.sum_insured == 1000 * (FX_ONE as int)
                    &&& row.duration_mth is None
                    &&& row.issue_date is None
                    &&& row.payment_freq is None
                    &&& row.payment_term is None
                },
        decreases 240 - i,
    {
        let entry_age = (20 + i / 6) as i32;
        let term_idx = (i / 2) % 3;
        let term: i32 = if term_idx == 0 {
            10
        } else if term_idx == 1 {
            15
        } else {
            20
        };
        let gender = if i % 2 == 0 {
            String::from_str("M")
        } else {
            String::from_str("F")
        };
        let row = ModelPoint {
            model: String::from_str("s_model"),
            id: (i + 1) as i32,
            entry_age,
            gender,
            term,
            policy_count: FX_ONE,
            sum_insured: 1000 * FX_ONE,
            duration_mth: None,
            issue_date: None,
            payment_freq: None,
            payment_term: None,
        };
        out.push(row);
        i += 1;
    }
    out
}

} // verus!
