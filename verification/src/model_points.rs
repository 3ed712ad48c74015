//! Raw model-point records, as a cohort table supplies them, and their
//! conversion into typed model points.
//!
//! A raw record carries the `model` variant tag as text and every
//! variant-specific column as an optional field; conversion checks the
//! tag, the signs and the variant fields, and fails on the first
//! malformed record.

use crate::errors::{Error, SchemaFault};
use crate::projections::projection_mp;
use crate::projections::structs::{ASLSEModelPoint, Date, SEModelPoint, SModelPoint};
use vstd::prelude::*;

verus! {

/// One row of a model-point cohort table, before typing.
/// `policy_count` and `sum_insured` are fixed-point values in the scale
/// of [`crate::fixed::FX_ONE`].
#[derive(Clone, Debug)]
pub struct ModelPoint {
    pub model: String,
    pub id: i32,
    pub entry_age: i32,
    pub gender: String,
    pub term: i32,
    pub policy_count: i64,
    pub sum_insured: i64,
    pub duration_mth: Option<i32>,
    pub issue_date: Option<Date>,
    pub payment_freq: Option<i32>,
    pub payment_term: Option<i32>,
}

impl ModelPoint {
    /// A copy of this record that the contracts can see is equal.
    pub fn duplicate(&self) -> (r: Self)
        ensures
            r == *self,
    {
        ModelPoint {
            model: self.model.clone(),
            id: self.id,
            entry_age: self.entry_age,
            gender: self.gender.clone(),
            term: self.term,
            policy_count: self.policy_count,
            sum_insured: self.sum_insured,
            duration_mth: self.duration_mth,
            issue_date: self.issue_date,
            payment_freq: self.payment_freq,
            payment_term: self.payment_term,
        }
    }
}

/// An element-for-element copy of a raw cohort table.
pub fn dup_model_points(v: &Vec<ModelPoint>) -> (r: Vec<ModelPoint>)
    ensures
        r@ == v@,
{
    let n = v.len();
    let mut out: Vec<ModelPoint> = Vec::new();
    let mut i: usize = 0;
    while i < n
        invariant
            i <= n,
            n == v@.len(),
            out@.len() == i,
            forall|j: int| 0 <= j < i ==> out@[j] == v@[j],
        decreases n - i,
    {
        out.push(v[i].duplicate());
        i += 1;
    }
    proof {
        assert(out@ =~= v@);
    }
    out
}

/// What every synthetically generated cohort record satisfies: the `S`
/// tag, a sequential id, an entry age drawn from 20 to 59, one of the
/// two genders, a term of 10, 15 or 20 years, one policy, and a sum
/// insured between 100,000 and 1,000,000 in whole thousands.
pub open spec fn generated_point_ok(row: ModelPoint, i: int) -> bool {
    &&& row.model@ == "s_model"@
    &&& row.id == i + 1
    &&& 20 <= row.entry_age < 60
    &&& (row.gender@ == "M"@ || row.gender@ == "F"@)
    &&& (row.term == 10 || row.term == 15 || row.term == 20)
    &&& row.policy_count == crate::fixed::FX_ONE
    &&& 100_000 * (crate::fixed::FX_ONE as int) <= row.sum_insured <= 1_000_000 * (
    crate::fixed::FX_ONE as int)
    &&& row.sum_insured as int % (1000 * crate::fixed::FX_ONE as int) == 0
    &&& row.duration_mth is None
    &&& row.issue_date is None
    &&& row.payment_freq is None
    &&& row.payment_term is None
}

/// Generates a random `S`-variant cohort from a seed: entry ages 20 to
/// 59, both genders, terms of 10, 15 or 20 years, one policy each, and
/// sums insured in whole thousands between 100,000 and 1,000,000.
pub fn generate_s_model_points(mp_size: usize, seed: usize) -> (r: Vec<ModelPoint>)
    requires
        mp_size <= i32::MAX,
    ensures
        r@.len() == mp_size,
        forall|i: int| 0 <= i < mp_size ==> generated_point_ok(#[trigger] r@[i], i),
{
    let mut rng = crate::rng::rng_from_seed(seed as u64);
    let mut out: Vec<ModelPoint> = Vec::new();
    let mut i: usize = 0;
    while i < mp_size
        invariant
            i <= mp_size,
            mp_size <= i32::MAX,
            out@.len() == i,
            forall|j: int| 0 <= j < i ==> generated_point_ok(#[trigger] out@[j], j),
        decreases mp_size - i,
    {
        let entry_age = crate::rng::rand_range_u64(&mut rng, 20, 60) as i32;
        let gender_binary = crate::rng::rand_range_u64(&mut rng, 0, 2);
        let gender = if gender_binary == 0 {
            String::from_str("M")
        } else {
            String::from_str("F")
        };
        let term = (crate::rng::rand_range_u64(&mut rng, 2, 5) * 5) as i32;
        let thousands = crate::rng::rand_range_u64(&mut rng, 100, 1001);
        let sum_insured: i64 = (thousands as i64) * 1000 * crate::fixed::FX_ONE;
        proof {
            assert(sum_insured as int == (thousands as int) * (1000 * crate::fixed::FX_ONE as int))
                by (nonlinear_arith)
                requires
                    100 <= thousands <= 1000,
                    sum_insured == (thousands as i64) * 1000 * crate::fixed::FX_ONE,
                    crate::fixed::FX_ONE == 1_000_000_000,
            ;
            vstd::arithmetic::div_mod::lemma_mod_multiples_basic(
                thousands as int,
                1000 * crate::fixed::FX_ONE as int,
            );
            assert(100_000 * (crate::fixed::FX_ONE as int) <= sum_insured <= 1_000_000 * (
            crate::fixed::FX_ONE as int)) by (nonlinear_arith)
                requires
                    100 <= thousands <= 1000,
                    sum_insured as int == (thousands as int) * (1000 * crate::fixed::FX_ONE as int),
                    crate::fixed::FX_ONE == 1_000_000_000,
            ;
        }
        let row = ModelPoint {
            model: String::from_str("s_model"),
            id: (i + 1) as i32,
            entry_age,
            gender,
            term,
            policy_count: crate::fixed::FX_ONE,
            sum_insured,
            duration_mth: None,
            issue_date: None,
            payment_freq: None,
            payment_term: None,
        };
        out.push(row);
        i += 1;
    }
    out
}

pub open spec fn is_s_tag(m: Seq<char>) -> bool {
    m == "s_model"@
}

pub open spec fn is_se_tag(m: Seq<char>) -> bool {
    m == "se_model"@
}

pub open spec fn is_aslse_tag(m: Seq<char>) -> bool {
    m == "asl_se_model"@
}

/// The first schema fault of one raw record, if any, in the order the
/// conversion checks them: the tag, the signs, the timeline bound, the
/// variant-specific fields.
pub open spec fn row_fault(row: ModelPoint) -> Option<Error> {
    if !is_s_tag(row.model@) && !is_se_tag(row.model@) && !is_aslse_tag(row.model@) {
        Some(Error::Schema(SchemaFault::UnknownModelTag))
    } else if row.entry_age < 0 {
        Some(Error::Schema(SchemaFault::NegativeEntryAge))
    } else if row.term < 0 {
        Some(Error::Schema(SchemaFault::NegativeTerm))
    } else if row.policy_count < 0 {
        Some(Error::Schema(SchemaFault::NegativePolicyCount))
    } else if row.sum_insured < 0 {
        Some(Error::Schema(SchemaFault::NegativeSumInsured))
    } else if 12 * row.term + 1 > usize::MAX {
        Some(Error::Schema(SchemaFault::TermTooLong))
    } else if is_se_tag(row.model@) && row.duration_mth is None {
        Some(Error::Schema(SchemaFault::MissingVariantField))
    } else if is_aslse_tag(row.model@) && (row.duration_mth is None || row.issue_date is None
        || row.payment_freq is None || row.payment_term is None) {
        Some(Error::Schema(SchemaFault::MissingVariantField))
    } else {
        None
    }
}

/// The typed model point a fault-free raw record converts to.
pub open spec fn converted_row(row: ModelPoint) -> projection_mp::ModelPoint {
    if is_s_tag(row.model@) {
        projection_mp::ModelPoint::SModel(
            SModelPoint {
                model: row.model,
                id: row.id,
                entry_age: row.entry_age,
                gender: row.gender,
                term: row.term,
                policy_count: row.policy_count,
                sum_insured: row.sum_insured,
            },
        )
    } else if is_se_tag(row.model@) {
        projection_mp::ModelPoint::SEModel(
            SEModelPoint {
                model: row.model,
                id: row.id,
                entry_age: row.entry_age,
                gender: row.gender,
                term: row.term,
                policy_count: row.policy_count,
                sum_insured: row.sum_insured,
                duration_mth: row.duration_mth->0,
            },
        )
    } else {
        projection_mp::ModelPoint::ASLSEModel(
            ASLSEModelPoint {
                model: row.model,
                id: row.id,
                entry_age: row.entry_age,
                gender: row.gender,
                term: row.term,
                policy_count: row.policy_count,
                sum_insured: row.sum_insured,
                duration_mth: row.duration_mth->0,
                issue_date: row.issue_date->0,
                payment_freq: row.payment_freq->0,
                payment_term: row.payment_term->0,
            },
        )
    }
}

/// The first schema fault of a whole table, if any.
pub open spec fn rows_fault(rows: Seq<ModelPoint>) -> Option<Error>
    decreases rows.len(),
{
    if rows.len() == 0 {
        None
    } else if row_fault(rows[0]) is Some {
        row_fault(rows[0])
    } else {
        rows_fault(rows.drop_first())
    }
}

/// A fault-free table has fault-free rows.
pub proof fn lemma_rows_fault_none(rows: Seq<ModelPoint>, i: int)
    requires
        rows_fault(rows) is None,
        0 <= i < rows.len(),
    ensures
        row_fault(rows[i]) is None,
    decreases rows.len(),
{
    if i > 0 {
        lemma_rows_fault_none(rows.drop_first(), i - 1);
    }
}

/// Converts a raw cohort table into typed model points, failing on the
/// first record whose tag, signs or variant fields are malformed.
pub fn convert_model_points_df_to_vector(df: &Vec<ModelPoint>) -> (r: Result<
    Vec<projection_mp::ModelPoint>,
    Error,
>)
    ensures
        r is Ok <==> rows_fault(df@) is None,
        r matches Err(e) ==> Some(e) == rows_fault(df@),
        r matches Ok(v) ==> {
            &&& v@.len() == df@.len()
            &&& forall|i: int| 0 <= i < df@.len() ==> v@[i] == converted_row(df@[i])
        },
{
    let s_tag = String::from_str("s_model");
    let se_tag = String::from_str("se_model");
    let aslse_tag = String::from_str("asl_se_model");
    let n = df.len();
    let mut out: Vec<projection_mp::ModelPoint> = Vec::new();
    let mut i: usize = 0;
    proof {
        assert(df@.skip(0) =~= df@);
    }
    while i < n
        invariant
            i <= n,
            n == df@.len(),
            s_tag@ == "s_model"@,
            se_tag@ == "se_model"@,
            aslse_tag@ == "asl_se_model"@,
            out@.len() == i,
            rows_fault(df@) == rows_fault(df@.skip(i as int)),
            forall|j: int| 0 <= j < i ==> out@[j] == converted_row(df@[j]),
        decreases n - i,
    {
        proof {
            reveal_strlit("s_model");
            reveal_strlit("se_model");
            reveal_strlit("asl_se_model");
            assert("s_model"@.len() == 7);
            assert("se_model"@.len() == 8);
            assert("asl_se_model"@.len() == 12);
            assert(df@.skip(i as int)[0] == df@[i as int]);
            assert(df@.skip(i as int).drop_first() =~= df@.skip(i as int + 1));
        }
        let row = &df[i];
        let s = row.model == s_tag;
        let se = row.model == se_tag;
        let aslse = row.model == aslse_tag;
        if !s && !se && !aslse {
            return Err(Error::Schema(SchemaFault::UnknownModelTag));
        }
        if row.entry_age < 0 {
            return Err(Error::Schema(SchemaFault::NegativeEntryAge));
        }
        if row.term < 0 {
            return Err(Error::Schema(SchemaFault::NegativeTerm));
        }
        if row.policy_count < 0 {
            return Err(Error::Schema(SchemaFault::NegativePolicyCount));
        }
        if row.sum_insured < 0 {
            return Err(Error::Schema(SchemaFault::NegativeSumInsured));
        }
        if !(12 * (row.term as u64) + 1 <= usize::MAX as u64) {
            return Err(Error::Schema(SchemaFault::TermTooLong));
        }
        if s {
            out.push(
                projection_mp::ModelPoint::SModel(
                    SModelPoint {
                        model: row.model.clone(),
                        id: row.id,
                        entry_age: row.entry_age,
                        gender: row.gender.clone(),
                        term: row.term,
                        policy_count: row.policy_count,
                        sum_insured: row.sum_insured,
                    },
                ),
            );
        } else if se {
            let duration_mth = match row.duration_mth {
                Some(v) => v,
                None => {
                    return Err(Error::Schema(SchemaFault::MissingVariantField));
                },
            };
            out.push(
                projection_mp::ModelPoint::SEModel(
                    SEModelPoint {
                        model: row.model.clone(),
                        id: row.id,
                        entry_age: row.entry_age,
                        gender: row.gender.clone(),
                        term: row.term,
                        policy_count: row.policy_count,
                        sum_insured: row.sum_insured,
                        duration_mth,
                    },
                ),
            );
        } else {
            let duration_mth = match row.duration_mth {
                Some(v) => v,
                None => {
                    return Err(Error::Schema(SchemaFault::MissingVariantField));
                },
            };
            let issue_date = match row.issue_date {
                Some(v) => v,
                None => {
                    return Err(Error::Schema(SchemaFault::MissingVariantField));
                },
            };
            let payment_freq = match row.payment_freq {
                Some(v) => v,
                None => {
                    return Err(Error::Schema(SchemaFault::MissingVariantField));
                },
            };
            let payment_term = match row.payment_term {
                Some(v) => v,
                None => {
                    return Err(Error::Schema(SchemaFault::MissingVariantField));
                },
            };
            out.push(
                projection_mp::ModelPoint::ASLSEModel(
                    ASLSEModelPoint {
                        model: row.model.clone(),
                        id: row.id,
                        entry_age: row.entry_age,
                        gender: row.gender.clone(),
                        term: row.term,
                        policy_count: row.policy_count,
                        sum_insured: row.sum_insured,
                        duration_mth,
                        issue_date,
                        payment_freq,
                        payment_term,
                    },
                ),
            );
        }
        proof {
            assert(row_fault(df@[i as int]) is None);
        }
        i += 1;
    }
    proof {
        assert(df@.skip(n as int).len() == 0);
    }
    Ok(out)
}

} // verus!
