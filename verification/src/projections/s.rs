//! Projection pipeline for the `S` model-point variant.
//!
//! The pipeline mirrors a linear state machine: a fresh monthly timeline
//! is enriched with assumption rates, discount and inflation factors,
//! the sequential decrement roll-forward, the equivalence net-premium
//! solve, and finally the portfolio cash flows.  Any lookup or range
//! fault aborts the whole model point's projection with an error value.
//!
//! Every stage is proved equal to a specification-level function of its
//! inputs, so a projection is a mathematical function of the model point
//! and the scenario.

use crate::assumptions::{
    mort_rate_for, mort_rate_lookup, rate_for, rate_lookup, AssumptionScenario, MortalityRow,
    RateRow,
};
use crate::errors::{AssumptionKind, Error};
use crate::fixed::{
    fx_cbrt_v, fx_div, fx_div_v, fx_mul, fx_mul_checked, fx_mul_v, fx_pow, fx_pow_fits, fx_pow_v,
    fx_root12, fx_root12_v, fx_sqrt_v, FX_ONE,
};
use crate::projections::structs::{MonthRow, SModelPoint};
use vstd::prelude::*;

verus! {

/// Which mortality rate column a gender string selects: `Some(true)` for
/// the male column, `Some(false)` for the female column, `None` when no
/// column matches (only a single letter m/M/f/F matches one).
pub open spec fn gender_column(g: Seq<char>) -> Option<bool> {
    if g.len() == 1 && (g[0] == 'M' || g[0] == 'm') {
        Some(true)
    } else if g.len() == 1 && (g[0] == 'F' || g[0] == 'f') {
        Some(false)
    } else {
        None
    }
}

/// Executable form of [`gender_column`].
pub fn gender_column_of(gender: &str) -> (r: Option<bool>)
    ensures
        r == gender_column(gender@),
{
    let n = gender.unicode_len();
    if n != 1 {
        return None;
    }
    let c = gender.get_char(0);
    if c == 'M' || c == 'm' {
        Some(true)
    } else if c == 'F' || c == 'f' {
        Some(false)
    } else {
        None
    }
}

/// The freshly initialized timeline row for month `i`: identity columns,
/// the claim per policy (the sum insured), elapsed months, completed
/// policy years, and attained age; all later columns still zero.
pub open spec fn init_row(id: int, term: int, entry_age: int, sum_insured: int, i: int) -> MonthRow {
    MonthRow {
        id: id as i64,
        term: term as i64,
        sum_insured: sum_insured as i64,
        claim_pp: sum_insured as i64,
        t: i as i64,
        duration: (i / 12) as i64,
        age: (entry_age + i / 12) as i64,
        ..MonthRow::zeroed_v()
    }
}

/// Builds the monthly timeline for one model point: months 0 through
/// `term * 12` inclusive, one row each.
pub fn _initialize_lf(id: i32, term: i32, entry_age: i32, sum_insured: i64) -> (r: Vec<MonthRow>)
    requires
        0 <= term,
        0 <= sum_insured,
        12 * (term as int) + 1 <= usize::MAX,
    ensures
        r@.len() == 12 * (term as int) + 1,
        forall|i: int|
            0 <= i < r@.len() ==> r@[i] == init_row(
                id as int,
                term as int,
                entry_age as int,
                sum_insured as int,
                i,
            ),
{
    let length: usize = (12 * (term as i64) + 1) as usize;
    let mut rows: Vec<MonthRow> = Vec::new();
    let mut i: usize = 0;
    while i < length
        invariant
            i <= length,
            length == 12 * (term as int) + 1,
            0 <= term,
            0 <= sum_insured,
            rows@.len() == i,
            forall|j: int|
                0 <= j < i ==> rows@[j] == init_row(
                    id as int,
                    term as int,
                    entry_age as int,
                    sum_insured as int,
                    j,
                ),
        decreases length - i,
    {
        let duration: usize = i / 12;
        let mut row = MonthRow::zeroed();
        row.id = id as i64;
        row.term = term as i64;
        row.sum_insured = sum_insured;
        row.claim_pp = sum_insured;
        row.t = i as i64;
        row.duration = duration as i64;
        row.age = entry_age as i64 + duration as i64;
        rows.push(row);
        i += 1;
    }
    rows
}

/// A row with its mortality rate looked up by attained age in the
/// gender-selected column.
pub open spec fn mort_applied(row: MonthRow, mort: Seq<MortalityRow>, male: bool) -> MonthRow {
    MonthRow { mort_rate: mort_rate_lookup(mort, row.age as int, male) as i64, ..row }
}

/// Maps the mortality assumption onto every row by a left-outer lookup
/// on attained age, choosing the rate column that matches the model
/// point's gender; an unmatched age keeps rate zero.  A gender that
/// selects no column is a hard error for the whole model point.
pub fn __map_mort_assumption(lf: Vec<MonthRow>, mort_df: &Vec<MortalityRow>, gender: &str) -> (r:
    Result<Vec<MonthRow>, Error>)
    ensures
        r is Ok <==> gender_column(gender@) is Some,
        r matches Err(e) ==> e == Error::MortalityColumnNotFound,
        r matches Ok(out) ==> {
            &&& out@.len() == lf@.len()
            &&& forall|i: int|
                0 <= i < lf@.len() ==> out@[i] == mort_applied(
                    lf@[i],
                    mort_df@,
                    gender_column(gender@) == Some(true),
                )
        },
{
    let male = match gender_column_of(gender) {
        Some(m) => m,
        None => {
            return Err(Error::MortalityColumnNotFound);
        },
    };
    let ghost male_col = (gender_column(gender@) == Some(true));
    let n = lf.len();
    let mut out: Vec<MonthRow> = Vec::new();
    let mut i: usize = 0;
    while i < n
        invariant
            i <= n,
            n == lf@.len(),
            male == male_col,
            out@.len() == i,
            forall|j: int| 0 <= j < i ==> out@[j] == mort_applied(lf@[j], mort_df@, male_col),
        decreases n - i,
    {
        let mut row = lf[i];
        row.mort_rate = mort_rate_for(mort_df, row.age, male);
        out.push(row);
        i += 1;
    }
    Ok(out)
}

/// A row with the rate of one year-keyed assumption table written into
/// the column that table feeds.
pub open spec fn rate_applied(row: MonthRow, kind: AssumptionKind, v: int) -> MonthRow {
    match kind {
        AssumptionKind::Mortality => MonthRow { mort_rate: v as i64, ..row },
        AssumptionKind::Lapse => MonthRow { lapse_rate: v as i64, ..row },
        AssumptionKind::Inflation => MonthRow { inf_rate: v as i64, ..row },
        AssumptionKind::AcquisitionExpense => MonthRow { real_acq_exp_pp: v as i64, ..row },
        AssumptionKind::MaintenanceExpense => MonthRow { real_mtn_exp_pp: v as i64, ..row },
        AssumptionKind::SpotRate => MonthRow { spot_rate: v as i64, ..row },
        AssumptionKind::LoadRate => MonthRow { load_rate: v as i64, ..row },
    }
}

/// Maps one year-keyed assumption onto every row by a left-outer lookup
/// on completed policy years; an unmatched duration keeps rate zero.
pub fn __map_other_assumption(lf: Vec<MonthRow>, lookup_df: &Vec<RateRow>, kind: AssumptionKind)
    -> (r: Vec<MonthRow>)
    ensures
        r@.len() == lf@.len(),
        forall|i: int|
            0 <= i < lf@.len() ==> r@[i] == rate_applied(
                lf@[i],
                kind,
                rate_lookup(lookup_df@, lf@[i].duration as int),
            ),
{
    let n = lf.len();
    let mut out: Vec<MonthRow> = Vec::new();
    let mut i: usize = 0;
    while i < n
        invariant
            i <= n,
            n == lf@.len(),
            out@.len() == i,
            forall|j: int|
                0 <= j < i ==> out@[j] == rate_applied(
                    lf@[j],
                    kind,
                    rate_lookup(lookup_df@, lf@[j].duration as int),
                ),
        decreases n - i,
    {
        let mut row = lf[i];
        let v = rate_for(lookup_df, row.duration);
        match kind {
            AssumptionKind::Mortality => {
                row.mort_rate = v;
            },
            AssumptionKind::Lapse => {
                row.lapse_rate = v;
            },
            AssumptionKind::Inflation => {
                row.inf_rate = v;
            },
            AssumptionKind::AcquisitionExpense => {
                row.real_acq_exp_pp = v;
            },
            AssumptionKind::MaintenanceExpense => {
                row.real_mtn_exp_pp = v;
            },
            AssumptionKind::SpotRate => {
                row.spot_rate = v;
            },
            AssumptionKind::LoadRate => {
                row.load_rate = v;
            },
        }
        out.push(row);
        i += 1;
    }
    out
}

/// A row with all seven assumption rates mapped on: mortality by age and
/// gender, the six year-keyed rates by completed policy years.
pub open spec fn assumptions_applied(row: MonthRow, scen: AssumptionScenario, male: bool)
    -> MonthRow {
    MonthRow {
        mort_rate: mort_rate_lookup(scen.mort@, row.age as int, male) as i64,
        lapse_rate: rate_lookup(scen.lapse@, row.duration as int) as i64,
        real_acq_exp_pp: rate_lookup(scen.acq@, row.duration as int) as i64,
        real_mtn_exp_pp: rate_lookup(scen.mtn@, row.duration as int) as i64,
        inf_rate: rate_lookup(scen.inf@, row.duration as int) as i64,
        spot_rate: rate_lookup(scen.spot@, row.duration as int) as i64,
        load_rate: rate_lookup(scen.load@, row.duration as int) as i64,
        ..row
    }
}

/// Enriches every timeline row with the scenario's seven rates.
pub fn _map_assumptions(lf: Vec<MonthRow>, assumptions: &AssumptionScenario, gender: &str) -> (r:
    Result<Vec<MonthRow>, Error>)
    ensures
        r is Ok <==> gender_column(gender@) is Some,
        r matches Err(e) ==> e == Error::MortalityColumnNotFound,
        r matches Ok(out) ==> {
            &&& out@.len() == lf@.len()
            &&& forall|i: int|
                0 <= i < lf@.len() ==> out@[i] == assumptions_applied(
                    lf@[i],
                    *assumptions,
                    gender_column(gender@) == Some(true),
                )
        },
{
    let lf = match __map_mort_assumption(lf, &assumptions.mort, gender) {
        Ok(lf) => lf,
        Err(e) => {
            return Err(e);
        },
    };
    let lf = __map_other_assumption(lf, &assumptions.lapse, AssumptionKind::Lapse);
    let lf = __map_other_assumption(lf, &assumptions.acq, AssumptionKind::AcquisitionExpense);
    let lf = __map_other_assumption(lf, &assumptions.mtn, AssumptionKind::MaintenanceExpense);
    let lf = __map_other_assumption(lf, &assumptions.inf, AssumptionKind::Inflation);
    let lf = __map_other_assumption(lf, &assumptions.spot, AssumptionKind::SpotRate);
    let lf = __map_other_assumption(lf, &assumptions.load, AssumptionKind::LoadRate);
    Ok(lf)
}

/// Admissible range for a spot rate: above -100%, and small enough that
/// 1.0 plus the rate still fits the fixed-point range.
pub open spec fn spot_rate_ok(v: int) -> bool {
    -(FX_ONE as int) < v <= i64::MAX - FX_ONE
}

/// Monthly-equivalent spot rate: `(1 + spot)^(1/12) - 1`.
pub open spec fn spot_mth_of(s: int) -> int {
    fx_root12_v(FX_ONE + s) - FX_ONE
}

/// One month's present-value multiplier: `1 / (1 + spot_mth)`.
pub open spec fn recip_of(s: int) -> int {
    fx_div_v(FX_ONE as int, fx_root12_v(FX_ONE + s))
}

/// Discount factor at elapsed month `t`: `(1 / (1 + spot_mth))^t`.
pub open spec fn discount_of(s: int, t: nat) -> int {
    fx_pow_v(recip_of(s), t)
}

/// A row with its monthly spot rate and discount factor written in.
pub open spec fn discounted(row: MonthRow, i: nat) -> MonthRow {
    MonthRow {
        spot_rate_mth: spot_mth_of(row.spot_rate as int) as i64,
        discount_factor: discount_of(row.spot_rate as int, i) as i64,
        ..row
    }
}

pub open spec fn spots_ok(rows: Seq<MonthRow>) -> bool {
    forall|i: int| 0 <= i < rows.len() ==> spot_rate_ok(#[trigger] rows[i].spot_rate as int)
}

pub open spec fn discount_fits(rows: Seq<MonthRow>) -> bool {
    forall|i: int|
        0 <= i < rows.len() ==> fx_pow_fits(recip_of(#[trigger] rows[i].spot_rate as int), i as nat)
}

/// A twelfth root of a value at least one billionth is at least one
/// billionth, so it can serve as a divisor.
pub proof fn lemma_fx_root12_pos(x: int)
    requires
        1 <= x,
    ensures
        1 <= fx_root12_v(x),
{
    let s = FX_ONE as int;
    lemma_root_pos_cube(x);
    lemma_root_pos_square(fx_cbrt_v(x));
    lemma_root_pos_square(fx_sqrt_v(fx_cbrt_v(x)));
}

proof fn lemma_root_pos_square(x: int)
    requires
        1 <= x,
    ensures
        1 <= fx_sqrt_v(x),
{
    let s = FX_ONE as int;
    let p = x * s;
    assert(s <= p) by (nonlinear_arith)
        requires
            1 <= x,
            s == 1_000_000_000,
            p == x * s,
    ;
    crate::fixed::lemma_floor_root_exists(p, 2);
    let r = crate::fixed::floor_root(p, 2);
    assert(crate::fixed::is_floor_root(r, p, 2)) by {
        assert(exists|q: int| crate::fixed::is_floor_root(q, p, 2));
    }
    vstd::arithmetic::power::lemma1_pow(2);
    crate::fixed::lemma_floor_root_lower(r, p, 1, 2);
}

proof fn lemma_root_pos_cube(x: int)
    requires
        1 <= x,
    ensures
        1 <= fx_cbrt_v(x),
{
    let s = FX_ONE as int;
    let p = x * s * s;
    assert(s * s <= p) by (nonlinear_arith)
        requires
            1 <= x,
            s == 1_000_000_000,
            p == x * s * s,
    ;
    crate::fixed::lemma_floor_root_exists(p, 3);
    let r = crate::fixed::floor_root(p, 3);
    assert(crate::fixed::is_floor_root(r, p, 3)) by {
        assert(exists|q: int| crate::fixed::is_floor_root(q, p, 3));
    }
    vstd::arithmetic::power::lemma1_pow(3);
    crate::fixed::lemma_floor_root_lower(r, p, 1, 3);
}

/// Writes the monthly spot rate and the row-wise discount factor:
/// `spot_rate_mth = (1 + spot)^(1/12) - 1` and
/// `discount_factor = (1 / (1 + spot_rate_mth))^t`.  A spot rate at or
/// below -100% is rejected; an overflowing factor is rejected.
pub fn _discount_factor(lf: Vec<MonthRow>) -> (r: Result<Vec<MonthRow>, Error>)
    ensures
        r is Ok <==> spots_ok(lf@) && discount_fits(lf@),
        r matches Err(e) ==> e == (if !spots_ok(lf@) {
            Error::RateOutOfRange
        } else {
            Error::Overflow
        }),
        r matches Ok(out) ==> {
            &&& out@.len() == lf@.len()
            &&& forall|i: int| 0 <= i < lf@.len() ==> out@[i] == discounted(lf@[i], i as nat)
        },
{
    let n = lf.len();
    let mut i: usize = 0;
    while i < n
        invariant
            i <= n,
            n == lf@.len(),
            forall|j: int| 0 <= j < i ==> spot_rate_ok(#[trigger] lf@[j].spot_rate as int),
        decreases n - i,
    {
        let v = lf[i].spot_rate;
        if !(v > -FX_ONE && v <= i64::MAX - FX_ONE) {
            return Err(Error::RateOutOfRange);
        }
        i += 1;
    }
    let mut out: Vec<MonthRow> = Vec::new();
    let mut i: usize = 0;
    while i < n
        invariant
            i <= n,
            n == lf@.len(),
            spots_ok(lf@),
            out@.len() == i,
            forall|j: int| 0 <= j < i ==> out@[j] == discounted(lf@[j], j as nat),
            forall|j: int|
                0 <= j < i ==> fx_pow_fits(recip_of(#[trigger] lf@[j].spot_rate as int), j as nat),
        decreases n - i,
    {
        let mut row = lf[i];
        let r12 = fx_root12(FX_ONE + row.spot_rate);
        proof {
            lemma_fx_root12_pos(FX_ONE + row.spot_rate as int);
            vstd::arithmetic::div_mod::lemma_div_nonincreasing(
                (FX_ONE as int) * (FX_ONE as int),
                r12 as int,
            );
        }
        row.spot_rate_mth = r12 - FX_ONE;
        let recip = fx_div(FX_ONE, r12);
        match fx_pow(recip, i) {
            Some(df) => {
                row.discount_factor = df;
            },
            None => {
                return Err(Error::Overflow);
            },
        }
        out.push(row);
        i += 1;
    }
    Ok(out)
}

/// Admissible range for an inflation or loading rate: at least -100%,
/// and small enough that 1.0 plus the rate fits the fixed-point range.
pub open spec fn growth_rate_ok(v: int) -> bool {
    -(FX_ONE as int) <= v <= i64::MAX - FX_ONE
}

/// Monthly inflation base: `(1 + inf)^(1/12)`.
pub open spec fn inf_base_of(v: int) -> int {
    fx_root12_v(FX_ONE + v)
}

/// Inflation factor at elapsed month `t`: `(1 + inf)^(t/12)`, carried
/// monthly as the twelfth root compounded `t` times.
pub open spec fn inf_factor_of(v: int, t: nat) -> int {
    fx_pow_v(inf_base_of(v), t)
}

/// A row with its inflation factor written in.
pub open spec fn inflated(row: MonthRow, i: nat) -> MonthRow {
    MonthRow { inf_factor: inf_factor_of(row.inf_rate as int, i) as i64, ..row }
}

pub open spec fn inf_rates_ok(rows: Seq<MonthRow>) -> bool {
    forall|i: int| 0 <= i < rows.len() ==> growth_rate_ok(#[trigger] rows[i].inf_rate as int)
}

pub open spec fn inf_fits(rows: Seq<MonthRow>) -> bool {
    forall|i: int|
        0 <= i < rows.len() ==> fx_pow_fits(inf_base_of(#[trigger] rows[i].inf_rate as int), i as nat)
}

/// Writes the row-wise inflation factor under the flat-curve assumption:
/// `inf_factor = (1 + inf_rate)^(t/12)`.
pub fn _inflation_factor(lf: Vec<MonthRow>) -> (r: Result<Vec<MonthRow>, Error>)
    ensures
        r is Ok <==> inf_rates_ok(lf@) && inf_fits(lf@),
        r matches Err(e) ==> e == (if !inf_rates_ok(lf@) {
            Error::RateOutOfRange
        } else {
            Error::Overflow
        }),
        r matches Ok(out) ==> {
            &&& out@.len() == lf@.len()
            &&& forall|i: int| 0 <= i < lf@.len() ==> out@[i] == inflated(lf@[i], i as nat)
        },
{
    let n = lf.len();
    let mut i: usize = 0;
    while i < n
        invariant
            i <= n,
            n == lf@.len(),
            forall|j: int| 0 <= j < i ==> growth_rate_ok(#[trigger] lf@[j].inf_rate as int),
        decreases n - i,
    {
        let v = lf[i].inf_rate;
        if !(v >= -FX_ONE && v <= i64::MAX - FX_ONE) {
            return Err(Error::RateOutOfRange);
        }
        i += 1;
    }
    let mut out: Vec<MonthRow> = Vec::new();
    let mut i: usize = 0;
    while i < n
        invariant
            i <= n,
            n == lf@.len(),
            inf_rates_ok(lf@),
            out@.len() == i,
            forall|j: int| 0 <= j < i ==> out@[j] == inflated(lf@[j], j as nat),
            forall|j: int|
                0 <= j < i ==> fx_pow_fits(inf_base_of(#[trigger] lf@[j].inf_rate as int), j as nat),
        decreases n - i,
    {
        let mut row = lf[i];
        let base = fx_root12(FX_ONE + row.inf_rate);
        match fx_pow(base, i) {
            Some(f) => {
                row.inf_factor = f;
            },
            None => {
                return Err(Error::Overflow);
            },
        }
        out.push(row);
        i += 1;
    }
    Ok(out)
}

/// Validity of the expense inputs of one row: non-negative real expenses
/// and an admissible inflation rate.
pub open spec fn exp_input_ok_row(row: MonthRow) -> bool {
    &&& growth_rate_ok(row.inf_rate as int)
    &&& row.real_acq_exp_pp >= 0
    &&& row.real_mtn_exp_pp >= 0
}

pub open spec fn exp_inputs_ok(rows: Seq<MonthRow>) -> bool {
    forall|i: int| 0 <= i < rows.len() ==> exp_input_ok_row(#[trigger] rows[i])
}

/// Whether the expense arithmetic of row `i` stays within the
/// fixed-point range.
pub open spec fn exp_fits_at(row: MonthRow, i: nat) -> bool {
    &&& row.real_acq_exp_pp + row.real_mtn_exp_pp <= i64::MAX
    &&& fx_pow_fits(inf_base_of(row.inf_rate as int), i)
    &&& fx_mul_v(row.real_acq_exp_pp + row.real_mtn_exp_pp, inf_factor_of(row.inf_rate as int, i))
        <= i64::MAX
}

pub open spec fn exp_fits(rows: Seq<MonthRow>) -> bool {
    forall|i: int| 0 <= i < rows.len() ==> exp_fits_at(#[trigger] rows[i], i as nat)
}

/// A row with its total real expense, inflation factor and inflated
/// expense per policy written in.
pub open spec fn expensed(row: MonthRow, i: nat) -> MonthRow {
    MonthRow {
        real_exp_pp: (row.real_acq_exp_pp + row.real_mtn_exp_pp) as i64,
        inf_factor: inf_factor_of(row.inf_rate as int, i) as i64,
        exp_pp: fx_mul_v(
            row.real_acq_exp_pp + row.real_mtn_exp_pp,
            inf_factor_of(row.inf_rate as int, i),
        ) as i64,
        ..row
    }
}

/// Writes the expense columns: the total real expense per policy, the
/// inflation factor, and the inflation-adjusted expense per policy.
pub fn _exp_pp(lf: Vec<MonthRow>) -> (r: Result<Vec<MonthRow>, Error>)
    ensures
        r is Ok <==> exp_inputs_ok(lf@) && exp_fits(lf@),
        r matches Err(e) ==> e == (if !exp_inputs_ok(lf@) {
            Error::RateOutOfRange
        } else {
            Error::Overflow
        }),
        r matches Ok(out) ==> {
            &&& out@.len() == lf@.len()
            &&& forall|i: int| 0 <= i < lf@.len() ==> out@[i] == expensed(lf@[i], i as nat)
        },
{
    let n = lf.len();
    let mut i: usize = 0;
    while i < n
        invariant
            i <= n,
            n == lf@.len(),
            forall|j: int| 0 <= j < i ==> exp_input_ok_row(#[trigger] lf@[j]),
        decreases n - i,
    {
        let row = lf[i];
        if !(row.inf_rate >= -FX_ONE && row.inf_rate <= i64::MAX - FX_ONE) {
            return Err(Error::RateOutOfRange);
        }
        if row.real_acq_exp_pp < 0 || row.real_mtn_exp_pp < 0 {
            return Err(Error::RateOutOfRange);
        }
        i += 1;
    }
    let mut out: Vec<MonthRow> = Vec::new();
    let mut i: usize = 0;
    while i < n
        invariant
            i <= n,
            n == lf@.len(),
            exp_inputs_ok(lf@),
            out@.len() == i,
            forall|j: int| 0 <= j < i ==> out@[j] == expensed(lf@[j], j as nat),
            forall|j: int| 0 <= j < i ==> exp_fits_at(#[trigger] lf@[j], j as nat),
        decreases n - i,
    {
        let mut row = lf[i];
        let real_sum = match row.real_acq_exp_pp.checked_add(row.real_mtn_exp_pp) {
            Some(v) => v,
            None => {
                return Err(Error::Overflow);
            },
        };
        let base = fx_root12(FX_ONE + row.inf_rate);
        let factor = match fx_pow(base, i) {
            Some(f) => f,
            None => {
                return Err(Error::Overflow);
            },
        };
        let expp = match fx_mul_checked(real_sum, factor) {
            Some(v) => v,
            None => {
                return Err(Error::Overflow);
            },
        };
        row.real_exp_pp = real_sum;
        row.inf_factor = factor;
        row.exp_pp = expp;
        out.push(row);
        i += 1;
    }
    Ok(out)
}

/// Monthly-equivalent decrement rate by the standard compound
/// conversion: `1 - (1 - annual)^(1/12)`.
pub open spec fn mth_of(annual: int) -> int {
    FX_ONE - fx_root12_v(FX_ONE - annual)
}

/// Validity of one row's decrement inputs: annual mortality and lapse
/// rates within [0, 1].
pub open spec fn dec_rates_ok_row(row: MonthRow) -> bool {
    &&& 0 <= row.mort_rate <= FX_ONE
    &&& 0 <= row.lapse_rate <= FX_ONE
}

pub open spec fn dec_rates_ok(rows: Seq<MonthRow>) -> bool {
    forall|i: int| 0 <= i < rows.len() ==> dec_rates_ok_row(#[trigger] rows[i])
}

/// Expected in-force count at month `i`: the previous month's in-force
/// less the previous month's decrements, starting from the policy count.
pub open spec fn m_pols_if(rows: Seq<MonthRow>, pc: int, term: int, i: nat) -> int
    decreases i, 0int,
{
    if i == 0 {
        pc
    } else {
        m_pols_if(rows, pc, term, (i - 1) as nat) - m_pols_maturity(rows, pc, term, (i - 1) as nat)
            - m_pols_death(rows, pc, term, (i - 1) as nat) - m_pols_lapse(
            rows,
            pc,
            term,
            (i - 1) as nat,
        )
    }
}

/// Maturities at month `i`: the whole in-force at the final month of the
/// term, zero before.  Maturity is resolved before death and lapse.
pub open spec fn m_pols_maturity(rows: Seq<MonthRow>, pc: int, term: int, i: nat) -> int
    decreases i, 1int,
{
    if i == 12 * term {
        m_pols_if(rows, pc, term, i)
    } else {
        0
    }
}

/// Deaths at month `i`: the in-force net of maturities, times the
/// monthly mortality rate.
pub open spec fn m_pols_death(rows: Seq<MonthRow>, pc: int, term: int, i: nat) -> int
    decreases i, 2int,
{
    fx_mul_v(
        m_pols_if(rows, pc, term, i) - m_pols_maturity(rows, pc, term, i),
        mth_of(rows[i as int].mort_rate as int),
    )
}

/// Lapses at month `i`: the in-force net of maturities and deaths,
/// times the monthly lapse rate.
pub open spec fn m_pols_lapse(rows: Seq<MonthRow>, pc: int, term: int, i: nat) -> int
    decreases i, 3int,
{
    fx_mul_v(
        m_pols_if(rows, pc, term, i) - m_pols_maturity(rows, pc, term, i) - m_pols_death(
            rows,
            pc,
            term,
            i,
        ),
        mth_of(rows[i as int].lapse_rate as int),
    )
}

/// A monthly decrement rate lies in [0, 1] whenever the annual rate does.
pub proof fn lemma_mth_of_unit(annual: int)
    requires
        0 <= annual <= FX_ONE,
    ensures
        0 <= mth_of(annual) <= FX_ONE,
{
    crate::fixed::lemma_fx_root12_unit(FX_ONE - annual);
}

/// The decrement chain consumes monotonically: every quantity is
/// non-negative and each decrement is bounded by what is left to
/// consume, so the in-force count stays within [0, policy count].
pub proof fn lemma_movement_bounds(rows: Seq<MonthRow>, pc: int, term: int, i: nat)
    requires
        0 <= pc,
        dec_rates_ok(rows),
        i < rows.len(),
    ensures
        0 <= m_pols_if(rows, pc, term, i) <= pc,
        0 <= m_pols_maturity(rows, pc, term, i) <= m_pols_if(rows, pc, term, i),
        0 <= m_pols_death(rows, pc, term, i) <= m_pols_if(rows, pc, term, i) - m_pols_maturity(
            rows,
            pc,
            term,
            i,
        ),
        0 <= m_pols_lapse(rows, pc, term, i) <= m_pols_if(rows, pc, term, i) - m_pols_maturity(
            rows,
            pc,
            term,
            i,
        ) - m_pols_death(rows, pc, term, i),
    decreases i,
{
    if i > 0 {
        lemma_movement_bounds(rows, pc, term, (i - 1) as nat);
    }
    let pif = m_pols_if(rows, pc, term, i);
    let mat = m_pols_maturity(rows, pc, term, i);
    assert(dec_rates_ok_row(rows[i as int]));
    lemma_mth_of_unit(rows[i as int].mort_rate as int);
    lemma_mth_of_unit(rows[i as int].lapse_rate as int);
    crate::fixed::lemma_fx_mul_nonneg(pif - mat, mth_of(rows[i as int].mort_rate as int));
    crate::fixed::lemma_fx_mul_le_left(pif - mat, mth_of(rows[i as int].mort_rate as int));
    let death = m_pols_death(rows, pc, term, i);
    crate::fixed::lemma_fx_mul_nonneg(pif - mat - death, mth_of(rows[i as int].lapse_rate as int));
    crate::fixed::lemma_fx_mul_le_left(pif - mat - death, mth_of(rows[i as int].lapse_rate as int));
}

/// The in-force count never rises from one month to the next.
pub proof fn lemma_pols_if_nonincreasing(rows: Seq<MonthRow>, pc: int, term: int, i: nat)
    requires
        0 <= pc,
        dec_rates_ok(rows),
        i + 1 < rows.len(),
    ensures
        0 <= m_pols_if(rows, pc, term, (i + 1) as nat) <= m_pols_if(rows, pc, term, i),
{
    lemma_movement_bounds(rows, pc, term, i);
    lemma_movement_bounds(rows, pc, term, (i + 1) as nat);
}

/// A row with its monthly decrement rates and decrement counts written in.
pub open spec fn moved(rows: Seq<MonthRow>, pc: int, term: int, i: nat) -> MonthRow {
    MonthRow {
        mort_rate_mth: mth_of(rows[i as int].mort_rate as int) as i64,
        lapse_rate_mth: mth_of(rows[i as int].lapse_rate as int) as i64,
        pols_if: m_pols_if(rows, pc, term, i) as i64,
        pols_maturity: m_pols_maturity(rows, pc, term, i) as i64,
        pols_death: m_pols_death(rows, pc, term, i) as i64,
        pols_lapse: m_pols_lapse(rows, pc, term, i) as i64,
        ..rows[i as int]
    }
}

/// Runs the sequential decrement roll-forward: converts annual decrement
/// rates to monthly equivalents, then walks the months in order, taking
/// maturity before death and death before lapse.  Annual rates outside
/// [0, 1] are rejected before any row is computed.
pub fn _policies_movement(lf: Vec<MonthRow>, policy_count: i64, term: i32) -> (r: Result<
    Vec<MonthRow>,
    Error,
>)
    requires
        0 <= policy_count,
        0 <= term,
    ensures
        r is Ok <==> dec_rates_ok(lf@),
        r matches Err(e) ==> e == Error::RateOutOfRange,
        r matches Ok(out) ==> {
            &&& out@.len() == lf@.len()
            &&& forall|i: int|
                0 <= i < lf@.len() ==> out@[i] == moved(lf@, policy_count as int, term as int, i as nat)
        },
{
    let n = lf.len();
    let mut i: usize = 0;
    while i < n
        invariant
            i <= n,
            n == lf@.len(),
            forall|j: int| 0 <= j < i ==> dec_rates_ok_row(#[trigger] lf@[j]),
        decreases n - i,
    {
        let row = lf[i];
        if !(0 <= row.mort_rate && row.mort_rate <= FX_ONE && 0 <= row.lapse_rate
            && row.lapse_rate <= FX_ONE) {
            return Err(Error::RateOutOfRange);
        }
        i += 1;
    }
    let ghost pc = policy_count as int;
    let ghost tm = term as int;
    let mut out: Vec<MonthRow> = Vec::new();
    let mut prev_if: i64 = 0;
    let mut prev_mat: i64 = 0;
    let mut prev_death: i64 = 0;
    let mut prev_lapse: i64 = 0;
    let mut i: usize = 0;
    while i < n
        invariant
            i <= n,
            n == lf@.len(),
            dec_rates_ok(lf@),
            0 <= policy_count,
            0 <= term,
            pc == policy_count as int,
            tm == term as int,
            out@.len() == i,
            forall|j: int| 0 <= j < i ==> out@[j] == moved(lf@, pc, tm, j as nat),
            i > 0 ==> prev_if == m_pols_if(lf@, pc, tm, (i - 1) as nat),
            i > 0 ==> prev_mat == m_pols_maturity(lf@, pc, tm, (i - 1) as nat),
            i > 0 ==> prev_death == m_pols_death(lf@, pc, tm, (i - 1) as nat),
            i > 0 ==> prev_lapse == m_pols_lapse(lf@, pc, tm, (i - 1) as nat),
        decreases n - i,
    {
        proof {
            lemma_movement_bounds(lf@, pc, tm, i as nat);
            if i > 0 {
                lemma_movement_bounds(lf@, pc, tm, (i - 1) as nat);
            }
        }
        let cur_if: i64 = if i == 0 {
            policy_count
        } else {
            prev_if - prev_mat - prev_death - prev_lapse
        };
        proof {
            assert(cur_if == m_pols_if(lf@, pc, tm, i as nat));
        }
        let at_term: bool = (i as u64) == 12 * (term as u64);
        let cur_mat: i64 = if at_term {
            cur_if
        } else {
            0
        };
        let mut row = lf[i];
        proof {
            assert(dec_rates_ok_row(lf@[i as int]));
            lemma_mth_of_unit(row.mort_rate as int);
            lemma_mth_of_unit(row.lapse_rate as int);
            crate::fixed::lemma_fx_mul_le_left(
                cur_if - cur_mat as int,
                mth_of(row.mort_rate as int),
            );
        }
        let mort_mth: i64 = FX_ONE - fx_root12(FX_ONE - row.mort_rate);
        let lapse_mth: i64 = FX_ONE - fx_root12(FX_ONE - row.lapse_rate);
        let cur_death: i64 = fx_mul(cur_if - cur_mat, mort_mth);
        proof {
            crate::fixed::lemma_fx_mul_le_left(
                cur_if - cur_mat - cur_death as int,
                mth_of(row.lapse_rate as int),
            );
        }
        let cur_lapse: i64 = fx_mul(cur_if - cur_mat - cur_death, lapse_mth);
        row.mort_rate_mth = mort_mth;
        row.lapse_rate_mth = lapse_mth;
        row.pols_if = cur_if;
        row.pols_maturity = cur_mat;
        row.pols_death = cur_death;
        row.pols_lapse = cur_lapse;
        out.push(row);
        prev_if = cur_if;
        prev_mat = cur_mat;
        prev_death = cur_death;
        prev_lapse = cur_lapse;
        i += 1;
    }
    Ok(out)
}

/// Validity of one row's cash-flow inputs: the quantities the premium
/// solve multiplies are non-negative, as the earlier stages produce them.
pub open spec fn cf_inputs_ok_row(row: MonthRow) -> bool {
    &&& row.claim_pp >= 0
    &&& row.pols_death >= 0
    &&& row.pols_if >= 0
    &&& row.discount_factor >= 0
    &&& row.exp_pp >= 0
}

pub open spec fn cf_inputs_ok(rows: Seq<MonthRow>) -> bool {
    forall|i: int| 0 <= i < rows.len() ==> cf_inputs_ok_row(#[trigger] rows[i])
}

/// Portfolio claims of one row: the claim per policy times the deaths.
pub open spec fn claims_of(row: MonthRow) -> int {
    fx_mul_v(row.claim_pp as int, row.pols_death as int)
}

/// Present value of claims over the first `n` rows.
pub open spec fn pv_claims_sum(rows: Seq<MonthRow>, n: nat) -> int
    decreases n,
{
    if n == 0 {
        0
    } else {
        pv_claims_sum(rows, (n - 1) as nat) + fx_mul_v(
            claims_of(rows[n - 1]),
            rows[n - 1].discount_factor as int,
        )
    }
}

/// Present value of the premium annuity (the discounted in-force
/// exposure) over the first `n` rows.
pub open spec fn pv_annuities_sum(rows: Seq<MonthRow>, n: nat) -> int
    decreases n,
{
    if n == 0 {
        0
    } else {
        pv_annuities_sum(rows, (n - 1) as nat) + fx_mul_v(
            rows[n - 1].pols_if as int,
            rows[n - 1].discount_factor as int,
        )
    }
}

/// Whether one row's present-value terms stay within the fixed-point
/// range.
pub open spec fn pv_term_fits(row: MonthRow) -> bool {
    &&& claims_of(row) <= i64::MAX
    &&& fx_mul_v(claims_of(row), row.discount_factor as int) <= i64::MAX
    &&& fx_mul_v(row.pols_if as int, row.discount_factor as int) <= i64::MAX
}

pub open spec fn pv_fits(rows: Seq<MonthRow>) -> bool {
    &&& (forall|i: int| 0 <= i < rows.len() ==> pv_term_fits(#[trigger] rows[i]))
    &&& pv_claims_sum(rows, rows.len()) <= i64::MAX
    &&& pv_annuities_sum(rows, rows.len()) <= i64::MAX
}

/// The net premium of a completed decrement timeline: expected
/// discounted claims funded by expected discounted exposure, zero for a
/// degenerate cohort with no exposure.
pub open spec fn net_premium_of(rows: Seq<MonthRow>) -> int {
    if pv_annuities_sum(rows, rows.len()) == 0 {
        0
    } else {
        fx_div_v(pv_claims_sum(rows, rows.len()), pv_annuities_sum(rows, rows.len()))
    }
}

pub open spec fn net_premium_fits(rows: Seq<MonthRow>) -> bool {
    pv_annuities_sum(rows, rows.len()) == 0 || fx_div_v(
        pv_claims_sum(rows, rows.len()),
        pv_annuities_sum(rows, rows.len()),
    ) <= i64::MAX
}

/// Partial present-value sums are non-negative and non-decreasing in
/// the number of rows summed.
pub proof fn lemma_pv_sums_monotone(rows: Seq<MonthRow>, k1: nat, k2: nat)
    requires
        cf_inputs_ok(rows),
        k1 <= k2 <= rows.len(),
    ensures
        0 <= pv_claims_sum(rows, k1) <= pv_claims_sum(rows, k2),
        0 <= pv_annuities_sum(rows, k1) <= pv_annuities_sum(rows, k2),
    decreases k2,
{
    if k2 > 0 {
        let row = rows[k2 - 1];
        assert(cf_inputs_ok_row(row));
        crate::fixed::lemma_fx_mul_nonneg(row.claim_pp as int, row.pols_death as int);
        crate::fixed::lemma_fx_mul_nonneg(claims_of(row), row.discount_factor as int);
        crate::fixed::lemma_fx_mul_nonneg(row.pols_if as int, row.discount_factor as int);
        if k1 == k2 {
            lemma_pv_sums_monotone(rows, (k2 - 1) as nat, (k2 - 1) as nat);
        } else {
            lemma_pv_sums_monotone(rows, k1, (k2 - 1) as nat);
        }
    }
}

/// Solves the net premium: both present values are accumulated over the
/// whole timeline in one pass, then divided.  This is the whole-table
/// aggregate of the two-pass premium solve.
pub fn __calculate_net_premium(lf: &Vec<MonthRow>) -> (r: Result<i64, Error>)
    requires
        cf_inputs_ok(lf@),
    ensures
        r is Ok <==> pv_fits(lf@) && net_premium_fits(lf@),
        r matches Err(e) ==> e == Error::Overflow,
        r matches Ok(np) ==> np == net_premium_of(lf@) && np >= 0,
{
    let n = lf.len();
    let mut pv_claims: i64 = 0;
    let mut pv_annuities: i64 = 0;
    let mut i: usize = 0;
    while i < n
        invariant
            i <= n,
            n == lf@.len(),
            cf_inputs_ok(lf@),
            pv_claims == pv_claims_sum(lf@, i as nat),
            pv_annuities == pv_annuities_sum(lf@, i as nat),
            0 <= pv_claims,
            0 <= pv_annuities,
            forall|j: int| 0 <= j < i ==> pv_term_fits(#[trigger] lf@[j]),
        decreases n - i,
    {
        let row = lf[i];
        proof {
            assert(cf_inputs_ok_row(lf@[i as int]));
            lemma_pv_sums_monotone(lf@, i as nat, i as nat);
        }
        let claims = match fx_mul_checked(row.claim_pp, row.pols_death) {
            Some(v) => v,
            None => {
                return Err(Error::Overflow);
            },
        };
        let pv_c_term = match fx_mul_checked(claims, row.discount_factor) {
            Some(v) => v,
            None => {
                return Err(Error::Overflow);
            },
        };
        let pv_a_term = match fx_mul_checked(row.pols_if, row.discount_factor) {
            Some(v) => v,
            None => {
                return Err(Error::Overflow);
            },
        };
        pv_claims = match pv_claims.checked_add(pv_c_term) {
            Some(v) => v,
            None => {
                proof {
                    lemma_pv_sums_monotone(lf@, (i + 1) as nat, lf@.len() as nat);
                }
                return Err(Error::Overflow);
            },
        };
        pv_annuities = match pv_annuities.checked_add(pv_a_term) {
            Some(v) => v,
            None => {
                proof {
                    lemma_pv_sums_monotone(lf@, (i + 1) as nat, lf@.len() as nat);
                }
                return Err(Error::Overflow);
            },
        };
        i += 1;
    }
    if pv_annuities == 0 {
        proof {
            lemma_pv_sums_monotone(lf@, lf@.len() as nat, lf@.len() as nat);
        }
        return Ok(0);
    }
    match crate::fixed::fx_div_checked(pv_claims, pv_annuities) {
        Some(np) => Ok(np),
        None => Err(Error::Overflow),
    }
}

/// Loaded premium per policy: the net premium marked up by the row's
/// loading rate.
pub open spec fn prem_pp_of(row: MonthRow, np: int) -> int {
    fx_mul_v(FX_ONE + row.load_rate, np)
}

/// Portfolio premiums of one row.
pub open spec fn premiums_of(row: MonthRow, np: int) -> int {
    fx_mul_v(prem_pp_of(row, np), row.pols_if as int)
}

/// Portfolio expenses of one row.
pub open spec fn expenses_of(row: MonthRow) -> int {
    fx_mul_v(row.exp_pp as int, row.pols_if as int)
}

/// First-year commissions: the whole premium in policy year zero,
/// nothing after.
pub open spec fn commissions_of(row: MonthRow, np: int) -> int {
    if row.duration == 0 {
        premiums_of(row, np)
    } else {
        0
    }
}

/// Net cash flow of one row.
pub open spec fn net_cf_of(row: MonthRow, np: int) -> int {
    premiums_of(row, np) - expenses_of(row) - claims_of(row) - commissions_of(row, np)
}

pub open spec fn loads_ok(rows: Seq<MonthRow>) -> bool {
    forall|i: int| 0 <= i < rows.len() ==> growth_rate_ok(#[trigger] rows[i].load_rate as int)
}

/// Whether one row's cash-flow arithmetic stays within the fixed-point
/// range.
pub open spec fn cf_fits_row(row: MonthRow, np: int) -> bool {
    &&& prem_pp_of(row, np) <= i64::MAX
    &&& premiums_of(row, np) <= i64::MAX
    &&& claims_of(row) <= i64::MAX
    &&& expenses_of(row) <= i64::MAX
    &&& net_cf_of(row, np) >= i64::MIN
}

pub open spec fn cf_fits(rows: Seq<MonthRow>, np: int) -> bool {
    forall|i: int| 0 <= i < rows.len() ==> cf_fits_row(#[trigger] rows[i], np)
}

/// A row with its loaded premium and portfolio cash flows written in.
pub open spec fn completed(row: MonthRow, np: int) -> MonthRow {
    MonthRow {
        prem_pp: prem_pp_of(row, np) as i64,
        premiums: premiums_of(row, np) as i64,
        claims: claims_of(row) as i64,
        expenses: expenses_of(row) as i64,
        commissions: commissions_of(row, np) as i64,
        net_cf: net_cf_of(row, np) as i64,
        ..row
    }
}

/// Completes the projection: solves the net premium over the whole
/// timeline, then writes every row's loaded premium, portfolio
/// premiums, claims, expenses, first-year commissions and net cash flow.
pub fn _complete_projection(lf: Vec<MonthRow>) -> (r: Result<Vec<MonthRow>, Error>)
    requires
        cf_inputs_ok(lf@),
    ensures
        r is Ok <==> pv_fits(lf@) && net_premium_fits(lf@) && loads_ok(lf@) && cf_fits(
            lf@,
            net_premium_of(lf@),
        ),
        r matches Err(e) ==> e == (if !(pv_fits(lf@) && net_premium_fits(lf@)) {
            Error::Overflow
        } else if !loads_ok(lf@) {
            Error::RateOutOfRange
        } else {
            Error::Overflow
        }),
        r matches Ok(out) ==> {
            &&& out@.len() == lf@.len()
            &&& forall|i: int|
                0 <= i < lf@.len() ==> out@[i] == completed(lf@[i], net_premium_of(lf@))
        },
{
    let np = match __calculate_net_premium(&lf) {
        Ok(v) => v,
        Err(e) => {
            return Err(e);
        },
    };
    let n = lf.len();
    let mut i: usize = 0;
    while i < n
        invariant
            i <= n,
            n == lf@.len(),
            pv_fits(lf@),
            net_premium_fits(lf@),
            forall|j: int| 0 <= j < i ==> growth_rate_ok(#[trigger] lf@[j].load_rate as int),
        decreases n - i,
    {
        let v = lf[i].load_rate;
        if !(v >= -FX_ONE && v <= i64::MAX - FX_ONE) {
            return Err(Error::RateOutOfRange);
        }
        i += 1;
    }
    let mut out: Vec<MonthRow> = Vec::new();
    let mut i: usize = 0;
    while i < n
        invariant
            i <= n,
            n == lf@.len(),
            cf_inputs_ok(lf@),
            pv_fits(lf@),
            net_premium_fits(lf@),
            loads_ok(lf@),
            np == net_premium_of(lf@),
            np >= 0,
            out@.len() == i,
            forall|j: int| 0 <= j < i ==> out@[j] == completed(lf@[j], np as int),
            forall|j: int| 0 <= j < i ==> cf_fits_row(#[trigger] lf@[j], np as int),
        decreases n - i,
    {
        let mut row = lf[i];
        proof {
            assert(cf_inputs_ok_row(lf@[i as int]));
            assert(growth_rate_ok(lf@[i as int].load_rate as int));
        }
        let prem_pp = match fx_mul_checked(FX_ONE + row.load_rate, np) {
            Some(v) => v,
            None => {
                return Err(Error::Overflow);
            },
        };
        let premiums = match fx_mul_checked(prem_pp, row.pols_if) {
            Some(v) => v,
            None => {
                return Err(Error::Overflow);
            },
        };
        let claims = match fx_mul_checked(row.claim_pp, row.pols_death) {
            Some(v) => v,
            None => {
                return Err(Error::Overflow);
            },
        };
        let expenses = match fx_mul_checked(row.exp_pp, row.pols_if) {
            Some(v) => v,
            None => {
                return Err(Error::Overflow);
            },
        };
        let commissions: i64 = if row.duration == 0 {
            premiums
        } else {
            0
        };
        let net_wide: i128 = premiums as i128 - expenses as i128 - claims as i128
            - commissions as i128;
        if net_wide < i64::MIN as i128 {
            return Err(Error::Overflow);
        }
        row.prem_pp = prem_pp;
        row.premiums = premiums;
        row.claims = claims;
        row.expenses = expenses;
        row.commissions = commissions;
        row.net_cf = net_wide as i64;
        out.push(row);
        i += 1;
    }
    Ok(out)
}

/// Whether the model point's gender selects the male rate column.
pub open spec fn s_male(mp: SModelPoint) -> bool {
    gender_column(mp.gender@) == Some(true)
}

/// Timeline length for a model point: one row per month, inclusive.
pub open spec fn s_timeline_len(mp: SModelPoint) -> int {
    12 * mp.term + 1
}

/// The freshly initialized timeline.
pub open spec fn s_seq_init(mp: SModelPoint) -> Seq<MonthRow> {
    Seq::new(
        s_timeline_len(mp) as nat,
        (|i: int| init_row(mp.id as int, mp.term as int, mp.entry_age as int, mp.sum_insured as int, i)),
    )
}

/// The timeline after assumption mapping.
pub open spec fn s_seq_mapped(mp: SModelPoint, scen: AssumptionScenario) -> Seq<MonthRow> {
    Seq::new(
        s_timeline_len(mp) as nat,
        (|i: int| assumptions_applied(s_seq_init(mp)[i], scen, s_male(mp))),
    )
}

/// The timeline after discounting.
pub open spec fn s_seq_discounted(mp: SModelPoint, scen: AssumptionScenario) -> Seq<MonthRow> {
    Seq::new(s_timeline_len(mp) as nat, (|i: int| discounted(s_seq_mapped(mp, scen)[i], i as nat)))
}

/// The timeline after the expense columns.
pub open spec fn s_seq_expensed(mp: SModelPoint, scen: AssumptionScenario) -> Seq<MonthRow> {
    Seq::new(
        s_timeline_len(mp) as nat,
        (|i: int| expensed(s_seq_discounted(mp, scen)[i], i as nat)),
    )
}

/// The timeline after the decrement roll-forward.
pub open spec fn s_seq_moved(mp: SModelPoint, scen: AssumptionScenario) -> Seq<MonthRow> {
    Seq::new(
        s_timeline_len(mp) as nat,
        (|i: int| moved(
            s_seq_expensed(mp, scen),
            mp.policy_count as int,
            mp.term as int,
            i as nat,
        )),
    )
}

/// The model point's net premium under a scenario.
pub open spec fn s_net_premium(mp: SModelPoint, scen: AssumptionScenario) -> int {
    net_premium_of(s_seq_moved(mp, scen))
}

/// The completed projected timeline of an `S` model point under a
/// scenario: the mathematical value that [`project_s_mp`] computes.
pub open spec fn s_timeline(mp: SModelPoint, scen: AssumptionScenario) -> Seq<MonthRow> {
    Seq::new(
        s_timeline_len(mp) as nat,
        (|i: int| completed(s_seq_moved(mp, scen)[i], s_net_premium(mp, scen))),
    )
}

/// All conditions under which the projection of an `S` model point
/// succeeds: a recognized gender, all rates within their admissible
/// ranges, and every intermediate amount within the fixed-point range.
pub open spec fn s_project_ok(mp: SModelPoint, scen: AssumptionScenario) -> bool {
    &&& gender_column(mp.gender@) is Some
    &&& spots_ok(s_seq_mapped(mp, scen))
    &&& discount_fits(s_seq_mapped(mp, scen))
    &&& exp_inputs_ok(s_seq_discounted(mp, scen))
    &&& exp_fits(s_seq_discounted(mp, scen))
    &&& dec_rates_ok(s_seq_expensed(mp, scen))
    &&& pv_fits(s_seq_moved(mp, scen))
    &&& net_premium_fits(s_seq_moved(mp, scen))
    &&& loads_ok(s_seq_moved(mp, scen))
    &&& cf_fits(s_seq_moved(mp, scen), s_net_premium(mp, scen))
}

/// The error a failing projection reports, by pipeline stage order.
pub open spec fn s_project_err(mp: SModelPoint, scen: AssumptionScenario) -> Error {
    if gender_column(mp.gender@) is None {
        Error::MortalityColumnNotFound
    } else if !spots_ok(s_seq_mapped(mp, scen)) {
        Error::RateOutOfRange
    } else if !discount_fits(s_seq_mapped(mp, scen)) {
        Error::Overflow
    } else if !exp_inputs_ok(s_seq_discounted(mp, scen)) {
        Error::RateOutOfRange
    } else if !exp_fits(s_seq_discounted(mp, scen)) {
        Error::Overflow
    } else if !dec_rates_ok(s_seq_expensed(mp, scen)) {
        Error::RateOutOfRange
    } else if !(pv_fits(s_seq_moved(mp, scen)) && net_premium_fits(s_seq_moved(mp, scen))) {
        Error::Overflow
    } else if !loads_ok(s_seq_moved(mp, scen)) {
        Error::RateOutOfRange
    } else {
        Error::Overflow
    }
}

/// Projects one `S` model point under a scenario: initializes the
/// monthly timeline, maps assumptions, discounts, applies expenses,
/// rolls the decrements forward, solves the net premium and assembles
/// the portfolio cash flows.  The result is a mathematical function of
/// the model point and the scenario alone.
pub fn project_s_mp(mp: &SModelPoint, assumptions: &AssumptionScenario) -> (r: Result<
    Vec<MonthRow>,
    Error,
>)
    requires
        0 <= mp.term,
        0 <= mp.policy_count,
        0 <= mp.sum_insured,
        12 * (mp.term as int) + 1 <= usize::MAX,
    ensures
        r is Ok <==> s_project_ok(*mp, *assumptions),
        r matches Ok(rows) ==> rows@ == s_timeline(*mp, *assumptions) && rows@.len()
            == s_timeline_len(*mp),
        r matches Err(e) ==> e == s_project_err(*mp, *assumptions),
{
    let lf = _initialize_lf(mp.id, mp.term, mp.entry_age, mp.sum_insured);
    proof {
        assert(lf@ =~= s_seq_init(*mp));
    }
    let lf = match _map_assumptions(lf, assumptions, mp.gender.as_str()) {
        Ok(v) => v,
        Err(e) => {
            return Err(e);
        },
    };
    proof {
        assert(lf@ =~= s_seq_mapped(*mp, *assumptions));
    }
    let lf = match _discount_factor(lf) {
        Ok(v) => v,
        Err(e) => {
            return Err(e);
        },
    };
    proof {
        assert(lf@ =~= s_seq_discounted(*mp, *assumptions));
    }
    let lf = match _exp_pp(lf) {
        Ok(v) => v,
        Err(e) => {
            return Err(e);
        },
    };
    proof {
        assert(lf@ =~= s_seq_expensed(*mp, *assumptions));
    }
    let lf = match _policies_movement(lf, mp.policy_count, mp.term) {
        Ok(v) => v,
        Err(e) => {
            return Err(e);
        },
    };
    proof {
        assert(lf@ =~= s_seq_moved(*mp, *assumptions));
        lemma_s_moved_cf_inputs_ok(*mp, *assumptions);
    }
    let lf = match _complete_projection(lf) {
        Ok(v) => v,
        Err(e) => {
            return Err(e);
        },
    };
    proof {
        assert(lf@ =~= s_timeline(*mp, *assumptions));
    }
    Ok(lf)
}

/// Law: the in-force count of a projected timeline is non-negative and
/// never rises from one month to the next, whenever the projection
/// succeeds (which requires all decrement rates to lie in [0, 1]).
pub proof fn lemma_pols_if_monotone(mp: SModelPoint, scen: AssumptionScenario, i: int)
    requires
        0 <= mp.term,
        0 <= mp.policy_count,
        s_project_ok(mp, scen),
        0 <= i,
        i + 1 < s_timeline_len(mp),
    ensures
        0 <= s_timeline(mp, scen)[i + 1].pols_if <= s_timeline(mp, scen)[i].pols_if,
{
    let expd = s_seq_expensed(mp, scen);
    let pc = mp.policy_count as int;
    let tm = mp.term as int;
    lemma_movement_bounds(expd, pc, tm, i as nat);
    lemma_movement_bounds(expd, pc, tm, (i + 1) as nat);
    lemma_pols_if_nonincreasing(expd, pc, tm, i as nat);
    assert(s_timeline(mp, scen)[i].pols_if == m_pols_if(expd, pc, tm, i as nat) as i64);
    assert(s_timeline(mp, scen)[i + 1].pols_if == m_pols_if(expd, pc, tm, (i + 1) as nat) as i64);
}

/// Law: policies mature only at the final month of the term; every
/// earlier month's maturity count is zero, and at month `term * 12` the
/// whole remaining in-force matures.
pub proof fn lemma_maturity_only_at_term(mp: SModelPoint, scen: AssumptionScenario, i: int)
    requires
        0 <= mp.term,
        0 <= mp.policy_count,
        s_project_ok(mp, scen),
        0 <= i < s_timeline_len(mp),
    ensures
        i != 12 * mp.term ==> s_timeline(mp, scen)[i].pols_maturity == 0,
        i == 12 * mp.term ==> s_timeline(mp, scen)[i].pols_maturity == s_timeline(
            mp,
            scen,
        )[i].pols_if,
{
    let expd = s_seq_expensed(mp, scen);
    let pc = mp.policy_count as int;
    let tm = mp.term as int;
    lemma_movement_bounds(expd, pc, tm, i as nat);
    assert(s_timeline(mp, scen)[i].pols_maturity == m_pols_maturity(expd, pc, tm, i as nat) as i64);
    assert(s_timeline(mp, scen)[i].pols_if == m_pols_if(expd, pc, tm, i as nat) as i64);
}

/// Law: projection is deterministic.  Any two result tables of the same
/// model point under the same scenario are equal row for row, the solved
/// net premium included, because each equals the one specification-level
/// timeline.
pub proof fn lemma_projection_deterministic(
    mp: SModelPoint,
    scen: AssumptionScenario,
    rows1: Seq<MonthRow>,
    rows2: Seq<MonthRow>,
)
    requires
        rows1 == s_timeline(mp, scen),
        rows2 == s_timeline(mp, scen),
    ensures
        rows1 == rows2,
{
}

/// After the decrement roll-forward every quantity the premium solve
/// multiplies is non-negative.
proof fn lemma_s_moved_cf_inputs_ok(mp: SModelPoint, scen: AssumptionScenario)
    requires
        0 <= mp.term,
        0 <= mp.policy_count,
        0 <= mp.sum_insured,
        dec_rates_ok(s_seq_expensed(mp, scen)),
        spots_ok(s_seq_mapped(mp, scen)),
        discount_fits(s_seq_mapped(mp, scen)),
        exp_inputs_ok(s_seq_discounted(mp, scen)),
        exp_fits(s_seq_discounted(mp, scen)),
    ensures
        cf_inputs_ok(s_seq_moved(mp, scen)),
{
    let moved_rows = s_seq_moved(mp, scen);
    let expd = s_seq_expensed(mp, scen);
    assert forall|i: int| 0 <= i < moved_rows.len() implies cf_inputs_ok_row(
        #[trigger] moved_rows[i],
    ) by {
        let row = moved_rows[i];
        let irow = s_seq_init(mp)[i];
        let mrow = s_seq_mapped(mp, scen)[i];
        let drow = s_seq_discounted(mp, scen)[i];
        let erow = s_seq_expensed(mp, scen)[i];
        assert(mrow == assumptions_applied(irow, scen, s_male(mp)));
        assert(drow == discounted(mrow, i as nat));
        assert(erow == expensed(drow, i as nat));
        assert(row == moved(expd, mp.policy_count as int, mp.term as int, i as nat));
        lemma_movement_bounds(expd, mp.policy_count as int, mp.term as int, i as nat);
        // claim_pp is the sum insured, carried unchanged through every stage
        assert(row.claim_pp == mp.sum_insured);
        // the discount factor is a power of a non-negative reciprocal and fits
        let spot = mrow.spot_rate as int;
        assert(spot_rate_ok(spot));
        assert(fx_pow_fits(recip_of(spot), i as nat));
        lemma_fx_root12_pos(FX_ONE + spot);
        crate::fixed::lemma_fx_div_nonneg(FX_ONE as int, fx_root12_v(FX_ONE + spot));
        crate::fixed::lemma_fx_pow_nonneg(recip_of(spot), i as nat);
        if i > 0 {
            assert(fx_pow_v(recip_of(spot), i as nat) <= i64::MAX);
        }
        assert(row.discount_factor == discount_of(spot, i as nat) as i64);
        assert(row.discount_factor >= 0);
        // the expense per policy is a product of non-negative factors and fits
        assert(exp_input_ok_row(drow));
        assert(exp_fits_at(drow, i as nat));
        crate::fixed::lemma_fx_root12_nonneg(FX_ONE + drow.inf_rate as int);
        crate::fixed::lemma_fx_pow_nonneg(inf_base_of(drow.inf_rate as int), i as nat);
        crate::fixed::lemma_fx_mul_nonneg(
            drow.real_acq_exp_pp + drow.real_mtn_exp_pp,
            inf_factor_of(drow.inf_rate as int, i as nat),
        );
        assert(row.exp_pp >= 0);
    }
}

} // verus!
