//! Tests for the single-model-point projection pipeline.

use lifeproj::assumptions::{AssumptionScenario, MortalityRow, RateRow};
use lifeproj::errors::Error;
use lifeproj::fixed::FX_ONE;
use lifeproj::projections::s::project_s_mp;
use lifeproj::projections::structs::{SEModelPoint, SModelPoint};

/// A flat scenario: mortality 1% per year (male), lapse 2% per year,
/// spot 3% per year, no inflation, no expenses, no loading.
fn flat_scenario(name: &str) -> AssumptionScenario {
    let mut mort = Vec::new();
    for age in 0..=120 {
        mort.push(MortalityRow {
            age,
            male: FX_ONE / 100,
            female: FX_ONE / 80,
        });
    }
    let rate_table = |rate: i64| -> Vec<RateRow> {
        let mut rows = Vec::new();
        for year in 1..=40 {
            rows.push(RateRow { year, rate });
        }
        rows
    };
    AssumptionScenario::new(
        name.to_string(),
        Some(mort),
        Some(rate_table(2 * FX_ONE / 100)),
        Some(rate_table(0)),
        Some(rate_table(0)),
        Some(rate_table(0)),
        Some(rate_table(3 * FX_ONE / 100)),
        Some(rate_table(0)),
    )
    .unwrap()
}

fn concrete_point() -> SModelPoint {
    SModelPoint {
        model: "s_model".to_string(),
        id: 1,
        entry_age: 30,
        gender: "M".to_string(),
        term: 10,
        policy_count: FX_ONE,
        sum_insured: 100_000 * FX_ONE,
    }
}

fn close(actual: i64, expected_ratio: f64, tol: f64) -> bool {
    let a = actual as f64 / FX_ONE as f64;
    (a - expected_ratio).abs() <= tol
}

#[test]
fn timeline_length_is_term_months_plus_one() {
    let scen = flat_scenario("flat");
    let rows = project_s_mp(&concrete_point(), &scen).unwrap();
    assert_eq!(rows.len(), 10 * 12 + 1);
    let mut mp = concrete_point();
    mp.term = 20;
    let rows = project_s_mp(&mp, &scen).unwrap();
    assert_eq!(rows.len(), 20 * 12 + 1);
}

#[test]
fn concrete_scenario_row_values() {
    let scen = flat_scenario("flat");
    let rows = project_s_mp(&concrete_point(), &scen).unwrap();
    // month 0
    assert_eq!(rows[0].pols_if, FX_ONE);
    assert_eq!(rows[0].age, 30);
    assert_eq!(rows[0].duration, 0);
    // monthly-equivalent decrement rates
    assert!(close(rows[0].mort_rate_mth, 0.000837, 0.00001));
    assert!(close(rows[0].lapse_rate_mth, 0.001682, 0.00001));
    assert!(close(rows[0].pols_death, 0.000837, 0.00001));
    assert!(close(rows[0].pols_lapse, 0.001680, 0.00001));
    assert!(close(rows[1].pols_if, 0.99748, 0.0001));
    // the final month: the whole remaining in-force matures
    assert_eq!(rows[120].t, 120);
    assert_eq!(rows[120].pols_maturity, rows[120].pols_if);
    // a strictly positive premium was solved
    assert!(rows[0].prem_pp > 0);
    assert_eq!(rows[0].commissions, rows[0].premiums);
    assert_eq!(rows[13].commissions, 0);
}

#[test]
fn pols_if_non_negative_and_non_increasing() {
    let scen = flat_scenario("flat");
    let rows = project_s_mp(&concrete_point(), &scen).unwrap();
    for i in 0..rows.len() {
        assert!(rows[i].pols_if >= 0);
        if i > 0 {
            assert!(rows[i].pols_if <= rows[i - 1].pols_if);
        }
    }
}

#[test]
fn maturity_only_at_final_month() {
    let scen = flat_scenario("flat");
    let rows = project_s_mp(&concrete_point(), &scen).unwrap();
    for i in 0..120 {
        assert_eq!(rows[i].pols_maturity, 0);
    }
    assert_eq!(rows[120].pols_maturity, rows[120].pols_if);
}

#[test]
fn net_premium_is_deterministic() {
    let scen = flat_scenario("flat");
    let first = project_s_mp(&concrete_point(), &scen).unwrap();
    let second = project_s_mp(&concrete_point(), &scen).unwrap();
    assert_eq!(first.len(), second.len());
    for i in 0..first.len() {
        assert_eq!(first[i], second[i]);
    }
}

#[test]
fn unrecognized_gender_is_a_hard_error() {
    let scen = flat_scenario("flat");
    let mut mp = concrete_point();
    mp.gender = "X".to_string();
    assert_eq!(
        project_s_mp(&mp, &scen),
        Err(Error::MortalityColumnNotFound)
    );
}

#[test]
fn decrement_rate_above_one_is_rejected() {
    let mut scen = flat_scenario("flat");
    for row in scen.mort.iter_mut() {
        row.male = 3 * FX_ONE / 2;
    }
    assert_eq!(
        project_s_mp(&concrete_point(), &scen),
        Err(Error::RateOutOfRange)
    );
}

#[test]
fn negative_spot_rate_at_or_below_minus_one_is_rejected() {
    let mut scen = flat_scenario("flat");
    for row in scen.spot.iter_mut() {
        row.rate = -FX_ONE;
    }
    assert_eq!(
        project_s_mp(&concrete_point(), &scen),
        Err(Error::RateOutOfRange)
    );
}

#[test]
fn runaway_inflation_overflows_and_is_reported() {
    let mut scen = flat_scenario("flat");
    for row in scen.inf.iter_mut() {
        row.rate = 6 * FX_ONE;
    }
    let mut mp = concrete_point();
    mp.term = 20;
    assert_eq!(project_s_mp(&mp, &scen), Err(Error::Overflow));
}

#[test]
fn missing_table_is_a_construction_error() {
    let r = AssumptionScenario::new(
        "broken".to_string(),
        Some(Vec::new()),
        None,
        Some(Vec::new()),
        Some(Vec::new()),
        Some(Vec::new()),
        Some(Vec::new()),
        Some(Vec::new()),
    );
    assert_eq!(
        r.err(),
        Some(Error::MissingAssumption(
            lifeproj::errors::AssumptionKind::Lapse
        ))
    );
}

#[test]
fn missing_lookup_key_defaults_to_zero_rate() {
    // a mortality table that misses the cohort's ages entirely
    let scen = AssumptionScenario::new(
        "sparse".to_string(),
        Some(vec![MortalityRow { age: 5, male: FX_ONE / 100, female: FX_ONE / 100 }]),
        Some(Vec::new()),
        Some(Vec::new()),
        Some(Vec::new()),
        Some(Vec::new()),
        Some(Vec::new()),
        Some(Vec::new()),
    )
    .unwrap();
    let rows = project_s_mp(&concrete_point(), &scen).unwrap();
    assert_eq!(rows[0].mort_rate, 0);
    assert_eq!(rows[0].lapse_rate, 0);
    assert_eq!(rows[0].pols_death, 0);
    // with no decrements before maturity, the in-force count never drops
    assert_eq!(rows[119].pols_if, FX_ONE);
}

#[test]
fn stubbed_variant_reports_no_algorithm() {
    let scen = flat_scenario("flat");
    let mp = SEModelPoint {
        model: "se_model".to_string(),
        id: 2,
        entry_age: 40,
        gender: "F".to_string(),
        term: 10,
        policy_count: FX_ONE,
        sum_insured: 50_000 * FX_ONE,
        duration_mth: 12,
    };
    assert_eq!(mp.project(&scen), Err(Error::UnsupportedModelPoint));
}
