//! Tests for the single-run engine and the multi-run orchestrator.

use lifeproj::assumptions::{AssumptionScenario, MortalityRow, RateRow};
use lifeproj::errors::{Error, SchemaFault};
use lifeproj::fixed::FX_ONE;
use lifeproj::model_points::ModelPoint;
use lifeproj::projections::projection_multi_runs::{RunsResult, RunsSetup};
use lifeproj::projections::projection_single_run::SingleRunSetup;

fn flat_scenario(name: &str) -> AssumptionScenario {
    let mut mort = Vec::new();
    for age in 0..=120 {
        mort.push(MortalityRow {
            age,
            male: FX_ONE / 100,
            female: FX_ONE / 125,
        });
    }
    let rate_table = |rate: i64| -> Vec<RateRow> {
        let mut rows = Vec::new();
        for year in 1..=40 {
            rows.push(RateRow { year, rate });
        }
        rows
    };
    AssumptionScenario::new(
        name.to_string(),
        Some(mort),
        Some(rate_table(2 * FX_ONE / 100)),
        Some(rate_table(FX_ONE / 100)),
        Some(rate_table(5 * FX_ONE)),
        Some(rate_table(2 * FX_ONE)),
        Some(rate_table(3 * FX_ONE / 100)),
        Some(rate_table(FX_ONE / 10)),
    )
    .unwrap()
}

fn s_point(id: i32, entry_age: i32, term: i32, gender: &str) -> ModelPoint {
    ModelPoint {
        model: "s_model".to_string(),
        id,
        entry_age,
        gender: gender.to_string(),
        term,
        policy_count: FX_ONE,
        sum_insured: 100_000 * FX_ONE,
        duration_mth: None,
        issue_date: None,
        payment_freq: None,
        payment_term: None,
    }
}

fn small_cohort() -> Vec<ModelPoint> {
    vec![
        s_point(1, 30, 10, "M"),
        s_point(2, 35, 15, "F"),
        s_point(3, 40, 20, "M"),
        s_point(4, 45, 10, "F"),
        s_point(5, 50, 15, "M"),
        s_point(6, 25, 20, "F"),
        s_point(7, 33, 10, "M"),
    ]
}

#[test]
fn run_table_is_concatenated_in_point_order() {
    let setup = SingleRunSetup {
        description: "one run".to_string(),
        model_points_df: small_cohort(),
        assumption_scenario: flat_scenario("flat"),
    };
    let res = setup.projection_run().unwrap();
    let expected: usize = [10, 15, 20, 10, 15, 20, 10].iter().map(|t| t * 12 + 1).sum();
    assert_eq!(res.projected_df.len(), expected);
    // the first point's rows come first, carrying its id
    assert_eq!(res.projected_df[0].id, 1);
    assert_eq!(res.projected_df[121].id, 2);
    // the result keeps its setup for reproducibility
    assert_eq!(res.setup.description, "one run");
    assert_eq!(res.setup.model_points_df.len(), 7);
}

#[test]
fn chunk_size_does_not_change_the_table() {
    let setup = SingleRunSetup {
        description: "chunked".to_string(),
        model_points_df: small_cohort(),
        assumption_scenario: flat_scenario("flat"),
    };
    let by_default = setup.projection_run().unwrap();
    let by_one = setup.projection_run_with_chunk_size(1).unwrap();
    let by_hundred = setup.projection_run_with_chunk_size(100).unwrap();
    let by_huge = setup.projection_run_with_chunk_size(10000).unwrap();
    assert_eq!(by_default.projected_df, by_one.projected_df);
    assert_eq!(by_one.projected_df, by_hundred.projected_df);
    assert_eq!(by_hundred.projected_df, by_huge.projected_df);
}

#[test]
fn unknown_model_tag_aborts_the_run() {
    let mut cohort = small_cohort();
    cohort[3].model = "mystery".to_string();
    let setup = SingleRunSetup {
        description: "bad".to_string(),
        model_points_df: cohort,
        assumption_scenario: flat_scenario("flat"),
    };
    assert_eq!(
        setup.projection_run().err(),
        Some(Error::Schema(SchemaFault::UnknownModelTag))
    );
}

#[test]
fn negative_term_aborts_the_run() {
    let mut cohort = small_cohort();
    cohort[0].term = -1;
    let setup = SingleRunSetup {
        description: "bad".to_string(),
        model_points_df: cohort,
        assumption_scenario: flat_scenario("flat"),
    };
    assert_eq!(
        setup.projection_run().err(),
        Some(Error::Schema(SchemaFault::NegativeTerm))
    );
}

fn two_run_batch() -> RunsSetup {
    RunsSetup {
        description: "pricing and valuation".to_string(),
        setups: vec![
            SingleRunSetup {
                description: "run one".to_string(),
                model_points_df: small_cohort(),
                assumption_scenario: flat_scenario("pricing"),
            },
            SingleRunSetup {
                description: "run two".to_string(),
                model_points_df: vec![s_point(1, 28, 10, "F"), s_point(2, 52, 15, "M")],
                assumption_scenario: flat_scenario("valuation"),
            },
        ],
    }
}

#[test]
fn batch_results_keep_setup_order() {
    let batch = two_run_batch();
    let rr: RunsResult = batch.projection_runs().unwrap();
    assert_eq!(rr.description, "pricing and valuation");
    assert_eq!(rr.get_run_result_count(), 2);
    assert_eq!(rr.results[0].setup.description, "run one");
    assert_eq!(rr.results[1].setup.description, "run two");
    assert_eq!(rr.results[0].setup.assumption_scenario.name, "pricing");
    assert_eq!(rr.results[1].setup.assumption_scenario.name, "valuation");
}

#[test]
fn aggregated_row_count_sums_every_timeline() {
    let batch = two_run_batch();
    let rr = batch.projection_runs().unwrap();
    let agg = rr.aggregate_projection_df().unwrap();
    let run_one: usize = [10, 15, 20, 10, 15, 20, 10].iter().map(|t| t * 12 + 1).sum();
    let run_two: usize = (10 * 12 + 1) + (15 * 12 + 1);
    assert_eq!(agg.len(), run_one + run_two);
}

#[test]
fn aggregated_rows_carry_their_run_identity() {
    let batch = two_run_batch();
    let rr = batch.projection_runs().unwrap();
    let agg = rr.aggregate_projection_df().unwrap();
    let run_one: usize = [10, 15, 20, 10, 15, 20, 10].iter().map(|t| t * 12 + 1).sum();
    assert_eq!(agg[0].run_id, 0);
    assert_eq!(agg[0].run_setup_description, "run one");
    assert_eq!(agg[0].run_setup_assumptions_name, "pricing");
    assert_eq!(agg[run_one].run_id, 1);
    assert_eq!(agg[run_one].run_setup_description, "run two");
    assert_eq!(agg[run_one].run_setup_assumptions_name, "valuation");
    assert_eq!(agg[run_one].row.id, 1);
}

#[test]
fn failing_run_aborts_the_batch() {
    let mut batch = two_run_batch();
    batch.setups[1].model_points_df[0].gender = "Q".to_string();
    assert_eq!(
        batch.projection_runs().err(),
        Some(Error::MortalityColumnNotFound)
    );
}
