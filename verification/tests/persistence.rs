//! Tests for the info text, the binary table codec, and the bundle
//! export/import round trip.

use lifeproj::assumptions::{AssumptionScenario, MortalityRow, RateRow};
use lifeproj::bundle::run_path;
use lifeproj::codec::{decode_mp_table, decode_proj_table, encode_mp_table, encode_proj_table};
use lifeproj::errors::{Error, PersistenceFault};
use lifeproj::fixed::FX_ONE;
use lifeproj::model_points::ModelPoint;
use lifeproj::projections::projection_multi_runs::{RunsResult, RunsSetup};
use lifeproj::projections::projection_single_run::{SingleRunResult, SingleRunSetup};
use lifeproj::text::{emit_info_root, emit_info_run, parse_info_root, parse_info_run, u64_to_string};

fn flat_scenario(name: &str) -> AssumptionScenario {
    let mut mort = Vec::new();
    for age in 0..=120 {
        mort.push(MortalityRow {
            age,
            male: FX_ONE / 100,
            female: FX_ONE / 125,
        });
    }
    let rate_table = |rate: i64| -> Vec<RateRow> {
        let mut rows = Vec::new();
        for year in 1..=40 {
            rows.push(RateRow { year, rate });
        }
        rows
    };
    AssumptionScenario::new(
        name.to_string(),
        Some(mort),
        Some(rate_table(2 * FX_ONE / 100)),
        Some(rate_table(0)),
        Some(rate_table(3 * FX_ONE)),
        Some(rate_table(FX_ONE)),
        Some(rate_table(3 * FX_ONE / 100)),
        Some(rate_table(FX_ONE / 20)),
    )
    .unwrap()
}

fn s_point(id: i32, entry_age: i32, term: i32, gender: &str) -> ModelPoint {
    ModelPoint {
        model: "s_model".to_string(),
        id,
        entry_age,
        gender: gender.to_string(),
        term,
        policy_count: FX_ONE,
        sum_insured: 250_000 * FX_ONE,
        duration_mth: None,
        issue_date: None,
        payment_freq: None,
        payment_term: None,
    }
}

#[test]
fn decimal_rendering() {
    assert_eq!(u64_to_string(0), "0");
    assert_eq!(u64_to_string(7), "7");
    assert_eq!(u64_to_string(12345), "12345");
    assert_eq!(u64_to_string(u64::MAX), "18446744073709551615");
}

#[test]
fn run_paths_follow_the_layout() {
    assert_eq!(run_path(0, "info.json"), "run_0/info.json");
    assert_eq!(run_path(17, "projected_df.bin"), "run_17/projected_df.bin");
}

#[test]
fn info_text_round_trips() {
    let text = emit_info_root("a \"quoted\"\\ description\twith\nbreaks", 42);
    let parsed = parse_info_root(&text).unwrap();
    assert_eq!(
        parsed.0.as_deref(),
        Some("a \"quoted\"\\ description\twith\nbreaks")
    );
    assert_eq!(parsed.1, Some(42));
    let text = emit_info_run("some run", "pricing");
    let parsed = parse_info_run(&text).unwrap();
    assert_eq!(parsed.0.as_deref(), Some("some run"));
    assert_eq!(parsed.1.as_deref(), Some("pricing"));
}

#[test]
fn info_parser_ignores_unknown_flat_members() {
    let parsed =
        parse_info_root("  { \"extra\" : true , \"description\" : \"d\" , \"runs_count\" : 3 , \"more\" : -1.5e2 } ")
            .unwrap();
    assert_eq!(parsed.0.as_deref(), Some("d"));
    assert_eq!(parsed.1, Some(3));
}

#[test]
fn info_parser_rejects_malformed_text() {
    assert!(parse_info_root("not json").is_none());
    assert!(parse_info_root("{\"description\":\"d\"").is_none());
    let missing_key = parse_info_root("{\"description\":\"d\"}").unwrap();
    assert_eq!(missing_key.1, None);
}

#[test]
fn table_codecs_round_trip() {
    let scen = flat_scenario("flat");
    let setup = SingleRunSetup {
        description: "codec".to_string(),
        model_points_df: vec![s_point(1, 30, 10, "M"), s_point(2, 41, 15, "F")],
        assumption_scenario: scen,
    };
    let res = setup.projection_run().unwrap();
    let proj_bytes = encode_proj_table(&res.projected_df);
    let decoded = decode_proj_table(&proj_bytes).unwrap();
    assert_eq!(decoded, res.projected_df);
    let mp_bytes = encode_mp_table(&setup.model_points_df);
    let decoded = decode_mp_table(&mp_bytes).unwrap();
    assert_eq!(decoded.len(), 2);
    assert_eq!(decoded[0].model, "s_model");
    assert_eq!(decoded[0].id, 1);
    assert_eq!(decoded[1].gender, "F");
    assert_eq!(decoded[1].sum_insured, 250_000 * FX_ONE);
    // a corrupted table is refused
    let mut bad = mp_bytes.clone();
    bad.pop();
    assert!(decode_mp_table(&bad).is_none());
}

fn projected_batch() -> RunsResult {
    let batch = RunsSetup {
        description: "export me".to_string(),
        setups: vec![
            SingleRunSetup {
                description: "first".to_string(),
                model_points_df: vec![s_point(1, 30, 10, "M"), s_point(2, 44, 20, "F")],
                assumption_scenario: flat_scenario("pricing"),
            },
            SingleRunSetup {
                description: "second".to_string(),
                model_points_df: vec![s_point(1, 36, 15, "F")],
                assumption_scenario: flat_scenario("valuation"),
            },
        ],
    };
    batch.projection_runs().unwrap()
}

#[test]
fn export_import_round_trip() {
    let rr = projected_batch();
    let files = rr.export();
    assert_eq!(files.len(), 1 + 3 * 2);
    let scenarios = vec![flat_scenario("valuation"), flat_scenario("pricing")];
    let back = RunsResult::import(&files, &scenarios).unwrap();
    assert_eq!(back.description, rr.description);
    assert_eq!(back.results.len(), rr.results.len());
    for i in 0..rr.results.len() {
        assert_eq!(
            back.results[i].setup.description,
            rr.results[i].setup.description
        );
        assert_eq!(
            back.results[i].setup.assumption_scenario.name,
            rr.results[i].setup.assumption_scenario.name
        );
        assert_eq!(
            back.results[i].setup.model_points_df.len(),
            rr.results[i].setup.model_points_df.len()
        );
        for k in 0..rr.results[i].setup.model_points_df.len() {
            let a = &back.results[i].setup.model_points_df[k];
            let b = &rr.results[i].setup.model_points_df[k];
            assert_eq!(a.model, b.model);
            assert_eq!(a.id, b.id);
            assert_eq!(a.entry_age, b.entry_age);
            assert_eq!(a.gender, b.gender);
            assert_eq!(a.term, b.term);
            assert_eq!(a.policy_count, b.policy_count);
            assert_eq!(a.sum_insured, b.sum_insured);
        }
        assert_eq!(back.results[i].projected_df, rr.results[i].projected_df);
    }
}

#[test]
fn single_run_round_trips_through_its_three_files() {
    let rr = projected_batch();
    let files = rr.results[0].export();
    let scenarios = vec![flat_scenario("pricing")];
    let back = SingleRunResult::import(&files, &scenarios).unwrap();
    assert_eq!(back.setup.description, "first");
    assert_eq!(back.setup.assumption_scenario.name, "pricing");
    assert_eq!(back.projected_df, rr.results[0].projected_df);
}

#[test]
fn import_of_an_empty_bundle_reports_the_missing_file() {
    let scenarios = vec![flat_scenario("pricing")];
    assert_eq!(
        RunsResult::import(&Vec::new(), &scenarios).err(),
        Some(Error::Persistence(PersistenceFault::MissingFile))
    );
}

#[test]
fn import_without_the_named_scenario_fails() {
    let rr = projected_batch();
    let files = rr.export();
    let scenarios = vec![flat_scenario("something else")];
    assert_eq!(
        RunsResult::import(&files, &scenarios).err(),
        Some(Error::Persistence(PersistenceFault::UnknownScenario))
    );
}
