//! Tests for the synthetic cohort generators.

use lifeproj::fixed::FX_ONE;
use lifeproj::model_points::generate_s_model_points;
use lifeproj::mp_gen::pricing_mp_gen;
use lifeproj::mp_gen::s_mp_gen;

#[test]
fn random_cohort_respects_every_documented_range() {
    let rows = generate_s_model_points(200, 42);
    assert_eq!(rows.len(), 200);
    let mut seen_m = false;
    let mut seen_f = false;
    let mut distinct_ages = std::collections::BTreeSet::new();
    for (i, row) in rows.iter().enumerate() {
        assert_eq!(row.model, "s_model");
        assert_eq!(row.id as usize, i + 1);
        assert!(20 <= row.entry_age && row.entry_age < 60);
        assert!(row.gender == "M" || row.gender == "F");
        assert!(row.term == 10 || row.term == 15 || row.term == 20);
        assert_eq!(row.policy_count, FX_ONE);
        assert!(100_000 * FX_ONE <= row.sum_insured && row.sum_insured <= 1_000_000 * FX_ONE);
        assert_eq!(row.sum_insured % (1000 * FX_ONE), 0);
        if row.gender == "M" {
            seen_m = true;
        } else {
            seen_f = true;
        }
        distinct_ages.insert(row.entry_age);
    }
    // the generator draws, it does not echo a constant
    assert!(seen_m && seen_f);
    assert!(distinct_ages.len() > 5);
}

#[test]
fn random_cohort_is_reproducible_from_its_seed() {
    let first = s_mp_gen::generate_s_model_points(50, 7);
    let second = s_mp_gen::generate_s_model_points(50, 7);
    for i in 0..50 {
        assert_eq!(first[i].entry_age, second[i].entry_age);
        assert_eq!(first[i].gender, second[i].gender);
        assert_eq!(first[i].term, second[i].term);
        assert_eq!(first[i].sum_insured, second[i].sum_insured);
    }
}

#[test]
fn pricing_cohort_enumerates_every_combination() {
    let rows = pricing_mp_gen::generate_s_model_points();
    assert_eq!(rows.len(), 240);
    assert_eq!(rows[0].id, 1);
    assert_eq!(rows[0].entry_age, 20);
    assert_eq!(rows[0].term, 10);
    assert_eq!(rows[0].gender, "M");
    assert_eq!(rows[239].entry_age, 59);
    assert_eq!(rows[239].term, 20);
    assert_eq!(rows[239].gender, "F");
    let mut combos = std::collections::BTreeSet::new();
    for row in rows.iter() {
        assert_eq!(row.model, "s_model");
        assert_eq!(row.policy_count, FX_ONE);
        assert_eq!(row.sum_insured, 1000 * FX_ONE);
        combos.insert((row.entry_age, row.term, row.gender.clone()));
    }
    assert_eq!(combos.len(), 240);
}
