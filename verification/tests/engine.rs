use montecarlo::montecarlo::{define_upper_bound, occurs, MonteCarlo};
use montecarlo::pert::PertValues;
use montecarlo::risktype::RiskValues;
use montecarlo::SimError;

#[test]
fn test_pert() {
    let test_pert = PertValues::new(String::from("Bertie"), 4500, 7800, 15000);
    let comparator = PertValues {
        name: String::from("Bertie"),
        optimistic: 4500,
        most_likely: 7800,
        pessimistic: 15000,
        pert_estimate: 8450,
        pm_standard_dev: 1750,
        range_upper: 10200,
        range_lower: 6700,
    };
    assert_eq!(test_pert, comparator);
}

#[test]
fn test_risk_bound_certain() {
    let risk_category = "Certain";
    let risk_result_lower = 90_000;
    let risk_result = define_upper_bound(risk_category).unwrap();
    println!("{}", risk_result);
    assert!(risk_result >= risk_result_lower);
    assert!(risk_result < 99_000);
}

#[test]
fn test_risk_bound_likely() {
    let risk_category = "Likely";
    let risk_result_lower = 50_000;
    let risk_result = define_upper_bound(risk_category).unwrap();
    println!("{}", risk_result);
    assert!(risk_result >= risk_result_lower);
    assert!(risk_result < 90_000);
}

#[test]
fn test_risk_bound_moderate() {
    let risk_category = "Moderate";
    let risk_result_lower = 10_000;
    let risk_result = define_upper_bound(risk_category).unwrap();
    println!("{}", risk_result);
    assert!(risk_result >= risk_result_lower);
    assert!(risk_result < 50_000);
}

#[test]
fn test_risk_bound_unlikely() {
    let risk_category = "Unlikely";
    let risk_result_lower = 3_000;
    let risk_result = define_upper_bound(risk_category).unwrap();
    println!("{}", risk_result);
    assert!(risk_result >= risk_result_lower);
    assert!(risk_result < 10_000);
}

#[test]
fn test_risk_bound_rare() {
    let risk_category = "Rare";
    let risk_result_lower = 100;
    let risk_result = define_upper_bound(risk_category).unwrap();
    println!("{}", risk_result);
    assert!(risk_result >= risk_result_lower);
    assert!(risk_result < 3_000);
}

#[test]
fn risk_bound_unknown_category_is_configuration_error() {
    let risk_result = define_upper_bound("Pumpkin");
    assert_eq!(risk_result, Err(SimError::ConfigurationError));
}

#[test]
fn derive_mean_matches_weighted_formula() {
    let p = PertValues::new(String::from("t"), 1_000, 2_000, 9_000);
    assert_eq!(p.pert_estimate, (1_000 + 4 * 2_000 + 9_000) / 6);
    assert_eq!(p.pm_standard_dev, (9_000 - 1_000) / 6);
    assert_eq!(p.range_upper - p.range_lower, 2 * p.pm_standard_dev);
}

#[test]
fn run_task_mode_populates_sorted_totals() {
    let mut monty = MonteCarlo::new(250);
    monty.perts.push(PertValues::new(String::from("a"), 4500, 7800, 15000));
    monty.perts.push(PertValues::new(String::from("b"), 7000, 14300, 28900));
    monty.perts.push(PertValues::new(String::from("c"), 13000, 28650, 48000));
    assert_eq!(monty.iterate("pert"), Ok(()));
    assert_eq!(monty.estimates.len(), 250);
    for w in monty.estimates.windows(2) {
        assert!(w[0] <= w[1]);
    }
}

#[test]
fn task_totals_stay_between_bound_sums() {
    let mut monty = MonteCarlo::new(400);
    monty.perts.push(PertValues::new(String::from("a"), 4500, 7800, 15000));
    monty.perts.push(PertValues::new(String::from("b"), 7000, 14300, 28900));
    let lower_sum: i64 = monty.perts.iter().map(|p| p.range_lower).sum();
    let upper_sum: i64 = monty.perts.iter().map(|p| p.range_upper).sum();
    assert_eq!(monty.iterate("pert"), Ok(()));
    for total in &monty.estimates {
        assert!(lower_sum <= *total && *total <= upper_sum);
    }
}

#[test]
fn single_task_single_iteration_total_in_range() {
    let mut monty = MonteCarlo::new(1);
    let p = PertValues::new(String::from("only"), 4500, 7800, 15000);
    assert_eq!(p.range_lower, 6700);
    assert_eq!(p.range_upper, 10200);
    monty.perts.push(p);
    assert_eq!(monty.iterate("pert"), Ok(()));
    assert_eq!(monty.estimates.len(), 1);
    assert!(6700 <= monty.estimates[0] && monty.estimates[0] <= 10200);
}

#[test]
fn confidence_is_monotone_in_percentile() {
    let mut monty = MonteCarlo::new(1000);
    monty.perts.push(PertValues::new(String::from("a"), 4500, 7800, 15000));
    monty.perts.push(PertValues::new(String::from("b"), 7000, 14300, 28900));
    assert_eq!(monty.iterate("pert"), Ok(()));
    let levels: [u64; 6] = [50_000, 80_000, 90_000, 95_000, 99_000, 99_900];
    let mut previous = i64::MIN;
    for level in levels {
        let value = monty.confidence(level).unwrap();
        assert!(previous <= value);
        previous = value;
    }
}

#[test]
fn confidence_reads_the_nearest_rank() {
    let mut monty = MonteCarlo::new(200);
    monty.perts.push(PertValues::new(String::from("a"), 4500, 7800, 15000));
    assert_eq!(monty.iterate("pert"), Ok(()));
    // two whole iterations per percent: 50% reads rank 100, 99.9% rank 200
    assert_eq!(monty.confidence(50_000), Ok(monty.estimates[100]));
    assert_eq!(monty.confidence(80_000), Ok(monty.estimates[160]));
    assert_eq!(monty.confidence(99_000), Ok(monty.estimates[198]));
    assert_eq!(
        monty.confidence(99_900),
        Err(montecarlo::SimError::IndexOutOfRange)
    );
}

#[test]
fn confidence_before_any_run_is_precondition_violation() {
    let monty = MonteCarlo::new(100);
    assert_eq!(monty.confidence(50_000), Err(SimError::PreconditionViolation));
}

#[test]
fn confidence_rank_past_totals_is_index_out_of_range() {
    let mut monty = MonteCarlo::new(100);
    monty.perts.push(PertValues::new(String::from("a"), 1000, 2000, 3000));
    assert_eq!(monty.iterate("pert"), Ok(()));
    // one whole iteration per percent; ten thousand percent asks for rank 100
    assert_eq!(monty.confidence(10_000_000), Err(SimError::IndexOutOfRange));
}

#[test]
fn invalid_mode_is_configuration_error_and_keeps_totals() {
    let mut monty = MonteCarlo::new(50);
    monty.perts.push(PertValues::new(String::from("a"), 4500, 7800, 15000));
    assert_eq!(monty.iterate("pert"), Ok(()));
    let before = monty.estimates.clone();
    assert_eq!(monty.iterate("pumpkin"), Err(SimError::ConfigurationError));
    assert_eq!(monty.estimates, before);
}

#[test]
fn risk_mode_populates_sorted_totals() {
    let mut risky = MonteCarlo::new(300);
    risky.risks.push(RiskValues::new(
        String::from("Risk 1"),
        String::from("Likely"),
        String::from("Severe"),
        10_000_000,
        22_000_000,
        43_000_000,
    ));
    risky.risks.push(RiskValues::new(
        String::from("Risk 2"),
        String::from("Unlikely"),
        String::from("Severe"),
        18_000_000,
        27_000_000,
        65_000_000,
    ));
    assert_eq!(risky.iterate("risk"), Ok(()));
    assert_eq!(risky.estimates.len(), 300);
    for w in risky.estimates.windows(2) {
        assert!(w[0] <= w[1]);
    }
}

#[test]
fn risk_totals_stay_within_contribution_envelope() {
    let mut risky = MonteCarlo::new(300);
    risky.risks.push(RiskValues::new(
        String::from("r1"),
        String::from("Likely"),
        String::from("Severe"),
        10_000_000,
        22_000_000,
        43_000_000,
    ));
    risky.risks.push(RiskValues::new(
        String::from("r2"),
        String::from("Rare"),
        String::from("Severe"),
        18_000_000,
        27_000_000,
        65_000_000,
    ));
    let upper_sum: i64 = risky.risks.iter().map(|r| r.range_upper).sum();
    assert_eq!(risky.iterate("risk"), Ok(()));
    for total in &risky.estimates {
        assert!(0 <= *total && *total <= upper_sum);
    }
}

#[test]
fn risk_mode_with_unknown_category_is_configuration_error() {
    let mut risky = MonteCarlo::new(10);
    risky.risks.push(RiskValues::new(
        String::from("Risk 1"),
        String::from("Pumpkin"),
        String::from("Severe"),
        10_000_000,
        22_000_000,
        43_000_000,
    ));
    assert_eq!(risky.iterate("risk"), Err(SimError::ConfigurationError));
    assert!(risky.estimates.is_empty());
}

#[test]
fn occurrence_decision_compares_roll_to_threshold() {
    assert!(occurs(50_000, 0));
    assert!(occurs(50_000, 49_999));
    assert!(occurs(50_000, 50_000));
    assert!(!occurs(50_000, 50_001));
    assert!(!occurs(100, 99_999));
    assert!(occurs(99_000, 0));
}

#[test]
fn certain_occurs_more_often_than_rare() {
    let monty = MonteCarlo::new(0);
    let trials = 2000;
    let mut certain_count = 0;
    let mut rare_count = 0;
    for _ in 0..trials {
        if monty.single_risk_occurrence("Certain").unwrap() {
            certain_count += 1;
        }
        if monty.single_risk_occurrence("Rare").unwrap() {
            rare_count += 1;
        }
    }
    assert!(certain_count > rare_count);
}

#[test]
fn inverted_range_collapses_to_lower_endpoint() {
    let mut monty = MonteCarlo::new(5);
    monty.perts.push(PertValues::new(String::from("odd"), 15000, 7800, 4500));
    assert!(monty.perts[0].pm_standard_dev < 0);
    assert!(monty.perts[0].range_lower > monty.perts[0].range_upper);
    let expected = monty.perts[0].range_lower;
    assert_eq!(monty.iterate("pert"), Ok(()));
    assert!(monty.estimates.iter().all(|v| *v == expected));
}

#[test]
fn rerunning_replaces_totals_from_scratch() {
    let mut monty = MonteCarlo::new(40);
    monty.perts.push(PertValues::new(String::from("a"), 4500, 7800, 15000));
    assert_eq!(monty.iterate("pert"), Ok(()));
    assert_eq!(monty.estimates.len(), 40);
    assert_eq!(monty.iterate("pert"), Ok(()));
    assert_eq!(monty.estimates.len(), 40);
}
