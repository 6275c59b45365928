use montecarlo::filehandler::{prep_strings_level_one, prep_strings_level_two, splitter};
use montecarlo::fixed::parse_milli;
use montecarlo::SimError;

#[test]
fn parse_plain_and_fractional_decimals() {
    assert_eq!(parse_milli("4.5"), Some(4500));
    assert_eq!(parse_milli("7.8"), Some(7800));
    assert_eq!(parse_milli("15.0"), Some(15000));
    assert_eq!(parse_milli("3"), Some(3000));
    assert_eq!(parse_milli("0.1"), Some(100));
    assert_eq!(parse_milli("+2.25"), Some(2250));
    assert_eq!(parse_milli("-2.75"), Some(-2750));
    assert_eq!(parse_milli(".5"), Some(500));
    assert_eq!(parse_milli("12."), Some(12000));
}

#[test]
fn parse_truncates_past_the_third_fractional_digit() {
    assert_eq!(parse_milli("1.0005"), Some(1000));
    assert_eq!(parse_milli("1.9999"), Some(1999));
}

#[test]
fn parse_rejects_malformed_or_oversized_text() {
    assert_eq!(parse_milli(""), None);
    assert_eq!(parse_milli("."), None);
    assert_eq!(parse_milli("-"), None);
    assert_eq!(parse_milli("pumpkin"), None);
    assert_eq!(parse_milli("1.2.3"), None);
    assert_eq!(parse_milli("1 2"), None);
    assert_eq!(parse_milli("2000000000"), None);
}

#[test]
fn splitter_trims_each_piece() {
    let pieces = splitter(" a , b,c ", ',');
    assert_eq!(pieces, vec!["a".to_string(), "b".to_string(), "c".to_string()]);
}

#[test]
fn splitter_keeps_empty_pieces() {
    let pieces = splitter("x,,y", ',');
    assert_eq!(pieces, vec!["x".to_string(), "".to_string(), "y".to_string()]);
}

#[test]
fn level_one_splits_lines_and_drops_carriage_returns() {
    let lines = prep_strings_level_one("first\r\nsecond\nthird");
    assert_eq!(
        lines,
        vec!["first".to_string(), "second".to_string(), "third".to_string()]
    );
}

#[test]
fn level_two_builds_one_estimate_per_line() {
    let content = "Bertie, 4.5, 7.8, 15.0\nJoanie, 7.0, 14.3, 28.9";
    let monty = prep_strings_level_two(content, 2, 3, 4, 1, ',', 75).unwrap();
    assert_eq!(monty.iterations, 75);
    assert_eq!(monty.perts.len(), 2);
    assert!(monty.risks.is_empty());
    assert!(monty.estimates.is_empty());
    assert_eq!(monty.perts[0].name, "Bertie");
    assert_eq!(monty.perts[0].optimistic, 4500);
    assert_eq!(monty.perts[0].most_likely, 7800);
    assert_eq!(monty.perts[0].pessimistic, 15000);
    assert_eq!(monty.perts[0].pert_estimate, 8450);
    assert_eq!(monty.perts[1].name, "Joanie");
    assert_eq!(monty.perts[1].optimistic, 7000);
}

#[test]
fn level_two_respects_column_configuration() {
    let content = "10.0, Archie, 28.0, 13.0";
    let monty = prep_strings_level_two(content, 4, 3, 1, 2, ',', 5).unwrap();
    assert_eq!(monty.perts[0].name, "Archie");
    assert_eq!(monty.perts[0].optimistic, 13000);
    assert_eq!(monty.perts[0].most_likely, 28000);
    assert_eq!(monty.perts[0].pessimistic, 10000);
}

#[test]
fn level_two_rejects_unreadable_estimate_cell() {
    let content = "Bertie, 4.5, oops, 15.0";
    let result = prep_strings_level_two(content, 2, 3, 4, 1, ',', 10);
    assert_eq!(result.err(), Some(SimError::ConfigurationError));
}

#[test]
fn level_two_rejects_missing_column() {
    let content = "Bertie, 4.5";
    let result = prep_strings_level_two(content, 2, 3, 4, 1, ',', 10);
    assert_eq!(result.err(), Some(SimError::ConfigurationError));
}

#[test]
fn level_two_feeds_a_runnable_engine() {
    let content = "a, 4.5, 7.8, 15.0\nb, 7.0, 14.3, 28.9";
    let mut monty = prep_strings_level_two(content, 2, 3, 4, 1, ',', 120).unwrap();
    assert_eq!(monty.iterate("pert"), Ok(()));
    assert_eq!(monty.estimates.len(), 120);
    let low = monty.confidence(50_000).unwrap();
    let high = monty.confidence(99_000).unwrap();
    assert!(low <= high);
}
