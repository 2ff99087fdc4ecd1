use pl_stats::game::Outcome;
use pl_stats::parse::{parse_count, parse_outcome};

#[test]
fn test_parse_count_values() {
    assert_eq!(parse_count("0"), Some(0));
    assert_eq!(parse_count("2023"), Some(2023));
    assert_eq!(parse_count("0007"), Some(7));
    assert_eq!(parse_count("18446744073709551615"), Some(usize::MAX));
}

#[test]
fn test_parse_count_rejects() {
    assert_eq!(parse_count(""), None);
    assert_eq!(parse_count("-1"), None);
    assert_eq!(parse_count("12a"), None);
    assert_eq!(parse_count(" 12"), None);
    assert_eq!(parse_count("18446744073709551616"), None);
}

#[test]
fn test_parse_outcome_codes() {
    assert_eq!(parse_outcome("H"), Some(Outcome::HomeWin));
    assert_eq!(parse_outcome("A"), Some(Outcome::AwayWin));
    assert_eq!(parse_outcome("D"), Some(Outcome::Draw));
    assert_eq!(parse_outcome("h"), None);
    assert_eq!(parse_outcome("HH"), None);
    assert_eq!(parse_outcome(""), None);
}
