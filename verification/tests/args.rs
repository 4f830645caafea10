use desx::args::{parse, Args};
use desx::category_filter::CategoryFilter;

fn parse_ok(args: &[&str]) -> Args {
    parse(args).unwrap()
}

#[test]
fn no_args_is_empty() {
    assert_eq!(parse_ok(&[]), Args::default());
}

#[test]
fn category_separate_value() {
    assert_eq!(
        parse_ok(&["--category", "game"]).category_filter,
        Some(CategoryFilter::Include(vec!["game".to_string()]))
    );
}

#[test]
fn category_equals_value() {
    assert_eq!(
        parse_ok(&["--category=game"]).category_filter,
        Some(CategoryFilter::Include(vec!["game".to_string()]))
    );
}

#[test]
fn categories_alias() {
    assert_eq!(
        parse_ok(&["--categories", "game"]).category_filter,
        Some(CategoryFilter::Include(vec!["game".to_string()]))
    );
    assert_eq!(
        parse_ok(&["--categories=game"]).category_filter,
        Some(CategoryFilter::Include(vec!["game".to_string()]))
    );
}

#[test]
fn exclude_value() {
    assert_eq!(
        parse_ok(&["--category", "-game"]).category_filter,
        Some(CategoryFilter::Exclude(vec!["game".to_string()]))
    );
}

#[test]
fn exclude_value_with_equals() {
    // `--category=-game` keeps the `-game` as the value, not a new flag.
    assert_eq!(
        parse_ok(&["--category=-game"]).category_filter,
        Some(CategoryFilter::Exclude(vec!["game".to_string()]))
    );
}

#[test]
fn missing_value_is_error() {
    assert!(parse(&["--category"]).is_err());
}

#[test]
fn unknown_arg_is_error() {
    assert!(parse(&["--bogus"]).is_err());
}

#[test]
fn repeated_flag_is_error() {
    assert!(parse(&["--category", "game", "--category", "network"]).is_err());
}

#[test]
fn mixed_include_exclude_is_error() {
    assert!(parse(&["--category", "game,-network"]).is_err());
}

#[test]
fn error_messages_name_the_problem() {
    assert_eq!(parse(&["--categories"]).unwrap_err(), "--categories requires a value");
    assert_eq!(parse(&["--bogus"]).unwrap_err(), "unknown argument: --bogus");
    assert_eq!(
        parse(&["--category=game", "--categories", "x"]).unwrap_err(),
        "--category may only be given once"
    );
    assert_eq!(
        parse(&["--category", "-"]).unwrap_err(),
        "category exclusion is missing a name (got bare '-')"
    );
}

#[test]
fn missing_value_is_reported_before_repeat() {
    assert_eq!(
        parse(&["--category", "game", "--category"]).unwrap_err(),
        "--category requires a value"
    );
}

#[test]
fn equals_prefix_is_stripped_repeatedly() {
    assert_eq!(
        parse_ok(&["--category=--category=game"]).category_filter,
        Some(CategoryFilter::Include(vec!["game".to_string()]))
    );
    assert_eq!(
        parse_ok(&["--categories=--categories=-game"]).category_filter,
        Some(CategoryFilter::Exclude(vec!["game".to_string()]))
    );
    assert_eq!(
        parse_ok(&["--categories=-game"]).category_filter,
        Some(CategoryFilter::Exclude(vec!["game".to_string()]))
    );
}

#[test]
fn empty_value_gives_no_filter() {
    assert_eq!(parse_ok(&["--category="]).category_filter, None);
    assert_eq!(parse_ok(&["--category", " , "]).category_filter, None);
}

#[test]
fn value_that_looks_like_a_flag_is_a_value() {
    assert_eq!(
        parse_ok(&["--category", "--bogus"]).category_filter,
        Some(CategoryFilter::Exclude(vec!["-bogus".to_string()]))
    );
}
