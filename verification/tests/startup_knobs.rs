//! Parsing the configured severity threshold and resolving the three knobs.

use service::level::{enabled, parse_threshold, Level, Threshold};
use service::startup::{resolve_knobs, Knobs, StartupConfigError};

#[test]
fn threshold_names_parse_in_any_case() {
    assert_eq!(parse_threshold("error"), Some(Threshold::Error));
    assert_eq!(parse_threshold("WARN"), Some(Threshold::Warn));
    assert_eq!(parse_threshold("Info"), Some(Threshold::Info));
    assert_eq!(parse_threshold("dEbUg"), Some(Threshold::Debug));
    assert_eq!(parse_threshold("trace"), Some(Threshold::Trace));
    assert_eq!(parse_threshold("off"), Some(Threshold::Off));
    assert_eq!(parse_threshold("OFF"), Some(Threshold::Off));
}

#[test]
fn threshold_ranks_parse_as_numbers() {
    assert_eq!(parse_threshold("0"), Some(Threshold::Off));
    assert_eq!(parse_threshold("1"), Some(Threshold::Error));
    assert_eq!(parse_threshold("2"), Some(Threshold::Warn));
    assert_eq!(parse_threshold("3"), Some(Threshold::Info));
    assert_eq!(parse_threshold("4"), Some(Threshold::Debug));
    assert_eq!(parse_threshold("5"), Some(Threshold::Trace));
    assert_eq!(parse_threshold("+3"), Some(Threshold::Info));
    assert_eq!(parse_threshold("0005"), Some(Threshold::Trace));
}

#[test]
fn empty_threshold_means_error() {
    assert_eq!(parse_threshold(""), Some(Threshold::Error));
}

#[test]
fn unparsable_thresholds_are_rejected() {
    assert_eq!(parse_threshold("6"), None);
    assert_eq!(parse_threshold("99999999999999999999"), None);
    assert_eq!(parse_threshold("informational"), None);
    assert_eq!(parse_threshold("+off"), None);
    assert_eq!(parse_threshold("in fo"), None);
    assert_eq!(parse_threshold("-1"), None);
}

#[test]
fn thresholds_admit_by_severity() {
    assert!(enabled(Threshold::Info, Level::Error));
    assert!(enabled(Threshold::Info, Level::Warn));
    assert!(enabled(Threshold::Info, Level::Info));
    assert!(!enabled(Threshold::Info, Level::Debug));
    assert!(!enabled(Threshold::Info, Level::Trace));
    assert!(!enabled(Threshold::Off, Level::Error));
    assert!(enabled(Threshold::Trace, Level::Trace));
}

#[test]
fn knobs_resolve_when_everything_is_valid() {
    let k = resolve_knobs(true, "info", 3, 25);
    assert_eq!(
        k,
        Ok(Knobs { threshold: Threshold::Info, ceiling: 3, timeout_secs: 25 })
    );
}

#[test]
fn missing_role_selector_is_fatal_first() {
    assert_eq!(
        resolve_knobs(false, "nonsense", -2, -3),
        Err(StartupConfigError::MissingRoleSelector)
    );
}

#[test]
fn unparsable_level_is_fatal() {
    assert_eq!(
        resolve_knobs(true, "loud", 3, 25),
        Err(StartupConfigError::UnparsableLevel)
    );
}

#[test]
fn non_positive_concurrency_is_fatal() {
    assert_eq!(
        resolve_knobs(true, "info", 0, 25),
        Err(StartupConfigError::NonPositiveConcurrency)
    );
}

#[test]
fn negative_timeout_is_fatal() {
    assert_eq!(
        resolve_knobs(true, "info", 3, -1),
        Err(StartupConfigError::NegativeTimeout)
    );
}
