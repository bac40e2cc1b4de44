use rusdirect::error::Error;
use rusdirect::options::{parse_log_level, LogLevel};

#[test]
fn verbosity_levels_map_in_order() {
    assert_eq!(parse_log_level(0), LogLevel::Error);
    assert_eq!(parse_log_level(1), LogLevel::Warn);
    assert_eq!(parse_log_level(2), LogLevel::Info);
    assert_eq!(parse_log_level(3), LogLevel::Debug);
    assert_eq!(parse_log_level(4), LogLevel::Trace);
    assert_eq!(parse_log_level(100), LogLevel::Trace);
}

#[test]
fn internal_failures_map_to_server_error() {
    assert_eq!(Error::DatabaseConnectionFailure.status_code(), 500);
    assert_eq!(Error::ExpirationCalculationFailure.status_code(), 500);
}
