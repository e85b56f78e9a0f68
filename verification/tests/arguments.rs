use sysinitd::LevelFilter;
use sysinitd::arguments::{ArgumentError, Arguments};

fn args(list: &[&str]) -> Vec<String> {
    list.iter().map(|s| s.to_string()).collect()
}

#[test]
fn parse_log_level() {
    let arguments = Arguments::try_parse_from(args(&["sysinitd", "-vv", "/"]))
        .expect("could not parse log-level (-vv) arguments");
    assert_eq!(arguments.log_level_filter(), LevelFilter::Trace);
    let arguments = Arguments::try_parse_from(args(&["sysinitd", "-v", "/"]))
        .expect("could not parse log-level (-v) arguments");
    assert_eq!(arguments.log_level_filter(), LevelFilter::Debug);
    let arguments = Arguments::try_parse_from(args(&["sysinitd", "-q", "/"]))
        .expect("could not parse log-level (-q) arguments");
    assert_eq!(arguments.log_level_filter(), LevelFilter::Warn);
    let arguments = Arguments::try_parse_from(args(&["sysinitd", "-qq", "/"]))
        .expect("could not parse log-level (-qq) arguments");
    assert_eq!(arguments.log_level_filter(), LevelFilter::Error);
    let arguments = Arguments::try_parse_from(args(&["sysinitd", "-qqq", "/"]))
        .expect("could not parse log-level (-qqq) arguments");
    assert_eq!(arguments.log_level_filter(), LevelFilter::Off);
}

#[test]
fn test_services_directories() {
    let arguments = Arguments::try_parse_from(args(&["sysinitd", "/tmp"]))
        .expect("could not parse single service-path argument");
    assert_eq!(arguments.log_level_filter(), LevelFilter::Info);
    assert_eq!(arguments.services_directories(), &vec!["/tmp".to_string()]);

    let arguments = Arguments::try_parse_from(args(&["sysinitd", "/tmp", "/usr"]))
        .expect("could not parse two service-path arguments");
    assert_eq!(
        arguments.services_directories(),
        &vec!["/tmp".to_string(), "/usr".to_string()]
    );
    let arguments = Arguments::try_parse_from(args(&["sysinitd", "/tmp", "/usr", "/etc"]))
        .expect("could not parse three service-path arguments");
    assert_eq!(
        arguments.services_directories(),
        &vec!["/tmp".to_string(), "/usr".to_string(), "/etc".to_string()]
    );
}

#[test]
fn mixed_verbosity_flags() {
    let arguments = Arguments::try_parse_from(args(&["sysinitd", "-vq", "/"]))
        .expect("could not parse mixed verbosity flags");
    assert_eq!(arguments.log_level_filter(), LevelFilter::Info);
    let arguments = Arguments::try_parse_from(args(&["sysinitd", "-v", "-q", "-q", "/"]))
        .expect("could not parse separate verbosity flags");
    assert_eq!(arguments.log_level_filter(), LevelFilter::Warn);
}

#[test]
fn unknown_flag_is_rejected() {
    let error = Arguments::try_parse_from(args(&["sysinitd", "-x", "/"]))
        .expect_err("an unknown flag must be rejected");
    assert_eq!(error, ArgumentError::UnknownFlag("-x".to_string()));
}

#[test]
fn missing_directories_are_rejected() {
    let error = Arguments::try_parse_from(args(&["sysinitd", "-v"]))
        .expect_err("arguments without a directory must be rejected");
    assert_eq!(error, ArgumentError::MissingServiceDirectories);
    let error = Arguments::try_parse_from(args(&["sysinitd"]))
        .expect_err("arguments without a directory must be rejected");
    assert_eq!(error, ArgumentError::MissingServiceDirectories);
}

#[test]
fn new_test_presets_trace_verbosity() {
    let arguments = Arguments::new_test(vec!["/tmp".to_string()]);
    assert_eq!(arguments.log_level_filter(), LevelFilter::Trace);
    assert_eq!(arguments.services_directories(), &vec!["/tmp".to_string()]);
}
