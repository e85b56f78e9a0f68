use sysinitd::service::{
    health_severity, restart_strategy_from, Command, Delay, Diagnosis, Error, Meta, Restart,
    RestartStrategy, Service, Start,
};
use sysinitd::version::{semver_version, Version};

#[test]
fn semver_version_parses_components() {
    assert_eq!(
        semver_version("1.2.3"),
        Some(Version { major: 1, minor: 2, patch: 3 })
    );
    assert_eq!(
        semver_version("0.1.0-alpha.1"),
        Some(Version { major: 0, minor: 1, patch: 0 })
    );
    assert_eq!(semver_version("not-a-version"), None);
    assert_eq!(semver_version("1.2"), None);
}

#[test]
fn restart_strategy_tags() {
    assert_eq!(
        restart_strategy_from(&"never".to_string()),
        Some(RestartStrategy::Never)
    );
    assert_eq!(
        restart_strategy_from(&"on-failure".to_string()),
        Some(RestartStrategy::OnFailure)
    );
    assert_eq!(
        restart_strategy_from(&"always".to_string()),
        Some(RestartStrategy::Always)
    );
    assert_eq!(restart_strategy_from(&"sometimes".to_string()), None);
}

#[test]
fn getters_hand_out_the_fields() {
    let service = Service {
        meta: Meta { version: Version { major: 1, minor: 0, patch: 0 } },
        id: "db".to_string(),
        start: Start {
            command: Command { command: "/usr/bin/db".to_string(), arguments: None },
            user: Some("postgres".to_string()),
            dependencies: Some(vec!["net".to_string()]),
            delay: Some(Delay { secs: 1, nanos: 0 }),
        },
        restart: Restart { strategy: RestartStrategy::OnFailure, attempts: 2 },
        termination: None,
        environment: None,
        log: None,
        diagnosis: Diagnosis::none(),
    };
    assert_eq!(service.id(), &"db".to_string());
    assert_eq!(
        service.start().dependencies,
        Some(vec!["net".to_string()])
    );
}

#[test]
fn diagnosis_ladder_reports_first_failing_level() {
    // level1 passed, level2 not configured, level3 failed: severity 3
    // (index 2, counted from zero).
    let results = vec![Some(0), None, Some(2), Some(1), None];
    assert_eq!(health_severity(&results), Some(2));
    // All configured checks pass.
    let results = vec![Some(0), Some(0), None, None, Some(0)];
    assert_eq!(health_severity(&results), None);
    // Nothing configured at all.
    let results = vec![None, None, None, None, None];
    assert_eq!(health_severity(&results), None);
    // The most invasive check alone fails.
    let results = vec![Some(0), Some(0), Some(0), Some(0), Some(255)];
    assert_eq!(health_severity(&results), Some(4));
}

#[test]
fn diagnosis_levels_are_ordered_least_invasive_first() {
    let d = Diagnosis {
        level1: Some(Command { command: "ping".to_string(), arguments: None }),
        level2: None,
        level3: None,
        level4: None,
        level5: Some(Command { command: "restart-probe".to_string(), arguments: None }),
    };
    assert!(d.level(1).is_some());
    assert!(d.level(2).is_none());
    assert!(d.level(5).is_some());
}

#[test]
fn exit_error_carries_service_and_status() {
    let e = Error { service_name: "db".to_string(), exit_status: 42 };
    assert_eq!(e.service_name, "db");
    assert_eq!(e.exit_status, 42);
    assert_eq!(e.message(), "Service db failed (exit status: 42)");
    let e = Error { service_name: "cache".to_string(), exit_status: 0 };
    assert_eq!(e.message(), "Service cache failed (exit status: 0)");
    let e = Error { service_name: "net".to_string(), exit_status: -137 };
    assert_eq!(e.message(), "Service net failed (exit status: -137)");
}
