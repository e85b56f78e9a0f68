use sysinitd::graph::{DependencyError, DependencyGraph};
use sysinitd::service::{
    Command, Diagnosis, Meta, Restart, RestartStrategy, Service, Start,
};
use sysinitd::version::Version;

fn record(id: &str, dependencies: &[&str]) -> Service {
    Service {
        meta: Meta { version: Version { major: 1, minor: 0, patch: 0 } },
        id: id.to_string(),
        start: Start {
            command: Command { command: format!("/usr/bin/{id}"), arguments: None },
            user: None,
            dependencies: if dependencies.is_empty() {
                None
            } else {
                Some(dependencies.iter().map(|d| d.to_string()).collect())
            },
            delay: None,
        },
        restart: Restart { strategy: RestartStrategy::Never, attempts: 0 },
        termination: None,
        environment: None,
        log: None,
        diagnosis: Diagnosis::none(),
    }
}

#[test]
fn dependencies_circle_big() {
    let services = vec![
        record("service-a", &["service-b"]),
        record("service-b", &["service-c"]),
        record("service-c", &["service-d"]),
        record("service-d", &["service-a"]),
    ];
    let error = DependencyGraph::build(&services).expect_err("the cycle must be detected");
    assert!(matches!(error, DependencyError::CyclicDependency(..)));
}

#[test]
fn dependencies_circle_small() {
    let services = vec![
        record("service-x", &["service-y"]),
        record("service-y", &["service-x"]),
    ];
    let error = DependencyGraph::build(&services).expect_err("the cycle must be detected");
    match &error {
        DependencyError::CyclicDependency(trace) => {
            assert_eq!(trace, "service-x -> service-y -> service-x");
        }
        other => panic!("expected a cycle, got {other:?}"),
    }
}

#[test]
fn dependencies_circle_self() {
    let services = vec![record("service-a", &["service-a"])];
    let error = DependencyGraph::build(&services).expect_err("the self-cycle must be detected");
    assert_eq!(
        error,
        DependencyError::CyclicDependency(String::from(
            "service-a <-> service-a ('service-a' lists itself as a dependency)"
        ))
    );
}

#[test]
fn dependencies_nonexistent() {
    let services = vec![record("service-a", &["service-b"])];
    let error = DependencyGraph::build(&services).expect_err("the dangling id must be detected");
    assert_eq!(
        error,
        DependencyError::NonExistentDependency(
            String::from("service-a"),
            String::from("service-b")
        )
    );
}

#[test]
fn services_non_unique_id() {
    let services = vec![record("service-a", &[]), record("service-a", &[])];
    let error = DependencyGraph::build(&services).expect_err("the duplicate must be detected");
    assert_eq!(error, DependencyError::DuplicateServiceId(String::from("service-a")));
    assert_eq!(
        error.message(),
        "Service with ID 'service-a' defined more than once"
    );
}

#[test]
fn duplicate_is_found_in_either_load_order() {
    let services = vec![record("b", &[]), record("service-a", &[]), record("service-a", &[])];
    let error = DependencyGraph::build(&services).expect_err("the duplicate must be detected");
    assert_eq!(error, DependencyError::DuplicateServiceId(String::from("service-a")));
}

#[test]
fn error_messages_render() {
    let error = DependencyError::NonExistentDependency(
        String::from("service-a"),
        String::from("service-b"),
    );
    assert_eq!(
        error.message(),
        "Dependency 'service-b' of service 'service-a' does not exist"
    );
    let error = DependencyError::CyclicDependency(String::from("a -> b -> a"));
    assert_eq!(error.message(), "Your dependencies form a cycle: a -> b -> a");
}

#[test]
fn valid_graph_orders_dependencies_first() {
    let services = vec![
        record("c", &["a", "b"]),
        record("a", &[]),
        record("b", &["a"]),
    ];
    let graph = DependencyGraph::build(&services).expect("the graph must validate");
    assert_eq!(graph.ids, vec!["c".to_string(), "a".to_string(), "b".to_string()]);
    // Every declared edge is respected by the topological ordering.
    for (i, deps) in graph.deps.iter().enumerate() {
        for &d in deps {
            assert!(graph.rank[d] < graph.rank[i], "dependency must come first");
        }
    }
    // The ordering covers all three services.
    assert_eq!(graph.order.len(), 3);
}

#[test]
fn diamond_is_not_a_cycle() {
    let services = vec![
        record("top", &["left", "right"]),
        record("left", &["base"]),
        record("right", &["base"]),
        record("base", &[]),
    ];
    let graph = DependencyGraph::build(&services).expect("a diamond must validate");
    assert_eq!(graph.order.len(), 4);
    for (i, deps) in graph.deps.iter().enumerate() {
        for &d in deps {
            assert!(graph.rank[d] < graph.rank[i]);
        }
    }
}

#[test]
fn dangling_before_reference_is_detected() {
    let mut svc = record("service-a", &[]);
    svc.termination = Some(sysinitd::service::Termination {
        command_or_signal: sysinitd::service::CommandOrSignal::Signal("SIGTERM".to_string()),
        before: Some(vec!["service-z".to_string()]),
        delay: None,
    });
    let services = vec![svc];
    let error = DependencyGraph::build(&services).expect_err("the dangling target must be found");
    assert_eq!(
        error,
        DependencyError::NonExistentDependency(
            String::from("service-a"),
            String::from("service-z")
        )
    );
}
