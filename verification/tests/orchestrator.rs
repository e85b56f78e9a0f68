use sysinitd::graph::DependencyGraph;
use sysinitd::orchestrator::{LifecycleEvent, Orchestrator};
use sysinitd::service::{
    Command, CommandOrSignal, Diagnosis, Meta, Restart, RestartStrategy, Service, Start,
    Termination,
};
use sysinitd::version::Version;

fn record(id: &str, dependencies: &[&str]) -> Service {
    Service {
        meta: Meta { version: Version { major: 1, minor: 0, patch: 0 } },
        id: id.to_string(),
        start: Start {
            command: Command { command: format!("/usr/bin/{id}"), arguments: None },
            user: None,
            dependencies: if dependencies.is_empty() {
                None
            } else {
                Some(dependencies.iter().map(|d| d.to_string()).collect())
            },
            delay: None,
        },
        restart: Restart { strategy: RestartStrategy::Never, attempts: 0 },
        termination: None,
        environment: None,
        log: None,
        diagnosis: Diagnosis::none(),
    }
}

/// Indices: a = 0, b = 1, c = 2 in the loaded order.
fn three_services() -> Orchestrator {
    let services = vec![
        record("a", &[]),
        record("b", &["a"]),
        record("c", &["a", "b"]),
    ];
    let graph = DependencyGraph::build(&services).expect("the graph must validate");
    Orchestrator::new(graph)
}

#[test]
fn three_records_start_in_dependency_order() {
    let mut o = three_services();
    // Nothing that waits on an unready dependency may start.
    assert!(!o.start_service(1), "b must wait for a");
    assert!(!o.start_service(2), "c must wait for a and b");
    assert!(o.start_service(0), "a has no dependencies");
    assert!(!o.start_service(2), "c must wait until a signals readiness");
    assert!(o.signal_ready(0));
    // Once a is ready, b and c's gate differ: b may start, c still
    // waits for b.
    assert!(o.start_service(1));
    assert!(!o.start_service(2), "c must wait for b's readiness");
    assert!(o.signal_ready(1));
    assert!(o.start_service(2));
    assert!(o.signal_ready(2));
    assert!(o.startup_successful());
    assert_eq!(
        o.events,
        vec![
            LifecycleEvent::Spawned(0),
            LifecycleEvent::Ready(0),
            LifecycleEvent::Spawned(1),
            LifecycleEvent::Ready(1),
            LifecycleEvent::Spawned(2),
            LifecycleEvent::Ready(2),
        ]
    );
}

#[test]
fn siblings_may_start_concurrently_once_parent_is_ready() {
    let mut o = three_services();
    assert!(o.start_service(0));
    assert!(o.signal_ready(0));
    // b is released by a's readiness alone; c genuinely needs b too.
    assert!(o.start_service(1));
    // b and c are not ordered against each other once both gates open.
    assert!(o.signal_ready(1));
    assert!(o.start_service(2));
}

#[test]
fn shutdown_waits_for_dependents() {
    let mut o = three_services();
    assert!(o.start_service(0));
    assert!(o.signal_ready(0));
    assert!(o.start_service(1));
    assert!(o.signal_ready(1));
    assert!(o.start_service(2));
    assert!(o.signal_ready(2));
    // a is depended on by b and c: it must not be signaled first.
    assert!(!o.signal_termination(0));
    assert!(!o.signal_termination(1), "b still has the dependent c");
    assert!(o.signal_termination(2), "c has no dependents");
    assert!(o.mark_stopped(2));
    assert!(o.signal_termination(1));
    assert!(!o.signal_termination(0), "b has not stopped yet");
    assert!(o.mark_stopped(1));
    assert!(o.signal_termination(0));
    assert!(o.mark_stopped(0));
    assert!(o.shutdown_complete());
}

#[test]
fn termination_before_targets_are_honoured() {
    let mut one = record("one", &[]);
    one.termination = Some(Termination {
        command_or_signal: CommandOrSignal::Signal("SIGTERM".to_string()),
        before: Some(vec!["two".to_string()]),
        delay: None,
    });
    let services = vec![one, record("two", &[])];
    let graph = DependencyGraph::build(&services).expect("the graph must validate");
    let mut o = Orchestrator::new(graph);
    // No dependency edges: both may be signaled, but `one` lists `two`
    // in termination.before, so `two` must stop first.
    assert!(!o.signal_termination(0));
    assert!(o.signal_termination(1));
    assert!(o.mark_stopped(1));
    assert!(o.signal_termination(0));
}

#[test]
fn failed_dependency_blocks_descendants() {
    let mut o = three_services();
    assert!(o.mark_failed(0));
    let (blocked, cause) = o.find_blocked().expect("b and c are blocked");
    assert_eq!(cause, 0);
    assert!(blocked == 1 || blocked == 2);
    assert!(o.mark_failed(blocked));
    let (blocked2, _) = o.find_blocked().expect("one more service is blocked");
    assert_ne!(blocked2, blocked);
    assert!(o.mark_failed(blocked2));
    assert!(o.find_blocked().is_none());
    assert!(!o.startup_successful());
}

#[test]
fn start_service_is_recorded_once() {
    let mut o = three_services();
    assert!(o.start_service(0));
    assert!(!o.start_service(0), "a spawn is released only once");
    assert!(o.signal_ready(0));
    assert!(!o.signal_ready(0), "readiness is a one-time signal");
    assert_eq!(o.events.len(), 2);
}
