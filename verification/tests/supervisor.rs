use sysinitd::service::{Restart, RestartStrategy};
use sysinitd::supervisor::{
    aggregate, ServiceError, Supervisor, SupervisorAction, SupervisorEvent, SupervisorState,
};

fn fresh(strategy: RestartStrategy, attempts: u64) -> Supervisor {
    Supervisor::new(&Restart { strategy, attempts })
}

#[test]
fn never_policy_fails_without_second_spawn() {
    let mut s = fresh(RestartStrategy::Never, 0);
    assert_eq!(s.step(SupervisorEvent::DependenciesReady), SupervisorAction::Spawn);
    assert_eq!(s.state, SupervisorState::Starting);
    assert_eq!(s.step(SupervisorEvent::SpawnSucceeded), SupervisorAction::EmitReady);
    assert_eq!(s.state, SupervisorState::Running);
    let action = s.step(SupervisorEvent::ProcessExited(1));
    assert_eq!(s.state, SupervisorState::Failed);
    assert_ne!(action, SupervisorAction::Respawn);
    assert_ne!(action, SupervisorAction::Spawn);
    assert_eq!(s.last_exit, Some(1));
}

#[test]
fn on_failure_two_attempts_three_spawns_then_failed() {
    let mut s = fresh(RestartStrategy::OnFailure, 2);
    let mut spawns = 0;
    let mut states = vec![s.state];
    let events = [
        SupervisorEvent::DependenciesReady,
        SupervisorEvent::SpawnSucceeded,
        SupervisorEvent::ProcessExited(7),
        SupervisorEvent::RestartDispatched,
        SupervisorEvent::SpawnSucceeded,
        SupervisorEvent::ProcessExited(9),
        SupervisorEvent::RestartDispatched,
        SupervisorEvent::SpawnSucceeded,
        SupervisorEvent::ProcessExited(3),
    ];
    for e in events {
        let a = s.step(e);
        if a == SupervisorAction::Spawn {
            spawns += 1;
        }
        states.push(s.state);
    }
    // One initial spawn release plus two dispatched restarts.
    assert_eq!(spawns, 3);
    assert_eq!(s.state, SupervisorState::Failed);
    assert_eq!(s.attempts, 2);
    let restarting: Vec<&SupervisorState> = states
        .iter()
        .filter(|st| **st == SupervisorState::Restarting)
        .collect();
    assert_eq!(restarting.len(), 2);
}

#[test]
fn on_failure_forgives_clean_exit() {
    let mut s = fresh(RestartStrategy::OnFailure, 2);
    s.step(SupervisorEvent::DependenciesReady);
    s.step(SupervisorEvent::SpawnSucceeded);
    let action = s.step(SupervisorEvent::ProcessExited(0));
    assert_eq!(s.state, SupervisorState::Stopped);
    assert_eq!(action, SupervisorAction::Wait);
    assert_eq!(s.attempts, 0);
}

#[test]
fn always_policy_restarts_clean_exit() {
    let mut s = fresh(RestartStrategy::Always, 5);
    s.step(SupervisorEvent::DependenciesReady);
    s.step(SupervisorEvent::SpawnSucceeded);
    let action = s.step(SupervisorEvent::ProcessExited(0));
    assert_eq!(s.state, SupervisorState::Restarting);
    assert_eq!(action, SupervisorAction::Respawn);
    assert_eq!(s.attempts, 1);
}

#[test]
fn spawn_failure_respects_policy() {
    let mut s = fresh(RestartStrategy::Never, 3);
    s.step(SupervisorEvent::DependenciesReady);
    s.step(SupervisorEvent::SpawnFailed);
    assert_eq!(s.state, SupervisorState::Failed);

    let mut s = fresh(RestartStrategy::OnFailure, 1);
    s.step(SupervisorEvent::DependenciesReady);
    let action = s.step(SupervisorEvent::SpawnFailed);
    assert_eq!(s.state, SupervisorState::Restarting);
    assert_eq!(action, SupervisorAction::Respawn);
    s.step(SupervisorEvent::RestartDispatched);
    s.step(SupervisorEvent::SpawnFailed);
    assert_eq!(s.state, SupervisorState::Failed);
}

#[test]
fn termination_paths() {
    // Graceful stop from Running.
    let mut s = fresh(RestartStrategy::Always, 1);
    s.step(SupervisorEvent::DependenciesReady);
    s.step(SupervisorEvent::SpawnSucceeded);
    let action = s.step(SupervisorEvent::TerminationRequested);
    assert_eq!(action, SupervisorAction::Terminate);
    assert_eq!(s.state, SupervisorState::Stopping);
    s.step(SupervisorEvent::TerminationCompleted);
    assert_eq!(s.state, SupervisorState::Stopped);
    assert!(!s.forced);

    // Escalation after the grace period.
    let mut s = fresh(RestartStrategy::Always, 1);
    s.step(SupervisorEvent::DependenciesReady);
    s.step(SupervisorEvent::SpawnSucceeded);
    s.step(SupervisorEvent::TerminationRequested);
    let action = s.step(SupervisorEvent::TerminationTimedOut);
    assert_eq!(action, SupervisorAction::ForceKill);
    assert_eq!(s.state, SupervisorState::Stopped);
    assert!(s.forced);

    // Cancellation before the service ever started.
    let mut s = fresh(RestartStrategy::Always, 1);
    let action = s.step(SupervisorEvent::TerminationRequested);
    assert_eq!(action, SupervisorAction::Wait);
    assert_eq!(s.state, SupervisorState::Stopped);
    assert!(s.cancelled);
    assert!(!s.ever_running);
}

#[test]
fn blocked_dependency_fails_pending_service() {
    let mut s = fresh(RestartStrategy::Always, 1);
    s.step(SupervisorEvent::DependencyFailed);
    assert_eq!(s.state, SupervisorState::Failed);
    assert!(!s.ever_running);
}

#[test]
fn unexpected_events_change_nothing() {
    let mut s = fresh(RestartStrategy::Never, 0);
    let before = s;
    assert_eq!(s.step(SupervisorEvent::SpawnSucceeded), SupervisorAction::Wait);
    assert_eq!(s, before);
    s.step(SupervisorEvent::DependenciesReady);
    let before = s;
    assert_eq!(s.step(SupervisorEvent::ProcessExited(1)), SupervisorAction::Wait);
    assert_eq!(s, before);
}

#[test]
fn aggregate_success_and_failures() {
    let outcomes: Vec<Option<ServiceError>> = vec![None, None, None];
    assert!(aggregate(outcomes).is_ok());

    let outcomes = vec![
        None,
        Some(ServiceError::UnexpectedExit("b".to_string(), 3)),
        Some(ServiceError::TerminationTimeout("c".to_string())),
        None,
        Some(ServiceError::BlockedByDependency("e".to_string(), "b".to_string())),
    ];
    let failures = aggregate(outcomes).expect_err("failures must aggregate");
    assert_eq!(
        failures,
        vec![
            ServiceError::UnexpectedExit("b".to_string(), 3),
            ServiceError::TerminationTimeout("c".to_string()),
            ServiceError::BlockedByDependency("e".to_string(), "b".to_string()),
        ]
    );
}
