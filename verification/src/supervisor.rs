//! The per-service supervision state machine: spawn, exit monitoring,
//! restart-policy evaluation and termination handling, as one total
//! transition function from state and event to state and action.

use vstd::prelude::*;
use crate::service::{Restart, RestartStrategy};

verus! {

/// The lifecycle states of one supervised service.
#[derive(Clone, Copy, Debug, PartialEq, Eq, Structural)]
pub enum SupervisorState {
    Pending,
    Starting,
    Running,
    Restarting,
    Stopping,
    Stopped,
    Failed,
}

/// What the outside world reports to a supervisor.
#[derive(Clone, Copy, Debug, PartialEq, Eq, Structural)]
pub enum SupervisorEvent {
    /// Every direct dependency has signaled readiness.
    DependenciesReady,
    /// A transitive dependency can never become ready.
    DependencyFailed,
    /// The operating-system process was created.
    SpawnSucceeded,
    /// Process creation itself failed.
    SpawnFailed,
    /// The monitored process exited with this status code.
    ProcessExited(i32),
    /// A restart that was decided on is now carried out.
    RestartDispatched,
    /// The orchestrator asks this service to stop.
    TerminationRequested,
    /// The termination procedure completed in time.
    TerminationCompleted,
    /// The grace period elapsed without the process exiting.
    TerminationTimedOut,
}

/// What the supervisor asks the outside world to do next.
#[derive(Clone, Copy, Debug, PartialEq, Eq, Structural)]
pub enum SupervisorAction {
    /// Nothing to do; keep waiting for the next event.
    Wait,
    /// Apply the startup delay, if any, then spawn the process.
    Spawn,
    /// Dispatch the decided restart.
    Respawn,
    /// Signal readiness to every dependent.
    EmitReady,
    /// Apply the termination descriptor: run the shutdown command or
    /// deliver the configured signal, after the termination delay.
    Terminate,
    /// Escalate to a forced kill.
    ForceKill,
}

/// The supervised process: current state, restart bookkeeping, and
/// what happened to it so far.
#[derive(Clone, Copy, Debug, PartialEq, Eq, Structural)]
pub struct Supervisor {
    pub state: SupervisorState,
    pub strategy: RestartStrategy,
    pub max_attempts: u64,
    /// Restart attempts consumed so far.
    pub attempts: u64,
    /// The service reached `Running` at least once.
    pub ever_running: bool,
    /// Shutdown was requested before the service ever started.
    pub cancelled: bool,
    /// Termination had to be escalated to a forced kill.
    pub forced: bool,
    /// The status code of the most recent exit.
    pub last_exit: Option<i32>,
}

/// Whether an exit with this status asks for a restart under the
/// supervisor's policy: `always` forgives nothing and nothing counts
/// as finished; `on-failure` forgives a zero status; `never` never
/// restarts.
pub open spec fn wants_restart(strategy: RestartStrategy, code: i32) -> bool {
    match strategy {
        RestartStrategy::Never => false,
        RestartStrategy::OnFailure => code != 0,
        RestartStrategy::Always => true,
    }
}

/// The state-and-event pairs the machine acts on; every other pair
/// leaves the supervisor unchanged.
pub open spec fn spec_handled(s: Supervisor, e: SupervisorEvent) -> bool {
    match s.state {
        SupervisorState::Pending => e is DependenciesReady || e is TerminationRequested
            || e is DependencyFailed,
        SupervisorState::Starting => e is SpawnSucceeded || e is SpawnFailed
            || e is TerminationRequested,
        SupervisorState::Running => e matches SupervisorEvent::ProcessExited(_)
            || e is TerminationRequested,
        SupervisorState::Restarting => e is RestartDispatched || e is TerminationRequested,
        SupervisorState::Stopping => e is TerminationCompleted || e is TerminationTimedOut,
        SupervisorState::Stopped => false,
        SupervisorState::Failed => false,
    }
}

/// The transition function of the supervision state machine.
pub open spec fn spec_step(s: Supervisor, e: SupervisorEvent) -> (Supervisor, SupervisorAction) {
    match (s.state, e) {
        (SupervisorState::Pending, SupervisorEvent::DependenciesReady) => (
            Supervisor { state: SupervisorState::Starting, ..s },
            SupervisorAction::Spawn,
        ),
        (SupervisorState::Pending, SupervisorEvent::TerminationRequested) => (
            Supervisor { state: SupervisorState::Stopped, cancelled: true, ..s },
            SupervisorAction::Wait,
        ),
        (SupervisorState::Pending, SupervisorEvent::DependencyFailed) => (
            Supervisor { state: SupervisorState::Failed, ..s },
            SupervisorAction::Wait,
        ),
        (SupervisorState::Starting, SupervisorEvent::SpawnSucceeded) => (
            Supervisor { state: SupervisorState::Running, ever_running: true, ..s },
            SupervisorAction::EmitReady,
        ),
        (SupervisorState::Starting, SupervisorEvent::SpawnFailed) => {
            if s.strategy is Never {
                (Supervisor { state: SupervisorState::Failed, ..s }, SupervisorAction::Wait)
            } else if s.attempts < s.max_attempts {
                (
                    Supervisor {
                        state: SupervisorState::Restarting,
                        attempts: (s.attempts + 1) as u64,
                        ..s
                    },
                    SupervisorAction::Respawn,
                )
            } else {
                (Supervisor { state: SupervisorState::Failed, ..s }, SupervisorAction::Wait)
            }
        },
        (SupervisorState::Running, SupervisorEvent::ProcessExited(code)) => {
            let exited = Supervisor { last_exit: Some(code), ..s };
            if !wants_restart(s.strategy, code) {
                if code == 0 {
                    (
                        Supervisor { state: SupervisorState::Stopped, ..exited },
                        SupervisorAction::Wait,
                    )
                } else {
                    (
                        Supervisor { state: SupervisorState::Failed, ..exited },
                        SupervisorAction::Wait,
                    )
                }
            } else if s.attempts < s.max_attempts {
                (
                    Supervisor {
                        state: SupervisorState::Restarting,
                        attempts: (s.attempts + 1) as u64,
                        ..exited
                    },
                    SupervisorAction::Respawn,
                )
            } else {
                (Supervisor { state: SupervisorState::Failed, ..exited }, SupervisorAction::Wait)
            }
        },
        (SupervisorState::Restarting, SupervisorEvent::RestartDispatched) => (
            Supervisor { state: SupervisorState::Starting, ..s },
            SupervisorAction::Spawn,
        ),
        (SupervisorState::Starting, SupervisorEvent::TerminationRequested) => (
            Supervisor { state: SupervisorState::Stopping, ..s },
            SupervisorAction::Terminate,
        ),
        (SupervisorState::Running, SupervisorEvent::TerminationRequested) => (
            Supervisor { state: SupervisorState::Stopping, ..s },
            SupervisorAction::Terminate,
        ),
        (SupervisorState::Restarting, SupervisorEvent::TerminationRequested) => (
            Supervisor { state: SupervisorState::Stopping, ..s },
            SupervisorAction::Terminate,
        ),
        (SupervisorState::Stopping, SupervisorEvent::TerminationCompleted) => (
            Supervisor { state: SupervisorState::Stopped, ..s },
            SupervisorAction::Wait,
        ),
        (SupervisorState::Stopping, SupervisorEvent::TerminationTimedOut) => (
            Supervisor { state: SupervisorState::Stopped, forced: true, ..s },
            SupervisorAction::ForceKill,
        ),
        _ => (s, SupervisorAction::Wait),
    }
}

impl Supervisor {
    /// A fresh supervisor for a service with this restart policy:
    /// pending, with no attempt consumed and nothing recorded.
    pub fn new(restart: &Restart) -> (r: Supervisor)
        ensures
            r == (Supervisor {
                state: SupervisorState::Pending,
                strategy: restart.strategy,
                max_attempts: restart.attempts,
                attempts: 0,
                ever_running: false,
                cancelled: false,
                forced: false,
                last_exit: None,
            }),
    {
        Supervisor {
            state: SupervisorState::Pending,
            strategy: restart.strategy,
            max_attempts: restart.attempts,
            attempts: 0,
            ever_running: false,
            cancelled: false,
            forced: false,
            last_exit: None,
        }
    }

    /// Feeds one event to the machine; yields the action the caller
    /// must carry out. Every transition follows `spec_step`; an event
    /// that the current state does not act on changes nothing.
    pub fn step(&mut self, event: SupervisorEvent) -> (a: SupervisorAction)
        ensures
            (*final(self), a) == spec_step(*old(self), event),
            !spec_handled(*old(self), event) ==> *final(self) == *old(self)
                && a == SupervisorAction::Wait,
            final(self).strategy == old(self).strategy,
            final(self).max_attempts == old(self).max_attempts,
    {
        match (self.state, event) {
            (SupervisorState::Pending, SupervisorEvent::DependenciesReady) => {
                self.state = SupervisorState::Starting;
                SupervisorAction::Spawn
            },
            (SupervisorState::Pending, SupervisorEvent::TerminationRequested) => {
                self.state = SupervisorState::Stopped;
                self.cancelled = true;
                SupervisorAction::Wait
            },
            (SupervisorState::Pending, SupervisorEvent::DependencyFailed) => {
                self.state = SupervisorState::Failed;
                SupervisorAction::Wait
            },
            (SupervisorState::Starting, SupervisorEvent::SpawnSucceeded) => {
                self.state = SupervisorState::Running;
                self.ever_running = true;
                SupervisorAction::EmitReady
            },
            (SupervisorState::Starting, SupervisorEvent::SpawnFailed) => {
                if matches!(self.strategy, RestartStrategy::Never) {
                    self.state = SupervisorState::Failed;
                    SupervisorAction::Wait
                } else if self.attempts < self.max_attempts {
                    self.state = SupervisorState::Restarting;
                    self.attempts = self.attempts + 1;
                    SupervisorAction::Respawn
                } else {
                    self.state = SupervisorState::Failed;
                    SupervisorAction::Wait
                }
            },
            (SupervisorState::Running, SupervisorEvent::ProcessExited(code)) => {
                self.last_exit = Some(code);
                let wants = match self.strategy {
                    RestartStrategy::Never => false,
                    RestartStrategy::OnFailure => code != 0,
                    RestartStrategy::Always => true,
                };
                if !wants {
                    if code == 0 {
                        self.state = SupervisorState::Stopped;
                    } else {
                        self.state = SupervisorState::Failed;
                    }
                    SupervisorAction::Wait
                } else if self.attempts < self.max_attempts {
                    self.state = SupervisorState::Restarting;
                    self.attempts = self.attempts + 1;
                    SupervisorAction::Respawn
                } else {
                    self.state = SupervisorState::Failed;
                    SupervisorAction::Wait
                }
            },
            (SupervisorState::Restarting, SupervisorEvent::RestartDispatched) => {
                self.state = SupervisorState::Starting;
                SupervisorAction::Spawn
            },
            (SupervisorState::Starting, SupervisorEvent::TerminationRequested) => {
                self.state = SupervisorState::Stopping;
                SupervisorAction::Terminate
            },
            (SupervisorState::Running, SupervisorEvent::TerminationRequested) => {
                self.state = SupervisorState::Stopping;
                SupervisorAction::Terminate
            },
            (SupervisorState::Restarting, SupervisorEvent::TerminationRequested) => {
                self.state = SupervisorState::Stopping;
                SupervisorAction::Terminate
            },
            (SupervisorState::Stopping, SupervisorEvent::TerminationCompleted) => {
                self.state = SupervisorState::Stopped;
                SupervisorAction::Wait
            },
            (SupervisorState::Stopping, SupervisorEvent::TerminationTimedOut) => {
                self.state = SupervisorState::Stopped;
                self.forced = true;
                SupervisorAction::ForceKill
            },
            _ => SupervisorAction::Wait,
        }
    }
}

/// A service under the `never` policy whose process exits non-zero
/// moves straight to `Failed`: no restart is dispatched and no second
/// spawn happens.
pub proof fn lemma_never_policy_fails_directly(s: Supervisor, code: i32)
    requires
        s.state is Running,
        s.strategy is Never,
        code != 0,
    ensures
        spec_step(s, SupervisorEvent::ProcessExited(code)).0.state is Failed,
        spec_step(s, SupervisorEvent::ProcessExited(code)).1 != SupervisorAction::Respawn,
        spec_step(s, SupervisorEvent::ProcessExited(code)).1 != SupervisorAction::Spawn,
{
}

/// A service under `on-failure` with two attempts allowed, whose runs
/// all end in non-zero exits, is spawned three times in all: it walks
/// `Starting`, twice through `Restarting` and back, and then `Failed`,
/// whatever the three non-zero status codes are.
pub proof fn lemma_on_failure_two_attempts_exhaust(restart: Restart, c1: i32, c2: i32, c3: i32)
    requires
        restart.strategy is OnFailure,
        restart.attempts == 2,
        c1 != 0,
        c2 != 0,
        c3 != 0,
    ensures
        ({
            let s0 = Supervisor {
                state: SupervisorState::Pending,
                strategy: restart.strategy,
                max_attempts: restart.attempts,
                attempts: 0,
                ever_running: false,
                cancelled: false,
                forced: false,
                last_exit: None,
            };
            let (s1, a1) = spec_step(s0, SupervisorEvent::DependenciesReady);
            let (s2, a2) = spec_step(s1, SupervisorEvent::SpawnSucceeded);
            let (s3, a3) = spec_step(s2, SupervisorEvent::ProcessExited(c1));
            let (s4, a4) = spec_step(s3, SupervisorEvent::RestartDispatched);
            let (s5, a5) = spec_step(s4, SupervisorEvent::SpawnSucceeded);
            let (s6, a6) = spec_step(s5, SupervisorEvent::ProcessExited(c2));
            let (s7, a7) = spec_step(s6, SupervisorEvent::RestartDispatched);
            let (s8, a8) = spec_step(s7, SupervisorEvent::SpawnSucceeded);
            let (s9, a9) = spec_step(s8, SupervisorEvent::ProcessExited(c3));
            &&& s1.state is Starting && a1 == SupervisorAction::Spawn
            &&& s2.state is Running
            &&& s3.state is Restarting && a3 == SupervisorAction::Respawn && s3.attempts == 1
            &&& s4.state is Starting && a4 == SupervisorAction::Spawn
            &&& s5.state is Running
            &&& s6.state is Restarting && a6 == SupervisorAction::Respawn && s6.attempts == 2
            &&& s7.state is Starting && a7 == SupervisorAction::Spawn
            &&& s8.state is Running
            &&& s9.state is Failed && a9 == SupervisorAction::Wait && s9.attempts == 2
        }),
{
}

/// The restart policy is never outrun: no step raises the attempt
/// counter beyond the configured maximum.
pub proof fn lemma_attempts_never_exceed_policy(s: Supervisor, e: SupervisorEvent)
    requires
        s.attempts <= s.max_attempts,
    ensures
        spec_step(s, e).0.attempts <= s.max_attempts,
{
}

/// The runtime error taxonomy: what one service's supervision can
/// surface into the aggregated outcome.
#[derive(Debug, Clone, PartialEq, Eq)]
pub enum ServiceError {
    /// Process creation failed, with the cause as text.
    SpawnFailure(String, String),
    /// The process exited with this status under a policy that does
    /// not forgive it.
    UnexpectedExit(String, i32),
    /// The service never started because the named transitive
    /// dependency reached `Failed`.
    BlockedByDependency(String, String),
    /// Graceful termination did not complete within the grace period.
    TerminationTimeout(String),
    /// Shutdown was requested before the service ever started.
    NotStarted(String),
}

/// The failures among a sequence of per-service outcomes, in order.
pub open spec fn failures_of(outcomes: Seq<Option<ServiceError>>) -> Seq<ServiceError>
    decreases outcomes.len(),
{
    if outcomes.len() == 0 {
        Seq::empty()
    } else {
        failures_of(outcomes.drop_last()) + (match outcomes.last() {
            Some(e) => seq![e],
            None => Seq::empty(),
        })
    }
}

/// Collects every supervisor's outcome into one overall result:
/// success exactly when no service failed, else every individual
/// failure, in service order — never just the first.
pub fn aggregate(outcomes: Vec<Option<ServiceError>>) -> (r: Result<(), Vec<ServiceError>>)
    ensures
        r is Ok <==> (forall|i: int| 0 <= i < outcomes@.len() ==> outcomes@[i] is None),
        r is Ok <==> failures_of(outcomes@).len() == 0,
        r matches Err(v) ==> v@ == failures_of(outcomes@) && v@.len() > 0,
{
    let ghost all: Seq<Option<ServiceError>> = outcomes@;
    let mut rest = outcomes;
    let mut v: Vec<ServiceError> = Vec::new();
    let ghost mut done: Seq<Option<ServiceError>> = Seq::empty();
    while rest.len() > 0
        invariant
            all =~= done + rest@,
            v@ =~= failures_of(done),
        decreases rest@.len(),
    {
        let ghost pre_rest = rest@;
        let ghost pre_done = done;
        let first = rest.remove(0);
        proof {
            assert(pre_rest[0] == first);
            assert(rest@ =~= pre_rest.remove(0));
            done = done.push(first);
            assert(done.drop_last() =~= pre_done);
            assert(done.last() == first);
            assert(all =~= done + rest@);
        }
        match first {
            Some(e) => {
                v.push(e);
                proof {
                    assert(v@ =~= failures_of(done));
                }
            },
            None => {
                proof {
                    assert(v@ =~= failures_of(done));
                }
            },
        }
    }
    proof {
        assert(done =~= all);
        assert(v@ =~= failures_of(all));
        lemma_failures_of_none(all);
    }
    if v.len() == 0 {
        Ok(())
    } else {
        Err(v)
    }
}

/// No failures collect exactly when every outcome is `None`.
proof fn lemma_failures_of_none(outcomes: Seq<Option<ServiceError>>)
    ensures
        failures_of(outcomes).len() == 0 <==> (forall|i: int|
            0 <= i < outcomes.len() ==> outcomes[i] is None),
    decreases outcomes.len(),
{
    if outcomes.len() > 0 {
        lemma_failures_of_none(outcomes.drop_last());
        if failures_of(outcomes).len() == 0 {
            assert forall|i: int| 0 <= i < outcomes.len() implies outcomes[i] is None by {
                if i < outcomes.len() - 1 {
                    assert(outcomes.drop_last()[i] == outcomes[i]);
                }
            }
        } else {
            if outcomes.last() is None {
                let j = choose|j: int|
                    0 <= j < outcomes.drop_last().len() && !(outcomes.drop_last()[j] is None);
                assert(outcomes[j] == outcomes.drop_last()[j]);
            }
        }
    }
}

} // verus!
