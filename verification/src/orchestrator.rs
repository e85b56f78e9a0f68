//! The orchestrator's coordination state: which services have been
//! spawned, signaled ready, failed, signaled to terminate and stopped,
//! together with the event stream that external reporting consumes.
//! Its invariant carries the two ordering guarantees: nothing is
//! spawned before its dependencies are ready, and nothing is asked to
//! terminate before its dependents have stopped.

use vstd::prelude::*;
use vstd::pervasive::VecAdditionalExecFns;
use crate::graph::DependencyGraph;

verus! {

/// One entry of the supervision event stream.
#[derive(Clone, Copy, Debug, PartialEq, Eq, Structural)]
pub enum LifecycleEvent {
    /// The service's process was spawned.
    Spawned(usize),
    /// The service signaled readiness to its dependents.
    Ready(usize),
    /// The service reached `Failed`, or was blocked by a failed
    /// dependency.
    Failed(usize),
    /// The service was asked to terminate.
    TerminationSignaled(usize),
    /// The service has fully stopped.
    Stopped(usize),
}

/// `x` signaled readiness somewhere in the log.
pub open spec fn has_ready(log: Seq<LifecycleEvent>, x: usize) -> bool {
    exists|m: int| 0 <= m < log.len() && log[m] == LifecycleEvent::Ready(x)
}

/// `x` was spawned somewhere in the log.
pub open spec fn has_spawned(log: Seq<LifecycleEvent>, x: usize) -> bool {
    exists|m: int| 0 <= m < log.len() && log[m] == LifecycleEvent::Spawned(x)
}

/// `x` stopped somewhere in the log.
pub open spec fn has_stopped(log: Seq<LifecycleEvent>, x: usize) -> bool {
    exists|m: int| 0 <= m < log.len() && log[m] == LifecycleEvent::Stopped(x)
}

/// `x` signaled readiness strictly before position `k`.
pub open spec fn ready_before(log: Seq<LifecycleEvent>, x: usize, k: int) -> bool {
    exists|m: int| 0 <= m < k && log[m] == LifecycleEvent::Ready(x)
}

/// `x` stopped strictly before position `k`.
pub open spec fn stopped_before(log: Seq<LifecycleEvent>, x: usize, k: int) -> bool {
    exists|m: int| 0 <= m < k && log[m] == LifecycleEvent::Stopped(x)
}

/// If position `k` spawns a service, every direct dependency of that
/// service signaled readiness earlier in the log.
pub open spec fn spawn_ok_at(deps: Seq<Vec<usize>>, log: Seq<LifecycleEvent>, k: int) -> bool {
    forall|i: usize, j: int|
        log[k] == LifecycleEvent::Spawned(i) && 0 <= j < deps[i as int]@.len() ==> ready_before(
            log,
            #[trigger] deps[i as int]@[j],
            k,
        )
}

/// If position `k` asks a service to terminate, every service that
/// depends on it, and every target of its `termination.before` list,
/// stopped earlier in the log.
pub open spec fn termination_ok_at(
    deps: Seq<Vec<usize>>,
    before: Seq<Vec<usize>>,
    log: Seq<LifecycleEvent>,
    k: int,
) -> bool {
    &&& forall|x: usize, i: usize|
        log[k] == LifecycleEvent::TerminationSignaled(x) && (i as int) < deps.len()
            && #[trigger] deps[i as int]@.contains(x) ==> stopped_before(log, i, k)
    &&& forall|x: usize, j: int|
        log[k] == LifecycleEvent::TerminationSignaled(x) && 0 <= j < before[x as int]@.len()
            ==> stopped_before(log, #[trigger] before[x as int]@[j], k)
}

/// No service is spawned before its direct dependencies are ready.
pub open spec fn spawn_respects_deps(deps: Seq<Vec<usize>>, log: Seq<LifecycleEvent>) -> bool {
    forall|k: int| 0 <= k < log.len() ==> #[trigger] spawn_ok_at(deps, log, k)
}

/// No service is asked to terminate before its dependents and its
/// `termination.before` targets have stopped.
pub open spec fn shutdown_respects_order(
    deps: Seq<Vec<usize>>,
    before: Seq<Vec<usize>>,
    log: Seq<LifecycleEvent>,
) -> bool {
    forall|k: int| 0 <= k < log.len() ==> #[trigger] termination_ok_at(deps, before, log, k)
}

/// Appending one event keeps both ordering guarantees, provided the
/// new entry itself satisfies them, and extends the membership facts
/// in the obvious way.
proof fn lemma_push_event(
    deps: Seq<Vec<usize>>,
    before: Seq<Vec<usize>>,
    log: Seq<LifecycleEvent>,
    e: LifecycleEvent,
)
    requires
        spawn_respects_deps(deps, log),
        shutdown_respects_order(deps, before, log),
        spawn_ok_at(deps, log.push(e), log.len() as int),
        termination_ok_at(deps, before, log.push(e), log.len() as int),
    ensures
        spawn_respects_deps(deps, log.push(e)),
        shutdown_respects_order(deps, before, log.push(e)),
        forall|x: usize| #[trigger] has_ready(log.push(e), x) <==> (has_ready(log, x) || e
            == LifecycleEvent::Ready(x)),
        forall|x: usize| #[trigger] has_spawned(log.push(e), x) <==> (has_spawned(log, x) || e
            == LifecycleEvent::Spawned(x)),
        forall|x: usize| #[trigger] has_stopped(log.push(e), x) <==> (has_stopped(log, x) || e
            == LifecycleEvent::Stopped(x)),
{
    let l2 = log.push(e);
    assert forall|k: int| 0 <= k < l2.len() implies #[trigger] spawn_ok_at(deps, l2, k) by {
        if k < log.len() {
            assert(spawn_ok_at(deps, log, k));
            assert(l2[k] == log[k]);
            assert forall|i: usize, j: int|
                l2[k] == LifecycleEvent::Spawned(i) && 0 <= j < deps[i as int]@.len()
                implies ready_before(l2, #[trigger] deps[i as int]@[j], k) by {
                let d = deps[i as int]@[j];
                assert(ready_before(log, d, k));
                let m = choose|m: int| 0 <= m < k && log[m] == LifecycleEvent::Ready(d);
                assert(l2[m] == LifecycleEvent::Ready(d));
            }
        }
    }
    assert forall|k: int| 0 <= k < l2.len() implies #[trigger] termination_ok_at(
        deps,
        before,
        l2,
        k,
    ) by {
        if k < log.len() {
            assert(termination_ok_at(deps, before, log, k));
            assert(l2[k] == log[k]);
            assert forall|x: usize, i: usize|
                l2[k] == LifecycleEvent::TerminationSignaled(x) && (i as int) < deps.len()
                    && #[trigger] deps[i as int]@.contains(x) implies stopped_before(l2, i, k) by {
                assert(stopped_before(log, i, k));
                let m = choose|m: int| 0 <= m < k && log[m] == LifecycleEvent::Stopped(i);
                assert(l2[m] == LifecycleEvent::Stopped(i));
            }
            assert forall|x: usize, j: int|
                l2[k] == LifecycleEvent::TerminationSignaled(x) && 0 <= j < before[
                x as int]@.len() implies stopped_before(l2, #[trigger] before[x as int]@[j], k) by {
                let d = before[x as int]@[j];
                assert(stopped_before(log, d, k));
                let m = choose|m: int| 0 <= m < k && log[m] == LifecycleEvent::Stopped(d);
                assert(l2[m] == LifecycleEvent::Stopped(d));
            }
        }
    }
    assert forall|x: usize| #[trigger] has_ready(l2, x) <==> (has_ready(log, x) || e
        == LifecycleEvent::Ready(x)) by {
        if has_ready(l2, x) {
            let m = choose|m: int| 0 <= m < l2.len() && l2[m] == LifecycleEvent::Ready(x);
            if m < log.len() {
                assert(log[m] == LifecycleEvent::Ready(x));
            }
        }
        if has_ready(log, x) {
            let m = choose|m: int| 0 <= m < log.len() && log[m] == LifecycleEvent::Ready(x);
            assert(l2[m] == LifecycleEvent::Ready(x));
        }
        if e == LifecycleEvent::Ready(x) {
            assert(l2[log.len() as int] == e);
        }
    }
    assert forall|x: usize| #[trigger] has_spawned(l2, x) <==> (has_spawned(log, x) || e
        == LifecycleEvent::Spawned(x)) by {
        if has_spawned(l2, x) {
            let m = choose|m: int| 0 <= m < l2.len() && l2[m] == LifecycleEvent::Spawned(x);
            if m < log.len() {
                assert(log[m] == LifecycleEvent::Spawned(x));
            }
        }
        if has_spawned(log, x) {
            let m = choose|m: int| 0 <= m < log.len() && log[m] == LifecycleEvent::Spawned(x);
            assert(l2[m] == LifecycleEvent::Spawned(x));
        }
        if e == LifecycleEvent::Spawned(x) {
            assert(l2[log.len() as int] == e);
        }
    }
    assert forall|x: usize| #[trigger] has_stopped(l2, x) <==> (has_stopped(log, x) || e
        == LifecycleEvent::Stopped(x)) by {
        if has_stopped(l2, x) {
            let m = choose|m: int| 0 <= m < l2.len() && l2[m] == LifecycleEvent::Stopped(x);
            if m < log.len() {
                assert(log[m] == LifecycleEvent::Stopped(x));
            }
        }
        if has_stopped(log, x) {
            let m = choose|m: int| 0 <= m < log.len() && log[m] == LifecycleEvent::Stopped(x);
            assert(l2[m] == LifecycleEvent::Stopped(x));
        }
        if e == LifecycleEvent::Stopped(x) {
            assert(l2[log.len() as int] == e);
        }
    }
}

/// A vector of `n` `false` entries.
fn false_vector(n: usize) -> (r: Vec<bool>)
    ensures
        r@.len() == n,
        forall|x: int| 0 <= x < n ==> !r@[x],
{
    let mut r: Vec<bool> = Vec::new();
    let mut i: usize = 0;
    while i < n
        invariant
            i <= n,
            r@.len() == i,
            forall|x: int| 0 <= x < i ==> !r@[x],
        decreases n - i,
    {
        r.push(false);
        i += 1;
    }
    r
}

/// Whether `list` holds `x`.
fn list_contains(list: &Vec<usize>, x: usize) -> (r: bool)
    ensures
        r == list@.contains(x),
{
    let mut k: usize = 0;
    while k < list.len()
        invariant
            k <= list@.len(),
            forall|j: int| 0 <= j < k ==> list@[j] != x,
        decreases list@.len() - k,
    {
        if list[k] == x {
            return true;
        }
        k += 1;
    }
    proof {
        if list@.contains(x) {
            let j = choose|j: int| 0 <= j < list@.len() && list@[j] == x;
        }
    }
    false
}

/// The orchestrator's coordination state for one run: the validated
/// graph, one flag set per lifecycle milestone, and the event stream.
/// All cross-service ordering decisions go through its methods.
#[derive(Debug)]
pub struct Orchestrator {
    pub graph: DependencyGraph,
    /// The spawn of this service has been released.
    pub spawned: Vec<bool>,
    /// The service has signaled readiness.
    pub ready: Vec<bool>,
    /// The service reached `Failed` or was blocked.
    pub failed: Vec<bool>,
    /// The service has been asked to terminate.
    pub signaled: Vec<bool>,
    /// The service has fully stopped.
    pub stopped: Vec<bool>,
    /// The supervision event stream, oldest first.
    pub events: Vec<LifecycleEvent>,
}

impl Orchestrator {
    /// The number of services.
    pub open spec fn n(self) -> int {
        self.graph.spec_n()
    }

    /// The milestone flags say exactly what the event stream says.
    pub open spec fn flags_match_log(self) -> bool {
        &&& forall|x: usize|
            (x as int) < self.n() ==> ((#[trigger] self.ready@[x as int]) <==> has_ready(
                self.events@,
                x,
            ))
        &&& forall|x: usize|
            (x as int) < self.n() ==> ((#[trigger] self.spawned@[x as int]) <==> has_spawned(
                self.events@,
                x,
            ))
        &&& forall|x: usize|
            (x as int) < self.n() ==> ((#[trigger] self.stopped@[x as int]) <==> has_stopped(
                self.events@,
                x,
            ))
    }

    /// The coordination invariant: a well-formed graph, flags of the
    /// right size that mirror the log, and a log in which no spawn
    /// precedes its dependencies' readiness and no termination request
    /// precedes its dependents' stop.
    pub open spec fn wf(self) -> bool {
        &&& self.graph.wf()
        &&& self.spawned@.len() == self.n()
        &&& self.ready@.len() == self.n()
        &&& self.failed@.len() == self.n()
        &&& self.signaled@.len() == self.n()
        &&& self.stopped@.len() == self.n()
        &&& self.flags_match_log()
        &&& spawn_respects_deps(self.graph.deps@, self.events@)
        &&& shutdown_respects_order(self.graph.deps@, self.graph.before@, self.events@)
    }

    /// A fresh orchestrator over a validated graph: nothing spawned,
    /// nothing signaled, an empty event stream.
    pub fn new(graph: DependencyGraph) -> (r: Orchestrator)
        requires
            graph.wf(),
        ensures
            r.wf(),
            r.graph == graph,
            r.events@.len() == 0,
            forall|x: int|
                0 <= x < r.n() ==> !r.spawned@[x] && !r.ready@[x] && !r.failed@[x]
                    && !r.signaled@[x] && !r.stopped@[x],
    {
        let n = graph.node_count();
        let r = Orchestrator {
            graph,
            spawned: false_vector(n),
            ready: false_vector(n),
            failed: false_vector(n),
            signaled: false_vector(n),
            stopped: false_vector(n),
            events: Vec::new(),
        };
        proof {
            assert forall|x: usize| (x as int) < r.n() implies !has_ready(r.events@, x)
                && !has_spawned(r.events@, x) && !has_stopped(r.events@, x) by {}
        }
        r
    }

    /// Every direct dependency of `i` has signaled readiness.
    pub open spec fn spec_deps_ready(self, i: int) -> bool {
        forall|j: int|
            0 <= j < self.graph.deps@[i]@.len() ==> self.ready@[
                #[trigger] self.graph.deps@[i]@[j] as int
            ]
    }

    /// Answers "has every dependency of `i` already finished
    /// starting?", which releases `i`'s supervisor.
    pub fn deps_ready(&self, i: usize) -> (r: bool)
        requires
            self.wf(),
            (i as int) < self.n(),
        ensures
            r == self.spec_deps_ready(i as int),
    {
        let list = &self.graph.deps[i];
        let mut k: usize = 0;
        while k < list.len()
            invariant
                k <= list@.len(),
                list@ == self.graph.deps@[i as int]@,
                self.wf(),
                (i as int) < self.n(),
                forall|j: int|
                    0 <= j < k ==> self.ready@[#[trigger] self.graph.deps@[i as int]@[j] as int],
            decreases list@.len() - k,
        {
            if !self.ready[list[k]] {
                return false;
            }
            k += 1;
        }
        true
    }

    /// Releases the spawn of `i` where it is allowed: not yet spawned,
    /// not failed, and every direct dependency ready. Appends the
    /// spawn to the event stream exactly when it answers `true`.
    pub fn start_service(&mut self, i: usize) -> (r: bool)
        requires
            old(self).wf(),
            (i as int) < old(self).n(),
        ensures
            final(self).wf(),
            final(self).graph == old(self).graph,
            r <==> (!old(self).spawned@[i as int] && !old(self).failed@[i as int] && old(self).spec_deps_ready(i as int)),
            r ==> final(self).events@ == old(self).events@.push(LifecycleEvent::Spawned(i))
                && final(self).spawned@ == old(self).spawned@.update(i as int, true) && final(self).ready@ == old(self).ready@ && final(self).failed@ == old(self).failed@ && final(self).signaled@ == old(self).signaled@ && final(self).stopped@ == old(self).stopped@,
            !r ==> *final(self) == *old(self),
    {
        if self.spawned[i] || self.failed[i] {
            return false;
        }
        if !self.deps_ready(i) {
            return false;
        }
        let ghost log = self.events@;
        let e = LifecycleEvent::Spawned(i);
        self.spawned.set(i, true);
        self.events.push(e);
        proof {
            let l2 = self.events@;
            assert(spawn_ok_at(self.graph.deps@, l2, log.len() as int)) by {
                assert forall|i2: usize, j: int|
                    l2[log.len() as int] == LifecycleEvent::Spawned(i2) && 0 <= j
                        < self.graph.deps@[i2 as int]@.len() implies ready_before(
                    l2,
                    #[trigger] self.graph.deps@[i2 as int]@[j],
                    log.len() as int,
                ) by {
                    assert(i2 == i);
                    let d = self.graph.deps@[i as int]@[j];
                    assert((d as int) < self.n());
                    assert(self.ready@[d as int]);
                    assert(has_ready(log, d));
                    let m = choose|m: int| 0 <= m < log.len() && log[m] == LifecycleEvent::Ready(
                        d,
                    );
                    assert(l2[m] == LifecycleEvent::Ready(d));
                }
            }
            assert(termination_ok_at(self.graph.deps@, self.graph.before@, l2, log.len() as int));
            lemma_push_event(self.graph.deps@, self.graph.before@, log, e);
        }
        true
    }

    /// Records that `i` signaled readiness, where it was spawned and
    /// has not signaled before. Appends to the event stream exactly
    /// when it answers `true`.
    pub fn signal_ready(&mut self, i: usize) -> (r: bool)
        requires
            old(self).wf(),
            (i as int) < old(self).n(),
        ensures
            final(self).wf(),
            final(self).graph == old(self).graph,
            r <==> (old(self).spawned@[i as int] && !old(self).ready@[i as int]),
            r ==> final(self).events@ == old(self).events@.push(LifecycleEvent::Ready(i)) && final(self).ready@ == old(self).ready@.update(i as int, true) && final(self).spawned@ == old(self).spawned@ && final(self).failed@ == old(self).failed@ && final(self).signaled@ == old(self).signaled@ && final(self).stopped@ == old(self).stopped@,
            !r ==> *final(self) == *old(self),
    {
        if !self.spawned[i] || self.ready[i] {
            return false;
        }
        let ghost log = self.events@;
        let e = LifecycleEvent::Ready(i);
        self.ready.set(i, true);
        self.events.push(e);
        proof {
            lemma_push_event(self.graph.deps@, self.graph.before@, log, e);
        }
        true
    }

    /// Records that `i` reached `Failed` (or was blocked): dependents
    /// that have not started will be failed fast rather than wait
    /// forever.
    pub fn mark_failed(&mut self, i: usize) -> (r: bool)
        requires
            old(self).wf(),
            (i as int) < old(self).n(),
        ensures
            final(self).wf(),
            final(self).graph == old(self).graph,
            r <==> !old(self).failed@[i as int],
            r ==> final(self).events@ == old(self).events@.push(LifecycleEvent::Failed(i))
                && final(self).failed@ == old(self).failed@.update(i as int, true) && final(self).spawned@ == old(self).spawned@ && final(self).ready@ == old(self).ready@ && final(self).signaled@ == old(self).signaled@ && final(self).stopped@ == old(self).stopped@,
            !r ==> *final(self) == *old(self),
    {
        if self.failed[i] {
            return false;
        }
        let ghost log = self.events@;
        let e = LifecycleEvent::Failed(i);
        self.failed.set(i, true);
        self.events.push(e);
        proof {
            lemma_push_event(self.graph.deps@, self.graph.before@, log, e);
        }
        true
    }

    /// A service that has not started and never can: some direct
    /// dependency already failed. Answers one such service and the
    /// failed dependency, or `None` where no service is blocked.
    pub fn find_blocked(&self) -> (r: Option<(usize, usize)>)
        requires
            self.wf(),
        ensures
            r matches Some(p) ==> (p.0 as int) < self.n() && !self.spawned@[p.0 as int]
                && !self.failed@[p.0 as int] && self.graph.deps@[p.0 as int]@.contains(p.1) && (
            p.1 as int) < self.n() && self.failed@[p.1 as int],
            r is None ==> forall|i: int, j: int|
                0 <= i < self.n() && 0 <= j < self.graph.deps@[i]@.len() && !self.spawned@[i]
                    && !self.failed@[i] ==> !self.failed@[
                    #[trigger] self.graph.deps@[i]@[j] as int
                ],
    {
        let n = self.graph.node_count();
        let mut i: usize = 0;
        while i < n
            invariant
                self.wf(),
                n == self.n(),
                i <= n,
                forall|a: int, j: int|
                    0 <= a < i && 0 <= j < self.graph.deps@[a]@.len() && !self.spawned@[a]
                        && !self.failed@[a] ==> !self.failed@[
                        #[trigger] self.graph.deps@[a]@[j] as int
                    ],
            decreases n - i,
        {
            if !self.spawned[i] && !self.failed[i] {
                let list = &self.graph.deps[i];
                let mut k: usize = 0;
                while k < list.len()
                    invariant
                        self.wf(),
                        n == self.n(),
                        (i as int) < n,
                        list@ == self.graph.deps@[i as int]@,
                        !self.spawned@[i as int] && !self.failed@[i as int],
                        k <= list@.len(),
                        forall|j: int|
                            0 <= j < k ==> !self.failed@[
                                #[trigger] self.graph.deps@[i as int]@[j] as int
                            ],
                    decreases list@.len() - k,
                {
                    let d = list[k];
                    if self.failed[d] {
                        proof {
                            assert(self.graph.deps@[i as int]@[k as int] == d);
                        }
                        return Some((i, d));
                    }
                    k += 1;
                }
            }
            i += 1;
        }
        None
    }

    /// Every service that depends on `x`, and every target of `x`'s
    /// `termination.before` list, has fully stopped.
    pub open spec fn spec_can_terminate(self, x: usize) -> bool {
        &&& forall|i: usize|
            (i as int) < self.n() && #[trigger] self.graph.deps@[i as int]@.contains(x)
                ==> self.stopped@[i as int]
        &&& forall|j: int|
            0 <= j < self.graph.before@[x as int]@.len() ==> self.stopped@[
                #[trigger] self.graph.before@[x as int]@[j] as int
            ]
    }

    /// Answers whether `x` may be asked to terminate now.
    pub fn can_terminate(&self, x: usize) -> (r: bool)
        requires
            self.wf(),
            (x as int) < self.n(),
        ensures
            r == self.spec_can_terminate(x),
    {
        let n = self.graph.node_count();
        let mut i: usize = 0;
        while i < n
            invariant
                self.wf(),
                n == self.n(),
                (x as int) < n,
                i <= n,
                forall|a: usize|
                    (a as int) < i && #[trigger] self.graph.deps@[a as int]@.contains(x)
                        ==> self.stopped@[a as int],
            decreases n - i,
        {
            if list_contains(&self.graph.deps[i], x) && !self.stopped[i] {
                return false;
            }
            i += 1;
        }
        let list = &self.graph.before[x];
        let mut k: usize = 0;
        while k < list.len()
            invariant
                self.wf(),
                n == self.n(),
                (x as int) < n,
                list@ == self.graph.before@[x as int]@,
                k <= list@.len(),
                forall|a: usize|
                    (a as int) < n && #[trigger] self.graph.deps@[a as int]@.contains(x)
                        ==> self.stopped@[a as int],
                forall|j: int|
                    0 <= j < k ==> self.stopped@[
                        #[trigger] self.graph.before@[x as int]@[j] as int
                    ],
            decreases list@.len() - k,
        {
            if !self.stopped[list[k]] {
                return false;
            }
            k += 1;
        }
        true
    }

    /// Asks `x` to terminate where that is allowed: not yet signaled,
    /// not yet stopped, dependents and `before` targets all stopped.
    /// Appends to the event stream exactly when it answers `true`.
    pub fn signal_termination(&mut self, x: usize) -> (r: bool)
        requires
            old(self).wf(),
            (x as int) < old(self).n(),
        ensures
            final(self).wf(),
            final(self).graph == old(self).graph,
            r <==> (!old(self).signaled@[x as int] && !old(self).stopped@[x as int] && old(self).spec_can_terminate(x)),
            r ==> final(self).events@ == old(self).events@.push(
                LifecycleEvent::TerminationSignaled(x),
            ) && final(self).signaled@ == old(self).signaled@.update(x as int, true) && final(self).spawned@ == old(self).spawned@ && final(self).ready@ == old(self).ready@ && final(self).failed@ == old(self).failed@ && final(self).stopped@ == old(self).stopped@,
            !r ==> *final(self) == *old(self),
    {
        if self.signaled[x] || self.stopped[x] {
            return false;
        }
        if !self.can_terminate(x) {
            return false;
        }
        let ghost log = self.events@;
        let e = LifecycleEvent::TerminationSignaled(x);
        self.signaled.set(x, true);
        self.events.push(e);
        proof {
            let l2 = self.events@;
            assert(termination_ok_at(self.graph.deps@, self.graph.before@, l2, log.len() as int))
                by {
                assert forall|x2: usize, i: usize|
                    l2[log.len() as int] == LifecycleEvent::TerminationSignaled(x2) && (i as int)
                        < self.graph.deps@.len() && #[trigger] self.graph.deps@[
                    i as int]@.contains(x2) implies stopped_before(l2, i, log.len() as int) by {
                    assert(x2 == x);
                    assert(self.stopped@[i as int]);
                    assert(has_stopped(log, i));
                    let m = choose|m: int|
                        0 <= m < log.len() && log[m] == LifecycleEvent::Stopped(i);
                    assert(l2[m] == LifecycleEvent::Stopped(i));
                }
                assert forall|x2: usize, j: int|
                    l2[log.len() as int] == LifecycleEvent::TerminationSignaled(x2) && 0 <= j
                        < self.graph.before@[x2 as int]@.len() implies stopped_before(
                    l2,
                    #[trigger] self.graph.before@[x2 as int]@[j],
                    log.len() as int,
                ) by {
                    assert(x2 == x);
                    let d = self.graph.before@[x as int]@[j];
                    assert((d as int) < self.n());
                    assert(self.stopped@[d as int]);
                    assert(has_stopped(log, d));
                    let m = choose|m: int|
                        0 <= m < log.len() && log[m] == LifecycleEvent::Stopped(d);
                    assert(l2[m] == LifecycleEvent::Stopped(d));
                }
            }
            lemma_push_event(self.graph.deps@, self.graph.before@, log, e);
        }
        true
    }

    /// Records that `x` has fully stopped (gracefully, forced, or
    /// cancelled before it ever started). Appends to the event stream
    /// exactly when it answers `true`.
    pub fn mark_stopped(&mut self, x: usize) -> (r: bool)
        requires
            old(self).wf(),
            (x as int) < old(self).n(),
        ensures
            final(self).wf(),
            final(self).graph == old(self).graph,
            r <==> !old(self).stopped@[x as int],
            r ==> final(self).events@ == old(self).events@.push(LifecycleEvent::Stopped(x))
                && final(self).stopped@ == old(self).stopped@.update(x as int, true) && final(self).spawned@ == old(self).spawned@ && final(self).ready@ == old(self).ready@ && final(self).failed@ == old(self).failed@ && final(self).signaled@ == old(self).signaled@,
            !r ==> *final(self) == *old(self),
    {
        if self.stopped[x] {
            return false;
        }
        let ghost log = self.events@;
        let e = LifecycleEvent::Stopped(x);
        self.stopped.set(x, true);
        self.events.push(e);
        proof {
            lemma_push_event(self.graph.deps@, self.graph.before@, log, e);
        }
        true
    }

    /// The overall startup outcome is a success exactly when every
    /// service signaled readiness: each reached `Running` at least
    /// once.
    pub fn startup_successful(&self) -> (r: bool)
        requires
            self.wf(),
        ensures
            r <==> (forall|x: int| 0 <= x < self.n() ==> self.ready@[x]),
    {
        let n = self.graph.node_count();
        let mut i: usize = 0;
        while i < n
            invariant
                self.wf(),
                n == self.n(),
                i <= n,
                forall|x: int| 0 <= x < i ==> self.ready@[x],
            decreases n - i,
        {
            if !self.ready[i] {
                return false;
            }
            i += 1;
        }
        true
    }

    /// Every service has fully stopped.
    pub fn shutdown_complete(&self) -> (r: bool)
        requires
            self.wf(),
        ensures
            r <==> (forall|x: int| 0 <= x < self.n() ==> self.stopped@[x]),
    {
        let n = self.graph.node_count();
        let mut i: usize = 0;
        while i < n
            invariant
                self.wf(),
                n == self.n(),
                i <= n,
                forall|x: int| 0 <= x < i ==> self.stopped@[x],
            decreases n - i,
        {
            if !self.stopped[i] {
                return false;
            }
            i += 1;
        }
        true
    }
}

/// During startup no service is spawned before every one of its direct
/// dependencies has signaled readiness: wherever the event stream of a
/// coordinated run records a spawn, each dependency's readiness stands
/// strictly earlier in the stream.
pub proof fn lemma_spawn_after_dependencies(o: Orchestrator, k: int, i: usize, j: int)
    requires
        o.wf(),
        0 <= k < o.events@.len(),
        o.events@[k] == LifecycleEvent::Spawned(i),
        0 <= j < o.graph.deps@[i as int]@.len(),
    ensures
        ready_before(o.events@, o.graph.deps@[i as int]@[j], k),
{
    assert(spawn_ok_at(o.graph.deps@, o.events@, k));
    assert(o.events@[k] == LifecycleEvent::Spawned(i) && 0 <= j < o.graph.deps@[
        i as int]@.len());
}

/// During shutdown no service receives a termination request before
/// every dependent, and every target of its `termination.before`
/// list, has fully stopped: wherever the event stream records a
/// termination request, each such service's stop stands strictly
/// earlier in the stream.
pub proof fn lemma_terminate_after_dependents(o: Orchestrator, k: int, x: usize)
    requires
        o.wf(),
        0 <= k < o.events@.len(),
        o.events@[k] == LifecycleEvent::TerminationSignaled(x),
    ensures
        forall|i: usize|
            (i as int) < o.graph.deps@.len() && #[trigger] o.graph.deps@[i as int]@.contains(x)
                ==> stopped_before(o.events@, i, k),
        forall|j: int|
            0 <= j < o.graph.before@[x as int]@.len() ==> stopped_before(
                o.events@,
                #[trigger] o.graph.before@[x as int]@[j],
                k,
            ),
{
    assert(termination_ok_at(o.graph.deps@, o.graph.before@, o.events@, k));
    assert forall|i: usize|
        (i as int) < o.graph.deps@.len() && #[trigger] o.graph.deps@[i as int]@.contains(x)
        implies stopped_before(o.events@, i, k) by {}
    assert forall|j: int| 0 <= j < o.graph.before@[x as int]@.len() implies stopped_before(
        o.events@,
        #[trigger] o.graph.before@[x as int]@[j],
        k,
    ) by {}
}

} // verus!
