//! Inter-job dependencies: a queued job becomes ready only when every one of
//! its dependencies has completed; a failed or cancelled dependency blocks
//! the dependent forever.

use std::collections::{HashMap, HashSet};
use vstd::prelude::*;
use vstd::std_specs::hash::*;

use crate::model::JobId;

verus! {

broadcast use vstd::std_specs::hash::group_hash_axioms;

/// Dependency-aware readiness tracker.
#[derive(Debug)]
pub struct Scheduler {
    deps: HashMap<u64, Vec<JobId>>,
    completed: HashSet<u64>,
    dead: HashSet<u64>,
}

/// Abstract state of a [`Scheduler`].
pub struct SchedulerView {
    /// Registered dependency lists, by job id.
    pub deps: Map<u64, Seq<JobId>>,
    /// Jobs known to have completed.
    pub completed: Set<u64>,
    /// Jobs known to have failed or been cancelled.
    pub dead: Set<u64>,
}

/// True when every dependency of `job` has completed (or none is registered).
pub open spec fn spec_is_ready(s: SchedulerView, job: u64) -> bool {
    s.deps.contains_key(job) ==> forall|i: int|
        0 <= i < s.deps[job].len() ==> #[trigger] s.completed.contains(s.deps[job][i].0)
}

/// True when some dependency of `job` failed or was cancelled.
pub open spec fn spec_is_blocked_forever(s: SchedulerView, job: u64) -> bool {
    s.deps.contains_key(job) && exists|i: int|
        0 <= i < s.deps[job].len() && #[trigger] s.dead.contains(s.deps[job][i].0)
}

/// One call on a [`Scheduler`], as it changes the scheduler's state.
pub enum SchedulerOp {
    /// `register(job, deps)`.
    Register(JobId, Seq<JobId>),
    /// `mark_completed(job)`.
    Complete(JobId),
    /// `mark_dead(job)`.
    Kill(JobId),
    /// `forget(job)`.
    Forget(JobId),
}

/// The state of an empty scheduler.
pub open spec fn spec_empty_scheduler() -> SchedulerView {
    SchedulerView {
        deps: Map::<u64, Seq<JobId>>::empty(),
        completed: Set::<u64>::empty(),
        dead: Set::<u64>::empty(),
    }
}

/// The state after one call. A job that is dead stays out of the completed
/// set: completion and death are mutually exclusive.
pub open spec fn spec_step(s: SchedulerView, op: SchedulerOp) -> SchedulerView {
    match op {
        SchedulerOp::Register(job, deps) => SchedulerView {
            deps: s.deps.insert(job.0, deps),
            completed: s.completed,
            dead: s.dead,
        },
        SchedulerOp::Complete(job) => SchedulerView {
            deps: s.deps,
            completed: if s.dead.contains(job.0) {
                s.completed
            } else {
                s.completed.insert(job.0)
            },
            dead: s.dead,
        },
        SchedulerOp::Kill(job) => SchedulerView {
            deps: s.deps,
            completed: s.completed.remove(job.0),
            dead: s.dead.insert(job.0),
        },
        SchedulerOp::Forget(job) => SchedulerView {
            deps: s.deps.remove(job.0),
            completed: s.completed,
            dead: s.dead,
        },
    }
}

/// The state of a new scheduler after the calls `ops`, in order.
pub open spec fn spec_run(ops: Seq<SchedulerOp>) -> SchedulerView
    decreases ops.len(),
{
    if ops.len() == 0 {
        spec_empty_scheduler()
    } else {
        spec_step(spec_run(ops.drop_last()), ops.last())
    }
}

/// Whether `ops` marks job `d` completed at some point.
pub open spec fn ever_completed(ops: Seq<SchedulerOp>, d: u64) -> bool
    decreases ops.len(),
{
    ops.len() > 0 && (ever_completed(ops.drop_last(), d) || (ops.last() matches SchedulerOp::Complete(x)
        && x.0 == d))
}

/// Whether `ops` marks job `d` dead at some point.
pub open spec fn ever_killed(ops: Seq<SchedulerOp>, d: u64) -> bool
    decreases ops.len(),
{
    ops.len() > 0 && (ever_killed(ops.drop_last(), d) || (ops.last() matches SchedulerOp::Kill(x) && x.0
        == d))
}

/// The dependency list of the latest `register(job, ..)` in `ops` that no
/// later `forget(job)` cancelled, if any.
pub open spec fn last_deps(ops: Seq<SchedulerOp>, job: u64) -> Option<Seq<JobId>>
    decreases ops.len(),
{
    if ops.len() == 0 {
        None
    } else {
        match ops.last() {
            SchedulerOp::Register(x, deps) => if x.0 == job {
                Some(deps)
            } else {
                last_deps(ops.drop_last(), job)
            },
            SchedulerOp::Forget(x) => if x.0 == job {
                None
            } else {
                last_deps(ops.drop_last(), job)
            },
            _ => last_deps(ops.drop_last(), job),
        }
    }
}

impl View for Scheduler {
    type V = SchedulerView;

    closed spec fn view(&self) -> SchedulerView {
        SchedulerView {
            deps: self.deps@.map_values(|v: Vec<JobId>| v@),
            completed: self.completed@,
            dead: self.dead@,
        }
    }
}

impl Scheduler {
    /// Creates an empty scheduler.
    pub fn new() -> (s: Scheduler)
        ensures
            s@.deps == Map::<u64, Seq<JobId>>::empty(),
            s@.completed == Set::<u64>::empty(),
            s@.dead == Set::<u64>::empty(),
            s@ == spec_empty_scheduler(),
    {
        let s = Scheduler { deps: HashMap::new(), completed: HashSet::new(), dead: HashSet::new() };
        proof {
            assert(s@.deps =~= Map::<u64, Seq<JobId>>::empty());
        }
        s
    }

    /// Registers dependency edges for a job. Calling again replaces the
    /// previous edges.
    pub fn register(&mut self, job_id: JobId, deps: Vec<JobId>)
        ensures
            final(self)@.deps == old(self)@.deps.insert(job_id.0, deps@),
            final(self)@.completed == old(self)@.completed,
            final(self)@.dead == old(self)@.dead,
            final(self)@ == spec_step(old(self)@, SchedulerOp::Register(job_id, deps@)),
    {
        let ghost d = deps@;
        self.deps.insert(job_id.0, deps);
        proof {
            assert(self@.deps =~= old(self)@.deps.insert(job_id.0, d));
        }
    }

    /// Marks a dependency job completed. A job already marked dead stays
    /// dead and is not completed: completion and death are mutually
    /// exclusive.
    pub fn mark_completed(&mut self, job_id: JobId)
        ensures
            final(self)@.deps == old(self)@.deps,
            final(self)@.completed == if old(self)@.dead.contains(job_id.0) {
                old(self)@.completed
            } else {
                old(self)@.completed.insert(job_id.0)
            },
            final(self)@.dead == old(self)@.dead,
            final(self)@ == spec_step(old(self)@, SchedulerOp::Complete(job_id)),
    {
        if !self.dead.contains(&job_id.0) {
            self.completed.insert(job_id.0);
        }
    }

    /// Marks a dependency job failed or cancelled — its dependents are
    /// blocked forever. Completion and death are mutually exclusive.
    pub fn mark_dead(&mut self, job_id: JobId)
        ensures
            final(self)@.deps == old(self)@.deps,
            final(self)@.completed == old(self)@.completed.remove(job_id.0),
            final(self)@.dead == old(self)@.dead.insert(job_id.0),
            final(self)@ == spec_step(old(self)@, SchedulerOp::Kill(job_id)),
    {
        self.dead.insert(job_id.0);
        self.completed.remove(&job_id.0);
    }

    /// True when every dependency of `job_id` has completed.
    pub fn is_ready(&self, job_id: JobId) -> (r: bool)
        ensures
            r == spec_is_ready(self@, job_id.0),
    {
        match self.deps.get(&job_id.0) {
            None => true,
            Some(deps) => {
                let mut i: usize = 0;
                while i < deps.len()
                    invariant
                        self.deps@.contains_key(job_id.0),
                        self.deps@[job_id.0] == *deps,
                        i <= deps.len(),
                        forall|k: int| 0 <= k < i ==> self.completed@.contains(#[trigger] deps@[k].0),
                    decreases deps.len() - i,
                {
                    if !self.completed.contains(&deps[i].0) {
                        proof {
                            assert(self@.deps[job_id.0] == deps@);
                            assert(!self@.completed.contains(self@.deps[job_id.0][i as int].0));
                        }
                        return false;
                    }
                    i += 1;
                }
                true
            },
        }
    }

    /// True when at least one dependency failed or was cancelled — the job
    /// can never run.
    pub fn is_blocked_forever(&self, job_id: JobId) -> (r: bool)
        ensures
            r == spec_is_blocked_forever(self@, job_id.0),
    {
        match self.deps.get(&job_id.0) {
            None => false,
            Some(deps) => {
                let mut i: usize = 0;
                while i < deps.len()
                    invariant
                        self.deps@.contains_key(job_id.0),
                        self.deps@[job_id.0] == *deps,
                        i <= deps.len(),
                        forall|k: int| 0 <= k < i ==> !self.dead@.contains(#[trigger] deps@[k].0),
                    decreases deps.len() - i,
                {
                    if self.dead.contains(&deps[i].0) {
                        proof {
                            assert(self@.deps[job_id.0] == deps@);
                            assert(self@.dead.contains(self@.deps[job_id.0][i as int].0));
                        }
                        return true;
                    }
                    i += 1;
                }
                proof {
                    if spec_is_blocked_forever(self@, job_id.0) {
                        let w = choose|k: int|
                            0 <= k < self@.deps[job_id.0].len() && #[trigger] self@.dead.contains(
                                self@.deps[job_id.0][k].0,
                            );
                        assert(self@.deps[job_id.0] == deps@);
                        assert(!self.dead@.contains(deps@[w].0));
                    }
                }
                false
            },
        }
    }

    /// Removes all scheduling state for a job (post-terminal cleanup).
    pub fn forget(&mut self, job_id: JobId)
        ensures
            final(self)@.deps == old(self)@.deps.remove(job_id.0),
            final(self)@.completed == old(self)@.completed,
            final(self)@.dead == old(self)@.dead,
            final(self)@ == spec_step(old(self)@, SchedulerOp::Forget(job_id)),
    {
        self.deps.remove(&job_id.0);
        proof {
            assert(self@.deps =~= old(self)@.deps.remove(job_id.0));
        }
    }
}

/// A job is ready exactly when each of its registered dependencies has been
/// marked completed, in whatever order: completing the dependencies one by
/// one makes the dependent ready once the last one completes.
pub proof fn lemma_ready_after_all_dependencies_complete(s: SchedulerView, job: u64)
    requires
        s.deps.contains_key(job),
        forall|i: int| 0 <= i < s.deps[job].len() ==> #[trigger] s.completed.contains(s.deps[job][i].0),
    ensures
        spec_is_ready(s, job),
{
}

/// Marking a job dead (failed or cancelled) blocks every job that lists it
/// as a dependency forever, and none of them is ready.
pub proof fn lemma_dead_dependency_blocks(s: SchedulerView, job: u64, dep: JobId)
    requires
        s.deps.contains_key(job),
        s.deps[job].contains(dep),
    ensures
        spec_is_blocked_forever(
            SchedulerView { deps: s.deps, completed: s.completed.remove(dep.0), dead: s.dead.insert(dep.0) },
            job,
        ),
        !spec_is_ready(
            SchedulerView { deps: s.deps, completed: s.completed.remove(dep.0), dead: s.dead.insert(dep.0) },
            job,
        ),
{
    let i = choose|i: int| 0 <= i < s.deps[job].len() && s.deps[job][i] == dep;
    let t = SchedulerView { deps: s.deps, completed: s.completed.remove(dep.0), dead: s.dead.insert(dep.0) };
    assert(t.dead.contains(t.deps[job][i].0));
    assert(!t.completed.contains(t.deps[job][i].0));
}

/// A job with no registered dependencies is always ready and never blocked.
pub proof fn lemma_unregistered_job_is_ready(s: SchedulerView, job: u64)
    requires
        !s.deps.contains_key(job),
    ensures
        spec_is_ready(s, job),
        !spec_is_blocked_forever(s, job),
{
}

/// Completing a job keeps every ready job ready.
pub proof fn lemma_completion_preserves_readiness(s: SchedulerView, job: u64, done: u64)
    requires
        spec_is_ready(s, job),
    ensures
        spec_is_ready(SchedulerView { deps: s.deps, completed: s.completed.insert(done), dead: s.dead }, job),
{
}

/// Every call keeps completed and dead jobs apart.
pub proof fn lemma_step_keeps_completed_and_dead_apart(s: SchedulerView, op: SchedulerOp)
    requires
        s.completed.disjoint(s.dead),
    ensures
        spec_step(s, op).completed.disjoint(spec_step(s, op).dead),
{
}

/// A job stays blocked forever under every call but a new `register` or a
/// `forget` of that job itself: in particular, marking its dead dependency
/// completed later does not unblock it.
pub proof fn lemma_blocked_stays_blocked(s: SchedulerView, op: SchedulerOp, job: u64)
    requires
        spec_is_blocked_forever(s, job),
        !(op matches SchedulerOp::Register(x, _) && x.0 == job),
        !(op matches SchedulerOp::Forget(x) && x.0 == job),
    ensures
        spec_is_blocked_forever(spec_step(s, op), job),
{
    let i = choose|i: int| 0 <= i < s.deps[job].len() && #[trigger] s.dead.contains(s.deps[job][i].0);
    let t = spec_step(s, op);
    assert(t.deps[job] == s.deps[job]);
    assert(t.dead.contains(t.deps[job][i].0));
}

/// What the scheduler holds after any calls: a job is completed when some
/// call completed it and none killed it, in whatever order; it is dead when
/// some call killed it; its dependencies are those of its latest
/// registration that no `forget` cancelled.
proof fn lemma_run_state(ops: Seq<SchedulerOp>)
    ensures
        forall|d: u64| #[trigger]
            spec_run(ops).completed.contains(d) <==> ever_completed(ops, d) && !ever_killed(ops, d),
        forall|d: u64| #[trigger] spec_run(ops).dead.contains(d) <==> ever_killed(ops, d),
        forall|j: u64| #[trigger]
            spec_run(ops).deps.contains_key(j) <==> last_deps(ops, j) is Some,
        forall|j: u64|
            spec_run(ops).deps.contains_key(j) ==> last_deps(ops, j) == Some(#[trigger] spec_run(ops).deps[j]),
    decreases ops.len(),
{
    if ops.len() > 0 {
        let prev = ops.drop_last();
        lemma_run_state(prev);
        let s = spec_run(prev);
        assert(spec_run(ops) == spec_step(s, ops.last()));
        assert forall|d: u64|
            #[trigger] spec_run(ops).completed.contains(d) <==> ever_completed(ops, d) && !ever_killed(ops, d) by {
            assert(ever_completed(ops, d) == (ever_completed(prev, d) || (ops.last() matches SchedulerOp::Complete(x)
                && x.0 == d)));
            assert(ever_killed(ops, d) == (ever_killed(prev, d) || (ops.last() matches SchedulerOp::Kill(x) && x.0 == d)));
            assert(s.completed.contains(d) <==> ever_completed(prev, d) && !ever_killed(prev, d));
            assert(s.dead.contains(d) <==> ever_killed(prev, d));
        }
        assert forall|d: u64| #[trigger] spec_run(ops).dead.contains(d) <==> ever_killed(ops, d) by {
            assert(ever_killed(ops, d) == (ever_killed(prev, d) || (ops.last() matches SchedulerOp::Kill(x) && x.0 == d)));
            assert(s.dead.contains(d) <==> ever_killed(prev, d));
        }
    }
}

/// The readiness law over any history of calls on a new scheduler: a job is
/// ready exactly when it has no live registration, or every dependency of
/// its latest registration was marked completed and never marked dead; it
/// is blocked forever exactly when it has a live registration and some
/// dependency of it was marked dead at any point. Completed and dead jobs
/// never overlap, so no job is both ready and blocked.
pub proof fn lemma_scheduler_history(ops: Seq<SchedulerOp>, job: u64)
    ensures
        spec_is_ready(spec_run(ops), job) == match last_deps(ops, job) {
            None => true,
            Some(deps) => forall|i: int|
                0 <= i < deps.len() ==> ever_completed(ops, #[trigger] deps[i].0) && !ever_killed(
                    ops,
                    deps[i].0,
                ),
        },
        spec_is_blocked_forever(spec_run(ops), job) == match last_deps(ops, job) {
            None => false,
            Some(deps) => exists|i: int| 0 <= i < deps.len() && ever_killed(ops, #[trigger] deps[i].0),
        },
        spec_run(ops).completed.disjoint(spec_run(ops).dead),
        !(spec_is_ready(spec_run(ops), job) && spec_is_blocked_forever(spec_run(ops), job)),
{
    lemma_run_state(ops);
    let s = spec_run(ops);
    match last_deps(ops, job) {
        None => {
            assert(!s.deps.contains_key(job));
        },
        Some(deps) => {
            assert(s.deps.contains_key(job));
            assert(s.deps[job] == deps);
            if spec_is_ready(s, job) {
                assert forall|i: int| 0 <= i < deps.len() implies ever_completed(ops, #[trigger] deps[i].0)
                    && !ever_killed(ops, deps[i].0) by {
                    assert(s.completed.contains(s.deps[job][i].0));
                }
            } else {
                let i = choose|i: int|
                    0 <= i < s.deps[job].len() && !#[trigger] s.completed.contains(s.deps[job][i].0);
                assert(!(ever_completed(ops, deps[i].0) && !ever_killed(ops, deps[i].0)));
            }
            if spec_is_blocked_forever(s, job) {
                let i = choose|i: int| 0 <= i < s.deps[job].len() && #[trigger] s.dead.contains(s.deps[job][i].0);
                assert(ever_killed(ops, deps[i].0));
            } else {
                assert forall|i: int| 0 <= i < deps.len() implies !ever_killed(ops, #[trigger] deps[i].0) by {
                    assert(!s.dead.contains(s.deps[job][i].0));
                }
            }
        },
    }
    assert(s.completed.disjoint(s.dead)) by {
        assert forall|d: u64| !(s.completed.contains(d) && s.dead.contains(d)) by {}
    }
    if spec_is_ready(s, job) && spec_is_blocked_forever(s, job) {
        let i = choose|i: int| 0 <= i < s.deps[job].len() && #[trigger] s.dead.contains(s.deps[job][i].0);
        assert(s.completed.contains(s.deps[job][i].0));
    }
}

} // verus!
