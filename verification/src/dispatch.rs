//! The decisions of the worker pool, apart from the threads that carry
//! them out: which job runs next, which queued jobs are cancelled because a
//! dependency died, what a job's outcome does to the scheduler, and how a
//! submission or a cancellation changes the queue.

use vstd::prelude::*;

use crate::asset::AssetId;
use crate::model::{AssetError, JobId, JobState, Priority};
use crate::queue::{JobQueue, QueueEntry};
use crate::scheduler::{spec_is_blocked_forever, spec_is_ready, Scheduler, SchedulerView};
use crate::tables::{opt_string_view, JobRecord, JobRecordView};

verus! {

/// The scheduler state after marking each of `ids` dead, in order.
pub open spec fn mark_all_dead(s: SchedulerView, ids: Seq<JobId>) -> SchedulerView
    decreases ids.len(),
{
    if ids.len() == 0 {
        s
    } else {
        let t = mark_all_dead(s, ids.drop_last());
        SchedulerView {
            deps: t.deps,
            completed: t.completed.remove(ids.last().0),
            dead: t.dead.insert(ids.last().0),
        }
    }
}

/// What one worker step decided.
pub struct Dispatch<J> {
    /// Queued jobs cancelled because a dependency failed or was cancelled.
    pub cancelled: Vec<JobId>,
    /// The job to run next, if any is ready.
    pub job: Option<J>,
}

/// One worker step: sweeps jobs that can never run out of the queue
/// (marking them dead, so their own dependents are swept next time), then
/// pops the highest-priority job whose dependencies have all completed.
pub fn take_next<J>(queue: &mut JobQueue<J>, scheduler: &mut Scheduler) -> (r: Dispatch<J>)
    requires
        old(queue).wf(),
    ensures
        final(queue).wf(),
        final(queue).submitted() == old(queue).submitted(),
        r.cancelled@ == old(queue)@.filter(
            |e: QueueEntry<J>| spec_is_blocked_forever(old(scheduler)@, e.id.0),
        ).map_values(|e: QueueEntry<J>| e.id),
        final(scheduler)@ == mark_all_dead(old(scheduler)@, r.cancelled@),
        ({
            let kept = old(queue)@.filter(
                |e: QueueEntry<J>| !spec_is_blocked_forever(old(scheduler)@, e.id.0),
            );
            match r.job {
                Some(job) => exists|i: int|
                    0 <= i < kept.len() && job == kept[i].job && final(queue)@ == kept.remove(i)
                        && spec_is_ready(final(scheduler)@, kept[i].id.0) && forall|k: int|
                        0 <= k < i ==> !spec_is_ready(final(scheduler)@, (#[trigger] kept[k]).id.0),
                None => final(queue)@ == kept && forall|k: int|
                    0 <= k < kept.len() ==> !spec_is_ready(final(scheduler)@, (#[trigger] kept[k]).id.0),
            }
        }),
{
    let cancelled = queue.remove_blocked(scheduler);
    let ghost start = scheduler@;
    let mut i: usize = 0;
    while i < cancelled.len()
        invariant
            i <= cancelled@.len(),
            scheduler@ == mark_all_dead(start, cancelled@.subrange(0, i as int)),
        decreases cancelled@.len() - i,
    {
        scheduler.mark_dead(cancelled[i]);
        proof {
            let done = cancelled@.subrange(0, i + 1);
            assert(done.drop_last() =~= cancelled@.subrange(0, i as int));
            assert(done.last() == cancelled@[i as int]);
        }
        i += 1;
    }
    proof {
        assert(cancelled@.subrange(0, i as int) =~= cancelled@);
    }
    let sched: &Scheduler = scheduler;
    let ready = |id: JobId| -> (b: bool)
        ensures
            b == spec_is_ready(sched@, id.0),
        { sched.is_ready(id) };
    let job = queue.pop_ready(ready);
    Dispatch { cancelled, job }
}

/// A job that is dispatched is never one that some dead dependency blocks:
/// a dependency that is dead is no longer completed, so the job is not
/// ready, and a job blocked before the step was swept out of the queue.
pub proof fn lemma_dispatched_job_not_blocked(s: SchedulerView, job: u64)
    requires
        spec_is_ready(s, job),
        s.completed.disjoint(s.dead),
    ensures
        !spec_is_blocked_forever(s, job),
{
    if spec_is_blocked_forever(s, job) {
        let i = choose|i: int| 0 <= i < s.deps[job].len() && #[trigger] s.dead.contains(s.deps[job][i].0);
        assert(s.completed.contains(s.deps[job][i].0));
    }
}

/// Marking jobs dead keeps completed and dead jobs apart.
pub proof fn lemma_mark_all_dead_disjoint(s: SchedulerView, ids: Seq<JobId>)
    requires
        s.completed.disjoint(s.dead),
    ensures
        mark_all_dead(s, ids).completed.disjoint(mark_all_dead(s, ids).dead),
        mark_all_dead(s, ids).deps == s.deps,
    decreases ids.len(),
{
    if ids.len() > 0 {
        lemma_mark_all_dead_disjoint(s, ids.drop_last());
    }
}

/// How a job run ended.
#[derive(Debug, Clone, Copy, PartialEq, Eq, Structural)]
pub enum JobOutcome {
    /// `execute` returned `Ok`.
    Succeeded,
    /// `execute` stopped on a cancellation request.
    Cancelled,
    /// `execute` returned another error, or panicked.
    Failed,
}

/// The terminal state a job run ends in.
pub open spec fn outcome_state(o: JobOutcome) -> JobState {
    match o {
        JobOutcome::Succeeded => JobState::Completed,
        JobOutcome::Cancelled => JobState::Cancelled,
        JobOutcome::Failed => JobState::Failed,
    }
}

/// Records a finished run: a completed job unblocks its dependents; a
/// failed or cancelled one blocks them forever. Returns the terminal state.
pub fn finish_job(scheduler: &mut Scheduler, id: JobId, outcome: JobOutcome) -> (r: JobState)
    ensures
        r == outcome_state(outcome),
        r is Completed ==> final(scheduler)@ == (SchedulerView {
            deps: old(scheduler)@.deps,
            completed: if old(scheduler)@.dead.contains(id.0) {
                old(scheduler)@.completed
            } else {
                old(scheduler)@.completed.insert(id.0)
            },
            dead: old(scheduler)@.dead,
        }),
        !(r is Completed) ==> final(scheduler)@ == (SchedulerView {
            deps: old(scheduler)@.deps,
            completed: old(scheduler)@.completed.remove(id.0),
            dead: old(scheduler)@.dead.insert(id.0),
        }),
{
    let state = match outcome {
        JobOutcome::Succeeded => JobState::Completed,
        JobOutcome::Cancelled => JobState::Cancelled,
        JobOutcome::Failed => JobState::Failed,
    };
    match state {
        JobState::Completed => scheduler.mark_completed(id),
        _ => scheduler.mark_dead(id),
    }
    state
}

/// The error message a finished run is recorded with: none on success,
/// `"cancelled"` on cancellation, and `failure` (the error's text, or a
/// note that the job panicked) on failure.
pub fn outcome_error(outcome: JobOutcome, failure: &str) -> (r: Option<String>)
    ensures
        match outcome {
            JobOutcome::Succeeded => r is None,
            JobOutcome::Cancelled => r matches Some(m) && m@ == "cancelled"@,
            JobOutcome::Failed => r matches Some(m) && m@ == failure@,
        },
{
    match outcome {
        JobOutcome::Succeeded => None,
        JobOutcome::Cancelled => Some(String::from_str("cancelled")),
        JobOutcome::Failed => Some(String::from_str(failure)),
    }
}

/// What a pipeline keeps about a job from its submission, to persist every
/// state change.
#[derive(Debug)]
pub struct SubmittedMeta {
    /// The asset the job processes.
    pub asset_id: AssetId,
    /// Queue priority.
    pub priority: Priority,
    /// Job kind tag.
    pub kind: String,
    /// Persisted parameters.
    pub payload: String,
    /// Submission time (Unix ms).
    pub created_ms: u64,
}

/// The record persisted for a job at a state change.
pub fn persisted_record(
    job_id: JobId,
    meta: &SubmittedMeta,
    state: JobState,
    progress: u64,
    error: Option<String>,
    now_ms: u64,
) -> (r: JobRecord)
    ensures
        r@ == (JobRecordView {
            job_id: job_id.0,
            asset_id: meta.asset_id,
            priority: meta.priority,
            state,
            kind: meta.kind@,
            progress,
            resume_hint: 0,
            payload: meta.payload@,
            created_ms: meta.created_ms,
            updated_ms: now_ms,
            error: opt_string_view(error),
        }),
{
    JobRecord {
        job_id: job_id.0,
        asset_id: meta.asset_id,
        priority: meta.priority,
        state,
        kind: meta.kind.clone(),
        progress,
        resume_hint: 0,
        payload: meta.payload.clone(),
        created_ms: meta.created_ms,
        updated_ms: now_ms,
        error,
    }
}

/// Submits a job: registers its dependency edges, then queues it by
/// priority.
pub fn submit_job<J>(
    queue: &mut JobQueue<J>,
    scheduler: &mut Scheduler,
    job: J,
    id: JobId,
    priority: Priority,
    deps: Vec<JobId>,
)
    requires
        old(queue).wf(),
        old(queue).submitted() < u64::MAX,
    ensures
        final(queue).wf(),
        final(queue).submitted() == old(queue).submitted() + 1,
        final(scheduler)@ == (SchedulerView {
            deps: old(scheduler)@.deps.insert(id.0, deps@),
            completed: old(scheduler)@.completed,
            dead: old(scheduler)@.dead,
        }),
        exists|i: int|
            0 <= i <= old(queue)@.len() && final(queue)@ == old(queue)@.insert(
                i,
                QueueEntry { job, id, priority, seq: old(queue).submitted() },
            ),
{
    scheduler.register(id, deps);
    queue.push(job, id, priority);
}

/// Cancels a job that is still queued: removes it and marks it dead so its
/// dependents never run. Returns `None`, changing nothing, when the job is
/// not queued (it may be running or finished).
pub fn cancel_queued<J>(queue: &mut JobQueue<J>, scheduler: &mut Scheduler, id: JobId) -> (r: Option<J>)
    requires
        old(queue).wf(),
    ensures
        final(queue).wf(),
        match r {
            Some(job) => exists|i: int|
                0 <= i < old(queue)@.len() && old(queue)@[i].id == id && job == old(queue)@[i].job
                    && final(queue)@ == old(queue)@.remove(i) && final(scheduler)@ == (SchedulerView {
                    deps: old(scheduler)@.deps,
                    completed: old(scheduler)@.completed.remove(id.0),
                    dead: old(scheduler)@.dead.insert(id.0),
                }),
            None => final(queue)@ == old(queue)@ && final(scheduler)@ == old(scheduler)@ && forall|k: int|
                0 <= k < old(queue)@.len() ==> (#[trigger] old(queue)@[k]).id != id,
        },
{
    match queue.remove(id) {
        Some(job) => {
            scheduler.mark_dead(id);
            Some(job)
        },
        None => None,
    }
}

/// What cancelling a job does.
#[derive(Debug, Clone, Copy, PartialEq, Eq, Structural)]
pub enum CancelAction {
    /// The job was queued: it is taken out and must be recorded cancelled.
    Dequeued,
    /// The job is not queued: if it is running, its cancellation flag is to
    /// be raised; a finished job is left as it is.
    SignalRunning,
}

/// The decision of a cancellation request: a job the tracker does not know
/// is `JobNotFound`; a queued job is taken out of the queue and marked dead
/// (as [`cancel_queued`] does); any other is left to its worker to stop.
pub fn cancel_job<J>(queue: &mut JobQueue<J>, scheduler: &mut Scheduler, known: bool, id: JobId) -> (r: Result<
    CancelAction,
    AssetError,
>)
    requires
        old(queue).wf(),
    ensures
        final(queue).wf(),
        !known ==> (r matches Err(e) && e == AssetError::JobNotFound(id.0)),
        !known ==> final(queue)@ == old(queue)@ && final(scheduler)@ == old(scheduler)@,
        known ==> r is Ok,
        r == Ok::<CancelAction, AssetError>(CancelAction::Dequeued) ==> exists|i: int|
            0 <= i < old(queue)@.len() && old(queue)@[i].id == id && final(queue)@ == old(queue)@.remove(i)
                && final(scheduler)@ == (SchedulerView {
                deps: old(scheduler)@.deps,
                completed: old(scheduler)@.completed.remove(id.0),
                dead: old(scheduler)@.dead.insert(id.0),
            }),
        r == Ok::<CancelAction, AssetError>(CancelAction::SignalRunning) ==> final(queue)@ == old(queue)@
            && final(scheduler)@ == old(scheduler)@ && forall|k: int|
            0 <= k < old(queue)@.len() ==> (#[trigger] old(queue)@[k]).id != id,
{
    if !known {
        return Err(AssetError::JobNotFound(id.0));
    }
    match cancel_queued(queue, scheduler, id) {
        Some(_) => Ok(CancelAction::Dequeued),
        None => Ok(CancelAction::SignalRunning),
    }
}

} // verus!
