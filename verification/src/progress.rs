//! Progress bookkeeping for pipeline jobs: one record per registered job,
//! updated as the job reports progress and changes state. Fractions are
//! `f64` values held as their IEEE-754 bits; waiting for changes is the
//! caller's part.

use vstd::prelude::*;

use crate::model::{job_state_terminal, AssetError, JobId, JobState};

verus! {

broadcast use vstd::seq::group_seq_axioms;

/// Bits of `0.0`.
pub const ZERO_BITS: u64 = 0;

/// Bits of `1.0`.
pub const ONE_BITS: u64 = 0x3FF0_0000_0000_0000;

/// The progress of one job.
#[derive(Debug)]
pub struct JobProgress {
    /// Job identifier.
    pub job_id: JobId,
    /// Current state.
    pub state: JobState,
    /// Completion fraction in `[0, 1]` (IEEE-754 bits).
    pub fraction: u64,
    /// Optional status message.
    pub message: Option<String>,
    /// Milliseconds since the epoch of the last update.
    pub updated_ms: u64,
}

/// Abstract progress record.
pub struct JobProgressView {
    pub job_id: JobId,
    pub state: JobState,
    pub fraction: u64,
    pub message: Option<Seq<char>>,
    pub updated_ms: u64,
}

/// The view of an optional message.
pub open spec fn opt_text(m: Option<String>) -> Option<Seq<char>> {
    match m {
        Some(s) => Some(s@),
        None => None,
    }
}

impl View for JobProgress {
    type V = JobProgressView;

    open spec fn view(&self) -> JobProgressView {
        JobProgressView {
            job_id: self.job_id,
            state: self.state,
            fraction: self.fraction,
            message: opt_text(self.message),
            updated_ms: self.updated_ms,
        }
    }
}

/// A copy of an optional message.
fn copy_message(m: &Option<String>) -> (r: Option<String>)
    ensures
        opt_text(r) == opt_text(*m),
{
    match m {
        Some(s) => Some(s.clone()),
        None => None,
    }
}

impl JobProgress {
    /// True if the job reached a terminal state.
    pub fn is_terminal(&self) -> (r: bool)
        ensures
            r == job_state_terminal(self.state),
    {
        self.state.is_terminal()
    }

    /// A copy of this record.
    pub fn copy(&self) -> (r: JobProgress)
        ensures
            r@ == self@,
    {
        JobProgress {
            job_id: self.job_id,
            state: self.state,
            fraction: self.fraction,
            message: copy_message(&self.message),
            updated_ms: self.updated_ms,
        }
    }
}

/// Whether `bits` is a NaN.
pub open spec fn is_nan_bits(bits: u64) -> bool {
    bits & 0x7FF0_0000_0000_0000 == 0x7FF0_0000_0000_0000 && bits & 0x000F_FFFF_FFFF_FFFF != 0
}

/// `f64::clamp(x, 0.0, 1.0)` on the bits of `x`: NaN and either zero stay
/// as they are, values below zero become `0.0`, values above one become
/// `1.0`.
pub open spec fn spec_clamp_unit(bits: u64) -> u64 {
    if is_nan_bits(bits) {
        bits
    } else if bits >= 0x8000_0000_0000_0000 {
        if bits == 0x8000_0000_0000_0000 {
            bits
        } else {
            ZERO_BITS
        }
    } else if bits > ONE_BITS {
        ONE_BITS
    } else {
        bits
    }
}

/// Clamps a fraction (IEEE-754 bits) to `[0, 1]` as `f64::clamp` does.
pub fn clamp_unit(bits: u64) -> (r: u64)
    ensures
        r == spec_clamp_unit(bits),
{
    if bits & 0x7FF0_0000_0000_0000 == 0x7FF0_0000_0000_0000 && bits & 0x000F_FFFF_FFFF_FFFF != 0 {
        bits
    } else if bits >= 0x8000_0000_0000_0000 {
        if bits == 0x8000_0000_0000_0000 {
            bits
        } else {
            ZERO_BITS
        }
    } else if bits > ONE_BITS {
        ONE_BITS
    } else {
        bits
    }
}

/// The record of `id` among `jobs` (the first one registered under it).
pub open spec fn lookup(jobs: Seq<JobProgressView>, id: JobId) -> Option<JobProgressView>
    decreases jobs.len(),
{
    if jobs.len() == 0 {
        None
    } else if jobs[0].job_id == id {
        Some(jobs[0])
    } else {
        lookup(jobs.drop_first(), id)
    }
}

/// Position of the record of `id`, if any.
pub open spec fn position(jobs: Seq<JobProgressView>, id: JobId) -> Option<int>
    decreases jobs.len(),
{
    if jobs.len() == 0 {
        None
    } else if jobs[0].job_id == id {
        Some(0)
    } else {
        match position(jobs.drop_first(), id) {
            Some(p) => Some(p + 1),
            None => None,
        }
    }
}

/// `position` finds the first record of `id`, and `lookup` is what is
/// there.
proof fn lemma_position(jobs: Seq<JobProgressView>, id: JobId)
    ensures
        match position(jobs, id) {
            Some(p) => 0 <= p < jobs.len() && jobs[p].job_id == id && lookup(jobs, id) == Some(
                jobs[p],
            ) && forall|k: int| 0 <= k < p ==> (#[trigger] jobs[k]).job_id != id,
            None => lookup(jobs, id) is None && forall|k: int|
                0 <= k < jobs.len() ==> (#[trigger] jobs[k]).job_id != id,
        },
    decreases jobs.len(),
{
    if jobs.len() > 0 && jobs[0].job_id != id {
        lemma_position(jobs.drop_first(), id);
        assert forall|k: int| 0 < k < jobs.len() implies jobs[k] == jobs.drop_first()[k - 1] by {}
    }
}

/// Replacing record `p` (the first of its id) with one of the same id
/// makes it what `lookup` finds, and leaves other ids alone.
proof fn lemma_lookup_update(jobs: Seq<JobProgressView>, p: int, v: JobProgressView, other: JobId)
    requires
        position(jobs, v.job_id) == Some(p),
    ensures
        lookup(jobs.update(p, v), v.job_id) == Some(v),
        other != v.job_id ==> lookup(jobs.update(p, v), other) == lookup(jobs, other),
    decreases jobs.len(),
{
    lemma_position(jobs, v.job_id);
    if p > 0 {
        assert(jobs.update(p, v)[0] == jobs[0]);
        assert(jobs.update(p, v).drop_first() =~= jobs.drop_first().update(p - 1, v));
        assert(position(jobs.drop_first(), v.job_id) == Some(p - 1));
        lemma_lookup_update(jobs.drop_first(), p - 1, v, other);
    } else {
        assert(jobs.update(0, v)[0] == v);
        assert(jobs.update(0, v).drop_first() =~= jobs.drop_first());
    }
}

/// Appending a record of a new id makes it what `lookup` finds, and leaves
/// other ids alone.
proof fn lemma_lookup_push(jobs: Seq<JobProgressView>, v: JobProgressView, other: JobId)
    requires
        position(jobs, v.job_id) is None,
    ensures
        lookup(jobs.push(v), v.job_id) == Some(v),
        other != v.job_id ==> lookup(jobs.push(v), other) == lookup(jobs, other),
        position(jobs.push(v), v.job_id) == Some(jobs.len() as int),
    decreases jobs.len(),
{
    if jobs.len() > 0 {
        assert(jobs.push(v)[0] == jobs[0]);
        assert(jobs.push(v).drop_first() =~= jobs.drop_first().push(v));
        assert(jobs[0].job_id != v.job_id);
        assert(position(jobs.drop_first(), v.job_id) is None);
        lemma_lookup_push(jobs.drop_first(), v, other);
    } else {
        assert(jobs.push(v)[0] == v);
        assert(jobs.push(v).drop_first() =~= Seq::<JobProgressView>::empty());
        assert(lookup(Seq::<JobProgressView>::empty(), other) is None);
        if other != v.job_id {
            assert(lookup(jobs.push(v), other) == lookup(jobs.push(v).drop_first(), other));
        }
    }
}

/// Progress records of the registered jobs.
#[derive(Debug)]
pub struct ProgressBook {
    jobs: Vec<JobProgress>,
}

impl View for ProgressBook {
    type V = Seq<JobProgressView>;

    closed spec fn view(&self) -> Seq<JobProgressView> {
        self.jobs@.map_values(|j: JobProgress| j@)
    }
}

impl ProgressBook {
    /// An empty book.
    pub fn new() -> (r: ProgressBook)
        ensures
            r@ == Seq::<JobProgressView>::empty(),
            forall|id: JobId| lookup(r@, id) is None,
    {
        let r = ProgressBook { jobs: Vec::new() };
        proof {
            assert(r@ =~= Seq::<JobProgressView>::empty());
        }
        r
    }

    /// Index of the record of `id`.
    fn find(&self, id: JobId) -> (r: Option<usize>)
        ensures
            match r {
                Some(i) => position(self@, id) == Some(i as int),
                None => position(self@, id) is None,
            },
    {
        proof {
            lemma_position(self@, id);
        }
        let mut i: usize = 0;
        while i < self.jobs.len()
            invariant
                i <= self.jobs@.len(),
                self@ == self.jobs@.map_values(|j: JobProgress| j@),
                forall|k: int| 0 <= k < i ==> (#[trigger] self@[k]).job_id != id,
                match position(self@, id) {
                    Some(p) => 0 <= p < self@.len() && self@[p].job_id == id && forall|k: int|
                        0 <= k < p ==> (#[trigger] self@[k]).job_id != id,
                    None => forall|k: int| 0 <= k < self@.len() ==> (#[trigger] self@[k]).job_id != id,
                },
            decreases self.jobs@.len() - i,
        {
            if self.jobs[i].job_id == id {
                proof {
                    assert(self@[i as int].job_id == id);
                }
                return Some(i);
            }
            proof {
                assert(self@[i as int].job_id != id);
            }
            i += 1;
        }
        None
    }

    /// Starts tracking a job: pending, no progress, no message. A job
    /// registered again starts over.
    pub fn register(&mut self, job_id: JobId, now_ms: u64)
        ensures
            lookup(final(self)@, job_id) == Some(
                JobProgressView {
                    job_id,
                    state: JobState::Pending,
                    fraction: ZERO_BITS,
                    message: None,
                    updated_ms: now_ms,
                },
            ),
            forall|other: JobId| other != job_id ==> lookup(final(self)@, other) == lookup(old(self)@, other),
    {
        let fresh = JobProgress {
            job_id,
            state: JobState::Pending,
            fraction: ZERO_BITS,
            message: None,
            updated_ms: now_ms,
        };
        let ghost old_view = self@;
        proof {
            lemma_position(old_view, job_id);
        }
        match self.find(job_id) {
            Some(i) => {
                let ghost v = fresh@;
                self.jobs.set(i, fresh);
                proof {
                    assert(self@ =~= old_view.update(i as int, v));
                    assert forall|other: JobId| other != job_id implies lookup(self@, other) == lookup(
                        old_view,
                        other,
                    ) by {
                        lemma_lookup_update(old_view, i as int, v, other);
                    }
                    lemma_lookup_update(old_view, i as int, v, job_id);
                }
            },
            None => {
                let ghost v = fresh@;
                self.jobs.push(fresh);
                proof {
                    assert(self@ =~= old_view.push(v));
                    assert forall|other: JobId| other != job_id implies lookup(self@, other) == lookup(
                        old_view,
                        other,
                    ) by {
                        lemma_lookup_push(old_view, v, other);
                    }
                    lemma_lookup_push(old_view, v, job_id);
                }
            },
        }
    }

    /// Records reported progress of a tracked job (the fraction clamped to
    /// `[0, 1]`); unknown jobs are ignored.
    pub fn update_fraction(&mut self, job_id: JobId, fraction: u64, message: Option<String>, now_ms: u64)
        ensures
            match lookup(old(self)@, job_id) {
                Some(p) => lookup(final(self)@, job_id) == Some(
                    JobProgressView {
                        fraction: spec_clamp_unit(fraction),
                        message: opt_text(message),
                        updated_ms: now_ms,
                        ..p
                    },
                ),
                None => lookup(final(self)@, job_id) is None,
            },
            forall|other: JobId| other != job_id ==> lookup(final(self)@, other) == lookup(old(self)@, other),
    {
        let ghost old_view = self@;
        proof {
            lemma_position(old_view, job_id);
        }
        match self.find(job_id) {
            Some(i) => {
                let p = &self.jobs[i];
                let updated = JobProgress {
                    job_id: p.job_id,
                    state: p.state,
                    fraction: clamp_unit(fraction),
                    message,
                    updated_ms: now_ms,
                };
                let ghost v = updated@;
                self.jobs.set(i, updated);
                proof {
                    assert(self@ =~= old_view.update(i as int, v));
                    assert forall|other: JobId| other != job_id implies lookup(self@, other) == lookup(
                        old_view,
                        other,
                    ) by {
                        lemma_lookup_update(old_view, i as int, v, other);
                    }
                    lemma_lookup_update(old_view, i as int, v, job_id);
                }
            },
            None => {},
        }
    }

    /// Records a state change of a tracked job; completing it sets the
    /// fraction to one. Unknown jobs are ignored.
    pub fn update_state(&mut self, job_id: JobId, state: JobState, now_ms: u64)
        ensures
            match lookup(old(self)@, job_id) {
                Some(p) => lookup(final(self)@, job_id) == Some(
                    JobProgressView {
                        state,
                        fraction: if state == JobState::Completed {
                            ONE_BITS
                        } else {
                            p.fraction
                        },
                        updated_ms: now_ms,
                        ..p
                    },
                ),
                None => lookup(final(self)@, job_id) is None,
            },
            forall|other: JobId| other != job_id ==> lookup(final(self)@, other) == lookup(old(self)@, other),
    {
        let ghost old_view = self@;
        proof {
            lemma_position(old_view, job_id);
        }
        match self.find(job_id) {
            Some(i) => {
                let p = &self.jobs[i];
                let fraction = match state {
                    JobState::Completed => ONE_BITS,
                    _ => p.fraction,
                };
                let updated = JobProgress {
                    job_id: p.job_id,
                    state,
                    fraction,
                    message: copy_message(&p.message),
                    updated_ms: now_ms,
                };
                let ghost v = updated@;
                self.jobs.set(i, updated);
                proof {
                    assert(self@ =~= old_view.update(i as int, v));
                    assert forall|other: JobId| other != job_id implies lookup(self@, other) == lookup(
                        old_view,
                        other,
                    ) by {
                        lemma_lookup_update(old_view, i as int, v, other);
                    }
                    lemma_lookup_update(old_view, i as int, v, job_id);
                }
            },
            None => {},
        }
    }

    /// The current progress of a job, if tracked.
    pub fn snapshot(&self, job_id: JobId) -> (r: Option<JobProgress>)
        ensures
            match r {
                Some(p) => lookup(self@, job_id) == Some(p@),
                None => lookup(self@, job_id) is None,
            },
    {
        proof {
            lemma_position(self@, job_id);
        }
        match self.find(job_id) {
            Some(i) => Some(self.jobs[i].copy()),
            None => None,
        }
    }

    /// The progress of every tracked job, in registration order.
    pub fn snapshots(&self) -> (r: Vec<JobProgress>)
        ensures
            r@.map_values(|j: JobProgress| j@) == self@,
    {
        let mut out: Vec<JobProgress> = Vec::new();
        let mut i: usize = 0;
        while i < self.jobs.len()
            invariant
                i <= self.jobs@.len(),
                self@ == self.jobs@.map_values(|j: JobProgress| j@),
                out@.map_values(|j: JobProgress| j@) == self@.take(i as int),
            decreases self.jobs@.len() - i,
        {
            let c = self.jobs[i].copy();
            let ghost before = out@.map_values(|j: JobProgress| j@);
            out.push(c);
            proof {
                assert(out@.map_values(|j: JobProgress| j@) =~= before.push(self@[i as int]));
                assert(self@.take((i + 1) as int) =~= self@.take(i as int).push(self@[i as int]));
            }
            i += 1;
        }
        proof {
            assert(self@.take(self@.len() as int) =~= self@);
        }
        out
    }

    /// One step of waiting for a job: `Err(JobNotFound)` for a job that is
    /// not tracked, `Ok(Some(..))` with its progress once it is terminal,
    /// and `Ok(None)` while the waiter has to keep waiting.
    pub fn wait_step(&self, job_id: JobId) -> (r: Result<Option<JobProgress>, AssetError>)
        ensures
            lookup(self@, job_id) is None <==> (r matches Err(e) && e == AssetError::JobNotFound(job_id.0)),
            match lookup(self@, job_id) {
                Some(p) => if job_state_terminal(p.state) {
                    r matches Ok(Some(q)) && q@ == p
                } else {
                    r matches Ok(None)
                },
                None => true,
            },
    {
        match self.snapshot(job_id) {
            None => Err(AssetError::JobNotFound(job_id.0)),
            Some(p) => if p.is_terminal() {
                Ok(Some(p))
            } else {
                Ok(None)
            },
        }
    }

    /// True when every tracked job is in a terminal state.
    pub fn all_terminal(&self) -> (r: bool)
        ensures
            r == forall|k: int| 0 <= k < self@.len() ==> job_state_terminal(#[trigger] self@[k].state),
    {
        let mut i: usize = 0;
        while i < self.jobs.len()
            invariant
                i <= self.jobs@.len(),
                self@ == self.jobs@.map_values(|j: JobProgress| j@),
                forall|k: int| 0 <= k < i ==> job_state_terminal(#[trigger] self@[k].state),
            decreases self.jobs@.len() - i,
        {
            if !self.jobs[i].state.is_terminal() {
                proof {
                    assert(!job_state_terminal(self@[i as int].state));
                }
                return false;
            }
            i += 1;
        }
        true
    }
}

} // verus!
