//! Prioritized job queue and the dispatch decisions of the worker pool.
//!
//! Entries are kept sorted by priority (highest first) and, within a
//! priority class, by submission order — Critical first, FIFO within a
//! class. Popping consults a readiness predicate so the scheduler can hold
//! jobs back until their dependencies have completed.

use vstd::prelude::*;

use crate::model::{priority_rank, JobId, JobState, Priority};
use crate::scheduler::{spec_is_blocked_forever, spec_is_ready, Scheduler, SchedulerView};

verus! {

/// A queued job with its id, priority, and submission sequence number.
pub struct QueueEntry<J> {
    /// The job itself.
    pub job: J,
    /// Its id.
    pub id: JobId,
    /// Its priority.
    pub priority: Priority,
    /// Submission order.
    pub seq: u64,
}

/// `a` dispatches before `b`: higher priority, or same priority and
/// submitted earlier.
pub open spec fn dispatches_before<J>(a: QueueEntry<J>, b: QueueEntry<J>) -> bool {
    priority_rank(a.priority) > priority_rank(b.priority) || (priority_rank(a.priority)
        == priority_rank(b.priority) && a.seq < b.seq)
}

/// Entries are in dispatch order.
pub open spec fn in_dispatch_order<J>(s: Seq<QueueEntry<J>>) -> bool {
    forall|i: int, j: int| 0 <= i < j < s.len() ==> dispatches_before(#[trigger] s[i], #[trigger] s[j])
}

/// Priority-sorted job queue.
pub struct JobQueue<J> {
    entries: Vec<QueueEntry<J>>,
    next_seq: u64,
}

impl<J> View for JobQueue<J> {
    type V = Seq<QueueEntry<J>>;

    closed spec fn view(&self) -> Seq<QueueEntry<J>> {
        self.entries@
    }
}

impl<J> JobQueue<J> {
    /// Well-formedness: entries are in dispatch order and every entry was
    /// submitted before the next submission.
    pub closed spec fn wf(&self) -> bool {
        &&& in_dispatch_order(self.entries@)
        &&& forall|i: int| 0 <= i < self.entries@.len() ==> #[trigger] self.entries@[i].seq < self.next_seq
    }

    /// A well-formed queue is in dispatch order.
    pub proof fn lemma_wf_dispatch_order(&self)
        requires
            self.wf(),
        ensures
            in_dispatch_order(self@),
    {
    }

    /// Number of submissions so far (the next sequence number).
    pub closed spec fn submitted(&self) -> u64 {
        self.next_seq
    }

    /// Number of submissions so far.
    pub fn submitted_count(&self) -> (r: u64)
        ensures
            r == self.submitted(),
    {
        self.next_seq
    }

    /// Creates an empty queue.
    pub fn new() -> (q: JobQueue<J>)
        ensures
            q@ == Seq::<QueueEntry<J>>::empty(),
            q.submitted() == 0,
            q.wf(),
    {
        JobQueue { entries: Vec::new(), next_seq: 0 }
    }

    /// Enqueues a job behind every queued job of the same or higher
    /// priority and ahead of every lower-priority one.
    pub fn push(&mut self, job: J, id: JobId, priority: Priority)
        requires
            old(self).wf(),
            old(self).submitted() < u64::MAX,
        ensures
            final(self).wf(),
            final(self).submitted() == old(self).submitted() + 1,
            exists|i: int|
                0 <= i <= old(self)@.len() && final(self)@ == old(self)@.insert(
                    i,
                    QueueEntry { job, id, priority, seq: old(self).submitted() },
                ) && (forall|k: int|
                    0 <= k < i ==> priority_rank(#[trigger] old(self)@[k].priority) >= priority_rank(
                        priority,
                    )) && (forall|k: int|
                    i <= k < old(self)@.len() ==> priority_rank(#[trigger] old(self)@[k].priority)
                        < priority_rank(priority)),
    {
        let rank = priority.as_u8();
        let mut i: usize = 0;
        while i < self.entries.len() && self.entries[i].priority.as_u8() >= rank
            invariant
                self.wf(),
                i <= self.entries@.len(),
                forall|k: int| 0 <= k < i ==> priority_rank(#[trigger] self.entries@[k].priority) >= rank,
            decreases self.entries@.len() - i,
        {
            i += 1;
        }
        let ghost old_entries = self.entries@;
        let seq = self.next_seq;
        let entry = QueueEntry { job, id, priority, seq };
        proof {
            // Entries after the insertion point all rank lower.
            assert forall|k: int| i <= k < old_entries.len() implies priority_rank(
                #[trigger] old_entries[k].priority,
            ) < rank by {
                if k > i {
                    assert(dispatches_before(old_entries[i as int], old_entries[k]));
                }
            }
            let ne = old_entries.insert(i as int, entry);
            assert forall|a: int, b: int| 0 <= a < b < ne.len() implies dispatches_before(
                #[trigger] ne[a],
                #[trigger] ne[b],
            ) by {
                if b < i {
                    assert(dispatches_before(old_entries[a], old_entries[b]));
                } else if b == i {
                } else if a < i {
                    assert(ne[b] == old_entries[b - 1]);
                    if a < b - 1 {
                        assert(dispatches_before(old_entries[a], old_entries[b - 1]));
                    }
                } else if a == i {
                    assert(ne[b] == old_entries[b - 1]);
                } else {
                    assert(dispatches_before(old_entries[a - 1], old_entries[b - 1]));
                }
            }
        }
        let ghost ge = entry;
        self.entries.insert(i, entry);
        self.next_seq = seq + 1;
        proof {
            assert(self@ == old(self)@.insert(i as int, ge));
            assert(0 <= i <= old(self)@.len() && self@ == old(self)@.insert(i as int, ge) && (forall|k: int|
                0 <= k < i ==> priority_rank(#[trigger] old(self)@[k].priority) >= priority_rank(
                    priority,
                )) && (forall|k: int|
                i <= k < old(self)@.len() ==> priority_rank(#[trigger] old(self)@[k].priority)
                    < priority_rank(priority)));
        }
    }

    /// Pops the highest-priority job whose readiness check passes. Jobs
    /// ahead of it that aren't ready stay queued.
    pub fn pop_ready<F: Fn(JobId) -> bool>(&mut self, is_ready: F) -> (r: Option<J>)
        requires
            old(self).wf(),
            forall|id: JobId| is_ready.requires((id,)),
        ensures
            final(self).wf(),
            final(self).submitted() == old(self).submitted(),
            match r {
                Some(job) => exists|i: int|
                    0 <= i < old(self)@.len() && job == old(self)@[i].job && final(self)@ == old(
                        self,
                    )@.remove(i) && is_ready.ensures((old(self)@[i].id,), true) && forall|k: int|
                        0 <= k < i ==> is_ready.ensures((#[trigger] old(self)@[k].id,), false),
                None => final(self)@ == old(self)@ && forall|k: int|
                    0 <= k < old(self)@.len() ==> is_ready.ensures(
                        (#[trigger] old(self)@[k].id,),
                        false,
                    ),
            },
    {
        let mut i: usize = 0;
        while i < self.entries.len()
            invariant
                old(self).wf(),
                i <= self.entries@.len(),
                self.entries@ == old(self).entries@,
                self.next_seq == old(self).next_seq,
                forall|id: JobId| is_ready.requires((id,)),
                forall|k: int| 0 <= k < i ==> is_ready.ensures((#[trigger] self.entries@[k].id,), false),
            decreases self.entries@.len() - i,
        {
            let id = self.entries[i].id;
            let ready = is_ready(id);
            if ready {
                let ghost old_entries = self.entries@;
                proof {
                    let ne = old_entries.remove(i as int);
                    assert forall|a: int, b: int| 0 <= a < b < ne.len() implies dispatches_before(
                        #[trigger] ne[a],
                        #[trigger] ne[b],
                    ) by {
                        let oa = if a < i { a } else { a + 1 };
                        let ob = if b < i { b } else { b + 1 };
                        assert(ne[a] == old_entries[oa]);
                        assert(ne[b] == old_entries[ob]);
                        assert(dispatches_before(old_entries[oa], old_entries[ob]));
                    }
                    assert forall|k: int| 0 <= k < ne.len() implies #[trigger] ne[k].seq < self.next_seq by {
                        let ok = if k < i { k } else { k + 1 };
                        assert(ne[k] == old_entries[ok]);
                    }
                }
                let entry = self.entries.remove(i);
                return Some(entry.job);
            }
            i += 1;
        }
        None
    }

    /// Removes a queued job by id (for cancellation). Returns `None` if the
    /// job is not queued (it may be running or already finished).
    pub fn remove(&mut self, job_id: JobId) -> (r: Option<J>)
        requires
            old(self).wf(),
        ensures
            final(self).wf(),
            final(self).submitted() == old(self).submitted(),
            match r {
                Some(job) => exists|i: int|
                    0 <= i < old(self)@.len() && old(self)@[i].id == job_id && job == old(self)@[i].job
                        && final(self)@ == old(self)@.remove(i) && forall|k: int|
                        0 <= k < i ==> (#[trigger] old(self)@[k]).id != job_id,
                None => final(self)@ == old(self)@ && forall|k: int|
                    0 <= k < old(self)@.len() ==> (#[trigger] old(self)@[k]).id != job_id,
            },
    {
        let mut i: usize = 0;
        while i < self.entries.len()
            invariant
                old(self).wf(),
                i <= self.entries@.len(),
                self.entries@ == old(self).entries@,
                self.next_seq == old(self).next_seq,
                forall|k: int| 0 <= k < i ==> (#[trigger] self.entries@[k]).id != job_id,
            decreases self.entries@.len() - i,
        {
            if self.entries[i].id == job_id {
                let ghost old_entries = self.entries@;
                proof {
                    let ne = old_entries.remove(i as int);
                    assert forall|a: int, b: int| 0 <= a < b < ne.len() implies dispatches_before(
                        #[trigger] ne[a],
                        #[trigger] ne[b],
                    ) by {
                        let oa = if a < i { a } else { a + 1 };
                        let ob = if b < i { b } else { b + 1 };
                        assert(ne[a] == old_entries[oa]);
                        assert(ne[b] == old_entries[ob]);
                        assert(dispatches_before(old_entries[oa], old_entries[ob]));
                    }
                    assert forall|k: int| 0 <= k < ne.len() implies #[trigger] ne[k].seq < self.next_seq by {
                        let ok = if k < i { k } else { k + 1 };
                        assert(ne[k] == old_entries[ok]);
                    }
                }
                let entry = self.entries.remove(i);
                return Some(entry.job);
            }
            i += 1;
        }
        None
    }

    /// All queued job ids in dispatch order.
    pub fn ids(&self) -> (r: Vec<JobId>)
        ensures
            r@ == self@.map_values(|e: QueueEntry<J>| e.id),
    {
        let mut out: Vec<JobId> = Vec::new();
        let mut i: usize = 0;
        while i < self.entries.len()
            invariant
                i <= self.entries@.len(),
                out@ == self.entries@.subrange(0, i as int).map_values(|e: QueueEntry<J>| e.id),
            decreases self.entries@.len() - i,
        {
            out.push(self.entries[i].id);
            i += 1;
            proof {
                assert(out@ =~= self.entries@.subrange(0, i as int).map_values(|e: QueueEntry<J>| e.id));
            }
        }
        proof {
            assert(self.entries@.subrange(0, i as int) =~= self.entries@);
        }
        out
    }

    /// Priorities of queued jobs in dispatch order.
    pub fn priorities(&self) -> (r: Vec<Priority>)
        ensures
            r@ == self@.map_values(|e: QueueEntry<J>| e.priority),
    {
        let mut out: Vec<Priority> = Vec::new();
        let mut i: usize = 0;
        while i < self.entries.len()
            invariant
                i <= self.entries@.len(),
                out@ == self.entries@.subrange(0, i as int).map_values(|e: QueueEntry<J>| e.priority),
            decreases self.entries@.len() - i,
        {
            out.push(self.entries[i].priority);
            i += 1;
            proof {
                assert(out@ =~= self.entries@.subrange(0, i as int).map_values(
                    |e: QueueEntry<J>| e.priority,
                ));
            }
        }
        proof {
            assert(self.entries@.subrange(0, i as int) =~= self.entries@);
        }
        out
    }

    /// Number of queued jobs.
    pub fn len(&self) -> (r: usize)
        ensures
            r == self@.len(),
    {
        self.entries.len()
    }

    /// True if the queue holds no jobs.
    pub fn is_empty(&self) -> (r: bool)
        ensures
            r == (self@.len() == 0),
    {
        self.entries.len() == 0
    }

    /// Removes every queued job that can never run (some dependency failed
    /// or was cancelled) and returns their ids in dispatch order.
    pub fn remove_blocked(&mut self, scheduler: &Scheduler) -> (r: Vec<JobId>)
        requires
            old(self).wf(),
        ensures
            final(self).wf(),
            final(self).submitted() == old(self).submitted(),
            final(self)@ == old(self)@.filter(|e: QueueEntry<J>| !spec_is_blocked_forever(scheduler@, e.id.0)),
            r@ == old(self)@.filter(|e: QueueEntry<J>| spec_is_blocked_forever(scheduler@, e.id.0)).map_values(
                |e: QueueEntry<J>| e.id,
            ),
    {
        let ghost all = self.entries@;
        let ghost keep = |e: QueueEntry<J>| !spec_is_blocked_forever(scheduler@, e.id.0);
        let ghost drop = |e: QueueEntry<J>| spec_is_blocked_forever(scheduler@, e.id.0);
        let mut rest: Vec<QueueEntry<J>> = Vec::new();
        std::mem::swap(&mut rest, &mut self.entries);
        let mut kept: Vec<QueueEntry<J>> = Vec::new();
        let mut cancelled: Vec<JobId> = Vec::new();
        let ghost mut i: int = 0;
        while rest.len() > 0
            invariant
                0 <= i <= all.len(),
                in_dispatch_order(all),
                forall|k: int| 0 <= k < all.len() ==> #[trigger] all[k].seq < self.next_seq,
                self.next_seq == old(self).next_seq,
                all == old(self).entries@,
                rest@ == all.subrange(i, all.len() as int),
                kept@ == all.subrange(0, i).filter(keep),
                cancelled@ == all.subrange(0, i).filter(drop).map_values(|e: QueueEntry<J>| e.id),
                in_dispatch_order(kept@),
                forall|k: int| 0 <= k < kept@.len() ==> #[trigger] kept@[k].seq < self.next_seq,
                forall|a: int, b: int|
                    0 <= a < kept@.len() && 0 <= b < rest@.len() ==> dispatches_before(
                        #[trigger] kept@[a],
                        #[trigger] rest@[b],
                    ),
                keep == (|e: QueueEntry<J>| !spec_is_blocked_forever(scheduler@, e.id.0)),
                drop == (|e: QueueEntry<J>| spec_is_blocked_forever(scheduler@, e.id.0)),
            decreases rest.len(),
        {
            let ghost old_rest = rest@;
            let ghost old_kept = kept@;
            let e = rest.remove(0);
            proof {
                assert(e == all[i]);
                assert(all.subrange(0, i + 1) =~= all.subrange(0, i).push(e));
                reveal(Seq::filter);
                assert(all.subrange(0, i).push(e).drop_last() =~= all.subrange(0, i));
                assert forall|b: int| 0 <= b < rest@.len() implies dispatches_before(e, #[trigger] rest@[b]) by {
                    assert(rest@[b] == all[i + 1 + b]);
                    assert(dispatches_before(all[i], all[i + 1 + b]));
                }
                assert forall|a: int, b: int|
                    0 <= a < old_kept.len() && 0 <= b < rest@.len() implies dispatches_before(
                        #[trigger] old_kept[a],
                        #[trigger] rest@[b],
                    ) by {
                    assert(rest@[b] == old_rest[b + 1]);
                }
                assert forall|a: int| 0 <= a < old_kept.len() implies dispatches_before(
                    #[trigger] old_kept[a],
                    e,
                ) by {
                    assert(e == old_rest[0]);
                }
            }
            if scheduler.is_blocked_forever(e.id) {
                cancelled.push(e.id);
                proof {
                    assert(cancelled@ =~= all.subrange(0, i + 1).filter(drop).map_values(
                        |e: QueueEntry<J>| e.id,
                    ));
                }
            } else {
                kept.push(e);
                proof {
                    assert(cancelled@ =~= all.subrange(0, i + 1).filter(drop).map_values(
                        |e: QueueEntry<J>| e.id,
                    ));
                }
            }
            proof {
                i = i + 1;
                assert(rest@ =~= all.subrange(i, all.len() as int));
            }
        }
        proof {
            assert(all.subrange(0, i) =~= all);
        }
        self.entries = kept;
        cancelled
    }
}

} // verus!
