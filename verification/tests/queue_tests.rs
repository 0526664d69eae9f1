use tpt_av_asset::asset::AssetId;
use tpt_av_asset::dispatch::{
    cancel_job, cancel_queued, finish_job, outcome_error, persisted_record, submit_job, take_next, CancelAction,
    JobOutcome, SubmittedMeta,
};
use tpt_av_asset::model::{AssetError, JobId, JobState, Priority};
use tpt_av_asset::queue::JobQueue;
use tpt_av_asset::scheduler::Scheduler;

fn push(queue: &mut JobQueue<JobId>, n: u64, priority: Priority) {
    queue.push(JobId(n), JobId(n), priority);
}

#[test]
fn dispatch_order_is_priority_then_fifo() {
    let mut queue = JobQueue::new();
    push(&mut queue, 1, Priority::Normal);
    push(&mut queue, 2, Priority::Low);
    push(&mut queue, 3, Priority::Critical);
    push(&mut queue, 4, Priority::Normal);
    assert_eq!(
        queue.priorities(),
        vec![Priority::Critical, Priority::Normal, Priority::Normal, Priority::Low]
    );
    assert_eq!(queue.pop_ready(|_| true).unwrap(), JobId(3), "critical jumps the queue");
    assert_eq!(queue.pop_ready(|_| true).unwrap(), JobId(1), "FIFO within priority");
    assert_eq!(queue.pop_ready(|_| true).unwrap(), JobId(4));
    assert_eq!(queue.pop_ready(|_| true).unwrap(), JobId(2));
    assert!(queue.is_empty());
}

#[test]
fn pop_ready_skips_unready_jobs() {
    let mut queue = JobQueue::new();
    push(&mut queue, 1, Priority::Normal);
    push(&mut queue, 2, Priority::Normal);
    let popped = queue.pop_ready(|id| id != JobId(1));
    assert_eq!(popped.unwrap(), JobId(2), "skips job 1, takes job 2");
    assert_eq!(queue.ids(), vec![JobId(1)]);
}

#[test]
fn remove_takes_queued_job_out() {
    let mut queue = JobQueue::new();
    push(&mut queue, 1, Priority::High);
    push(&mut queue, 2, Priority::Low);
    let removed = queue.remove(JobId(1)).unwrap();
    assert_eq!(removed, JobId(1));
    assert!(queue.remove(JobId(99)).is_none());
    assert_eq!(queue.len(), 1);
}

#[test]
fn pop_ready_with_nothing_ready_changes_nothing() {
    let mut queue = JobQueue::new();
    push(&mut queue, 1, Priority::High);
    push(&mut queue, 2, Priority::Low);
    assert!(queue.pop_ready(|_| false).is_none());
    assert_eq!(queue.ids(), vec![JobId(1), JobId(2)]);
    assert_eq!(queue.len(), 2);
}

#[test]
fn critical_priority_dispatches_first() {
    let mut queue = JobQueue::new();
    let mut scheduler = Scheduler::new();
    submit_job(&mut queue, &mut scheduler, 1u64, JobId(1), Priority::Low, vec![]);
    submit_job(&mut queue, &mut scheduler, 2u64, JobId(2), Priority::Critical, vec![]);
    submit_job(&mut queue, &mut scheduler, 3u64, JobId(3), Priority::Normal, vec![]);
    let mut order = Vec::new();
    loop {
        let next = take_next(&mut queue, &mut scheduler);
        assert!(next.cancelled.is_empty());
        match next.job {
            Some(job) => {
                assert_eq!(finish_job(&mut scheduler, JobId(job), JobOutcome::Succeeded), JobState::Completed);
                order.push(job);
            }
            None => break,
        }
    }
    assert_eq!(order, vec![2, 3, 1], "critical → normal → low");
}

#[test]
fn failed_dependency_cancels_dependent() {
    let mut queue = JobQueue::new();
    let mut scheduler = Scheduler::new();
    submit_job(&mut queue, &mut scheduler, 1u64, JobId(1), Priority::High, vec![]);
    submit_job(&mut queue, &mut scheduler, 2u64, JobId(2), Priority::Normal, vec![JobId(1)]);

    let first = take_next(&mut queue, &mut scheduler);
    assert_eq!(first.job, Some(1));
    assert_eq!(finish_job(&mut scheduler, JobId(1), JobOutcome::Failed), JobState::Failed);

    let second = take_next(&mut queue, &mut scheduler);
    assert_eq!(second.cancelled, vec![JobId(2)], "dependent of a failed job must never run");
    assert!(second.job.is_none());
    assert!(queue.is_empty());
    assert!(scheduler.is_blocked_forever(JobId(2)));
}

#[test]
fn dependent_waits_for_its_dependency() {
    let mut queue = JobQueue::new();
    let mut scheduler = Scheduler::new();
    submit_job(&mut queue, &mut scheduler, 2u64, JobId(2), Priority::Critical, vec![JobId(1)]);
    submit_job(&mut queue, &mut scheduler, 1u64, JobId(1), Priority::Low, vec![]);
    let first = take_next(&mut queue, &mut scheduler);
    assert_eq!(first.job, Some(1), "the critical job is not ready yet");
    assert!(take_next(&mut queue, &mut scheduler).job.is_none());
    finish_job(&mut scheduler, JobId(1), JobOutcome::Succeeded);
    assert_eq!(take_next(&mut queue, &mut scheduler).job, Some(2));
}

#[test]
fn cancel_queued_removes_and_blocks_dependents() {
    let mut queue = JobQueue::new();
    let mut scheduler = Scheduler::new();
    submit_job(&mut queue, &mut scheduler, 1u64, JobId(1), Priority::Normal, vec![]);
    submit_job(&mut queue, &mut scheduler, 2u64, JobId(2), Priority::Normal, vec![JobId(1)]);
    assert_eq!(cancel_queued(&mut queue, &mut scheduler, JobId(1)), Some(1));
    assert!(scheduler.is_blocked_forever(JobId(2)));
    assert_eq!(cancel_queued(&mut queue, &mut scheduler, JobId(7)), None);
    assert_eq!(queue.len(), 1);
}

#[test]
fn cancelled_outcome_marks_dead() {
    let mut scheduler = Scheduler::new();
    scheduler.register(JobId(2), vec![JobId(1)]);
    assert_eq!(finish_job(&mut scheduler, JobId(1), JobOutcome::Cancelled), JobState::Cancelled);
    assert!(scheduler.is_blocked_forever(JobId(2)));
}

#[test]
fn outcomes_are_recorded_with_their_messages() {
    assert_eq!(outcome_error(JobOutcome::Succeeded, "ignored"), None);
    assert_eq!(outcome_error(JobOutcome::Cancelled, "ignored").as_deref(), Some("cancelled"));
    assert_eq!(outcome_error(JobOutcome::Failed, "boom").as_deref(), Some("boom"));

    let meta = SubmittedMeta {
        asset_id: AssetId::from_parts(1, 2, 3),
        priority: Priority::High,
        kind: "waveform".into(),
        payload: "/a.wav\u{1}1024\u{1}48000".into(),
        created_ms: 10,
    };
    let record = persisted_record(JobId(9), &meta, JobState::Failed, 0.5f64.to_bits(), Some("boom".into()), 77);
    assert_eq!(record.job_id, 9);
    assert_eq!(record.state, JobState::Failed);
    assert_eq!(record.kind, "waveform");
    assert_eq!(record.payload, meta.payload);
    assert_eq!(record.resume_hint, 0);
    assert_eq!((record.created_ms, record.updated_ms), (10, 77));
    assert_eq!(record.error.as_deref(), Some("boom"));
}

#[test]
fn cancel_decides_unknown_queued_and_running() {
    let mut queue = JobQueue::new();
    let mut scheduler = Scheduler::new();
    submit_job(&mut queue, &mut scheduler, 1u64, JobId(1), Priority::Normal, vec![]);
    submit_job(&mut queue, &mut scheduler, 2u64, JobId(2), Priority::Normal, vec![JobId(1)]);
    assert!(matches!(
        cancel_job(&mut queue, &mut scheduler, false, JobId(9)),
        Err(AssetError::JobNotFound(9))
    ));
    assert_eq!(queue.len(), 2);
    assert_eq!(cancel_job(&mut queue, &mut scheduler, true, JobId(1)).unwrap(), CancelAction::Dequeued);
    assert!(scheduler.is_blocked_forever(JobId(2)));
    assert_eq!(queue.len(), 1);
    assert_eq!(cancel_job(&mut queue, &mut scheduler, true, JobId(1)).unwrap(), CancelAction::SignalRunning);
    assert_eq!(queue.len(), 1);
}
