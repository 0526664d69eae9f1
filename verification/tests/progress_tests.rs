use tpt_av_asset::model::{AssetError, JobId, JobState};
use tpt_av_asset::progress::{clamp_unit, ProgressBook, ONE_BITS};

#[test]
fn lifecycle_and_reporting() {
    let mut tracker = ProgressBook::new();
    let id = JobId(7);
    tracker.register(id, 1);
    assert_eq!(tracker.snapshot(id).unwrap().state, JobState::Pending);

    tracker.update_fraction(id, 0.5f64.to_bits(), None, 2);
    let snap = tracker.snapshot(id).unwrap();
    assert_eq!(snap.state, JobState::Pending);
    assert!((f64::from_bits(snap.fraction) - 0.5).abs() < f64::EPSILON);

    tracker.update_state(id, JobState::Completed, 3);
    let done = tracker.snapshot(id).unwrap();
    assert_eq!(done.state, JobState::Completed);
    assert!(
        (f64::from_bits(done.fraction) - 1.0).abs() < f64::EPSILON,
        "completion saturates"
    );
}

#[test]
fn wait_for_timeout_returns_snapshot() {
    let mut tracker = ProgressBook::new();
    let id = JobId(9);
    tracker.register(id, 0);
    let snap = tracker.snapshot(id).unwrap();
    assert_eq!(snap.state, JobState::Pending);
}

#[test]
fn wait_all_waits_for_every_job() {
    let mut tracker = ProgressBook::new();
    let a = JobId(1);
    let b = JobId(2);
    tracker.register(a, 0);
    tracker.register(b, 0);
    assert!(!tracker.all_terminal());

    tracker.update_fraction(a, 1.0f64.to_bits(), None, 1);
    tracker.update_state(a, JobState::Running, 2);
    tracker.update_state(a, JobState::Completed, 3);
    assert!(!tracker.all_terminal());
    tracker.update_state(b, JobState::Cancelled, 4);
    assert!(tracker.all_terminal());
}

#[test]
fn tracker_isolation_between_pipelines() {
    let mut tracker = ProgressBook::new();
    let id = JobId(1);
    tracker.register(id, 0);
    assert_eq!(tracker.snapshots().len(), 1);
    assert!(tracker.snapshot(JobId(2)).is_none());
}

#[test]
fn fractions_are_clamped_like_f64_clamp() {
    for x in [-0.5f64, 0.0, -0.0, 0.25, 1.0, 1.5, f64::INFINITY, f64::NEG_INFINITY] {
        assert_eq!(clamp_unit(x.to_bits()), x.clamp(0.0, 1.0).to_bits(), "{x}");
    }
    assert!(f64::from_bits(clamp_unit(f64::NAN.to_bits())).is_nan());
    assert_eq!(clamp_unit(2.0f64.to_bits()), ONE_BITS);
}

#[test]
fn updates_to_unknown_jobs_are_ignored() {
    let mut tracker = ProgressBook::new();
    tracker.update_state(JobId(3), JobState::Running, 1);
    tracker.update_fraction(JobId(3), 0.5f64.to_bits(), Some("x".into()), 1);
    assert!(tracker.snapshot(JobId(3)).is_none());
    assert!(tracker.snapshots().is_empty());
    assert!(tracker.all_terminal());
}

#[test]
fn failure_keeps_the_last_fraction_and_message() {
    let mut tracker = ProgressBook::new();
    tracker.register(JobId(4), 0);
    tracker.update_fraction(JobId(4), 0.25f64.to_bits(), Some("decoding".into()), 5);
    tracker.update_state(JobId(4), JobState::Failed, 6);
    let snap = tracker.snapshot(JobId(4)).unwrap();
    assert_eq!(f64::from_bits(snap.fraction), 0.25);
    assert_eq!(snap.message.as_deref(), Some("decoding"));
    assert_eq!(snap.updated_ms, 6);
    assert!(snap.is_terminal());
}

#[test]
fn re_registering_starts_over() {
    let mut tracker = ProgressBook::new();
    tracker.register(JobId(1), 0);
    tracker.register(JobId(2), 0);
    tracker.update_state(JobId(1), JobState::Completed, 1);
    tracker.register(JobId(1), 2);
    let snap = tracker.snapshot(JobId(1)).unwrap();
    assert_eq!(snap.state, JobState::Pending);
    assert_eq!(snap.fraction, 0);
    let ids: Vec<u64> = tracker.snapshots().iter().map(|p| p.job_id.0).collect();
    assert_eq!(ids, vec![1, 2]);
}

#[test]
fn progress_tracker_reports_fractions() {
    let mut tracker = ProgressBook::new();
    let job = JobId(20);
    tracker.register(job, 0);
    tracker.update_state(job, JobState::Running, 1);
    let mut saw_progress = false;
    for step in 1..5u32 {
        tracker.update_fraction(job, (f64::from(step) / 5.0).to_bits(), None, 1 + u64::from(step));
        let snapshot = tracker.snapshot(job).unwrap();
        let fraction = f64::from_bits(snapshot.fraction);
        if fraction > 0.0 && fraction < 1.0 {
            saw_progress = true;
        }
    }
    tracker.update_state(job, JobState::Completed, 10);
    let done = tracker.snapshot(job).unwrap();
    assert_eq!(done.state, JobState::Completed);
    assert!((f64::from_bits(done.fraction) - 1.0).abs() < f64::EPSILON);
    assert!(saw_progress, "intermediate fractions must be observable");
}

#[test]
fn wait_for_unknown_job_errors() {
    let tracker = ProgressBook::new();
    assert!(matches!(
        tracker.wait_step(JobId(404)),
        Err(AssetError::JobNotFound(404))
    ));
}

#[test]
fn wait_step_returns_only_terminal_progress() {
    let mut tracker = ProgressBook::new();
    tracker.register(JobId(5), 0);
    assert!(matches!(tracker.wait_step(JobId(5)), Ok(None)));
    tracker.update_state(JobId(5), JobState::Failed, 1);
    let done = tracker.wait_step(JobId(5)).unwrap().unwrap();
    assert_eq!(done.state, JobState::Failed);
    assert_eq!(done.job_id, JobId(5));
}
