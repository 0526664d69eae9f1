use tpt_av_asset::model::JobId;
use tpt_av_asset::scheduler::Scheduler;

const A: JobId = JobId(1);
const B: JobId = JobId(2);
const C: JobId = JobId(3);

#[test]
fn readiness_follows_dependencies() {
    let mut scheduler = Scheduler::new();
    scheduler.register(C, vec![A, B]);

    assert!(!scheduler.is_ready(C));
    scheduler.mark_completed(A);
    assert!(!scheduler.is_ready(C));
    scheduler.mark_completed(B);
    assert!(scheduler.is_ready(C));
    // Independent job is always ready.
    assert!(scheduler.is_ready(B));
}

#[test]
fn dead_dependency_blocks_dependents() {
    let mut scheduler = Scheduler::new();
    scheduler.register(C, vec![A, B]);
    scheduler.mark_completed(A);
    scheduler.mark_dead(B);
    assert!(scheduler.is_blocked_forever(C));
    assert!(!scheduler.is_ready(C));
}

#[test]
fn re_registering_replaces_edges() {
    let mut scheduler = Scheduler::new();
    scheduler.register(C, vec![A]);
    scheduler.register(C, vec![B]);
    scheduler.mark_completed(A);
    assert!(!scheduler.is_ready(C), "A no longer a dependency");
    scheduler.mark_completed(B);
    assert!(scheduler.is_ready(C));
}

#[test]
fn forgotten_job_has_no_dependencies() {
    let mut scheduler = Scheduler::new();
    scheduler.register(C, vec![A]);
    assert!(!scheduler.is_ready(C));
    scheduler.forget(C);
    assert!(scheduler.is_ready(C));
    assert!(!scheduler.is_blocked_forever(C));
}

#[test]
fn death_is_not_undone_by_a_later_completion() {
    let mut scheduler = Scheduler::new();
    scheduler.register(C, vec![A]);
    scheduler.mark_dead(A);
    assert!(scheduler.is_blocked_forever(C));
    scheduler.mark_completed(A);
    assert!(scheduler.is_blocked_forever(C));
    assert!(!scheduler.is_ready(C), "completion and death are mutually exclusive");
}

#[test]
fn death_after_completion_blocks() {
    let mut scheduler = Scheduler::new();
    scheduler.register(C, vec![A]);
    scheduler.mark_completed(A);
    assert!(scheduler.is_ready(C));
    scheduler.mark_dead(A);
    assert!(!scheduler.is_ready(C));
    assert!(scheduler.is_blocked_forever(C));
}

