use eeg_core::EegError;
use eeg_core::jobs::{JobKind, JobSlot, PollOutcome, WorkerEvent};

#[test]
fn start_issues_fresh_tokens() {
    let mut slot = JobSlot::new();
    assert!(!slot.running);
    let a = slot.start();
    let b = slot.start();
    assert_eq!(a, 1);
    assert_eq!(b, 2);
    assert!(slot.running);
}

#[test]
fn abandoned_job_result_is_never_observed() {
    // job A of one kind is still running when job B of the same kind starts;
    // A's result arrives afterwards and is reported stale, even though A
    // finished after B was polled pending
    let mut slot = JobSlot::new();
    let token_a = slot.start();
    let token_b = slot.start();
    let pending: PollOutcome<Vec<Vec<i16>>> = slot.poll(WorkerEvent::Empty);
    assert!(matches!(pending, PollOutcome::Pending));
    let late_a: PollOutcome<Vec<Vec<i16>>> =
        slot.poll(WorkerEvent::Message(token_a, Ok(vec![vec![1]])));
    assert!(matches!(late_a, PollOutcome::Stale));
    assert!(slot.running);
    let from_b: PollOutcome<Vec<Vec<i16>>> =
        slot.poll(WorkerEvent::Message(token_b, Ok(vec![vec![2]])));
    match from_b {
        PollOutcome::Delivered(payload) => assert_eq!(payload, vec![vec![2]]),
        _ => panic!("current job's result must be delivered"),
    }
    assert!(!slot.running);
}

#[test]
fn failure_is_surfaced_and_slot_drained() {
    let mut slot = JobSlot::new();
    let g = slot.start();
    let r: PollOutcome<i16> = slot.poll(WorkerEvent::Message(g, Err(EegError::FilterError)));
    assert!(matches!(r, PollOutcome::Failed(EegError::FilterError)));
    assert!(!slot.running);
}

#[test]
fn disconnect_without_result_is_reported() {
    let mut slot = JobSlot::new();
    let _ = slot.start();
    let r: PollOutcome<i16> = slot.poll(WorkerEvent::Disconnected);
    assert!(matches!(r, PollOutcome::UnexpectedDisconnect));
    assert!(!slot.running);
}

#[test]
fn kinds_are_distinct() {
    assert_ne!(JobKind::Load, JobKind::Filter);
    assert_ne!(JobKind::Filter, JobKind::ArtifactRemoval);
}
