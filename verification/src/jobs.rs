//! Job execution model.
//!
//! Every long-running operation (load, filter, artifact removal) runs as a
//! one-shot background job: a worker owns private copies of its inputs and
//! delivers at most one tagged result through a single slot. The decision
//! logic lives here as a pure state machine; the unverified shell only
//! spawns the worker and feeds whatever its channel produced back into
//! [`JobSlot::poll`].
//!
//! Abandonment is explicit: `start` bumps the slot's generation counter and
//! tags the new worker with it, so a result from a superseded worker — even
//! one that finishes correctly — is recognized as stale and never delivered.

use vstd::prelude::*;
use crate::EegError;

verus! {

/// The kind of work a job performs. One slot exists per kind; jobs of
/// different kinds never supersede each other.
#[derive(Clone, Copy, Debug, PartialEq, Eq, Structural)]
pub enum JobKind {
    Load,
    Filter,
    ArtifactRemoval,
}

/// What the worker's channel yielded when the slot was polled: nothing yet,
/// a tagged result, or a dropped sender.
pub enum WorkerEvent<T> {
    Empty,
    Message(u64, Result<T, EegError>),
    Disconnected,
}

/// The decision a poll hands back to the caller.
pub enum PollOutcome<T> {
    /// The worker is still running; nothing changed.
    Pending,
    /// The current worker succeeded; the caller installs the payload.
    Delivered(T),
    /// The current worker failed; the caller surfaces the error.
    Failed(EegError),
    /// The sender vanished without ever delivering a result.
    UnexpectedDisconnect,
    /// A superseded worker's result arrived; it is suppressed.
    Stale,
}

/// The slot of one job kind: whether a worker is running, and the
/// generation token of the most recently started one.
#[derive(Clone, Copy, Debug, PartialEq, Eq, Structural)]
pub struct JobSlot {
    pub running: bool,
    pub generation: u64,
}

impl JobSlot {
    /// A result tagged `g` is observable only while a worker is running and
    /// `g` is the most recently issued token.
    pub open spec fn observes(self, g: u64) -> bool {
        self.running && g == self.generation
    }

    /// An idle slot with no tokens issued.
    pub fn new() -> (s: Self)
        ensures
            !s.running,
            s.generation == 0,
    {
        JobSlot { running: false, generation: 0 }
    }

    /// Starts a job, superseding any worker still running: the returned
    /// token is strictly newer than every token issued before, so an
    /// earlier worker's result can never be observed again.
    pub fn start(&mut self) -> (g: u64)
        requires
            old(self).generation < u64::MAX,
        ensures
            final(self).running,
            final(self).generation == old(self).generation + 1,
            g == final(self).generation,
    {
        self.generation = self.generation + 1;
        self.running = true;
        self.generation
    }

    /// Applies one polled channel event to the slot. Only a message tagged
    /// with the current generation is delivered (or its failure surfaced);
    /// anything older is reported stale and changes nothing. The generation
    /// never decreases, and only `start` increases it.
    pub fn poll<T>(&mut self, event: WorkerEvent<T>) -> (r: PollOutcome<T>)
        requires
            old(self).running,
        ensures
            final(self).generation == old(self).generation,
            match event {
                WorkerEvent::Empty => *final(self) == *old(self) && r is Pending,
                WorkerEvent::Message(g, _) => {
                    if old(self).observes(g) {
                        &&& !final(self).running
                        &&& match event {
                            WorkerEvent::Message(_, res) => match res {
                                Ok(p) => r == PollOutcome::<T>::Delivered(p),
                                Err(e) => r == PollOutcome::<T>::Failed(e),
                            },
                            _ => false,
                        }
                    } else {
                        *final(self) == *old(self) && r is Stale
                    }
                },
                WorkerEvent::Disconnected => !final(self).running && r is UnexpectedDisconnect,
            },
            forall|g: u64| !old(self).observes(g) ==> !final(self).observes(g),
    {
        match event {
            WorkerEvent::Empty => PollOutcome::Pending,
            WorkerEvent::Message(g, res) => {
                if g == self.generation {
                    self.running = false;
                    match res {
                        Ok(payload) => PollOutcome::Delivered(payload),
                        Err(e) => PollOutcome::Failed(e),
                    }
                } else {
                    PollOutcome::Stale
                }
            },
            WorkerEvent::Disconnected => {
                self.running = false;
                PollOutcome::UnexpectedDisconnect
            },
        }
    }
}

/// Law (job abandonment): when a job with token `a` is superseded by a later
/// `start` that issued token `b`, then in every state the slot can have
/// reached afterwards — `start` only raises the generation and `poll` keeps
/// it — a result tagged `a` is unobservable, so a poll reports it `Stale`
/// and never delivers it, even if the superseded worker finishes after the
/// new one.
pub proof fn lemma_abandoned_job_never_observed(a: u64, b: u64, s: JobSlot)
    requires
        a < b,
        b <= s.generation,
    ensures
        !s.observes(a),
{
}

} // verus!
