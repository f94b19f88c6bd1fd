use vstd::prelude::*;

verus! {

/// What the sink reports for one submitted record.
#[derive(Clone, Copy, Debug, PartialEq, Eq, Structural)]
pub enum DeliveryOutcome {
    /// The record was taken.
    Accepted,
    /// A client-side rejection: the designated signal for the fail-fast rule.
    Rejected,
    /// The transport itself failed, or the server answered outside the
    /// client-error class.
    TransportError,
}

/// How one fetch-extract-submit task ended.
#[derive(Clone, Copy, Debug, PartialEq, Eq, Structural)]
pub enum TaskOutcome {
    /// The detail page could not be fetched or read as markup.
    FetchError,
    /// The record reached the sink, which answered as given.
    Submitted(DeliveryOutcome),
}

/// The escalation rule for one task of a batch: a client-side rejection is
/// swallowed when the URL is flagged hot on its own page or is a member of
/// the ignore set; every fetch, parse or transport failure escalates, and
/// is never suppressed by the hot/ignore check.
pub open spec fn spec_escalates(outcome: TaskOutcome, hot: bool, ignored: bool) -> bool {
    match outcome {
        TaskOutcome::FetchError => true,
        TaskOutcome::Submitted(d) => match d {
            DeliveryOutcome::Accepted => false,
            DeliveryOutcome::Rejected => !(hot || ignored),
            DeliveryOutcome::TransportError => true,
        },
    }
}

/// Whether a task's outcome fails its whole batch.
pub fn task_escalates(outcome: &TaskOutcome, hot: bool, ignored: bool) -> (r: bool)
    ensures
        r == spec_escalates(*outcome, hot, ignored),
{
    match outcome {
        TaskOutcome::FetchError => true,
        TaskOutcome::Submitted(d) => match d {
            DeliveryOutcome::Accepted => false,
            DeliveryOutcome::Rejected => !(hot || ignored),
            DeliveryOutcome::TransportError => true,
        },
    }
}

/// The bookkeeping of one batch run under bounded concurrency with
/// fail-fast semantics.  The driver of the batch asks `can_dispatch` before
/// starting a task, records every finished task with `complete`, and reads
/// the batch's verdict when `is_settled`.
///
/// Tasks are counted, not named: `dispatched - completed` tasks are in
/// flight at any moment, and that number never exceeds the concurrency
/// bound.  Once a completed task has escalated, `failed` stays set and no
/// further task may be dispatched; tasks already in flight may still
/// complete.
#[derive(Debug)]
pub struct BatchState {
    /// How many URLs the batch holds.
    pub total: usize,
    /// How many tasks have been started.
    pub dispatched: usize,
    /// How many tasks have finished.
    pub completed: usize,
    /// The bound on in-flight tasks.
    pub concurrency: usize,
    /// Whether some finished task escalated a failure.
    pub failed: bool,
}

impl BatchState {
    /// The state's internal consistency.
    pub open spec fn wf(self) -> bool {
        &&& self.completed <= self.dispatched <= self.total
        &&& self.dispatched - self.completed <= self.concurrency
        &&& self.concurrency >= 1
    }

    /// Dispatch is allowed while nothing failed, URLs remain, and a
    /// concurrency slot is free.
    pub open spec fn spec_can_dispatch(self) -> bool {
        &&& !self.failed
        &&& self.dispatched < self.total
        &&& self.dispatched - self.completed < self.concurrency
    }

    /// A fresh batch over `total` URLs with the given concurrency bound.
    pub fn new(total: usize, concurrency: usize) -> (s: BatchState)
        requires
            concurrency >= 1,
        ensures
            s.wf(),
            s.total == total,
            s.dispatched == 0,
            s.completed == 0,
            s.concurrency == concurrency,
            !s.failed,
    {
        BatchState { total, dispatched: 0, completed: 0, concurrency, failed: false }
    }

    /// Whether the next task may start now.
    pub fn can_dispatch(&self) -> (r: bool)
        requires
            self.wf(),
        ensures
            r == self.spec_can_dispatch(),
    {
        !self.failed && self.dispatched < self.total && self.dispatched - self.completed
            < self.concurrency
    }

    /// Start one task: the index of the URL it takes is returned.
    pub fn dispatch(&mut self) -> (idx: usize)
        requires
            old(self).wf(),
            old(self).spec_can_dispatch(),
        ensures
            final(self).wf(),
            idx == old(self).dispatched,
            final(self).dispatched == old(self).dispatched + 1,
            final(self).completed == old(self).completed,
            final(self).total == old(self).total,
            final(self).concurrency == old(self).concurrency,
            final(self).failed == old(self).failed,
    {
        let idx = self.dispatched;
        self.dispatched = self.dispatched + 1;
        idx
    }

    /// Record one finished task and whether its outcome escalates.
    pub fn complete(&mut self, escalated: bool)
        requires
            old(self).wf(),
            old(self).completed < old(self).dispatched,
        ensures
            final(self).wf(),
            final(self).completed == old(self).completed + 1,
            final(self).dispatched == old(self).dispatched,
            final(self).total == old(self).total,
            final(self).concurrency == old(self).concurrency,
            final(self).failed == (old(self).failed || escalated),
    {
        self.completed = self.completed + 1;
        self.failed = self.failed || escalated;
    }

    /// The batch is settled when no task is in flight and either every URL
    /// was attempted or a failure stops the rest from starting.
    pub fn is_settled(&self) -> (r: bool)
        ensures
            r == (self.completed == self.dispatched && (self.failed || self.dispatched
                == self.total)),
    {
        self.completed == self.dispatched && (self.failed || self.dispatched == self.total)
    }
}

/// The suppression rule as a law: a client-side rejection from a URL that
/// is flagged hot or is a member of the ignore set never fails the batch,
/// and the same rejection from a URL that is neither always does.
pub proof fn lemma_rejection_suppression(hot: bool, ignored: bool)
    ensures
        (hot || ignored) ==> !spec_escalates(
            TaskOutcome::Submitted(DeliveryOutcome::Rejected),
            hot,
            ignored,
        ),
        !(hot || ignored) ==> spec_escalates(
            TaskOutcome::Submitted(DeliveryOutcome::Rejected),
            hot,
            ignored,
        ),
{
}

/// Fail-fast: in a failed batch state no task may ever be dispatched again;
/// in particular a URL whose task has not started by the time a failure is
/// recorded is never fetched.
pub proof fn lemma_no_dispatch_after_failure(s: BatchState)
    requires
        s.failed,
    ensures
        !s.spec_can_dispatch(),
{
}

/// A batch that settles without failure has attempted every one of its
/// URLs, and no task is left in flight.
pub proof fn lemma_settled_clean_batch_is_complete(s: BatchState)
    requires
        s.wf(),
        s.completed == s.dispatched,
        !s.failed,
        !s.spec_can_dispatch(),
    ensures
        s.dispatched == s.total,
        s.completed == s.total,
{
}

} // verus!
