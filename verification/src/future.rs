//! The future trait: a value that becomes available once.
use crate::poll::{Async, Poll};
use crate::task::Task;
use vstd::prelude::*;

verus! {

/// A computation that completes once, with a value or an error.
///
/// A future that has completed must not be polled again. Only a poll
/// completes it: a poll that returns `NotReady` leaves it pending, and
/// scheduling never changes whether it has completed. The models
/// `poll_step(before, task0, after, task1, r)` and
/// `schedule_step(before, task0, after, task1)` hold when a poll, or a
/// schedule, of the future in state `before` with the task in state `task0`
/// can leave them in states `after` and `task1` (answering `r`). Outside verified code, an implementation
/// defines `is_done` as a plain method that reports completion and supplies
/// the two models as functions that are never called at run time.
pub trait Future: Sized {
    /// The value it completes with.
    type Item;
    /// The error it completes with.
    type Error;

    /// Whether the future has completed.
    spec fn is_done(&self) -> bool;

    /// A possible outcome of one poll.
    spec fn poll_step(
        before: Self,
        task0: Task,
        after: Self,
        task1: Task,
        r: Poll<Self::Item, Self::Error>,
    ) -> bool;

    /// A possible outcome of one schedule.
    spec fn schedule_step(before: Self, task0: Task, after: Self, task1: Task) -> bool;

    /// Attempts to complete, arranging for `task` to be notified if it cannot yet.
    fn poll(&mut self, task: &mut Task) -> (r: Poll<Self::Item, Self::Error>)
        requires
            !old(self).is_done(),
        ensures
            final(self).is_done() == !(r matches Ok(Async::NotReady)),
            Self::poll_step(*old(self), *old(task), *final(self), *final(task), r),
    ;

    /// Arranges for `task` to be notified when the future can make progress.
    fn schedule(&mut self, task: &mut Task)
        ensures
            final(self).is_done() == old(self).is_done(),
            Self::schedule_step(*old(self), *old(task), *final(self), *final(task)),
    ;
}

} // verus!
