//! The handle through which a pending computation asks to be polled again.
use vstd::prelude::*;

verus! {

/// A task: the unit of work that polls futures, streams and sinks and that
/// they notify when it should poll them again.
#[derive(Debug)]
pub struct Task {
    notified: bool,
}

impl Task {
    /// Whether the task has been asked to poll again.
    pub closed spec fn notified(&self) -> bool {
        self.notified
    }

    /// A task that has not been notified.
    pub fn new() -> (t: Task)
        ensures
            !t.notified(),
    {
        Task { notified: false }
    }

    /// Asks the task to poll again.
    pub fn notify(&mut self)
        ensures
            final(self).notified(),
    {
        self.notified = true;
    }

    /// Whether the task has been asked to poll again.
    pub fn is_notified(&self) -> (b: bool)
        ensures
            b == self.notified(),
    {
        self.notified
    }
}

} // verus!
