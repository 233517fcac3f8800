//! Readiness values returned by sinks and streams.
use vstd::prelude::*;

verus! {

/// Whether a value is available yet.
#[derive(Debug, PartialEq, Eq)]
pub enum Async<T> {
    /// The value is available.
    Ready(T),
    /// The value is not available yet; the current task will be notified.
    NotReady,
}

impl<T> Async<T> {
    /// Returns whether this is `Async::Ready`.
    pub fn is_ready(&self) -> (b: bool)
        ensures
            b == (self is Ready),
    {
        match self {
            Async::Ready(_) => true,
            Async::NotReady => false,
        }
    }

    /// Returns whether this is `Async::NotReady`.
    pub fn is_not_ready(&self) -> (b: bool)
        ensures
            b == (self is NotReady),
    {
        !self.is_ready()
    }
}

/// The outcome of handing an item to a sink.
#[derive(Debug, PartialEq, Eq)]
pub enum AsyncSink<T> {
    /// The sink took the item.
    Ready,
    /// The sink could not take the item now and gives it back.
    NotReady(T),
}

impl<T> AsyncSink<T> {
    /// Returns whether this is `AsyncSink::Ready`.
    pub fn is_ready(&self) -> (b: bool)
        ensures
            b == (self is Ready),
    {
        match self {
            AsyncSink::Ready => true,
            AsyncSink::NotReady(_) => false,
        }
    }

    /// Returns whether this is `AsyncSink::NotReady`.
    pub fn is_not_ready(&self) -> (b: bool)
        ensures
            b == (self is NotReady),
    {
        !self.is_ready()
    }
}

/// `Ready` only when both `left` and `right` are.
pub open spec fn joined(left: Async<()>, right: Async<()>) -> Async<()> {
    if left is Ready && right is Ready {
        Async::Ready(())
    } else {
        Async::NotReady
    }
}

/// Joining two readinesses gives `Ready` exactly when both are `Ready`.
pub proof fn lemma_joined_ready(left: Async<()>, right: Async<()>)
    ensures
        (joined(left, right) is Ready) == (left is Ready && right is Ready),
        joined(left, right) is Ready ==> joined(left, right) == left && left == right,
{
    match left {
        Async::Ready(u) => {
            assert(u == ());
        },
        _ => {},
    }
    match right {
        Async::Ready(u) => {
            assert(u == ());
        },
        _ => {},
    }
}

/// `Ready` only when both `left` and `right` are.
pub fn join(left: Async<()>, right: Async<()>) -> (r: Async<()>)
    ensures
        r == joined(left, right),
{
    match (left, right) {
        (Async::Ready(()), Async::Ready(())) => Async::Ready(()),
        _ => Async::NotReady,
    }
}

/// The result of polling a sink or a stream.
pub type Poll<T, E> = Result<Async<T>, E>;

/// The result of `Sink::start_send`.
pub type StartSend<T, E> = Result<AsyncSink<T>, E>;

} // verus!
