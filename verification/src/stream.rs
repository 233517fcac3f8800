//! The stream trait and the stream combinators.
pub mod unfold;

use crate::poll::Poll;
use vstd::prelude::*;

verus! {

/// A source of values produced over time.
///
/// The model `poll_step(before, after, r)` holds when polling a stream in
/// state `before` can leave it in state `after` and answer `r`. Outside
/// verified code, an implementation supplies it as a function that is never
/// called at run time.
pub trait Stream: Sized {
    /// The values produced.
    type Item;
    /// The error that the stream reports.
    type Error;

    /// A possible outcome of one poll.
    spec fn poll_step(before: Self, after: Self, r: Poll<Option<Self::Item>, Self::Error>) -> bool;

    /// Attempts to take the next value: `Ready(None)` once the stream has ended.
    fn poll(&mut self) -> (r: Poll<Option<Self::Item>, Self::Error>)
        ensures
            Self::poll_step(*old(self), *final(self), r),
    ;
}

} // verus!
