//! The sink trait and the sink combinators.
pub mod buffer;
pub mod fanout;

use crate::poll::{AsyncSink, Poll, StartSend};
use vstd::prelude::*;

verus! {

/// A value into which items of type `SinkItem` can be sent, one at a time.
///
/// The model `received` is the sequence of items the sink has taken so far.
/// A sink that takes an item answers `Ready` and adds it to `received`; one
/// that cannot take it now hands that same item back in `NotReady` and takes
/// nothing. Flushing and closing take no items. The models
/// `send_step(before, item, after, r)`, `flush_step(before, after, r)` and
/// `close_step(before, after, r)` hold when sending `item` to, flushing or
/// closing the sink in state `before` can leave it in state `after` and
/// answer `r`. Outside verified code, an implementation supplies
/// the models as functions that are never called at run time.
pub trait Sink<SinkItem>: Sized {
    /// The error that the sink reports.
    type SinkError;

    /// The items the sink has taken, oldest first.
    spec fn received(&self) -> Seq<SinkItem>;

    /// A possible outcome of one send of `item`.
    spec fn send_step(
        before: Self,
        item: SinkItem,
        after: Self,
        r: StartSend<SinkItem, Self::SinkError>,
    ) -> bool;

    /// A possible outcome of one flush.
    spec fn flush_step(before: Self, after: Self, r: Poll<(), Self::SinkError>) -> bool;

    /// A possible outcome of one close.
    spec fn close_step(before: Self, after: Self, r: Poll<(), Self::SinkError>) -> bool;

    /// Begins sending `item` into the sink.
    fn start_send(&mut self, item: SinkItem) -> (r: StartSend<SinkItem, Self::SinkError>)
        ensures
            Self::send_step(*old(self), item, *final(self), r),
            r matches Ok(AsyncSink::Ready) ==> final(self).received() == old(self).received().push(
                item,
            ),
            r matches Ok(AsyncSink::NotReady(back)) ==> back == item && final(self).received()
                == old(self).received(),
    ;

    /// Flushes the sink: `Ready` once every item it took has been fully processed.
    fn poll_complete(&mut self) -> (r: Poll<(), Self::SinkError>)
        ensures
            final(self).received() == old(self).received(),
            Self::flush_step(*old(self), *final(self), r),
    ;

    /// Flushes and closes the sink: `Ready` once it is closed.
    fn close(&mut self) -> (r: Poll<(), Self::SinkError>)
        ensures
            final(self).received() == old(self).received(),
            Self::close_step(*old(self), *final(self), r),
    ;
}

} // verus!
