//! A sink that holds up to a fixed number of items while the sink it wraps
//! cannot take them.
use std::collections::VecDeque;

use crate::poll::{Async, AsyncSink, Poll, StartSend};
use crate::sink::Sink;
use crate::stream::Stream;
use vstd::prelude::*;

verus! {

/// From `old_received` and `old_buf` to `new_received` and `new_buf`, the
/// first few items of `old_buf` were taken, in order, by the wrapped sink.
pub open spec fn handed_on<T>(
    old_received: Seq<T>,
    old_buf: Seq<T>,
    new_received: Seq<T>,
    new_buf: Seq<T>,
) -> bool {
    exists|k: int|
        0 <= k <= old_buf.len() && new_received == old_received + old_buf.take(k)
            && #[trigger] old_buf.skip(k) == new_buf
}

/// `new_buf` is what is left of `old_buf` after dropping its first few items.
pub open spec fn is_suffix<T>(old_buf: Seq<T>, new_buf: Seq<T>) -> bool {
    exists|k: int| 0 <= k <= old_buf.len() && #[trigger] old_buf.skip(k) == new_buf
}

/// The sink went from `sink0` to `sink1` by taking each of `items` in turn,
/// answering `Ready` to each send.
pub open spec fn accepts_all<T, S: Sink<T>>(sink0: S, items: Seq<T>, sink1: S) -> bool
    decreases items.len(),
{
    if items.len() == 0 {
        sink1 == sink0
    } else {
        exists|mid: S|
            #![trigger S::send_step(mid, items.last(), sink1, Ok::<AsyncSink<T>, S::SinkError>(AsyncSink::Ready))]
            accepts_all(sink0, items.drop_last(), mid) && S::send_step(
                mid,
                items.last(),
                sink1,
                Ok::<AsyncSink<T>, S::SinkError>(AsyncSink::Ready),
            )
    }
}

/// How a drain of `buf0` ends once the sink, now `sink_k`, has taken its
/// first `k` items. With none left: `Ready`, nothing held. Otherwise the
/// next item is sent once: if the sink hands it back it stays in front of
/// the rest, the sink is flushed once, and the answer is `NotReady` or the
/// flush's error; if the send fails, the item is dropped and the answer is
/// that error.
pub open spec fn drain_end<T, S: Sink<T>>(
    sink_k: S,
    buf0: Seq<T>,
    k: int,
    sink1: S,
    buf1: Seq<T>,
    r: Poll<(), S::SinkError>,
) -> bool {
    if k == buf0.len() {
        sink1 == sink_k && buf1.len() == 0 && r == Ok::<Async<()>, S::SinkError>(Async::Ready(()))
    } else {
        ||| buf1 == buf0.skip(k) && exists|mid: S, f: Poll<(), S::SinkError>|
            #![trigger S::send_step(sink_k, buf0[k], mid, Ok::<AsyncSink<T>, S::SinkError>(AsyncSink::NotReady(buf0[k]))), S::flush_step(mid, sink1, f)]
            S::send_step(
                sink_k,
                buf0[k],
                mid,
                Ok::<AsyncSink<T>, S::SinkError>(AsyncSink::NotReady(buf0[k])),
            ) && S::flush_step(mid, sink1, f) && r == match f {
                Err(e) => Err::<Async<()>, S::SinkError>(e),
                Ok(_) => Ok::<Async<()>, S::SinkError>(Async::NotReady),
            }
        ||| buf1 == buf0.skip(k + 1) && r is Err && S::send_step(
            sink_k,
            buf0[k],
            sink1,
            Err::<AsyncSink<T>, S::SinkError>(r->Err_0),
        )
    }
}

/// A drain of `buf0` into the sink `sink0`: the held items are sent in
/// order, one send each, while the sink answers `Ready`; `drain_end` says how
/// it stops. It leaves the sink as `sink1`, the held items as `buf1`, and
/// answers `r`.
pub open spec fn drained<T, S: Sink<T>>(
    sink0: S,
    buf0: Seq<T>,
    sink1: S,
    buf1: Seq<T>,
    r: Poll<(), S::SinkError>,
) -> bool {
    exists|k: int, sink_k: S|
        #![trigger accepts_all(sink0, buf0.take(k), sink_k)]
        0 <= k <= buf0.len() && accepts_all(sink0, buf0.take(k), sink_k) && drain_end(
            sink_k,
            buf0,
            k,
            sink1,
            buf1,
            r,
        )
}

/// A drain that stopped without an error, `Ready` or `NotReady`.
pub open spec fn drained_ok<T, S: Sink<T>>(sink0: S, buf0: Seq<T>, sink1: S, buf1: Seq<T>) -> bool {
    ||| drained(sink0, buf0, sink1, buf1, Ok::<Async<()>, S::SinkError>(Async::Ready(())))
    ||| drained(sink0, buf0, sink1, buf1, Ok::<Async<()>, S::SinkError>(Async::NotReady))
}

/// Sink for the `Sink::buffer` combinator, which buffers up to some fixed
/// number of values when the underlying sink is unable to accept them.
pub struct Buffer<S, SinkItem> where S: Sink<SinkItem> {
    sink: S,
    buf: VecDeque<SinkItem>,
    // The capacity, tracked apart from the `VecDeque`, whose own may be rounded up.
    cap: usize,
    // The items this buffer has taken, its model as a sink.
    accepted: Ghost<Seq<SinkItem>>,
}

/// Wraps `sink` in a buffer that holds up to `amt` items.
pub fn new<S, SinkItem>(sink: S, amt: usize) -> (b: Buffer<S, SinkItem>) where S: Sink<SinkItem>
    ensures
        b.inner() == sink,
        b.capacity() == amt,
        b.buffered() == Seq::<SinkItem>::empty(),
        b.received() == Seq::<SinkItem>::empty(),
        b.wf(),
{
    // The queue grows as items arrive; `cap` alone bounds it.
    Buffer { sink: sink, buf: VecDeque::new(), cap: amt, accepted: Ghost(Seq::empty()) }
}

impl<S, SinkItem> Buffer<S, SinkItem> where S: Sink<SinkItem> {
    /// The wrapped sink.
    pub closed spec fn inner(&self) -> S {
        self.sink
    }

    /// The items held, oldest first.
    pub closed spec fn buffered(&self) -> Seq<SinkItem> {
        self.buf@
    }

    /// The number of items the buffer holds at most.
    pub closed spec fn capacity(&self) -> nat {
        self.cap as nat
    }

    /// The buffer holds no more items than its capacity.
    pub open spec fn wf(&self) -> bool {
        self.buffered().len() <= self.capacity()
    }

    /// What the wrapped sink has taken, followed by what the buffer holds.
    pub open spec fn pipeline(&self) -> Seq<SinkItem> {
        self.inner().received() + self.buffered()
    }

    /// What sending `item` does: with no capacity, hand it straight on and
    /// answer as the wrapped sink does; otherwise hand the buffered items on
    /// as far as the wrapped sink takes them, then keep `item` if there is
    /// room, and hand it back if not. On an error from the wrapped sink,
    /// `item` is dropped.
    pub open spec fn sends(before: Self, item: SinkItem, after: Self, r: StartSend<SinkItem, S::SinkError>) -> bool {
        &&& after.capacity() == before.capacity()
        &&& before.wf() ==> after.wf()
        &&& before.capacity() == 0 ==> after.buffered() == before.buffered() && S::send_step(
            before.inner(),
            item,
            after.inner(),
            r,
        )
        &&& before.capacity() > 0 ==> match r {
            Ok(AsyncSink::Ready) => {
                &&& after.buffered().len() > 0
                &&& after.buffered().last() == item
                &&& after.buffered().drop_last().len() != after.capacity()
                &&& drained_ok(before.inner(), before.buffered(), after.inner(), after.buffered().drop_last())
                &&& handed_on(
                    before.inner().received(),
                    before.buffered(),
                    after.inner().received(),
                    after.buffered().drop_last(),
                )
            },
            Ok(AsyncSink::NotReady(_)) => {
                &&& after.buffered().len() == after.capacity()
                &&& drained_ok(before.inner(), before.buffered(), after.inner(), after.buffered())
                &&& handed_on(
                    before.inner().received(),
                    before.buffered(),
                    after.inner().received(),
                    after.buffered(),
                )
            },
            Err(e) => drained(
                before.inner(),
                before.buffered(),
                after.inner(),
                after.buffered(),
                Err::<Async<()>, S::SinkError>(e),
            ),
        }
        // a buffer with room never refuses an item
        &&& before.capacity() > 0 && before.buffered().len() < before.capacity() ==> !(r is Ok
            && r->Ok_0 is NotReady)
        // what the buffer takes reaches the inner sink in order, after what it held
        &&& before.wf() && (r matches Ok(AsyncSink::Ready)) ==> after.pipeline()
            == before.pipeline().push(item)
        &&& before.wf() && (r matches Ok(AsyncSink::NotReady(_))) ==> after.pipeline()
            == before.pipeline()
    }

    /// What a flush does: hand the buffered items on as far as the wrapped
    /// sink takes them, then flush it, and answer as it does. A refused item
    /// stays in front, the wrapped sink is flushed once, and the answer is
    /// `NotReady`. With no capacity, only the flush.
    pub open spec fn flushes(before: Self, after: Self, r: Poll<(), S::SinkError>) -> bool {
        &&& after.capacity() == before.capacity()
        &&& after.received() == before.received()
        &&& r is Ok ==> handed_on(
            before.inner().received(),
            before.buffered(),
            after.inner().received(),
            after.buffered(),
        ) && after.pipeline() == before.pipeline()
        &&& r is Err ==> is_suffix(before.buffered(), after.buffered())
        &&& before.wf() ==> after.wf()
        &&& before.wf() && (r matches Ok(Async::Ready(_))) ==> after.buffered().len() == 0
        &&& before.capacity() == 0 ==> after.buffered() == before.buffered() && S::flush_step(
            before.inner(),
            after.inner(),
            r,
        )
        &&& before.capacity() > 0 ==> {
            ||| drained(before.inner(), before.buffered(), after.inner(), after.buffered(), r)
                && !(r matches Ok(Async::Ready(_)))
            ||| after.buffered().len() == 0 && exists|mid: S|
                #![trigger S::flush_step(mid, after.inner(), r)]
                drained(
                    before.inner(),
                    before.buffered(),
                    mid,
                    after.buffered(),
                    Ok::<Async<()>, S::SinkError>(Async::Ready(())),
                ) && S::flush_step(mid, after.inner(), r)
        }
    }

    /// What a close does: hand the buffered items on as far as the wrapped
    /// sink takes them, then close it, and answer as it does. A refused item
    /// stays in front, the wrapped sink is flushed once, and the answer is
    /// `NotReady`. With no capacity, only the close.
    pub open spec fn closes(before: Self, after: Self, r: Poll<(), S::SinkError>) -> bool {
        &&& after.capacity() == before.capacity()
        &&& after.received() == before.received()
        &&& r is Ok ==> handed_on(
            before.inner().received(),
            before.buffered(),
            after.inner().received(),
            after.buffered(),
        ) && after.pipeline() == before.pipeline()
        &&& r is Err ==> is_suffix(before.buffered(), after.buffered())
        &&& before.wf() ==> after.wf()
        &&& before.wf() && (r matches Ok(Async::Ready(_))) ==> after.buffered().len() == 0
        &&& before.capacity() == 0 ==> after.buffered() == before.buffered() && S::close_step(
            before.inner(),
            after.inner(),
            r,
        )
        &&& before.capacity() > 0 ==> {
            ||| before.buffered().len() > 0 && drained(
                before.inner(),
                before.buffered(),
                after.inner(),
                after.buffered(),
                r,
            ) && !(r matches Ok(Async::Ready(_)))
            ||| after.buffered().len() == 0 && exists|mid: S|
                #![trigger S::close_step(mid, after.inner(), r)]
                drained(
                    before.inner(),
                    before.buffered(),
                    mid,
                    after.buffered(),
                    Ok::<Async<()>, S::SinkError>(Async::Ready(())),
                ) && S::close_step(mid, after.inner(), r)
        }
    }

    /// Get a shared reference to the inner sink.
    pub fn get_ref(&self) -> (r: &S)
        ensures
            *r == self.inner(),
    {
        &self.sink
    }

    /// Get a mutable reference to the inner sink.
    pub fn get_mut(&mut self) -> (r: &mut S)
        ensures
            *r == old(self).inner(),
            final(self).inner() == *final(r),
            final(self).buffered() == old(self).buffered(),
            final(self).received() == old(self).received(),
            final(self).capacity() == old(self).capacity(),
    {
        &mut self.sink
    }

    /// Consumes this combinator, returning the underlying sink.
    ///
    /// Note that this may discard intermediate state of this combinator, so
    /// care should be taken to avoid losing resources when this is called.
    pub fn into_inner(self) -> (s: S)
        ensures
            s == self.inner(),
    {
        self.sink
    }

    /// A send to a buffer with some capacity keeps it within its capacity,
    /// hands the item back only when the buffer is full, never when it had
    /// room, and on `Ready` holds the item last.
    pub proof fn lemma_send_respects_capacity(before: Self, item: SinkItem, after: Self, r: StartSend<SinkItem, S::SinkError>)
        requires
            <Self as Sink<SinkItem>>::send_step(before, item, after, r),
            before.buffered().len() <= before.capacity(),
            before.capacity() > 0,
        ensures
            after.buffered().len() <= after.capacity(),
            after.capacity() == before.capacity(),
            (r matches Ok(AsyncSink::NotReady(_))) ==> after.buffered().len() == after.capacity(),
            before.buffered().len() < before.capacity() ==> !(r matches Ok(AsyncSink::NotReady(_))),
            (r matches Ok(AsyncSink::Ready)) ==> after.buffered().len() > 0 && after.buffered().last() == item,
    {
    }

    /// A send to a buffer with some capacity that does not fail first hands
    /// the held items, oldest first, to the inner sink, one send each, while
    /// it takes them. If it takes them all, nothing else is done to it; if it
    /// hands one back, that item and those after it stay held and the inner
    /// sink is flushed once, without an error. Only then is `item` queued
    /// behind what is held, or handed back.
    pub proof fn lemma_send_drains(before: Self, item: SinkItem, after: Self, r: StartSend<SinkItem, S::SinkError>)
        requires
            <Self as Sink<SinkItem>>::send_step(before, item, after, r),
            before.capacity() > 0,
            r is Ok,
        ensures
            ({
                let buf = before.buffered();
                let held = if r matches Ok(AsyncSink::Ready) {
                    after.buffered().drop_last()
                } else {
                    after.buffered()
                };
                &&& (r matches Ok(AsyncSink::Ready)) ==> after.buffered() == held.push(item)
                &&& exists|k: int, m: S|
                    #![trigger accepts_all(before.inner(), buf.take(k), m)]
                    0 <= k <= buf.len() && accepts_all(before.inner(), buf.take(k), m) && held == buf.skip(k)
                        && (k == buf.len() ==> m == after.inner()) && (k < buf.len() ==> exists|
                        mid: S,
                        f: Poll<(), S::SinkError>,
                    |
                        #![trigger S::send_step(m, buf[k], mid, Ok::<AsyncSink<SinkItem>, S::SinkError>(AsyncSink::NotReady(buf[k]))), S::flush_step(mid, after.inner(), f)]
                        S::send_step(
                            m,
                            buf[k],
                            mid,
                            Ok::<AsyncSink<SinkItem>, S::SinkError>(AsyncSink::NotReady(buf[k])),
                        ) && S::flush_step(mid, after.inner(), f) && f is Ok)
            }),
    {
        let buf = before.buffered();
        let held = if r matches Ok(AsyncSink::Ready) {
            after.buffered().drop_last()
        } else {
            after.buffered()
        };
        if r matches Ok(AsyncSink::Ready) {
            assert(after.buffered() == held.push(item));
        }
        assert(drained_ok(before.inner(), buf, after.inner(), held));
        if drained(before.inner(), buf, after.inner(), held, Ok::<Async<()>, S::SinkError>(Async::Ready(()))) {
            drain_ok_parts(before.inner(), buf, after.inner(), held, Ok::<Async<()>, S::SinkError>(Async::Ready(())));
            let k = buf.len() as int;
            assert(buf.take(k) == buf);
            assert(buf.skip(k) == held);
            assert(accepts_all(before.inner(), buf.take(k), after.inner()));
        } else {
            let w = drain_ok_parts(before.inner(), buf, after.inner(), held, Ok::<Async<()>, S::SinkError>(Async::NotReady));
            assert(S::flush_step(w.2, after.inner(), w.3));
            assert(accepts_all(before.inner(), buf.take(w.0), w.1));
            assert(S::send_step(w.1, buf[w.0], w.2, Ok::<AsyncSink<SinkItem>, S::SinkError>(AsyncSink::NotReady(buf[w.0]))));
        }
    }

    /// A flush of a buffer with some capacity that does not fail hands the
    /// held items, oldest first, to the inner sink, one send each, while it
    /// takes them; if it hands one back, that item and those after it stay
    /// held and the buffer answers `NotReady`. Either way the inner sink is
    /// then flushed once, without an error, and when every item was taken
    /// the buffer answers as that flush did.
    pub proof fn lemma_flush_reaches_inner(before: Self, after: Self, r: Poll<(), S::SinkError>)
        requires
            <Self as Sink<SinkItem>>::flush_step(before, after, r),
            before.capacity() > 0,
            r is Ok,
        ensures
            ({
                let buf = before.buffered();
                exists|k: int, m: S, mid: S, f: Poll<(), S::SinkError>|
                    #![trigger accepts_all(before.inner(), buf.take(k), m), S::flush_step(mid, after.inner(), f)]
                    0 <= k <= buf.len() && accepts_all(before.inner(), buf.take(k), m) && after.buffered()
                        == buf.skip(k) && (k == buf.len() ==> mid == m && f == r) && (k < buf.len()
                        ==> S::send_step(
                        m,
                        buf[k],
                        mid,
                        Ok::<AsyncSink<SinkItem>, S::SinkError>(AsyncSink::NotReady(buf[k])),
                    ) && r == Ok::<Async<()>, S::SinkError>(Async::NotReady)) && S::flush_step(
                        mid,
                        after.inner(),
                        f,
                    ) && f is Ok
            }),
    {
        let buf = before.buffered();
        if drained(before.inner(), buf, after.inner(), after.buffered(), r) && !(r matches Ok(Async::Ready(_))) {
            let w = drain_ok_parts(before.inner(), buf, after.inner(), after.buffered(), r);
            assert(S::flush_step(w.2, after.inner(), w.3));
            assert(accepts_all(before.inner(), buf.take(w.0), w.1));
        } else {
            let mid = choose|mid: S|
                drained(
                    before.inner(),
                    buf,
                    mid,
                    after.buffered(),
                    Ok::<Async<()>, S::SinkError>(Async::Ready(())),
                ) && S::flush_step(mid, after.inner(), r);
            drain_ok_parts(before.inner(), buf, mid, after.buffered(), Ok::<Async<()>, S::SinkError>(Async::Ready(())));
            let k = buf.len() as int;
            assert(buf.take(k) == buf);
            assert(buf.skip(k) == after.buffered());
            assert(accepts_all(before.inner(), buf.take(k), mid));
            assert(S::flush_step(mid, after.inner(), r));
        }
    }

    /// A close of a buffer with some capacity that does not fail hands the
    /// held items, oldest first, to the inner sink, one send each, while it
    /// takes them. If it takes them all, the inner sink is then closed once
    /// and the buffer answers as that close did; if it hands one back, that
    /// item and those after it stay held, the inner sink is flushed once,
    /// without an error, and not closed, and the buffer answers `NotReady`.
    pub proof fn lemma_close_reaches_inner(before: Self, after: Self, r: Poll<(), S::SinkError>)
        requires
            <Self as Sink<SinkItem>>::close_step(before, after, r),
            before.capacity() > 0,
            r is Ok,
        ensures
            ({
                let buf = before.buffered();
                exists|k: int, m: S|
                    #![trigger accepts_all(before.inner(), buf.take(k), m)]
                    0 <= k <= buf.len() && accepts_all(before.inner(), buf.take(k), m) && after.buffered()
                        == buf.skip(k) && (k == buf.len() ==> S::close_step(m, after.inner(), r)) && (k
                        < buf.len() ==> r == Ok::<Async<()>, S::SinkError>(Async::NotReady) && exists|
                        mid: S,
                        f: Poll<(), S::SinkError>,
                    |
                        #![trigger S::send_step(m, buf[k], mid, Ok::<AsyncSink<SinkItem>, S::SinkError>(AsyncSink::NotReady(buf[k]))), S::flush_step(mid, after.inner(), f)]
                        S::send_step(
                            m,
                            buf[k],
                            mid,
                            Ok::<AsyncSink<SinkItem>, S::SinkError>(AsyncSink::NotReady(buf[k])),
                        ) && S::flush_step(mid, after.inner(), f) && f is Ok)
            }),
    {
        let buf = before.buffered();
        if buf.len() > 0 && drained(before.inner(), buf, after.inner(), after.buffered(), r) && !(r matches Ok(Async::Ready(_))) {
            let w = drain_ok_parts(before.inner(), buf, after.inner(), after.buffered(), r);
            assert(S::flush_step(w.2, after.inner(), w.3));
            assert(accepts_all(before.inner(), buf.take(w.0), w.1));
            assert(S::send_step(w.1, buf[w.0], w.2, Ok::<AsyncSink<SinkItem>, S::SinkError>(AsyncSink::NotReady(buf[w.0]))));
        } else {
            let mid = choose|mid: S|
                drained(
                    before.inner(),
                    buf,
                    mid,
                    after.buffered(),
                    Ok::<Async<()>, S::SinkError>(Async::Ready(())),
                ) && S::close_step(mid, after.inner(), r);
            drain_ok_parts(before.inner(), buf, mid, after.buffered(), Ok::<Async<()>, S::SinkError>(Async::Ready(())));
            let k = buf.len() as int;
            assert(buf.take(k) == buf);
            assert(buf.skip(k) == after.buffered());
            assert(accepts_all(before.inner(), buf.take(k), mid));
        }
    }

    /// With no capacity, a send is one send of the item to the inner sink,
    /// whose answer the buffer gives, holding nothing more.
    pub proof fn lemma_send_without_capacity(before: Self, item: SinkItem, after: Self, r: StartSend<SinkItem, S::SinkError>)
        requires
            <Self as Sink<SinkItem>>::send_step(before, item, after, r),
            before.capacity() == 0,
        ensures
            S::send_step(before.inner(), item, after.inner(), r),
            after.buffered() == before.buffered(),
    {
    }

    /// With no capacity, a flush is one flush of the inner sink, whose
    /// answer the buffer gives.
    pub proof fn lemma_flush_without_capacity(before: Self, after: Self, r: Poll<(), S::SinkError>)
        requires
            <Self as Sink<SinkItem>>::flush_step(before, after, r),
            before.capacity() == 0,
        ensures
            S::flush_step(before.inner(), after.inner(), r),
            after.buffered() == before.buffered(),
    {
    }

    /// With no capacity, a close is one close of the inner sink, whose
    /// answer the buffer gives.
    pub proof fn lemma_close_without_capacity(before: Self, after: Self, r: Poll<(), S::SinkError>)
        requires
            <Self as Sink<SinkItem>>::close_step(before, after, r),
            before.capacity() == 0,
        ensures
            S::close_step(before.inner(), after.inner(), r),
            after.buffered() == before.buffered(),
    {
    }

    /// A flush of a buffer with some capacity that fails passes on the
    /// inner sink's own error: after the inner sink took the first `k` held
    /// items, either the send of the next one failed with it, and that item
    /// is dropped, or the inner sink handed that item back, which stays
    /// held, and its flush failed with it; or, every item taken, the inner
    /// sink's flush failed with it.
    pub proof fn lemma_flush_error_from_inner(before: Self, after: Self, r: Poll<(), S::SinkError>)
        requires
            <Self as Sink<SinkItem>>::flush_step(before, after, r),
            before.capacity() > 0,
            r is Err,
        ensures
            ({
                let buf = before.buffered();
                exists|k: int, m: S|
                    #![trigger accepts_all(before.inner(), buf.take(k), m)]
                    0 <= k <= buf.len() && accepts_all(before.inner(), buf.take(k), m) && {
                        ||| k < buf.len() && after.buffered() == buf.skip(k + 1) && S::send_step(
                            m,
                            buf[k],
                            after.inner(),
                            Err::<AsyncSink<SinkItem>, S::SinkError>(r->Err_0),
                        )
                        ||| k < buf.len() && after.buffered() == buf.skip(k) && exists|mid: S|
                            #![trigger S::flush_step(mid, after.inner(), r)]
                            S::send_step(
                                m,
                                buf[k],
                                mid,
                                Ok::<AsyncSink<SinkItem>, S::SinkError>(AsyncSink::NotReady(buf[k])),
                            ) && S::flush_step(mid, after.inner(), r)
                        ||| k == buf.len() && after.buffered().len() == 0 && S::flush_step(
                            m,
                            after.inner(),
                            r,
                        )
                    }
            }),
    {
        let buf = before.buffered();
        if drained(before.inner(), buf, after.inner(), after.buffered(), r) {
            let (k, sink_k) = choose|k: int, sink_k: S|
                0 <= k <= buf.len() && accepts_all(before.inner(), buf.take(k), sink_k) && drain_end(
                    sink_k,
                    buf,
                    k,
                    after.inner(),
                    after.buffered(),
                    r,
                );
            assert(accepts_all(before.inner(), buf.take(k), sink_k));
            if after.buffered() == buf.skip(k) && k < buf.len() {
                assert(buf.skip(k).len() != buf.skip(k + 1).len());
                let (mid, f) = choose|mid: S, f: Poll<(), S::SinkError>|
                    S::send_step(
                        sink_k,
                        buf[k],
                        mid,
                        Ok::<AsyncSink<SinkItem>, S::SinkError>(AsyncSink::NotReady(buf[k])),
                    ) && S::flush_step(mid, after.inner(), f) && r == match f {
                        Err(e) => Err::<Async<()>, S::SinkError>(e),
                        Ok(_) => Ok::<Async<()>, S::SinkError>(Async::NotReady),
                    };
                assert(f == r);
                assert(S::flush_step(mid, after.inner(), r));
            }
        } else {
            let mid = choose|mid: S|
                drained(
                    before.inner(),
                    buf,
                    mid,
                    after.buffered(),
                    Ok::<Async<()>, S::SinkError>(Async::Ready(())),
                ) && S::flush_step(mid, after.inner(), r);
            drain_ok_parts(before.inner(), buf, mid, after.buffered(), Ok::<Async<()>, S::SinkError>(Async::Ready(())));
            let k = buf.len() as int;
            assert(buf.take(k) == buf);
            assert(accepts_all(before.inner(), buf.take(k), mid));
        }
    }

    /// Hands the buffered items, oldest first, to the inner sink until it
    /// refuses one or fails. A refused item goes back to the front and the
    /// inner sink is asked to flush. `Ready` once the buffer is empty.
    fn try_empty_buffer(&mut self) -> (r: Poll<(), S::SinkError>)
        ensures
            final(self).capacity() == old(self).capacity(),
            final(self).received() == old(self).received(),
            r is Ok ==> handed_on(
                old(self).inner().received(),
                old(self).buffered(),
                final(self).inner().received(),
                final(self).buffered(),
            ),
            drained(old(self).inner(), old(self).buffered(), final(self).inner(), final(self).buffered(), r),
            r is Err ==> is_suffix(old(self).buffered(), final(self).buffered()),
            (r matches Ok(Async::Ready(_))) ==> final(self).buffered().len() == 0,
            (r matches Ok(Async::NotReady)) ==> final(self).buffered().len() > 0,
    {
        let ghost rcv0 = self.sink.received();
        let ghost buf0 = self.buf@;
        let ghost sink0 = self.sink;
        let ghost mut k: int = 0;
        assert(buf0.take(0).len() == 0);
        loop
            invariant
                sink0 == old(self).inner(),
                accepts_all(sink0, buf0.take(k), self.sink),
                self.cap == old(self).cap,
                self.accepted == old(self).accepted,
                rcv0 == old(self).inner().received(),
                buf0 == old(self).buffered(),
                0 <= k <= buf0.len(),
                self.sink.received() == rcv0 + buf0.take(k),
                self.buf@ == buf0.skip(k),
            decreases self.buf@.len(),
        {
            match self.buf.pop_front() {
                None => {
                    assert(handed_on(rcv0, buf0, self.sink.received(), self.buf@));
                    let r = Ok(Async::Ready(()));
                    assert(drain_end(self.sink, buf0, k, self.sink, self.buf@, r));
                    assert(drained(sink0, buf0, self.sink, self.buf@, r));
                    return r;
                },
                Some(item) => {
                    assert(buf0.take(k + 1) == buf0.take(k).push(item));
                    assert(self.buf@ == buf0.skip(k + 1));
                    let ghost sink_k = self.sink;
                    let answer = self.sink.start_send(item);
                    let ghost answer0 = answer;
                    match answer {
                        Err(e) => {
                            assert(is_suffix(buf0, self.buf@));
                            let r = Err(e);
                            assert(S::send_step(sink_k, buf0[k], self.sink, answer0));
                            assert(drain_end(sink_k, buf0, k, self.sink, self.buf@, r));
                            assert(drained(sink0, buf0, self.sink, self.buf@, r));
                            return r;
                        },
                        Ok(AsyncSink::NotReady(back)) => {
                            self.buf.push_front(back);
                            assert(self.buf@ == buf0.skip(k));
                            // ensure that we attempt to complete any pushes we've started
                            let ghost mid = self.sink;
                            let flushed = self.sink.poll_complete();
                            assert(handed_on(rcv0, buf0, self.sink.received(), self.buf@));
                            assert(is_suffix(buf0, self.buf@));
                            let ghost f = flushed;
                            let r = match flushed {
                                Err(e) => Err(e),
                                Ok(_) => Ok(Async::NotReady),
                            };
                            assert(S::send_step(sink_k, buf0[k], mid, answer0));
                            assert(S::flush_step(mid, self.sink, f));
                            assert(drain_end(sink_k, buf0, k, self.sink, self.buf@, r));
                            assert(drained(sink0, buf0, self.sink, self.buf@, r));
                            return r;
                        },
                        Ok(AsyncSink::Ready) => {
                            proof {
                                assert(S::send_step(sink_k, item, self.sink, answer0));
                                lemma_accepts_push(sink0, buf0.take(k), sink_k, item, self.sink);
                                assert(buf0.take(k).push(item) == buf0.take(k + 1));
                                k = k + 1;
                            }
                        },
                    }
                },
            }
        }
    }
}

// Forwarding impl of Stream from the underlying sink
impl<S, SinkItem> Stream for Buffer<S, SinkItem> where S: Sink<SinkItem> + Stream {
    type Item = S::Item;

    type Error = S::Error;

    /// A poll of the wrapped stream; the buffer itself is left as it was.
    open spec fn poll_step(before: Self, after: Self, r: Poll<Option<S::Item>, S::Error>) -> bool {
        &&& S::poll_step(before.inner(), after.inner(), r)
        &&& after.buffered() == before.buffered()
        &&& after.received() == before.received()
        &&& after.capacity() == before.capacity()
    }

    fn poll(&mut self) -> (r: Poll<Option<S::Item>, S::Error>) {
        self.sink.poll()
    }
}

impl<S, SinkItem> Sink<SinkItem> for Buffer<S, SinkItem> where S: Sink<SinkItem> {
    type SinkError = S::SinkError;

    /// The items this buffer has taken.
    closed spec fn received(&self) -> Seq<SinkItem> {
        self.accepted@
    }

    open spec fn send_step(
        before: Self,
        item: SinkItem,
        after: Self,
        r: StartSend<SinkItem, Self::SinkError>,
    ) -> bool {
        Self::sends(before, item, after, r)
    }

    open spec fn flush_step(before: Self, after: Self, r: Poll<(), Self::SinkError>) -> bool {
        Self::flushes(before, after, r)
    }

    open spec fn close_step(before: Self, after: Self, r: Poll<(), Self::SinkError>) -> bool {
        Self::closes(before, after, r)
    }

    /// With no capacity, hands `item` straight to the inner sink. Otherwise
    /// first hands buffered items on as far as the inner sink takes them, then
    /// takes `item` if there is room left, and gives it back if not.
    fn start_send(&mut self, item: SinkItem) -> (r: StartSend<SinkItem, Self::SinkError>)
    {
        if self.cap == 0 {
            let r = self.sink.start_send(item);
            proof {
                if r matches Ok(AsyncSink::Ready) {
                    self.accepted@ = self.accepted@.push(item);
                }
            }
            return r;
        }
        match self.try_empty_buffer() {
            Err(e) => {
                return Err(e);
            },
            Ok(_) => {},
        }
        proof {
            lemma_handed_on_facts(
                old(self).inner().received(),
                old(self).buffered(),
                self.sink.received(),
                self.buf@,
            );
        }
        if self.buf.len() == self.cap {
            return Ok(AsyncSink::NotReady(item));
        }
        let ghost mid = self.buf@;
        self.buf.push_back(item);
        proof {
            self.accepted@ = self.accepted@.push(item);
        }
        assert(self.buf@.drop_last() == mid);
        assert(self.sink.received() + self.buf@ == (self.sink.received() + mid).push(item));
        Ok(AsyncSink::Ready)
    }

    /// Hands every buffered item on, then flushes the inner sink. `Ready` only
    /// once the buffer is empty and the inner sink is flushed.
    fn poll_complete(&mut self) -> (r: Poll<(), Self::SinkError>) {
        if self.cap == 0 {
            proof {
                lemma_handed_on_refl(self.sink.received(), self.buf@);
            }
            return self.sink.poll_complete();
        }
        match self.try_empty_buffer() {
            Err(e) => {
                proof { lemma_suffix_len(old(self).buffered(), self.buf@); }
                return Err(e);
            },
            Ok(Async::NotReady) => {
                proof {
                    lemma_handed_on_facts(
                        old(self).inner().received(),
                        old(self).buffered(),
                        self.sink.received(),
                        self.buf@,
                    );
                }
                return Ok(Async::NotReady);
            },
            Ok(Async::Ready(_)) => {},
        }
        proof {
            lemma_handed_on_facts(
                old(self).inner().received(),
                old(self).buffered(),
                self.sink.received(),
                self.buf@,
            );
        }
        let ghost mid = self.sink;
        let r = self.sink.poll_complete();
        assert(S::flush_step(mid, self.sink, r));
        r
    }

    /// Hands every buffered item on, then closes the inner sink.
    fn close(&mut self) -> (r: Poll<(), Self::SinkError>) {
        if self.cap == 0 {
            proof {
                lemma_handed_on_refl(self.sink.received(), self.buf@);
            }
            return self.sink.close();
        }
        if self.buf.len() > 0 {
            match self.try_empty_buffer() {
                Err(e) => {
                    proof { lemma_suffix_len(old(self).buffered(), self.buf@); }
                    return Err(e);
                },
                Ok(Async::NotReady) => {
                    proof {
                        lemma_handed_on_facts(
                            old(self).inner().received(),
                            old(self).buffered(),
                            self.sink.received(),
                            self.buf@,
                        );
                    }
                    return Ok(Async::NotReady);
                },
                Ok(Async::Ready(_)) => {},
            }
            proof {
                lemma_handed_on_facts(
                    old(self).inner().received(),
                    old(self).buffered(),
                    self.sink.received(),
                    self.buf@,
                );
            }
        } else {
            proof {
                lemma_handed_on_refl(self.sink.received(), self.buf@);
                lemma_drained_nothing(self.sink, self.buf@);
            }
        }
        let ghost mid = self.sink;
        let r = self.sink.close();
        assert(S::close_step(mid, self.sink, r));
        r
    }
}

/// Unfolds a drain that answered without an error: either the sink took
/// every held item, or it took the first `k`, handed the next one back, and
/// was then flushed without an error.
proof fn drain_ok_parts<T, S: Sink<T>>(
    sink0: S,
    buf0: Seq<T>,
    sink1: S,
    buf1: Seq<T>,
    r: Poll<(), S::SinkError>,
) -> (w: (int, S, S, Poll<(), S::SinkError>))
    requires
        drained(sink0, buf0, sink1, buf1, r),
        r is Ok,
    ensures
        (r matches Ok(Async::Ready(_))) ==> accepts_all(sink0, buf0, sink1) && buf1.len() == 0,
        (r matches Ok(Async::NotReady)) ==> {
            &&& 0 <= w.0 < buf0.len()
            &&& accepts_all(sink0, buf0.take(w.0), w.1)
            &&& S::send_step(
                w.1,
                buf0[w.0],
                w.2,
                Ok::<AsyncSink<T>, S::SinkError>(AsyncSink::NotReady(buf0[w.0])),
            )
            &&& S::flush_step(w.2, sink1, w.3)
            &&& w.3 is Ok
            &&& buf1 == buf0.skip(w.0)
        },
{
    let (k, sink_k) = choose|k: int, sink_k: S|
        0 <= k <= buf0.len() && accepts_all(sink0, buf0.take(k), sink_k) && drain_end(
            sink_k,
            buf0,
            k,
            sink1,
            buf1,
            r,
        );
    if k == buf0.len() {
        assert(buf0.take(k) == buf0);
        (k, sink_k, sink1, r)
    } else {
        let (mid, f) = choose|mid: S, f: Poll<(), S::SinkError>|
            S::send_step(
                sink_k,
                buf0[k],
                mid,
                Ok::<AsyncSink<T>, S::SinkError>(AsyncSink::NotReady(buf0[k])),
            ) && S::flush_step(mid, sink1, f) && r == match f {
                Err(e) => Err::<Async<()>, S::SinkError>(e),
                Ok(_) => Ok::<Async<()>, S::SinkError>(Async::NotReady),
            };
        (k, sink_k, mid, f)
    }
}

/// Handing nothing on is a hand-on.
pub proof fn lemma_handed_on_refl<T>(received: Seq<T>, buf: Seq<T>)
    ensures
        handed_on(received, buf, received, buf),
{
    assert(buf.take(0) == Seq::<T>::empty());
    assert(received + buf.take(0) == received);
    assert(buf.skip(0) == buf);
}

/// Handing items on keeps the pipeline and shrinks the buffer.
pub proof fn lemma_handed_on_facts<T>(
    old_received: Seq<T>,
    old_buf: Seq<T>,
    new_received: Seq<T>,
    new_buf: Seq<T>,
)
    requires
        handed_on(old_received, old_buf, new_received, new_buf),
    ensures
        new_received + new_buf == old_received + old_buf,
        old_received.is_prefix_of(new_received),
        new_buf.len() <= old_buf.len(),
        is_suffix(old_buf, new_buf),
{
    let k = choose|k: int|
        0 <= k <= old_buf.len() && new_received == old_received + old_buf.take(k)
            && #[trigger] old_buf.skip(k) == new_buf;
    assert(old_buf == old_buf.take(k) + old_buf.skip(k));
    assert(new_received + new_buf == old_received + (old_buf.take(k) + old_buf.skip(k)));
    assert(new_received.subrange(0, old_received.len() as int) == old_received);
}

/// A suffix is no longer than what it was cut from.
pub proof fn lemma_suffix_len<T>(old_buf: Seq<T>, new_buf: Seq<T>)
    requires
        is_suffix(old_buf, new_buf),
    ensures
        new_buf.len() <= old_buf.len(),
{
}

/// Draining an empty buffer does nothing and answers `Ready`.
pub proof fn lemma_drained_nothing<T, S: Sink<T>>(sink: S, buf: Seq<T>)
    requires
        buf.len() == 0,
    ensures
        drained(sink, buf, sink, buf, Ok::<Async<()>, S::SinkError>(Async::Ready(()))),
{
    assert(buf.take(0).len() == 0);
    assert(accepts_all(sink, buf.take(0), sink));
    assert(drain_end(sink, buf, 0, sink, buf, Ok::<Async<()>, S::SinkError>(Async::Ready(()))));
}

/// Taking one more item, answering `Ready`, extends a run of accepted sends.
pub proof fn lemma_accepts_push<T, S: Sink<T>>(sink0: S, items: Seq<T>, mid: S, x: T, sink1: S)
    requires
        accepts_all(sink0, items, mid),
        S::send_step(mid, x, sink1, Ok::<AsyncSink<T>, S::SinkError>(AsyncSink::Ready)),
    ensures
        accepts_all(sink0, items.push(x), sink1),
{
    assert(items.push(x).drop_last() == items);
    assert(items.push(x).last() == x);
}

} // verus!
