//! A sink that hands a clone of each item to one sink and the item itself to
//! another.
use crate::poll::{join, joined, Async, AsyncSink, Poll, StartSend};
use crate::sink::Sink;
use vstd::prelude::*;

verus! {

/// The single item that `state` still owes its sink, if any.
pub open spec fn owed<T>(state: AsyncSink<T>) -> Seq<T> {
    match state {
        AsyncSink::Ready => Seq::empty(),
        AsyncSink::NotReady(item) => seq![item],
    }
}

/// `new_log` is `old_log` with one more item at the end, a clone of `item`.
pub open spec fn grew_by_clone<T: Clone>(old_log: Seq<T>, new_log: Seq<T>, item: T) -> bool {
    &&& new_log.len() == old_log.len() + 1
    &&& new_log.drop_last() == old_log
    &&& cloned(item, new_log.last())
}

/// What one downstream side reports: `Ready` only with nothing owed and its
/// sink ready.
pub open spec fn side_ready<T>(owed: Seq<T>, sink_answer: Async<()>) -> Async<()> {
    joined(
        if owed.len() == 0 {
            Async::Ready(())
        } else {
            Async::NotReady
        },
        sink_answer,
    )
}

/// What a side keeps of its sink's answer to a send: `NotReady` makes the
/// handed-back item owed; `Ready` or an error leave nothing owed; an error is
/// passed on.
pub open spec fn settled<T, E>(answer: StartSend<T, E>, owed1: Seq<T>, r: Result<(), E>) -> bool {
    match answer {
        Ok(AsyncSink::Ready) => owed1.len() == 0 && r is Ok,
        Ok(AsyncSink::NotReady(back)) => owed1 == seq![back] && r is Ok,
        Err(e) => owed1.len() == 0 && r == Err::<(), E>(e),
    }
}

/// One send of `x` to `sink0`, which became `sink1`, with its answer kept
/// as `settled` says.
pub open spec fn sent_once<T, S: Sink<T>>(
    sink0: S,
    x: T,
    sink1: S,
    owed1: Seq<T>,
    r: Result<(), S::SinkError>,
) -> bool {
    exists|answer: StartSend<T, S::SinkError>|
        #![trigger S::send_step(sink0, x, sink1, answer)]
        S::send_step(sink0, x, sink1, answer) && settled(answer, owed1, r)
}

/// The resend of a side: with nothing owed, nothing happens; with an item
/// owed, that item is sent once.
pub open spec fn resent<T, S: Sink<T>>(
    sink0: S,
    owed0: Seq<T>,
    sink1: S,
    owed1: Seq<T>,
    r: Result<(), S::SinkError>,
) -> bool {
    if owed0.len() == 0 {
        sink1 == sink0 && owed1.len() == 0 && r is Ok
    } else {
        sent_once(sink0, owed0[0], sink1, owed1, r)
    }
}

/// After a resend that left the sink as `mid` owing `owed1`, one flush of the
/// sink, which became `sink1`: its error is passed on; otherwise the side
/// reports `Ready` only with nothing owed and the sink ready.
pub open spec fn flushed_once<T, S: Sink<T>>(
    mid: S,
    owed1: Seq<T>,
    sink1: S,
    r: Poll<(), S::SinkError>,
) -> bool {
    exists|f: Poll<(), S::SinkError>|
        #![trigger S::flush_step(mid, sink1, f)]
        S::flush_step(mid, sink1, f) && r == match f {
            Err(e) => Err::<Async<()>, S::SinkError>(e),
            Ok(a) => Ok::<Async<()>, S::SinkError>(side_ready(owed1, a)),
        }
}

/// A side's flush: it went from `sink0` owing `owed0` to `sink1` owing
/// `owed1` by a resend and, unless that failed, one flush of its sink; it
/// answers `r`.
pub open spec fn side_flushed<T, S: Sink<T>>(
    sink0: S,
    owed0: Seq<T>,
    sink1: S,
    owed1: Seq<T>,
    r: Poll<(), S::SinkError>,
) -> bool {
    exists|mid: S, k: Result<(), S::SinkError>|
        #![trigger resent(sink0, owed0, mid, owed1, k)]
        resent(sink0, owed0, mid, owed1, k) && match k {
            Err(e) => sink1 == mid && r == Err::<Async<()>, S::SinkError>(e),
            Ok(_) => flushed_once(mid, owed1, sink1, r),
        }
}

/// A side's close: it went from `sink0` owing `owed0` to `sink1` owing
/// `owed1` by a resend and, unless that failed, either `NotReady` with the
/// sink left alone while an item is still owed, or one close of its sink,
/// whose answer is passed on.
pub open spec fn side_closed<T, S: Sink<T>>(
    sink0: S,
    owed0: Seq<T>,
    sink1: S,
    owed1: Seq<T>,
    r: Poll<(), S::SinkError>,
) -> bool {
    exists|mid: S, k: Result<(), S::SinkError>|
        #![trigger resent(sink0, owed0, mid, owed1, k)]
        resent(sink0, owed0, mid, owed1, k) && match k {
            Err(e) => sink1 == mid && r == Err::<Async<()>, S::SinkError>(e),
            Ok(_) => if owed1.len() > 0 {
                sink1 == mid && r == Ok::<Async<()>, S::SinkError>(Async::NotReady)
            } else {
                S::close_step(mid, sink1, r)
            },
        }
}

/// Unfolds a side's flush that starts with `x` owed: the send of `x` that
/// answered `ans` and left the sink as `mid`, and, unless it failed, the
/// flush of `mid` that answered `f`.
proof fn side_flush_parts<T, S: Sink<T>>(sink0: S, x: T, sink1: S, owed1: Seq<T>, r: Poll<(), S::SinkError>) -> (w: (
    StartSend<T, S::SinkError>,
    S,
    Poll<(), S::SinkError>,
))
    requires
        side_flushed(sink0, seq![x], sink1, owed1, r),
    ensures
        S::send_step(sink0, x, w.1, w.0),
        match w.0 {
            Err(e) => r == Err::<Async<()>, S::SinkError>(e) && sink1 == w.1 && owed1.len() == 0,
            Ok(a) => S::flush_step(w.1, sink1, w.2) && owed1 == owed(a) && r == match w.2 {
                Err(e) => Err::<Async<()>, S::SinkError>(e),
                Ok(s) => Ok::<Async<()>, S::SinkError>(side_ready(owed(a), s)),
            },
        },
{
    let (mid, k) = choose|mid: S, k: Result<(), S::SinkError>|
        resent(sink0, seq![x], mid, owed1, k) && match k {
            Err(e) => sink1 == mid && r == Err::<Async<()>, S::SinkError>(e),
            Ok(_) => flushed_once(mid, owed1, sink1, r),
        };
    let ans = choose|ans: StartSend<T, S::SinkError>| S::send_step(sink0, x, mid, ans) && settled(ans, owed1, k);
    let mut f = r;
    if k is Ok {
        f = choose|f: Poll<(), S::SinkError>|
            S::flush_step(mid, sink1, f) && r == match f {
                Err(e) => Err::<Async<()>, S::SinkError>(e),
                Ok(a) => Ok::<Async<()>, S::SinkError>(side_ready(owed1, a)),
            };
    }
    (ans, mid, f)
}

/// A side's flush with nothing owed is one flush of its sink, whose answer
/// it passes on.
proof fn side_flush_plain<T, S: Sink<T>>(sink0: S, sink1: S, owed1: Seq<T>, r: Poll<(), S::SinkError>)
    requires
        side_flushed(sink0, Seq::empty(), sink1, owed1, r),
    ensures
        owed1.len() == 0,
        S::flush_step(sink0, sink1, r),
{
    let (mid, k) = choose|mid: S, k: Result<(), S::SinkError>|
        resent(sink0, Seq::empty(), mid, owed1, k) && match k {
            Err(e) => sink1 == mid && r == Err::<Async<()>, S::SinkError>(e),
            Ok(_) => flushed_once(mid, owed1, sink1, r),
        };
    let f = choose|f: Poll<(), S::SinkError>|
        S::flush_step(mid, sink1, f) && r == match f {
            Err(e) => Err::<Async<()>, S::SinkError>(e),
            Ok(a) => Ok::<Async<()>, S::SinkError>(side_ready(owed1, a)),
        };
    match f {
        Ok(a) => {
            assert(owed1.len() == 0);
            match a {
                Async::Ready(u) => {
                    assert(u == ());
                },
                Async::NotReady => {},
            }
            assert(side_ready(owed1, a) == a);
        },
        Err(_) => {},
    }
}

/// Unfolds a side's close that starts with `x` owed: the send of `x` that
/// answered `ans` and left the sink as `mid`, then, if `x` was taken, the
/// close of `mid`.
proof fn side_close_parts<T, S: Sink<T>>(sink0: S, x: T, sink1: S, owed1: Seq<T>, r: Poll<(), S::SinkError>) -> (w: (
    StartSend<T, S::SinkError>,
    S,
))
    requires
        side_closed(sink0, seq![x], sink1, owed1, r),
    ensures
        S::send_step(sink0, x, w.1, w.0),
        match w.0 {
            Err(e) => r == Err::<Async<()>, S::SinkError>(e) && sink1 == w.1 && owed1.len() == 0,
            Ok(AsyncSink::NotReady(back)) => sink1 == w.1 && owed1 == seq![back] && r == Ok::<
                Async<()>,
                S::SinkError,
            >(Async::NotReady),
            Ok(AsyncSink::Ready) => owed1.len() == 0 && S::close_step(w.1, sink1, r),
        },
{
    let (mid, k) = choose|mid: S, k: Result<(), S::SinkError>|
        resent(sink0, seq![x], mid, owed1, k) && match k {
            Err(e) => sink1 == mid && r == Err::<Async<()>, S::SinkError>(e),
            Ok(_) => if owed1.len() > 0 {
                sink1 == mid && r == Ok::<Async<()>, S::SinkError>(Async::NotReady)
            } else {
                S::close_step(mid, sink1, r)
            },
        };
    let ans = choose|ans: StartSend<T, S::SinkError>| S::send_step(sink0, x, mid, ans) && settled(ans, owed1, k);
    (ans, mid)
}

/// A side's close with nothing owed is one close of its sink, whose answer
/// it passes on.
proof fn side_close_plain<T, S: Sink<T>>(sink0: S, sink1: S, owed1: Seq<T>, r: Poll<(), S::SinkError>)
    requires
        side_closed(sink0, Seq::empty(), sink1, owed1, r),
    ensures
        owed1.len() == 0,
        S::close_step(sink0, sink1, r),
{
    let (mid, k) = choose|mid: S, k: Result<(), S::SinkError>|
        resent(sink0, Seq::empty(), mid, owed1, k) && match k {
            Err(e) => sink1 == mid && r == Err::<Async<()>, S::SinkError>(e),
            Ok(_) => if owed1.len() > 0 {
                sink1 == mid && r == Ok::<Async<()>, S::SinkError>(Async::NotReady)
            } else {
                S::close_step(mid, sink1, r)
            },
        };
}

/// Sink that clones incoming items and forwards them to two sinks at the same time.
///
/// Backpressure from any downstream sink propagates up, which means that this sink
/// can only process items as fast as its _slowest_ downstream sink.
pub struct Fanout<A, B, SinkItem> where
    A: Sink<SinkItem>,
    B: Sink<SinkItem, SinkError = A::SinkError>,
    SinkItem: Clone,
 {
    left: Downstream<A, SinkItem>,
    right: Downstream<B, SinkItem>,
    // The items this fanout has taken, its model as a sink.
    accepted: Ghost<Seq<SinkItem>>,
}

/// Creates a fanout that sends a clone of each item to `left` and the item to `right`.
pub fn new<A, B, SinkItem>(left: A, right: B) -> (f: Fanout<A, B, SinkItem>) where
    A: Sink<SinkItem>,
    B: Sink<SinkItem, SinkError = A::SinkError>,
    SinkItem: Clone,

    ensures
        f.left_inner() == left,
        f.right_inner() == right,
        f.left_owed() == Seq::<SinkItem>::empty(),
        f.right_owed() == Seq::<SinkItem>::empty(),
        f.received() == Seq::<SinkItem>::empty(),
{
    Fanout {
        left: Downstream::new(left),
        right: Downstream::new(right),
        accepted: Ghost(Seq::empty()),
    }
}

impl<A, B, SinkItem> Fanout<A, B, SinkItem> where
    A: Sink<SinkItem>,
    B: Sink<SinkItem, SinkError = A::SinkError>,
    SinkItem: Clone,
 {
    /// The sink that receives clones.
    pub closed spec fn left_inner(&self) -> A {
        self.left.sink
    }

    /// The sink that receives the items themselves.
    pub closed spec fn right_inner(&self) -> B {
        self.right.sink
    }

    /// The item the left sink refused and that is still to be sent to it, if any.
    pub closed spec fn left_owed(&self) -> Seq<SinkItem> {
        self.left.owed()
    }

    /// The item the right sink refused and that is still to be sent to it, if any.
    pub closed spec fn right_owed(&self) -> Seq<SinkItem> {
        self.right.owed()
    }

    /// What the left sink has taken, followed by the item still owed to it.
    pub open spec fn left_log(&self) -> Seq<SinkItem> {
        self.left_inner().received() + self.left_owed()
    }

    /// What the right sink has taken, followed by the item still owed to it.
    pub open spec fn right_log(&self) -> Seq<SinkItem> {
        self.right_inner().received() + self.right_owed()
    }

    /// The left side is the sink `sink` owing `owed`.
    pub open spec fn left_is(&self, sink: A, owed: Seq<SinkItem>) -> bool {
        self.left_inner() == sink && self.left_owed() == owed
    }

    /// The right side is the sink `sink` owing `owed`.
    pub open spec fn right_is(&self, sink: B, owed: Seq<SinkItem>) -> bool {
        self.right_inner() == sink && self.right_owed() == owed
    }

    /// What sending `item` does: resend what the left side owes, then what
    /// the right side owes; if either resend fails, that error, with the right
    /// sink left alone after a left failure. Then, if either side still owes
    /// an item, hand `item` back; otherwise send a clone of `item` left, then,
    /// unless that failed, `item` right, and answer `Ready` or the error.
    pub open spec fn sends(before: Self, item: SinkItem, after: Self, r: StartSend<
        SinkItem,
        A::SinkError,
    >) -> bool {
        &&& after.received() == match r {
            Ok(AsyncSink::Ready) => before.received().push(item),
            _ => before.received(),
        }
        &&& exists|l1: A, lo1: Seq<SinkItem>, kl: Result<(), A::SinkError>|
            #![trigger resent::<SinkItem, A>(before.left_inner(), before.left_owed(), l1, lo1, kl)]
            resent::<SinkItem, A>(before.left_inner(), before.left_owed(), l1, lo1, kl) && match kl {
                Err(e) => r == Err::<AsyncSink<SinkItem>, A::SinkError>(e) && after.left_is(l1, lo1)
                    && after.right_is(before.right_inner(), before.right_owed()),
                Ok(_) => Self::sends_after_left(before, item, after, r, l1, lo1),
            }
        // a summary over what each side has taken or is owed
        &&& match r {
            Ok(AsyncSink::Ready) => {
                &&& grew_by_clone(before.left_log(), after.left_log(), item)
                &&& after.right_log() == before.right_log().push(item)
            },
            Ok(AsyncSink::NotReady(back)) => {
                &&& back == item
                &&& after.left_log() == before.left_log()
                &&& after.right_log() == before.right_log()
                &&& (after.left_owed().len() > 0 || after.right_owed().len() > 0)
            },
            Err(_) => true,
        }
        // with nothing owed downstream, the item is never refused
        &&& before.left_owed().len() == 0 && before.right_owed().len() == 0 ==> !(r is Ok
            && r->Ok_0 is NotReady)
    }

    /// `sends`, once the left resend has left the left sink as `l1` owing `lo1`.
    pub open spec fn sends_after_left(
        before: Self,
        item: SinkItem,
        after: Self,
        r: StartSend<SinkItem, A::SinkError>,
        l1: A,
        lo1: Seq<SinkItem>,
    ) -> bool {
        exists|r1: B, ro1: Seq<SinkItem>, kr: Result<(), A::SinkError>|
            #![trigger resent::<SinkItem, B>(before.right_inner(), before.right_owed(), r1, ro1, kr)]
            resent::<SinkItem, B>(before.right_inner(), before.right_owed(), r1, ro1, kr)
                && match kr {
                Err(e) => r == Err::<AsyncSink<SinkItem>, A::SinkError>(e) && after.left_is(l1, lo1)
                    && after.right_is(r1, ro1),
                Ok(_) => if lo1.len() > 0 || ro1.len() > 0 {
                    r == Ok::<AsyncSink<SinkItem>, A::SinkError>(AsyncSink::NotReady(item))
                        && after.left_is(l1, lo1) && after.right_is(r1, ro1)
                } else {
                    Self::sends_to_both(item, after, r, l1, r1)
                },
            }
    }

    /// `sends`, once both sides owe nothing, with sinks `l1` and `r1`.
    pub open spec fn sends_to_both(
        item: SinkItem,
        after: Self,
        r: StartSend<SinkItem, A::SinkError>,
        l1: A,
        r1: B,
    ) -> bool {
        exists|c: SinkItem, l2: A, lo2: Seq<SinkItem>, sl: Result<(), A::SinkError>|
            #![trigger sent_once::<SinkItem, A>(l1, c, l2, lo2, sl)]
            cloned(item, c) && sent_once::<SinkItem, A>(l1, c, l2, lo2, sl) && after.left_is(l2, lo2)
                && match sl {
                Err(e) => r == Err::<AsyncSink<SinkItem>, A::SinkError>(e) && after.right_is(
                    r1,
                    Seq::empty(),
                ),
                Ok(_) => exists|sr: Result<(), A::SinkError>|
                    #![trigger sent_once::<SinkItem, B>(r1, item, after.right_inner(), after.right_owed(), sr)]
                    sent_once::<SinkItem, B>(r1, item, after.right_inner(), after.right_owed(), sr)
                        && r == match sr {
                        Err(e) => Err::<AsyncSink<SinkItem>, A::SinkError>(e),
                        Ok(_) => Ok::<AsyncSink<SinkItem>, A::SinkError>(AsyncSink::Ready),
                    },
            }
    }

    /// A flush of both sides, left first; an error on the left is passed on
    /// with the right side left alone; otherwise the right side is flushed
    /// too, and the answer is its error or `Ready` only if both sides are.
    pub open spec fn both_flushed(before: Self, after: Self, r: Poll<(), A::SinkError>) -> bool {
        exists|rl: Poll<(), A::SinkError>|
            #![trigger side_flushed::<SinkItem, A>(before.left_inner(), before.left_owed(), after.left_inner(), after.left_owed(), rl)]
            side_flushed::<SinkItem, A>(
                before.left_inner(),
                before.left_owed(),
                after.left_inner(),
                after.left_owed(),
                rl,
            ) && match rl {
                Err(e) => r == Err::<Async<()>, A::SinkError>(e) && after.right_is(
                    before.right_inner(),
                    before.right_owed(),
                ),
                Ok(al) => exists|rr: Poll<(), A::SinkError>|
                    #![trigger side_flushed::<SinkItem, B>(before.right_inner(), before.right_owed(), after.right_inner(), after.right_owed(), rr)]
                    side_flushed::<SinkItem, B>(
                        before.right_inner(),
                        before.right_owed(),
                        after.right_inner(),
                        after.right_owed(),
                        rr,
                    ) && r == match rr {
                        Err(e) => Err::<Async<()>, A::SinkError>(e),
                        Ok(ar) => Ok::<Async<()>, A::SinkError>(joined(al, ar)),
                    },
            }
    }

    /// A close of both sides, left first, in the same way as `both_flushed`.
    pub open spec fn both_closed(before: Self, after: Self, r: Poll<(), A::SinkError>) -> bool {
        exists|rl: Poll<(), A::SinkError>|
            #![trigger side_closed::<SinkItem, A>(before.left_inner(), before.left_owed(), after.left_inner(), after.left_owed(), rl)]
            side_closed::<SinkItem, A>(
                before.left_inner(),
                before.left_owed(),
                after.left_inner(),
                after.left_owed(),
                rl,
            ) && match rl {
                Err(e) => r == Err::<Async<()>, A::SinkError>(e) && after.right_is(
                    before.right_inner(),
                    before.right_owed(),
                ),
                Ok(al) => exists|rr: Poll<(), A::SinkError>|
                    #![trigger side_closed::<SinkItem, B>(before.right_inner(), before.right_owed(), after.right_inner(), after.right_owed(), rr)]
                    side_closed::<SinkItem, B>(
                        before.right_inner(),
                        before.right_owed(),
                        after.right_inner(),
                        after.right_owed(),
                        rr,
                    ) && r == match rr {
                        Err(e) => Err::<Async<()>, A::SinkError>(e),
                        Ok(ar) => Ok::<Async<()>, A::SinkError>(joined(al, ar)),
                    },
            }
    }

    /// Consumes this combinator, returning the underlying sinks.
    ///
    /// Note that this may discard intermediate state of this combinator,
    /// so care should be taken to avoid losing resources when this is called.
    pub fn into_inner(self) -> (r: (A, B))
        ensures
            r.0 == self.left_inner(),
            r.1 == self.right_inner(),
    {
        (self.left.sink, self.right.sink)
    }
}

impl<A, B, SinkItem> Sink<SinkItem> for Fanout<A, B, SinkItem> where
    A: Sink<SinkItem>,
    B: Sink<SinkItem, SinkError = A::SinkError>,
    SinkItem: Clone,
 {
    type SinkError = A::SinkError;

    /// The items this fanout has taken.
    closed spec fn received(&self) -> Seq<SinkItem> {
        self.accepted@
    }

    open spec fn send_step(
        before: Self,
        item: SinkItem,
        after: Self,
        r: StartSend<SinkItem, Self::SinkError>,
    ) -> bool {
        Self::sends(before, item, after, r)
    }

    /// A flush resends what each side owes and flushes both sinks, left then
    /// right; `Ready` only if both sides are.
    open spec fn flush_step(before: Self, after: Self, r: Poll<(), Self::SinkError>) -> bool {
        &&& after.received() == before.received()
        &&& r is Ok ==> after.left_log() == before.left_log() && after.right_log()
            == before.right_log()
        &&& Self::both_flushed(before, after, r)
    }

    /// A close resends what each side owes and closes both sinks, left then
    /// right; `Ready` only if both sides are.
    open spec fn close_step(before: Self, after: Self, r: Poll<(), Self::SinkError>) -> bool {
        &&& after.received() == before.received()
        &&& r is Ok ==> after.left_log() == before.left_log() && after.right_log()
            == before.right_log()
        &&& Self::both_closed(before, after, r)
    }

    /// First resends any item a downstream sink refused before; then, only if
    /// neither downstream sink still owes an item, sends a clone of `item` left
    /// and `item` right.
    fn start_send(&mut self, item: SinkItem) -> (r: StartSend<SinkItem, Self::SinkError>) {
        let ghost before = *self;
        // Attempt to complete processing any outstanding requests.
        let kl = self.left.keep_flushing();
        let ghost kl0 = kl;
        let ghost l1 = self.left.sink;
        let ghost lo1 = self.left.owed();
        if let Err(e) = kl {
            let r = Err(e);
            assert(resent::<SinkItem, A>(before.left_inner(), before.left_owed(), l1, lo1, kl0));
            assert(Self::sends(before, item, *self, r));
            return r;
        }
        let kr = self.right.keep_flushing();
        let ghost kr0 = kr;
        let ghost r1 = self.right.sink;
        let ghost ro1 = self.right.owed();
        if let Err(e) = kr {
            let r = Err(e);
            assert(resent::<SinkItem, B>(before.right_inner(), before.right_owed(), r1, ro1, kr0));
            assert(Self::sends_after_left(before, item, *self, r, l1, lo1));
            assert(resent::<SinkItem, A>(before.left_inner(), before.left_owed(), l1, lo1, kl0));
            assert(Self::sends(before, item, *self, r));
            return r;
        }
        // Only if both downstream sinks are ready, start sending the next item.
        if self.left.is_ready() && self.right.is_ready() {
            let ghost left0 = self.left.log();
            let ghost right0 = self.right.log();
            let c = item.clone();
            let ghost c0 = c;
            let sl = self.left.send(c);
            let ghost sl0 = sl;
            let ghost l2 = self.left.sink;
            let ghost lo2 = self.left.owed();
            if let Err(e) = sl {
                let r = Err(e);
                assert(sent_once::<SinkItem, A>(l1, c0, l2, lo2, sl0));
                assert(Self::sends_to_both(item, *self, r, l1, r1));
                assert(resent::<SinkItem, B>(before.right_inner(), before.right_owed(), r1, ro1, kr0));
                assert(Self::sends_after_left(before, item, *self, r, l1, lo1));
                assert(resent::<SinkItem, A>(before.left_inner(), before.left_owed(), l1, lo1, kl0));
                assert(Self::sends(before, item, *self, r));
                return r;
            }
            assert(self.left.log().drop_last() == left0);
            let sr = self.right.send(item);
            let ghost sr0 = sr;
            let r = match sr {
                Err(e) => Err(e),
                Ok(()) => {
                    assert(self.right.log() == right0.push(item));
                    proof {
                        self.accepted@ = self.accepted@.push(item);
                    }
                    Ok(AsyncSink::Ready)
                },
            };
            assert(sent_once::<SinkItem, B>(r1, item, self.right_inner(), self.right_owed(), sr0));
            assert(sent_once::<SinkItem, A>(l1, c0, l2, lo2, sl0));
            assert(Self::sends_to_both(item, *self, r, l1, r1));
            assert(resent::<SinkItem, B>(before.right_inner(), before.right_owed(), r1, ro1, kr0));
            assert(Self::sends_after_left(before, item, *self, r, l1, lo1));
            assert(resent::<SinkItem, A>(before.left_inner(), before.left_owed(), l1, lo1, kl0));
            assert(Self::sends(before, item, *self, r));
            r
        } else {
            let r = Ok(AsyncSink::NotReady(item));
            assert(resent::<SinkItem, B>(before.right_inner(), before.right_owed(), r1, ro1, kr0));
            assert(Self::sends_after_left(before, item, *self, r, l1, lo1));
            assert(resent::<SinkItem, A>(before.left_inner(), before.left_owed(), l1, lo1, kl0));
            assert(Self::sends(before, item, *self, r));
            r
        }
    }

    /// Flushes both downstream sinks: `Ready` only if both are flushed.
    fn poll_complete(&mut self) -> (r: Poll<(), Self::SinkError>)
        ensures
            r is Ok ==> final(self).left_log() == old(self).left_log() && final(self).right_log()
                == old(self).right_log(),
            (r matches Ok(Async::Ready(_))) ==> final(self).left_owed().len() == 0
                && final(self).right_owed().len() == 0,
    {
        let ghost before = *self;
        let rl = self.left.poll_complete();
        let ghost rl0 = rl;
        let left_async = match rl {
            Err(e) => {
                let r = Err(e);
                assert(side_flushed::<SinkItem, A>(before.left_inner(), before.left_owed(), self.left_inner(), self.left_owed(), rl0));
                assert(Self::both_flushed(before, *self, r));
                return r;
            },
            Ok(a) => a,
        };
        let ghost left_after = self.left;
        let rr = self.right.poll_complete();
        let ghost rr0 = rr;
        assert(self.left == left_after);
        // Only if both downstream sinks are ready, signal readiness.
        let r = match rr {
            Err(e) => Err(e),
            Ok(right_async) => Ok(join(left_async, right_async)),
        };
        assert(side_flushed::<SinkItem, A>(before.left_inner(), before.left_owed(), self.left_inner(), self.left_owed(), rl0));
        assert(side_flushed::<SinkItem, B>(before.right_inner(), before.right_owed(), self.right_inner(), self.right_owed(), rr0));
        assert(Self::both_flushed(before, *self, r));
        r
    }

    /// Closes both downstream sinks: `Ready` only if both are closed.
    fn close(&mut self) -> (r: Poll<(), Self::SinkError>)
        ensures
            r is Ok ==> final(self).left_log() == old(self).left_log() && final(self).right_log()
                == old(self).right_log(),
            (r matches Ok(Async::Ready(_))) ==> final(self).left_owed().len() == 0
                && final(self).right_owed().len() == 0,
    {
        let ghost before = *self;
        let rl = self.left.close();
        let ghost rl0 = rl;
        let left_async = match rl {
            Err(e) => {
                let r = Err(e);
                assert(side_closed::<SinkItem, A>(before.left_inner(), before.left_owed(), self.left_inner(), self.left_owed(), rl0));
                assert(Self::both_closed(before, *self, r));
                return r;
            },
            Ok(a) => a,
        };
        let ghost left_after = self.left;
        let rr = self.right.close();
        let ghost rr0 = rr;
        assert(self.left == left_after);
        // Only if both downstream sinks are ready, signal readiness.
        let r = match rr {
            Err(e) => Err(e),
            Ok(right_async) => Ok(join(left_async, right_async)),
        };
        assert(side_closed::<SinkItem, A>(before.left_inner(), before.left_owed(), self.left_inner(), self.left_owed(), rl0));
        assert(side_closed::<SinkItem, B>(before.right_inner(), before.right_owed(), self.right_inner(), self.right_owed(), rr0));
        assert(Self::both_closed(before, *self, r));
        r
    }
}

/// Laws of a fanout, stated over what its two sinks were sent and answered.
impl<A, B, SinkItem> Fanout<A, B, SinkItem> where
    A: Sink<SinkItem>,
    B: Sink<SinkItem, SinkError = A::SinkError>,
    SinkItem: Clone,
 {
    /// Sending an item to a fanout whose left sink owes `x` first sends `x`,
    /// once, to the left sink. If that send fails, the fanout answers its
    /// error and the right side is left alone; if the left sink hands `x`
    /// back, it stays owed; if it takes `x`, the item's clone is sent to it
    /// next whenever the fanout answers `Ready`.
    pub proof fn lemma_send_resends_left(
        before: Self,
        item: SinkItem,
        after: Self,
        r: StartSend<SinkItem, A::SinkError>,
        x: SinkItem,
    )
        requires
            Self::send_step(before, item, after, r),
            before.left_owed() == seq![x],
        ensures
            exists|ans: StartSend<SinkItem, A::SinkError>, mid: A|
                #![trigger A::send_step(before.left_inner(), x, mid, ans)]
                A::send_step(before.left_inner(), x, mid, ans) && match ans {
                    Err(e) => r == Err::<AsyncSink<SinkItem>, A::SinkError>(e) && after.left_is(
                        mid,
                        Seq::empty(),
                    ) && after.right_is(before.right_inner(), before.right_owed()),
                    Ok(AsyncSink::NotReady(back)) => after.left_is(mid, seq![back]) && (r is Ok
                        ==> r == Ok::<AsyncSink<SinkItem>, A::SinkError>(AsyncSink::NotReady(item))),
                    Ok(AsyncSink::Ready) => ((r matches Ok(AsyncSink::NotReady(_))) ==> after.left_is(
                        mid,
                        Seq::empty(),
                    )) && ((r matches Ok(AsyncSink::Ready)) ==> exists|
                        c: SinkItem,
                        a2: StartSend<SinkItem, A::SinkError>,
                    |
                        #![trigger A::send_step(mid, c, after.left_inner(), a2)]
                        cloned(item, c) && A::send_step(mid, c, after.left_inner(), a2)),
                },
    {
        let (l1, lo1, kl) = choose|l1: A, lo1: Seq<SinkItem>, kl: Result<(), A::SinkError>|
            resent::<SinkItem, A>(before.left_inner(), before.left_owed(), l1, lo1, kl) && match kl {
                Err(e) => r == Err::<AsyncSink<SinkItem>, A::SinkError>(e) && after.left_is(l1, lo1)
                    && after.right_is(before.right_inner(), before.right_owed()),
                Ok(_) => Self::sends_after_left(before, item, after, r, l1, lo1),
            };
        let ans = choose|ans: StartSend<SinkItem, A::SinkError>|
            A::send_step(before.left_inner(), x, l1, ans) && settled(ans, lo1, kl);
        assert(A::send_step(before.left_inner(), x, l1, ans));
        if kl is Ok {
            let (r1, ro1, kr) = choose|r1: B, ro1: Seq<SinkItem>, kr: Result<(), A::SinkError>|
                resent::<SinkItem, B>(before.right_inner(), before.right_owed(), r1, ro1, kr)
                    && match kr {
                    Err(e) => r == Err::<AsyncSink<SinkItem>, A::SinkError>(e) && after.left_is(l1, lo1)
                        && after.right_is(r1, ro1),
                    Ok(_) => if lo1.len() > 0 || ro1.len() > 0 {
                        r == Ok::<AsyncSink<SinkItem>, A::SinkError>(AsyncSink::NotReady(item))
                            && after.left_is(l1, lo1) && after.right_is(r1, ro1)
                    } else {
                        Self::sends_to_both(item, after, r, l1, r1)
                    },
                };
            if kr is Ok && lo1.len() == 0 && ro1.len() == 0 {
                let (c, l2, lo2, sl) = choose|c: SinkItem, l2: A, lo2: Seq<SinkItem>, sl: Result<(), A::SinkError>|
                    cloned(item, c) && sent_once::<SinkItem, A>(l1, c, l2, lo2, sl) && after.left_is(l2, lo2)
                        && match sl {
                        Err(e) => r == Err::<AsyncSink<SinkItem>, A::SinkError>(e) && after.right_is(
                            r1,
                            Seq::empty(),
                        ),
                        Ok(_) => exists|sr: Result<(), A::SinkError>|
                            #![trigger sent_once::<SinkItem, B>(r1, item, after.right_inner(), after.right_owed(), sr)]
                            sent_once::<SinkItem, B>(r1, item, after.right_inner(), after.right_owed(), sr)
                                && r == match sr {
                                Err(e) => Err::<AsyncSink<SinkItem>, A::SinkError>(e),
                                Ok(_) => Ok::<AsyncSink<SinkItem>, A::SinkError>(AsyncSink::Ready),
                            },
                    };
                let a2 = choose|a2: StartSend<SinkItem, A::SinkError>|
                    A::send_step(l1, c, l2, a2) && settled(a2, lo2, sl);
                assert(A::send_step(l1, c, after.left_inner(), a2));
            }
        }
    }

    /// Sending an item to a fanout whose right sink owes `x`, when the fanout
    /// answers without an error, sends `x` once to the right sink, which does
    /// not fail. If it hands `x` back, `x` stays owed and the item is handed
    /// back; if it takes `x`, the item itself is sent to it next whenever the
    /// fanout answers `Ready`.
    pub proof fn lemma_send_resends_right(
        before: Self,
        item: SinkItem,
        after: Self,
        r: StartSend<SinkItem, A::SinkError>,
        x: SinkItem,
    )
        requires
            Self::send_step(before, item, after, r),
            before.right_owed() == seq![x],
            r is Ok,
        ensures
            exists|ans: StartSend<SinkItem, A::SinkError>, mid: B|
                #![trigger B::send_step(before.right_inner(), x, mid, ans)]
                B::send_step(before.right_inner(), x, mid, ans) && match ans {
                    Err(_) => false,
                    Ok(AsyncSink::NotReady(back)) => after.right_is(mid, seq![back]) && r == Ok::<
                        AsyncSink<SinkItem>,
                        A::SinkError,
                    >(AsyncSink::NotReady(item)),
                    Ok(AsyncSink::Ready) => ((r matches Ok(AsyncSink::NotReady(_)))
                        ==> after.right_is(mid, Seq::empty())) && ((r matches Ok(AsyncSink::Ready))
                        ==> exists|a2: StartSend<SinkItem, A::SinkError>|
                        #![trigger B::send_step(mid, item, after.right_inner(), a2)]
                        B::send_step(mid, item, after.right_inner(), a2)),
                },
    {
        let (l1, lo1, kl) = choose|l1: A, lo1: Seq<SinkItem>, kl: Result<(), A::SinkError>|
            resent::<SinkItem, A>(before.left_inner(), before.left_owed(), l1, lo1, kl) && match kl {
                Err(e) => r == Err::<AsyncSink<SinkItem>, A::SinkError>(e) && after.left_is(l1, lo1)
                    && after.right_is(before.right_inner(), before.right_owed()),
                Ok(_) => Self::sends_after_left(before, item, after, r, l1, lo1),
            };
        let (r1, ro1, kr) = choose|r1: B, ro1: Seq<SinkItem>, kr: Result<(), A::SinkError>|
            resent::<SinkItem, B>(before.right_inner(), before.right_owed(), r1, ro1, kr)
                && match kr {
                Err(e) => r == Err::<AsyncSink<SinkItem>, A::SinkError>(e) && after.left_is(l1, lo1)
                    && after.right_is(r1, ro1),
                Ok(_) => if lo1.len() > 0 || ro1.len() > 0 {
                    r == Ok::<AsyncSink<SinkItem>, A::SinkError>(AsyncSink::NotReady(item))
                        && after.left_is(l1, lo1) && after.right_is(r1, ro1)
                } else {
                    Self::sends_to_both(item, after, r, l1, r1)
                },
            };
        let ans = choose|ans: StartSend<SinkItem, A::SinkError>|
            B::send_step(before.right_inner(), x, r1, ans) && settled(ans, ro1, kr);
        assert(B::send_step(before.right_inner(), x, r1, ans));
        if lo1.len() == 0 && ro1.len() == 0 {
            let (c, l2, lo2, sl) = choose|c: SinkItem, l2: A, lo2: Seq<SinkItem>, sl: Result<(), A::SinkError>|
                cloned(item, c) && sent_once::<SinkItem, A>(l1, c, l2, lo2, sl) && after.left_is(l2, lo2)
                    && match sl {
                    Err(e) => r == Err::<AsyncSink<SinkItem>, A::SinkError>(e) && after.right_is(
                        r1,
                        Seq::empty(),
                    ),
                    Ok(_) => exists|sr: Result<(), A::SinkError>|
                        #![trigger sent_once::<SinkItem, B>(r1, item, after.right_inner(), after.right_owed(), sr)]
                        sent_once::<SinkItem, B>(r1, item, after.right_inner(), after.right_owed(), sr)
                            && r == match sr {
                            Err(e) => Err::<AsyncSink<SinkItem>, A::SinkError>(e),
                            Ok(_) => Ok::<AsyncSink<SinkItem>, A::SinkError>(AsyncSink::Ready),
                        },
                };
            let sr = choose|sr: Result<(), A::SinkError>|
                sent_once::<SinkItem, B>(r1, item, after.right_inner(), after.right_owed(), sr)
                    && r == match sr {
                    Err(e) => Err::<AsyncSink<SinkItem>, A::SinkError>(e),
                    Ok(_) => Ok::<AsyncSink<SinkItem>, A::SinkError>(AsyncSink::Ready),
                };
            let a2 = choose|a2: StartSend<SinkItem, A::SinkError>|
                B::send_step(r1, item, after.right_inner(), a2) && settled(a2, after.right_owed(), sr);
            assert(B::send_step(r1, item, after.right_inner(), a2));
        }
    }

    /// A flush of a fanout whose left sink owes `x` first sends `x`, once,
    /// to the left sink. If that send fails, the fanout answers its error and
    /// the right side is left alone. Otherwise the left sink is flushed next:
    /// a failed flush is the fanout's answer, and the fanout answers `Ready`
    /// only if the left sink took `x` and its flush answered `Ready`.
    pub proof fn lemma_flush_resends_left(before: Self, after: Self, r: Poll<(), A::SinkError>, x: SinkItem)
        requires
            Self::flush_step(before, after, r),
            before.left_owed() == seq![x],
        ensures
            exists|ans: StartSend<SinkItem, A::SinkError>, mid: A|
                #![trigger A::send_step(before.left_inner(), x, mid, ans)]
                A::send_step(before.left_inner(), x, mid, ans) && match ans {
                    Err(e) => r == Err::<Async<()>, A::SinkError>(e) && after.left_is(mid, Seq::empty())
                        && after.right_is(before.right_inner(), before.right_owed()),
                    Ok(a) => exists|f: Poll<(), A::SinkError>|
                        #![trigger A::flush_step(mid, after.left_inner(), f)]
                        A::flush_step(mid, after.left_inner(), f) && (f is Err ==> r == f) && ((r matches Ok(
                            Async::Ready(_),
                        )) ==> a is Ready && f == r),
                },
    {
        let (rl, rr) = Self::flush_answers(before, after, r);
        let (ans, mid, f) = side_flush_parts::<SinkItem, A>(
            before.left_inner(),
            x,
            after.left_inner(),
            after.left_owed(),
            rl,
        );
        assert(A::send_step(before.left_inner(), x, mid, ans));
        if ans is Ok {
            assert(A::flush_step(mid, after.left_inner(), f));
            match f {
                Ok(Async::Ready(u)) => {
                    assert(u == ());
                },
                _ => {},
            }
        }
    }

    /// A flush of a fanout whose right sink owes `x`, when the fanout answers
    /// without an error, sends `x` once to the right sink, which does not
    /// fail, and then flushes it, which does not fail either; the fanout
    /// answers `Ready` only if the right sink took `x` and its flush answered
    /// `Ready`.
    pub proof fn lemma_flush_resends_right(before: Self, after: Self, r: Poll<(), A::SinkError>, x: SinkItem)
        requires
            Self::flush_step(before, after, r),
            before.right_owed() == seq![x],
            r is Ok,
        ensures
            exists|ans: StartSend<SinkItem, A::SinkError>, mid: B|
                #![trigger B::send_step(before.right_inner(), x, mid, ans)]
                B::send_step(before.right_inner(), x, mid, ans) && match ans {
                    Err(_) => false,
                    Ok(a) => exists|f: Poll<(), A::SinkError>|
                        #![trigger B::flush_step(mid, after.right_inner(), f)]
                        B::flush_step(mid, after.right_inner(), f) && f is Ok && ((r matches Ok(
                            Async::Ready(_),
                        )) ==> a is Ready && f == r),
                },
    {
        let (rl, rr) = Self::flush_answers(before, after, r);
        let (ans, mid, f) = side_flush_parts::<SinkItem, B>(
            before.right_inner(),
            x,
            after.right_inner(),
            after.right_owed(),
            rr,
        );
        assert(B::send_step(before.right_inner(), x, mid, ans));
        if ans is Ok {
            assert(B::flush_step(mid, after.right_inner(), f));
            match f {
                Ok(Async::Ready(u)) => {
                    assert(u == ());
                },
                _ => {},
            }
        }
    }

    /// A fanout answers `Ready` to a flush only when neither side still owes
    /// an item and each sink's own flush answered `Ready`: a side that owed
    /// nothing had its sink flushed once, to `Ready`.
    pub proof fn lemma_flush_ready(before: Self, after: Self, r: Poll<(), A::SinkError>)
        requires
            Self::flush_step(before, after, r),
            r == Ok::<Async<()>, A::SinkError>(Async::Ready(())),
        ensures
            after.left_owed().len() == 0,
            after.right_owed().len() == 0,
            before.left_owed().len() == 0 ==> A::flush_step(before.left_inner(), after.left_inner(), r),
            before.right_owed().len() == 0 ==> B::flush_step(before.right_inner(), after.right_inner(), r),
    {
        let (rl, rr) = Self::flush_answers(before, after, r);
        if before.left_owed().len() == 0 {
            assert(before.left_owed() == Seq::<SinkItem>::empty());
            side_flush_plain::<SinkItem, A>(before.left_inner(), after.left_inner(), after.left_owed(), rl);
        } else {
            let (ans, mid, f) = side_flush_parts::<SinkItem, A>(
                before.left_inner(),
                before.left_owed()[0],
                after.left_inner(),
                after.left_owed(),
                rl,
            );
        }
        if before.right_owed().len() == 0 {
            assert(before.right_owed() == Seq::<SinkItem>::empty());
            side_flush_plain::<SinkItem, B>(before.right_inner(), after.right_inner(), after.right_owed(), rr);
        } else {
            let (ans, mid, f) = side_flush_parts::<SinkItem, B>(
                before.right_inner(),
                before.right_owed()[0],
                after.right_inner(),
                after.right_owed(),
                rr,
            );
        }
    }

    /// The answers of the two sides within a flush of both; the right one
    /// only counts when the left one is not an error.
    proof fn flush_answers(before: Self, after: Self, r: Poll<(), A::SinkError>) -> (w: (
        Poll<(), A::SinkError>,
        Poll<(), A::SinkError>,
    ))
        requires
            Self::both_flushed(before, after, r),
        ensures
            side_flushed::<SinkItem, A>(before.left_inner(), before.left_owed(), after.left_inner(), after.left_owed(), w.0),
            w.0 is Err ==> r == w.0 && after.right_is(before.right_inner(), before.right_owed()),
            w.0 is Ok ==> side_flushed::<SinkItem, B>(before.right_inner(), before.right_owed(), after.right_inner(), after.right_owed(), w.1)
                && r == match w.1 {
                Err(e) => Err::<Async<()>, A::SinkError>(e),
                Ok(ar) => Ok::<Async<()>, A::SinkError>(joined(w.0->Ok_0, ar)),
            },
    {
        let rl = choose|rl: Poll<(), A::SinkError>|
            side_flushed::<SinkItem, A>(
                before.left_inner(),
                before.left_owed(),
                after.left_inner(),
                after.left_owed(),
                rl,
            ) && match rl {
                Err(e) => r == Err::<Async<()>, A::SinkError>(e) && after.right_is(
                    before.right_inner(),
                    before.right_owed(),
                ),
                Ok(al) => exists|rr: Poll<(), A::SinkError>|
                    #![trigger side_flushed::<SinkItem, B>(before.right_inner(), before.right_owed(), after.right_inner(), after.right_owed(), rr)]
                    side_flushed::<SinkItem, B>(
                        before.right_inner(),
                        before.right_owed(),
                        after.right_inner(),
                        after.right_owed(),
                        rr,
                    ) && r == match rr {
                        Err(e) => Err::<Async<()>, A::SinkError>(e),
                        Ok(ar) => Ok::<Async<()>, A::SinkError>(joined(al, ar)),
                    },
            };
        let mut rr = rl;
        if let Ok(al) = rl {
            rr = choose|rr: Poll<(), A::SinkError>|
                side_flushed::<SinkItem, B>(
                    before.right_inner(),
                    before.right_owed(),
                    after.right_inner(),
                    after.right_owed(),
                    rr,
                ) && r == match rr {
                    Err(e) => Err::<Async<()>, A::SinkError>(e),
                    Ok(ar) => Ok::<Async<()>, A::SinkError>(joined(al, ar)),
                };
        }
        (rl, rr)
    }

    /// A close of a fanout whose left sink owes `x` first sends `x`, once,
    /// to the left sink. If that send fails, the fanout answers its error and
    /// the right side is left alone; if the sink hands `x` back, it stays
    /// owed, the left sink is not closed and the fanout is not ready; if the
    /// sink takes `x`, the left sink is closed next: a failed close is the
    /// fanout's answer, and the fanout answers `Ready` only if that close did.
    pub proof fn lemma_close_resends_left(before: Self, after: Self, r: Poll<(), A::SinkError>, x: SinkItem)
        requires
            Self::close_step(before, after, r),
            before.left_owed() == seq![x],
        ensures
            exists|ans: StartSend<SinkItem, A::SinkError>, mid: A|
                #![trigger A::send_step(before.left_inner(), x, mid, ans)]
                A::send_step(before.left_inner(), x, mid, ans) && match ans {
                    Err(e) => r == Err::<Async<()>, A::SinkError>(e) && after.left_is(mid, Seq::empty())
                        && after.right_is(before.right_inner(), before.right_owed()),
                    Ok(AsyncSink::NotReady(back)) => after.left_is(mid, seq![back]) && (r is Ok ==> r
                        == Ok::<Async<()>, A::SinkError>(Async::NotReady)),
                    Ok(AsyncSink::Ready) => after.left_owed().len() == 0 && exists|
                        c: Poll<(), A::SinkError>,
                    |
                        #![trigger A::close_step(mid, after.left_inner(), c)]
                        A::close_step(mid, after.left_inner(), c) && (c is Err ==> r == c) && ((r matches Ok(
                            Async::Ready(_),
                        )) ==> c == r),
                },
    {
        let (rl, rr) = Self::close_answers(before, after, r);
        let (ans, mid) = side_close_parts::<SinkItem, A>(
            before.left_inner(),
            x,
            after.left_inner(),
            after.left_owed(),
            rl,
        );
        assert(A::send_step(before.left_inner(), x, mid, ans));
        if ans matches Ok(AsyncSink::Ready) {
            assert(A::close_step(mid, after.left_inner(), rl));
            match rl {
                Ok(Async::Ready(u)) => {
                    assert(u == ());
                },
                _ => {},
            }
        }
    }

    /// A close of a fanout whose right sink owes `x`, when the fanout answers
    /// without an error, sends `x` once to the right sink, which does not
    /// fail. If the sink hands `x` back, it stays owed and the fanout is not
    /// ready; if it takes `x`, the right sink is closed next, without an
    /// error, and the fanout answers `Ready` only if that close did.
    pub proof fn lemma_close_resends_right(before: Self, after: Self, r: Poll<(), A::SinkError>, x: SinkItem)
        requires
            Self::close_step(before, after, r),
            before.right_owed() == seq![x],
            r is Ok,
        ensures
            exists|ans: StartSend<SinkItem, A::SinkError>, mid: B|
                #![trigger B::send_step(before.right_inner(), x, mid, ans)]
                B::send_step(before.right_inner(), x, mid, ans) && match ans {
                    Err(_) => false,
                    Ok(AsyncSink::NotReady(back)) => after.right_is(mid, seq![back]) && r == Ok::<
                        Async<()>,
                        A::SinkError,
                    >(Async::NotReady),
                    Ok(AsyncSink::Ready) => after.right_owed().len() == 0 && exists|
                        c: Poll<(), A::SinkError>,
                    |
                        #![trigger B::close_step(mid, after.right_inner(), c)]
                        B::close_step(mid, after.right_inner(), c) && c is Ok && ((r matches Ok(
                            Async::Ready(_),
                        )) ==> c == r),
                },
    {
        let (rl, rr) = Self::close_answers(before, after, r);
        let (ans, mid) = side_close_parts::<SinkItem, B>(
            before.right_inner(),
            x,
            after.right_inner(),
            after.right_owed(),
            rr,
        );
        assert(B::send_step(before.right_inner(), x, mid, ans));
        if ans matches Ok(AsyncSink::Ready) {
            assert(B::close_step(mid, after.right_inner(), rr));
            match rr {
                Ok(Async::Ready(u)) => {
                    assert(u == ());
                },
                _ => {},
            }
        }
    }

    /// A fanout answers `Ready` to a close only when neither side still owes
    /// an item and each sink's own close answered `Ready`: a side that owed
    /// nothing had its sink closed once, to `Ready`.
    pub proof fn lemma_close_ready(before: Self, after: Self, r: Poll<(), A::SinkError>)
        requires
            Self::close_step(before, after, r),
            r == Ok::<Async<()>, A::SinkError>(Async::Ready(())),
        ensures
            after.left_owed().len() == 0,
            after.right_owed().len() == 0,
            before.left_owed().len() == 0 ==> A::close_step(before.left_inner(), after.left_inner(), r),
            before.right_owed().len() == 0 ==> B::close_step(before.right_inner(), after.right_inner(), r),
    {
        let (rl, rr) = Self::close_answers(before, after, r);
        if before.left_owed().len() == 0 {
            assert(before.left_owed() == Seq::<SinkItem>::empty());
            side_close_plain::<SinkItem, A>(before.left_inner(), after.left_inner(), after.left_owed(), rl);
        } else {
            let (ans, mid) = side_close_parts::<SinkItem, A>(
                before.left_inner(),
                before.left_owed()[0],
                after.left_inner(),
                after.left_owed(),
                rl,
            );
        }
        if before.right_owed().len() == 0 {
            assert(before.right_owed() == Seq::<SinkItem>::empty());
            side_close_plain::<SinkItem, B>(before.right_inner(), after.right_inner(), after.right_owed(), rr);
        } else {
            let (ans, mid) = side_close_parts::<SinkItem, B>(
                before.right_inner(),
                before.right_owed()[0],
                after.right_inner(),
                after.right_owed(),
                rr,
            );
        }
        match rl {
            Ok(Async::Ready(u)) => {
                assert(u == ());
            },
            _ => {},
        }
        match rr {
            Ok(Async::Ready(u)) => {
                assert(u == ());
            },
            _ => {},
        }
    }

    /// The answers of the two sides within a close of both; the right one
    /// only counts when the left one is not an error.
    proof fn close_answers(before: Self, after: Self, r: Poll<(), A::SinkError>) -> (w: (
        Poll<(), A::SinkError>,
        Poll<(), A::SinkError>,
    ))
        requires
            Self::both_closed(before, after, r),
        ensures
            side_closed::<SinkItem, A>(before.left_inner(), before.left_owed(), after.left_inner(), after.left_owed(), w.0),
            w.0 is Err ==> r == w.0 && after.right_is(before.right_inner(), before.right_owed()),
            w.0 is Ok ==> side_closed::<SinkItem, B>(before.right_inner(), before.right_owed(), after.right_inner(), after.right_owed(), w.1)
                && r == match w.1 {
                Err(e) => Err::<Async<()>, A::SinkError>(e),
                Ok(ar) => Ok::<Async<()>, A::SinkError>(joined(w.0->Ok_0, ar)),
            },
    {
        let rl = choose|rl: Poll<(), A::SinkError>|
            side_closed::<SinkItem, A>(
                before.left_inner(),
                before.left_owed(),
                after.left_inner(),
                after.left_owed(),
                rl,
            ) && match rl {
                Err(e) => r == Err::<Async<()>, A::SinkError>(e) && after.right_is(
                    before.right_inner(),
                    before.right_owed(),
                ),
                Ok(al) => exists|rr: Poll<(), A::SinkError>|
                    #![trigger side_closed::<SinkItem, B>(before.right_inner(), before.right_owed(), after.right_inner(), after.right_owed(), rr)]
                    side_closed::<SinkItem, B>(
                        before.right_inner(),
                        before.right_owed(),
                        after.right_inner(),
                        after.right_owed(),
                        rr,
                    ) && r == match rr {
                        Err(e) => Err::<Async<()>, A::SinkError>(e),
                        Ok(ar) => Ok::<Async<()>, A::SinkError>(joined(al, ar)),
                    },
            };
        let mut rr = rl;
        if let Ok(al) = rl {
            rr = choose|rr: Poll<(), A::SinkError>|
                side_closed::<SinkItem, B>(
                    before.right_inner(),
                    before.right_owed(),
                    after.right_inner(),
                    after.right_owed(),
                    rr,
                ) && r == match rr {
                    Err(e) => Err::<Async<()>, A::SinkError>(e),
                    Ok(ar) => Ok::<Async<()>, A::SinkError>(joined(al, ar)),
                };
        }
        (rl, rr)
    }

    /// Sending an item to a fanout that owes nothing to either sink sends a
    /// clone of it to the left sink, then, unless that send failed, the item
    /// itself to the right sink, once each. A failed send is the fanout's
    /// answer, with the right side left alone after a left failure;
    /// otherwise the fanout answers `Ready`, and a sink that handed its item
    /// back owes it.
    pub proof fn lemma_send_reaches_both(
        before: Self,
        item: SinkItem,
        after: Self,
        r: StartSend<SinkItem, A::SinkError>,
    )
        requires
            Self::send_step(before, item, after, r),
            before.left_owed().len() == 0,
            before.right_owed().len() == 0,
        ensures
            exists|c: SinkItem, al: StartSend<SinkItem, A::SinkError>|
                #![trigger A::send_step(before.left_inner(), c, after.left_inner(), al)]
                cloned(item, c) && A::send_step(before.left_inner(), c, after.left_inner(), al) && match al {
                    Err(e) => r == Err::<AsyncSink<SinkItem>, A::SinkError>(e) && after.left_owed().len()
                        == 0 && after.right_is(before.right_inner(), before.right_owed()),
                    Ok(a) => (a matches AsyncSink::NotReady(back) ==> after.left_owed() == seq![back])
                        && (a is Ready ==> after.left_owed().len() == 0) && exists|
                        ar: StartSend<SinkItem, A::SinkError>,
                    |
                        #![trigger B::send_step(before.right_inner(), item, after.right_inner(), ar)]
                        B::send_step(before.right_inner(), item, after.right_inner(), ar) && match ar {
                            Err(e) => r == Err::<AsyncSink<SinkItem>, A::SinkError>(e)
                                && after.right_owed().len() == 0,
                            Ok(b) => r == Ok::<AsyncSink<SinkItem>, A::SinkError>(AsyncSink::Ready)
                                && (b matches AsyncSink::NotReady(back) ==> after.right_owed()
                                == seq![back]) && (b is Ready ==> after.right_owed().len() == 0),
                        },
                },
    {
        let (l1, lo1, kl) = choose|l1: A, lo1: Seq<SinkItem>, kl: Result<(), A::SinkError>|
            resent::<SinkItem, A>(before.left_inner(), before.left_owed(), l1, lo1, kl) && match kl {
                Err(e) => r == Err::<AsyncSink<SinkItem>, A::SinkError>(e) && after.left_is(l1, lo1)
                    && after.right_is(before.right_inner(), before.right_owed()),
                Ok(_) => Self::sends_after_left(before, item, after, r, l1, lo1),
            };
        let (r1, ro1, kr) = choose|r1: B, ro1: Seq<SinkItem>, kr: Result<(), A::SinkError>|
            resent::<SinkItem, B>(before.right_inner(), before.right_owed(), r1, ro1, kr)
                && match kr {
                Err(e) => r == Err::<AsyncSink<SinkItem>, A::SinkError>(e) && after.left_is(l1, lo1)
                    && after.right_is(r1, ro1),
                Ok(_) => if lo1.len() > 0 || ro1.len() > 0 {
                    r == Ok::<AsyncSink<SinkItem>, A::SinkError>(AsyncSink::NotReady(item))
                        && after.left_is(l1, lo1) && after.right_is(r1, ro1)
                } else {
                    Self::sends_to_both(item, after, r, l1, r1)
                },
            };
        let (c, l2, lo2, sl) = choose|c: SinkItem, l2: A, lo2: Seq<SinkItem>, sl: Result<(), A::SinkError>|
            cloned(item, c) && sent_once::<SinkItem, A>(l1, c, l2, lo2, sl) && after.left_is(l2, lo2)
                && match sl {
                Err(e) => r == Err::<AsyncSink<SinkItem>, A::SinkError>(e) && after.right_is(
                    r1,
                    Seq::empty(),
                ),
                Ok(_) => exists|sr: Result<(), A::SinkError>|
                    #![trigger sent_once::<SinkItem, B>(r1, item, after.right_inner(), after.right_owed(), sr)]
                    sent_once::<SinkItem, B>(r1, item, after.right_inner(), after.right_owed(), sr)
                        && r == match sr {
                        Err(e) => Err::<AsyncSink<SinkItem>, A::SinkError>(e),
                        Ok(_) => Ok::<AsyncSink<SinkItem>, A::SinkError>(AsyncSink::Ready),
                    },
            };
        let al = choose|al: StartSend<SinkItem, A::SinkError>| A::send_step(l1, c, l2, al) && settled(al, lo2, sl);
        assert(A::send_step(before.left_inner(), c, after.left_inner(), al));
        if sl is Ok {
            let sr = choose|sr: Result<(), A::SinkError>|
                sent_once::<SinkItem, B>(r1, item, after.right_inner(), after.right_owed(), sr)
                    && r == match sr {
                    Err(e) => Err::<AsyncSink<SinkItem>, A::SinkError>(e),
                    Ok(_) => Ok::<AsyncSink<SinkItem>, A::SinkError>(AsyncSink::Ready),
                };
            let ar = choose|ar: StartSend<SinkItem, A::SinkError>|
                B::send_step(r1, item, after.right_inner(), ar) && settled(ar, after.right_owed(), sr);
            assert(B::send_step(before.right_inner(), item, after.right_inner(), ar));
        }
    }
}

/// One downstream sink of a fanout, with the item it refused, if any.
struct Downstream<S, SinkItem> where S: Sink<SinkItem> {
    sink: S,
    state: AsyncSink<SinkItem>,
}

impl<S, SinkItem> Downstream<S, SinkItem> where S: Sink<SinkItem> {
    spec fn owed(&self) -> Seq<SinkItem> {
        owed(self.state)
    }

    /// What the sink has taken, followed by the item still owed to it.
    spec fn log(&self) -> Seq<SinkItem> {
        self.sink.received() + self.owed()
    }

    fn new(sink: S) -> (d: Self)
        ensures
            d.sink == sink,
            d.owed() == Seq::<SinkItem>::empty(),
    {
        Downstream { sink: sink, state: AsyncSink::Ready }
    }

    fn is_ready(&self) -> (b: bool)
        ensures
            b == (self.owed().len() == 0),
    {
        self.state.is_ready()
    }

    /// Hands `item` to the sink and keeps the answer: the item is owed if
    /// refused, and dropped if the sink fails.
    fn send(&mut self, item: SinkItem) -> (r: Result<(), S::SinkError>)
        requires
            old(self).owed().len() == 0,
        ensures
            sent_once(old(self).sink, item, final(self).sink, final(self).owed(), r),
            r is Ok ==> final(self).log() == old(self).log().push(item),
            r is Err ==> final(self).owed().len() == 0,
    {
        let ghost sink0 = self.sink;
        let answer = self.sink.start_send(item);
        let ghost answer0 = answer;
        let r = self.settle(answer);
        assert(S::send_step(sink0, item, self.sink, answer0));
        assert(settled(answer0, self.owed(), r));
        r
    }

    /// Keeps the sink's answer to a send: `NotReady` makes its item owed,
    /// `Ready` or an error leave nothing owed, and the error is passed on.
    fn settle(&mut self, answer: StartSend<SinkItem, S::SinkError>) -> (r: Result<(), S::SinkError>)
        ensures
            final(self).sink == old(self).sink,
            match answer {
                Ok(AsyncSink::Ready) => r is Ok && final(self).owed().len() == 0,
                Ok(AsyncSink::NotReady(back)) => r is Ok && final(self).owed() == seq![back],
                Err(e) => r == Err::<(), S::SinkError>(e) && final(self).owed().len() == 0,
            },
    {
        match answer {
            Err(e) => {
                self.state = AsyncSink::Ready;
                Err(e)
            },
            Ok(state) => {
                self.state = state;
                Ok(())
            },
        }
    }

    /// Resends the owed item, if any.
    fn keep_flushing(&mut self) -> (r: Result<(), S::SinkError>)
        ensures
            resent(old(self).sink, old(self).owed(), final(self).sink, final(self).owed(), r),
            r is Ok ==> final(self).log() == old(self).log(),
            r is Err ==> final(self).owed().len() == 0,
    {
        let mut state = AsyncSink::Ready;
        std::mem::swap(&mut state, &mut self.state);
        if let AsyncSink::NotReady(item) = state {
            return self.send(item);
        }
        Ok(())
    }

    /// Resends the owed item and flushes the sink: `Ready` only if nothing is
    /// owed and the sink is flushed.
    fn poll_complete(&mut self) -> (r: Poll<(), S::SinkError>)
        ensures
            side_flushed(old(self).sink, old(self).owed(), final(self).sink, final(self).owed(), r),
            r is Ok ==> final(self).log() == old(self).log(),
            (r matches Ok(Async::Ready(_))) ==> final(self).owed().len() == 0,
    {
        let k = self.keep_flushing();
        let ghost mid = self.sink;
        let ghost k0 = k;
        if let Err(e) = k {
            let r = Err(e);
            assert(side_flushed(old(self).sink, old(self).owed(), self.sink, self.owed(), r));
            return r;
        }
        let f = self.sink.poll_complete();
        let ghost f0 = f;
        // Only if all values have been sent _and_ the underlying
        // sink is completely flushed, signal readiness.
        let r = match f {
            Err(e) => Err(e),
            Ok(ready) => {
                let sent = if self.state.is_ready() {
                    Async::Ready(())
                } else {
                    Async::NotReady
                };
                Ok(join(sent, ready))
            },
        };
        assert(S::flush_step(mid, self.sink, f0));
        assert(flushed_once(mid, self.owed(), self.sink, r));
        assert(resent(old(self).sink, old(self).owed(), mid, self.owed(), k0));
        assert(side_flushed(old(self).sink, old(self).owed(), self.sink, self.owed(), r));
        r
    }

    /// Resends the owed item and, once nothing is owed, closes the sink.
    fn close(&mut self) -> (r: Poll<(), S::SinkError>)
        ensures
            side_closed(old(self).sink, old(self).owed(), final(self).sink, final(self).owed(), r),
            r is Ok ==> final(self).log() == old(self).log(),
            (r matches Ok(Async::Ready(_))) ==> final(self).owed().len() == 0,
            // while an item is still owed, the answer is `NotReady`
            final(self).owed().len() > 0 ==> (r matches Ok(Async::NotReady)),
            r is Err ==> final(self).owed().len() == 0,
    {
        let k = self.keep_flushing();
        let ghost mid = self.sink;
        let ghost k0 = k;
        if let Err(e) = k {
            let r = Err(e);
            assert(side_closed(old(self).sink, old(self).owed(), self.sink, self.owed(), r));
            return r;
        }
        // If all items have been flushed, initiate close.
        if self.state.is_ready() {
            let r = self.sink.close();
            assert(S::close_step(mid, self.sink, r));
            assert(side_closed(old(self).sink, old(self).owed(), self.sink, self.owed(), r));
            r
        } else {
            let r = Ok(Async::NotReady);
            assert(side_closed(old(self).sink, old(self).owed(), self.sink, self.owed(), r));
            r
        }
    }
}

} // verus!
