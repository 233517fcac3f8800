//! Waiting for the first of two futures to complete.
use crate::future::Future;
use crate::poll::{Async, Poll};
use crate::task::Task;
use vstd::prelude::*;

verus! {

/// Future for the `select` combinator, waiting for one of two futures to
/// complete.
///
/// This is created by [`new`].
pub struct Select<A, B> where A: Future, B: Future<Item = A::Item, Error = A::Error> {
    inner: Option<(A, B)>,
}

/// Future yielded as the second result in a `Select` future.
///
/// This sentinel future represents the completion of the second future to a
/// `select` which finished second.
pub struct SelectNext<A, B> where A: Future, B: Future<Item = A::Item, Error = A::Error> {
    inner: OneOf<A, B>,
}

enum OneOf<A, B> where A: Future, B: Future {
    A(A),
    B(B),
}

/// Waits for the first of `a` and `b` to complete; `a` is polled first.
pub fn new<A, B>(a: A, b: B) -> (s: Select<A, B>) where
    A: Future,
    B: Future<Item = A::Item, Error = A::Error>,

    ensures
        s.futures() == Some((a, b)),
{
    Select { inner: Some((a, b)) }
}

impl<A, B> Select<A, B> where A: Future, B: Future<Item = A::Item, Error = A::Error> {
    /// The two futures raced, until one of them has completed.
    pub closed spec fn futures(&self) -> Option<(A, B)> {
        self.inner
    }

    /// `after` has given up its futures and `r` carries `outcome`, the
    /// completion of one of them, together with `next`, which satisfies `rest`.
    pub open spec fn completes_with(
        after: Self,
        r: Poll<(A::Item, SelectNext<A, B>), (A::Error, SelectNext<A, B>)>,
        outcome: Poll<A::Item, A::Error>,
        rest: spec_fn(SelectNext<A, B>) -> bool,
    ) -> bool {
        &&& after.futures() is None
        &&& match r {
            Ok(Async::Ready((item, next))) => outcome == Ok::<Async<A::Item>, A::Error>(
                Async::Ready(item),
            ) && rest(next),
            Err((e, next)) => outcome == Err::<Async<A::Item>, A::Error>(e) && rest(next),
            Ok(Async::NotReady) => false,
        }
    }

    /// One poll of a select over `a` and `b`, with the task going from `task0`
    /// to `task1`: `a` is polled; if it completes, that is the result and `b`
    /// is handed on untouched; if not, `b` is polled, with the task as `a`'s
    /// poll left it; if `b` completes, that is the result and `a` is handed
    /// on; if neither does, both are kept, in order.
    pub open spec fn race_step(a: A, b: B, task0: Task, after: Self, task1: Task, r: Poll<
        (A::Item, SelectNext<A, B>),
        (A::Error, SelectNext<A, B>),
    >) -> bool {
        ||| exists|a1: A, ra: Poll<A::Item, A::Error>|
            #![trigger A::poll_step(a, task0, a1, task1, ra)]
            A::poll_step(a, task0, a1, task1, ra) && !(ra matches Ok(Async::NotReady))
                && Self::completes_with(
                after,
                r,
                ra,
                |next: SelectNext<A, B>| !next.waits_on_a() && next.future_b() == b,
            )
        ||| exists|a1: A, t1: Task, b1: B, rb: Poll<A::Item, A::Error>|
            #![trigger A::poll_step(a, task0, a1, t1, Ok(Async::NotReady)), B::poll_step(b, t1, b1, task1, rb)]
            A::poll_step(a, task0, a1, t1, Ok(Async::NotReady)) && !a1.is_done() && B::poll_step(
                b,
                t1,
                b1,
                task1,
                rb,
            ) && if rb matches Ok(Async::NotReady) {
                r matches Ok(Async::NotReady) && after.futures() == Some((a1, b1))
            } else {
                Self::completes_with(
                    after,
                    r,
                    rb,
                    |next: SelectNext<A, B>| next.waits_on_a() && next.future_a() == a1,
                )
            }
    }

    /// One schedule of a select over `a` and `b`, with the task going from
    /// `task0` to `task1`: `a` is scheduled, then `b`, with the task as `a`'s
    /// schedule left it, and both are kept, in order; the task is touched
    /// by nothing else.
    pub open spec fn schedules_both(a: A, b: B, task0: Task, after: Self, task1: Task) -> bool {
        exists|a1: A, t1: Task, b1: B|
            #![trigger A::schedule_step(a, task0, a1, t1), B::schedule_step(b, t1, b1, task1)]
            A::schedule_step(a, task0, a1, t1) && B::schedule_step(b, t1, b1, task1)
                && after.futures() == Some((a1, b1))
    }

    /// Polling a select while both futures are pending polls the first
    /// future. If it completes, its value or error is the answer, together
    /// with the second future, untouched and unpolled. If not, the second
    /// future is polled, with the task as the first poll left it: if it
    /// completes, its value or error is the answer, together with the first
    /// future as its poll left it; if not, both are kept, in order, and the
    /// select is not ready.
    pub proof fn lemma_poll_first_then_second(
        before: Self,
        task0: Task,
        after: Self,
        task1: Task,
        r: Poll<(A::Item, SelectNext<A, B>), (A::Error, SelectNext<A, B>)>,
        a: A,
        b: B,
    )
        requires
            <Self as Future>::poll_step(before, task0, after, task1, r),
            before.futures() == Some((a, b)),
        ensures
            exists|a1: A, t1: Task, ra: Poll<A::Item, A::Error>|
                #![trigger A::poll_step(a, task0, a1, t1, ra)]
                A::poll_step(a, task0, a1, t1, ra) && if ra matches Ok(Async::NotReady) {
                    exists|b1: B, rb: Poll<A::Item, A::Error>|
                        #![trigger B::poll_step(b, t1, b1, task1, rb)]
                        B::poll_step(b, t1, b1, task1, rb) && if rb matches Ok(Async::NotReady) {
                            (r matches Ok(Async::NotReady)) && after.futures() == Some((a1, b1))
                        } else {
                            after.futures() is None && match r {
                                Ok(Async::Ready((item, next))) => rb == Ok::<Async<A::Item>, A::Error>(
                                    Async::Ready(item),
                                ) && next.waits_on_a() && next.future_a() == a1,
                                Err((e, next)) => rb == Err::<Async<A::Item>, A::Error>(e)
                                    && next.waits_on_a() && next.future_a() == a1,
                                Ok(Async::NotReady) => false,
                            }
                        }
                } else {
                    t1 == task1 && after.futures() is None && match r {
                        Ok(Async::Ready((item, next))) => ra == Ok::<Async<A::Item>, A::Error>(
                            Async::Ready(item),
                        ) && !next.waits_on_a() && next.future_b() == b,
                        Err((e, next)) => ra == Err::<Async<A::Item>, A::Error>(e) && !next.waits_on_a()
                            && next.future_b() == b,
                        Ok(Async::NotReady) => false,
                    }
                },
    {
        if exists|a1: A, ra: Poll<A::Item, A::Error>|
            #![trigger A::poll_step(a, task0, a1, task1, ra)]
            A::poll_step(a, task0, a1, task1, ra) && !(ra matches Ok(Async::NotReady))
                && Self::completes_with(
                after,
                r,
                ra,
                |next: SelectNext<A, B>| !next.waits_on_a() && next.future_b() == b,
            ) {
            let (a1, ra) = choose|a1: A, ra: Poll<A::Item, A::Error>|
                A::poll_step(a, task0, a1, task1, ra) && !(ra matches Ok(Async::NotReady))
                    && Self::completes_with(
                    after,
                    r,
                    ra,
                    |next: SelectNext<A, B>| !next.waits_on_a() && next.future_b() == b,
                );
            assert(A::poll_step(a, task0, a1, task1, ra));
        } else {
            let (a1, t1, b1, rb) = choose|a1: A, t1: Task, b1: B, rb: Poll<A::Item, A::Error>|
                A::poll_step(a, task0, a1, t1, Ok(Async::NotReady)) && !a1.is_done() && B::poll_step(
                    b,
                    t1,
                    b1,
                    task1,
                    rb,
                ) && if rb matches Ok(Async::NotReady) {
                    r matches Ok(Async::NotReady) && after.futures() == Some((a1, b1))
                } else {
                    Self::completes_with(
                        after,
                        r,
                        rb,
                        |next: SelectNext<A, B>| next.waits_on_a() && next.future_a() == a1,
                    )
                };
            assert(A::poll_step(a, task0, a1, t1, Ok(Async::NotReady)));
            assert(B::poll_step(b, t1, b1, task1, rb));
        }
    }

    /// Scheduling a select while both futures are pending schedules the
    /// first future, then the second with the task as the first left it, and
    /// keeps both, in order; nothing else touches the task. Once a future has
    /// completed and been handed out, scheduling notifies the task instead.
    pub proof fn lemma_schedule_reaches_both(before: Self, task0: Task, after: Self, task1: Task)
        requires
            <Self as Future>::schedule_step(before, task0, after, task1),
        ensures
            match before.futures() {
                None => after.futures() is None && task1.notified(),
                Some((a, b)) => exists|a1: A, t1: Task, b1: B|
                    #![trigger A::schedule_step(a, task0, a1, t1), B::schedule_step(b, t1, b1, task1)]
                    A::schedule_step(a, task0, a1, t1) && B::schedule_step(b, t1, b1, task1)
                        && after.futures() == Some((a1, b1)),
            },
    {
    }

    /// The result of a select once `ret` has come from `a` (when `a_won`) or
    /// from `b`: `ret`, with the other future handed on.
    pub fn finish(a: A, b: B, ret: Result<A::Item, A::Error>, a_won: bool) -> (r: Poll<
        (A::Item, SelectNext<A, B>),
        (A::Error, SelectNext<A, B>),
    >)
        ensures
            match r {
                Ok(Async::Ready((item, next))) => ret == Ok::<A::Item, A::Error>(item)
                    && next.waits_on_a() == !a_won
                    && (a_won ==> next.future_b() == b)
                    && (!a_won ==> next.future_a() == a),
                Ok(Async::NotReady) => false,
                Err((e, next)) => ret == Err::<A::Item, A::Error>(e)
                    && next.waits_on_a() == !a_won
                    && (a_won ==> next.future_b() == b)
                    && (!a_won ==> next.future_a() == a),
            },
    {
        let next = if a_won {
            OneOf::B(b)
        } else {
            OneOf::A(a)
        };
        let next = SelectNext { inner: next };
        match ret {
            Ok(item) => Ok(Async::Ready((item, next))),
            Err(e) => Err((e, next)),
        }
    }
}

impl<A, B> SelectNext<A, B> where A: Future, B: Future<Item = A::Item, Error = A::Error> {
    /// Polling the future left over by a select polls that future once, and
    /// only it, passing its answer on; it stays the one left over.
    pub proof fn lemma_poll_forwards(before: Self, task0: Task, after: Self, task1: Task, r: Poll<A::Item, A::Error>)
        requires
            <Self as Future>::poll_step(before, task0, after, task1, r),
        ensures
            after.waits_on_a() == before.waits_on_a(),
            before.waits_on_a() ==> A::poll_step(before.future_a(), task0, after.future_a(), task1, r),
            !before.waits_on_a() ==> B::poll_step(before.future_b(), task0, after.future_b(), task1, r),
    {
    }

    /// Scheduling the future left over by a select schedules that future
    /// once, and only it; it stays the one left over.
    pub proof fn lemma_schedule_forwards(before: Self, task0: Task, after: Self, task1: Task)
        requires
            <Self as Future>::schedule_step(before, task0, after, task1),
        ensures
            after.waits_on_a() == before.waits_on_a(),
            before.waits_on_a() ==> A::schedule_step(before.future_a(), task0, after.future_a(), task1),
            !before.waits_on_a() ==> B::schedule_step(before.future_b(), task0, after.future_b(), task1),
    {
    }

    /// Whether the future left over is the first one of the select.
    pub closed spec fn waits_on_a(&self) -> bool {
        self.inner is A
    }

    /// The future left over, when it is the first one of the select.
    pub closed spec fn future_a(&self) -> A
        recommends
            self.waits_on_a(),
    {
        match self.inner {
            OneOf::A(a) => a,
            OneOf::B(_) => arbitrary(),
        }
    }

    /// The future left over, when it is the second one of the select.
    pub closed spec fn future_b(&self) -> B
        recommends
            !self.waits_on_a(),
    {
        match self.inner {
            OneOf::A(_) => arbitrary(),
            OneOf::B(b) => b,
        }
    }
}

impl<A, B> Future for Select<A, B> where A: Future, B: Future<Item = A::Item, Error = A::Error> {
    type Item = (A::Item, SelectNext<A, B>);

    type Error = (A::Error, SelectNext<A, B>);

    /// Done once either future has completed.
    open spec fn is_done(&self) -> bool {
        match self.futures() {
            None => true,
            Some((a, b)) => a.is_done() || b.is_done(),
        }
    }

    /// A poll races the two futures; a completed select is not polled.
    open spec fn poll_step(
        before: Self,
        task0: Task,
        after: Self,
        task1: Task,
        r: Poll<Self::Item, Self::Error>,
    ) -> bool {
        match before.futures() {
            None => false,
            Some((a, b)) => Self::race_step(a, b, task0, after, task1, r),
        }
    }

    /// A schedule schedules `a`, then `b`, passing the task on, and keeps
    /// them; once a future has completed, it notifies the task instead.
    open spec fn schedule_step(before: Self, task0: Task, after: Self, task1: Task) -> bool {
        match before.futures() {
            None => after.futures() is None && task1.notified(),
            Some((a, b)) => Self::schedules_both(a, b, task0, after, task1),
        }
    }

    /// Polls `a`, then, if `a` is not ready, `b`. The first to complete gives
    /// the result, together with the other future.
    fn poll(&mut self, task: &mut Task) -> (r: Poll<Self::Item, Self::Error>) {
        let (mut a, mut b) = match self.inner.take() {
            Some(pair) => pair,
            None => vstd::pervasive::unreached(),
        };
        let ghost a0 = a;
        let ghost b0 = b;
        let ghost task0 = *task;
        let ra = a.poll(task);
        let ghost ra0 = ra;
        match ra {
            Ok(Async::NotReady) => {
                let rb = b.poll(task);
                let ghost rb0 = rb;
                match rb {
                    Ok(Async::NotReady) => {
                        self.inner = Some((a, b));
                        let r = Ok(Async::NotReady);
                        assert(Self::race_step(a0, b0, task0, *self, *task, r));
                        r
                    },
                    Ok(Async::Ready(item)) => {
                        let r = Self::finish(a, b, Ok(item), false);
                        assert(Self::completes_with(
                            *self,
                            r,
                            rb0,
                            |next: SelectNext<A, B>| next.waits_on_a() && next.future_a() == a,
                        ));
                        assert(Self::race_step(a0, b0, task0, *self, *task, r));
                        r
                    },
                    Err(e) => {
                        let r = Self::finish(a, b, Err(e), false);
                        assert(Self::completes_with(
                            *self,
                            r,
                            rb0,
                            |next: SelectNext<A, B>| next.waits_on_a() && next.future_a() == a,
                        ));
                        assert(Self::race_step(a0, b0, task0, *self, *task, r));
                        r
                    },
                }
            },
            Ok(Async::Ready(item)) => {
                let r = Self::finish(a, b, Ok(item), true);
                assert(Self::completes_with(
                    *self,
                    r,
                    ra0,
                    |next: SelectNext<A, B>| !next.waits_on_a() && next.future_b() == b0,
                ));
                assert(Self::race_step(a0, b0, task0, *self, *task, r));
                r
            },
            Err(e) => {
                let r = Self::finish(a, b, Err(e), true);
                assert(Self::completes_with(
                    *self,
                    r,
                    ra0,
                    |next: SelectNext<A, B>| !next.waits_on_a() && next.future_b() == b0,
                ));
                assert(Self::race_step(a0, b0, task0, *self, *task, r));
                r
            },
        }
    }

    /// Schedules both futures, or notifies `task` at once if one has completed.
    fn schedule(&mut self, task: &mut Task) {
        match self.inner.take() {
            Some((mut a, mut b)) => {
                let ghost a0 = a;
                let ghost b0 = b;
                let ghost task0 = *task;
                a.schedule(task);
                let ghost t1 = *task;
                b.schedule(task);
                self.inner = Some((a, b));
                assert(A::schedule_step(a0, task0, a, t1));
                assert(Self::schedules_both(a0, b0, task0, *self, *task));
            },
            None => task.notify(),
        }
    }
}

impl<A, B> Future for SelectNext<A, B> where A: Future, B: Future<Item = A::Item, Error = A::Error> {
    type Item = A::Item;

    type Error = A::Error;

    /// Done once the future left over has completed.
    open spec fn is_done(&self) -> bool {
        if self.waits_on_a() {
            self.future_a().is_done()
        } else {
            self.future_b().is_done()
        }
    }

    /// A poll of the future left over, whose answer is passed on.
    open spec fn poll_step(
        before: Self,
        task0: Task,
        after: Self,
        task1: Task,
        r: Poll<Self::Item, Self::Error>,
    ) -> bool {
        &&& after.waits_on_a() == before.waits_on_a()
        &&& if before.waits_on_a() {
            A::poll_step(before.future_a(), task0, after.future_a(), task1, r)
        } else {
            B::poll_step(before.future_b(), task0, after.future_b(), task1, r)
        }
    }

    /// A schedule of the future left over.
    open spec fn schedule_step(before: Self, task0: Task, after: Self, task1: Task) -> bool {
        &&& after.waits_on_a() == before.waits_on_a()
        &&& if before.waits_on_a() {
            A::schedule_step(before.future_a(), task0, after.future_a(), task1)
        } else {
            B::schedule_step(before.future_b(), task0, after.future_b(), task1)
        }
    }

    /// Polls the future left over.
    fn poll(&mut self, task: &mut Task) -> (r: Poll<Self::Item, Self::Error>) {
        match &mut self.inner {
            OneOf::A(a) => a.poll(task),
            OneOf::B(b) => b.poll(task),
        }
    }

    /// Schedules the future left over.
    fn schedule(&mut self, task: &mut Task) {
        match &mut self.inner {
            OneOf::A(a) => a.schedule(task),
            OneOf::B(b) => b.schedule(task),
        }
    }
}

} // verus!
