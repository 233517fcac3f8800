//! A stream built from a seed and a function that makes one future per item.
use crate::future::Future;
use crate::poll::{Async, Poll};
use crate::task::Task;
use vstd::prelude::*;

verus! {

/// Makes, from the current state, the future of the next item of an
/// [`Unfold`] stream, or `None` to end the stream. The future completes with
/// the item and the next state.
///
/// The model `apply_step(before, state, after, fut)` holds when a call on
/// `state` can leave the function as `after` and return `fut`. Outside
/// verified code, an implementation supplies it as a function that is never
/// called at run time.
pub trait UnfoldFn<State, It>: Sized {
    /// The future of one item and the next state.
    type Future: Future<Item = (It, State)>;

    /// A possible outcome of one call.
    spec fn apply_step(before: Self, state: State, after: Self, fut: Option<Self::Future>) -> bool;

    /// Makes the future of the next item, which has not completed yet, or
    /// ends the stream.
    fn apply(&mut self, state: State) -> (fut: Option<Self::Future>)
        ensures
            Self::apply_step(*old(self), state, *final(self), fut),
            fut matches Some(f) ==> !f.is_done(),
    ;
}

/// Creates a `Stream` from a seed and a closure returning a `Future`.
///
/// This function is the dual for the `Stream::fold()` adapter: while
/// `Stream::fold()` reduces a `Stream` to one single value, `unfold()` creates a
/// `Stream` from a seed value.
///
/// `unfold()` will call the provided closure with the provided seed, then wait
/// for the returned `Future` to complete with `(a, b)`. It will then yield the
/// value `a`, and use `b` as the next internal state.
///
/// If the closure returns `None` instead of `Some(Future)`, then the `unfold()`
/// will stop producing items and return `Ok(Async::Ready(None))` in future
/// calls to `poll()`.
///
/// In case of error generated by the returned `Future`, the error will be
/// returned by the `Stream`.  The `Stream` will then yield
/// `Ok(Async::Ready(None))` in future calls to `poll()`.
pub fn unfold<F, State, It>(init: State, f: F) -> (s: Unfold<F, State, It>) where
    F: UnfoldFn<State, It>,

    ensures
        s.seed() == Some(init),
        s.function() == f,
{
    Unfold { f: f, state: Slot { phase: Phase::Ready(init) } }
}

/// Where an [`Unfold`] stream stands.
enum Phase<State, Fut> {
    /// Holding the state from which the next future is made.
    Ready(State),
    /// Waiting for the future of the next item.
    Processing(Fut),
    /// Ended, after the function returned `None` or a future failed.
    Empty,
}

/// Where an [`Unfold`] stream stands, never holding a future that has
/// completed.
struct Slot<State, Fut> where Fut: Future {
    phase: Phase<State, Fut>,
}

impl<State, Fut> Slot<State, Fut> where Fut: Future {
    /// A future held is still pending.
    #[verifier::type_invariant]
    spec fn pending_not_done(&self) -> bool {
        self.phase matches Phase::Processing(fut) ==> !fut.is_done()
    }

    /// Takes out where the stream stood, leaving it ended.
    fn take(&mut self) -> (p: Phase<State, Fut>)
        ensures
            p == old(self).phase,
            final(self).phase is Empty,
            p matches Phase::Processing(fut) ==> !fut.is_done(),
    {
        proof {
            use_type_invariant(&*self);
        }
        let mut p = Phase::Empty;
        std::mem::swap(&mut p, &mut self.phase);
        p
    }

    /// Sets where the stream stands.
    fn set(&mut self, p: Phase<State, Fut>)
        requires
            p matches Phase::Processing(fut) ==> !fut.is_done(),
        ensures
            final(self).phase == p,
    {
        self.phase = p;
    }
}

/// A stream which creates futures, polls them and return their result
///
/// This stream is returned by the `unfold` function.
pub struct Unfold<F, State, It> where F: UnfoldFn<State, It> {
    f: F,
    state: Slot<State, F::Future>,
}

impl<F, State, It> Unfold<F, State, It> where F: UnfoldFn<State, It> {
    /// The state from which the next future will be made, if the stream holds one.
    pub closed spec fn seed(&self) -> Option<State> {
        match self.state.phase {
            Phase::Ready(s) => Some(s),
            _ => None,
        }
    }

    /// The future of the next item, once made and until it completes.
    pub closed spec fn pending(&self) -> Option<F::Future> {
        match self.state.phase {
            Phase::Processing(fut) => Some(fut),
            _ => None,
        }
    }

    /// Whether the stream has ended.
    pub closed spec fn ended(&self) -> bool {
        self.state.phase is Empty
    }

    /// The function that makes the futures.
    pub closed spec fn function(&self) -> F {
        self.f
    }

    /// What the stream answers, and where it then stands, when the future it
    /// polled answered `p`: the item, with the next state kept; `NotReady`,
    /// with `fut` (the future as left by the poll) kept; or the error, ended.
    pub open spec fn settles(
        after: Self,
        p: Poll<(It, State), <F::Future as Future>::Error>,
        fut: F::Future,
        r: Poll<Option<It>, <F::Future as Future>::Error>,
    ) -> bool {
        match p {
            Ok(Async::Ready((item, next))) => r == Ok::<
                Async<Option<It>>,
                <F::Future as Future>::Error,
            >(Async::Ready(Some(item))) && after.seed() == Some(next),
            Ok(Async::NotReady) => r == Ok::<Async<Option<It>>, <F::Future as Future>::Error>(
                Async::NotReady,
            ) && after.pending() == Some(fut),
            Err(e) => r == Err::<Async<Option<It>>, <F::Future as Future>::Error>(e)
                && after.ended(),
        }
    }

    /// `fut` was polled once, with the task going from `task0` to `task1`,
    /// and the stream, now with function `f`, settled on its answer.
    pub open spec fn polled(fut: F::Future, f: F, task0: Task, after: Self, task1: Task, r: Poll<
        Option<It>,
        <F::Future as Future>::Error,
    >) -> bool {
        &&& after.function() == f
        &&& exists|fut1: F::Future, p: Poll<(It, State), <F::Future as Future>::Error>|
            #![trigger <F::Future as Future>::poll_step(fut, task0, fut1, task1, p)]
            <F::Future as Future>::poll_step(fut, task0, fut1, task1, p) && Self::settles(
                after,
                p,
                fut1,
                r,
            )
    }

    /// The function `f`, called once on `state`, returned `made` and became
    /// `f1`; the stream ended if `made` is `None`, and otherwise polled it once.
    pub open spec fn made_from(
        f: F,
        state: State,
        f1: F,
        made: Option<F::Future>,
        task0: Task,
        after: Self,
        task1: Task,
        r: Poll<Option<It>, <F::Future as Future>::Error>,
    ) -> bool {
        &&& F::apply_step(f, state, f1, made)
        &&& match made {
            None => r == Ok::<Async<Option<It>>, <F::Future as Future>::Error>(Async::Ready(None))
                && after.ended() && after.function() == f1 && task1 == task0,
            Some(fut) => Self::polled(fut, f1, task0, after, task1, r),
        }
    }

    /// One call of the function `f` on `state`, then, if it made a future,
    /// one poll of that future, as `made_from` describes.
    pub open spec fn stepped(
        f: F,
        state: State,
        task0: Task,
        after: Self,
        task1: Task,
        r: Poll<Option<It>, <F::Future as Future>::Error>,
    ) -> bool {
        exists|f1: F, made: Option<F::Future>|
            #[trigger] Self::made_from(f, state, f1, made, task0, after, task1, r)
    }

    /// A poll of a stream holding a state calls the function once on that
    /// state. If it returns no future, the stream answers `Ready(None)` and
    /// ends, without touching the task. If it returns a future, that future
    /// is polled once: its item is the answer and its next state is kept;
    /// while it is pending, it is kept; its error is the answer and ends the
    /// stream.
    pub proof fn lemma_step_calls_then_polls(
        f: F,
        s: State,
        task0: Task,
        after: Self,
        task1: Task,
        r: Poll<Option<It>, <F::Future as Future>::Error>,
    )
        requires
            Self::stepped(f, s, task0, after, task1, r),
        ensures
            exists|f1: F, made: Option<F::Future>|
                #![trigger F::apply_step(f, s, f1, made)]
                F::apply_step(f, s, f1, made) && after.function() == f1 && match made {
                    None => r == Ok::<Async<Option<It>>, <F::Future as Future>::Error>(
                        Async::Ready(None),
                    ) && after.ended() && task1 == task0,
                    Some(fut) => exists|fut1: F::Future, p: Poll<(It, State), <F::Future as Future>::Error>|
                        #![trigger <F::Future as Future>::poll_step(fut, task0, fut1, task1, p)]
                        <F::Future as Future>::poll_step(fut, task0, fut1, task1, p) && match p {
                            Ok(Async::Ready((item, next))) => r == Ok::<
                                Async<Option<It>>,
                                <F::Future as Future>::Error,
                            >(Async::Ready(Some(item))) && after.seed() == Some(next),
                            Ok(Async::NotReady) => r == Ok::<
                                Async<Option<It>>,
                                <F::Future as Future>::Error,
                            >(Async::NotReady) && after.pending() == Some(fut1),
                            Err(e) => r == Err::<Async<Option<It>>, <F::Future as Future>::Error>(e)
                                && after.ended(),
                        },
                },
    {
        let (f1, made) = choose|f1: F, made: Option<F::Future>|
            #[trigger] Self::made_from(f, s, f1, made, task0, after, task1, r);
        assert(F::apply_step(f, s, f1, made));
    }

    /// A poll of a stream waiting on the future `fut` polls it once: its
    /// item is the answer and its next state is kept; while it is pending,
    /// it is kept as the poll left it; its error is the answer and ends the
    /// stream. The function is not called.
    pub proof fn lemma_pending_polls_once(
        fut: F::Future,
        f: F,
        task0: Task,
        after: Self,
        task1: Task,
        r: Poll<Option<It>, <F::Future as Future>::Error>,
    )
        requires
            Self::polled(fut, f, task0, after, task1, r),
        ensures
            after.function() == f,
            exists|fut1: F::Future, p: Poll<(It, State), <F::Future as Future>::Error>|
                #![trigger <F::Future as Future>::poll_step(fut, task0, fut1, task1, p)]
                <F::Future as Future>::poll_step(fut, task0, fut1, task1, p) && match p {
                    Ok(Async::Ready((item, next))) => r == Ok::<
                        Async<Option<It>>,
                        <F::Future as Future>::Error,
                    >(Async::Ready(Some(item))) && after.seed() == Some(next),
                    Ok(Async::NotReady) => r == Ok::<
                        Async<Option<It>>,
                        <F::Future as Future>::Error,
                    >(Async::NotReady) && after.pending() == Some(fut1),
                    Err(e) => r == Err::<Async<Option<It>>, <F::Future as Future>::Error>(e)
                        && after.ended(),
                },
    {
    }

    /// Polls for the next item. With a state in hand, calls the function once
    /// on it and polls the future it returns; with a future pending, polls
    /// that. `Ready(None)` once the function has returned `None` or a future
    /// has failed, and for ever after.
    pub fn poll_next(&mut self, task: &mut Task) -> (r: Poll<
        Option<It>,
        <F::Future as Future>::Error,
    >)
        ensures
            old(self).ended() ==> r == Ok::<Async<Option<It>>, <F::Future as Future>::Error>(
                Async::Ready(None),
            ) && final(self).ended() && final(self).function() == old(self).function()
                && *final(task) == *old(task),
            old(self).pending() matches Some(fut) ==> Self::polled(
                fut,
                old(self).function(),
                *old(task),
                *final(self),
                *final(task),
                r,
            ),
            old(self).seed() matches Some(s) ==> Self::stepped(
                old(self).function(),
                s,
                *old(task),
                *final(self),
                *final(task),
                r,
            ),
    {
        let ghost f0 = self.f;
        let ghost task0 = *task;
        let ghost mut made: Option<F::Future> = None;
        let ghost mut s0: State = arbitrary();
        let mut fut = match self.state.take() {
            Phase::Empty => {
                return Ok(Async::Ready(None));
            },
            Phase::Ready(state) => {
                proof {
                    s0 = state;
                }
                let m = self.f.apply(state);
                proof {
                    made = m;
                }
                match m {
                    Some(fut) => fut,
                    None => {
                        let r = Ok(Async::Ready(None));
                        assert(Self::made_from(f0, s0, self.f, made, task0, *self, *task, r));
                        assert(Self::stepped(f0, s0, task0, *self, *task, r));
                        return r;
                    },
                }
            },
            Phase::Processing(fut) => fut,
        };
        let ghost fut0 = fut;
        let p = fut.poll(task);
        let ghost p0 = p;
        let r = self.settle(fut, p);
        assert(Self::settles(*self, p0, fut, r));
        assert(Self::polled(fut0, self.f, task0, *self, *task, r));
        proof {
            if old(self).seed() is Some {
                assert(made == Some(fut0));
                assert(Self::made_from(f0, s0, self.f, made, task0, *self, *task, r));
                assert(Self::stepped(f0, s0, task0, *self, *task, r));
            }
        }
        r
    }

    /// Passes on what a future gave when polled, keeping the next state, or
    /// the future while it is pending, or ending the stream on an error.
    fn settle(&mut self, fut: F::Future, p: Poll<(It, State), <F::Future as Future>::Error>) -> (r:
        Poll<Option<It>, <F::Future as Future>::Error>)
        requires
            (p matches Ok(Async::NotReady)) ==> !fut.is_done(),
        ensures
            Self::settles(*final(self), p, fut, r),
            final(self).function() == old(self).function(),
    {
        match p {
            Ok(Async::Ready((item, next))) => {
                self.state.set(Phase::Ready(next));
                Ok(Async::Ready(Some(item)))
            },
            Ok(Async::NotReady) => {
                self.state.set(Phase::Processing(fut));
                Ok(Async::NotReady)
            },
            Err(e) => {
                self.state.set(Phase::Empty);
                Err(e)
            },
        }
    }
}

} // verus!
