use futures::future::Future;
use futures::poll::{Async, Poll};
use futures::stream::unfold::{unfold, UnfoldFn};
use futures::task::Task;

/// A future that completes with `value` on its `after`-th poll.
struct Delayed {
    after: u32,
    polls: u32,
    value: Result<(u32, u32), String>,
}

impl Future for Delayed {
    type Item = (u32, u32);
    type Error = String;

    fn poll_step(
        _before: Self,
        _task0: Task,
        _after: Self,
        _task1: Task,
        _r: Poll<(u32, u32), String>,
    ) -> bool {
        unreachable!("a proof-time model")
    }

    fn schedule_step(_before: Self, _task0: Task, _after: Self, _task1: Task) -> bool {
        unreachable!("a proof-time model")
    }

    fn is_done(&self) -> bool {
        self.polls >= self.after
    }

    fn poll(&mut self, task: &mut Task) -> Poll<(u32, u32), String> {
        self.polls += 1;
        if self.polls >= self.after {
            self.value.clone().map(Async::Ready)
        } else {
            task.notify();
            Ok(Async::NotReady)
        }
    }

    fn schedule(&mut self, task: &mut Task) {
        task.notify();
    }
}

/// While `state <= 2`, makes a future of `(state * 2, state + 1)` that completes
/// on its `delay`-th poll; then ends the stream. Counts its calls.
struct Doubler {
    delay: u32,
    calls: u32,
    fail_at: Option<u32>,
}

impl UnfoldFn<u32, u32> for Doubler {
    type Future = Delayed;

    fn apply_step(_before: Self, _state: u32, _after: Self, _fut: Option<Delayed>) -> bool {
        unreachable!("a proof-time model")
    }

    fn apply(&mut self, state: u32) -> Option<Delayed> {
        self.calls += 1;
        if Some(state) == self.fail_at {
            Some(Delayed { after: self.delay, polls: 0, value: Err(format!("failed at {}", state)) })
        } else if state <= 2 {
            let next_state = state + 1;
            let yielded = state * 2;
            Some(Delayed { after: self.delay, polls: 0, value: Ok((yielded, next_state)) })
        } else {
            None
        }
    }
}

fn collect(delay: u32) -> (Vec<u32>, u32) {
    let mut task = Task::new();
    let mut s = unfold(0u32, Doubler { delay, calls: 0, fail_at: None });
    let mut out = Vec::new();
    let mut pending = 0;
    loop {
        match s.poll_next(&mut task) {
            Ok(Async::Ready(Some(x))) => out.push(x),
            Ok(Async::Ready(None)) => break,
            Ok(Async::NotReady) => pending += 1,
            Err(e) => panic!("{}", e),
        }
    }
    (out, pending)
}

#[test]
fn unfold_yields_until_none() {
    assert_eq!(collect(1), (vec![0, 2, 4], 0));
}

#[test]
fn unfold_waits_on_pending_future() {
    // each of the three futures is pending twice before it completes
    assert_eq!(collect(3), (vec![0, 2, 4], 6));
}

#[test]
fn unfold_polls_pending_future_again() {
    let mut task = Task::new();
    let mut s = unfold(0u32, Doubler { delay: 2, calls: 0, fail_at: None });
    assert_eq!(s.poll_next(&mut task), Ok(Async::NotReady));
    assert!(task.is_notified());
    assert_eq!(s.poll_next(&mut task), Ok(Async::Ready(Some(0))));
    assert_eq!(s.poll_next(&mut task), Ok(Async::NotReady));
    assert_eq!(s.poll_next(&mut task), Ok(Async::Ready(Some(2))));
}

#[test]
fn unfold_ends_for_ever_after_none() {
    let mut task = Task::new();
    let mut s = unfold(3u32, Doubler { delay: 1, calls: 0, fail_at: None });
    assert_eq!(s.poll_next(&mut task), Ok(Async::Ready(None)));
    assert_eq!(s.poll_next(&mut task), Ok(Async::Ready(None)));
    assert_eq!(s.poll_next(&mut task), Ok(Async::Ready(None)));
}

#[test]
fn unfold_ends_after_an_error() {
    let mut task = Task::new();
    let mut s = unfold(1u32, Doubler { delay: 1, calls: 0, fail_at: Some(2) });
    assert_eq!(s.poll_next(&mut task), Ok(Async::Ready(Some(2))));
    assert_eq!(s.poll_next(&mut task), Err("failed at 2".to_string()));
    // after an error the stream yields `Ready(None)` for ever
    assert_eq!(s.poll_next(&mut task), Ok(Async::Ready(None)));
    assert_eq!(s.poll_next(&mut task), Ok(Async::Ready(None)));
}
