use futures::future::Future;
use futures::poll::{Async, Poll};
use futures::select;
use futures::task::Task;

/// A future that completes with `outcome` on its `after`-th poll.
#[derive(Debug)]
struct Countdown {
    after: u32,
    polls: u32,
    schedules: u32,
    outcome: Result<i32, String>,
}

fn countdown(after: u32, outcome: Result<i32, String>) -> Countdown {
    Countdown { after, polls: 0, schedules: 0, outcome }
}

impl Future for Countdown {
    type Item = i32;
    type Error = String;

    fn poll_step(
        _before: Self,
        _task0: Task,
        _after: Self,
        _task1: Task,
        _r: Poll<i32, String>,
    ) -> bool {
        unreachable!("a proof-time model")
    }

    fn schedule_step(_before: Self, _task0: Task, _after: Self, _task1: Task) -> bool {
        unreachable!("a proof-time model")
    }

    fn is_done(&self) -> bool {
        self.polls >= self.after
    }

    fn poll(&mut self, task: &mut Task) -> Poll<i32, String> {
        self.polls += 1;
        if self.polls >= self.after {
            self.outcome.clone().map(Async::Ready)
        } else {
            task.notify();
            Ok(Async::NotReady)
        }
    }

    fn schedule(&mut self, _task: &mut Task) {
        self.schedules += 1;
    }
}

#[test]
fn select_first_future_wins_ties() {
    let mut task = Task::new();
    let mut s = select::new(countdown(1, Ok(1)), countdown(1, Ok(2)));
    match s.poll(&mut task) {
        Ok(Async::Ready((v, mut next))) => {
            assert_eq!(v, 1);
            // the second future is handed on unpolled
            assert_eq!(next.poll(&mut task), Ok(Async::Ready(2)));
        }
        other => panic!("unexpected {:?}", other.is_ok()),
    }
}

#[test]
fn select_second_future_can_win() {
    let mut task = Task::new();
    let mut s = select::new(countdown(3, Ok(1)), countdown(2, Ok(2)));
    assert!(matches!(s.poll(&mut task), Ok(Async::NotReady)));
    assert!(task.is_notified());
    match s.poll(&mut task) {
        Ok(Async::Ready((v, mut next))) => {
            assert_eq!(v, 2);
            // the first future was polled twice already; it completes on the third
            assert_eq!(next.poll(&mut task), Ok(Async::Ready(1)));
        }
        _ => panic!("select did not complete"),
    }
}

#[test]
fn select_passes_errors_with_the_other_future() {
    let mut task = Task::new();
    let mut s = select::new(countdown(1, Err("boom".to_string())), countdown(5, Ok(2)));
    match s.poll(&mut task) {
        Err((e, mut next)) => {
            assert_eq!(e, "boom");
            assert!(matches!(next.poll(&mut task), Ok(Async::NotReady)));
        }
        _ => panic!("select did not fail"),
    }
}

#[test]
fn select_schedule_reaches_both_or_notifies() {
    let mut task = Task::new();
    let mut s = select::new(countdown(2, Ok(1)), countdown(2, Ok(2)));
    s.schedule(&mut task);
    assert!(!task.is_notified());
    match s.poll(&mut task) {
        Ok(Async::NotReady) => {}
        _ => panic!("completed too early"),
    }
    let out = s.poll(&mut task);
    match out {
        Ok(Async::Ready((v, mut next))) => {
            assert_eq!(v, 1);
            next.schedule(&mut task);
        }
        _ => panic!("select did not complete"),
    }
    let mut fresh = Task::new();
    s.schedule(&mut fresh);
    assert!(fresh.is_notified());
}

#[test]
fn select_poll_result_finish() {
    let a = countdown(1, Ok(1));
    let b = countdown(1, Ok(2));
    match select::Select::finish(a, b, Err::<i32, String>("late".to_string()), false) {
        Err((e, mut next)) => {
            assert_eq!(e, "late");
            let mut task = Task::new();
            assert_eq!(next.poll(&mut task), Ok(Async::Ready(1)));
        }
        _ => panic!("finish changed the outcome"),
    }
}
