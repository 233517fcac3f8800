use futures::poll::{Async, AsyncSink};
use futures::task::Task;

#[test]
fn async_readiness() {
    assert!(Async::Ready(3).is_ready());
    assert!(!Async::Ready(3).is_not_ready());
    assert!(Async::<u8>::NotReady.is_not_ready());
    assert!(!Async::<u8>::NotReady.is_ready());
}

#[test]
fn async_sink_readiness() {
    assert!(AsyncSink::<u8>::Ready.is_ready());
    assert!(AsyncSink::NotReady(4).is_not_ready());
    assert!(!AsyncSink::NotReady(4).is_ready());
}

#[test]
fn task_notify_sets_flag() {
    let mut t = Task::new();
    assert!(!t.is_notified());
    t.notify();
    assert!(t.is_notified());
    t.notify();
    assert!(t.is_notified());
}
