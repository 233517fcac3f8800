use futures::poll::{Async, AsyncSink, Poll, StartSend};
use futures::sink::fanout;
use futures::sink::Sink;
use vstd::prelude::Seq;

/// A sink that takes items only while `open`, and can be made to fail.
#[derive(Debug, Default)]
struct Recorder {
    items: Vec<String>,
    open: bool,
    fail: bool,
    closed: bool,
}

impl Sink<String> for Recorder {
    type SinkError = String;

    fn received(&self) -> Seq<String> {
        unreachable!("a proof-time model")
    }

    fn send_step(_before: Self, _item: String, _after: Self, _r: StartSend<String, String>) -> bool {
        unreachable!("a proof-time model")
    }

    fn flush_step(_before: Self, _after: Self, _r: Poll<(), String>) -> bool {
        unreachable!("a proof-time model")
    }

    fn close_step(_before: Self, _after: Self, _r: Poll<(), String>) -> bool {
        unreachable!("a proof-time model")
    }

    fn start_send(&mut self, item: String) -> StartSend<String, String> {
        if self.fail {
            Err(format!("refused {}", item))
        } else if self.open {
            self.items.push(item);
            Ok(AsyncSink::Ready)
        } else {
            Ok(AsyncSink::NotReady(item))
        }
    }

    fn poll_complete(&mut self) -> Poll<(), String> {
        if self.open {
            Ok(Async::Ready(()))
        } else {
            Ok(Async::NotReady)
        }
    }

    fn close(&mut self) -> Poll<(), String> {
        self.closed = true;
        Ok(Async::Ready(()))
    }
}

fn open_sink() -> Recorder {
    Recorder { open: true, ..Recorder::default() }
}

#[test]
fn fanout_sends_each_item_to_both() {
    let mut f = fanout::new(open_sink(), open_sink());
    assert_eq!(f.start_send("a".to_string()), Ok(AsyncSink::Ready));
    assert_eq!(f.start_send("b".to_string()), Ok(AsyncSink::Ready));
    assert_eq!(f.poll_complete(), Ok(Async::Ready(())));
    let (l, r) = f.into_inner();
    assert_eq!(l.items, vec!["a", "b"]);
    assert_eq!(r.items, vec!["a", "b"]);
}

#[test]
fn fanout_backpressure_from_slow_side() {
    let mut f = fanout::new(open_sink(), Recorder::default());
    // the right sink refuses: the fanout keeps it and still reports Ready
    assert_eq!(f.start_send("a".to_string()), Ok(AsyncSink::Ready));
    // with an item owed to the right sink, the next item is refused
    assert_eq!(f.start_send("b".to_string()), Ok(AsyncSink::NotReady("b".to_string())));
    assert_eq!(f.poll_complete(), Ok(Async::NotReady));
    let (l, r) = f.into_inner();
    assert_eq!(l.items, vec!["a"]);
    assert!(r.items.is_empty());
}

#[test]
fn fanout_resends_owed_item_when_ready() {
    let mut f = fanout::new(Recorder::default(), open_sink());
    assert_eq!(f.start_send("x".to_string()), Ok(AsyncSink::Ready));
    assert_eq!(f.poll_complete(), Ok(Async::NotReady));
    assert_eq!(f.close(), Ok(Async::NotReady));
    let (mut l, r) = f.into_inner();
    assert!(l.items.is_empty());
    assert_eq!(r.items, vec!["x"]);
    l.open = true;
    let mut g = fanout::new(l, r);
    assert_eq!(g.start_send("y".to_string()), Ok(AsyncSink::Ready));
    assert_eq!(g.close(), Ok(Async::Ready(())));
    let (l, r) = g.into_inner();
    assert_eq!(l.items, vec!["y"]);
    assert_eq!(r.items, vec!["x", "y"]);
    assert!(l.closed && r.closed);
}

#[test]
fn fanout_reports_errors() {
    let failing = Recorder { fail: true, ..Recorder::default() };
    let mut f = fanout::new(open_sink(), failing);
    assert_eq!(f.start_send("z".to_string()), Err("refused z".to_string()));
    let (l, _) = f.into_inner();
    // the clone reached the left sink before the right one failed
    assert_eq!(l.items, vec!["z"]);
}
