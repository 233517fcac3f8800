use futures::poll::{Async, AsyncSink, Poll, StartSend};
use futures::sink::buffer;
use futures::sink::Sink;
use futures::stream::Stream;
use vstd::prelude::Seq;

/// A sink that takes items only while `open`, and can be made to fail.
#[derive(Debug, Default)]
struct Recorder {
    items: Vec<u32>,
    open: bool,
    fail: bool,
    flushes: u32,
    closed: bool,
}

impl Sink<u32> for Recorder {
    type SinkError = String;

    fn received(&self) -> Seq<u32> {
        unreachable!("a proof-time model")
    }

    fn send_step(_before: Self, _item: u32, _after: Self, _r: StartSend<u32, String>) -> bool {
        unreachable!("a proof-time model")
    }

    fn flush_step(_before: Self, _after: Self, _r: Poll<(), String>) -> bool {
        unreachable!("a proof-time model")
    }

    fn close_step(_before: Self, _after: Self, _r: Poll<(), String>) -> bool {
        unreachable!("a proof-time model")
    }

    fn start_send(&mut self, item: u32) -> StartSend<u32, String> {
        if self.fail {
            Err(format!("refused {}", item))
        } else if self.open {
            self.items.push(item);
            Ok(AsyncSink::Ready)
        } else {
            Ok(AsyncSink::NotReady(item))
        }
    }

    fn poll_complete(&mut self) -> Poll<(), String> {
        self.flushes += 1;
        if self.fail {
            return Err("flush failed".to_string());
        }
        if self.open {
            Ok(Async::Ready(()))
        } else {
            Ok(Async::NotReady)
        }
    }

    fn close(&mut self) -> Poll<(), String> {
        if self.open {
            self.closed = true;
            Ok(Async::Ready(()))
        } else {
            Ok(Async::NotReady)
        }
    }
}

impl Stream for Recorder {
    type Item = u32;
    type Error = String;

    fn poll_step(_before: Self, _after: Self, _r: Poll<Option<u32>, String>) -> bool {
        unreachable!("a proof-time model")
    }

    fn poll(&mut self) -> Poll<Option<u32>, String> {
        Ok(Async::Ready(self.items.last().copied()))
    }
}

fn closed_sink() -> Recorder {
    Recorder::default()
}

fn open_sink() -> Recorder {
    Recorder { open: true, ..Recorder::default() }
}

#[test]
fn buffer_holds_items_while_inner_refuses() {
    let mut b = buffer::new(closed_sink(), 2);
    assert_eq!(b.start_send(1), Ok(AsyncSink::Ready));
    assert_eq!(b.start_send(2), Ok(AsyncSink::Ready));
    assert_eq!(b.start_send(3), Ok(AsyncSink::NotReady(3)));
    assert!(b.get_ref().items.is_empty());
}

#[test]
fn buffer_forwards_in_order_once_inner_opens() {
    let mut b = buffer::new(closed_sink(), 3);
    for i in 1..=3 {
        assert_eq!(b.start_send(i), Ok(AsyncSink::Ready));
    }
    b.get_mut().open = true;
    assert_eq!(b.poll_complete(), Ok(Async::Ready(())));
    assert_eq!(b.get_ref().items, vec![1, 2, 3]);
    assert_eq!(b.start_send(4), Ok(AsyncSink::Ready));
    assert_eq!(b.close(), Ok(Async::Ready(())));
    let inner = b.into_inner();
    assert_eq!(inner.items, vec![1, 2, 3, 4]);
    assert!(inner.closed);
}

#[test]
fn buffer_flush_not_ready_while_inner_refuses() {
    let mut b = buffer::new(closed_sink(), 1);
    assert_eq!(b.start_send(7), Ok(AsyncSink::Ready));
    assert_eq!(b.poll_complete(), Ok(Async::NotReady));
    // the refused item was pushed back and the inner sink asked to flush
    assert_eq!(b.get_ref().flushes, 1);
    assert_eq!(b.close(), Ok(Async::NotReady));
    b.get_mut().open = true;
    assert_eq!(b.close(), Ok(Async::Ready(())));
    assert_eq!(b.get_ref().items, vec![7]);
}

#[test]
fn buffer_start_send_drains_before_refusing() {
    let mut b = buffer::new(closed_sink(), 1);
    assert_eq!(b.start_send(1), Ok(AsyncSink::Ready));
    b.get_mut().open = true;
    // the buffered item goes on first, which makes room for the new one
    assert_eq!(b.start_send(2), Ok(AsyncSink::Ready));
    assert_eq!(b.get_ref().items, vec![1]);
    assert_eq!(b.poll_complete(), Ok(Async::Ready(())));
    assert_eq!(b.get_ref().items, vec![1, 2]);
}

#[test]
fn buffer_zero_capacity_passes_straight_through() {
    let mut b = buffer::new(closed_sink(), 0);
    assert_eq!(b.start_send(5), Ok(AsyncSink::NotReady(5)));
    b.get_mut().open = true;
    assert_eq!(b.start_send(5), Ok(AsyncSink::Ready));
    assert_eq!(b.get_ref().items, vec![5]);
    assert_eq!(b.poll_complete(), Ok(Async::Ready(())));
    assert_eq!(b.close(), Ok(Async::Ready(())));
}

#[test]
fn buffer_reports_inner_errors() {
    let mut b = buffer::new(closed_sink(), 2);
    assert_eq!(b.start_send(1), Ok(AsyncSink::Ready));
    b.get_mut().fail = true;
    assert_eq!(b.start_send(2), Err("refused 1".to_string()));
    assert_eq!(b.poll_complete(), Err("flush failed".to_string()));
    let mut z = buffer::new(open_sink(), 0);
    z.get_mut().fail = true;
    assert_eq!(z.start_send(3), Err("refused 3".to_string()));
}

#[test]
fn buffer_forwards_stream_polls() {
    let mut b = buffer::new(open_sink(), 1);
    assert_eq!(Stream::poll(&mut b), Ok(Async::Ready(None)));
    assert_eq!(b.start_send(9), Ok(AsyncSink::Ready));
    assert_eq!(b.poll_complete(), Ok(Async::Ready(())));
    assert_eq!(Stream::poll(&mut b), Ok(Async::Ready(Some(9))));
}
