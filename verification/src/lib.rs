//! Sink, stream and future combinators: a buffering sink, a fanout sink, a
//! select of two futures and an unfolding stream, each a verified state
//! machine over the readiness values of `poll`.
pub mod future;
pub mod poll;
pub mod select;
pub mod sink;
pub mod stream;
pub mod task;
