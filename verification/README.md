# futures

Sink, stream and future combinators, written in Verus and proved against
their contracts:

- `poll`: the readiness values `Async` and `AsyncSink`, the `Poll` and
  `StartSend` results, and `join` of two readinesses.
- `task`: the task that pending work notifies.
- `future`: the `Future` trait.
- `sink`: the `Sink` trait; `sink::buffer` (a sink that holds up to a fixed
  number of items while the sink it wraps is busy) and `sink::fanout` (a sink
  that sends each item to two sinks).
- `stream`: the `Stream` trait; `stream::unfold` (a stream that makes one
  future per item from a state).
- `select`: a future that completes with the first of two futures.

Each trait carries a model of its implementations: a sink the sequence of
items it has taken (`received`) and relations for one send, flush or close;
a future relations for one poll or schedule, each with the task before and
after; a stream a relation for one
poll; an unfold function a relation for one call. The combinators' contracts
are stated over the models of the values they wrap: for instance, what a
buffer's wrapped sink has taken followed by what the buffer holds grows by
exactly the items the buffer takes, and a select polls its first future,
then, only if that one is not ready, its second.
