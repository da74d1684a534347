# crossfire

The core of a multi-producer, multi-consumer channel, verified with Verus: message
queues, wakers, the registries in which they are queued, and the protocol by which
a sender of a full channel registers, tries again by itself, parks, runs out of time
or is turned away.

The library is the sequential core. Each method of `ChannelShared` is one critical
section: it is given the shared state for as long as it runs, wakes nobody itself but
names whom to wake, and takes the time and the size of the machine as arguments. To
send is a sequence of steps (`SendStep`); between two of them others have the shared
state. The laws are stated over every order in which the steps of several parties can
come.

- `src/model.rs` and `src/protocol.rs` hold the mathematical model: what each
  operation and each step of a sender makes of the shared state.
- `src/channel.rs` and `src/blocking_tx.rs` are the shared state and the senders, proved
  equal to the model.
- `src/locked_waker.rs`, `src/waker_registry.rs` and `src/collections.rs` are wakers and
  where they are kept; `src/queues.rs` are the message queues, on top of
  `crossbeam_queue`.
- `src/backoff.rs`, `src/tuning.rs`, `src/timeout.rs`, `src/spinlock.rs` and `src/stats.rs`
  are the smaller parts.
- `src/laws.rs`, `src/laws_messages.rs`, `src/laws_seqs.rs`, `src/laws_waiting.rs`,
  `src/laws_sending.rs`, `src/laws_steps.rs` and `src/laws_run.rs` state what holds of the
  channel as a whole: messages come out once each and in order, nobody who waits is
  forgotten, a send either succeeds or gives the message back.
- `app/` puts the core under a lock and adds threads, the clock and the process.

What is trusted is marked `external_body`: the calls into `crossbeam_queue` and `tokio`,
and the processor hint of the standard library.
