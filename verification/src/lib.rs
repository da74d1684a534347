//! The core of a multi-producer, multi-consumer channel: message queues,
//! waker bookkeeping and the protocols by which senders and receivers wait for
//! each other.
#![allow(dead_code)]

pub mod backoff;
pub mod blocking_tx;
pub mod channel;
pub mod collections;
pub mod err;
pub mod laws;
pub mod laws_effects;
pub mod laws_messages;
pub mod laws_registry;
pub mod laws_room;
pub mod laws_run;
pub mod laws_seen;
pub mod laws_sending;
pub mod laws_seqs;
pub mod laws_steps;
pub mod laws_trying;
pub mod laws_waiting;
pub mod locked_waker;
pub mod model;
pub mod protocol;
pub mod queues;
pub mod spinlock;
pub mod stats;
pub mod timeout;
pub mod tuning;
pub mod waker_registry;
