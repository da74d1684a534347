//! What can go wrong when a message is sent. Every error gives the message back.

use vstd::prelude::*;

verus! {

/// All receivers are gone.
#[derive(Debug, PartialEq, Eq)]
pub struct SendError<T>(pub T);

/// A message could not be sent at once.
#[derive(Debug, PartialEq, Eq)]
pub enum TrySendError<T> {
    /// The channel is full.
    Full(T),
    /// All receivers are gone.
    Disconnected(T),
}

/// A message could not be sent in time.
#[derive(Debug, PartialEq, Eq)]
pub enum SendTimeoutError<T> {
    /// The channel stayed full.
    Timeout(T),
    /// All receivers are gone.
    Disconnected(T),
}

} // verus!
