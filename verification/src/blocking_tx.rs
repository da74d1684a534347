//! Senders that work in threads.
//!
//! To send is a sequence of steps. Each step is given the shared state for as long
//! as it runs, and returns what the thread has to do before the next: to pause, to
//! look at the clock, to park. In between others have the shared state.

use vstd::prelude::*;

use crate::backoff::{BackoffConfig, Pause};
use crate::channel::{ChannelShared, TryAgain, TryStep};
use crate::err::{SendError, SendTimeoutError, TrySendError};
use crate::locked_waker::{
    SendWaker, WakerCache, WakerInner, WakerState, WakerTrait, WakerType,
};
use crate::model::ChannelView;
use crate::protocol::{SendView, StepView, Tried};
use crate::waker_registry::RegistryKind;

verus! {

/// A message on its way: the waker that has it, and how it is sent.
pub struct PendingSend<T> {
    pub waker: SendWaker<T>,
    pub fastpath: bool,
    /// When to give up, in nanoseconds on a clock of the caller's.
    pub deadline: Option<u128>,
    pub backoff: BackoffConfig,
}

impl<T> View for PendingSend<T> {
    type V = SendView;

    open spec fn view(&self) -> SendView {
        SendView {
            waker: self.waker.key(),
            fastpath: self.fastpath,
            deadline: self.deadline,
            backoff: self.backoff,
        }
    }
}

/// What the thread has to do next.
pub enum SendStep<T> {
    /// To yield if the pause says so, and to call [`Tx::after_pause`].
    Pause { pause: Pause, send: PendingSend<T>, attempt: TryAgain, registered: bool },
    /// To call [`check_timeout`](crate::timeout::check_timeout) with the deadline, and
    /// then [`Tx::after_check`].
    CheckTimeout { send: PendingSend<T> },
    /// To park, for no longer than so many nanoseconds, and to call [`Tx::after_park`].
    Park { timeout: Option<u128>, send: PendingSend<T> },
    /// Nothing: the message was sent, or is given back.
    Finished { result: Result<(), SendTimeoutError<T>> },
}

impl<T> View for SendStep<T> {
    type V = StepView<T>;

    open spec fn view(&self) -> StepView<T> {
        match *self {
            SendStep::Pause { pause, send, attempt, registered } => StepView::Pause {
                pause,
                send: send@,
                attempt: attempt@,
                registered,
            },
            SendStep::CheckTimeout { send } => StepView::CheckTimeout { send: send@ },
            SendStep::Park { timeout, send } => StepView::Park { timeout, send: send@ },
            SendStep::Finished { result } => StepView::Finished { result },
        }
    }
}

impl<T> SendStep<T> {
    pub open spec fn wf(self) -> bool {
        self matches SendStep::Pause { attempt, .. } ==> attempt.wf() && !(attempt.phase is Lock)
    }
}

/// A single sender that works in threads.
#[verifier::reject_recursive_types(T)]
pub struct Tx<T> {
    waker_cache: WakerCache<SendWaker<T>>,
}

impl<T> Tx<T> {
    /// The waker that the sender keeps for later.
    pub closed spec fn cached(self) -> Option<u64> {
        self.waker_cache.cached()
    }

    /// What the sender keeps exists.
    pub open spec fn wf(self, shared: ChannelView<T>) -> bool {
        self.cached() is Some ==> shared.send_wakers.contains_key(self.cached()->0)
    }

    /// A message of this sender is on its way, and the sender can go on with it.
    pub open spec fn sending(self, shared: ChannelView<T>, send: SendView) -> bool {
        &&& self.wf(shared)
        &&& shared.pending(send.waker)
        &&& shared.senders.kind != RegistryKind::Dummy
        &&& self.cached() != Some(send.waker)
    }

    pub fn new() -> (tx: Self)
        ensures
            tx.cached() is None,
    {
        Tx { waker_cache: WakerCache::new() }
    }

    fn _try_send(shared: &mut ChannelShared<T>, item: T, wakes: &mut Vec<WakerType>) -> (result:
        Result<(), T>)
        requires
            old(shared).sound(),
        ensures
            final(shared).sound(),
            old(shared).wf() ==> final(shared).wf(),
            old(shared)@.full() ==> {
                &&& result == Err::<(), T>(item)
                &&& final(shared)@ == old(shared)@
                &&& final(wakes)@ == old(wakes)@
            },
            !old(shared)@.full() ==> {
                &&& result is Ok
                &&& final(shared)@ == old(shared)@.sent(item)
                &&& final(wakes)@ == old(wakes)@ + old(shared)@.announce_wakes()
            },
    {
        match shared.try_send(item) {
            Err(item) => Err(item),
            Ok(()) => {
                shared.on_send(wakes);
                Ok(())
            },
        }
    }

    /// Starts to send a message, by the deadline if there is one.
    pub fn _send_blocking(
        &mut self,
        shared: &mut ChannelShared<T>,
        item: T,
        fastpath: bool,
        deadline: Option<u128>,
        thread: u64,
        wakes: &mut Vec<WakerType>,
    ) -> (step: SendStep<T>)
        requires
            old(shared).sound(),
            old(self).wf(old(shared)@),
            old(shared)@.queues_up(fastpath) ==> old(shared)@.can_wait(old(self).cached()),
        ensures
            final(shared).sound(),
            old(shared).wf() ==> final(shared).wf(),
            step.wf(),
            final(self).wf(final(shared)@),
            ({
                let outcome = old(shared)@.send_started(
                    old(self).cached(),
                    item,
                    fastpath,
                    deadline,
                    thread,
                );
                &&& final(shared)@ == outcome.shared
                &&& final(self).cached() == outcome.cached
                &&& final(wakes)@ == old(wakes)@ + outcome.wakes
                &&& step@ == outcome.step
            }),
    {
        if shared.is_disconnected() {
            return SendStep::Finished { result: Err(SendTimeoutError::Disconnected(item)) };
        }
        if shared.get_bound_size().is_none() {
            let sent = Self::_try_send(shared, item, wakes);
            assert(sent is Ok);
            return SendStep::Finished { result: Ok(()) };
        }
        let item = if fastpath {
            match Self::_try_send(shared, item, wakes) {
                Ok(()) => {
                    return SendStep::Finished { result: Ok(()) };
                },
                Err(item) => item,
            }
        } else {
            item
        };
        let backoff = shared.get_backoff_tx();
        let waker = shared.acquire_send_waker(&mut self.waker_cache, thread, item);
        let send = PendingSend { waker, fastpath, deadline, backoff };
        self.round(shared, send, wakes)
    }

    /// Registers the waker, and tries again.
    fn round(
        &mut self,
        shared: &mut ChannelShared<T>,
        send: PendingSend<T>,
        wakes: &mut Vec<WakerType>,
    ) -> (step: SendStep<T>)
        requires
            old(shared).sound(),
            old(self).sending(old(shared)@, send@),
        ensures
            final(shared).sound(),
            old(shared).wf() ==> final(shared).wf(),
            step.wf(),
            final(self).wf(final(shared)@),
            ({
                let outcome = old(shared)@.round(old(self).cached(), send@, Seq::empty());
                &&& final(shared)@ == outcome.shared
                &&& final(self).cached() == outcome.cached
                &&& final(wakes)@ == old(wakes)@ + outcome.wakes
                &&& step@ == outcome.step
            }),
    {
        match shared.reg_send_blocking(&send.waker) {
            Ok(()) => {
                match shared.sender_try_again(
                    &send.waker,
                    None,
                    send.fastpath,
                    send.backoff,
                    wakes,
                ) {
                    TryStep::Paused(pause, attempt) => SendStep::Pause {
                        pause,
                        send,
                        attempt,
                        registered: true,
                    },
                    TryStep::Settled(state) => {
                        if state == WakerState::WAITING.code() {
                            SendStep::CheckTimeout { send }
                        } else {
                            self.conclude(shared, send, state)
                        }
                    },
                }
            },
            Err(state) => self.conclude(shared, send, state),
        }
    }

    /// Ends a wait whose waker is done or closed.
    fn conclude(&mut self, shared: &mut ChannelShared<T>, send: PendingSend<T>, state: u8) -> (step:
        SendStep<T>)
        requires
            old(shared).sound(),
            old(self).sending(old(shared)@, send@),
            state == old(shared)@.send_wakers[send@.waker].state,
            state >= WakerState::DONE.code(),
        ensures
            final(shared).sound(),
            old(shared).wf() ==> final(shared).wf(),
            step.wf(),
            final(self).wf(final(shared)@),
            ({
                let outcome = old(shared)@.concluded(
                    old(self).cached(),
                    send@.waker,
                    Seq::empty(),
                    state,
                );
                &&& final(shared)@ == outcome.shared
                &&& final(self).cached() == outcome.cached
                &&& step@ == outcome.step
            }),
    {
        if state == WakerState::DONE.code() {
            shared.release_send_waker(&mut self.waker_cache, send.waker);
            SendStep::Finished { result: Ok(()) }
        } else {
            let item = shared.drop_send_waker(send.waker).unwrap();
            SendStep::Finished { result: Err(SendTimeoutError::Disconnected(item)) }
        }
    }

    /// Acts on the state that the thread finds its waker in.
    fn decide(
        &mut self,
        shared: &mut ChannelShared<T>,
        send: PendingSend<T>,
        state: u8,
        wakes: &mut Vec<WakerType>,
    ) -> (step: SendStep<T>)
        requires
            old(shared).sound(),
            old(self).sending(old(shared)@, send@),
            state == old(shared)@.send_wakers[send@.waker].state,
        ensures
            final(shared).sound(),
            old(shared).wf() ==> final(shared).wf(),
            step.wf(),
            final(self).wf(final(shared)@),
            ({
                let outcome = old(shared)@.decided(
                    old(self).cached(),
                    send@,
                    Seq::empty(),
                    state,
                );
                &&& final(shared)@ == outcome.shared
                &&& final(self).cached() == outcome.cached
                &&& final(wakes)@ == old(wakes)@ + outcome.wakes
                &&& step@ == outcome.step
            }),
    {
        if state >= WakerState::DONE.code() {
            self.conclude(shared, send, state)
        } else if state == WakerState::WAKED.code() {
            if shared.retry_send(&send.waker, wakes) {
                shared.release_send_waker(&mut self.waker_cache, send.waker);
                SendStep::Finished { result: Ok(()) }
            } else {
                self.round(shared, send, wakes)
            }
        } else {
            // Nobody woke it: its time is up, or it was unparked for nothing.
            let step = shared.sender_try_again(
                &send.waker,
                None,
                send.fastpath,
                send.backoff,
                wakes,
            );
            self.after_second(shared, send, step, wakes)
        }
    }

    /// Acts on what trying again after a park came to.
    fn after_second(
        &mut self,
        shared: &mut ChannelShared<T>,
        send: PendingSend<T>,
        step: TryStep,
        wakes: &mut Vec<WakerType>,
    ) -> (next: SendStep<T>)
        requires
            old(shared).sound(),
            step.wf(),
            step matches TryStep::Paused(_, attempt) ==> !(attempt.phase is Lock),
            old(self).sending(old(shared)@, send@),
            step matches TryStep::Settled(state) ==> state
                == old(shared)@.send_wakers[send@.waker].state,
        ensures
            final(shared).sound(),
            old(shared).wf() ==> final(shared).wf(),
            next.wf(),
            final(self).wf(final(shared)@),
            ({
                let outcome = (Tried {
                    shared: old(shared)@,
                    wakes: Seq::empty(),
                    step: step@,
                }).second(old(self).cached(), send@, Seq::empty());
                &&& final(shared)@ == outcome.shared
                &&& final(self).cached() == outcome.cached
                &&& final(wakes)@ == old(wakes)@ + outcome.wakes
                &&& next@ == outcome.step
            }),
    {
        match step {
            TryStep::Paused(pause, attempt) => SendStep::Pause {
                pause,
                send,
                attempt,
                registered: false,
            },
            TryStep::Settled(state) => {
                if state >= WakerState::DONE.code() {
                    self.conclude(shared, send, state)
                } else {
                    self.round(shared, send, wakes)
                }
            },
        }
    }

    /// Goes on after [`SendStep::Pause`].
    pub fn after_pause(
        &mut self,
        shared: &mut ChannelShared<T>,
        send: PendingSend<T>,
        attempt: TryAgain,
        registered: bool,
        wakes: &mut Vec<WakerType>,
    ) -> (step: SendStep<T>)
        requires
            old(shared).sound(),
            attempt.wf(),
            !(attempt.phase is Lock),
            old(self).sending(old(shared)@, send@),
        ensures
            final(shared).sound(),
            old(shared).wf() ==> final(shared).wf(),
            step.wf(),
            final(self).wf(final(shared)@),
            ({
                let outcome = old(shared)@.after_pause(
                    old(self).cached(),
                    send@,
                    attempt@,
                    registered,
                );
                &&& final(shared)@ == outcome.shared
                &&& final(self).cached() == outcome.cached
                &&& final(wakes)@ == old(wakes)@ + outcome.wakes
                &&& step@ == outcome.step
            }),
    {
        let step = shared.sender_try_on(&send.waker, attempt, wakes);
        if !registered {
            return self.after_second(shared, send, step, wakes);
        }
        match step {
            TryStep::Paused(pause, attempt) => SendStep::Pause {
                pause,
                send,
                attempt,
                registered: true,
            },
            TryStep::Settled(state) => {
                if state == WakerState::WAITING.code() {
                    SendStep::CheckTimeout { send }
                } else {
                    self.decide(shared, send, state, wakes)
                }
            },
        }
    }

    /// Goes on after [`SendStep::CheckTimeout`]: parks, or gives up.
    pub fn after_check(
        &mut self,
        shared: &mut ChannelShared<T>,
        send: PendingSend<T>,
        left: Result<Option<u128>, ()>,
        wakes: &mut Vec<WakerType>,
    ) -> (step: SendStep<T>)
        requires
            old(shared).sound(),
            left is Err ==> old(shared)@.can_abandon(send@.waker),
            old(self).sending(old(shared)@, send@),
        ensures
            final(shared).sound(),
            old(shared).wf() ==> final(shared).wf(),
            step.wf(),
            final(self).wf(final(shared)@),
            ({
                let outcome = old(shared)@.after_check(old(self).cached(), send@, left);
                &&& final(shared)@ == outcome.shared
                &&& final(self).cached() == outcome.cached
                &&& final(wakes)@ == old(wakes)@ + outcome.wakes
                &&& step@ == outcome.step
            }),
    {
        match left {
            Ok(timeout) => SendStep::Park { timeout, send },
            Err(()) => {
                match shared.abandon_send_waker(send.waker, wakes) {
                    Some(item) => SendStep::Finished {
                        result: Err(SendTimeoutError::Timeout(item)),
                    },
                    None => SendStep::Finished { result: Ok(()) },
                }
            },
        }
    }

    /// Goes on after [`SendStep::Park`].
    pub fn after_park(
        &mut self,
        shared: &mut ChannelShared<T>,
        send: PendingSend<T>,
        wakes: &mut Vec<WakerType>,
    ) -> (step: SendStep<T>)
        requires
            old(shared).sound(),
            old(self).sending(old(shared)@, send@),
        ensures
            final(shared).sound(),
            old(shared).wf() ==> final(shared).wf(),
            step.wf(),
            final(self).wf(final(shared)@),
            ({
                let outcome = old(shared)@.after_park(old(self).cached(), send@);
                &&& final(shared)@ == outcome.shared
                &&& final(self).cached() == outcome.cached
                &&& final(wakes)@ == old(wakes)@ + outcome.wakes
                &&& step@ == outcome.step
            }),
    {
        let state: u8 = shared.send_waker_state(&send.waker);
        self.decide(shared, send, state, wakes)
    }

    /// Starts to send a message. Waits as long as the channel is full.
    ///
    /// Ends with `Ok` once the message is in the channel, or with
    /// [`SendTimeoutError::Disconnected`] when all receivers are gone; see [`sent`].
    pub fn send(
        &mut self,
        shared: &mut ChannelShared<T>,
        item: T,
        thread: u64,
        wakes: &mut Vec<WakerType>,
    ) -> (step: SendStep<T>)
        requires
            old(shared).sound(),
            old(self).wf(old(shared)@),
            old(shared)@.queues_up(true) ==> old(shared)@.can_wait(old(self).cached()),
        ensures
            final(shared).sound(),
            old(shared).wf() ==> final(shared).wf(),
            step.wf(),
            final(self).wf(final(shared)@),
            ({
                let outcome = old(shared)@.send_started(
                    old(self).cached(),
                    item,
                    true,
                    None,
                    thread,
                );
                &&& final(shared)@ == outcome.shared
                &&& final(self).cached() == outcome.cached
                &&& final(wakes)@ == old(wakes)@ + outcome.wakes
                &&& step@ == outcome.step
            }),
    {
        self._send_blocking(shared, item, true, None, thread, wakes)
    }

    /// Sends a message at once or not at all.
    ///
    /// The message is given back with [`TrySendError::Full`] if the channel is full,
    /// with [`TrySendError::Disconnected`] if all receivers are gone.
    pub fn try_send(&self, shared: &mut ChannelShared<T>, item: T, wakes: &mut Vec<WakerType>) -> (
    result: Result<(), TrySendError<T>>)
        requires
            old(shared).sound(),
        ensures
            final(shared).sound(),
            old(shared).wf() ==> final(shared).wf(),
            final(shared)@ == old(shared)@.try_sent(item).0,
            result == old(shared)@.try_sent(item).1,
            final(wakes)@ == old(wakes)@ + old(shared)@.try_send_wakes(),
    {
        if shared.is_disconnected() {
            return Err(TrySendError::Disconnected(item));
        }
        match Self::_try_send(shared, item, wakes) {
            Err(item) => Err(TrySendError::Full(item)),
            Ok(()) => Ok(()),
        }
    }

    /// Starts to send a message by a deadline. Waits as long as the channel is full.
    ///
    /// Either the message is sent, or it is given back: with
    /// [`SendTimeoutError::Timeout`] at the deadline, with
    /// [`SendTimeoutError::Disconnected`] when all receivers are gone. Without a deadline,
    /// since it is too far off for the clock, the message is sent at once or not at all.
    pub fn send_timeout(
        &mut self,
        shared: &mut ChannelShared<T>,
        item: T,
        deadline: Option<u128>,
        thread: u64,
        wakes: &mut Vec<WakerType>,
    ) -> (step: SendStep<T>)
        requires
            old(shared).sound(),
            old(self).wf(old(shared)@),
            deadline is Some && old(shared)@.queues_up(true)
                ==> old(shared)@.can_wait(old(self).cached()),
        ensures
            final(shared).sound(),
            old(shared).wf() ==> final(shared).wf(),
            step.wf(),
            final(self).wf(final(shared)@),
            ({
                let outcome = old(shared)@.send_timed(
                    old(self).cached(),
                    item,
                    true,
                    deadline,
                    thread,
                );
                &&& final(shared)@ == outcome.shared
                &&& final(self).cached() == outcome.cached
                &&& final(wakes)@ == old(wakes)@ + outcome.wakes
                &&& step@ == outcome.step
            }),
    {
        match deadline {
            Some(_) => self._send_blocking(shared, item, true, deadline, thread, wakes),
            None => untimed(self.try_send(shared, item, wakes)),
        }
    }

    /// A further sender of the channel.
    pub fn attach(shared: &mut ChannelShared<T>, avail: usize) -> (tx: Self)
        requires
            old(shared).sound(),
            old(shared)@.tx_count + 1 + old(shared)@.rx_count <= usize::MAX,
            avail < usize::MAX,
        ensures
            final(shared).sound(),
            old(shared).wf() ==> final(shared).wf(),
            final(shared)@ == (ChannelView {
                tx_count: (old(shared)@.tx_count + 1) as usize,
                ..old(shared)@
            }).configured(avail),
            tx.cached() is None,
    {
        shared.add_tx(avail);
        Tx::new()
    }

    /// Drops the sender. With the last one the channel is closed.
    pub fn close(self, shared: &mut ChannelShared<T>, wakes: &mut Vec<WakerType>)
        requires
            old(shared).sound(),
            old(shared)@.tx_count <= 1 ==> old(shared)@.can_shut(),
            self.wf(old(shared)@),
        ensures
            final(shared).sound(),
            old(shared).wf() ==> final(shared).wf(),
            ({
                let left = match self.cached() {
                    Some(id) => old(shared)@.without_send_waker(id),
                    None => old(shared)@,
                };
                &&& final(shared)@ == left.without_tx()
                &&& final(wakes)@ == old(wakes)@ + (if left.tx_count <= 1 {
                    left.shut_wakes()
                } else {
                    Seq::empty()
                })
            }),
    {
        let mut cache = self.waker_cache;
        let ghost before = shared@;
        shared.drop_cached(&mut cache);
        proof {
            assert forall|id: u64| #[trigger] WakerInner::waits(shared@.send_wakers, id) implies
                WakerInner::waits(before.send_wakers, id) by {}
        }
        shared.close_tx(wakes);
    }
}

/// The result of a send that had no deadline.
pub fn sent<T>(result: Result<(), SendTimeoutError<T>>) -> (sent: Result<(), SendError<T>>)
    requires
        !(result matches Err(SendTimeoutError::Timeout(_))),
    ensures
        match result {
            Ok(()) => sent is Ok,
            Err(SendTimeoutError::Disconnected(item)) => sent == Err::<(), SendError<T>>(
                SendError(item),
            ),
            Err(SendTimeoutError::Timeout(_)) => false,
        },
{
    match result {
        Ok(()) => Ok(()),
        Err(SendTimeoutError::Disconnected(item)) => Err(SendError(item)),
        Err(SendTimeoutError::Timeout(item)) => Err(SendError(item)),
    }
}

/// A send that was over at once, in place of one by a deadline.
fn untimed<T>(result: Result<(), TrySendError<T>>) -> (step: SendStep<T>)
    ensures
        step.wf(),
        step@ == (StepView::Finished {
            result: match result {
                Ok(()) => Ok(()),
                Err(TrySendError::Full(t)) => Err(SendTimeoutError::Timeout(t)),
                Err(TrySendError::Disconnected(t)) => Err(SendTimeoutError::Disconnected(t)),
            },
        }),
{
    SendStep::Finished {
        result: match result {
            Ok(()) => Ok(()),
            Err(TrySendError::Disconnected(t)) => Err(SendTimeoutError::Disconnected(t)),
            Err(TrySendError::Full(t)) => Err(SendTimeoutError::Timeout(t)),
        },
    }
}

/// One of several senders that work in threads.
#[verifier::reject_recursive_types(T)]
pub struct MTx<T>(pub Tx<T>);

impl<T> ChannelView<T> {
    /// Whether one of several senders may try at once: not if they outnumber the
    /// receivers and some of them are queued.
    pub open spec fn uncongested(self) -> bool {
        !self.tx_control || self.senders.reported_len() == 0
    }
}

impl<T> MTx<T> {
    pub open spec fn cached(self) -> Option<u64> {
        self.0.cached()
    }

    pub open spec fn wf(self, shared: ChannelView<T>) -> bool {
        self.0.wf(shared)
    }

    pub fn new() -> (tx: Self)
        ensures
            tx.cached() is None,
    {
        MTx(Tx::new())
    }

    /// Starts to send a message, as [`Tx::send`] does.
    pub fn send(
        &mut self,
        shared: &mut ChannelShared<T>,
        item: T,
        thread: u64,
        wakes: &mut Vec<WakerType>,
    ) -> (step: SendStep<T>)
        requires
            old(shared).sound(),
            old(self).wf(old(shared)@),
            old(shared)@.queues_up(old(shared)@.uncongested())
                ==> old(shared)@.can_wait(old(self).cached()),
        ensures
            final(shared).sound(),
            old(shared).wf() ==> final(shared).wf(),
            step.wf(),
            final(self).wf(final(shared)@),
            ({
                let outcome = old(shared)@.send_started(
                    old(self).cached(),
                    item,
                    old(shared)@.uncongested(),
                    None,
                    thread,
                );
                &&& final(shared)@ == outcome.shared
                &&& final(self).cached() == outcome.cached
                &&& final(wakes)@ == old(wakes)@ + outcome.wakes
                &&& step@ == outcome.step
            }),
    {
        let fastpath = !shared.is_congested() || shared.no_sender_waits();
        self.0._send_blocking(shared, item, fastpath, None, thread, wakes)
    }

    /// Sends a message at once or not at all, as [`Tx::try_send`] does.
    pub fn try_send(&self, shared: &mut ChannelShared<T>, item: T, wakes: &mut Vec<WakerType>) -> (
    result: Result<(), TrySendError<T>>)
        requires
            old(shared).sound(),
        ensures
            final(shared).sound(),
            old(shared).wf() ==> final(shared).wf(),
            final(shared)@ == old(shared)@.try_sent(item).0,
            result == old(shared)@.try_sent(item).1,
            final(wakes)@ == old(wakes)@ + old(shared)@.try_send_wakes(),
    {
        self.0.try_send(shared, item, wakes)
    }

    /// Starts to send a message by a deadline, as [`Tx::send_timeout`] does.
    pub fn send_timeout(
        &mut self,
        shared: &mut ChannelShared<T>,
        item: T,
        deadline: Option<u128>,
        thread: u64,
        wakes: &mut Vec<WakerType>,
    ) -> (step: SendStep<T>)
        requires
            old(shared).sound(),
            old(self).wf(old(shared)@),
            deadline is Some && old(shared)@.queues_up(old(shared)@.uncongested())
                ==> old(shared)@.can_wait(old(self).cached()),
        ensures
            final(shared).sound(),
            old(shared).wf() ==> final(shared).wf(),
            step.wf(),
            final(self).wf(final(shared)@),
            ({
                let outcome = old(shared)@.send_timed(
                    old(self).cached(),
                    item,
                    old(shared)@.uncongested(),
                    deadline,
                    thread,
                );
                &&& final(shared)@ == outcome.shared
                &&& final(self).cached() == outcome.cached
                &&& final(wakes)@ == old(wakes)@ + outcome.wakes
                &&& step@ == outcome.step
            }),
    {
        match deadline {
            Some(_) => {
                let fastpath = !shared.is_congested() || shared.no_sender_waits();
                self.0._send_blocking(shared, item, fastpath, deadline, thread, wakes)
            },
            None => untimed(self.0.try_send(shared, item, wakes)),
        }
    }

    /// A further sender of the channel.
    pub fn clone(&self, shared: &mut ChannelShared<T>, avail: usize) -> (tx: Self)
        requires
            old(shared).sound(),
            old(shared)@.tx_count + 1 + old(shared)@.rx_count <= usize::MAX,
            avail < usize::MAX,
        ensures
            final(shared).sound(),
            old(shared).wf() ==> final(shared).wf(),
            final(shared)@ == (ChannelView {
                tx_count: (old(shared)@.tx_count + 1) as usize,
                ..old(shared)@
            }).configured(avail),
            tx.cached() is None,
    {
        MTx(Tx::attach(shared, avail))
    }
}

/// For code that works with [`Tx`] and [`MTx`] alike.
pub trait BlockingTxTrait<T>: Sized {
    /// The waker that the sender keeps for later.
    spec fn kept(&self) -> Option<u64>;

    /// Whether the sender may try at once.
    spec fn fast(&self, shared: ChannelView<T>) -> bool;

    /// What the sender keeps exists.
    spec fn fits(&self, shared: ChannelView<T>) -> bool;

    /// Starts to send a message.
    fn send(
        &mut self,
        shared: &mut ChannelShared<T>,
        item: T,
        thread: u64,
        wakes: &mut Vec<WakerType>,
    ) -> (step: SendStep<T>)
        requires
            old(shared).sound(),
            old(self).fits(old(shared)@),
            old(shared)@.queues_up(old(self).fast(old(shared)@))
                ==> old(shared)@.can_wait(old(self).kept()),
        ensures
            final(shared).sound(),
            old(shared).wf() ==> final(shared).wf(),
            step.wf(),
            final(self).fits(final(shared)@),
            ({
                let outcome = old(shared)@.send_started(
                    old(self).kept(),
                    item,
                    old(self).fast(old(shared)@),
                    None,
                    thread,
                );
                &&& final(shared)@ == outcome.shared
                &&& final(self).kept() == outcome.cached
                &&& final(wakes)@ == old(wakes)@ + outcome.wakes
                &&& step@ == outcome.step
            }),
    ;

    /// Sends a message at once or not at all.
    fn try_send(&self, shared: &mut ChannelShared<T>, item: T, wakes: &mut Vec<WakerType>) -> (
    result: Result<(), TrySendError<T>>)
        requires
            old(shared).sound(),
        ensures
            final(shared).sound(),
            old(shared).wf() ==> final(shared).wf(),
            final(shared)@ == old(shared)@.try_sent(item).0,
            result == old(shared)@.try_sent(item).1,
            final(wakes)@ == old(wakes)@ + old(shared)@.try_send_wakes(),
    ;

    /// Starts to send a message by a deadline.
    fn send_timeout(
        &mut self,
        shared: &mut ChannelShared<T>,
        item: T,
        deadline: Option<u128>,
        thread: u64,
        wakes: &mut Vec<WakerType>,
    ) -> (step: SendStep<T>)
        requires
            old(shared).sound(),
            old(self).fits(old(shared)@),
            deadline is Some && old(shared)@.queues_up(old(self).fast(old(shared)@))
                ==> old(shared)@.can_wait(old(self).kept()),
        ensures
            final(shared).sound(),
            old(shared).wf() ==> final(shared).wf(),
            step.wf(),
            final(self).fits(final(shared)@),
            ({
                let outcome = old(shared)@.send_timed(
                    old(self).kept(),
                    item,
                    old(self).fast(old(shared)@),
                    deadline,
                    thread,
                );
                &&& final(shared)@ == outcome.shared
                &&& final(self).kept() == outcome.cached
                &&& final(wakes)@ == old(wakes)@ + outcome.wakes
                &&& step@ == outcome.step
            }),
    ;

    /// The number of messages in the channel at the moment.
    fn len(&self, shared: &ChannelShared<T>) -> (len: usize)
        ensures
            len == shared@.queue.len(),
    {
        shared.len()
    }

    /// Whether the channel is empty at the moment.
    fn is_empty(&self, shared: &ChannelShared<T>) -> (empty: bool)
        ensures
            empty == (shared@.queue.len() == 0),
    {
        shared.is_empty()
    }

    /// Whether the channel is full at the moment.
    fn is_full(&self, shared: &ChannelShared<T>) -> (full: bool)
        requires
            shared.sound(),
        ensures
            full == shared@.full(),
    {
        shared.is_full()
    }

    /// Whether the other side is gone.
    fn is_disconnected(&self, shared: &ChannelShared<T>) -> (closed: bool)
        ensures
            closed == shared@.closed,
    {
        shared.is_disconnected()
    }
}

impl<T> BlockingTxTrait<T> for Tx<T> {
    open spec fn kept(&self) -> Option<u64> {
        self.cached()
    }

    open spec fn fast(&self, shared: ChannelView<T>) -> bool {
        true
    }

    open spec fn fits(&self, shared: ChannelView<T>) -> bool {
        self.wf(shared)
    }

    fn send(
        &mut self,
        shared: &mut ChannelShared<T>,
        item: T,
        thread: u64,
        wakes: &mut Vec<WakerType>,
    ) -> (step: SendStep<T>) {
        Tx::send(self, shared, item, thread, wakes)
    }

    fn try_send(&self, shared: &mut ChannelShared<T>, item: T, wakes: &mut Vec<WakerType>) -> (
    result: Result<(), TrySendError<T>>) {
        Tx::try_send(self, shared, item, wakes)
    }

    fn send_timeout(
        &mut self,
        shared: &mut ChannelShared<T>,
        item: T,
        deadline: Option<u128>,
        thread: u64,
        wakes: &mut Vec<WakerType>,
    ) -> (step: SendStep<T>) {
        Tx::send_timeout(self, shared, item, deadline, thread, wakes)
    }
}

impl<T> BlockingTxTrait<T> for MTx<T> {
    open spec fn kept(&self) -> Option<u64> {
        self.cached()
    }

    open spec fn fast(&self, shared: ChannelView<T>) -> bool {
        shared.uncongested()
    }

    open spec fn fits(&self, shared: ChannelView<T>) -> bool {
        self.wf(shared)
    }

    fn send(
        &mut self,
        shared: &mut ChannelShared<T>,
        item: T,
        thread: u64,
        wakes: &mut Vec<WakerType>,
    ) -> (step: SendStep<T>) {
        MTx::send(self, shared, item, thread, wakes)
    }

    fn try_send(&self, shared: &mut ChannelShared<T>, item: T, wakes: &mut Vec<WakerType>) -> (
    result: Result<(), TrySendError<T>>) {
        MTx::try_send(self, shared, item, wakes)
    }

    fn send_timeout(
        &mut self,
        shared: &mut ChannelShared<T>,
        item: T,
        deadline: Option<u128>,
        thread: u64,
        wakes: &mut Vec<WakerType>,
    ) -> (step: SendStep<T>) {
        MTx::send_timeout(self, shared, item, deadline, thread, wakes)
    }
}

} // verus!
