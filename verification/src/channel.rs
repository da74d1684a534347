//! The state that the two sides of a channel share.

use vstd::prelude::*;

use crate::backoff::{Backoff, BackoffConfig, Pause};
use crate::collections::WakerTable;
use crate::locked_waker::{
    RecvWaker, SendWaker, WakerCache, WakerInner, WakerInnerGuard, WakerState, WakerTrait,
    WakerType,
};
use crate::model::{ChannelView, Serving};
use crate::protocol::{AttemptView, TriedStep, TryPhase};
use crate::queues::{BoundedQueue, ListQueue};
use crate::waker_registry::{Registry, RegistryKind, RegistryTrait, RegistryView};

verus! {

/// Where a channel keeps its messages.
#[verifier::reject_recursive_types(T)]
pub enum Channel<T> {
    /// Without a bound.
    List(ListQueue<T>),
    /// With a bound.
    Array(BoundedQueue<T>),
}

impl<T> View for Channel<T> {
    type V = Seq<T>;

    /// The messages, the oldest first.
    open spec fn view(&self) -> Seq<T> {
        match self {
            Channel::List(queue) => queue@,
            Channel::Array(queue) => queue@,
        }
    }
}

impl<T> Channel<T> {
    pub open spec fn bound(self) -> Option<usize> {
        match self {
            Channel::List(_) => None,
            Channel::Array(queue) => Some(queue.bound()),
        }
    }

    pub open spec fn wf(self) -> bool {
        match self {
            Channel::List(queue) => queue.wf(),
            Channel::Array(queue) => queue.wf(),
        }
    }

    /// Whether no further message fits in.
    pub open spec fn full(messages: nat, bound: Option<usize>) -> bool {
        match bound {
            Some(b) => messages >= b,
            None => false,
        }
    }

    pub fn new_list() -> (channel: Self)
        ensures
            channel.wf(),
            channel.bound() is None,
            channel@ == Seq::<T>::empty(),
    {
        Channel::List(ListQueue::new())
    }

    pub fn new_array(bound: usize) -> (channel: Self)
        requires
            crate::queues::valid_capacity(bound),
        ensures
            channel.wf(),
            channel.bound() == Some(bound),
            channel@ == Seq::<T>::empty(),
    {
        Channel::Array(BoundedQueue::new(bound))
    }

    pub fn get_bound(&self) -> (bound: Option<usize>)
        ensures
            bound == self.bound(),
    {
        match self {
            Channel::List(_) => None,
            Channel::Array(queue) => Some(queue.capacity()),
        }
    }

    pub fn len(&self) -> (len: usize)
        ensures
            len == self@.len(),
    {
        match self {
            Channel::List(queue) => queue.len(),
            Channel::Array(queue) => queue.len(),
        }
    }

    pub fn is_empty(&self) -> (empty: bool)
        ensures
            empty == (self@.len() == 0),
    {
        match self {
            Channel::List(queue) => queue.is_empty(),
            Channel::Array(queue) => queue.is_empty(),
        }
    }

    pub fn is_full(&self) -> (full: bool)
        requires
            self.wf(),
        ensures
            full == Self::full(self@.len(), self.bound()),
    {
        match self {
            Channel::Array(queue) => queue.is_full(),
            Channel::List(_) => false,
        }
    }

    /// Puts a message behind all others; gives it back if the channel is full.
    pub fn push(&mut self, item: T) -> (result: Result<(), T>)
        requires
            old(self).wf(),
        ensures
            final(self).wf(),
            final(self).bound() == old(self).bound(),
            Self::full(old(self)@.len(), old(self).bound()) ==> result == Err::<(), T>(item)
                && final(self)@ == old(self)@,
            !Self::full(old(self)@.len(), old(self).bound()) ==> result is Ok && final(self)@
                == old(self)@.push(item),
    {
        match self {
            Channel::List(queue) => {
                queue.push(item);
                Ok(())
            },
            Channel::Array(queue) => queue.push(item),
        }
    }

    /// Takes the oldest message out.
    pub fn pop(&mut self) -> (item: Option<T>)
        requires
            old(self).wf(),
        ensures
            final(self).wf(),
            final(self).bound() == old(self).bound(),
            old(self)@.len() > 0 ==> item == Some(old(self)@[0]) && final(self)@ == old(
                self,
            )@.drop_first(),
            old(self)@.len() == 0 ==> item is None && final(self)@ == old(self)@,
    {
        match self {
            Channel::List(queue) => queue.pop(),
            Channel::Array(queue) => queue.pop(),
        }
    }
}

/// How far a sender has got with trying again.
pub struct TryAgain {
    pub backoff: Backoff,
    pub phase: TryPhase,
}

impl View for TryAgain {
    type V = AttemptView;

    open spec fn view(&self) -> AttemptView {
        AttemptView {
            steps: self.backoff.steps(),
            conf: self.backoff.conf(),
            phase: self.phase,
        }
    }
}

impl TryAgain {
    pub open spec fn wf(self) -> bool {
        self.backoff.wf()
    }

    /// Pauses.
    fn pause(self, phase: TryPhase) -> (step: TryStep)
        requires
            self.wf(),
        ensures
            step.wf(),
            step@ == self@.pausing(phase),
    {
        let mut attempt = self;
        let pause = attempt.backoff.snooze();
        attempt.phase = phase;
        TryStep::Paused(pause, attempt)
    }
}

/// What trying again came to.
pub enum TryStep {
    /// The waker is in this state, and there is nothing more to try.
    Settled(u8),
    /// The caller yields if the pause says so, and goes on from there.
    Paused(Pause, TryAgain),
}

impl View for TryStep {
    type V = TriedStep;

    open spec fn view(&self) -> TriedStep {
        match self {
            TryStep::Settled(state) => TriedStep::Settled(*state),
            TryStep::Paused(pause, attempt) => TriedStep::Paused(*pause, attempt@),
        }
    }
}

impl TryStep {
    pub open spec fn wf(self) -> bool {
        self matches TryStep::Paused(_, attempt) ==> attempt.wf()
    }
}

/// What it comes to when a sender puts its message in by itself.
enum HandIn {
    /// The waker is in this state, and the wait is over.
    Settled(u8),
    /// There is no room, and the waker is in this state.
    NoRoom(u8),
    /// Somebody else has the waker locked.
    Locked,
}

/// What the senders and receivers of a channel share.
///
/// Each method is one critical section: it is given the whole state for as long as
/// it runs, and none but [`ChannelShared::try_lock_send_waker`] leaves a waker locked
/// that was not. It wakes nobody itself, but appends whom to wake to a list; the
/// caller wakes them once the state is given back.
#[verifier::reject_recursive_types(T)]
pub struct ChannelShared<T> {
    closed: bool,
    tx_count: usize,
    rx_count: usize,
    inner: Channel<T>,
    pub(crate) senders: Registry,
    pub(crate) recvs: Registry,
    pub(crate) send_wakers: WakerTable<Option<T>>,
    pub(crate) recv_wakers: WakerTable<()>,
    pub(crate) bound_size: Option<usize>,
    backoff_tx: u32,
    backoff_rx: u32,
    pub(crate) tx_control: bool,
}

impl<T> View for ChannelShared<T> {
    type V = ChannelView<T>;

    closed spec fn view(&self) -> ChannelView<T> {
        ChannelView {
            closed: self.closed,
            tx_count: self.tx_count,
            rx_count: self.rx_count,
            queue: self.inner@,
            bound: self.inner.bound(),
            senders: self.senders.registry(),
            recvs: self.recvs.registry(),
            send_wakers: self.send_wakers@,
            recv_wakers: self.recv_wakers@,
            next_send: self.send_wakers.next_id(),
            next_recv: self.recv_wakers.next_id(),
            backoff_tx: self.backoff_tx,
            backoff_rx: self.backoff_rx,
            tx_control: self.tx_control,
        }
    }
}

impl<T> ChannelShared<T> {
    /// The parts are well-formed, and agree.
    pub closed spec fn consistent(self) -> bool {
        &&& self.inner.wf()
        &&& self.send_wakers.wf()
        &&& self.recv_wakers.wf()
        &&& self.bound_size == self.inner.bound()
    }

    pub open spec fn wf(self) -> bool {
        self.consistent() && self@.wf()
    }

    /// Well-formed, though senders may hold the locks of their wakers.
    pub open spec fn sound(self) -> bool {
        self.consistent() && self@.sound()
    }

    pub fn new(inner: Channel<T>, senders: Registry, recvs: Registry) -> (shared: Self)
        requires
            inner.wf(),
        ensures
            shared.wf(),
            shared@ == ChannelView::initial(
                inner@,
                inner.bound(),
                senders.registry(),
                recvs.registry(),
            ),
    {
        ChannelShared {
            closed: false,
            tx_count: 1,
            rx_count: 1,
            senders,
            recvs,
            bound_size: inner.get_bound(),
            inner,
            send_wakers: WakerTable::new(),
            recv_wakers: WakerTable::new(),
            backoff_tx: BackoffConfig::default().to_u32(),
            backoff_rx: BackoffConfig::default().to_u32(),
            tx_control: false,
        }
    }

    /// Puts a message behind all others; gives it back if the channel is full.
    pub fn try_send(&mut self, item: T) -> (result: Result<(), T>)
        requires
            old(self).sound(),
        ensures
            final(self).sound(),
            old(self).wf() ==> final(self).wf(),
            old(self)@.full() ==> result == Err::<(), T>(item) && final(self)@ == old(self)@,
            !old(self)@.full() ==> result is Ok && final(self)@ == old(self)@.pushed(item),
    {
        self.inner.push(item)
    }

    /// Takes the oldest message out.
    pub fn try_recv(&mut self) -> (item: Option<T>)
        requires
            old(self).sound(),
        ensures
            final(self).sound(),
            old(self).wf() ==> final(self).wf(),
            item == (if old(self)@.queue.len() > 0 {
                Some(old(self)@.queue[0])
            } else {
                None
            }),
            final(self)@ == old(self)@.received(),
    {
        self.inner.pop()
    }

    /// The number of messages in the channel at the moment.
    pub fn len(&self) -> (len: usize)
        ensures
            len == self@.queue.len(),
    {
        self.inner.len()
    }

    /// Whether the channel is empty at the moment.
    pub fn is_empty(&self) -> (empty: bool)
        ensures
            empty == (self@.queue.len() == 0),
    {
        self.inner.is_empty()
    }

    /// Whether the channel is full at the moment.
    pub fn is_full(&self) -> (full: bool)
        requires
            self.sound(),
        ensures
            full == self@.full(),
    {
        self.inner.is_full()
    }

    /// Whether all the senders or all the receivers are gone.
    pub fn is_disconnected(&self) -> (closed: bool)
        ensures
            closed == self@.closed,
    {
        self.closed
    }

    /// The number of senders.
    pub fn get_tx_count(&self) -> (count: usize)
        ensures
            count == self@.tx_count,
    {
        self.tx_count
    }

    /// The number of receivers.
    pub fn get_rx_count(&self) -> (count: usize)
        ensures
            count == self@.rx_count,
    {
        self.rx_count
    }

    /// The lengths of the two registries, for debugging.
    pub fn get_wakers_count(&self) -> (counts: (usize, usize))
        ensures
            counts.0 == self@.senders.reported_len(),
            counts.1 == self@.recvs.reported_len(),
    {
        (self.senders.len(), self.recvs.len())
    }

    /// Wakes the foremost receiver that waits.
    pub fn on_send(&mut self, wakes: &mut Vec<WakerType>)
        requires
            old(self).sound(),
        ensures
            final(self).sound(),
            old(self).wf() ==> final(self).wf(),
            final(self)@ == old(self)@.announced(),
            final(wakes)@ == old(wakes)@ + old(self)@.announce_wakes(),
    {
        loop
            invariant
                self.sound(),
                self@ == (ChannelView {
                    recvs: old(self)@.recvs.with_entries(self@.recvs.entries),
                    ..old(self)@
                }),
                self@.announced() == old(self)@.announced(),
                self@.announce_wakes() == old(self)@.announce_wakes(),
                wakes@ == old(wakes)@,
            decreases self@.recvs.entries.len(),
        {
            let ghost before = self@;
            proof {
                crate::waker_registry::lemma_pop_step(before.recvs, before.recv_wakers);
            }
            match self.recvs.pop::<RecvWaker>(&self.recv_wakers) {
                Some(waker) => {
                    if crate::locked_waker::wake_weak(
                        &mut self.recv_wakers,
                        waker.weak(),
                        wakes,
                    ) {
                        assert(self@ == before.announced());
                        return;
                    }
                },
                None => {
                    assert(self@ == before.announced());
                    return;
                },
            }
        }
    }

    /// Serves a sender that waits: takes its message over if there is room, else
    /// has it try again. Returns whether it was woken: one that does not wait is
    /// passed over. A sender that is trying by itself cannot be served at the
    /// moment: the error is the pause after which the caller tries once more.
    pub fn on_recv_try_send(
        &mut self,
        waker: &SendWaker<T>,
        backoff: &mut Backoff,
        wakes: &mut Vec<WakerType>,
    ) -> (woken: Result<bool, Pause>)
        requires
            old(self).sound(),
            old(self)@.send_wakers.contains_key(waker.key()),
            old(backoff).wf(),
        ensures
            final(self).sound(),
            old(self).wf() ==> final(self).wf(),
            final(backoff).wf(),
            final(backoff).conf() == old(backoff).conf(),
            woken == (match old(self)@.serving(waker.key()) {
                Serving::Woken => Ok(true),
                Serving::Passed => Ok(false),
                Serving::Busy => Err(old(backoff).next_pause()),
            }),
            final(self)@ == old(self)@.served(waker.key()),
            final(wakes)@ == old(wakes)@ + old(self)@.serve_wakes(waker.key()),
            final(backoff).steps() == (if woken is Err {
                crate::backoff::step_after(old(backoff).steps())
            } else {
                old(backoff).steps()
            }),
    {
        let id: u64 = waker.weak();
        let ghost before = self@;
        let mut inner = self.send_wakers.take(id);
        if let Some(guard) = inner.try_lock() {
            if guard.0.state >= WakerState::WAKED.code() {
                guard.release();
                self.send_wakers.put(id, inner);
                assert(self@ == before);
                return Ok(false);
            }
            // The state is checked under the lock: nobody changes it now.
            let item = guard.0.payload.take().unwrap();
            match self.inner.push(item) {
                Ok(()) => {
                    guard.0.set_state(WakerState::DONE);
                    guard.0._wake(true, wakes);
                    guard.release();
                    self.send_wakers.put(id, inner);
                    assert(self@ == before.taken_over(id));
                    self.on_send(wakes);
                },
                Err(item) => {
                    // Still full: the sender has to register again.
                    guard.0.payload = Some(item);
                    guard.0.set_state(WakerState::WAKED);
                    guard.0._wake(true, wakes);
                    guard.release();
                    self.send_wakers.put(id, inner);
                    assert(self@ == before.served(id));
                },
            }
            Ok(true)
        } else {
            let state: u8 = inner.state;
            self.send_wakers.put(id, inner);
            assert(self@ == before);
            if state >= WakerState::WAKED.code() {
                return Ok(false);
            }
            // The sender is trying by itself: to wake it now would be wrong.
            Err(backoff.snooze())
        }
    }

    /// Serves the foremost sender that waits.
    pub fn on_recv(&mut self, wakes: &mut Vec<WakerType>)
        requires
            old(self).sound(),
            old(self)@.can_serve(),
        ensures
            final(self).sound(),
            old(self).wf() ==> final(self).wf(),
            final(self)@ == old(self)@.made_room(),
            final(wakes)@ == old(wakes)@ + old(self)@.room_wakes(),
    {
        loop
            invariant
                self.sound(),
                old(self).wf() ==> self.wf(),
                self@.can_serve(),
                self@ == (ChannelView {
                    senders: old(self)@.senders.with_entries(self@.senders.entries),
                    ..old(self)@
                }),
                self@.made_room() == old(self)@.made_room(),
                self@.room_wakes() == old(self)@.room_wakes(),
                wakes@ == old(wakes)@,
            decreases self@.senders.entries.len(),
        {
            let ghost before = self@;
            proof {
                crate::waker_registry::lemma_pop_step(before.senders, before.send_wakers);
            }
            match self.senders.pop::<SendWaker<T>>(&self.send_wakers) {
                Some(waker) => {
                    let mut backoff = Backoff::new(BackoffConfig::default());
                    if let Ok(true) = self.on_recv_try_send(&waker, &mut backoff, wakes) {
                        assert(self@ == before.made_room());
                        return;
                    }
                },
                None => {
                    assert(self@ == before.made_room());
                    return;
                },
            }
        }
    }

    /// Tells everybody who waits that the channel is closed.
    fn _close_all(&mut self, wakes: &mut Vec<WakerType>)
        requires
            old(self).sound(),
            old(self)@.can_shut(),
        ensures
            final(self).sound(),
            old(self).wf() ==> final(self).wf(),
            final(self)@ == old(self)@.shut(),
            final(wakes)@ == old(wakes)@ + old(self)@.shut_wakes(),
    {
        self.close_recvs(wakes);
        self.close_senders(wakes);
        assert(self@ == old(self)@.shut());
    }

    fn close_recvs(&mut self, wakes: &mut Vec<WakerType>)
        requires
            old(self).sound(),
        ensures
            final(self).sound(),
            old(self).wf() ==> final(self).wf(),
            final(self)@ == (ChannelView {
                recvs: old(self)@.recvs.with_entries(Seq::empty()),
                recv_wakers: RegistryView::moved_all(
                    old(self)@.recvs.entries,
                    old(self)@.recv_wakers,
                    WakerState::CLOSED,
                ),
                ..old(self)@
            }),
            final(wakes)@ == old(wakes)@ + RegistryView::targets(
                old(self)@.recvs.entries,
                old(self)@.recv_wakers,
                WakerState::CLOSED,
            ),
    {
        loop
            invariant
                self.sound(),
                old(self).wf() ==> self.wf(),
                self@ == (ChannelView {
                    recvs: old(self)@.recvs.with_entries(self@.recvs.entries),
                    recv_wakers: self@.recv_wakers,
                    ..old(self)@
                }),
                RegistryView::moved_all(
                    self@.recvs.entries,
                    self@.recv_wakers,
                    WakerState::CLOSED,
                ) == RegistryView::moved_all(
                    old(self)@.recvs.entries,
                    old(self)@.recv_wakers,
                    WakerState::CLOSED,
                ),
                wakes@ + RegistryView::targets(
                    self@.recvs.entries,
                    self@.recv_wakers,
                    WakerState::CLOSED,
                ) == old(wakes)@ + RegistryView::targets(
                    old(self)@.recvs.entries,
                    old(self)@.recv_wakers,
                    WakerState::CLOSED,
                ),
            decreases self@.recvs.entries.len(),
        {
            proof {
                crate::waker_registry::lemma_pop_step(self@.recvs, self@.recv_wakers);
                crate::waker_registry::lemma_pop_move(
                    self@.recvs,
                    self@.recv_wakers,
                    WakerState::CLOSED,
                );
            }
            match self.recvs.pop::<RecvWaker>(&self.recv_wakers) {
                Some(waker) => {
                    crate::locked_waker::close_weak(&mut self.recv_wakers, waker.weak(), wakes);
                },
                None => {
                    return;
                },
            }
        }
    }

    fn close_senders(&mut self, wakes: &mut Vec<WakerType>)
        requires
            old(self).sound(),
            old(self)@.can_shut(),
        ensures
            final(self).sound(),
            old(self).wf() ==> final(self).wf(),
            final(self)@ == (ChannelView {
                senders: old(self)@.senders.with_entries(Seq::empty()),
                send_wakers: RegistryView::moved_all(
                    old(self)@.senders.entries,
                    old(self)@.send_wakers,
                    WakerState::CLOSED,
                ),
                ..old(self)@
            }),
            final(wakes)@ == old(wakes)@ + RegistryView::targets(
                old(self)@.senders.entries,
                old(self)@.send_wakers,
                WakerState::CLOSED,
            ),
    {
        loop
            invariant
                self.sound(),
                old(self).wf() ==> self.wf(),
                self@.can_shut(),
                self@ == (ChannelView {
                    senders: old(self)@.senders.with_entries(self@.senders.entries),
                    send_wakers: self@.send_wakers,
                    ..old(self)@
                }),
                RegistryView::moved_all(
                    self@.senders.entries,
                    self@.send_wakers,
                    WakerState::CLOSED,
                ) == RegistryView::moved_all(
                    old(self)@.senders.entries,
                    old(self)@.send_wakers,
                    WakerState::CLOSED,
                ),
                wakes@ + RegistryView::targets(
                    self@.senders.entries,
                    self@.send_wakers,
                    WakerState::CLOSED,
                ) == old(wakes)@ + RegistryView::targets(
                    old(self)@.senders.entries,
                    old(self)@.send_wakers,
                    WakerState::CLOSED,
                ),
            decreases self@.senders.entries.len(),
        {
            proof {
                crate::waker_registry::lemma_pop_step(self@.senders, self@.send_wakers);
                crate::waker_registry::lemma_pop_move(
                    self@.senders,
                    self@.send_wakers,
                    WakerState::CLOSED,
                );
                crate::waker_registry::lemma_can_wake_behind(
                    self@.senders.entries,
                    self@.send_wakers,
                    RegistryView::first_index(
                        self@.senders.entries,
                        RegistryView::lives_in(self@.send_wakers),
                    ),
                    self@.senders.next_live(self@.send_wakers)->0,
                    WakerState::CLOSED,
                );
            }
            match self.senders.pop::<SendWaker<T>>(&self.send_wakers) {
                Some(waker) => {
                    crate::locked_waker::close_weak(&mut self.send_wakers, waker.weak(), wakes);
                },
                None => {
                    return;
                },
            }
        }
    }

    /// A sender is gone. With the last one the channel is closed.
    pub fn close_tx(&mut self, wakes: &mut Vec<WakerType>)
        requires
            old(self).sound(),
            old(self)@.tx_count <= 1 ==> old(self)@.can_shut(),
        ensures
            final(self).sound(),
            old(self).wf() ==> final(self).wf(),
            final(self)@ == old(self)@.without_tx(),
            final(wakes)@ == old(wakes)@ + (if old(self)@.tx_count <= 1 {
                old(self)@.shut_wakes()
            } else {
                Seq::empty()
            }),
    {
        let count: usize = self.tx_count;
        self.tx_count = count.wrapping_sub(1);
        if count <= 1 {
            self.closed = true;
            self._close_all(wakes);
        }
    }

    /// A receiver is gone. With the last one the channel is closed.
    pub fn close_rx(&mut self, wakes: &mut Vec<WakerType>)
        requires
            old(self).sound(),
            old(self)@.rx_count <= 1 ==> old(self)@.can_shut(),
        ensures
            final(self).sound(),
            old(self).wf() ==> final(self).wf(),
            final(self)@ == old(self)@.without_rx(),
            final(wakes)@ == old(wakes)@ + (if old(self)@.rx_count <= 1 {
                old(self)@.shut_wakes()
            } else {
                Seq::empty()
            }),
    {
        let count: usize = self.rx_count;
        self.rx_count = count.wrapping_sub(1);
        if count <= 1 {
            self.closed = true;
            self._close_all(wakes);
        }
    }

    /// Tunes the channel to the number of threads on each side, on a machine that
    /// runs `avail` at once.
    fn auto_config(&mut self, avail: usize)
        requires
            old(self).sound(),
            old(self)@.tx_count + old(self)@.rx_count <= usize::MAX,
            avail < usize::MAX,
        ensures
            final(self).sound(),
            old(self).wf() ==> final(self).wf(),
            final(self)@ == old(self)@.configured(avail),
    {
        let congest = if self.bound_size.is_none() {
            false
        } else {
            self.tx_count > self.rx_count
        };
        self.tx_control = congest;
        crate::tuning::determine_backoff(&mut self.backoff_tx, self.tx_count, self.rx_count, avail);
        crate::tuning::determine_backoff(&mut self.backoff_rx, self.rx_count, self.tx_count, avail);
    }

    /// There is a further sender.
    pub fn add_tx(&mut self, avail: usize)
        requires
            old(self).sound(),
            old(self)@.tx_count + 1 + old(self)@.rx_count <= usize::MAX,
            avail < usize::MAX,
        ensures
            final(self).sound(),
            old(self).wf() ==> final(self).wf(),
            final(self)@ == (ChannelView {
                tx_count: (old(self)@.tx_count + 1) as usize,
                ..old(self)@
            }).configured(avail),
    {
        self.tx_count = self.tx_count + 1;
        self.auto_config(avail);
    }

    /// There is a further receiver.
    pub fn add_rx(&mut self, avail: usize)
        requires
            old(self).sound(),
            old(self)@.tx_count + old(self)@.rx_count + 1 <= usize::MAX,
            avail < usize::MAX,
        ensures
            final(self).sound(),
            old(self).wf() ==> final(self).wf(),
            final(self)@ == (ChannelView {
                rx_count: (old(self)@.rx_count + 1) as usize,
                ..old(self)@
            }).configured(avail),
    {
        self.rx_count = self.rx_count + 1;
        self.auto_config(avail);
    }

    /// The backoff that senders are to use.
    pub fn get_backoff_tx(&self) -> (config: BackoffConfig)
        ensures
            config == BackoffConfig::unpacked(self@.backoff_tx),
    {
        crate::tuning::load_backoff(self.backoff_tx)
    }

    /// The backoff that receivers are to use.
    pub fn get_backoff_rx(&self) -> (config: BackoffConfig)
        ensures
            config == BackoffConfig::unpacked(self@.backoff_rx),
    {
        crate::tuning::load_backoff(self.backoff_rx)
    }

    /// Registers the waker of a sending task.
    pub fn reg_send_async(&mut self, waker: &SendWaker<T>) -> (result: Result<(), u8>)
        requires
            old(self).sound(),
            old(self)@.senders.kind != RegistryKind::Dummy,
            old(self)@.send_wakers.contains_key(waker.key()),
            old(self)@.send_wakers[waker.key()].state == WakerState::WAKED.code() ==> old(
                self,
            )@.send_wakers[waker.key()].payload is Some,
        ensures
            final(self).sound(),
            old(self).wf() ==> final(self).wf(),
            result == RegistryView::registration(old(self)@.send_wakers[waker.key()].state),
            final(self)@ == old(self)@.send_registered(waker.key()),
    {
        self.senders.reg_async(waker, &mut self.send_wakers)
    }

    /// Registers the waker of a sending thread.
    pub fn reg_send_blocking(&mut self, waker: &SendWaker<T>) -> (result: Result<(), u8>)
        requires
            old(self).sound(),
            old(self)@.senders.kind != RegistryKind::Dummy,
            old(self)@.send_wakers.contains_key(waker.key()),
            old(self)@.send_wakers[waker.key()].state == WakerState::WAKED.code() ==> old(
                self,
            )@.send_wakers[waker.key()].payload is Some,
        ensures
            final(self).sound(),
            old(self).wf() ==> final(self).wf(),
            result == RegistryView::registration(old(self)@.send_wakers[waker.key()].state),
            final(self)@ == old(self)@.send_registered(waker.key()),
    {
        self.senders.reg_blocking(waker, &mut self.send_wakers)
    }

    /// Registers the waker of a receiving task.
    pub fn reg_recv_async(&mut self, waker: &RecvWaker) -> (result: Result<(), u8>)
        requires
            old(self).sound(),
            old(self)@.recvs.kind != RegistryKind::Dummy,
            old(self)@.recv_wakers.contains_key(waker.key()),
        ensures
            final(self).sound(),
            old(self).wf() ==> final(self).wf(),
            result == RegistryView::registration(old(self)@.recv_wakers[waker.key()].state),
            final(self)@ == old(self)@.recv_registered(waker.key()),
    {
        self.recvs.reg_async(waker, &mut self.recv_wakers)
    }

    /// Registers the waker of a receiving thread.
    pub fn reg_recv_blocking(&mut self, waker: &RecvWaker) -> (result: Result<(), u8>)
        requires
            old(self).sound(),
            old(self)@.recvs.kind != RegistryKind::Dummy,
            old(self)@.recv_wakers.contains_key(waker.key()),
        ensures
            final(self).sound(),
            old(self).wf() ==> final(self).wf(),
            result == RegistryView::registration(old(self)@.recv_wakers[waker.key()].state),
            final(self)@ == old(self)@.recv_registered(waker.key()),
    {
        self.recvs.reg_blocking(waker, &mut self.recv_wakers)
    }

    /// The receiver got its message: if it was still waiting, it is done.
    pub fn recv_waker_done(&mut self, waker: &RecvWaker)
        requires
            old(self).sound(),
            old(self)@.recv_wakers.contains_key(waker.key()),
        ensures
            final(self).sound(),
            old(self).wf() ==> final(self).wf(),
            final(self)@ == old(self)@.recv_done(waker.key()),
    {
        if waker.get_state(&self.recv_wakers) == WakerState::WAITING.code() {
            let id: u64 = waker.weak();
            let mut inner = self.recv_wakers.take(id);
            inner.set_state(WakerState::DONE);
            self.recv_wakers.put(id, inner);
            self.recvs.withdraw(waker);
            assert(self@ == old(self)@.recv_done(id));
        }
    }

    /// A sender gives up. Returns its message; nothing if it was taken already.
    pub fn abandon_send_waker(&mut self, waker: SendWaker<T>, wakes: &mut Vec<WakerType>) -> (item:
        Option<T>)
        requires
            old(self).sound(),
            old(self)@.send_wakers.contains_key(waker.key()),
            old(self)@.can_abandon(waker.key()),
        ensures
            final(self).sound(),
            old(self).wf() ==> final(self).wf(),
            final(self)@ == old(self)@.send_abandoned(waker.key()),
            final(wakes)@ == old(wakes)@ + old(self)@.send_abandon_wakes(waker.key()),
            item == old(self)@.send_wakers[waker.key()].payload,
    {
        let id: u64 = waker.weak();
        let ghost before = self@;
        let mut inner = self.send_wakers.take(id);
        let state: u8 = inner.abandon();
        self.send_wakers.put(id, inner);
        assert(self@ == (ChannelView {
            send_wakers: WakerInner::after_move(before.send_wakers, id, WakerState::CLOSED),
            ..before
        }));
        if state == WakerState::CLOSED.code() {
            let seq: usize = waker.get_seq(&self.send_wakers);
            self.senders.clear_wakers::<SendWaker<T>>(seq, &mut self.send_wakers, wakes);
        } else if state == WakerState::DONE.code() {
        } else {
            // It was woken for a room that it does not take: another may.
            self.on_recv(wakes);
        }
        self.send_wakers.take(id).payload
    }

    /// A receiver gives up. Returns false if its operation was done already.
    pub fn abandon_recv_waker(&mut self, waker: RecvWaker, wakes: &mut Vec<WakerType>) -> (cancelled:
        bool)
        requires
            old(self).sound(),
            old(self)@.recv_wakers.contains_key(waker.key()),
        ensures
            final(self).sound(),
            old(self).wf() ==> final(self).wf(),
            final(self)@ == old(self)@.recv_abandoned(waker.key()),
            final(wakes)@ == old(wakes)@ + old(self)@.recv_abandon_wakes(waker.key()),
            cancelled == (old(self)@.recv_wakers[waker.key()].state != WakerState::DONE.code()),
    {
        let id: u64 = waker.weak();
        let ghost before = self@;
        let mut inner = self.recv_wakers.take(id);
        let state: u8 = inner.abandon();
        self.recv_wakers.put(id, inner);
        assert(self@ == (ChannelView {
            recv_wakers: WakerInner::after_move(before.recv_wakers, id, WakerState::CLOSED),
            ..before
        }));
        let cancelled = if state == WakerState::CLOSED.code() {
            let seq: usize = waker.get_seq(&self.recv_wakers);
            self.clear_recv_wakers(seq, wakes);
            true
        } else if state == WakerState::DONE.code() {
            false
        } else {
            // It was woken for a message that it does not take: another may.
            self.on_send(wakes);
            true
        };
        self.recv_wakers.take(id);
        cancelled
    }

    /// Clears the receivers' registry for one that gave up.
    pub fn clear_recv_wakers(&mut self, seq: usize, wakes: &mut Vec<WakerType>)
        requires
            old(self).sound(),
        ensures
            final(self).sound(),
            old(self).wf() ==> final(self).wf(),
            final(self)@ == old(self)@.recvs_cleared(seq),
            final(wakes)@ == old(wakes)@ + old(self)@.recvs_clear_wakes(seq),
    {
        proof {
            crate::waker_registry::lemma_moved_unlocked(
                self@.recvs.clear_hits(self@.recv_wakers, seq),
                self@.recv_wakers,
                WakerState::WAKED,
            );
        }
        self.recvs.clear_wakers::<RecvWaker>(seq, &mut self.recv_wakers, wakes);
    }

    /// The number of steps for which a sending task is to back off, in the runtime
    /// it runs in. Outside of any the bound alone decides.
    pub fn detect_async_backoff_tx(&self) -> (steps: i8)
        requires
            self.sound(),
        ensures
            exists|workers: Option<usize>|
                steps == #[trigger] crate::tuning::async_steps_tx(self@.bound, workers),
    {
        let workers = crate::tuning::runtime_workers();
        crate::tuning::async_backoff_tx(self.bound_size, workers)
    }

    /// The number of steps for which a receiving task is to back off, alike.
    pub fn detect_async_backoff_rx(&self) -> (steps: i8)
        requires
            self.sound(),
        ensures
            exists|workers: Option<usize>|
                steps == #[trigger] crate::tuning::async_steps_rx(self@.bound, workers),
    {
        let workers = crate::tuning::runtime_workers();
        crate::tuning::async_backoff_rx(self.bound_size, workers)
    }

    /// A registered sender tries to put its message in by itself: a task, in its
    /// context (`ctx`), or a thread. A thread that finds no room pauses for a while
    /// before it gives up trying; see [`ChannelShared::sender_try_on`].
    pub fn sender_try_again(
        &mut self,
        waker: &SendWaker<T>,
        ctx: Option<u64>,
        fastpath: bool,
        backoff_conf: BackoffConfig,
        wakes: &mut Vec<WakerType>,
    ) -> (step: TryStep)
        requires
            old(self).sound(),
            old(self)@.pending(waker.key()),
            ctx is Some ==> old(self)@.send_wakers[waker.key()].waker is Async,
        ensures
            final(self).sound(),
            old(self).wf() ==> final(self).wf(),
            step.wf(),
            ({
                let tried = old(self)@.tried(waker.key(), ctx, fastpath, backoff_conf);
                &&& final(self)@ == tried.shared
                &&& final(wakes)@ == old(wakes)@ + tried.wakes
                &&& step@ == tried.step
            }),
    {
        let id: u64 = waker.weak();
        if self.is_disconnected() {
            // Else the sender would wait for receivers that are gone.
            let mut inner = self.send_wakers.take(id);
            let changed = inner.try_change_state(WakerState::WAITING, WakerState::CLOSED);
            self.send_wakers.put(id, inner);
            assert(self@ == old(self)@.found_closed(id).shared);
            return match changed {
                Err(state) => TryStep::Settled(state),
                Ok(()) => TryStep::Settled(WakerState::CLOSED.code()),
            };
        }
        let attempt = TryAgain { backoff: Backoff::new(backoff_conf), phase: TryPhase::Retry };
        if let Some(task) = ctx {
            return self.sender_attempt_async(waker, task, attempt, wakes);
        }
        if !fastpath {
            return attempt.pause(TryPhase::Retry);
        }
        self.sender_attempt(waker, attempt, wakes)
    }

    /// A sender goes on trying after a pause.
    pub fn sender_try_on(
        &mut self,
        waker: &SendWaker<T>,
        attempt: TryAgain,
        wakes: &mut Vec<WakerType>,
    ) -> (step: TryStep)
        requires
            old(self).sound(),
            old(self)@.pending(waker.key()),
            attempt.wf(),
            attempt.phase is Lock ==> old(self)@.send_wakers[waker.key()].waker is Async,
        ensures
            final(self).sound(),
            old(self).wf() ==> final(self).wf(),
            step.wf(),
            ({
                let tried = old(self)@.try_on(waker.key(), attempt@);
                &&& final(self)@ == tried.shared
                &&& final(wakes)@ == old(wakes)@ + tried.wakes
                &&& step@ == tried.step
            }),
    {
        match attempt.phase {
            TryPhase::Lock(task) => self.sender_attempt_async(waker, task, attempt, wakes),
            TryPhase::Watch => self.sender_watch(waker, attempt),
            TryPhase::Retry => {
                let state: u8 = waker.get_state(&self.send_wakers);
                if state >= WakerState::WAKED.code() {
                    return TryStep::Settled(state);
                }
                self.sender_attempt(waker, attempt, wakes)
            },
        }
    }

    fn sender_attempt(
        &mut self,
        waker: &SendWaker<T>,
        attempt: TryAgain,
        wakes: &mut Vec<WakerType>,
    ) -> (step: TryStep)
        requires
            old(self).sound(),
            old(self)@.pending(waker.key()),
            attempt.wf(),
        ensures
            final(self).sound(),
            old(self).wf() ==> final(self).wf(),
            step.wf(),
            ({
                let tried = old(self)@.attempted(waker.key(), attempt@);
                &&& final(self)@ == tried.shared
                &&& final(wakes)@ == old(wakes)@ + tried.wakes
                &&& step@ == tried.step
            }),
    {
        if !self.is_full() {
            if let HandIn::Settled(state) = self.hand_in(waker, None, wakes) {
                return TryStep::Settled(state);
            }
        }
        self.sender_watch(waker, attempt)
    }

    fn sender_attempt_async(
        &mut self,
        waker: &SendWaker<T>,
        task: u64,
        attempt: TryAgain,
        wakes: &mut Vec<WakerType>,
    ) -> (step: TryStep)
        requires
            old(self).sound(),
            old(self)@.pending(waker.key()),
            old(self)@.send_wakers[waker.key()].waker is Async,
            attempt.wf(),
        ensures
            final(self).sound(),
            old(self).wf() ==> final(self).wf(),
            step.wf(),
            ({
                let tried = old(self)@.attempted_async(waker.key(), task, attempt@);
                &&& final(self)@ == tried.shared
                &&& final(wakes)@ == old(wakes)@ + tried.wakes
                &&& step@ == tried.step
            }),
    {
        match self.hand_in(waker, Some(task), wakes) {
            HandIn::Settled(state) => TryStep::Settled(state),
            HandIn::NoRoom(state) => TryStep::Settled(state),
            HandIn::Locked => attempt.pause(TryPhase::Lock(task)),
        }
    }

    /// A sender does not contend with receivers for its lock: it looks at its
    /// state, and pauses. In the end it had better park.
    fn sender_watch(&self, waker: &SendWaker<T>, attempt: TryAgain) -> (step: TryStep)
        requires
            self.sound(),
            self@.pending(waker.key()),
            attempt.wf(),
        ensures
            step.wf(),
            step@ == self@.watched(waker.key(), attempt@).step,
    {
        let inner = self.send_wakers.get(waker.weak());
        let state: u8 = inner.get_state_relaxed();
        if state < WakerState::WAKED.code() {
            if attempt.backoff.is_completed() && !inner.is_locked() {
                return TryStep::Settled(state);
            }
            return attempt.pause(TryPhase::Watch);
        }
        TryStep::Settled(state)
    }

    /// Puts the message of a sender in, under the lock of its waker, if its wait is
    /// not over and there is room. If there is none, a task has its waker renewed.
    fn hand_in(
        &mut self,
        waker: &SendWaker<T>,
        ctx: Option<u64>,
        wakes: &mut Vec<WakerType>,
    ) -> (result: HandIn)
        requires
            old(self).sound(),
            old(self)@.pending(waker.key()),
            ctx is Some ==> old(self)@.send_wakers[waker.key()].waker is Async,
        ensures
            final(self).sound(),
            old(self).wf() ==> final(self).wf(),
            ({
                let id = waker.key();
                let inner = old(self)@.send_wakers[id];
                if inner.locked {
                    &&& result == HandIn::Locked
                    &&& final(self)@ == old(self)@
                    &&& final(wakes)@ == old(wakes)@
                } else if inner.state >= WakerState::DONE.code() {
                    &&& result == HandIn::Settled(inner.state)
                    &&& final(self)@ == old(self)@
                    &&& final(wakes)@ == old(wakes)@
                } else if old(self)@.full() {
                    &&& result == HandIn::NoRoom(inner.state)
                    &&& final(self)@ == (match ctx {
                        Some(task) => old(self)@.with_send_waker(
                            id,
                            (WakerInner { waker: WakerType::Async(task), ..inner }),
                        ),
                        None => old(self)@,
                    })
                    &&& final(wakes)@ == old(wakes)@
                } else {
                    &&& result == HandIn::Settled(WakerState::DONE.code())
                    &&& final(self)@ == old(self)@.handed_in(id)
                    &&& final(wakes)@ == old(wakes)@ + old(self)@.taken_over(id).announce_wakes()
                }
            }),
    {
        let id: u64 = waker.weak();
        let ghost before = self@;
        let mut inner = self.send_wakers.take(id);
        let result = if let Some(guard) = inner.try_lock() {
            let state: u8 = guard.0.state;
            if state >= WakerState::DONE.code() {
                guard.release();
                self.send_wakers.put(id, inner);
                assert(self@ == before);
                return HandIn::Settled(state);
            }
            let item = guard.0.payload.take().unwrap();
            match self.inner.push(item) {
                Ok(()) => {
                    guard.0.set_state(WakerState::DONE);
                    guard.release();
                    self.send_wakers.put(id, inner);
                    assert(self@ == before.taken_over(id));
                    if state == WakerState::WAITING.code() {
                        self.senders.withdraw(waker);
                    }
                    self.on_send(wakes);
                    return HandIn::Settled(WakerState::DONE.code());
                },
                Err(item) => {
                    guard.0.payload = Some(item);
                    if let Some(task) = ctx {
                        guard.0.check_waker(task, true);
                    }
                    guard.release();
                },
            }
            HandIn::NoRoom(state)
        } else {
            HandIn::Locked
        };
        self.send_wakers.put(id, inner);
        proof {
            if result is NoRoom && ctx is Some {
                assert(self@ == before.with_send_waker(
                    id,
                    WakerInner { waker: WakerType::Async(ctx->0), ..before.send_wakers[id] },
                ));
            } else {
                assert(self@ == before);
            }
        }
        result
    }

    /// Whether a further sender can wait.
    pub fn has_waker_room(&self) -> (room: bool)
        ensures
            room == (self@.next_send < u64::MAX),
    {
        self.send_wakers.has_room()
    }

    /// Whether no sender is queued.
    pub fn no_sender_waits(&self) -> (empty: bool)
        ensures
            empty == (self@.senders.reported_len() == 0),
    {
        self.senders.is_empty()
    }

    /// Whether senders are to queue behind those that wait.
    pub fn is_congested(&self) -> (congested: bool)
        ensures
            congested == self@.tx_control,
    {
        self.tx_control
    }

    pub fn get_bound_size(&self) -> (bound: Option<usize>)
        requires
            self.sound(),
        ensures
            bound == self@.bound,
    {
        self.bound_size
    }

    /// Locks a sender's waker if it is not locked, and returns whether it was locked
    /// just now. Nobody else serves the sender until it is unlocked.
    pub fn try_lock_send_waker(&mut self, waker: &SendWaker<T>) -> (locked: bool)
        requires
            old(self).sound(),
            old(self)@.send_wakers.contains_key(waker.key()),
        ensures
            final(self).sound(),
            locked == !old(self)@.send_wakers[waker.key()].locked,
            final(self)@ == old(self)@.with_send_waker(
                waker.key(),
                (WakerInner { locked: true, ..old(self)@.send_wakers[waker.key()] }),
            ),
    {
        let id: u64 = waker.weak();
        let mut inner = self.send_wakers.take(id);
        let locked = inner.try_lock().is_some();
        self.send_wakers.put(id, inner);
        assert(self@ == old(self)@.with_send_waker(
            id,
            WakerInner { locked: true, ..old(self)@.send_wakers[id] },
        ));
        locked
    }

    /// Unlocks a sender's waker.
    pub fn unlock_send_waker(&mut self, waker: &SendWaker<T>)
        requires
            old(self).sound(),
            old(self)@.send_wakers.contains_key(waker.key()),
        ensures
            final(self).sound(),
            final(self)@ == old(self)@.with_send_waker(
                waker.key(),
                (WakerInner { locked: false, ..old(self)@.send_wakers[waker.key()] }),
            ),
    {
        let id: u64 = waker.weak();
        let mut inner = self.send_wakers.take(id);
        WakerInnerGuard(&mut inner).release();
        self.send_wakers.put(id, inner);
        assert(self@ == old(self)@.with_send_waker(
            id,
            WakerInner { locked: false, ..old(self)@.send_wakers[id] },
        ));
    }

    /// The state of a sender's waker.
    pub fn send_waker_state(&self, waker: &SendWaker<T>) -> (state: u8)
        requires
            self@.send_wakers.contains_key(waker.key()),
        ensures
            state == self@.send_wakers[waker.key()].state,
    {
        waker.get_state(&self.send_wakers)
    }

    /// Puts the message of a task that cannot send it at once into a new waker.
    pub fn new_send_async(&mut self, task: u64, item: T) -> (waker: SendWaker<T>)
        requires
            old(self).sound(),
            old(self)@.bound is Some,
            old(self)@.next_send < u64::MAX,
        ensures
            final(self).sound(),
            old(self).wf() ==> final(self).wf(),
            waker.key() == old(self)@.next_send,
            final(self)@ == old(self)@.with_new_send(WakerType::Async(task), item),
    {
        SendWaker::new_async(&mut self.send_wakers, task, Some(item))
    }

    /// A new waker for a task that receives.
    pub fn new_recv_async(&mut self, task: u64) -> (waker: RecvWaker)
        requires
            old(self).sound(),
            old(self)@.next_recv < u64::MAX,
        ensures
            final(self).sound(),
            old(self).wf() ==> final(self).wf(),
            waker.key() == old(self)@.next_recv,
            final(self)@ == old(self)@.with_new_recv(WakerType::Async(task)),
    {
        RecvWaker::new_async(&mut self.recv_wakers, task, ())
    }

    /// A new waker for a thread that receives.
    pub fn new_recv_blocking(&mut self, thread: u64) -> (waker: RecvWaker)
        requires
            old(self).sound(),
            old(self)@.next_recv < u64::MAX,
        ensures
            final(self).sound(),
            old(self).wf() ==> final(self).wf(),
            waker.key() == old(self)@.next_recv,
            final(self)@ == old(self)@.with_new_recv(WakerType::Blocking(thread)),
    {
        RecvWaker::new_blocking(&mut self.recv_wakers, thread, ())
    }

    /// The state of a receiver's waker.
    pub fn recv_waker_state(&self, waker: &RecvWaker) -> (state: u8)
        requires
            self@.recv_wakers.contains_key(waker.key()),
        ensures
            state == self@.recv_wakers[waker.key()].state,
    {
        waker.get_state(&self.recv_wakers)
    }

    /// Drops a receiver's waker.
    pub fn drop_recv_waker(&mut self, waker: RecvWaker)
        requires
            old(self).sound(),
            old(self)@.recv_wakers.contains_key(waker.key()),
        ensures
            final(self).sound(),
            old(self).wf() ==> final(self).wf(),
            final(self)@ == old(self)@.without_recv_waker(waker.key()),
    {
        self.recv_wakers.take(waker.weak());
    }

    /// Puts the message of a thread that cannot send it at once into a waker.
    pub fn acquire_send_waker(
        &mut self,
        cache: &mut WakerCache<SendWaker<T>>,
        thread: u64,
        item: T,
    ) -> (waker: SendWaker<T>)
        requires
            old(self).sound(),
            old(self)@.bound is Some,
            old(cache).wf(old(self)@.send_wakers),
            old(cache).cached() is None ==> old(self)@.next_send < u64::MAX,
        ensures
            final(self).sound(),
            old(self).wf() ==> final(self).wf(),
            final(cache).cached() is None,
            waker.key() == old(self)@.acquired_id(old(cache).cached()),
            final(self)@ == old(self)@.acquired(old(cache).cached(), thread, item),
    {
        cache.new_blocking(&mut self.send_wakers, thread, Some(item))
    }

    /// A sender that was woken puts its message in, if there is room now.
    pub fn retry_send(&mut self, waker: &SendWaker<T>, wakes: &mut Vec<WakerType>) -> (sent: bool)
        requires
            old(self).sound(),
            old(self)@.pending(waker.key()),
            old(self)@.send_wakers[waker.key()].state == WakerState::WAKED.code(),
        ensures
            final(self).sound(),
            old(self).wf() ==> final(self).wf(),
            sent == !old(self)@.full(),
            !sent ==> final(self)@ == old(self)@ && final(wakes)@ == old(wakes)@,
            sent ==> {
                &&& final(self)@ == old(self)@.retried(waker.key())
                &&& final(wakes)@ == old(wakes)@ + old(self)@.announce_wakes()
            },
    {
        if self.is_full() {
            return false;
        }
        let id: u64 = waker.weak();
        let ghost before = self@;
        let mut inner = self.send_wakers.take(id);
        let item = inner.payload.take().unwrap();
        self.send_wakers.put(id, inner);
        let sent = self.inner.push(item);
        assert(sent is Ok);
        assert(self@ == before.pushed(item).with_send_waker(
            id,
            WakerInner { payload: None, ..before.send_wakers[id] },
        ));
        self.on_send(wakes);
        true
    }

    /// A sender is done with its waker: it is kept, or else dropped.
    pub fn release_send_waker(&mut self, cache: &mut WakerCache<SendWaker<T>>, waker: SendWaker<T>)
        requires
            old(self).sound(),
            old(self)@.send_wakers.contains_key(waker.key()),
        ensures
            final(self).sound(),
            old(self).wf() ==> final(self).wf(),
            ({
                let done = old(self)@.sender_done(
                    old(cache).cached(),
                    waker.key(),
                    Seq::empty(),
                );
                final(self)@ == done.shared && final(cache).cached() == done.cached
            }),
    {
        let referred = self.senders.refers_to(&waker);
        cache.push(&mut self.send_wakers, waker, referred);
    }

    /// Drops a sender's waker, and returns the message that is still in it.
    pub fn drop_send_waker(&mut self, waker: SendWaker<T>) -> (item: Option<T>)
        requires
            old(self).sound(),
            old(self)@.send_wakers.contains_key(waker.key()),
        ensures
            final(self).sound(),
            old(self).wf() ==> final(self).wf(),
            final(self)@ == old(self)@.without_send_waker(waker.key()),
            item == old(self)@.send_wakers[waker.key()].payload,
    {
        self.send_wakers.take(waker.weak()).payload
    }

    /// Drops the waker that a sender kept.
    pub fn drop_cached(&mut self, cache: &mut WakerCache<SendWaker<T>>)
        requires
            old(self).sound(),
            old(cache).wf(old(self)@.send_wakers),
        ensures
            final(self).sound(),
            old(self).wf() ==> final(self).wf(),
            final(cache).cached() is None,
            final(self)@ == (match old(cache).cached() {
                Some(id) => old(self)@.without_send_waker(id),
                None => old(self)@,
            }),
    {
        cache.clear(&mut self.send_wakers);
    }
}

} // verus!
