//! The shared state of a channel as a mathematical value, and what each
//! operation makes of it.

use vstd::prelude::*;

use crate::backoff::BackoffConfig;
use crate::channel::Channel;
use crate::locked_waker::{WakerInner, WakerState, WakerType};
use crate::waker_registry::{RegistryKind, RegistryView};

verus! {

/// What serving a sender comes to.
#[derive(Debug, Clone, Copy, PartialEq, Eq, Structural)]
pub enum Serving {
    /// It waited, and was woken.
    Woken,
    /// It did not wait.
    Passed,
    /// It waits, but its waker is locked: it is trying by itself.
    Busy,
}

/// The shared state of a channel.
#[verifier::ext_equal]
pub struct ChannelView<T> {
    /// Whether one side is gone.
    pub closed: bool,
    pub tx_count: usize,
    pub rx_count: usize,
    /// The messages, the oldest first.
    pub queue: Seq<T>,
    /// How many messages there can be.
    pub bound: Option<usize>,
    pub senders: RegistryView,
    pub recvs: RegistryView,
    /// The wakers of senders, each with the message it waits to hand over.
    pub send_wakers: Map<u64, WakerInner<Option<T>>>,
    pub recv_wakers: Map<u64, WakerInner<()>>,
    /// The numbers of the next wakers.
    pub next_send: u64,
    pub next_recv: u64,
    /// The backoffs that are published, packed.
    pub backoff_tx: u32,
    pub backoff_rx: u32,
    /// Whether senders are to queue behind those that wait.
    pub tx_control: bool,
}

impl<T> ChannelView<T> {
    /// What holds of a channel between operations.
    pub open spec fn wf(self) -> bool {
        self.sound() && WakerInner::all_unlocked(self.send_wakers)
    }

    /// What holds of a channel though senders may hold the locks of their wakers.
    pub open spec fn sound(self) -> bool {
        &&& self.bound is Some ==> 0 < self.bound->0 && self.queue.len() <= self.bound->0
        &&& self.bound is None ==> self.send_wakers == Map::<u64, WakerInner<Option<T>>>::empty()
        &&& WakerInner::all_unlocked(self.recv_wakers)
        &&& Self::messages_in_place(self.send_wakers)
        &&& forall|id: u64| #[trigger]
            self.recv_wakers.contains_key(id) ==> self.recv_wakers[id].state
                <= WakerState::CLOSED.code()
    }

    /// A sender that waits has its message at hand; one that is done does not.
    pub open spec fn messages_in_place(wakers: Map<u64, WakerInner<Option<T>>>) -> bool {
        forall|id: u64| #[trigger]
            wakers.contains_key(id) ==> {
                &&& wakers[id].state <= WakerState::CLOSED.code()
                &&& wakers[id].waiting() ==> wakers[id].payload is Some
                &&& wakers[id].state == WakerState::DONE.code() ==> wakers[id].payload is None
            }
    }

    pub open spec fn full(self) -> bool {
        Channel::<T>::full(self.queue.len(), self.bound)
    }

    /// The state after a message was put behind all others.
    pub open spec fn pushed(self, item: T) -> ChannelView<T> {
        ChannelView { queue: self.queue.push(item), ..self }
    }

    /// The state after the oldest message was taken out.
    pub open spec fn received(self) -> ChannelView<T> {
        if self.queue.len() > 0 {
            ChannelView { queue: self.queue.drop_first(), ..self }
        } else {
            self
        }
    }

    /// The entry of the foremost receiver that waits; the length if there is none.
    pub open spec fn recv_index(self) -> nat {
        RegistryView::first_index(self.recvs.entries, RegistryView::waits_in(self.recv_wakers))
    }

    /// The foremost receiver that waits.
    pub open spec fn next_receiver(self) -> Option<u64> {
        if self.recv_index() < self.recvs.entries.len() {
            Some(self.recvs.entries[self.recv_index() as int])
        } else {
            None
        }
    }

    /// The state after the receivers were told of a message: the foremost that
    /// waits is woken, and its entry is gone, with all ahead of it.
    pub open spec fn announced(self) -> ChannelView<T> {
        ChannelView {
            recvs: self.recvs.with_entries(
                RegistryView::behind(self.recvs.entries, self.recv_index()),
            ),
            recv_wakers: match self.next_receiver() {
                Some(id) => WakerInner::after_move(self.recv_wakers, id, WakerState::WAKED),
                None => self.recv_wakers,
            },
            ..self
        }
    }

    /// Who is woken when the receivers are told of a message.
    pub open spec fn announce_wakes(self) -> Seq<WakerType> {
        match self.next_receiver() {
            Some(id) => seq![self.recv_wakers[id].waker],
            None => Seq::empty(),
        }
    }

    /// The state after a message was sent that there was room for.
    pub open spec fn sent(self, item: T) -> ChannelView<T> {
        self.pushed(item).announced()
    }

    /// The entry of the foremost sender that waits; the length if there is none.
    pub open spec fn send_index(self) -> nat {
        RegistryView::first_index(self.senders.entries, RegistryView::waits_in(self.send_wakers))
    }

    /// The foremost sender that waits.
    pub open spec fn next_sender(self) -> Option<u64> {
        if self.send_index() < self.senders.entries.len() {
            Some(self.senders.entries[self.send_index() as int])
        } else {
            None
        }
    }

    /// The state with another waker in place of one.
    pub open spec fn with_send_waker(self, id: u64, waker: WakerInner<Option<T>>) -> ChannelView<
        T,
    > {
        ChannelView { send_wakers: self.send_wakers.insert(id, waker), ..self }
    }

    /// The state after a sender's message was taken from it and put behind all others.
    pub open spec fn taken_over(self, id: u64) -> ChannelView<T> {
        let waker = self.send_wakers[id];
        self.pushed(waker.payload->0).with_send_waker(
            id,
            WakerInner { payload: None, ..waker.with_state(WakerState::DONE) },
        )
    }

    /// What serving a sender comes to: one that does not wait is passed over; one
    /// that is just trying by itself has its waker locked.
    pub open spec fn serving(self, id: u64) -> Serving {
        if !WakerInner::waits(self.send_wakers, id) {
            Serving::Passed
        } else if self.send_wakers[id].locked {
            Serving::Busy
        } else {
            Serving::Woken
        }
    }

    /// The state after a sender was served: its message was taken over if there
    /// was room; if not, it is to try again.
    pub open spec fn served(self, id: u64) -> ChannelView<T> {
        if self.serving(id) != Serving::Woken {
            self
        } else if self.full() {
            self.with_send_waker(id, self.send_wakers[id].with_state(WakerState::WAKED))
        } else {
            self.taken_over(id).announced()
        }
    }

    /// Who is woken when a sender is served.
    pub open spec fn serve_wakes(self, id: u64) -> Seq<WakerType> {
        if self.serving(id) != Serving::Woken {
            Seq::empty()
        } else if self.full() {
            seq![self.send_wakers[id].waker]
        } else {
            seq![self.send_wakers[id].waker] + self.taken_over(id).announce_wakes()
        }
    }

    /// The state after the senders were told of room: the foremost that waits is
    /// served, and its entry is gone, with all ahead of it.
    pub open spec fn made_room(self) -> ChannelView<T> {
        let rest = ChannelView {
            senders: self.senders.with_entries(
                RegistryView::behind(self.senders.entries, self.send_index()),
            ),
            ..self
        };
        match self.next_sender() {
            Some(id) => rest.served(id),
            None => rest,
        }
    }

    /// Who is woken when the senders are told of room.
    pub open spec fn room_wakes(self) -> Seq<WakerType> {
        match self.next_sender() {
            Some(id) => self.serve_wakes(id),
            None => Seq::empty(),
        }
    }

    /// Whether room can be passed on at the moment: the foremost sender that waits is
    /// not just trying by itself.
    pub open spec fn can_serve(self) -> bool {
        self.next_sender() is Some ==> !self.send_wakers[self.next_sender()->0].locked
    }

    /// Whether everybody who waits can be told at the moment that the channel is closed.
    pub open spec fn can_shut(self) -> bool {
        RegistryView::can_wake(self.senders.entries, self.send_wakers)
    }

    /// Whether a sender can give up at the moment: those that are woken for it can be.
    pub open spec fn can_abandon(self, id: u64) -> bool {
        let given_up = ChannelView {
            send_wakers: WakerInner::after_move(self.send_wakers, id, WakerState::CLOSED),
            ..self
        };
        let state = given_up.send_wakers[id].state;
        if state == WakerState::CLOSED.code() {
            RegistryView::can_wake(
                given_up.senders.clear_hits(given_up.send_wakers, self.send_wakers[id].seq),
                given_up.send_wakers,
            )
        } else {
            state == WakerState::DONE.code() || given_up.can_serve()
        }
    }

    /// The state after everybody who waits was told that the channel is closed.
    pub open spec fn shut(self) -> ChannelView<T> {
        ChannelView {
            recvs: self.recvs.with_entries(Seq::empty()),
            recv_wakers: RegistryView::moved_all(
                self.recvs.entries,
                self.recv_wakers,
                WakerState::CLOSED,
            ),
            senders: self.senders.with_entries(Seq::empty()),
            send_wakers: RegistryView::moved_all(
                self.senders.entries,
                self.send_wakers,
                WakerState::CLOSED,
            ),
            ..self
        }
    }

    /// Who is woken when the channel is closed: the receivers, then the senders.
    pub open spec fn shut_wakes(self) -> Seq<WakerType> {
        RegistryView::targets(self.recvs.entries, self.recv_wakers, WakerState::CLOSED)
            + RegistryView::targets(self.senders.entries, self.send_wakers, WakerState::CLOSED)
    }

    /// The state after a sender is gone. With the last one the channel is closed.
    pub open spec fn without_tx(self) -> ChannelView<T> {
        let left = ChannelView {
            tx_count: RegistryView::wrapping_prev(self.tx_count),
            ..self
        };
        if self.tx_count <= 1 {
            ChannelView { closed: true, ..left }.shut()
        } else {
            left
        }
    }

    /// The state after a receiver is gone. With the last one the channel is closed.
    pub open spec fn without_rx(self) -> ChannelView<T> {
        let left = ChannelView {
            rx_count: RegistryView::wrapping_prev(self.rx_count),
            ..self
        };
        if self.rx_count <= 1 {
            ChannelView { closed: true, ..left }.shut()
        } else {
            left
        }
    }

    /// The state after it was tuned to the number of threads on each side and of
    /// those that run at once.
    pub open spec fn configured(self, avail: usize) -> ChannelView<T> {
        ChannelView {
            tx_control: self.bound is Some && self.tx_count > self.rx_count,
            backoff_tx: crate::tuning::chosen_backoff(
                self.tx_count,
                self.rx_count,
                avail,
            ).packed(),
            backoff_rx: crate::tuning::chosen_backoff(
                self.rx_count,
                self.tx_count,
                avail,
            ).packed(),
            ..self
        }
    }

    /// The state of a new channel.
    pub open spec fn initial(
        queue: Seq<T>,
        bound: Option<usize>,
        senders: RegistryView,
        recvs: RegistryView,
    ) -> ChannelView<T> {
        ChannelView {
            closed: false,
            tx_count: 1,
            rx_count: 1,
            queue,
            bound,
            senders,
            recvs,
            send_wakers: Map::empty(),
            recv_wakers: Map::empty(),
            next_send: 0,
            next_recv: 0,
            backoff_tx: BackoffConfig::spec_default().packed(),
            backoff_rx: BackoffConfig::spec_default().packed(),
            tx_control: false,
        }
    }

    /// The state after a sender's waker asked to be registered.
    pub open spec fn send_registered(self, id: u64) -> ChannelView<T> {
        ChannelView {
            senders: self.senders.registered(self.send_wakers, id),
            send_wakers: self.senders.registered_wakers(self.send_wakers, id),
            ..self
        }
    }

    /// The state after a receiver's waker asked to be registered.
    pub open spec fn recv_registered(self, id: u64) -> ChannelView<T> {
        ChannelView {
            recvs: self.recvs.registered(self.recv_wakers, id),
            recv_wakers: self.recvs.registered_wakers(self.recv_wakers, id),
            ..self
        }
    }

    /// The state after the receivers' registry was cleared for one that gave up.
    pub open spec fn recvs_cleared(self, seq: usize) -> ChannelView<T> {
        ChannelView {
            recvs: self.recvs.cleared(self.recv_wakers, seq),
            recv_wakers: RegistryView::moved_all(
                self.recvs.clear_hits(self.recv_wakers, seq),
                self.recv_wakers,
                WakerState::WAKED,
            ),
            ..self
        }
    }

    pub open spec fn recvs_clear_wakes(self, seq: usize) -> Seq<WakerType> {
        RegistryView::targets(
            self.recvs.clear_hits(self.recv_wakers, seq),
            self.recv_wakers,
            WakerState::WAKED,
        )
    }

    /// The state after the senders' registry was cleared for one that gave up.
    pub open spec fn senders_cleared(self, seq: usize) -> ChannelView<T> {
        ChannelView {
            senders: self.senders.cleared(self.send_wakers, seq),
            send_wakers: RegistryView::moved_all(
                self.senders.clear_hits(self.send_wakers, seq),
                self.send_wakers,
                WakerState::WAKED,
            ),
            ..self
        }
    }

    pub open spec fn senders_clear_wakes(self, seq: usize) -> Seq<WakerType> {
        RegistryView::targets(
            self.senders.clear_hits(self.send_wakers, seq),
            self.send_wakers,
            WakerState::WAKED,
        )
    }

    /// The state with a new waker, that has the message of a sender.
    pub open spec fn with_new_send(self, waker: WakerType, item: T) -> ChannelView<T> {
        ChannelView { next_send: (self.next_send + 1) as u64, ..self }.with_send_waker(
            self.next_send,
            WakerInner::fresh(waker, Some(item)),
        )
    }

    /// The state with a new waker of a receiver.
    pub open spec fn with_new_recv(self, waker: WakerType) -> ChannelView<T> {
        ChannelView {
            next_recv: (self.next_recv + 1) as u64,
            recv_wakers: self.recv_wakers.insert(self.next_recv, WakerInner::fresh(waker, ())),
            ..self
        }
    }

    /// The state without a sender's waker.
    pub open spec fn without_send_waker(self, id: u64) -> ChannelView<T> {
        ChannelView { send_wakers: self.send_wakers.remove(id), ..self }
    }

    /// The state without a receiver's waker.
    pub open spec fn without_recv_waker(self, id: u64) -> ChannelView<T> {
        ChannelView { recv_wakers: self.recv_wakers.remove(id), ..self }
    }

    /// The state after a sender gave up, in the state that giving up left it in:
    /// its entry is cleared; or nothing, it came too late; or, since it was woken,
    /// another sender gets the room.
    pub open spec fn send_abandoned(self, id: u64) -> ChannelView<T> {
        let given_up = ChannelView {
            send_wakers: WakerInner::after_move(self.send_wakers, id, WakerState::CLOSED),
            ..self
        };
        let state = given_up.send_wakers[id].state;
        let cleared = if state == WakerState::CLOSED.code() {
            given_up.senders_cleared(self.send_wakers[id].seq)
        } else if state == WakerState::DONE.code() {
            given_up
        } else {
            given_up.made_room()
        };
        cleared.without_send_waker(id)
    }

    pub open spec fn send_abandon_wakes(self, id: u64) -> Seq<WakerType> {
        let given_up = ChannelView {
            send_wakers: WakerInner::after_move(self.send_wakers, id, WakerState::CLOSED),
            ..self
        };
        let state = given_up.send_wakers[id].state;
        if state == WakerState::CLOSED.code() {
            given_up.senders_clear_wakes(self.send_wakers[id].seq)
        } else if state == WakerState::DONE.code() {
            Seq::empty()
        } else {
            given_up.room_wakes()
        }
    }

    /// The state after a receiver gave up, alike.
    pub open spec fn recv_abandoned(self, id: u64) -> ChannelView<T> {
        let given_up = ChannelView {
            recv_wakers: WakerInner::after_move(self.recv_wakers, id, WakerState::CLOSED),
            ..self
        };
        let state = given_up.recv_wakers[id].state;
        let cleared = if state == WakerState::CLOSED.code() {
            given_up.recvs_cleared(self.recv_wakers[id].seq)
        } else if state == WakerState::DONE.code() {
            given_up
        } else {
            given_up.announced()
        };
        cleared.without_recv_waker(id)
    }

    pub open spec fn recv_abandon_wakes(self, id: u64) -> Seq<WakerType> {
        let given_up = ChannelView {
            recv_wakers: WakerInner::after_move(self.recv_wakers, id, WakerState::CLOSED),
            ..self
        };
        let state = given_up.recv_wakers[id].state;
        if state == WakerState::CLOSED.code() {
            given_up.recvs_clear_wakes(self.recv_wakers[id].seq)
        } else if state == WakerState::DONE.code() {
            Seq::empty()
        } else {
            given_up.announce_wakes()
        }
    }

    /// The state after a receiver that still waited got its message by itself.
    pub open spec fn recv_done(self, id: u64) -> ChannelView<T> {
        if WakerInner::waits(self.recv_wakers, id) {
            ChannelView {
                recvs: self.recvs.withdrawn(id),
                recv_wakers: self.recv_wakers.insert(
                    id,
                    self.recv_wakers[id].with_state(WakerState::DONE),
                ),
                ..self
            }
        } else {
            self
        }
    }
}

} // verus!
