//! What a sender that finds the channel full does, as a mathematical function of
//! the shared state: how it registers, tries again by itself, and waits.

use vstd::prelude::*;

use crate::backoff::{BackoffConfig, Pause};
use crate::err::{SendTimeoutError, TrySendError};
use crate::locked_waker::{WakerInner, WakerState, WakerType};
use crate::model::ChannelView;
use crate::waker_registry::{RegistryKind, RegistryView};

verus! {

/// What a sender does after a pause.
#[derive(Debug, Clone, Copy, PartialEq, Eq, Structural)]
pub enum TryPhase {
    /// It gave way first, and is to try now.
    Retry,
    /// It watches its state.
    Watch,
    /// It is a task, and waits for the lock of its waker.
    Lock(u64),
}

/// How far a sender has got with trying again.
#[verifier::ext_equal]
pub struct AttemptView {
    /// How many pauses there were, as far as they are counted.
    pub steps: nat,
    pub conf: BackoffConfig,
    pub phase: TryPhase,
}

/// What trying again came to.
pub enum TriedStep {
    /// The waker is in this state, and there is nothing more to try.
    Settled(u8),
    /// The sender pauses, and goes on from there.
    Paused(Pause, AttemptView),
}

/// The shared state after a try, who is woken by it, and what it came to.
#[verifier::ext_equal]
pub struct Tried<T> {
    pub shared: ChannelView<T>,
    pub wakes: Seq<WakerType>,
    pub step: TriedStep,
}

impl AttemptView {
    pub open spec fn first(conf: BackoffConfig) -> AttemptView {
        AttemptView { steps: 0, conf, phase: TryPhase::Retry }
    }

    /// The pause that comes next, and where it leaves the sender.
    pub open spec fn pausing(self, phase: TryPhase) -> TriedStep {
        TriedStep::Paused(
            self.conf.pause_at(self.steps),
            AttemptView { steps: crate::backoff::step_after(self.steps), phase, ..self },
        )
    }
}

impl<T> ChannelView<T> {
    /// The waker is that of a sender whose message is still out: it exists, and has
    /// the message unless somebody took it.
    pub open spec fn pending(self, id: u64) -> bool {
        &&& self.send_wakers.contains_key(id)
        &&& self.send_wakers[id].state != WakerState::DONE.code()
            ==> self.send_wakers[id].payload is Some
    }

    /// The state after a sender put its own message in.
    pub open spec fn handed_in(self, id: u64) -> ChannelView<T> {
        let taken = self.taken_over(id);
        if self.send_wakers[id].waiting() {
            ChannelView { senders: taken.senders.withdrawn(id), ..taken }.announced()
        } else {
            taken.announced()
        }
    }

    /// A sender watches its state: until it is woken, or has waited enough. While
    /// its waker is locked, somebody is about to wake it.
    pub open spec fn watched(self, id: u64, attempt: AttemptView) -> Tried<T> {
        Tried {
            shared: self,
            wakes: Seq::empty(),
            step: if !self.send_wakers[id].waiting() {
                TriedStep::Settled(self.send_wakers[id].state)
            } else if attempt.steps >= attempt.conf.limit && !self.send_wakers[id].locked {
                TriedStep::Settled(WakerState::WAITING.code())
            } else {
                attempt.pausing(TryPhase::Watch)
            },
        }
    }

    /// A sender whose wait is over already has nothing to try.
    pub open spec fn settled(self, id: u64) -> Tried<T> {
        Tried {
            shared: self,
            wakes: Seq::empty(),
            step: TriedStep::Settled(self.send_wakers[id].state),
        }
    }

    /// A sender puts its message in.
    pub open spec fn put_in(self, id: u64) -> Tried<T> {
        Tried {
            shared: self.handed_in(id),
            wakes: self.taken_over(id).announce_wakes(),
            step: TriedStep::Settled(WakerState::DONE.code()),
        }
    }

    /// A sender puts its message in if there is room, and nobody has its waker
    /// locked; if not, it watches.
    pub open spec fn attempted(self, id: u64, attempt: AttemptView) -> Tried<T> {
        if self.full() || self.send_wakers[id].locked {
            self.watched(id, attempt)
        } else if self.send_wakers[id].state >= WakerState::DONE.code() {
            self.settled(id)
        } else {
            self.put_in(id)
        }
    }

    /// A sender finds the channel closed, and waits no longer.
    pub open spec fn found_closed(self, id: u64) -> Tried<T> {
        let moved = WakerInner::after_move(self.send_wakers, id, WakerState::CLOSED);
        Tried {
            shared: ChannelView { send_wakers: moved, ..self },
            wakes: Seq::empty(),
            step: TriedStep::Settled(moved[id].state),
        }
    }

    /// A registered thread tries again. Off the fast path it gives way first.
    pub open spec fn try_again(self, id: u64, fastpath: bool, conf: BackoffConfig) -> Tried<T> {
        if self.closed {
            self.found_closed(id)
        } else if fastpath {
            self.attempted(id, AttemptView::first(conf))
        } else {
            Tried {
                shared: self,
                wakes: Seq::empty(),
                step: AttemptView::first(conf).pausing(TryPhase::Retry),
            }
        }
    }

    /// A task takes the lock of its waker, and puts its message in if there is
    /// room. If not, the waker is renewed for the context in which it runs now.
    pub open spec fn attempted_async(self, id: u64, task: u64, attempt: AttemptView) -> Tried<T> {
        let waker = self.send_wakers[id];
        if waker.locked {
            Tried {
                shared: self,
                wakes: Seq::empty(),
                step: attempt.pausing(TryPhase::Lock(task)),
            }
        } else if waker.state >= WakerState::DONE.code() {
            self.settled(id)
        } else if self.full() {
            Tried {
                shared: self.with_send_waker(
                    id,
                    WakerInner { waker: WakerType::Async(task), ..waker },
                ),
                wakes: Seq::empty(),
                step: TriedStep::Settled(waker.state),
            }
        } else {
            self.put_in(id)
        }
    }

    /// A sender goes on after a pause.
    pub open spec fn try_on(self, id: u64, attempt: AttemptView) -> Tried<T> {
        match attempt.phase {
            TryPhase::Lock(task) => self.attempted_async(id, task, attempt),
            TryPhase::Watch => self.watched(id, attempt),
            TryPhase::Retry => if self.send_wakers[id].waiting() {
                self.attempted(id, attempt)
            } else {
                self.settled(id)
            },
        }
    }

    /// What trying again comes to, for a task (`ctx`) or for a thread.
    pub open spec fn tried(
        self,
        id: u64,
        ctx: Option<u64>,
        fastpath: bool,
        conf: BackoffConfig,
    ) -> Tried<T> {
        match ctx {
            Some(task) => if self.closed {
                self.found_closed(id)
            } else {
                self.attempted_async(id, task, AttemptView::first(conf))
            },
            None => self.try_again(id, fastpath, conf),
        }
    }
}

/// A message on its way: the waker that has it, and how it is sent.
#[verifier::ext_equal]
pub struct SendView {
    pub waker: u64,
    pub fastpath: bool,
    /// When to give up.
    pub deadline: Option<u128>,
    pub backoff: BackoffConfig,
}

/// What a sender has to do next.
pub enum StepView<T> {
    /// To pause, and to go on trying: for the first time after it registered
    /// (`registered`), or again after it was parked.
    Pause { pause: Pause, send: SendView, attempt: AttemptView, registered: bool },
    /// To see how much time is left.
    CheckTimeout { send: SendView },
    /// To park, for no longer than this.
    Park { timeout: Option<u128>, send: SendView },
    /// Nothing: the message was sent, or is given back.
    Finished { result: Result<(), SendTimeoutError<T>> },
}

/// The shared state after a step of a sender, the waker that it keeps for later,
/// who is woken, and what it has to do next.
#[verifier::ext_equal]
pub struct Outcome<T> {
    pub shared: ChannelView<T>,
    pub cached: Option<u64>,
    pub wakes: Seq<WakerType>,
    pub step: StepView<T>,
}

impl<T> ChannelView<T> {
    /// Whether a sender that is done with a waker keeps it: no entry refers to
    /// it, and there is room.
    pub open spec fn keeps_waker(self, cached: Option<u64>, id: u64) -> bool {
        !self.send_wakers[id].waiting() && !self.senders.entries.contains(id) && cached is None
    }

    /// A sender is done, and keeps its waker or drops it.
    pub open spec fn sender_done(
        self,
        cached: Option<u64>,
        id: u64,
        wakes: Seq<WakerType>,
    ) -> Outcome<T> {
        Outcome {
            shared: if self.keeps_waker(cached, id) {
                self
            } else {
                self.without_send_waker(id)
            },
            cached: if self.keeps_waker(cached, id) {
                Some(id)
            } else {
                cached
            },
            wakes,
            step: StepView::Finished { result: Ok(()) },
        }
    }

    /// The message is given back, since the receivers are gone.
    pub open spec fn sender_refused(
        self,
        cached: Option<u64>,
        id: u64,
        wakes: Seq<WakerType>,
    ) -> Outcome<T> {
        Outcome {
            shared: self.without_send_waker(id),
            cached,
            wakes,
            step: StepView::Finished {
                result: Err(SendTimeoutError::Disconnected(self.send_wakers[id].payload->0)),
            },
        }
    }

    /// A wait that ended for good, in `state`.
    pub open spec fn concluded(
        self,
        cached: Option<u64>,
        id: u64,
        wakes: Seq<WakerType>,
        state: u8,
    ) -> Outcome<T> {
        if state == WakerState::DONE.code() {
            self.sender_done(cached, id, wakes)
        } else {
            self.sender_refused(cached, id, wakes)
        }
    }

    /// A sender registers, and tries again.
    pub open spec fn round(
        self,
        cached: Option<u64>,
        send: SendView,
        wakes: Seq<WakerType>,
    ) -> Outcome<T> {
        let state = self.send_wakers[send.waker].state;
        let tried = self.send_registered(send.waker).try_again(
            send.waker,
            send.fastpath,
            send.backoff,
        );
        if RegistryView::registration(state) is Err {
            self.concluded(cached, send.waker, wakes, state)
        } else {
            match tried.step {
                TriedStep::Paused(pause, attempt) => Outcome {
                    shared: tried.shared,
                    cached,
                    wakes: wakes + tried.wakes,
                    step: StepView::Pause { pause, send, attempt, registered: true },
                },
                TriedStep::Settled(settled) => if settled == WakerState::WAITING.code() {
                    Outcome {
                        shared: tried.shared,
                        cached,
                        wakes: wakes + tried.wakes,
                        step: StepView::CheckTimeout { send },
                    }
                } else {
                    tried.shared.concluded(cached, send.waker, wakes + tried.wakes, settled)
                },
            }
        }
    }

    /// The state after a sender that was woken put its message in.
    pub open spec fn retried(self, id: u64) -> ChannelView<T> {
        let waker = self.send_wakers[id];
        self.pushed(waker.payload->0).with_send_waker(
            id,
            WakerInner { payload: None, ..waker },
        ).announced()
    }

    /// What a sender makes of the state that it finds its waker in.
    pub open spec fn decided(
        self,
        cached: Option<u64>,
        send: SendView,
        wakes: Seq<WakerType>,
        state: u8,
    ) -> Outcome<T> {
        if state >= WakerState::DONE.code() {
            self.concluded(cached, send.waker, wakes, state)
        } else if state == WakerState::WAKED.code() {
            if self.full() {
                self.round(cached, send, wakes)
            } else {
                self.retried(send.waker).sender_done(
                    cached,
                    send.waker,
                    wakes + self.announce_wakes(),
                )
            }
        } else {
            // Nobody woke it: its time is up, or it was unparked for nothing.
            self.try_again(send.waker, send.fastpath, send.backoff).second(cached, send, wakes)
        }
    }

    /// A sender goes on after a pause.
    pub open spec fn after_pause(
        self,
        cached: Option<u64>,
        send: SendView,
        attempt: AttemptView,
        registered: bool,
    ) -> Outcome<T> {
        let tried = self.try_on(send.waker, attempt);
        if !registered {
            tried.second(cached, send, Seq::empty())
        } else {
            match tried.step {
                TriedStep::Paused(pause, attempt) => Outcome {
                    shared: tried.shared,
                    cached,
                    wakes: tried.wakes,
                    step: StepView::Pause { pause, send, attempt, registered: true },
                },
                TriedStep::Settled(settled) => if settled == WakerState::WAITING.code() {
                    Outcome {
                        shared: tried.shared,
                        cached,
                        wakes: tried.wakes,
                        step: StepView::CheckTimeout { send },
                    }
                } else {
                    tried.shared.decided(cached, send, tried.wakes, settled)
                },
            }
        }
    }

    /// A sender has seen how much time is left: it parks, or it gives up.
    pub open spec fn after_check(
        self,
        cached: Option<u64>,
        send: SendView,
        left: Result<Option<u128>, ()>,
    ) -> Outcome<T> {
        match left {
            Ok(timeout) => Outcome {
                shared: self,
                cached,
                wakes: Seq::empty(),
                step: StepView::Park { timeout, send },
            },
            Err(_) => Outcome {
                shared: self.send_abandoned(send.waker),
                cached,
                wakes: self.send_abandon_wakes(send.waker),
                step: StepView::Finished {
                    result: match self.send_wakers[send.waker].payload {
                        Some(item) => Err(SendTimeoutError::Timeout(item)),
                        None => Ok(()),
                    },
                },
            },
        }
    }

    /// A sender goes on after it was parked.
    pub open spec fn after_park(self, cached: Option<u64>, send: SendView) -> Outcome<T> {
        self.decided(cached, send, Seq::empty(), self.send_wakers[send.waker].state)
    }

    /// The number of the waker that a sender gets.
    pub open spec fn acquired_id(self, cached: Option<u64>) -> u64 {
        match cached {
            Some(id) => id,
            None => self.next_send,
        }
    }

    /// The state after a sender put its message into a waker: the one it kept, or a new one.
    pub open spec fn acquired(self, cached: Option<u64>, thread: u64, item: T) -> ChannelView<T> {
        match cached {
            Some(id) => self.with_send_waker(
                id,
                self.send_wakers[id].reused(thread, Some(item)),
            ),
            None => self.with_new_send(WakerType::Blocking(thread), item),
        }
    }

    /// Whether a thread that starts to send takes a waker, and queues up: not if the
    /// channel is closed or has no bound, nor on the fast path while there is room.
    pub open spec fn queues_up(self, fastpath: bool) -> bool {
        !self.closed && self.bound is Some && !(fastpath && !self.full())
    }

    /// Whether there is a waker to take, and a registry to queue it in.
    pub open spec fn can_wait(self, cached: Option<u64>) -> bool {
        &&& self.senders.kind != RegistryKind::Dummy
        &&& cached is None ==> self.next_send < u64::MAX
    }

    /// A thread starts to send. It waits only if the channel is full; off the fast
    /// path it queues up in any case.
    pub open spec fn send_started(
        self,
        cached: Option<u64>,
        item: T,
        fastpath: bool,
        deadline: Option<u128>,
        thread: u64,
    ) -> Outcome<T> {
        if self.closed {
            Outcome {
                shared: self,
                cached,
                wakes: Seq::empty(),
                step: StepView::Finished { result: Err(SendTimeoutError::Disconnected(item)) },
            }
        } else if self.bound is None || (fastpath && !self.full()) {
            Outcome {
                shared: self.sent(item),
                cached,
                wakes: self.announce_wakes(),
                step: StepView::Finished { result: Ok(()) },
            }
        } else {
            self.acquired(cached, thread, item).round(
                None,
                SendView {
                    waker: self.acquired_id(cached),
                    fastpath,
                    deadline,
                    backoff: BackoffConfig::unpacked(self.backoff_tx),
                },
                Seq::empty(),
            )
        }
    }

    /// What becomes of a message that is to be sent at once or not at all.
    pub open spec fn try_sent(self, item: T) -> (ChannelView<T>, Result<(), TrySendError<T>>) {
        if self.closed {
            (self, Err(TrySendError::Disconnected(item)))
        } else if self.full() {
            (self, Err(TrySendError::Full(item)))
        } else {
            (self.sent(item), Ok(()))
        }
    }

    /// Who is woken when a message is sent at once.
    pub open spec fn try_send_wakes(self) -> Seq<WakerType> {
        if self.closed || self.full() {
            Seq::empty()
        } else {
            self.announce_wakes()
        }
    }

    /// What becomes of a message that is to be sent by a deadline. Where there is
    /// none that time can reach, it is sent at once or not at all.
    pub open spec fn send_timed(
        self,
        cached: Option<u64>,
        item: T,
        fastpath: bool,
        deadline: Option<u128>,
        thread: u64,
    ) -> Outcome<T> {
        match deadline {
            Some(_) => self.send_started(cached, item, fastpath, deadline, thread),
            None => Outcome {
                shared: self.try_sent(item).0,
                cached,
                wakes: self.try_send_wakes(),
                step: StepView::Finished {
                    result: match self.try_sent(item).1 {
                        Ok(()) => Ok(()),
                        Err(TrySendError::Full(t)) => Err(SendTimeoutError::Timeout(t)),
                        Err(TrySendError::Disconnected(t)) => Err(
                            SendTimeoutError::Disconnected(t),
                        ),
                    },
                },
            },
        }
    }
}

impl<T> Tried<T> {
    /// A sender that was parked for nothing tried again.
    pub open spec fn second(
        self,
        cached: Option<u64>,
        send: SendView,
        wakes: Seq<WakerType>,
    ) -> Outcome<T> {
        match self.step {
            TriedStep::Paused(pause, attempt) => Outcome {
                shared: self.shared,
                cached,
                wakes: wakes + self.wakes,
                step: StepView::Pause { pause, send, attempt, registered: false },
            },
            TriedStep::Settled(settled) => if settled >= WakerState::DONE.code() {
                self.shared.concluded(cached, send.waker, wakes + self.wakes, settled)
            } else {
                self.shared.round(cached, send, wakes + self.wakes)
            },
        }
    }
}

} // verus!
