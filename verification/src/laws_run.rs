//! Whole runs of a channel: threads and tasks that send, by a deadline or without, and
//! receivers, whose steps come in any order. Every message that goes in comes out once,
//! and the send of a thread succeeds if and only if its message went in. As long as the
//! receivers do not leave before the senders do, a send without a deadline succeeds.

use vstd::prelude::*;

use crate::err::SendTimeoutError;
use crate::laws::Op;
use crate::locked_waker::{WakerInner, WakerState};
use crate::model::ChannelView;
use crate::protocol::{AttemptView, Outcome, SendView, StepView};
use crate::waker_registry::{RegistryKind, RegistryView};

verus! {

/// What happens at a channel, in one critical section.
pub enum Event<T> {
    /// A thread starts to send a message. `cached` is the waker it kept from before.
    Start {
        cached: Option<u64>,
        item: T,
        fastpath: bool,
        deadline: Option<u128>,
        thread: u64,
    },
    /// The thread whose waker has this number does what it has to do next. `cached` is
    /// the waker that its sender keeps by then, if any.
    GoOn { id: u64, cached: Option<u64>, now: u128 },
    /// Something else is done: by a receiver, by a task that sends, by one who sends at
    /// once or not at all, or by one who comes or goes.
    Other(Op<T>),
}

/// A channel with all that went on at it.
#[verifier::ext_equal]
pub struct World<T> {
    pub shared: ChannelView<T>,
    /// The messages, in the order in which they were handed over to be sent. A message
    /// goes by its place here.
    pub items: Seq<T>,
    /// Which of them threads send, and by when.
    pub sends: Map<nat, Option<u128>>,
    /// Which message a waker was given last, by the number of the waker.
    pub holder: Map<u64, nat>,
    /// What the threads whose sends are not over have to do next, by the number of the
    /// waker.
    pub running: Map<u64, StepView<T>>,
    /// The results of the threads' sends that are over.
    pub results: Map<nat, Result<(), SendTimeoutError<T>>>,
    /// The messages that went in, in the order in which they did.
    pub order: Seq<nat>,
    /// What came out.
    pub received: Seq<T>,
    /// The receivers left though there were senders.
    pub left_early: bool,
}

/// The waker whose message an operation puts in, if it puts one in that a waker has.
pub open spec fn taker<T>(v: ChannelView<T>, op: Op<T>) -> u64 {
    match op {
        Op::Serve(id) => id,
        Op::TryAgain(id, _, _, _) => id,
        Op::TryOn(id, _) => id,
        Op::Retry(id) => id,
        Op::AbandonSend(id) => (ChannelView {
            send_wakers: WakerInner::after_move(v.send_wakers, id, WakerState::CLOSED),
            ..v
        }).next_sender()->0,
        _ => v.next_sender()->0,
    }
}

/// Whether there is a message more.
pub open spec fn grew<T>(v: ChannelView<T>, w: ChannelView<T>) -> bool {
    w.queue.len() > v.queue.len()
}

impl<T> World<T> {
    /// A new channel, at which nothing happened yet.
    pub open spec fn fresh(
        bound: Option<usize>,
        senders: RegistryKind,
        recvs: RegistryKind,
    ) -> World<T> {
        World {
            shared: ChannelView::initial(
                Seq::empty(),
                bound,
                RegistryView::empty(senders),
                RegistryView::empty(recvs),
            ),
            items: Seq::empty(),
            sends: Map::empty(),
            holder: Map::empty(),
            running: Map::empty(),
            results: Map::empty(),
            order: Seq::empty(),
            received: Seq::empty(),
            left_early: false,
        }
    }

    /// After a step of the send of message `send`, whose waker is `id`: it is over, or
    /// its thread has something to do next; and if there is a message more, it is `sent`.
    pub open spec fn after_step(self, send: nat, id: u64, sent: nat, o: Outcome<T>) -> World<T> {
        World {
            shared: o.shared,
            running: match o.step {
                StepView::Finished { .. } => self.running.remove(id),
                _ => self.running.insert(id, o.step),
            },
            results: match o.step {
                StepView::Finished { result } => self.results.insert(send, result),
                _ => self.results,
            },
            order: if grew(self.shared, o.shared) {
                self.order.push(sent)
            } else {
                self.order
            },
            ..self
        }
    }

    /// The waker is given that message.
    pub open spec fn with_holder(self, id: u64, send: nat) -> World<T> {
        World { holder: self.holder.insert(id, send), ..self }
    }

    /// After an operation that is no thread's step.
    pub open spec fn after_op(self, op: Op<T>) -> World<T> {
        let v = self.shared;
        World {
            shared: op.apply(v),
            items: match op {
                Op::Push(item) => if grew(v, op.apply(v)) {
                    self.items.push(item)
                } else {
                    self.items
                },
                Op::NewSend(_, item) => self.items.push(item),
                Op::Reuse(_, _, item) => self.items.push(item),
                _ => self.items,
            },
            holder: match op {
                Op::NewSend(_, _) => self.holder.insert(v.next_send, self.items.len()),
                Op::Reuse(id, _, _) => self.holder.insert(id, self.items.len()),
                _ => self.holder,
            },
            order: if grew(v, op.apply(v)) {
                self.order.push(
                    match op {
                        Op::Push(_) => self.items.len(),
                        _ => self.holder[taker(v, op)],
                    },
                )
            } else {
                self.order
            },
            received: self.received + crate::laws_messages::delivered_by(v, op),
            left_early: self.left_early || (op is CloseRx && v.rx_count == 1 && v.tx_count > 0),
            ..self
        }
    }

    /// One more message is to be sent by a thread.
    pub open spec fn with_send(self, item: T, deadline: Option<u128>) -> World<T> {
        World {
            items: self.items.push(item),
            sends: self.sends.insert(self.items.len(), deadline),
            ..self
        }
    }

    /// The messages in the order in which they went in.
    pub open spec fn put_in(self) -> Seq<T> {
        Seq::new(self.order.len(), |i: int| self.items[self.order[i] as int])
    }
}

impl<T> Event<T> {
    /// Whether it may happen. Threads send only by their steps, and each with a waker of
    /// its own; a sender that has a send on does not leave.
    pub open spec fn may_happen(self, w: World<T>) -> bool {
        match self {
            Event::Start { cached, fastpath, .. } => {
                &&& w.shared.tx_count > 0
                &&& cached is Some ==> {
                    &&& w.shared.idle(cached->0)
                    &&& w.shared.send_wakers[cached->0].payload is None
                    &&& !w.running.contains_key(cached->0)
                }
                &&& w.shared.queues_up(fastpath) ==> w.shared.can_wait(cached)
            },
            Event::GoOn { id, cached, .. } => w.running.contains_key(id) && cached != Some(id),
            Event::Other(op) => {
                &&& op.valid(w.shared)
                &&& forall|id: u64| #[trigger] w.running.contains_key(id) ==> !op.by_sender(id)
                &&& match op {
                    Op::AddTx(_) => w.shared.tx_count > 0,
                    Op::AddRx(_) => w.shared.rx_count > 0,
                    Op::CloseTx => w.shared.tx_count > 1 || (w.shared.tx_count == 1 && w.running
                        == Map::<u64, StepView<T>>::empty()),
                    Op::CloseRx => w.shared.rx_count > 0,
                    _ => true,
                }
            },
        }
    }

    /// What it leads to.
    pub open spec fn happen(self, w: World<T>) -> World<T> {
        match self {
            Event::Start { cached, item, fastpath, deadline, thread } => {
                let send = w.items.len();
                let id = w.shared.acquired_id(cached);
                let o = w.shared.send_started(cached, item, fastpath, deadline, thread);
                let x = w.with_send(item, deadline).after_step(send, id, send, o);
                if w.shared.queues_up(fastpath) {
                    x.with_holder(id, send)
                } else {
                    x
                }
            },
            Event::GoOn { id, cached, now } => w.after_step(
                w.holder[id],
                id,
                match w.running[id] {
                    StepView::CheckTimeout { .. } => w.holder[taker(
                        w.shared,
                        Op::AbandonSend(id),
                    )],
                    _ => w.holder[id],
                },
                w.shared.went_on(cached, w.running[id], now),
            ),
            Event::Other(op) => w.after_op(op),
        }
    }
}

/// What a number of events lead to, one after the other.
pub open spec fn played<T>(w: World<T>, events: Seq<Event<T>>) -> World<T>
    decreases events.len(),
{
    if events.len() == 0 {
        w
    } else {
        played(events[0].happen(w), events.drop_first())
    }
}

/// Whether the events may happen one after the other.
pub open spec fn playable<T>(w: World<T>, events: Seq<Event<T>>) -> bool
    decreases events.len(),
{
    events.len() == 0 || (events[0].may_happen(w) && playable(
        events[0].happen(w),
        events.drop_first(),
    ))
}

/// The step is one of the send with that waker, by that deadline.
pub open spec fn belongs_to<T>(step: StepView<T>, id: u64, deadline: Option<u128>) -> bool {
    match step {
        StepView::Pause { send: s, attempt, .. } => s.waker == id && s.deadline == deadline && !(
        attempt.phase is Lock),
        StepView::CheckTimeout { send: s } => s.waker == id && s.deadline == deadline,
        StepView::Park { send: s, .. } => s.waker == id && s.deadline == deadline,
        StepView::Finished { .. } => false,
    }
}

impl<T> World<T> {
    /// The waker has a message.
    pub open spec fn has_one(self, id: u64) -> bool {
        self.shared.send_wakers.contains_key(id) && self.shared.send_wakers[id].payload is Some
    }

    /// The waker is there, and has no message.
    pub open spec fn is_empty(self, id: u64) -> bool {
        self.shared.send_wakers.contains_key(id) && self.shared.send_wakers[id].payload is None
    }

    /// The waker has a message, or had that of a send that is not over.
    pub open spec fn in_use(self, id: u64) -> bool {
        self.running.contains_key(id) || self.has_one(id)
    }

    /// A send that is not over has its message at hand; or the message went in, and
    /// the sender is done as soon as it goes on.
    pub open spec fn on_its_way(self, id: u64) -> bool {
        let send = self.holder[id];
        &&& self.holder.contains_key(id)
        &&& send < self.items.len()
        &&& self.sends.contains_key(send)
        &&& belongs_to(self.running[id], id, self.sends[send])
        &&& {
            ||| {
                &&& self.shared.has_message(id, self.items[send as int])
                &&& !self.shared.closed ==> self.shared.send_wakers[id].state
                    <= WakerState::WAKED.code()
                &&& !self.order.contains(send)
            }
            ||| self.shared.message_taken(id) && self.order.contains(send)
        }
    }

    /// The message of a waker is the one that it was given last, and did not go in.
    pub open spec fn at_hand(self, id: u64) -> bool {
        let send = self.holder[id];
        &&& self.holder.contains_key(id)
        &&& send < self.items.len()
        &&& self.shared.send_wakers[id].payload == Some(self.items[send as int])
        &&& !self.order.contains(send)
    }

    /// The message that the waker was given last went in.
    pub open spec fn went_in(self, id: u64) -> bool {
        &&& self.holder.contains_key(id)
        &&& self.holder[id] < self.items.len()
        &&& self.order.contains(self.holder[id])
    }

    /// The send is one of those that are not over.
    pub open spec fn is_running(self, send: nat) -> bool {
        exists|id: u64| #[trigger] self.running.contains_key(id) && self.holder[id] == send
    }

    /// A send that is over succeeded, and its message went in; or its time was up, or the
    /// receivers had left, and the message did not go in.
    pub open spec fn ended_well(self, send: nat) -> bool {
        &&& self.sends.contains_key(send)
        &&& {
            ||| self.results[send] is Ok && self.order.contains(send)
            ||| {
                &&& self.results[send] == Err::<(), SendTimeoutError<T>>(
                    SendTimeoutError::Timeout(self.items[send as int]),
                )
                &&& !self.order.contains(send)
                &&& self.sends[send] is Some
            }
            ||| {
                &&& self.results[send] == Err::<(), SendTimeoutError<T>>(
                    SendTimeoutError::Disconnected(self.items[send as int]),
                )
                &&& !self.order.contains(send)
                &&& self.left_early
            }
        }
    }

    /// What went in went in once each, and came out in that order, as far as it did.
    pub open spec fn in_order(self) -> bool {
        &&& self.order.no_duplicates()
        &&& forall|i: int|
            0 <= i < self.order.len() ==> (#[trigger] self.order[i]) < self.items.len()
        &&& self.received + self.shared.queue == self.put_in()
    }

    /// Every send but those in `open` is accounted for, and so is every message.
    pub open spec fn accounted_but(self, open: Set<nat>) -> bool {
        &&& self.in_order()
        &&& forall|send: nat| #[trigger]
            self.sends.contains_key(send) ==> send < self.items.len() && (open.contains(send)
                || self.results.contains_key(send) || self.is_running(send))
        &&& forall|send: nat| #[trigger] self.results.contains_key(send) ==> self.ended_well(send)
        &&& forall|id: u64| #[trigger] self.running.contains_key(id) ==> self.on_its_way(id)
        &&& forall|id: u64| #[trigger] self.has_one(id) ==> self.at_hand(id)
        &&& forall|id: u64| #[trigger] self.is_empty(id) ==> self.went_in(id)
        &&& forall|id: u64| #[trigger]
            self.in_use(id) ==> !self.results.contains_key(self.holder[id])
        &&& forall|a: u64, b: u64|
            #![trigger self.in_use(a), self.in_use(b)]
            self.in_use(a) && self.in_use(b) && a != b ==> self.holder[a] != self.holder[b]
    }

    /// Every send is accounted for, and so is every message.
    pub open spec fn accounted(self) -> bool {
        self.accounted_but(Set::empty())
    }

    /// The receivers are there as long as the senders are, unless they left early.
    pub open spec fn orderly(self) -> bool {
        &&& self.shared.wf()
        &&& self.shared.numbered()
        &&& self.shared.closed_by_count()
        &&& self.shared.tx_count > 0 && self.shared.rx_count == 0 ==> self.left_early
        &&& forall|id: u64| #[trigger]
            self.running.contains_key(id) ==> self.shared.tx_count > 0 && self.shared.senders.kind
                != RegistryKind::Dummy
    }
}

proof fn lemma_push_contains(order: Seq<nat>, send: nat, other: nat)
    ensures
        order.push(send).contains(other) <==> order.contains(other) || other == send,
{
    let pushed = order.push(send);
    assert(pushed[order.len() as int] == send);
    if order.contains(other) {
        let i = choose|i: int| 0 <= i < order.len() && order[i] == other;
        assert(pushed[i] == other);
    }
    if pushed.contains(other) && other != send {
        let i = choose|i: int| 0 <= i < pushed.len() && pushed[i] == other;
        assert(order[i] == other);
    }
}

/// One more message goes in, which did not before.
proof fn lemma_in_order<T>(w: World<T>, x: World<T>, send: nat, item: T)
    requires
        w.in_order(),
        x.items.len() >= w.items.len(),
        forall|i: int| 0 <= i < w.items.len() ==> #[trigger] x.items[i] == w.items[i],
        send < x.items.len(),
        x.items[send as int] == item,
        !w.order.contains(send),
        x.order == w.order.push(send),
        x.received == w.received,
        x.shared.queue == w.shared.queue.push(item),
    ensures
        x.in_order(),
        forall|t: nat| #[trigger] x.order.contains(t) <==> w.order.contains(t) || t == send,
{
    assert forall|t: nat| #[trigger] x.order.contains(t) <==> w.order.contains(t) || t == send by {
        lemma_push_contains(w.order, send, t);
    }
    assert forall|i: int, j: int|
        0 <= i < x.order.len() && 0 <= j < x.order.len() && i != j implies x.order[i]
        != x.order[j] by {
        if i < w.order.len() {
            assert(w.order[i] == x.order[i]);
        }
        if j < w.order.len() {
            assert(w.order[j] == x.order[j]);
        }
    }
    assert forall|i: int| 0 <= i < x.order.len() implies (#[trigger] x.order[i])
        < x.items.len() by {
        if i < w.order.len() {
            assert(x.order[i] == w.order[i]);
        }
    }
    assert forall|i: int| 0 <= i < w.order.len() implies x.put_in()[i] == w.put_in()[i] by {
        assert(w.order[i] < w.items.len());
        assert(x.order[i] == w.order[i]);
    }
    assert(x.put_in() =~= w.put_in().push(item));
    assert(x.received + x.shared.queue =~= (w.received + w.shared.queue).push(item));
}

/// No message goes in.
proof fn lemma_still_in_order<T>(w: World<T>, x: World<T>)
    requires
        w.in_order(),
        x.items.len() >= w.items.len(),
        forall|i: int| 0 <= i < w.items.len() ==> #[trigger] x.items[i] == w.items[i],
        x.order == w.order,
        x.received + x.shared.queue == w.received + w.shared.queue,
    ensures
        x.in_order(),
{
    assert forall|i: int| 0 <= i < x.order.len() implies (#[trigger] x.order[i])
        < x.items.len() by {
        assert(w.order[i] < w.items.len());
    }
    assert forall|i: int| 0 <= i < w.order.len() implies x.put_in()[i] == w.put_in()[i] by {
        assert(w.order[i] < w.items.len());
    }
    assert(x.put_in() =~= w.put_in());
}

/// The waker gets a message by the operation.
spec fn handed<T>(v: ChannelView<T>, op: Op<T>, id: u64) -> bool {
    match op {
        Op::NewSend(_, _) => id == v.next_send,
        Op::Reuse(i, _, _) => id == i,
        _ => false,
    }
}

/// The operation puts the message of a waker in.
spec fn takes<T>(v: ChannelView<T>, op: Op<T>) -> bool {
    grew(v, op.apply(v)) && !(op is Push)
}

spec fn shuts<T>(v: ChannelView<T>, op: Op<T>) -> bool {
    (op is CloseTx && v.tx_count <= 1) || (op is CloseRx && v.rx_count <= 1)
}

/// What an operation does to the messages in the channel.
#[verifier::opaque]
spec fn effect_on_queue<T>(v: ChannelView<T>, op: Op<T>) -> bool {
    let x = op.apply(v);
    let f = taker(v, op);
    &&& !grew(v, x) ==> crate::laws_messages::delivered_by(v, op) + x.queue == v.queue
    &&& grew(v, x) ==> {
        &&& crate::laws_messages::delivered_by(v, op) == Seq::<T>::empty()
        &&& x.queue == v.queue.push(
            match op {
                Op::Push(item) => item,
                _ => v.send_wakers[f].payload->0,
            },
        )
    }
    &&& takes(v, op) ==> v.send_wakers.contains_key(f) && v.send_wakers[f].payload is Some
}

/// What an operation does to the messages of wakers: it takes one at most.
#[verifier::opaque]
spec fn effect_on_messages<T>(v: ChannelView<T>, op: Op<T>) -> bool {
    let x = op.apply(v);
    &&& forall|id: u64| #[trigger]
        x.send_wakers.contains_key(id) && x.send_wakers[id].payload is None ==> {
            &&& !handed(v, op, id)
            &&& v.send_wakers.contains_key(id)
            &&& v.send_wakers[id].payload is None || (takes(v, op) && id == taker(v, op))
        }
    &&& forall|id: u64| #[trigger]
        x.send_wakers.contains_key(id) && x.send_wakers[id].payload is Some ==> if handed(
            v,
            op,
            id,
        ) {
            x.send_wakers[id].payload == Some(
                match op {
                    Op::NewSend(_, item) => item,
                    Op::Reuse(_, _, item) => item,
                    _ => arbitrary(),
                },
            )
        } else {
            &&& v.send_wakers.contains_key(id)
            &&& v.send_wakers[id].payload == x.send_wakers[id].payload
            &&& !(takes(v, op) && id == taker(v, op))
        }
}

/// What an operation does to the waker of another sender.
#[verifier::opaque]
spec fn effect_on_others<T>(v: ChannelView<T>, op: Op<T>) -> bool {
    let x = op.apply(v);
    forall|id: u64| #[trigger]
        v.send_wakers.contains_key(id) && !op.by_sender(id) ==> {
            let before = v.send_wakers[id];
            let after = x.send_wakers[id];
            &&& x.send_wakers.contains_key(id)
            &&& if takes(v, op) && id == taker(v, op) {
                before.waiting() && after == (WakerInner {
                    payload: None,
                    ..before.with_state(WakerState::DONE)
                })
            } else {
                after == before || (before.waiting() && after == before.with_state(
                    if shuts(v, op) {
                        WakerState::CLOSED
                    } else {
                        WakerState::WAKED
                    },
                ))
            }
        }
}

spec fn effect<T>(v: ChannelView<T>, op: Op<T>) -> bool {
    &&& effect_on_queue(v, op)
    &&& effect_on_messages(v, op)
    &&& effect_on_others(v, op)
}

/// The operation changes the waker of a sender who does it, and no other, and puts no
/// message in.
proof fn lemma_effect_own<T>(v: ChannelView<T>, op: Op<T>, id: u64)
    requires
        !(op is Push || op is Receive || op is CloseTx || op is CloseRx),
        op.by_sender(id) || (op is NewSend && id == v.next_send && v.numbered()),
        op.apply(v).queue == v.queue,
        forall|other: u64|
            other != id ==> (#[trigger] op.apply(v).send_wakers.contains_key(other)
                <==> v.send_wakers.contains_key(other)),
        forall|other: u64|
            other != id ==> #[trigger] op.apply(v).send_wakers[other] == v.send_wakers[other],
        op.apply(v).send_wakers.contains_key(id) ==> if handed(v, op, id) {
            op.apply(v).send_wakers[id].payload == Some(
                match op {
                    Op::NewSend(_, item) => item,
                    Op::Reuse(_, _, item) => item,
                    _ => arbitrary(),
                },
            )
        } else {
            v.send_wakers.contains_key(id) && op.apply(v).send_wakers[id].payload
                == v.send_wakers[id].payload
        },
    ensures
        effect(v, op),
{
    reveal(effect_on_queue);
    reveal(effect_on_messages);
    reveal(effect_on_others);
    let x = op.apply(v);
    assert(Seq::<T>::empty() + v.queue =~= v.queue);
    assert forall|other: u64| #[trigger]
        x.send_wakers.contains_key(other) && x.send_wakers[other].payload is Some
        && other != id implies !handed(v, op, other) && v.send_wakers.contains_key(other)
        && v.send_wakers[other].payload == x.send_wakers[other].payload by {
        assert(x.send_wakers[other] == v.send_wakers[other]);
    }
    assert forall|other: u64| other != id && #[trigger]
        x.send_wakers.contains_key(other) && x.send_wakers[other].payload is None implies
        v.send_wakers.contains_key(other) && v.send_wakers[other].payload is None && !handed(
        v,
        op,
        other,
    ) by {
        assert(x.send_wakers[other] == v.send_wakers[other]);
    }
    assert forall|other: u64| #[trigger]
        v.send_wakers.contains_key(other) && !op.by_sender(other) implies
        x.send_wakers.contains_key(other) && x.send_wakers[other] == v.send_wakers[other] by {
        assert(other != id);
        assert(x.send_wakers.contains_key(other) <==> v.send_wakers.contains_key(other));
    }
}

/// The operation puts the message of its sender in, and changes no other waker.
proof fn lemma_effect_handed_in<T>(v: ChannelView<T>, op: Op<T>, id: u64)
    requires
        op is TryAgain || op is TryOn || op is Retry,
        op.by_sender(id),
        v.send_wakers.contains_key(id),
        v.send_wakers[id].payload is Some,
        op.apply(v).queue == v.queue.push(v.send_wakers[id].payload->0),
        forall|other: u64|
            other != id ==> (#[trigger] op.apply(v).send_wakers.contains_key(other)
                <==> v.send_wakers.contains_key(other)),
        forall|other: u64|
            other != id ==> #[trigger] op.apply(v).send_wakers[other] == v.send_wakers[other],
        op.apply(v).send_wakers[id].payload is None,
    ensures
        effect(v, op),
{
    reveal(effect_on_queue);
    reveal(effect_on_messages);
    reveal(effect_on_others);
    let x = op.apply(v);
    assert forall|other: u64| #[trigger]
        x.send_wakers.contains_key(other) && x.send_wakers[other].payload is Some implies other
        != id && v.send_wakers.contains_key(other) && v.send_wakers[other].payload
        == x.send_wakers[other].payload by {
        if other != id {
            assert(x.send_wakers[other] == v.send_wakers[other]);
        }
    }
    assert forall|other: u64| other != id && #[trigger]
        x.send_wakers.contains_key(other) && x.send_wakers[other].payload is None implies
        v.send_wakers.contains_key(other) && v.send_wakers[other].payload is None && !handed(
        v,
        op,
        other,
    ) by {
        assert(x.send_wakers[other] == v.send_wakers[other]);
    }
    assert forall|other: u64| #[trigger]
        v.send_wakers.contains_key(other) && !op.by_sender(other) implies
        x.send_wakers.contains_key(other) && x.send_wakers[other] == v.send_wakers[other] by {
        assert(other != id);
        assert(x.send_wakers.contains_key(other) <==> v.send_wakers.contains_key(other));
    }
}

/// Room is passed on to a sender that waits: its message goes in, or it is to try again.
spec fn passed_on<T>(v: ChannelView<T>, x: ChannelView<T>, f: u64) -> bool {
    let before = v.send_wakers[f];
    &&& WakerInner::waits(v.send_wakers, f)
    &&& {
        ||| {
            &&& x.queue == v.queue
            &&& x.send_wakers == v.send_wakers.insert(f, before.with_state(WakerState::WAKED))
        }
        ||| {
            &&& x.queue == v.queue.push(before.payload->0)
            &&& x.send_wakers == v.send_wakers.insert(
                f,
                WakerInner { payload: None, ..before.with_state(WakerState::DONE) },
            )
        }
    }
}

proof fn lemma_served_passes_on<T>(v: ChannelView<T>, id: u64)
    requires
        v.wf(),
    ensures
        WakerInner::waits(v.send_wakers, id) ==> passed_on(v, v.served(id), id),
        !WakerInner::waits(v.send_wakers, id) ==> v.served(id) == v,
{
    if WakerInner::waits(v.send_wakers, id) {
        assert(v.send_wakers.contains_key(id));
    }
}

proof fn lemma_room_passed_on<T>(v: ChannelView<T>)
    requires
        v.wf(),
    ensures
        v.next_sender() is Some ==> passed_on(v, v.made_room(), v.next_sender()->0),
        v.next_sender() is None ==> v.made_room().send_wakers == v.send_wakers
            && v.made_room().queue == v.queue,
{
    crate::laws::lemma_next_waits(v.senders.entries, v.send_wakers);
    if let Some(f) = v.next_sender() {
        assert(v.send_wakers.contains_key(f));
    }
}

/// The receivers serve a sender, or tell the senders of room.
proof fn lemma_effect_served<T>(v: ChannelView<T>, op: Op<T>)
    requires
        v.wf(),
        op is Serve || op is MakeRoom,
    ensures
        effect(v, op),
{
    let f = taker(v, op);
    let x = op.apply(v);
    assert(x == (match op {
        Op::Serve(id) => v.served(id),
        _ => v.made_room(),
    })) by {
        reveal(Op::apply);
    }
    lemma_room_passed_on(v);
    lemma_served_passes_on(v, f);
    if passed_on(v, x, f) {
        assert(v.send_wakers.contains_key(f));
        reveal(effect_on_queue);
        reveal(effect_on_messages);
        reveal(effect_on_others);
        assert(Seq::<T>::empty() + v.queue =~= v.queue);
    } else {
        lemma_effect_rest(v, op);
    }
}

/// A sender gives up.
proof fn lemma_effect_abandoned<T>(v: ChannelView<T>, id: u64)
    requires
        v.wf(),
        v.send_wakers.contains_key(id),
    ensures
        effect(v, Op::AbandonSend(id)),
        takes(v, Op::AbandonSend(id)) ==> taker(v, Op::AbandonSend(id)) != id,
{
    let op = Op::<T>::AbandonSend(id);
    let x = op.apply(v);
    assert(x == v.send_abandoned(id)) by {
        reveal(Op::apply);
    }
    let given_up = ChannelView {
        send_wakers: WakerInner::after_move(v.send_wakers, id, WakerState::CLOSED),
        ..v
    };
    assert(given_up.wf()) by {
        crate::laws::lemma_sender_moves_wf(v, id);
    }
    lemma_room_passed_on(given_up);
    crate::laws::lemma_next_waits(given_up.senders.entries, given_up.send_wakers);
    reveal(effect_on_queue);
    reveal(effect_on_messages);
    reveal(effect_on_others);
    assert(Seq::<T>::empty() + v.queue =~= v.queue);
    let state = given_up.send_wakers[id].state;
    if state == WakerState::CLOSED.code() {
        let cleared = given_up.senders_cleared(v.send_wakers[id].seq);
        assert forall|other: u64| #[trigger] x.send_wakers.contains_key(other) implies other != id
            && v.send_wakers.contains_key(other) && v.send_wakers[other].payload
            == x.send_wakers[other].payload by {}
        assert forall|other: u64| #[trigger]
            v.send_wakers.contains_key(other) && !op.by_sender(other) implies
            x.send_wakers.contains_key(other) && (x.send_wakers[other] == v.send_wakers[other] || (
        v.send_wakers[other].waiting() && x.send_wakers[other] == v.send_wakers[other].with_state(
            WakerState::WAKED,
        ))) by {
            assert(given_up.send_wakers.contains_key(other));
        }
    }
}

/// A sender tries again, or goes on trying.
proof fn lemma_effect_tried<T>(v: ChannelView<T>, op: Op<T>, id: u64)
    requires
        v.wf(),
        v.pending(id),
        op is TryAgain || op is TryOn,
        op.by_sender(id),
    ensures
        effect(v, op),
{
    let tried = match op {
        Op::TryAgain(_, ctx, fastpath, conf) => v.tried(id, ctx, fastpath, conf),
        Op::TryOn(_, attempt) => v.try_on(id, attempt),
        _ => arbitrary(),
    };
    assert(op.apply(v) == tried.shared) by {
        reveal(Op::apply);
    }
    assert(tried.shared.queue == v.queue || (v.send_wakers[id].payload is Some
        && tried.shared.queue == v.queue.push(v.send_wakers[id].payload->0)
        && tried.shared.send_wakers[id].payload is None));
    assert forall|other: u64| other != id implies (#[trigger] tried.shared.send_wakers.contains_key(
        other,
    ) <==> v.send_wakers.contains_key(other)) by {}
    assert forall|other: u64| other != id implies #[trigger] tried.shared.send_wakers[other]
        == v.send_wakers[other] by {}
    if tried.shared.queue == v.queue {
        lemma_effect_own(v, op, id);
    } else {
        lemma_effect_handed_in(v, op, id);
    }
}

/// The operation is one that a sender does with its own waker, and puts nothing in.
proof fn lemma_effect_sender<T>(v: ChannelView<T>, op: Op<T>)
    requires
        v.wf(),
        v.numbered(),
        op.valid(v),
        op is NewSend || op is Reuse || op is RegisterSend || op is DropSend,
    ensures
        effect(v, op),
{
    let id = match op {
        Op::NewSend(_, _) => v.next_send,
        Op::Reuse(i, _, _) => i,
        Op::RegisterSend(i) => i,
        Op::DropSend(i) => i,
        _ => arbitrary(),
    };
    reveal(Op::apply);
    lemma_effect_own(v, op, id);
}

/// The operation is one of the receivers, or of one who comes or goes.
proof fn lemma_effect_other<T>(v: ChannelView<T>, op: Op<T>)
    requires
        v.wf(),
        !(op is Push || op is NewSend || op is Reuse || op is RegisterSend || op is DropSend || op
            is TryAgain || op is TryOn || op is Retry || op is AbandonSend || op is Serve || op
            is MakeRoom),
    ensures
        effect(v, op),
{
    if shuts(v, op) {
        reveal(Op::apply);
        reveal(effect_on_queue);
        reveal(effect_on_messages);
        reveal(effect_on_others);
        assert(Seq::<T>::empty() + v.queue =~= v.queue);
        let x = op.apply(v);
        assert forall|other: u64| #[trigger] x.send_wakers.contains_key(other) implies
            v.send_wakers.contains_key(other) && v.send_wakers[other].payload
            == x.send_wakers[other].payload by {}
    } else {
        assert(op.apply(v).send_wakers == v.send_wakers && op.apply(v).queue == (if op is Receive {
            v.received().queue
        } else {
            v.queue
        })) by {
            reveal(Op::apply);
        }
        lemma_effect_rest(v, op);
    }
}

/// The operation leaves the senders' wakers alone, and the messages but for one that is
/// received.
proof fn lemma_effect_rest<T>(v: ChannelView<T>, op: Op<T>)
    requires
        !(op is Push || op is NewSend || op is Reuse),
        op.apply(v).send_wakers == v.send_wakers,
        op.apply(v).queue == (if op is Receive {
            v.received().queue
        } else {
            v.queue
        }),
    ensures
        effect(v, op),
{
    reveal(effect_on_queue);
    reveal(effect_on_messages);
    reveal(effect_on_others);
    assert(Seq::<T>::empty() + v.queue =~= v.queue);
    if v.queue.len() > 0 {
        assert(seq![v.queue[0]] + v.queue.drop_first() =~= v.queue);
    }
}

proof fn lemma_effect<T>(v: ChannelView<T>, op: Op<T>)
    requires
        v.wf(),
        v.numbered(),
        op.valid(v),
    ensures
        effect(v, op),
{
    match op {
        Op::Push(item) => {
            assert(op.apply(v).send_wakers == v.send_wakers && op.apply(v).queue == (if v.full() {
                v.queue
            } else {
                v.queue.push(item)
            })) by {
                reveal(Op::apply);
            }
            reveal(effect_on_queue);
            reveal(effect_on_messages);
            reveal(effect_on_others);
            assert(Seq::<T>::empty() + v.queue =~= v.queue);
        },
        Op::Serve(_) | Op::MakeRoom => lemma_effect_served(v, op),
        Op::AbandonSend(id) => lemma_effect_abandoned(v, id),
        Op::TryAgain(id, _, _, _) | Op::TryOn(id, _) => lemma_effect_tried(v, op, id),
        Op::Retry(id) => {
            assert(op.apply(v) == v.retried(id)) by {
                reveal(Op::apply);
            }
            lemma_effect_handed_in(v, op, id);
        },
        Op::NewSend(_, _) | Op::Reuse(_, _, _) | Op::RegisterSend(_) | Op::DropSend(
            _,
        ) => lemma_effect_sender(v, op),
        _ => lemma_effect_other(v, op),
    }
}

/// What is no thread's step keeps the shared state in order.
proof fn lemma_op_orderly<T>(w: World<T>, op: Op<T>)
    requires
        w.orderly(),
        Event::Other(op).may_happen(w),
    ensures
        w.after_op(op).orderly(),
{
    let v = w.shared;
    crate::laws::law_well_formed(v, op);
    crate::laws::law_numbers_unique(v, op);
    crate::laws_waiting::law_disconnected_when_side_gone(v, op, v.bound, v.senders, v.recvs);
    crate::laws::lemma_frame(v, op);
    if op is AddTx || op is AddRx || op is CloseTx || op is CloseRx {
        reveal(Op::apply);
    }
    assert forall|id: u64| #[trigger] w.running.contains_key(id) implies op.apply(v).tx_count
        > 0 by {
        assert(v.tx_count > 0);
        if op is CloseTx && v.tx_count == 1 {
            assert(!Map::<u64, StepView<T>>::empty().contains_key(id));
        }
    }
}

/// Which messages went in after an operation that is no thread's step.
proof fn lemma_op_order<T>(w: World<T>, op: Op<T>, open: Set<nat>) -> (sent: nat)
    requires
        w.accounted_but(open),
        w.orderly(),
        Event::Other(op).may_happen(w),
        effect(w.shared, op),
    ensures
        w.after_op(op).in_order(),
        forall|t: nat| #[trigger]
            w.after_op(op).order.contains(t) <==> w.order.contains(t) || (grew(
                w.shared,
                op.apply(w.shared),
            ) && t == sent),
        op is Push ==> sent == w.items.len(),
        takes(w.shared, op) ==> w.has_one(taker(w.shared, op)) && sent == w.holder[taker(
            w.shared,
            op,
        )],
{
    let v = w.shared;
    let x = w.after_op(op);
    let f = taker(v, op);
    reveal(effect_on_queue);
    if grew(v, x.shared) {
        assert(x.received =~= w.received);
        match op {
            Op::Push(item) => {
                assert(!w.order.contains(w.items.len()));
                lemma_in_order(w, x, w.items.len(), item);
                w.items.len()
            },
            _ => {
                assert(w.has_one(f));
                assert(w.at_hand(f));
                lemma_in_order(w, x, w.holder[f], v.send_wakers[f].payload->0);
                w.holder[f]
            },
        }
    } else {
        assert(x.received + x.shared.queue =~= w.received + (crate::laws_messages::delivered_by(
            v,
            op,
        ) + x.shared.queue));
        lemma_still_in_order(w, x);
        if op is Push {
            w.items.len()
        } else {
            0
        }
    }
}

/// The wakers of sends that are not over, after an operation that is no thread's step.
proof fn lemma_op_running<T>(w: World<T>, op: Op<T>, open: Set<nat>, sent: nat, id: u64)
    requires
        w.accounted_but(open),
        w.orderly(),
        Event::Other(op).may_happen(w),
        effect(w.shared, op),
        w.running.contains_key(id),
        forall|t: nat| #[trigger]
            w.after_op(op).order.contains(t) <==> w.order.contains(t) || (grew(
                w.shared,
                op.apply(w.shared),
            ) && t == sent),
        op is Push ==> sent == w.items.len(),
        takes(w.shared, op) ==> w.has_one(taker(w.shared, op)) && sent == w.holder[taker(
            w.shared,
            op,
        )],
    ensures
        w.after_op(op).on_its_way(id),
        w.after_op(op).holder[id] == w.holder[id],
{
    let v = w.shared;
    let x = w.after_op(op);
    let f = taker(v, op);
    assert(w.on_its_way(id));
    assert(w.in_use(id));
    assert(v.send_wakers.contains_key(id) && !op.by_sender(id));
    crate::laws_waiting::law_closed_for_good(v, op);
    assert(shuts(v, op) ==> x.shared.closed) by {
        reveal(Op::apply);
    }
    reveal(effect_on_others);
    assert(!handed(v, op, id));
    assert(x.holder[id] == w.holder[id] && x.holder.contains_key(id));
    if takes(v, op) && f != id {
        assert(w.in_use(f));
    }
}

proof fn lemma_op_at_hand<T>(w: World<T>, op: Op<T>, open: Set<nat>, sent: nat, id: u64)
    requires
        w.accounted_but(open),
        w.orderly(),
        Event::Other(op).may_happen(w),
        effect(w.shared, op),
        w.after_op(op).has_one(id),
        forall|t: nat| #[trigger]
            w.after_op(op).order.contains(t) <==> w.order.contains(t) || (grew(
                w.shared,
                op.apply(w.shared),
            ) && t == sent),
        op is Push ==> sent == w.items.len(),
        takes(w.shared, op) ==> w.has_one(taker(w.shared, op)) && sent == w.holder[taker(
            w.shared,
            op,
        )],
    ensures
        w.after_op(op).at_hand(id),
        handed(w.shared, op, id) ==> w.after_op(op).holder[id] == w.items.len(),
        !handed(w.shared, op, id) ==> w.has_one(id) && w.after_op(op).holder[id] == w.holder[id],
{
    let v = w.shared;
    let x = w.after_op(op);
    let f = taker(v, op);
    reveal(effect_on_messages);
    assert(x.shared.send_wakers.contains_key(id));
    if takes(v, op) {
        assert(w.at_hand(f));
    }
    assert(!w.order.contains(w.items.len()));
    if handed(v, op, id) {
        assert(!(op is Push));
    } else {
        assert(w.has_one(id));
        assert(w.at_hand(id));
        assert(w.in_use(id));
        if takes(v, op) {
            assert(f != id);
            assert(w.in_use(f));
        }
    }
}

/// The wakers without a message, after an operation that is no thread's step.
proof fn lemma_op_went_in<T>(w: World<T>, op: Op<T>, open: Set<nat>, sent: nat, id: u64)
    requires
        w.accounted_but(open),
        effect(w.shared, op),
        w.after_op(op).is_empty(id),
        forall|t: nat| #[trigger]
            w.after_op(op).order.contains(t) <==> w.order.contains(t) || (grew(
                w.shared,
                op.apply(w.shared),
            ) && t == sent),
        takes(w.shared, op) ==> w.has_one(taker(w.shared, op)) && sent == w.holder[taker(
            w.shared,
            op,
        )],
    ensures
        w.after_op(op).went_in(id),
{
    let v = w.shared;
    reveal(effect_on_messages);
    assert(op.apply(v).send_wakers.contains_key(id));
    assert(!handed(v, op, id));
    if v.send_wakers[id].payload is None {
        assert(w.is_empty(id));
        assert(w.went_in(id));
    } else {
        assert(w.at_hand(id));
    }
}

/// What is no thread's step keeps the account.
proof fn lemma_op_keeps<T>(w: World<T>, op: Op<T>, open: Set<nat>)
    requires
        w.accounted_but(open),
        w.orderly(),
        Event::Other(op).may_happen(w),
    ensures
        w.after_op(op).accounted_but(open),
        w.after_op(op).orderly(),
{
    let v = w.shared;
    let x = w.after_op(op);
    lemma_effect(v, op);
    lemma_op_orderly(w, op);
    let sent = lemma_op_order(w, op, open);
    assert forall|id: u64| #[trigger] x.running.contains_key(id) implies x.on_its_way(id)
        && x.holder[id] == w.holder[id] && w.in_use(id) by {
        lemma_op_running(w, op, open, sent, id);
    }
    assert forall|id: u64| #[trigger] x.has_one(id) implies x.at_hand(id) by {
        lemma_op_at_hand(w, op, open, sent, id);
    }
    assert forall|id: u64| #[trigger] x.is_empty(id) implies x.went_in(id) by {
        lemma_op_went_in(w, op, open, sent, id);
    }
    assert forall|send: nat| #[trigger] x.sends.contains_key(send) implies send < x.items.len() && (
    open.contains(send) || x.results.contains_key(send) || x.is_running(send)) by {
        assert(w.sends.contains_key(send));
        if w.is_running(send) {
            let id = choose|id: u64| #[trigger]
                w.running.contains_key(id) && w.holder[id] == send;
            assert(x.running.contains_key(id) && x.holder[id] == send);
        }
    }
    assert forall|send: nat| #[trigger] x.results.contains_key(send) implies x.ended_well(send) by {
        assert(w.ended_well(send));
        assert(w.sends.contains_key(send));
        if takes(v, op) {
            assert(w.in_use(taker(v, op)));
        }
    }
    assert forall|id: u64| #[trigger] x.in_use(id) implies !x.results.contains_key(x.holder[id]) && (
    if handed(v, op, id) && x.has_one(id) {
        x.holder[id] == w.items.len()
    } else {
        w.in_use(id) && x.holder[id] == w.holder[id] && w.holder[id] < w.items.len()
    }) by {
        if x.running.contains_key(id) {
            assert(w.on_its_way(id));
            assert(!handed(v, op, id));
        } else {
            lemma_op_at_hand(w, op, open, sent, id);
            if !handed(v, op, id) {
                assert(w.at_hand(id));
                assert(w.in_use(id));
            } else if w.results.contains_key(w.items.len()) {
                assert(w.ended_well(w.items.len()));
                assert(w.sends.contains_key(w.items.len()));
            }
        }
    }
    assert forall|a: u64, b: u64|
        #![trigger x.in_use(a), x.in_use(b)]
        x.in_use(a) && x.in_use(b) && a != b implies x.holder[a] != x.holder[b] by {}
}

/// A step of a thread comes to what it can rely on.
spec fn fair<T>(b: World<T>, send: nat, id: u64, o: Outcome<T>) -> bool {
    let item = b.items[send as int];
    &&& o.leaves_others(b.shared, id)
    &&& o.shared.wf() && o.shared.numbered()
    &&& o.shared.senders.kind == b.shared.senders.kind
    &&& match o.step {
        StepView::Finished { result: Ok(()) } => {
            &&& o.shared.send_wakers.contains_key(id) ==> o.shared.send_wakers[id].payload is None
            &&& o.shared.queue == (if b.order.contains(send) {
                b.shared.queue
            } else {
                b.shared.queue.push(item)
            })
        },
        StepView::Finished { result } => {
            &&& result == Err::<(), SendTimeoutError<T>>(SendTimeoutError::Disconnected(item))
            &&& b.shared.closed
            &&& !b.order.contains(send)
            &&& o.shared.queue == b.shared.queue
            &&& o.shared.send_wakers.contains_key(id) ==> o.shared == b.shared
        },
        _ => {
            &&& o.shared.queue == b.shared.queue
            &&& b.shared.senders.kind != RegistryKind::Dummy
            &&& belongs_to(o.step, id, b.sends[send])
            &&& {
                ||| {
                    &&& o.shared.has_message(id, item)
                    &&& !o.shared.closed ==> o.shared.send_wakers[id].state
                        <= WakerState::WAKED.code()
                    &&& !b.order.contains(send)
                }
                ||| o.shared.message_taken(id) && b.order.contains(send)
            }
        },
    }
}

/// Of one who was turned away no waker is left.
spec fn drops_if_refused<T>(id: u64, o: Outcome<T>) -> bool {
    match o.step {
        StepView::Finished { result } => o.shared.send_wakers.contains_key(id) ==> result is Ok,
        _ => true,
    }
}

/// A step that is over left the waker as it was, and without a message.
spec fn left_alone<T>(b: World<T>, id: u64, o: Outcome<T>) -> bool {
    &&& o.step is Finished
    &&& o.shared.send_wakers == b.shared.send_wakers
    &&& !b.has_one(id)
}

/// Everything is accounted for but the one send, which is not among those that go on.
spec fn about_to_step<T>(b: World<T>, send: nat, id: u64) -> bool {
    &&& b.accounted_but(Set::empty().insert(send))
    &&& b.orderly()
    &&& b.shared.tx_count > 0
    &&& !b.running.contains_key(id)
    &&& send < b.items.len()
    &&& b.sends.contains_key(send)
    &&& !b.results.contains_key(send)
    &&& forall|other: u64| #[trigger] b.in_use(other) && other != id ==> b.holder[other] != send
}

proof fn lemma_after_step<T>(b: World<T>, send: nat, id: u64, o: Outcome<T>, used: bool)
    requires
        about_to_step(b, send, id),
        fair(b, send, id, o),
        !used ==> left_alone(b, id, o),
        used ==> drops_if_refused(id, o),
    ensures
        ({
            let x = b.after_step(send, id, send, o);
            let y = if used {
                x.with_holder(id, send)
            } else {
                x
            };
            y.accounted() && y.orderly()
        }),
{
    let x = if used {
        b.after_step(send, id, send, o).with_holder(id, send)
    } else {
        b.after_step(send, id, send, o)
    };
    let item = b.items[send as int];
    let more = grew(b.shared, o.shared);
    if more {
        lemma_in_order(b, x, send, item);
    } else {
        lemma_still_in_order(b, x);
    }
    assert(forall|t: nat| #[trigger]
        x.order.contains(t) <==> b.order.contains(t) || (more && t == send));
    assert(o.shared.send_wakers.contains_key(id) && x.in_use(id) ==> used);
    assert(x.running.contains_key(id) ==> used);
    assert forall|other: u64| other != id && #[trigger] x.in_use(other) implies b.in_use(other)
        && x.holder[other] == b.holder[other] && b.holder[other] != send
        && x.shared.send_wakers[other] == b.shared.send_wakers[other] && (
    x.shared.send_wakers.contains_key(other) <==> b.shared.send_wakers.contains_key(other)) by {
        assert(o.shared.send_wakers.contains_key(other) <==> b.shared.send_wakers.contains_key(
            other,
        ));
        assert(o.shared.send_wakers[other] == b.shared.send_wakers[other]);
        assert(b.in_use(other));
    }
    assert forall|other: u64| #[trigger] x.running.contains_key(other) implies x.on_its_way(
        other,
    ) by {
        assert(x.in_use(other));
        if other != id {
            assert(b.running.contains_key(other));
            assert(b.on_its_way(other));
        }
    }
    assert forall|other: u64| #[trigger] x.has_one(other) implies x.at_hand(other) by {
        assert(x.in_use(other));
        if other != id {
            assert(b.has_one(other));
            assert(b.at_hand(other));
        }
    }
    assert forall|other: u64| #[trigger] x.is_empty(other) implies x.went_in(other) by {
        if other != id || !used {
            assert(o.shared.send_wakers.contains_key(other) <==> b.shared.send_wakers.contains_key(
                other,
            ));
            assert(o.shared.send_wakers[other] == b.shared.send_wakers[other]);
            assert(b.is_empty(other));
            assert(b.went_in(other));
        }
    }
    assert forall|t: nat| #[trigger] x.sends.contains_key(t) implies t < x.items.len() && (
    x.results.contains_key(t) || x.is_running(t)) by {
        if t == send {
            if !(o.step is Finished) {
                assert(x.running.contains_key(id) && x.holder[id] == send);
            }
        } else if !b.results.contains_key(t) {
            assert(b.is_running(t));
            let other = choose|other: u64| #[trigger]
                b.running.contains_key(other) && b.holder[other] == t;
            assert(x.running.contains_key(other) && x.holder[other] == t);
        }
    }
    assert forall|t: nat| #[trigger] x.results.contains_key(t) implies x.ended_well(t) by {
        if t != send {
            assert(b.ended_well(t));
        }
    }
    assert forall|other: u64| #[trigger] x.in_use(other) implies !x.results.contains_key(
        x.holder[other],
    ) by {}
    assert forall|a: u64, c: u64|
        #![trigger x.in_use(a), x.in_use(c)]
        x.in_use(a) && x.in_use(c) && a != c implies x.holder[a] != x.holder[c] by {
        if a != id && c != id {
            assert(b.in_use(a) && b.in_use(c));
        }
    }
}

proof fn lemma_made_of_own_keeps<T>(v: ChannelView<T>, o: Outcome<T>, id: u64)
    requires
        v.wf(),
        v.numbered(),
        o.is_made_of_own(v, id),
    ensures
        o.shared.wf(),
        o.shared.numbered(),
        o.shared.senders.kind == v.senders.kind,
{
    let ops = choose|ops: Seq<Op<T>>| #[trigger]
        crate::laws_steps::leads(v, ops, o.shared, o.wakes) && crate::laws_steps::own_only(ops, id);
    crate::laws_steps::lemma_leads_keeps(v, ops, o.shared, o.wakes);
}

/// Everything is accounted for but a send that starts.
proof fn lemma_about_to_start<T>(w: World<T>, id: u64, item: T, deadline: Option<u128>)
    requires
        w.accounted(),
        w.orderly(),
        w.shared.tx_count > 0,
        !w.running.contains_key(id),
    ensures
        about_to_step(w.with_send(item, deadline), w.items.len(), id),
{
    let send = w.items.len();
    let b = w.with_send(item, deadline);
    lemma_still_in_order(w, b);
    assert forall|t: nat| #[trigger] b.sends.contains_key(t) implies t < b.items.len() && (
    Set::<nat>::empty().insert(send).contains(t) || b.results.contains_key(t)
        || b.is_running(t)) by {
        if t != send {
            assert(w.sends.contains_key(t));
            if w.is_running(t) {
                let other = choose|other: u64| #[trigger]
                    w.running.contains_key(other) && w.holder[other] == t;
                assert(b.running.contains_key(other) && b.holder[other] == t);
            }
        }
    }
    assert forall|t: nat| #[trigger] b.results.contains_key(t) implies b.ended_well(t) && t
        < send by {
        assert(w.ended_well(t));
        assert(w.sends.contains_key(t));
    }
    assert forall|other: u64| #[trigger] b.running.contains_key(other) implies b.on_its_way(
        other,
    ) by {
        assert(w.on_its_way(other));
    }
    assert forall|other: u64| #[trigger] b.has_one(other) implies b.at_hand(other) by {
        assert(w.has_one(other));
        assert(w.at_hand(other));
    }
    assert forall|other: u64| #[trigger] b.is_empty(other) implies b.went_in(other) by {
        assert(w.is_empty(other));
        assert(w.went_in(other));
    }
    assert forall|other: u64| #[trigger] b.in_use(other) implies !b.results.contains_key(
        b.holder[other],
    ) && b.holder[other] < send by {
        assert(w.in_use(other));
        if w.running.contains_key(other) {
            assert(w.on_its_way(other));
        } else {
            assert(w.at_hand(other));
        }
    }
    assert forall|a: u64, c: u64|
        #![trigger b.in_use(a), b.in_use(c)]
        b.in_use(a) && b.in_use(c) && a != c implies b.holder[a] != b.holder[c] by {
        assert(w.in_use(a) && w.in_use(c));
    }
}

/// What starting to send leaves of the waker.
#[verifier::rlimit(30)]
proof fn lemma_start_fair<T>(
    w: World<T>,
    cached: Option<u64>,
    item: T,
    fastpath: bool,
    deadline: Option<u128>,
    thread: u64,
)
    requires
        w.accounted(),
        w.orderly(),
        (Event::Start { cached, item, fastpath, deadline, thread }).may_happen(w),
        ({
            let o = w.shared.send_started(cached, item, fastpath, deadline, thread);
            o.shared.wf() && o.shared.numbered() && o.shared.senders.kind == w.shared.senders.kind
        }),
    ensures
        fair(
            w.with_send(item, deadline),
            w.items.len(),
            w.shared.acquired_id(cached),
            w.shared.send_started(cached, item, fastpath, deadline, thread),
        ),
{
    let v = w.shared;
    crate::laws_sending::law_start_accounts(v, cached, item, fastpath, deadline, thread);
    crate::laws_sending::lemma_start_tidy(v, cached, item, fastpath, deadline, thread);
    assert(!w.order.contains(w.items.len()));
    assert(!v.send_wakers.contains_key(v.next_send));
}

/// A send starts.
proof fn lemma_start<T>(
    w: World<T>,
    cached: Option<u64>,
    item: T,
    fastpath: bool,
    deadline: Option<u128>,
    thread: u64,
)
    requires
        w.accounted(),
        w.orderly(),
        (Event::Start { cached, item, fastpath, deadline, thread }).may_happen(w),
    ensures
        (Event::Start { cached, item, fastpath, deadline, thread }).happen(w).accounted(),
        (Event::Start { cached, item, fastpath, deadline, thread }).happen(w).orderly(),
{
    let v = w.shared;
    let id = v.acquired_id(cached);
    let send = w.items.len();
    let b = w.with_send(item, deadline);
    let o = v.send_started(cached, item, fastpath, deadline, thread);
    assert(!w.running.contains_key(id)) by {
        if w.running.contains_key(id) {
            assert(w.on_its_way(id));
            assert(v.send_wakers.contains_key(id));
        }
    }
    lemma_about_to_start(w, id, item, deadline);
    crate::laws_steps::law_start_is_operations(v, cached, item, fastpath, deadline, thread);
    lemma_made_of_own_keeps(v, o, id);
    lemma_start_fair(w, cached, item, fastpath, deadline, thread);
    crate::laws_sending::law_start_accounts(v, cached, item, fastpath, deadline, thread);
    crate::laws_sending::lemma_start_tidy(v, cached, item, fastpath, deadline, thread);
    lemma_after_step(b, send, id, o, v.queues_up(fastpath));
}

/// Everything is accounted for but a send that goes on.
proof fn lemma_about_to_go_on<T>(w: World<T>, id: u64)
    requires
        w.accounted(),
        w.orderly(),
        w.running.contains_key(id),
    ensures
        about_to_step(World { running: w.running.remove(id), ..w }, w.holder[id], id),
{
    let b = World { running: w.running.remove(id), ..w };
    let send = w.holder[id];
    assert(w.on_its_way(id));
    assert(w.in_use(id));
    assert(b.put_in() =~= w.put_in());
    assert forall|t: nat| #[trigger] b.sends.contains_key(t) implies t < b.items.len() && (
    Set::<nat>::empty().insert(send).contains(t) || b.results.contains_key(t)
        || b.is_running(t)) by {
        assert(w.sends.contains_key(t));
        if t != send && w.is_running(t) {
            let other = choose|other: u64| #[trigger]
                w.running.contains_key(other) && w.holder[other] == t;
            assert(b.running.contains_key(other) && b.holder[other] == t);
        }
    }
    assert forall|t: nat| #[trigger] b.results.contains_key(t) implies b.ended_well(t) by {
        assert(w.ended_well(t));
    }
    assert forall|other: u64| #[trigger] b.running.contains_key(other) implies b.on_its_way(
        other,
    ) by {
        assert(w.running.contains_key(other));
        assert(w.on_its_way(other));
    }
    assert forall|other: u64| #[trigger] b.has_one(other) implies b.at_hand(other) by {
        assert(w.has_one(other));
        assert(w.at_hand(other));
    }
    assert forall|other: u64| #[trigger] b.is_empty(other) implies b.went_in(other) by {
        assert(w.is_empty(other));
        assert(w.went_in(other));
    }
    assert forall|other: u64| #[trigger] b.in_use(other) implies w.in_use(other) by {}
    assert forall|a: u64, c: u64|
        #![trigger b.in_use(a), b.in_use(c)]
        b.in_use(a) && b.in_use(c) && a != c implies b.holder[a] != b.holder[c] by {
        assert(w.in_use(a) && w.in_use(c));
    }
    assert forall|other: u64| #[trigger] w.running.contains_key(other) implies w.shared.tx_count
        > 0 by {}
}

/// What a step that does what its thread can rely on comes to.
proof fn lemma_fair<T>(w: World<T>, id: u64, s: SendView, o: Outcome<T>)
    requires
        w.accounted(),
        w.orderly(),
        w.running.contains_key(id),
        s.waker == id,
        s.deadline == w.sends[w.holder[id]],
        o.is_made_of_own(w.shared, id),
        o.leaves_others(w.shared, id),
        o.tidy(id),
        ({
            let item = w.items[w.holder[id] as int];
            if w.shared.has_message(id, item) {
                &&& o.accounts_for(w.shared, item)
                &&& o.goes_on_with(s)
                &&& !w.shared.closed ==> o.goes_well(id)
            } else {
                o.step == (StepView::<T>::Finished { result: Ok(()) }) && o.shared.queue
                    == w.shared.queue
            }
        }),
    ensures
        fair(w, w.holder[id], id, o),
        drops_if_refused(id, o),
{
    lemma_made_of_own_keeps(w.shared, o, id);
    assert(w.on_its_way(id));
}

#[verifier::rlimit(30)]
proof fn lemma_pause_fair<T>(
    w: World<T>,
    id: u64,
    cached: Option<u64>,
    s: SendView,
    attempt: AttemptView,
    registered: bool,
)
    requires
        w.accounted(),
        w.orderly(),
        w.running.contains_key(id),
        s.waker == id,
        s.deadline == w.sends[w.holder[id]],
        !(attempt.phase is Lock),
    ensures
        fair(w, w.holder[id], id, w.shared.after_pause(cached, s, attempt, registered)),
        fair(w, w.holder[id], id, w.shared.after_park(cached, s)),
        drops_if_refused(id, w.shared.after_pause(cached, s, attempt, registered)),
        drops_if_refused(id, w.shared.after_park(cached, s)),
{
    let v = w.shared;
    let item = w.items[w.holder[id] as int];
    assert(w.on_its_way(id));
    assert(v.pending(id));
    crate::laws_steps::law_after_pause_is_operations(v, cached, s, attempt, registered);
    crate::laws_steps::law_after_park_is_operations(v, cached, s);
    if v.has_message(id, item) {
        crate::laws_sending::law_sending_accounts(v, cached, s, attempt, registered, item);
    } else {
        crate::laws_sending::law_taken_is_done(v, cached, s, attempt, registered);
    }
    lemma_fair(w, id, s, v.after_pause(cached, s, attempt, registered));
    lemma_fair(w, id, s, v.after_park(cached, s));
}

/// What a step comes to whose send has time left.
proof fn lemma_go_on_fair<T>(w: World<T>, id: u64, cached: Option<u64>, now: u128)
    requires
        w.accounted(),
        w.orderly(),
        (Event::<T>::GoOn { id, cached, now }).may_happen(w),
        w.running[id] matches StepView::CheckTimeout { send: s } ==> crate::timeout::time_left(
            s.deadline,
            now,
        ) is Ok,
    ensures
        fair(w, w.holder[id], id, w.shared.went_on(cached, w.running[id], now)),
        drops_if_refused(id, w.shared.went_on(cached, w.running[id], now)),
{
    let v = w.shared;
    let step = w.running[id];
    let o = v.went_on(cached, step, now);
    assert(w.on_its_way(id));
    match step {
        StepView::Pause { send: s, attempt, registered, .. } => {
            assert(o == v.after_pause(cached, s, attempt, registered)) by {
                reveal(ChannelView::went_on);
            }
            lemma_pause_fair(w, id, cached, s, attempt, registered);
        },
        StepView::CheckTimeout { send: s } => {
            assert(o.shared == v && o.step is Park && belongs_to(o.step, id, s.deadline)) by {
                reveal(ChannelView::went_on);
            }
        },
        StepView::Park { send: s, .. } => {
            assert(o == v.after_park(cached, s)) by {
                reveal(ChannelView::went_on);
            }
            lemma_pause_fair(w, id, cached, s, AttemptView::first(s.backoff), true);
        },
        StepView::Finished { .. } => {},
    }
}

/// A send goes on, and its time is not up.
proof fn lemma_go_on_in_time<T>(w: World<T>, id: u64, cached: Option<u64>, now: u128)
    requires
        w.accounted(),
        w.orderly(),
        (Event::<T>::GoOn { id, cached, now }).may_happen(w),
        w.running[id] matches StepView::CheckTimeout { send: s } ==> crate::timeout::time_left(
            s.deadline,
            now,
        ) is Ok,
    ensures
        (Event::<T>::GoOn { id, cached, now }).happen(w).accounted(),
        (Event::<T>::GoOn { id, cached, now }).happen(w).orderly(),
{
    let send = w.holder[id];
    let o = w.shared.went_on(cached, w.running[id], now);
    let b = World { running: w.running.remove(id), ..w };
    lemma_go_on_fair(w, id, cached, now);
    assert(w.on_its_way(id));
    assert(fair(b, send, id, o));
    lemma_about_to_go_on(w, id);
    lemma_after_step(b, send, id, o, true);
    let x = (Event::<T>::GoOn { id, cached, now }).happen(w);
    if w.running[id] is CheckTimeout {
        assert(!grew(w.shared, o.shared)) by {
            reveal(ChannelView::went_on);
        }
    }
    assert(w.holder.insert(id, send) =~= w.holder);
    assert(w.running.remove(id).remove(id) =~= w.running.remove(id));
    assert(w.running.remove(id).insert(id, o.step) =~= w.running.insert(id, o.step));
    assert(x =~= b.after_step(send, id, send, o).with_holder(id, send));
}

/// The time of a send is up.
proof fn lemma_go_on_late<T>(w: World<T>, id: u64, cached: Option<u64>, now: u128)
    requires
        w.accounted(),
        w.orderly(),
        (Event::<T>::GoOn { id, cached, now }).may_happen(w),
        w.running[id] matches StepView::CheckTimeout { send: s } && crate::timeout::time_left(
            s.deadline,
            now,
        ) is Err,
    ensures
        (Event::<T>::GoOn { id, cached, now }).happen(w).accounted(),
        (Event::<T>::GoOn { id, cached, now }).happen(w).orderly(),
{
    let v = w.shared;
    let send = w.holder[id];
    let item = w.items[send as int];
    let op = Op::<T>::AbandonSend(id);
    let o = v.went_on(cached, w.running[id], now);
    let b = World { running: w.running.remove(id), ..w };
    assert(w.on_its_way(id));
    lemma_about_to_go_on(w, id);
    let result: Result<(), SendTimeoutError<T>> = match v.send_wakers[id].payload {
        Some(m) => Err(SendTimeoutError::Timeout(m)),
        None => Ok(()),
    };
    assert(o.shared == op.apply(v) && o.step == (StepView::Finished { result })) by {
        reveal(ChannelView::went_on);
        reveal(Op::apply);
    }
    assert(Event::Other(op).may_happen(b)) by {
        assert forall|other: u64| #[trigger] b.running.contains_key(other) implies !op.by_sender(
            other,
        ) by {}
    }
    lemma_op_keeps(b, op, Set::empty().insert(send));
    lemma_effect_abandoned(v, id);
    let y = b.after_op(op);
    let sent = lemma_op_order(b, op, Set::empty().insert(send));
    let x = (Event::<T>::GoOn { id, cached, now }).happen(w);
    assert(y.received =~= w.received);
    assert(x =~= World { results: y.results.insert(send, result), ..y });
    assert(!y.has_one(id)) by {
        reveal(effect_on_messages);
        assert(op.apply(v) == v.send_abandoned(id)) by {
            reveal(Op::apply);
        }
    }
    if takes(v, op) {
        let f = taker(v, op);
        assert(b.in_use(f) && f != id);
        assert(sent != send);
    }
    assert(x.put_in() =~= y.put_in());
    assert forall|t: nat| #[trigger] x.sends.contains_key(t) implies t < x.items.len() && (
    x.results.contains_key(t) || x.is_running(t)) by {
        assert(y.sends.contains_key(t));
        if t != send && y.is_running(t) {
            let other = choose|other: u64| #[trigger]
                y.running.contains_key(other) && y.holder[other] == t;
            assert(x.running.contains_key(other) && x.holder[other] == t);
        }
    }
    assert forall|t: nat| #[trigger] x.results.contains_key(t) implies x.ended_well(t) by {
        if t != send {
            assert(y.ended_well(t));
        }
    }
    assert forall|other: u64| #[trigger] x.running.contains_key(other) implies x.on_its_way(
        other,
    ) by {
        assert(y.on_its_way(other));
    }
    assert forall|other: u64| #[trigger] x.has_one(other) implies x.at_hand(other) by {
        assert(y.has_one(other));
        assert(y.at_hand(other));
    }
    assert forall|other: u64| #[trigger] x.is_empty(other) implies x.went_in(other) by {
        assert(y.is_empty(other));
        assert(y.went_in(other));
    }
    assert forall|other: u64| #[trigger] x.in_use(other) implies !x.results.contains_key(
        x.holder[other],
    ) by {
        assert(y.in_use(other) && other != id);
        if y.running.contains_key(other) {
            assert(b.in_use(other));
        } else {
            lemma_op_at_hand(b, op, Set::empty().insert(send), sent, other);
            assert(b.in_use(other));
        }
    }
    assert forall|a: u64, c: u64|
        #![trigger x.in_use(a), x.in_use(c)]
        x.in_use(a) && x.in_use(c) && a != c implies x.holder[a] != x.holder[c] by {
        assert(y.in_use(a) && y.in_use(c));
    }
}

proof fn lemma_played<T>(w: World<T>, events: Seq<Event<T>>)
    requires
        w.accounted(),
        w.orderly(),
        playable(w, events),
    ensures
        played(w, events).accounted(),
        played(w, events).orderly(),
    decreases events.len(),
{
    if events.len() > 0 {
        match events[0] {
            Event::Start { cached, item, fastpath, deadline, thread } => lemma_start(
                w,
                cached,
                item,
                fastpath,
                deadline,
                thread,
            ),
            Event::GoOn { id, cached, now } => {
                let late = w.running[id] matches StepView::CheckTimeout { send: s }
                    && crate::timeout::time_left(s.deadline, now) is Err;
                if late {
                    lemma_go_on_late(w, id, cached, now);
                } else {
                    lemma_go_on_in_time(w, id, cached, now);
                }
            },
            Event::Other(op) => lemma_op_keeps(w, op, Set::empty()),
        }
        lemma_played(events[0].happen(w), events.drop_first());
    }
}

impl<T> World<T> {
    /// Every send of a thread is over, or goes on. One that is over succeeded if and only
    /// if its message went in; else the message came back, since its time was up, or
    /// since the receivers had left.
    pub open spec fn sends_accounted(self) -> bool {
        &&& forall|send: nat| #[trigger]
            self.sends.contains_key(send) ==> self.results.contains_key(send) || self.is_running(
                send,
            )
        &&& forall|send: nat| #[trigger]
            self.results.contains_key(send) ==> {
                &&& self.results[send] is Ok <==> self.order.contains(send)
                &&& match self.results[send] {
                    Ok(()) => true,
                    Err(SendTimeoutError::Timeout(item)) => self.sends[send] is Some && item
                        == self.items[send as int],
                    Err(SendTimeoutError::Disconnected(item)) => self.left_early && item
                        == self.items[send as int],
                }
            }
    }
}

impl<T> World<T> {
    /// What a waker holds tells whether the message that it was given last went in: if
    /// it did not, it is still there.
    pub open spec fn wakers_accounted(self) -> bool {
        forall|id: u64| #[trigger]
            self.shared.send_wakers.contains_key(id) ==> {
                &&& self.holder.contains_key(id)
                &&& self.holder[id] < self.items.len()
                &&& self.shared.send_wakers[id].payload == (if self.order.contains(
                    self.holder[id],
                ) {
                    None
                } else {
                    Some(self.items[self.holder[id] as int])
                })
            }
    }
}

proof fn lemma_fresh<T>(bound: Option<usize>, senders: RegistryKind, recvs: RegistryKind)
    requires
        bound is Some ==> bound->0 > 0,
    ensures
        World::<T>::fresh(bound, senders, recvs).accounted(),
        World::<T>::fresh(bound, senders, recvs).orderly(),
{
    let w = World::<T>::fresh(bound, senders, recvs);
    assert(w.received + w.shared.queue =~= w.put_in());
}

/// Whatever happens at a channel from the time it is made, and in whatever order: the
/// send of a thread succeeds if and only if its message goes in, and else the message
/// comes back; it fails only by its deadline, or once the receivers left; a task finds
/// its message with its waker if and only if it did not go in; no message, be it a
/// thread's or a task's, goes in twice; and what came out and what is left are the
/// messages in the order in which they went in.
pub proof fn law_every_send_accounted<T>(
    bound: Option<usize>,
    senders: RegistryKind,
    recvs: RegistryKind,
    events: Seq<Event<T>>,
)
    requires
        bound is Some ==> bound->0 > 0,
        playable(World::fresh(bound, senders, recvs), events),
    ensures
        played(World::fresh(bound, senders, recvs), events).sends_accounted(),
        played(World::fresh(bound, senders, recvs), events).wakers_accounted(),
        played(World::fresh(bound, senders, recvs), events).in_order(),
{
    lemma_fresh::<T>(bound, senders, recvs);
    lemma_played(World::fresh(bound, senders, recvs), events);
    let w = played(World::fresh(bound, senders, recvs), events);
    assert forall|send: nat| #[trigger] w.results.contains_key(send) implies w.ended_well(send) by {}
    assert forall|id: u64| #[trigger] w.shared.send_wakers.contains_key(id) implies w.has_one(id)
        && w.at_hand(id) || w.is_empty(id) && w.went_in(id) by {
        if w.shared.send_wakers[id].payload is Some {
            assert(w.has_one(id));
        } else {
            assert(w.is_empty(id));
        }
    }
}

/// The places of a sequence without repetitions that holds all numbers below `n`, and
/// no others, are as many as there are numbers.
proof fn lemma_all_once(order: Seq<nat>, n: nat)
    requires
        order.no_duplicates(),
        forall|i: int| 0 <= i < order.len() ==> (#[trigger] order[i]) < n,
        forall|t: nat| t < n ==> #[trigger] order.contains(t),
    ensures
        order.len() == n,
    decreases n,
{
    if n == 0 {
        if order.len() > 0 {
            assert(order[0] < n);
        }
    } else {
        let last = (n - 1) as nat;
        assert(order.contains(last));
        let k = choose|k: int| 0 <= k < order.len() && order[k] == last;
        let rest = order.remove(k);
        assert forall|i: int| 0 <= i < rest.len() implies (#[trigger] rest[i]) < last by {
            let j = if i < k {
                i
            } else {
                i + 1
            };
            assert(rest[i] == order[j] && j != k);
        }
        assert forall|t: nat| t < last implies #[trigger] rest.contains(t) by {
            assert(order.contains(t));
            let j = choose|j: int| 0 <= j < order.len() && order[j] == t;
            if j < k {
                assert(rest[j] == t);
            } else {
                assert(rest[j - 1] == t);
            }
        }
        assert forall|i: int, j: int|
            0 <= i < rest.len() && 0 <= j < rest.len() && i != j implies rest[i] != rest[j] by {
            let a = if i < k {
                i
            } else {
                i + 1
            };
            let b = if j < k {
                j
            } else {
                j + 1
            };
            assert(rest[i] == order[a] && rest[j] == order[b]);
        }
        lemma_all_once(rest, last);
    }
}

impl<T> World<T> {
    /// What came out is, once each, what went in: as many messages, and `order` tells,
    /// without repetition, which one came out when.
    pub open spec fn received_once(self) -> bool {
        &&& self.received.len() == self.order.len()
        &&& self.order.no_duplicates()
        &&& forall|i: int|
            0 <= i < self.order.len() ==> (#[trigger] self.order[i]) < self.items.len()
                && self.received[i] == self.items[self.order[i] as int]
    }

    /// All messages are those of threads that send without a deadline.
    pub open spec fn all_untimed(self) -> bool {
        forall|t: nat|
            t < self.items.len() ==> #[trigger] self.sends.contains_key(t)
                && self.sends[t] is None
    }

    /// Every message was sent, and each of the sends is over and succeeded.
    pub open spec fn all_succeeded(self) -> bool {
        forall|t: nat|
            t < self.items.len() ==> #[trigger] self.results.contains_key(t)
                && self.results[t] is Ok
    }
}

/// Once the channel is empty, every message that went in, be it a thread's or a task's,
/// came out exactly once. So it is whatever happened, and in whatever order.
pub proof fn law_each_received_once<T>(
    bound: Option<usize>,
    senders: RegistryKind,
    recvs: RegistryKind,
    events: Seq<Event<T>>,
)
    requires
        bound is Some ==> bound->0 > 0,
        playable(World::fresh(bound, senders, recvs), events),
        played(World::fresh(bound, senders, recvs), events).shared.queue == Seq::<T>::empty(),
    ensures
        played(World::fresh(bound, senders, recvs), events).received_once(),
{
    law_every_send_accounted(bound, senders, recvs, events);
    lemma_received_once(played(World::fresh(bound, senders, recvs), events));
}

proof fn lemma_received_once<T>(w: World<T>)
    requires
        w.in_order(),
        w.shared.queue == Seq::<T>::empty(),
    ensures
        w.received_once(),
{
    assert(w.received + w.shared.queue =~= w.received);
    assert(w.received == w.put_in());
    assert forall|i: int| 0 <= i < w.order.len() implies (#[trigger] w.order[i]) < w.items.len()
        && w.received[i] == w.items[w.order[i] as int] by {
        assert(w.received[i] == w.put_in()[i]);
    }
}

/// Once all threads are done and the channel is empty, if all messages were theirs and
/// none had a deadline, and the receivers did not leave before the senders: every send
/// succeeded, and the receivers together got exactly as many messages as were sent, each
/// of them once.
pub proof fn law_all_sent_and_received<T>(
    bound: Option<usize>,
    senders: RegistryKind,
    recvs: RegistryKind,
    events: Seq<Event<T>>,
)
    requires
        bound is Some ==> bound->0 > 0,
        playable(World::fresh(bound, senders, recvs), events),
        played(World::fresh(bound, senders, recvs), events).shared.queue == Seq::<T>::empty(),
        played(World::fresh(bound, senders, recvs), events).running == Map::<
            u64,
            StepView<T>,
        >::empty(),
        played(World::fresh(bound, senders, recvs), events).all_untimed(),
        !played(World::fresh(bound, senders, recvs), events).left_early,
    ensures
        played(World::fresh(bound, senders, recvs), events).all_succeeded(),
        played(World::fresh(bound, senders, recvs), events).received_once(),
        played(World::fresh(bound, senders, recvs), events).received.len() == played(
            World::fresh(bound, senders, recvs),
            events,
        ).items.len(),
{
    law_every_send_accounted(bound, senders, recvs, events);
    law_each_received_once(bound, senders, recvs, events);
    let w = played(World::fresh(bound, senders, recvs), events);
    lemma_all_received(w);
}

proof fn lemma_all_received<T>(w: World<T>)
    requires
        w.in_order(),
        w.sends_accounted(),
        w.received_once(),
        w.running == Map::<u64, StepView<T>>::empty(),
        w.all_untimed(),
        !w.left_early,
    ensures
        w.all_succeeded(),
        w.received.len() == w.items.len(),
{
    assert forall|t: nat| t < w.items.len() implies #[trigger] w.results.contains_key(t)
        && w.results[t] is Ok by {
        assert(w.sends.contains_key(t));
        if w.is_running(t) {
            let id = choose|id: u64| #[trigger] w.running.contains_key(id) && w.holder[id] == t;
            assert(!Map::<u64, StepView<T>>::empty().contains_key(id));
        }
    }
    assert forall|t: nat| t < w.items.len() implies #[trigger] w.order.contains(t) by {
        assert(w.results.contains_key(t));
    }
    lemma_all_once(w.order, w.items.len());
}

} // verus!
