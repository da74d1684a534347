//! What the values that callers hold stand for.

use vstd::prelude::*;

use crate::backoff::Backoff;
use crate::blocking_tx::{BlockingTxTrait, MTx, SendStep, Tx};
use crate::channel::{Channel, TryStep};
use crate::laws_effects::{foremost, has_room, put_to};
use crate::laws_room::queued_asleep;
use crate::locked_waker::{
    RecvWaker, SendWaker, WakerCache, WakerInner, WakerState, WakerTrait, WakerType,
};
use crate::model::ChannelView;
use crate::protocol::{AttemptView, SendView, StepView, TriedStep};
use crate::waker_registry::{RegistryKind, RegistryView};

verus! {

/// What a thread is told to do next is what the step of its send says: the same result, the
/// same pause, the same time to park, for the same waker and by the same deadline.
pub proof fn law_step_seen<T>(step: SendStep<T>)
    ensures
        match step {
            SendStep::Finished { result } => step@ == (StepView::Finished { result }),
            SendStep::Park { timeout, send } => step@ == (StepView::<T>::Park {
                timeout,
                send: SendView {
                    waker: send.waker.id,
                    fastpath: send.fastpath,
                    deadline: send.deadline,
                    backoff: send.backoff,
                },
            }),
            SendStep::CheckTimeout { send } => step@ == (StepView::<T>::CheckTimeout {
                send: SendView {
                    waker: send.waker.id,
                    fastpath: send.fastpath,
                    deadline: send.deadline,
                    backoff: send.backoff,
                },
            }),
            SendStep::Pause { pause, send, attempt, registered } => step@ == (StepView::<
                T,
            >::Pause {
                pause,
                send: SendView {
                    waker: send.waker.id,
                    fastpath: send.fastpath,
                    deadline: send.deadline,
                    backoff: send.backoff,
                },
                attempt: AttemptView {
                    steps: attempt.backoff.step as nat,
                    conf: attempt.backoff.config,
                    phase: attempt.phase,
                },
                registered,
            }),
        },
{
}

/// What a sender is told that tries by itself is what the try came to.
pub proof fn law_try_seen(step: TryStep)
    ensures
        match step {
            TryStep::Settled(state) => step@ == TriedStep::Settled(state),
            TryStep::Paused(pause, attempt) => step@ == TriedStep::Paused(
                pause,
                AttemptView {
                    steps: attempt.backoff.step as nat,
                    conf: attempt.backoff.config,
                    phase: attempt.phase,
                },
            ),
        },
{
}

/// A waker goes by its number, and what a backoff counts and is set to is what it shows. It
/// has waited enough once it counted up to its limit.
pub proof fn law_numbers_seen<T>(send: SendWaker<T>, recv: RecvWaker, backoff: Backoff)
    ensures
        send.key() == send.id,
        recv.key() == recv.id,
        backoff.steps() == backoff.step,
        backoff.conf() == backoff.config,
        backoff.completed() <==> backoff.step >= backoff.config.limit,
        backoff.next_pause() == backoff.config.pause_at(backoff.step as nat),
{
}

/// A single sender always tries at once. One of several does not if they give way to each
/// other and some of them are queued.
pub proof fn law_who_tries_at_once<T>(tx: Tx<T>, mtx: MTx<T>, v: ChannelView<T>)
    ensures
        tx.fast(v),
        mtx.fast(v) <==> !(v.tx_control && v.senders.entries.len() > 0),
        tx.kept() == tx.cached(),
        mtx.kept() == mtx.0.cached(),
        tx.fits(v) <==> (tx.cached() is Some ==> v.send_wakers.contains_key(tx.cached()->0)),
        mtx.fits(v) <==> (mtx.0.cached() is Some ==> v.send_wakers.contains_key(
            mtx.0.cached()->0,
        )),
{
}

/// A channel is full once there are as many messages as its bound says; one without a bound
/// never is.
pub proof fn law_full_at_bound<T>(messages: nat, bound: Option<usize>)
    ensures
        bound is Some ==> (Channel::<T>::full(messages, bound) <==> messages >= bound->0),
        bound is None ==> !Channel::<T>::full(messages, bound),
{
}

/// A change from asleep to another state changes nothing but the state, wakes whoever the
/// waker wakes, and is made only if the owner is asleep. The owner is reached at once, unless
/// it is a task whose waker is locked.
pub proof fn law_changed_from_asleep<P>(
    waker: WakerInner<P>,
    wakers: Map<u64, WakerInner<P>>,
    id: u64,
    state: WakerState,
)
    ensures
        waker.waiting() <==> waker.state == 0u8,
        waker.moved_on(state) == (if waker.state == 0u8 {
            put_to(waker, state.code())
        } else {
            waker
        }),
        waker.target() == (if waker.state == 0u8 {
            seq![waker.waker]
        } else {
            Seq::empty()
        }),
        waker.wakeable() <==> !(waker.waker is Async && waker.locked),
        waker.reached() == (if waker.state == 0u8 && !(waker.waker is Async && waker.locked) {
            seq![waker.waker]
        } else {
            Seq::empty()
        }),
        WakerInner::after_move(wakers, id, state) == (if wakers.contains_key(id)
            && wakers[id].state == 0u8 {
            wakers.insert(id, put_to(wakers[id], state.code()))
        } else {
            wakers
        }),
        WakerInner::target_of(wakers, id) == (if wakers.contains_key(id) && wakers[id].state
            == 0u8 {
            seq![wakers[id].waker]
        } else {
            Seq::empty()
        }),
{
}

/// A new waker is awake and unlocked, and has no sequence number. One that is used again is
/// awake, and wakes the thread and has the message that it was given.
pub proof fn law_waker_made<P>(waker: WakerType, payload: P, used: WakerInner<P>, thread: u64)
    ensures
        WakerInner::fresh(waker, payload) == (WakerInner {
            state: 1u8,
            locked: false,
            seq: 0usize,
            waker,
            payload,
        }),
        used.reused(thread, payload) == (WakerInner {
            state: 1u8,
            waker: WakerType::Blocking(thread),
            payload,
            ..used
        }),
{
}

/// Clearing stops at a waker that is there and comes no earlier than the sequence number; it
/// is the one for whose sake it is done if it has that very number.
pub proof fn law_where_clearing_stops<P>(wakers: Map<u64, WakerInner<P>>, id: u64, seq: usize)
    ensures
        WakerInner::stops_clearing(wakers, id, seq) <==> wakers.contains_key(id)
            && wakers[id].seq >= seq,
        WakerInner::is_own(wakers, id, seq) <==> wakers.contains_key(id) && wakers[id].seq == seq,
{
}

/// A waker that is handed in is kept if and only if no other is, its owner is awake, and it
/// is not queued.
pub proof fn law_waker_kept<W: WakerTrait>(
    cache: WakerCache<W>,
    wakers: Map<u64, WakerInner<W::Payload>>,
    id: u64,
    referred: bool,
)
    ensures
        cache.keeps(wakers, id, referred) <==> cache.cached() is None && wakers[id].state != 0u8
            && !referred,
{
}

/// The states of a waker go by these numbers.
pub proof fn law_state_codes()
    ensures
        WakerState::WAITING.code() == 0u8,
        WakerState::WAKED.code() == 1u8,
        WakerState::DONE.code() == 2u8,
        WakerState::CLOSED.code() == 3u8,
{
}

/// When a sender may queue up: any may whose registry is one that takes wakers, as long as
/// there are numbers for new ones. It does so on an open channel with a bound, unless it
/// tries at once and there is room.
pub proof fn law_who_may_wait<T>(v: ChannelView<T>, cached: Option<u64>, fastpath: bool, id: u64)
    ensures
        v.queues_up(fastpath) <==> !v.closed && v.bound is Some && !(fastpath && has_room(v)),
        v.can_wait(cached) <==> v.senders.kind != RegistryKind::Dummy && (cached is Some
            || v.next_send < u64::MAX),
        v.pending(id) <==> v.send_wakers.contains_key(id) && (v.send_wakers[id].state == 2u8
            || v.send_wakers[id].payload is Some),
{
}

/// A sender may go on with any message of its own that is on its way.
pub proof fn law_who_may_go_on<T>(tx: Tx<T>, v: ChannelView<T>, send: SendView)
    ensures
        tx.sending(v, send) <==> {
            &&& tx.cached() is Some ==> v.send_wakers.contains_key(tx.cached()->0)
            &&& v.send_wakers.contains_key(send.waker)
            &&& v.send_wakers[send.waker].state == 2u8
                || v.send_wakers[send.waker].payload is Some
            &&& v.senders.kind != RegistryKind::Dummy
            &&& tx.cached() != Some(send.waker)
        },
{
}

/// Room can be passed on unless the foremost sender that is asleep has its waker locked.
/// Everybody can be told that the channel is closed unless a task that is queued and asleep
/// has its waker locked.
pub proof fn law_when_nobody_is_busy<T>(v: ChannelView<T>)
    ensures
        v.can_serve() <==> forall|k: int| #[trigger]
            foremost(v.senders.entries, v.send_wakers, k)
                ==> !v.send_wakers[v.senders.entries[k]].locked,
        v.can_shut() <==> forall|id: u64| #[trigger]
            queued_asleep(v.senders.entries, v.send_wakers, id) ==> !(
            v.send_wakers[id].waker is Async && v.send_wakers[id].locked),
{
    let entries = v.senders.entries;
    let wakers = v.send_wakers;
    crate::laws_effects::lemma_foremost(entries, wakers);
    let n = RegistryView::first_index(entries, RegistryView::waits_in(wakers));
    if v.next_sender() is Some {
        assert(foremost(entries, wakers, n as int));
    }
    assert forall|id: u64| queued_asleep(entries, wakers, id) <==> entries.contains(id)
        && #[trigger] WakerInner::waits(wakers, id) by {}
    if v.can_shut() {
        assert forall|id: u64| #[trigger] queued_asleep(entries, wakers, id) implies !(
        wakers[id].waker is Async && wakers[id].locked) by {
            assert(WakerInner::waits(wakers, id));
        }
    }
}

/// Those that are queued can be woken unless a task among them is asleep with its waker
/// locked. A sender can give up if those that are cleared for it can be woken; if it had been
/// woken, if room can be passed on; and if its message was taken, at any time.
pub proof fn law_when_one_can_give_up<T>(v: ChannelView<T>, entries: Seq<u64>, id: u64)
    requires
        v.send_wakers.contains_key(id),
        v.send_wakers[id].state <= 3u8,
    ensures
        RegistryView::can_wake(entries, v.send_wakers) <==> forall|other: u64| #[trigger]
            queued_asleep(entries, v.send_wakers, other) ==> !(
            v.send_wakers[other].waker is Async && v.send_wakers[other].locked),
        v.send_wakers[id].state == 2u8 ==> v.can_abandon(id),
        v.send_wakers[id].state == 1u8 ==> (v.can_abandon(id) <==> v.can_serve()),
        v.send_wakers[id].state == 3u8 ==> (v.can_abandon(id) <==> RegistryView::can_wake(
            v.senders.clear_hits(v.send_wakers, v.send_wakers[id].seq),
            v.send_wakers,
        )),
        v.send_wakers[id].state == 0u8 ==> {
            let given_up = v.send_wakers.insert(id, put_to(v.send_wakers[id], 3u8));
            v.can_abandon(id) <==> RegistryView::can_wake(
                v.senders.clear_hits(given_up, v.send_wakers[id].seq),
                given_up,
            )
        },
{
    let wakers = v.send_wakers;
    assert forall|other: u64| queued_asleep(entries, wakers, other) <==> entries.contains(other)
        && #[trigger] WakerInner::waits(wakers, other) by {}
    if RegistryView::can_wake(entries, wakers) {
        assert forall|other: u64| #[trigger] queued_asleep(entries, wakers, other) implies !(
        wakers[other].waker is Async && wakers[other].locked) by {
            assert(WakerInner::waits(wakers, other));
        }
    }
}

/// Any channel is sound whose messages are within its bound, if it has one, whose receivers'
/// wakers are unlocked, and whose senders that are asleep have their messages, while those
/// that are done do not. It is well-formed if the wakers of its senders are unlocked too.
pub proof fn law_what_is_sound<T>(v: ChannelView<T>)
    ensures
        v.sound() <==> {
            &&& v.bound is Some ==> 0 < v.bound->0 && v.queue.len() <= v.bound->0
            &&& v.bound is None ==> v.send_wakers == Map::<u64, WakerInner<Option<T>>>::empty()
            &&& forall|id: u64| #[trigger]
                v.recv_wakers.contains_key(id) ==> !v.recv_wakers[id].locked
                    && v.recv_wakers[id].state <= 3u8
            &&& forall|id: u64| #[trigger]
                v.send_wakers.contains_key(id) ==> {
                    &&& v.send_wakers[id].state <= 3u8
                    &&& v.send_wakers[id].state == 0u8 ==> v.send_wakers[id].payload is Some
                    &&& v.send_wakers[id].state == 2u8 ==> v.send_wakers[id].payload is None
                }
        },
        v.wf() <==> v.sound() && forall|id: u64| #[trigger]
            v.send_wakers.contains_key(id) ==> !v.send_wakers[id].locked,
{
}

/// A bounded queue can be made for any number of messages but none, up to what memory can
/// hold.
pub proof fn law_capacity(capacity: usize)
    ensures
        crate::queues::valid_capacity(capacity) <==> 0 < capacity && capacity * 16 <= isize::MAX,
{
}

} // verus!
