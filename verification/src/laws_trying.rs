//! What a sender comes to that tries to put its message in by itself, told by the messages
//! and by who is asleep and who is woken.

use vstd::prelude::*;

use crate::backoff::{BackoffConfig, Pause};
use crate::laws_effects::{asleep, came_in, has_room, one_receiver_woken, put_to};
use crate::locked_waker::{WakerInner, WakerType};
use crate::model::ChannelView;
use crate::protocol::{AttemptView, Tried, TriedStep, TryPhase};
use crate::waker_registry::{RegistryKind, RegistryView};

verus! {

/// Nothing changed, and nobody was woken.
pub open spec fn left_as_is<T>(v: ChannelView<T>, tried: Tried<T>) -> bool {
    tried.shared == v && tried.wakes == Seq::<WakerType>::empty()
}

/// The message is in the channel, behind all others, the foremost receiver that is asleep
/// was woken, and the wait of the sender is over. It is no longer queued where only one can
/// be.
pub open spec fn put_in_itself<T>(v: ChannelView<T>, tried: Tried<T>, id: u64) -> bool {
    let waker = v.send_wakers[id];
    let w = tried.shared;
    &&& tried.step == TriedStep::Settled(2u8)
    &&& came_in(v, w, tried.wakes, waker.payload->0)
    &&& w.next_send == v.next_send
    &&& w.send_wakers == v.send_wakers.insert(
        id,
        WakerInner { state: 2u8, payload: None, ..waker },
    )
    &&& w.senders == (if waker.state == 0u8 && v.senders.kind == RegistryKind::Single
        && v.senders.entries == seq![id] {
        RegistryView { entries: Seq::empty(), ..v.senders }
    } else {
        v.senders
    })
}

/// The sender is to pause, for so long as its backoff says after so many pauses.
pub open spec fn paused_in(step: TriedStep, attempt: AttemptView, phase: TryPhase) -> bool {
    step == TriedStep::Paused(
        if attempt.steps < attempt.conf.spin_limit {
            Pause::Spun(vstd::arithmetic::power2::pow2(attempt.steps) as u32)
        } else {
            Pause::Yield
        },
        AttemptView {
            steps: if attempt.steps < 10 {
                attempt.steps + 1
            } else {
                attempt.steps
            },
            conf: attempt.conf,
            phase,
        },
    )
}

/// What a task comes to that tries in its context: it pauses while its waker is locked; if
/// its wait was ended, it is told so; with room its message goes in; without, the waker is
/// to wake the task in that context from then on.
pub open spec fn task_tried<T>(
    v: ChannelView<T>,
    tried: Tried<T>,
    id: u64,
    task: u64,
    attempt: AttemptView,
) -> bool {
    let waker = v.send_wakers[id];
    if waker.locked {
        left_as_is(v, tried) && paused_in(tried.step, attempt, TryPhase::Lock(task))
    } else if waker.state >= 2u8 {
        left_as_is(v, tried) && tried.step == TriedStep::Settled(waker.state)
    } else if has_room(v) {
        put_in_itself(v, tried, id)
    } else {
        &&& tried.step == TriedStep::Settled(waker.state)
        &&& tried.wakes == Seq::<WakerType>::empty()
        &&& tried.shared == (ChannelView {
            send_wakers: v.send_wakers.insert(
                id,
                WakerInner { waker: WakerType::Async(task), ..waker },
            ),
            ..v
        })
    }
}

/// What a thread comes to that watches its waker: it is told when it is awake; else it
/// pauses, until it paused as often as its backoff says, and while its waker is locked.
pub open spec fn thread_watched<T>(
    v: ChannelView<T>,
    tried: Tried<T>,
    id: u64,
    attempt: AttemptView,
) -> bool {
    let waker = v.send_wakers[id];
    &&& left_as_is(v, tried)
    &&& waker.state != 0u8 ==> tried.step == TriedStep::Settled(waker.state)
    &&& waker.state == 0u8 && (attempt.steps < attempt.conf.limit || waker.locked) ==> paused_in(
        tried.step,
        attempt,
        TryPhase::Watch,
    )
    &&& waker.state == 0u8 && attempt.steps >= attempt.conf.limit && !waker.locked ==> tried.step
        == TriedStep::Settled(0u8)
}

/// What a thread comes to that tries: with room its message goes in, unless its wait was
/// ended; without, or while its waker is locked, it watches.
pub open spec fn thread_tried<T>(
    v: ChannelView<T>,
    tried: Tried<T>,
    id: u64,
    attempt: AttemptView,
) -> bool {
    let waker = v.send_wakers[id];
    if !has_room(v) || waker.locked {
        thread_watched(v, tried, id, attempt)
    } else if waker.state >= 2u8 {
        left_as_is(v, tried) && tried.step == TriedStep::Settled(waker.state)
    } else {
        put_in_itself(v, tried, id)
    }
}

/// The channel is closed: one that is asleep is told so, and waits no longer.
pub open spec fn told_closed<T>(v: ChannelView<T>, tried: Tried<T>, id: u64) -> bool {
    let waker = v.send_wakers[id];
    if asleep(v.send_wakers, id) {
        &&& tried.step == TriedStep::Settled(3u8)
        &&& tried.wakes == Seq::<WakerType>::empty()
        &&& tried.shared == (ChannelView {
            send_wakers: v.send_wakers.insert(id, put_to(waker, 3u8)),
            ..v
        })
    } else {
        left_as_is(v, tried) && tried.step == TriedStep::Settled(waker.state)
    }
}

proof fn lemma_put_in_itself<T>(v: ChannelView<T>, id: u64)
    requires
        v.send_wakers.contains_key(id),
    ensures
        put_in_itself(v, v.put_in(id), id),
{
    let taken = v.taken_over(id);
    let withdrawn = ChannelView { senders: taken.senders.withdrawn(id), ..taken };
    crate::laws_effects::law_announced_wakes_one(taken);
    crate::laws_effects::law_announced_wakes_one(withdrawn);
    assert(withdrawn.announce_wakes() == taken.announce_wakes());
    assert(one_receiver_woken(v, v.handed_in(id), taken.announce_wakes()));
}

/// A registered sender tries by itself. A closed channel turns it away. A task tries at
/// once, and so does a thread on the fast path; off it a thread gives way first.
pub proof fn law_tries_again<T>(
    v: ChannelView<T>,
    id: u64,
    ctx: Option<u64>,
    fastpath: bool,
    conf: BackoffConfig,
)
    requires
        v.send_wakers.contains_key(id),
    ensures
        ({
            let tried = v.tried(id, ctx, fastpath, conf);
            let first = AttemptView { steps: 0, conf, phase: TryPhase::Retry };
            if v.closed {
                told_closed(v, tried, id)
            } else if ctx is Some {
                task_tried(v, tried, id, ctx->0, first)
            } else if fastpath {
                thread_tried(v, tried, id, first)
            } else {
                left_as_is(v, tried) && paused_in(tried.step, first, TryPhase::Retry)
            }
        }),
{
    assert(v.full() == !has_room(v));
    lemma_put_in_itself(v, id);
}

/// A sender goes on trying after a pause: a task that waited for the lock, and a thread that
/// gave way first, try; a thread that watches goes on watching. A thread that is awake by
/// then is told so.
pub proof fn law_tries_on<T>(v: ChannelView<T>, id: u64, attempt: AttemptView)
    requires
        v.send_wakers.contains_key(id),
    ensures
        ({
            let tried = v.try_on(id, attempt);
            match attempt.phase {
                TryPhase::Lock(task) => task_tried(v, tried, id, task, attempt),
                TryPhase::Watch => thread_watched(v, tried, id, attempt),
                TryPhase::Retry => if v.send_wakers[id].state == 0u8 {
                    thread_tried(v, tried, id, attempt)
                } else {
                    left_as_is(v, tried) && tried.step == TriedStep::Settled(
                        v.send_wakers[id].state,
                    )
                },
            }
        }),
{
    assert(v.full() == !has_room(v));
    lemma_put_in_itself(v, id);
}

} // verus!
