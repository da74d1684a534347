//! What senders do to a channel, told by its messages and by who is asleep and who is woken.

use vstd::prelude::*;

use crate::backoff::{BackoffConfig, Pause};
use crate::err::{SendTimeoutError, TrySendError};
use crate::locked_waker::{WakerInner, WakerType};
use crate::model::ChannelView;
use crate::protocol::{AttemptView, Outcome, SendView, StepView, TryPhase};
use crate::waker_registry::{RegistryKind, RegistryView};

verus! {

/// The waker is there, and its owner is registered and was not woken since.
pub open spec fn asleep<P>(wakers: Map<u64, WakerInner<P>>, id: u64) -> bool {
    wakers.contains_key(id) && wakers[id].state == 0u8
}

/// The entry at `k` is that of the foremost who is asleep.
pub open spec fn foremost<P>(entries: Seq<u64>, wakers: Map<u64, WakerInner<P>>, k: int) -> bool {
    &&& 0 <= k < entries.len()
    &&& asleep(wakers, entries[k])
    &&& forall|j: int| 0 <= j < k ==> !asleep(wakers, #[trigger] entries[j])
}

/// Nobody who is queued is asleep.
pub open spec fn all_awake<P>(entries: Seq<u64>, wakers: Map<u64, WakerInner<P>>) -> bool {
    forall|j: int| 0 <= j < entries.len() ==> !asleep(wakers, #[trigger] entries[j])
}

/// There is a place for one more message.
pub open spec fn has_room<T>(v: ChannelView<T>) -> bool {
    match v.bound {
        Some(bound) => v.queue.len() < bound,
        None => true,
    }
}

/// The registry is the same but for who is queued.
pub open spec fn same_registry(before: RegistryView, after: RegistryView) -> bool {
    &&& after.kind == before.kind
    &&& after.next_seq == before.next_seq
    &&& after.checking == before.checking
}

/// All is the same but for the messages and for who waits.
pub open spec fn same_channel<T>(v: ChannelView<T>, w: ChannelView<T>) -> bool {
    &&& w.closed == v.closed
    &&& w.tx_count == v.tx_count
    &&& w.rx_count == v.rx_count
    &&& w.bound == v.bound
    &&& w.next_recv == v.next_recv
    &&& w.backoff_tx == v.backoff_tx
    &&& w.backoff_rx == v.backoff_rx
    &&& w.tx_control == v.tx_control
}

/// The receivers and who of them waits are the same.
pub open spec fn same_receivers<T>(v: ChannelView<T>, w: ChannelView<T>) -> bool {
    w.recvs == v.recvs && w.recv_wakers == v.recv_wakers
}

/// The senders and who of them waits are the same.
pub open spec fn same_senders<T>(v: ChannelView<T>, w: ChannelView<T>) -> bool {
    w.senders == v.senders && w.send_wakers == v.send_wakers && w.next_send == v.next_send
}

/// The waker in another state.
pub open spec fn put_to<P>(waker: WakerInner<P>, state: u8) -> WakerInner<P> {
    WakerInner { state, ..waker }
}

/// The foremost receiver that is asleep is woken, and no longer queued, nor is who was
/// queued ahead; if all are awake, nobody is woken.
pub open spec fn one_receiver_woken<T>(
    v: ChannelView<T>,
    w: ChannelView<T>,
    wakes: Seq<WakerType>,
) -> bool {
    let entries = v.recvs.entries;
    &&& same_registry(v.recvs, w.recvs)
    &&& forall|k: int| #[trigger]
        foremost(entries, v.recv_wakers, k) ==> {
            let waker = v.recv_wakers[entries[k]];
            &&& wakes == seq![waker.waker]
            &&& w.recv_wakers == v.recv_wakers.insert(entries[k], put_to(waker, 1u8))
            &&& w.recvs.entries == entries.subrange(k + 1, entries.len() as int)
        }
    &&& all_awake(entries, v.recv_wakers) ==> {
        &&& wakes == Seq::<WakerType>::empty()
        &&& w.recv_wakers == v.recv_wakers
        &&& w.recvs.entries == Seq::<u64>::empty()
    }
}

/// The message is in the channel, behind all others, and a receiver was woken for it.
pub open spec fn came_in<T>(
    v: ChannelView<T>,
    w: ChannelView<T>,
    wakes: Seq<WakerType>,
    item: T,
) -> bool {
    &&& w.queue == v.queue.push(item)
    &&& one_receiver_woken(v, w, wakes)
    &&& same_channel(v, w)
}

/// Somebody is the foremost who is asleep, unless all are awake.
pub(crate) proof fn lemma_foremost<P>(entries: Seq<u64>, wakers: Map<u64, WakerInner<P>>)
    ensures
        ({
            let k = RegistryView::first_index(entries, RegistryView::waits_in(wakers));
            &&& k <= entries.len()
            &&& k < entries.len() ==> foremost(entries, wakers, k as int)
            &&& k == entries.len() ==> all_awake(entries, wakers)
        }),
        forall|j: int, k: int|
            #![trigger foremost(entries, wakers, j), foremost(entries, wakers, k)]
            foremost(entries, wakers, j) && foremost(entries, wakers, k) ==> j == k,
        all_awake(entries, wakers) ==> forall|k: int| !#[trigger] foremost(entries, wakers, k),
{
    let waits = RegistryView::waits_in(wakers);
    crate::waker_registry::lemma_first_index(entries, waits);
    let k = RegistryView::first_index(entries, waits);
    assert forall|j: int| 0 <= j < entries.len() implies (waits(entries[j]) <==> asleep(
        wakers,
        #[trigger] entries[j],
    )) by {}
    assert forall|j: int| 0 <= j < k implies !asleep(wakers, #[trigger] entries[j]) by {
        assert(!waits(entries[j]));
    }
    if k < entries.len() {
        assert(waits(entries[k as int]));
    }
}

/// Telling the receivers of a message wakes the foremost that is asleep, and nobody
/// else; nothing else changes.
pub proof fn law_announced_wakes_one<T>(v: ChannelView<T>)
    ensures
        one_receiver_woken(v, v.announced(), v.announce_wakes()),
        v.announced().queue == v.queue,
        same_channel(v, v.announced()),
        same_senders(v, v.announced()),
{
    let entries = v.recvs.entries;
    lemma_foremost(entries, v.recv_wakers);
    let w = v.announced();
    let n = RegistryView::first_index(entries, RegistryView::waits_in(v.recv_wakers));
    assert forall|k: int| #[trigger] foremost(entries, v.recv_wakers, k) implies v.announce_wakes()
        == seq![v.recv_wakers[entries[k]].waker] && w.recv_wakers == v.recv_wakers.insert(
        entries[k],
        put_to(v.recv_wakers[entries[k]], 1u8),
    ) && w.recvs.entries == entries.subrange(k + 1, entries.len() as int) by {
        assert(k == n);
        assert(entries.skip(k + 1) =~= entries.subrange(k + 1, entries.len() as int));
    }
    if all_awake(entries, v.recv_wakers) {
        if n < entries.len() {
            assert(foremost(entries, v.recv_wakers, n as int));
        }
    }
}

/// To send at once: an open channel with room takes the message in, behind all others,
/// and wakes the foremost receiver that is asleep; one without room gives the message
/// back as full, and one whose other side is gone gives it back as disconnected, and
/// then nothing changes and nobody is woken.
pub proof fn law_sent_at_once<T>(v: ChannelView<T>, item: T)
    ensures
        !v.closed && has_room(v) ==> {
            &&& v.try_sent(item).1 is Ok
            &&& came_in(v, v.try_sent(item).0, v.try_send_wakes(), item)
            &&& same_senders(v, v.try_sent(item).0)
        },
        !v.closed && !has_room(v) ==> {
            &&& v.try_sent(item).1 == Err::<(), TrySendError<T>>(TrySendError::Full(item))
            &&& v.try_sent(item).0 == v
            &&& v.try_send_wakes() == Seq::<WakerType>::empty()
        },
        v.closed ==> {
            &&& v.try_sent(item).1 == Err::<(), TrySendError<T>>(TrySendError::Disconnected(item))
            &&& v.try_sent(item).0 == v
            &&& v.try_send_wakes() == Seq::<WakerType>::empty()
        },
{
    let p = ChannelView { queue: v.queue.push(item), ..v };
    law_announced_wakes_one(p);
    law_announced_wakes_one(v);
}

/// The send was over at once: the message came in, or was given back.
pub open spec fn over_at_once<T>(
    v: ChannelView<T>,
    o: Outcome<T>,
    item: T,
    refused: SendTimeoutError<T>,
) -> bool {
    &&& !v.closed && has_room(v) ==> {
        &&& o.step == (StepView::<T>::Finished { result: Ok(()) })
        &&& came_in(v, o.shared, o.wakes, item)
        &&& same_senders(v, o.shared)
    }
    &&& v.closed || !has_room(v) ==> {
        &&& o.step == (StepView::<T>::Finished { result: Err(refused) })
        &&& o.shared == v
        &&& o.wakes == Seq::<WakerType>::empty()
    }
}

/// The waker that a sender who queues up gets: the one it kept, or else a new one.
pub open spec fn waker_for<T>(v: ChannelView<T>, cached: Option<u64>) -> u64 {
    if cached is Some {
        cached->0
    } else {
        v.next_send
    }
}

/// The sender queued up behind all others, in a wait of that thread that has the message.
/// Nothing else changed: no message came or went, and nobody was woken.
pub open spec fn queued_up<T>(
    v: ChannelView<T>,
    w: ChannelView<T>,
    cached: Option<u64>,
    item: T,
    thread: u64,
) -> bool {
    let id = waker_for(v, cached);
    let before = v.send_wakers[id];
    let after = w.send_wakers[id];
    &&& w.queue == v.queue
    &&& same_channel(v, w)
    &&& same_receivers(v, w)
    &&& w.next_send == (if cached is Some {
        v.next_send as int
    } else {
        v.next_send + 1
    })
    &&& w.send_wakers.dom() == v.send_wakers.dom().insert(id)
    &&& forall|other: u64| other != id ==> #[trigger] w.send_wakers[other] == v.send_wakers[other]
    &&& after.state == 0u8
    &&& after.payload == Some(item)
    &&& after.waker == WakerType::Blocking(thread)
    &&& after.locked == (cached is Some && before.locked)
    &&& after.seq == (if v.senders.kind == RegistryKind::Multi {
        v.senders.next_seq
    } else if cached is Some {
        before.seq
    } else {
        0
    })
    &&& w.senders.kind == v.senders.kind
    &&& w.senders.checking == v.senders.checking
    &&& w.senders.entries == (if v.senders.kind == RegistryKind::Multi {
        v.senders.entries.push(id)
    } else {
        seq![id]
    })
    &&& v.senders.kind == RegistryKind::Single ==> w.senders.next_seq == v.senders.next_seq
    &&& v.senders.kind == RegistryKind::Multi ==> w.senders.next_seq == (if v.senders.next_seq
        == usize::MAX {
        0
    } else {
        v.senders.next_seq + 1
    })
}

/// What a thread that queued up does next: on the fast path it watches for as long as
/// its backoff says before it looks at the clock, off it it gives way first. The send
/// goes on with its waker, by its deadline, and at the pace that is published.
pub open spec fn goes_waiting<T>(
    w: ChannelView<T>,
    o: Outcome<T>,
    id: u64,
    fastpath: bool,
    deadline: Option<u128>,
) -> bool {
    let pace = BackoffConfig {
        spin_limit: (w.backoff_tx % 65536) as u16,
        limit: (w.backoff_tx / 65536) as u16,
    };
    &&& match o.step {
        StepView::Pause { pause, send, attempt, registered } => {
            &&& registered
            &&& send == (SendView { waker: id, fastpath, deadline, backoff: pace })
            &&& attempt == (AttemptView {
                steps: 1,
                conf: pace,
                phase: if fastpath {
                    TryPhase::Watch
                } else {
                    TryPhase::Retry
                },
            })
            &&& pause == (if pace.spin_limit > 0 {
                Pause::Spun(1)
            } else {
                Pause::Yield
            })
            &&& fastpath ==> pace.limit > 0 || w.send_wakers[id].locked
        },
        StepView::CheckTimeout { send } => {
            &&& send == (SendView { waker: id, fastpath, deadline, backoff: pace })
            &&& fastpath && pace.limit == 0 && !w.send_wakers[id].locked
        },
        _ => false,
    }
}

/// What becomes of a message that a thread starts to send, and may wait for: it is over
/// at once, or the thread queues up, and goes on waiting.
pub open spec fn begun<T>(
    v: ChannelView<T>,
    o: Outcome<T>,
    cached: Option<u64>,
    item: T,
    fastpath: bool,
    deadline: Option<u128>,
    thread: u64,
) -> bool {
    if v.closed || v.bound is None || (fastpath && has_room(v)) {
        &&& over_at_once(v, o, item, SendTimeoutError::Disconnected(item))
        &&& o.cached == cached
    } else {
        &&& queued_up(v, o.shared, cached, item, thread)
        &&& goes_waiting(o.shared, o, waker_for(v, cached), fastpath, deadline)
        &&& o.wakes == Seq::<WakerType>::empty()
        &&& o.cached is None
    }
}

proof fn lemma_begun_waiting<T>(
    v: ChannelView<T>,
    cached: Option<u64>,
    item: T,
    fastpath: bool,
    deadline: Option<u128>,
    thread: u64,
)
    requires
        !v.closed,
        v.bound is Some,
        !(fastpath && has_room(v)),
        cached is Some ==> v.send_wakers.contains_key(cached->0),
        v.senders.kind != RegistryKind::Dummy,
        cached is None ==> v.next_send < u64::MAX,
    ensures
        begun(
            v,
            v.send_started(cached, item, fastpath, deadline, thread),
            cached,
            item,
            fastpath,
            deadline,
            thread,
        ),
{
    let id = waker_for(v, cached);
    let o = v.send_started(cached, item, fastpath, deadline, thread);
    assert(v.full() == !has_room(v));
    let a = v.acquired(cached, thread, item);
    assert(a.send_wakers.contains_key(id) && a.send_wakers[id].state == 1u8);
    let r = a.send_registered(id);
    assert(r.send_wakers.dom() =~= v.send_wakers.dom().insert(id));
    assert(queued_up(v, r, cached, item, thread));
    assert(r.full() == v.full() && !r.closed);
    assert(o.shared == r);
    vstd::arithmetic::power2::lemma2_to64();
    assert(goes_waiting(r, o, id, fastpath, deadline));
}

/// To send with a wait. A channel that is closed gives the message back, and is left
/// alone. One with room, if the sender tries it, takes the message in, behind all others,
/// and wakes the foremost receiver that is asleep. Else the sender queues up with its
/// message, and goes on waiting; it does not end for want of time, whatever its deadline.
/// So it is with a deadline and without.
pub proof fn law_send_begins<T>(
    v: ChannelView<T>,
    cached: Option<u64>,
    item: T,
    fastpath: bool,
    deadline: Option<u128>,
    thread: u64,
)
    requires
        cached is Some ==> v.send_wakers.contains_key(cached->0),
        !v.closed && v.bound is Some && !(fastpath && has_room(v)) ==> {
            &&& v.senders.kind != RegistryKind::Dummy
            &&& cached is None ==> v.next_send < u64::MAX
        },
    ensures
        begun(
            v,
            v.send_started(cached, item, fastpath, deadline, thread),
            cached,
            item,
            fastpath,
            deadline,
            thread,
        ),
        deadline is Some ==> begun(
            v,
            v.send_timed(cached, item, fastpath, deadline, thread),
            cached,
            item,
            fastpath,
            deadline,
            thread,
        ),
{
    assert(v.full() == !has_room(v));
    let p = ChannelView { queue: v.queue.push(item), ..v };
    law_announced_wakes_one(p);
    law_announced_wakes_one(v);
    if !v.closed && v.bound is Some && !(fastpath && has_room(v)) {
        lemma_begun_waiting(v, cached, item, fastpath, deadline, thread);
    }
}

/// To send by a deadline that no clock reaches: the message comes in at once, and the
/// foremost receiver that is asleep is woken; or it is given back at once, as out of time
/// if there is no room, as disconnected if the other side is gone.
pub proof fn law_send_without_wait<T>(
    v: ChannelView<T>,
    cached: Option<u64>,
    item: T,
    fastpath: bool,
    thread: u64,
)
    ensures
        ({
            let o = v.send_timed(cached, item, fastpath, None, thread);
            let refused = if v.closed {
                SendTimeoutError::Disconnected(item)
            } else {
                SendTimeoutError::Timeout(item)
            };
            over_at_once(v, o, item, refused) && o.cached == cached
        }),
{
    law_sent_at_once(v, item);
}

/// A look at the clock: before the deadline, or without one, the thread parks for what
/// is left, and nothing changes. Once the deadline is reached the send is over: its
/// message comes back as out of time, unless somebody took it, and the waker is gone.
pub proof fn law_looks_at_clock<T>(
    v: ChannelView<T>,
    cached: Option<u64>,
    send: SendView,
    now: u128,
)
    ensures
        ({
            let o = v.after_check(
                cached,
                send,
                crate::timeout::time_left(send.deadline, now),
            );
            &&& o.cached == cached
            &&& send.deadline is Some && send.deadline->0 <= now ==> {
                &&& o.step == (StepView::Finished {
                    result: match v.send_wakers[send.waker].payload {
                        Some(item) => Err(SendTimeoutError::Timeout(item)),
                        None => Ok(()),
                    },
                })
                &&& !o.shared.send_wakers.contains_key(send.waker)
            }
            &&& !(send.deadline is Some && send.deadline->0 <= now) ==> {
                &&& o.shared == v
                &&& o.wakes == Seq::<WakerType>::empty()
                &&& match o.step {
                    StepView::Park { timeout, send: s } => s == send && match send.deadline {
                        Some(end) => timeout is Some && now + timeout->0 == end,
                        None => timeout is None,
                    },
                    _ => false,
                }
            }
        }),
{
}

/// The waker of one whose message went in is kept for the next send, unless another is
/// kept or somebody is still to meet its entry; else it is gone.
pub open spec fn waker_done<T>(
    v: ChannelView<T>,
    o: Outcome<T>,
    cached: Option<u64>,
    id: u64,
) -> bool {
    let before = v.send_wakers[id];
    let after = o.shared.send_wakers[id];
    let kept = cached is None && !o.shared.senders.entries.contains(id);
    &&& o.cached == (if kept {
        Some(id)
    } else {
        cached
    })
    &&& o.shared.send_wakers.dom() == (if kept {
        v.send_wakers.dom()
    } else {
        v.send_wakers.dom().remove(id)
    })
    &&& forall|other: u64|
        other != id ==> #[trigger] o.shared.send_wakers[other] == v.send_wakers[other]
    &&& kept ==> {
        &&& after.state == 1u8 || after.state == 2u8
        &&& after.payload is None
        &&& after.locked == before.locked
        &&& after.waker == before.waker
    }
}

/// The sender put its own message in.
pub open spec fn sent_itself<T>(
    v: ChannelView<T>,
    o: Outcome<T>,
    cached: Option<u64>,
    id: u64,
) -> bool {
    &&& o.step == (StepView::<T>::Finished { result: Ok(()) })
    &&& came_in(v, o.shared, o.wakes, v.send_wakers[id].payload->0)
    &&& o.shared.next_send == v.next_send
    &&& waker_done(v, o, cached, id)
}

/// The sender found that its message had been taken.
pub open spec fn was_taken<T>(
    v: ChannelView<T>,
    o: Outcome<T>,
    cached: Option<u64>,
    id: u64,
) -> bool {
    &&& o.step == (StepView::<T>::Finished { result: Ok(()) })
    &&& o.shared.queue == v.queue
    &&& o.wakes == Seq::<WakerType>::empty()
    &&& same_channel(v, o.shared)
    &&& same_receivers(v, o.shared)
    &&& o.shared.senders == v.senders
    &&& o.shared.next_send == v.next_send
    &&& waker_done(v, o, cached, id)
}

/// The sender is turned away, and has its message back.
pub open spec fn turned_away<T>(
    v: ChannelView<T>,
    o: Outcome<T>,
    cached: Option<u64>,
    id: u64,
) -> bool {
    &&& o.step == (StepView::<T>::Finished {
        result: Err(SendTimeoutError::Disconnected(v.send_wakers[id].payload->0)),
    })
    &&& o.shared.queue == v.queue
    &&& o.wakes == Seq::<WakerType>::empty()
    &&& same_channel(v, o.shared)
    &&& same_receivers(v, o.shared)
    &&& o.shared.next_send == v.next_send
    &&& o.shared.send_wakers == v.send_wakers.remove(id)
    &&& o.cached == cached
}

/// The thread is to pause, for so long as its backoff says after so many pauses, and
/// then to go on in that phase.
pub open spec fn pauses_at<T>(
    step: StepView<T>,
    send: SendView,
    pauses: nat,
    phase: TryPhase,
    registered: bool,
) -> bool {
    step == (StepView::<T>::Pause {
        pause: if pauses < send.backoff.spin_limit {
            Pause::Spun(vstd::arithmetic::power2::pow2(pauses) as u32)
        } else {
            Pause::Yield
        },
        send,
        attempt: AttemptView {
            steps: if pauses < 10 {
                pauses + 1
            } else {
                pauses
            },
            conf: send.backoff,
            phase,
        },
        registered,
    })
}

/// What a thread does next that could not put its message in: on the fast path it
/// watches, until it paused as often as its backoff says, and then looks at the clock;
/// off it it gives way first.
pub open spec fn sets_out<T>(
    step: StepView<T>,
    send: SendView,
    locked: bool,
    registered: bool,
) -> bool {
    if !send.fastpath {
        pauses_at(step, send, 0, TryPhase::Retry, registered)
    } else if send.backoff.limit > 0 || locked {
        pauses_at(step, send, 0, TryPhase::Watch, registered)
    } else {
        step == (StepView::<T>::CheckTimeout { send })
    }
}

/// The send goes on: nobody was woken, and no message came or went. A sender that had
/// been woken is queued again, behind all others; else nothing changed at all.
pub open spec fn waits_on<T>(
    v: ChannelView<T>,
    o: Outcome<T>,
    cached: Option<u64>,
    send: SendView,
) -> bool {
    let id = send.waker;
    let before = v.send_wakers[id];
    &&& o.wakes == Seq::<WakerType>::empty()
    &&& o.cached == cached
    &&& if before.state == 1u8 {
        &&& o.shared.queue == v.queue
        &&& same_channel(v, o.shared)
        &&& same_receivers(v, o.shared)
        &&& o.shared.next_send == v.next_send
        &&& o.shared.senders.kind == v.senders.kind
        &&& o.shared.senders.checking == v.senders.checking
        &&& v.senders.kind == RegistryKind::Multi ==> {
            &&& o.shared.senders.entries == v.senders.entries.push(id)
            &&& o.shared.senders.next_seq == (if v.senders.next_seq == usize::MAX {
                0
            } else {
                v.senders.next_seq + 1
            })
            &&& o.shared.send_wakers == v.send_wakers.insert(
                id,
                WakerInner { state: 0u8, seq: v.senders.next_seq, ..before },
            )
        }
        &&& v.senders.kind == RegistryKind::Single ==> {
            &&& o.shared.senders.entries == seq![id]
            &&& o.shared.senders.next_seq == v.senders.next_seq
            &&& o.shared.send_wakers == v.send_wakers.insert(
                id,
                WakerInner { state: 0u8, ..before },
            )
        }
    } else {
        o.shared == v && before.state == 0u8
    }
}

proof fn lemma_own_comes_in<T>(v: ChannelView<T>, cached: Option<u64>, id: u64)
    requires
        v.send_wakers.contains_key(id),
        v.send_wakers[id].payload is Some,
    ensures
        sent_itself(
            v,
            v.handed_in(id).sender_done(cached, id, v.taken_over(id).announce_wakes()),
            cached,
            id,
        ),
        v.send_wakers[id].state == 1u8 ==> sent_itself(
            v,
            v.retried(id).sender_done(cached, id, v.announce_wakes()),
            cached,
            id,
        ),
{
    let item = v.send_wakers[id].payload->0;
    let taken = v.taken_over(id);
    let withdrawn = ChannelView { senders: taken.senders.withdrawn(id), ..taken };
    law_announced_wakes_one(v);
    law_announced_wakes_one(taken);
    law_announced_wakes_one(withdrawn);
    let put = v.pushed(item).with_send_waker(
        id,
        WakerInner { payload: None, ..v.send_wakers[id] },
    );
    law_announced_wakes_one(put);
    let h = v.handed_in(id);
    assert(h.send_wakers == taken.send_wakers);
    assert(taken.send_wakers.dom() =~= v.send_wakers.dom());
    assert(put.send_wakers.dom() =~= v.send_wakers.dom());
    assert(one_receiver_woken(v, h, taken.announce_wakes()));
    let o = h.sender_done(cached, id, taken.announce_wakes());
    assert(came_in(v, o.shared, o.wakes, item));
    let r = v.retried(id);
    assert(r.send_wakers == put.send_wakers);
    assert(put.announce_wakes() == v.announce_wakes());
    assert(one_receiver_woken(v, r, v.announce_wakes()));
}

/// A round of a sender that waits or was woken.
proof fn lemma_round_effect<T>(v: ChannelView<T>, cached: Option<u64>, send: SendView)
    requires
        v.sound(),
        v.pending(send.waker),
        v.send_wakers[send.waker].state <= 1u8,
        v.senders.kind != RegistryKind::Dummy,
    ensures
        ({
            let id = send.waker;
            let o = v.round(cached, send, Seq::empty());
            if v.closed {
                turned_away(v, o, cached, id)
            } else if send.fastpath && has_room(v) && !v.send_wakers[id].locked {
                sent_itself(v, o, cached, id)
            } else {
                waits_on(v, o, cached, send) && sets_out(
                    o.step,
                    send,
                    v.send_wakers[id].locked,
                    true,
                )
            }
        }),
{
    let id = send.waker;
    let r = v.send_registered(id);
    assert(v.full() == !has_room(v));
    assert(r.send_wakers.contains_key(id));
    assert(r.send_wakers[id].payload == v.send_wakers[id].payload);
    assert(r.send_wakers[id].state == 0u8);
    assert(r.send_wakers.dom() =~= v.send_wakers.dom());
    let e = Seq::<WakerType>::empty();
    let o = v.round(cached, send, e);
    if v.closed {
        let c = r.found_closed(id).shared;
        assert(c.send_wakers.remove(id) =~= v.send_wakers.remove(id));
        assert(e + e =~= e);
    } else if send.fastpath && has_room(v) && !v.send_wakers[id].locked {
        lemma_own_comes_in(r, cached, id);
        assert(e + r.taken_over(id).announce_wakes() =~= r.taken_over(id).announce_wakes());
        assert(o == r.handed_in(id).sender_done(cached, id, r.taken_over(id).announce_wakes()));
        assert(sent_itself(r, o, cached, id));
        assert(one_receiver_woken(v, o.shared, o.wakes));
        assert(came_in(v, o.shared, o.wakes, v.send_wakers[id].payload->0));
        assert(waker_done(v, o, cached, id));
    } else {
        assert(e + e =~= e);
        assert(o.shared == r);
        let before = v.send_wakers[id];
        if before.state == 1u8 && v.senders.kind == RegistryKind::Multi {
            assert(r.send_wakers =~= v.send_wakers.insert(
                id,
                WakerInner { state: 0u8, seq: v.senders.next_seq, ..before },
            ));
        }
    }
}

/// What a sender comes to that finds its wait ended by another, or was woken.
pub open spec fn resumed<T>(
    v: ChannelView<T>,
    o: Outcome<T>,
    cached: Option<u64>,
    send: SendView,
) -> bool {
    let id = send.waker;
    let waker = v.send_wakers[id];
    if waker.state == 2u8 {
        was_taken(v, o, cached, id)
    } else if waker.state == 3u8 {
        turned_away(v, o, cached, id)
    } else if has_room(v) {
        sent_itself(v, o, cached, id)
    } else if v.closed {
        turned_away(v, o, cached, id)
    } else {
        waits_on(v, o, cached, send) && sets_out(o.step, send, waker.locked, true)
    }
}

/// What a sender comes to that registered, and tries once more from the start.
pub open spec fn tried_anew<T>(
    v: ChannelView<T>,
    o: Outcome<T>,
    cached: Option<u64>,
    send: SendView,
    registered: bool,
) -> bool {
    let id = send.waker;
    let waker = v.send_wakers[id];
    if v.closed {
        turned_away(v, o, cached, id)
    } else if send.fastpath && has_room(v) && !waker.locked {
        sent_itself(v, o, cached, id)
    } else {
        waits_on(v, o, cached, send) && sets_out(o.step, send, waker.locked, registered)
    }
}

proof fn lemma_resumed<T>(v: ChannelView<T>, cached: Option<u64>, send: SendView)
    requires
        v.sound(),
        v.pending(send.waker),
        v.send_wakers[send.waker].state > 0u8,
        v.senders.kind != RegistryKind::Dummy,
    ensures
        resumed(
            v,
            v.decided(cached, send, Seq::empty(), v.send_wakers[send.waker].state),
            cached,
            send,
        ),
{
    let id = send.waker;
    let state = v.send_wakers[id].state;
    let e = Seq::<WakerType>::empty();
    let o = v.decided(cached, send, e, state);
    assert(state <= 3u8);
    assert(v.full() == !has_room(v));
    if state == 2u8 {
        assert(v.send_wakers[id].payload is None);
        assert(was_taken(v, o, cached, id));
    } else if state == 3u8 {
        assert(turned_away(v, o, cached, id));
    } else if has_room(v) {
        lemma_own_comes_in(v, cached, id);
        assert(e + v.announce_wakes() =~= v.announce_wakes());
    } else {
        lemma_round_effect(v, cached, send);
    }
}

/// What becomes of a send whose thread was parked. If its message was taken, it is over,
/// with success, and nothing goes in again. If the channel was closed meanwhile, the
/// message comes back. If the thread was woken, it puts the message in, behind all others,
/// and the foremost receiver that is asleep is woken; or, without room, it queues up anew.
/// If nobody woke it, it tries once more, and waits on.
pub proof fn law_after_park<T>(v: ChannelView<T>, cached: Option<u64>, send: SendView)
    requires
        v.sound(),
        v.pending(send.waker),
        v.senders.kind != RegistryKind::Dummy,
    ensures
        v.send_wakers[send.waker].state > 0u8 ==> resumed(
            v,
            v.after_park(cached, send),
            cached,
            send,
        ),
        v.send_wakers[send.waker].state == 0u8 ==> tried_anew(
            v,
            v.after_park(cached, send),
            cached,
            send,
            false,
        ),
{
    let id = send.waker;
    let e = Seq::<WakerType>::empty();
    assert(v.full() == !has_room(v));
    if v.send_wakers[id].state > 0u8 {
        lemma_resumed(v, cached, send);
    } else {
        let o = v.after_park(cached, send);
        assert(e + e =~= e);
        vstd::arithmetic::power2::lemma2_to64();
        if v.closed {
            assert(v.found_closed(id).shared.send_wakers.remove(id) =~= v.send_wakers.remove(id));
        } else if send.fastpath && has_room(v) && !v.send_wakers[id].locked {
            lemma_own_comes_in(v, cached, id);
            assert(e + v.taken_over(id).announce_wakes() =~= v.taken_over(id).announce_wakes());
        } else {
            lemma_round_effect(v, cached, send);
        }
    }
}

/// What becomes of a send whose thread paused. Told as after it was parked, but a thread
/// that is still asleep goes on where it was: one that gave way first puts its message in
/// if there is room; one that watches goes on watching, until it paused as often as its
/// backoff says, and then looks at the clock or, if it was parked before, tries anew.
pub proof fn law_after_pause<T>(
    v: ChannelView<T>,
    cached: Option<u64>,
    send: SendView,
    attempt: AttemptView,
    registered: bool,
)
    requires
        v.sound(),
        v.pending(send.waker),
        v.senders.kind != RegistryKind::Dummy,
        !(attempt.phase is Lock),
        attempt.conf == send.backoff,
    ensures
        ({
            let id = send.waker;
            let waker = v.send_wakers[id];
            let o = v.after_pause(cached, send, attempt, registered);
            if waker.state >= 2u8 || (waker.state == 1u8 && registered) {
                resumed(v, o, cached, send)
            } else if waker.state == 1u8 {
                tried_anew(v, o, cached, send, true)
            } else if attempt.phase is Retry && has_room(v) && !waker.locked {
                sent_itself(v, o, cached, id)
            } else if attempt.steps < send.backoff.limit || waker.locked {
                waits_on(v, o, cached, send) && pauses_at(
                    o.step,
                    send,
                    attempt.steps,
                    TryPhase::Watch,
                    registered,
                )
            } else if registered {
                waits_on(v, o, cached, send) && o.step == (StepView::<T>::CheckTimeout { send })
            } else {
                tried_anew(v, o, cached, send, true)
            }
        }),
{
    let id = send.waker;
    let waker = v.send_wakers[id];
    let e = Seq::<WakerType>::empty();
    assert(v.full() == !has_room(v));
    assert(e + e =~= e);
    assert(waker.state <= 3u8);
    let o = v.after_pause(cached, send, attempt, registered);
    let tried = v.try_on(id, attempt);
    if waker.state >= 2u8 || (waker.state == 1u8 && registered) {
        lemma_resumed(v, cached, send);
        assert(tried.shared == v && tried.wakes == e);
        assert(o == v.decided(cached, send, e, waker.state));
    } else if waker.state == 1u8 {
        lemma_round_effect(v, cached, send);
        assert(o == v.round(cached, send, e));
    } else if attempt.phase is Retry && has_room(v) && !waker.locked {
        let h = v.handed_in(id);
        let wakes = v.taken_over(id).announce_wakes();
        lemma_own_comes_in(v, cached, id);
        assert(e + wakes =~= wakes);
        assert(o == h.sender_done(cached, id, wakes));
    } else if attempt.steps < send.backoff.limit || waker.locked {
        assert(o.shared == v);
    } else if !registered {
        lemma_round_effect(v, cached, send);
        assert(o == v.round(cached, send, e));
    }
}

} // verus!
