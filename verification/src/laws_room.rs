//! What room does to a channel, and what it means that somebody comes, leaves, registers or
//! gives up, told by the messages and by who is asleep and who is woken.

use vstd::prelude::*;

use crate::laws_effects::{
    all_awake, asleep, foremost, has_room, one_receiver_woken, put_to, same_channel,
    same_receivers, same_registry, same_senders, waker_for,
};
use crate::locked_waker::{WakerInner, WakerState, WakerType};
use crate::model::{ChannelView, Serving};
use crate::waker_registry::{RegistryKind, RegistryView};

verus! {

/// The sender was woken. If there was room, its message went in, behind all others, and
/// the foremost receiver that is asleep was woken too; if there was none, the sender is to
/// try again.
pub open spec fn sender_served<T>(
    v: ChannelView<T>,
    w: ChannelView<T>,
    wakes: Seq<WakerType>,
    id: u64,
) -> bool {
    let waker = v.send_wakers[id];
    &&& wakes.len() > 0 && wakes[0] == waker.waker
    &&& same_channel(v, w)
    &&& w.next_send == v.next_send
    &&& has_room(v) ==> {
        &&& w.queue == v.queue.push(waker.payload->0)
        &&& w.send_wakers == v.send_wakers.insert(
            id,
            WakerInner { state: 2u8, payload: None, ..waker },
        )
        &&& one_receiver_woken(v, w, wakes.drop_first())
    }
    &&& !has_room(v) ==> {
        &&& w.queue == v.queue
        &&& w.send_wakers == v.send_wakers.insert(id, put_to(waker, 1u8))
        &&& same_receivers(v, w)
        &&& wakes.len() == 1
    }
}

/// To serve a sender: one that is awake is passed over, one whose waker is locked is left
/// to itself, and then nothing changes; else it is served.
pub proof fn law_serves_one<T>(v: ChannelView<T>, id: u64)
    ensures
        !asleep(v.send_wakers, id) ==> v.serving(id) == Serving::Passed,
        asleep(v.send_wakers, id) && v.send_wakers[id].locked ==> v.serving(id) == Serving::Busy,
        asleep(v.send_wakers, id) && !v.send_wakers[id].locked ==> {
            &&& v.serving(id) == Serving::Woken
            &&& sender_served(v, v.served(id), v.serve_wakes(id), id)
            &&& v.served(id).senders == v.senders
        },
        !asleep(v.send_wakers, id) || v.send_wakers[id].locked ==> v.served(id) == v
            && v.serve_wakes(id) == Seq::<WakerType>::empty(),
{
    assert(v.full() == !has_room(v));
    if asleep(v.send_wakers, id) && !v.send_wakers[id].locked && has_room(v) {
        let taken = v.taken_over(id);
        crate::laws_effects::law_announced_wakes_one(taken);
        let wakes = v.serve_wakes(id);
        assert(wakes.drop_first() =~= taken.announce_wakes());
        assert(one_receiver_woken(v, v.served(id), wakes.drop_first()));
    }
}

/// Room goes to the foremost sender that is asleep: it is served, and is no longer queued,
/// nor is who was queued ahead. If all are awake, nothing changes but that nobody is queued.
pub proof fn law_room_goes_to_foremost<T>(v: ChannelView<T>)
    ensures
        same_registry(v.senders, v.made_room().senders),
        forall|k: int| #[trigger]
            foremost(v.senders.entries, v.send_wakers, k)
                && !v.send_wakers[v.senders.entries[k]].locked ==> {
                &&& sender_served(v, v.made_room(), v.room_wakes(), v.senders.entries[k])
                &&& v.made_room().senders.entries == v.senders.entries.subrange(
                    k + 1,
                    v.senders.entries.len() as int,
                )
            },
        all_awake(v.senders.entries, v.send_wakers) ==> {
            &&& v.room_wakes() == Seq::<WakerType>::empty()
            &&& v.made_room() == (ChannelView {
                senders: RegistryView { entries: Seq::empty(), ..v.senders },
                ..v
            })
        },
{
    let entries = v.senders.entries;
    let n = RegistryView::first_index(entries, RegistryView::waits_in(v.send_wakers));
    crate::laws_effects::lemma_foremost(entries, v.send_wakers);
    let rest = ChannelView {
        senders: v.senders.with_entries(RegistryView::behind(entries, n)),
        ..v
    };
    assert forall|k: int| #[trigger]
        foremost(entries, v.send_wakers, k) && !v.send_wakers[entries[k]].locked implies
        sender_served(v, v.made_room(), v.room_wakes(), entries[k])
        && v.made_room().senders.entries == entries.subrange(k + 1, entries.len() as int) by {
        assert(k == n);
        assert(entries.skip(k + 1) =~= entries.subrange(k + 1, entries.len() as int));
        law_serves_one(rest, entries[k]);
        assert(rest.taken_over(entries[k]).announce_wakes() == v.taken_over(
            entries[k],
        ).announce_wakes());
        assert(v.room_wakes() == rest.serve_wakes(entries[k]));
        assert(sender_served(rest, v.made_room(), v.room_wakes(), entries[k]));
        assert(has_room(v) == has_room(rest));
        if has_room(v) {
            assert(one_receiver_woken(v, v.made_room(), v.room_wakes().drop_first()));
        }
    }
    if all_awake(entries, v.send_wakers) && n < entries.len() {
        assert(foremost(entries, v.send_wakers, n as int));
    }
    match v.next_sender() {
        Some(id) => law_serves_one(rest, id),
        None => {},
    }
}

/// To take a message out gives the oldest, and leaves the others in their order.
pub proof fn law_oldest_comes_out<T>(v: ChannelView<T>)
    ensures
        v.queue.len() > 0 ==> seq![v.queue[0]] + v.received().queue == v.queue,
        v.queue.len() == 0 ==> v.received().queue == v.queue,
        same_channel(v, v.received()),
        same_receivers(v, v.received()),
        same_senders(v, v.received()),
{
    if v.queue.len() > 0 {
        assert(seq![v.queue[0]] + v.received().queue =~= v.queue);
    }
}

/// All who were queued and asleep are told that the channel is closed, and the wakers are
/// otherwise the same.
pub open spec fn all_told<P>(
    entries: Seq<u64>,
    before: Map<u64, WakerInner<P>>,
    after: Map<u64, WakerInner<P>>,
) -> bool {
    &&& after.dom() == before.dom()
    &&& forall|id: u64| #[trigger]
        before.contains_key(id) ==> after[id] == (if entries.contains(id) && asleep(before, id) {
            put_to(before[id], 3u8)
        } else {
            before[id]
        })
}

/// Those who are queued and asleep.
pub open spec fn queued_asleep<P>(
    entries: Seq<u64>,
    wakers: Map<u64, WakerInner<P>>,
    id: u64,
) -> bool {
    entries.contains(id) && asleep(wakers, id)
}

/// All who are queued and asleep.
pub open spec fn sleepers<P>(entries: Seq<u64>, wakers: Map<u64, WakerInner<P>>) -> Set<u64> {
    entries.to_set().filter(|id: u64| asleep(wakers, id))
}

/// Somebody who is queued and asleep is woken in that way.
pub open spec fn is_target<P>(
    entries: Seq<u64>,
    wakers: Map<u64, WakerInner<P>>,
    target: WakerType,
) -> bool {
    exists|id: u64| #[trigger] queued_asleep(entries, wakers, id) && wakers[id].waker == target
}

/// Who is woken when those who are queued are woken in turn, the foremost first: whoever is
/// asleep, and nobody twice.
pub open spec fn woken_in_turn<P>(
    entries: Seq<u64>,
    wakers: Map<u64, WakerInner<P>>,
) -> Seq<WakerType>
    decreases entries.len(),
{
    if entries.len() == 0 {
        Seq::empty()
    } else if asleep(wakers, entries[0]) {
        seq![wakers[entries[0]].waker] + woken_in_turn(
            entries.drop_first(),
            wakers.remove(entries[0]),
        )
    } else {
        woken_in_turn(entries.drop_first(), wakers)
    }
}

proof fn lemma_same_in_turn<P>(
    entries: Seq<u64>,
    wakers1: Map<u64, WakerInner<P>>,
    wakers2: Map<u64, WakerInner<P>>,
)
    requires
        forall|id: u64| #[trigger] asleep(wakers1, id) <==> asleep(wakers2, id),
        forall|id: u64| #[trigger]
            asleep(wakers1, id) ==> wakers1[id].waker == wakers2[id].waker,
    ensures
        woken_in_turn(entries, wakers1) == woken_in_turn(entries, wakers2),
    decreases entries.len(),
{
    if entries.len() > 0 {
        let first = entries[0];
        assert(asleep(wakers1, first) <==> asleep(wakers2, first));
        if asleep(wakers1, first) {
            let rest1 = wakers1.remove(first);
            let rest2 = wakers2.remove(first);
            assert forall|id: u64| #[trigger] asleep(rest1, id) <==> asleep(rest2, id) by {
                assert(asleep(wakers1, id) <==> asleep(wakers2, id));
            }
            assert forall|id: u64| #[trigger] asleep(rest1, id) implies rest1[id].waker
                == rest2[id].waker by {
                assert(asleep(wakers1, id));
            }
            lemma_same_in_turn(entries.drop_first(), rest1, rest2);
        } else {
            lemma_same_in_turn(entries.drop_first(), wakers1, wakers2);
        }
    }
}

/// Those who are queued are woken in turn.
pub(crate) proof fn lemma_targets_in_turn<P>(
    entries: Seq<u64>,
    wakers: Map<u64, WakerInner<P>>,
    state: WakerState,
)
    requires
        state != WakerState::WAITING,
    ensures
        RegistryView::targets(entries, wakers, state) == woken_in_turn(entries, wakers),
    decreases entries.len(),
{
    if entries.len() > 0 {
        let first = entries[0];
        let moved = WakerInner::after_move(wakers, first, state);
        lemma_targets_in_turn(entries.drop_first(), moved, state);
        if asleep(wakers, first) {
            let rest = wakers.remove(first);
            assert forall|id: u64| #[trigger] asleep(moved, id) <==> asleep(rest, id) by {}
            lemma_same_in_turn(entries.drop_first(), moved, rest);
        } else {
            assert(Seq::<WakerType>::empty() + woken_in_turn(entries.drop_first(), wakers)
                =~= woken_in_turn(entries.drop_first(), wakers));
        }
    }
}

/// Whoever is queued and asleep is woken, once, and nobody else.
pub(crate) proof fn lemma_targets<P>(
    entries: Seq<u64>,
    wakers: Map<u64, WakerInner<P>>,
    state: WakerState,
)
    requires
        state != WakerState::WAITING,
    ensures
        forall|id: u64| #[trigger]
            queued_asleep(entries, wakers, id) ==> RegistryView::targets(
                entries,
                wakers,
                state,
            ).contains(wakers[id].waker),
        forall|i: int|
            0 <= i < RegistryView::targets(entries, wakers, state).len() ==> is_target(
                entries,
                wakers,
                #[trigger] RegistryView::targets(entries, wakers, state)[i],
            ),
        RegistryView::targets(entries, wakers, state).len() == sleepers(entries, wakers).len(),
    decreases entries.len(),
{
    if entries.len() == 0 {
        assert(sleepers(entries, wakers) =~= Set::empty());
    } else {
        let first = entries[0];
        let rest = entries.drop_first();
        let moved = WakerInner::after_move(wakers, first, state);
        let head = WakerInner::target_of(wakers, first);
        let tail = RegistryView::targets(rest, moved, state);
        let all = RegistryView::targets(entries, wakers, state);
        lemma_targets(rest, moved, state);
        assert(all == head + tail);
        assert forall|id: u64| entries.to_set().contains(id) <==> (id == first
            || #[trigger] rest.to_set().contains(id)) by {
            if entries.contains(id) && id != first {
                let i = choose|i: int| 0 <= i < entries.len() && entries[i] == id;
                assert(rest[i - 1] == id);
            }
            if rest.contains(id) {
                let i = choose|i: int| 0 <= i < rest.len() && rest[i] == id;
                assert(entries[i + 1] == id);
            }
        }
        if asleep(wakers, first) {
            assert(!sleepers(rest, moved).contains(first));
            assert(sleepers(entries, wakers) =~= sleepers(rest, moved).insert(first));
        } else {
            assert(sleepers(entries, wakers) =~= sleepers(rest, moved));
        }
        assert forall|id: u64| #[trigger] queued_asleep(entries, wakers, id) implies all.contains(
            wakers[id].waker,
        ) by {
            if id == first {
                assert(all[0] == wakers[id].waker);
            } else {
                let i = choose|i: int| 0 <= i < entries.len() && entries[i] == id;
                assert(rest[i - 1] == id);
                assert(queued_asleep(rest, moved, id));
                let j = choose|j: int| 0 <= j < tail.len() && tail[j] == moved[id].waker;
                assert(all[head.len() + j] == wakers[id].waker);
            }
        }
        assert forall|i: int| 0 <= i < all.len() implies is_target(
            entries,
            wakers,
            #[trigger] all[i],
        ) by {
            if i < head.len() {
                assert(entries.contains(first));
                assert(queued_asleep(entries, wakers, first) && wakers[first].waker == all[i]);
            } else {
                assert(is_target(rest, moved, tail[i - head.len()]));
                let id = choose|id: u64| #[trigger]
                    queued_asleep(rest, moved, id) && moved[id].waker == tail[i - head.len()];
                let j = choose|j: int| 0 <= j < rest.len() && rest[j] == id;
                assert(entries[j + 1] == id);
                assert(queued_asleep(entries, wakers, id) && wakers[id].waker == all[i]);
            }
        }
    }
}

/// Whoever was queued and asleep, on either side, is woken, once, and nobody else: the
/// receivers first, and the foremost first on either side.
pub open spec fn all_woken<T>(v: ChannelView<T>, wakes: Seq<WakerType>) -> bool {
    &&& forall|id: u64| #[trigger]
        queued_asleep(v.recvs.entries, v.recv_wakers, id) ==> wakes.contains(
            v.recv_wakers[id].waker,
        )
    &&& forall|id: u64| #[trigger]
        queued_asleep(v.senders.entries, v.send_wakers, id) ==> wakes.contains(
            v.send_wakers[id].waker,
        )
    &&& forall|i: int|
        0 <= i < wakes.len() ==> is_target(
            v.recvs.entries,
            v.recv_wakers,
            #[trigger] wakes[i],
        ) || is_target(v.senders.entries, v.send_wakers, wakes[i])
    &&& wakes == woken_in_turn(v.recvs.entries, v.recv_wakers) + woken_in_turn(
        v.senders.entries,
        v.send_wakers,
    )
    &&& wakes.len() == sleepers(v.recvs.entries, v.recv_wakers).len() + sleepers(
        v.senders.entries,
        v.send_wakers,
    ).len()
}

/// One of the sides is gone: all who are queued and asleep are told so, and nobody is
/// queued any longer. The messages stay.
pub open spec fn side_gone<T>(v: ChannelView<T>, w: ChannelView<T>) -> bool {
    &&& w.closed
    &&& w.queue == v.queue
    &&& w.bound == v.bound
    &&& same_registry(v.senders, w.senders) && w.senders.entries == Seq::<u64>::empty()
    &&& same_registry(v.recvs, w.recvs) && w.recvs.entries == Seq::<u64>::empty()
    &&& all_told(v.senders.entries, v.send_wakers, w.send_wakers)
    &&& all_told(v.recvs.entries, v.recv_wakers, w.recv_wakers)
    &&& w.next_send == v.next_send && w.next_recv == v.next_recv
    &&& w.backoff_tx == v.backoff_tx && w.backoff_rx == v.backoff_rx
    &&& w.tx_control == v.tx_control
}

/// When a sender leaves, or a receiver, there is one less. When it was the last, the
/// channel is closed: all who are queued and asleep, on both sides, are told so and woken,
/// and the messages stay. Else nothing changes.
pub proof fn law_one_leaves<T>(v: ChannelView<T>)
    ensures
        v.tx_count > 1 ==> v.without_tx() == (ChannelView {
            tx_count: (v.tx_count - 1) as usize,
            ..v
        }),
        v.rx_count > 1 ==> v.without_rx() == (ChannelView {
            rx_count: (v.rx_count - 1) as usize,
            ..v
        }),
        v.tx_count <= 1 ==> {
            &&& side_gone(v, v.without_tx())
            &&& v.without_tx().rx_count == v.rx_count
            &&& v.without_tx().tx_count == (if v.tx_count == 1 {
                0
            } else {
                usize::MAX
            })
        },
        v.rx_count <= 1 ==> {
            &&& side_gone(v, v.without_rx())
            &&& v.without_rx().tx_count == v.tx_count
            &&& v.without_rx().rx_count == (if v.rx_count == 1 {
                0
            } else {
                usize::MAX
            })
        },
        all_woken(v, v.shut_wakes()),
{
    let tx = v.without_tx();
    let rx = v.without_rx();
    if v.tx_count <= 1 {
        assert(tx.send_wakers.dom() =~= v.send_wakers.dom());
        assert(tx.recv_wakers.dom() =~= v.recv_wakers.dom());
    }
    if v.rx_count <= 1 {
        assert(rx.send_wakers.dom() =~= v.send_wakers.dom());
        assert(rx.recv_wakers.dom() =~= v.recv_wakers.dom());
    }
    lemma_shut_wakes(v);
}

proof fn lemma_shut_wakes<T>(v: ChannelView<T>)
    ensures
        all_woken(v, v.shut_wakes()),
{
    let a = RegistryView::targets(v.recvs.entries, v.recv_wakers, WakerState::CLOSED);
    let b = RegistryView::targets(v.senders.entries, v.send_wakers, WakerState::CLOSED);
    let wakes = v.shut_wakes();
    assert(wakes == a + b);
    lemma_targets(v.recvs.entries, v.recv_wakers, WakerState::CLOSED);
    lemma_targets(v.senders.entries, v.send_wakers, WakerState::CLOSED);
    lemma_targets_in_turn(v.recvs.entries, v.recv_wakers, WakerState::CLOSED);
    lemma_targets_in_turn(v.senders.entries, v.send_wakers, WakerState::CLOSED);
    assert forall|id: u64| #[trigger]
        queued_asleep(v.recvs.entries, v.recv_wakers, id) implies wakes.contains(
        v.recv_wakers[id].waker,
    ) by {
        let i = choose|i: int| 0 <= i < a.len() && a[i] == v.recv_wakers[id].waker;
        assert(wakes[i] == a[i]);
    }
    assert forall|id: u64| #[trigger]
        queued_asleep(v.senders.entries, v.send_wakers, id) implies wakes.contains(
        v.send_wakers[id].waker,
    ) by {
        let i = choose|i: int| 0 <= i < b.len() && b[i] == v.send_wakers[id].waker;
        assert(wakes[a.len() + i] == b[i]);
    }
    assert forall|i: int| 0 <= i < wakes.len() implies is_target(
        v.recvs.entries,
        v.recv_wakers,
        #[trigger] wakes[i],
    ) || is_target(v.senders.entries, v.send_wakers, wakes[i]) by {
        if i < a.len() {
            assert(wakes[i] == a[i]);
        } else {
            assert(wakes[i] == b[i - a.len()]);
        }
    }
}

/// Those who come change the number of their side, and after them both sides are tuned:
/// the senders of a bounded channel give way to each other if and only if they outnumber
/// the receivers, and either side backs off as is chosen for the numbers of both.
pub proof fn law_tuned_to_numbers<T>(v: ChannelView<T>, avail: usize)
    ensures
        ({
            let w = v.configured(avail);
            let tx = crate::tuning::chosen_backoff(v.tx_count, v.rx_count, avail);
            let rx = crate::tuning::chosen_backoff(v.rx_count, v.tx_count, avail);
            &&& w.tx_control == (v.bound is Some && v.tx_count > v.rx_count)
            &&& w.backoff_tx == tx.limit * 65536 + tx.spin_limit
            &&& w.backoff_rx == rx.limit * 65536 + rx.spin_limit
            &&& w.queue == v.queue && w.bound == v.bound && w.closed == v.closed
            &&& w.tx_count == v.tx_count && w.rx_count == v.rx_count
            &&& w.next_recv == v.next_recv
            &&& same_senders(v, w) && same_receivers(v, w)
        }),
{
    crate::tuning::law_backoff_in_range(v.tx_count, v.rx_count, avail);
    crate::tuning::law_backoff_in_range(v.rx_count, v.tx_count, avail);
}

/// A new channel is open and holds what it was given, has one sender and one receiver,
/// neither of which waits, and both back off in the usual way.
pub proof fn law_made_open<T>(
    queue: Seq<T>,
    bound: Option<usize>,
    senders: RegistryView,
    recvs: RegistryView,
)
    ensures
        ({
            let v = ChannelView::initial(queue, bound, senders, recvs);
            &&& !v.closed && v.tx_count == 1 && v.rx_count == 1
            &&& v.queue == queue && v.bound == bound
            &&& v.senders == senders && v.recvs == recvs
            &&& v.send_wakers == Map::<u64, WakerInner<Option<T>>>::empty()
            &&& v.recv_wakers == Map::<u64, WakerInner<()>>::empty()
            &&& v.backoff_tx == 6 * 65536 + 6 && v.backoff_rx == 6 * 65536 + 6
            &&& !v.tx_control
            &&& v.next_send == 0 && v.next_recv == 0
        }),
        forall|kind: RegistryKind|
            ({
                let registry = #[trigger] RegistryView::empty(kind);
                &&& registry.kind == kind
                &&& registry.entries == Seq::<u64>::empty()
                &&& registry.next_seq == 0
                &&& !registry.checking
            }),
{
}

/// Whether one of several senders tries at once: not if they give way to each other and
/// some of them are queued.
pub proof fn law_gives_way_when_queued<T>(v: ChannelView<T>)
    ensures
        v.uncongested() <==> !(v.tx_control && v.senders.entries.len() > 0),
{
}

/// A new waker is awake and unlocked, and has the next number; nothing else changes. A
/// waker that is dropped is gone, and nothing else is.
pub proof fn law_wakers_come_and_go<T>(v: ChannelView<T>, waker: WakerType, item: T, id: u64)
    requires
        v.next_send < u64::MAX,
        v.next_recv < u64::MAX,
    ensures
        v.with_new_send(waker, item) == (ChannelView {
            send_wakers: v.send_wakers.insert(
                v.next_send,
                WakerInner { state: 1u8, locked: false, seq: 0, waker, payload: Some(item) },
            ),
            next_send: (v.next_send + 1) as u64,
            ..v
        }),
        v.with_new_recv(waker) == (ChannelView {
            recv_wakers: v.recv_wakers.insert(
                v.next_recv,
                WakerInner { state: 1u8, locked: false, seq: 0, waker, payload: () },
            ),
            next_recv: (v.next_recv + 1) as u64,
            ..v
        }),
        v.without_send_waker(id) == (ChannelView {
            send_wakers: v.send_wakers.remove(id),
            ..v
        }),
        v.without_recv_waker(id) == (ChannelView {
            recv_wakers: v.recv_wakers.remove(id),
            ..v
        }),
{
}

/// A sender that is about to wait gets the waker that it kept, readied for its thread and
/// its message, or else a new one.
pub proof fn law_waker_readied<T>(v: ChannelView<T>, cached: Option<u64>, thread: u64, item: T)
    requires
        cached is None ==> v.next_send < u64::MAX,
    ensures
        v.acquired_id(cached) == waker_for(v, cached),
        cached is Some ==> v.acquired(cached, thread, item) == (ChannelView {
            send_wakers: v.send_wakers.insert(
                cached->0,
                WakerInner {
                    state: 1u8,
                    waker: WakerType::Blocking(thread),
                    payload: Some(item),
                    ..v.send_wakers[cached->0]
                },
            ),
            ..v
        }),
        cached is None ==> v.acquired(cached, thread, item) == (ChannelView {
            send_wakers: v.send_wakers.insert(
                v.next_send,
                WakerInner {
                    state: 1u8,
                    locked: false,
                    seq: 0,
                    waker: WakerType::Blocking(thread),
                    payload: Some(item),
                },
            ),
            next_send: (v.next_send + 1) as u64,
            ..v
        }),
{
}

/// A sender that is done with its waker keeps it, if it keeps no other, the waker is
/// awake, and it is not queued; else it drops it. Nothing else changes.
pub proof fn law_waker_handed_in<T>(v: ChannelView<T>, cached: Option<u64>, id: u64)
    requires
        v.send_wakers.contains_key(id),
    ensures
        ({
            let o = v.sender_done(cached, id, Seq::empty());
            let keep = cached is None && !asleep(v.send_wakers, id)
                && !v.senders.entries.contains(id);
            &&& keep ==> o.shared == v && o.cached == Some(id)
            &&& !keep ==> o.cached == cached && o.shared == (ChannelView {
                send_wakers: v.send_wakers.remove(id),
                ..v
            })
        }),
{
}

/// One that is awake, and whose wait was not ended for good, is asleep after it registered:
/// it is queued behind all others, under the next sequence number, or, where only one can
/// be, in place of whoever was. Nothing else changes.
pub open spec fn enlisted<P>(
    registry: RegistryView,
    wakers: Map<u64, WakerInner<P>>,
    after: RegistryView,
    wakers_after: Map<u64, WakerInner<P>>,
    id: u64,
) -> bool {
    &&& after.kind == registry.kind && after.checking == registry.checking
    &&& registry.kind == RegistryKind::Multi ==> {
        &&& after.entries == registry.entries.push(id)
        &&& after.next_seq == (if registry.next_seq == usize::MAX {
            0
        } else {
            registry.next_seq + 1
        })
        &&& wakers_after == wakers.insert(
            id,
            WakerInner { state: 0u8, seq: registry.next_seq, ..wakers[id] },
        )
    }
    &&& registry.kind == RegistryKind::Single ==> {
        &&& after.entries == seq![id]
        &&& after.next_seq == registry.next_seq
        &&& wakers_after == wakers.insert(id, put_to(wakers[id], 0u8))
    }
}

/// To register: see [`enlisted`]. One that is asleep already stays as it is. One whose wait
/// was ended for good is told so, and nothing changes.
pub proof fn law_registers<T>(v: ChannelView<T>, id: u64)
    ensures
        v.send_wakers[id].state == 1u8 ==> {
            let w = v.send_registered(id);
            &&& enlisted(v.senders, v.send_wakers, w.senders, w.send_wakers, id)
            &&& w.queue == v.queue && w.next_send == v.next_send
            &&& same_channel(v, w) && same_receivers(v, w)
        },
        v.send_wakers[id].state != 1u8 ==> v.send_registered(id) == v,
        v.recv_wakers[id].state == 1u8 ==> {
            let w = v.recv_registered(id);
            &&& enlisted(v.recvs, v.recv_wakers, w.recvs, w.recv_wakers, id)
            &&& w.queue == v.queue
            &&& same_channel(v, w) && same_senders(v, w)
        },
        v.recv_wakers[id].state != 1u8 ==> v.recv_registered(id) == v,
        forall|state: u8|
            (#[trigger] RegistryView::registration(state)) == (if state <= 1u8 {
                Ok::<(), u8>(())
            } else {
                Err(state)
            }),
{
    if v.send_wakers[id].state == 1u8 && v.senders.kind == RegistryKind::Multi {
        assert(v.send_registered(id).send_wakers =~= v.send_wakers.insert(
            id,
            WakerInner { state: 0u8, seq: v.senders.next_seq, ..v.send_wakers[id] },
        ));
    }
    if v.recv_wakers[id].state == 1u8 && v.recvs.kind == RegistryKind::Multi {
        assert(v.recv_registered(id).recv_wakers =~= v.recv_wakers.insert(
            id,
            WakerInner { state: 0u8, seq: v.recvs.next_seq, ..v.recv_wakers[id] },
        ));
    }
}

/// A receiver whose wait is over without being woken is done, and no longer queued where
/// only one can be; one that is awake stays as it is. Nothing else changes.
pub proof fn law_receiver_done<T>(v: ChannelView<T>, id: u64)
    ensures
        !asleep(v.recv_wakers, id) ==> v.recv_done(id) == v,
        asleep(v.recv_wakers, id) ==> v.recv_done(id) == (ChannelView {
            recvs: RegistryView {
                entries: if v.recvs.kind == RegistryKind::Single && v.recvs.entries == seq![id] {
                    Seq::empty()
                } else {
                    v.recvs.entries
                },
                ..v.recvs
            },
            recv_wakers: v.recv_wakers.insert(id, put_to(v.recv_wakers[id], 2u8)),
            ..v
        }),
{
}

/// A sender that was woken, and finds room, puts its message in, behind all others; the
/// foremost receiver that is asleep is woken.
pub proof fn law_retry_sends<T>(v: ChannelView<T>, id: u64)
    requires
        v.send_wakers.contains_key(id),
    ensures
        ({
            let w = v.retried(id);
            let waker = v.send_wakers[id];
            &&& crate::laws_effects::came_in(v, w, v.announce_wakes(), waker.payload->0)
            &&& w.send_wakers == v.send_wakers.insert(
                id,
                WakerInner { payload: None, ..waker },
            )
            &&& w.senders == v.senders && w.next_send == v.next_send
        }),
{
    let waker = v.send_wakers[id];
    let put = v.pushed(waker.payload->0).with_send_waker(
        id,
        WakerInner { payload: None, ..waker },
    );
    crate::laws_effects::law_announced_wakes_one(v);
    crate::laws_effects::law_announced_wakes_one(put);
    assert(put.announce_wakes() == v.announce_wakes());
    assert(one_receiver_woken(v, v.retried(id), v.announce_wakes()));
}

} // verus!
