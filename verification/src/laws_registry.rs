//! What is done with a registry, told by who is queued, who is asleep and who is woken.

use vstd::prelude::*;

use crate::laws_effects::{asleep, put_to, same_registry};
use crate::laws_room::{is_target, queued_asleep, sleepers, woken_in_turn};
use crate::locked_waker::{WakerInner, WakerState, WakerType};
use crate::model::ChannelView;
use crate::waker_registry::{RegistryKind, RegistryView};

verus! {

/// All of these who are asleep are woken, once and the foremost first, and told to try again.
/// Nobody else is, and the wakers are otherwise the same.
pub open spec fn all_roused<P>(
    hits: Seq<u64>,
    before: Map<u64, WakerInner<P>>,
    after: Map<u64, WakerInner<P>>,
    wakes: Seq<WakerType>,
) -> bool {
    &&& after.dom() == before.dom()
    &&& forall|id: u64| #[trigger]
        before.contains_key(id) ==> after[id] == (if queued_asleep(hits, before, id) {
            put_to(before[id], 1u8)
        } else {
            before[id]
        })
    &&& forall|id: u64| #[trigger]
        queued_asleep(hits, before, id) ==> wakes.contains(before[id].waker)
    &&& forall|i: int| 0 <= i < wakes.len() ==> is_target(hits, before, #[trigger] wakes[i])
    &&& wakes.len() == sleepers(hits, before).len()
    &&& wakes == woken_in_turn(hits, before)
}

/// Nobody is woken, and the wakers are the same.
pub open spec fn nobody_roused<P>(
    before: Map<u64, WakerInner<P>>,
    after: Map<u64, WakerInner<P>>,
    wakes: Seq<WakerType>,
) -> bool {
    after == before && wakes == Seq::<WakerType>::empty()
}

proof fn lemma_roused<P>(hits: Seq<u64>, wakers: Map<u64, WakerInner<P>>)
    ensures
        all_roused(
            hits,
            wakers,
            RegistryView::moved_all(hits, wakers, WakerState::WAKED),
            RegistryView::targets(hits, wakers, WakerState::WAKED),
        ),
        hits.len() == 0 ==> nobody_roused(
            wakers,
            RegistryView::moved_all(hits, wakers, WakerState::WAKED),
            RegistryView::targets(hits, wakers, WakerState::WAKED),
        ),
{
    let after = RegistryView::moved_all(hits, wakers, WakerState::WAKED);
    let wakes = RegistryView::targets(hits, wakers, WakerState::WAKED);
    crate::laws_room::lemma_targets(hits, wakers, WakerState::WAKED);
    crate::laws_room::lemma_targets_in_turn(hits, wakers, WakerState::WAKED);
    assert(after.dom() =~= wakers.dom());
    assert forall|i: int| 0 <= i < wakes.len() implies is_target(
        hits,
        wakers,
        #[trigger] wakes[i],
    ) by {}
    if hits.len() == 0 {
        assert(after =~= wakers);
    }
}

/// The entry at `k` is the first that is there and that comes no earlier than `seq`.
pub open spec fn first_from<P>(
    entries: Seq<u64>,
    wakers: Map<u64, WakerInner<P>>,
    seq: usize,
    k: int,
) -> bool {
    &&& 0 <= k < entries.len()
    &&& wakers.contains_key(entries[k]) && wakers[entries[k]].seq >= seq
    &&& forall|j: int|
        0 <= j < k ==> !(wakers.contains_key(#[trigger] entries[j]) && wakers[entries[j]].seq
            >= seq)
}

/// None that is queued comes as late as `seq`.
pub open spec fn none_from<P>(
    entries: Seq<u64>,
    wakers: Map<u64, WakerInner<P>>,
    seq: usize,
) -> bool {
    forall|j: int|
        0 <= j < entries.len() ==> !(wakers.contains_key(#[trigger] entries[j])
            && wakers[entries[j]].seq >= seq)
}

/// To clear a queue for one who gave up: all who are queued ahead of it are woken, and so is
/// the one that stands where it would be, if that came later; none of them is queued any
/// longer, and those behind stay. While somebody else is at it, nothing is done. A place for
/// one is emptied, and nobody is woken.
pub proof fn law_clears_up_to<P>(
    registry: RegistryView,
    wakers: Map<u64, WakerInner<P>>,
    seq: usize,
)
    ensures
        ({
            let entries = registry.entries;
            let hits = registry.clear_hits(wakers, seq);
            let r = registry.cleared(wakers, seq);
            let after = RegistryView::moved_all(hits, wakers, WakerState::WAKED);
            let wakes = RegistryView::targets(hits, wakers, WakerState::WAKED);
            &&& same_registry(registry, r)
            &&& registry.kind == RegistryKind::Dummy ==> r == registry
            &&& registry.kind == RegistryKind::Single ==> r.entries == Seq::<u64>::empty()
            &&& registry.kind != RegistryKind::Multi || registry.checking ==> nobody_roused(
                wakers,
                after,
                wakes,
            )
            &&& registry.kind == RegistryKind::Multi && registry.checking ==> r == registry
            &&& registry.kind == RegistryKind::Multi && !registry.checking ==> {
                &&& forall|k: int| #[trigger]
                    first_from(entries, wakers, seq, k) ==> {
                        let own = wakers[entries[k]].seq == seq;
                        &&& r.entries == entries.subrange(k + 1, entries.len() as int)
                        &&& own ==> all_roused(entries.take(k), wakers, after, wakes)
                        &&& !own ==> all_roused(entries.take(k + 1), wakers, after, wakes)
                    }
                &&& none_from(entries, wakers, seq) ==> {
                    &&& r.entries == Seq::<u64>::empty()
                    &&& all_roused(entries, wakers, after, wakes)
                }
            }
        }),
{
    let entries = registry.entries;
    let hits = registry.clear_hits(wakers, seq);
    let r = registry.cleared(wakers, seq);
    let stops = RegistryView::stops_in(wakers, seq);
    let n = registry.clear_index(wakers, seq);
    lemma_roused(hits, wakers);
    crate::waker_registry::lemma_first_index(entries, stops);
    assert forall|j: int| 0 <= j < n implies !(wakers.contains_key(#[trigger] entries[j])
        && wakers[entries[j]].seq >= seq) by {
        assert(!stops(entries[j]));
    }
    if n < entries.len() {
        assert(stops(entries[n as int]));
        assert(first_from(entries, wakers, seq, n as int));
    }
    let after = RegistryView::moved_all(hits, wakers, WakerState::WAKED);
    let wakes = RegistryView::targets(hits, wakers, WakerState::WAKED);
    if registry.kind == RegistryKind::Multi && !registry.checking {
        assert forall|k: int| #[trigger] first_from(entries, wakers, seq, k) implies r.entries
            == entries.subrange(k + 1, entries.len() as int) && (wakers[entries[k]].seq == seq
            ==> all_roused(entries.take(k), wakers, after, wakes)) && (wakers[entries[k]].seq
            != seq ==> all_roused(entries.take(k + 1), wakers, after, wakes)) by {
            if n < k {
                assert(!(wakers.contains_key(entries[n as int]) && wakers[entries[n as int]].seq
                    >= seq));
            }
            assert(k == n);
            assert(entries.skip(k + 1) =~= entries.subrange(k + 1, entries.len() as int));
        }
        if none_from(entries, wakers, seq) && n < entries.len() {
            assert(!(wakers.contains_key(entries[n as int]) && wakers[entries[n as int]].seq
                >= seq));
        }
    }
}

/// The entry at `k` is the one to wake: in a place for one, whoever is there; in a queue, the
/// first that is there and is asleep or was the latest to register.
pub open spec fn first_to_fire<P>(
    registry: RegistryView,
    wakers: Map<u64, WakerInner<P>>,
    k: int,
) -> bool {
    let entries = registry.entries;
    let latest: int = if registry.next_seq == 0 {
        usize::MAX as int
    } else {
        registry.next_seq - 1
    };
    &&& 0 <= k < entries.len()
    &&& wakers.contains_key(entries[k])
    &&& registry.kind == RegistryKind::Multi ==> wakers[entries[k]].state == 0u8
        || wakers[entries[k]].seq >= latest
    &&& forall|j: int|
        0 <= j < k ==> !(wakers.contains_key(#[trigger] entries[j]) && (registry.kind
            == RegistryKind::Multi ==> wakers[entries[j]].state == 0u8 || wakers[entries[j]].seq
            >= latest))
}

/// The one to wake is woken if it is asleep, and is no longer queued, nor is who was queued
/// ahead. If there is none, nobody is queued any longer, and nobody is woken.
pub open spec fn fired_one<P>(
    registry: RegistryView,
    wakers: Map<u64, WakerInner<P>>,
    r: RegistryView,
    after: Map<u64, WakerInner<P>>,
    wakes: Seq<WakerType>,
) -> bool {
    let entries = registry.entries;
    &&& same_registry(registry, r)
    &&& registry.kind == RegistryKind::Dummy ==> r == registry && nobody_roused(
        wakers,
        after,
        wakes,
    )
    &&& registry.kind != RegistryKind::Dummy ==> {
        &&& forall|k: int| #[trigger]
            first_to_fire(registry, wakers, k) ==> {
                &&& r.entries == entries.subrange(k + 1, entries.len() as int)
                &&& all_roused(seq![entries[k]], wakers, after, wakes)
            }
        &&& (forall|k: int| !#[trigger] first_to_fire(registry, wakers, k)) ==> {
            &&& r.entries == Seq::<u64>::empty()
            &&& nobody_roused(wakers, after, wakes)
        }
    }
}

/// To wake one of those who are queued wakes the one whose turn it is, and nobody else.
pub proof fn law_fires_one<P>(registry: RegistryView, wakers: Map<u64, WakerInner<P>>)
    ensures
        fired_one(
            registry,
            wakers,
            registry.fired(wakers),
            RegistryView::moved_all(registry.fire_hits(wakers), wakers, WakerState::WAKED),
            RegistryView::targets(registry.fire_hits(wakers), wakers, WakerState::WAKED),
        ),
{
    let entries = registry.entries;
    let hits = registry.fire_hits(wakers);
    lemma_roused(hits, wakers);
    let stop = if registry.kind == RegistryKind::Multi {
        RegistryView::fires_in(wakers, RegistryView::wrapping_prev(registry.next_seq))
    } else {
        RegistryView::lives_in(wakers)
    };
    crate::waker_registry::lemma_first_index(entries, stop);
    if registry.kind != RegistryKind::Dummy {
        let n = registry.fire_index(wakers);
        assert(n == RegistryView::first_index(entries, stop));
        if n < entries.len() {
            assert(stop(entries[n as int]));
            assert forall|j: int| 0 <= j < n implies !stop(#[trigger] entries[j]) by {}
            assert(first_to_fire(registry, wakers, n as int));
        }
        assert forall|k: int| #[trigger] first_to_fire(registry, wakers, k) implies k == n by {
            assert(stop(entries[k]));
            if n < k {
                assert(stop(entries[n as int]));
            }
        }
        if n < entries.len() {
            assert(entries.skip(n as int + 1) =~= entries.subrange(
                n as int + 1,
                entries.len() as int,
            ));
        }
    }
}

/// To close a registry: nobody is queued any longer. Of a queue, all who are asleep are
/// woken; of a place for one, whoever is there.
pub proof fn law_closes_registry<P>(registry: RegistryView, wakers: Map<u64, WakerInner<P>>)
    ensures
        ({
            let hits = registry.close_hits(wakers);
            let r = registry.closed();
            let after = RegistryView::moved_all(hits, wakers, WakerState::WAKED);
            let wakes = RegistryView::targets(hits, wakers, WakerState::WAKED);
            &&& same_registry(registry, r)
            &&& registry.kind == RegistryKind::Dummy ==> r == registry && nobody_roused(
                wakers,
                after,
                wakes,
            )
            &&& registry.kind != RegistryKind::Dummy ==> r.entries == Seq::<u64>::empty()
            &&& registry.kind == RegistryKind::Multi ==> all_roused(
                registry.entries,
                wakers,
                after,
                wakes,
            )
            &&& registry.kind == RegistryKind::Single && registry.entries.len() == 0
                ==> nobody_roused(wakers, after, wakes)
            &&& registry.kind == RegistryKind::Single && registry.entries.len() == 1
                ==> all_roused(registry.entries, wakers, after, wakes)
        }),
{
    let hits = registry.close_hits(wakers);
    lemma_roused(hits, wakers);
    if registry.kind == RegistryKind::Single && registry.entries.len() == 1 {
        let id = registry.entries[0];
        reveal_with_fuel(RegistryView::first_index, 2);
        assert(registry.entries =~= seq![id]);
        if !wakers.contains_key(id) {
            assert forall|other: u64| !queued_asleep(registry.entries, wakers, other) by {
                if registry.entries.contains(other) {
                    assert(other == id);
                }
            }
            assert(sleepers(registry.entries, wakers) =~= Set::empty());
            reveal_with_fuel(woken_in_turn, 2);
        }
    }
}

/// One who is asleep gives up. A place for one is emptied. Of a queue the foremost entry is
/// taken out, and unless it has the sequence number of the one who gives up, whoever stands
/// there is woken if asleep. One who is awake stays, and nothing is done.
pub proof fn law_cancels_one<P>(registry: RegistryView, wakers: Map<u64, WakerInner<P>>, id: u64)
    requires
        wakers.contains_key(id),
        registry.kind != RegistryKind::Dummy,
    ensures
        ({
            let r = registry.cancelled(wakers, id);
            let after = registry.cancel_wakers(wakers, id);
            let wakes = registry.cancel_targets(wakers, id);
            let given_up = wakers.insert(id, put_to(wakers[id], 3u8));
            let first = registry.entries[0];
            let own = given_up.contains_key(first) && given_up[first].seq == wakers[id].seq;
            &&& !asleep(wakers, id) ==> r == registry && nobody_roused(wakers, after, wakes)
            &&& asleep(wakers, id) ==> {
                &&& same_registry(registry, r)
                &&& registry.kind == RegistryKind::Single ==> r.entries == Seq::<u64>::empty()
                    && nobody_roused(given_up, after, wakes)
                &&& registry.kind == RegistryKind::Multi && registry.entries.len() == 0
                    ==> r.entries == Seq::<u64>::empty() && nobody_roused(given_up, after, wakes)
                &&& registry.kind == RegistryKind::Multi && registry.entries.len() > 0 ==> {
                    &&& seq![first] + r.entries == registry.entries
                    &&& own ==> nobody_roused(given_up, after, wakes)
                    &&& !own ==> all_roused(seq![first], given_up, after, wakes)
                }
            }
        }),
{
    let moved = WakerInner::after_move(wakers, id, WakerState::CLOSED);
    let hits = registry.cancel_hits(wakers, id);
    lemma_roused(hits, moved);
    if asleep(wakers, id) && registry.kind == RegistryKind::Multi && registry.entries.len() > 0 {
        let first = registry.entries[0];
        assert(seq![first] + registry.cancelled(wakers, id).entries =~= registry.entries);
    }
}

/// To queue a waker: behind all others, under the next sequence number; where only one can
/// be, in place of whoever was. To withdraw one takes it out of a place for one, and leaves
/// a queue as it is. As many are reported as are queued.
pub proof fn law_queues_and_withdraws<P>(
    registry: RegistryView,
    wakers: Map<u64, WakerInner<P>>,
    id: u64,
)
    ensures
        ({
            let r = registry.with_waker(id);
            let after = registry.numbered(wakers, id);
            &&& r.kind == registry.kind && r.checking == registry.checking
            &&& registry.kind == RegistryKind::Multi ==> {
                &&& r.entries == registry.entries.push(id)
                &&& r.next_seq == (if registry.next_seq == usize::MAX {
                    0
                } else {
                    registry.next_seq + 1
                })
                &&& after == wakers.insert(
                    id,
                    WakerInner { seq: registry.next_seq, ..wakers[id] },
                )
            }
            &&& registry.kind == RegistryKind::Single ==> {
                &&& r.entries == seq![id]
                &&& r.next_seq == registry.next_seq
                &&& after == wakers
            }
        }),
        registry.withdrawn(id) == (if registry.kind == RegistryKind::Single && registry.entries
            == seq![id] {
            RegistryView { entries: Seq::empty(), ..registry }
        } else {
            registry
        }),
        registry.reported_len() == registry.entries.len(),
{
}

/// To take one out of a registry gives the first that is there, and takes out who was queued
/// ahead.
pub proof fn law_pops_first<P>(registry: RegistryView, wakers: Map<u64, WakerInner<P>>)
    ensures
        forall|k: int|
            #![trigger registry.entries[k]]
            0 <= k < registry.entries.len() && wakers.contains_key(registry.entries[k]) && (
            forall|j: int| 0 <= j < k ==> !wakers.contains_key(#[trigger] registry.entries[j]))
                ==> {
                &&& registry.next_live(wakers) == Some(registry.entries[k])
                &&& registry.popped(wakers).entries == registry.entries.subrange(
                    k + 1,
                    registry.entries.len() as int,
                )
            },
        (forall|j: int|
            0 <= j < registry.entries.len() ==> !wakers.contains_key(
                #[trigger] registry.entries[j],
            )) ==> {
            &&& registry.next_live(wakers) is None
            &&& registry.popped(wakers).entries == Seq::<u64>::empty()
        },
        same_registry(registry, registry.popped(wakers)),
{
    let entries = registry.entries;
    let lives = RegistryView::lives_in(wakers);
    let n = RegistryView::first_index(entries, lives);
    crate::waker_registry::lemma_first_index(entries, lives);
    assert forall|j: int| 0 <= j < n implies !wakers.contains_key(#[trigger] entries[j]) by {
        assert(!lives(entries[j]));
    }
    if n < entries.len() {
        assert(lives(entries[n as int]));
        assert(wakers.contains_key(entries[n as int]));
        assert(entries.skip(n as int + 1) =~= entries.subrange(n as int + 1, entries.len() as int));
    }
}

/// A sender gives up, and its waker is gone. If its message was taken, that is all. If it
/// had been woken, the room goes to the foremost sender that is asleep. Else those who are
/// queued are cleared up to it; no message comes or goes, and the receivers are left alone.
pub proof fn law_sender_gives_up<T>(v: ChannelView<T>, id: u64)
    requires
        v.send_wakers.contains_key(id),
    ensures
        ({
            let w = v.send_abandoned(id);
            let wakes = v.send_abandon_wakes(id);
            let waker = v.send_wakers[id];
            let given_up = if waker.state == 0u8 {
                v.send_wakers.insert(id, put_to(waker, 3u8))
            } else {
                v.send_wakers
            };
            let hits = v.senders.clear_hits(given_up, waker.seq);
            &&& waker.state == 2u8 ==> wakes == Seq::<WakerType>::empty() && w == (ChannelView {
                send_wakers: v.send_wakers.remove(id),
                ..v
            })
            &&& waker.state == 0u8 || waker.state == 3u8 ==> {
                &&& w == (ChannelView {
                    senders: v.senders.cleared(given_up, waker.seq),
                    send_wakers: RegistryView::moved_all(
                        hits,
                        given_up,
                        WakerState::WAKED,
                    ).remove(id),
                    ..v
                })
                &&& wakes == RegistryView::targets(hits, given_up, WakerState::WAKED)
            }
            &&& waker.state == 1u8 ==> wakes == v.room_wakes() && w == (ChannelView {
                send_wakers: v.made_room().send_wakers.remove(id),
                ..v.made_room()
            })
        }),
{
}

/// A receiver gives up, and its waker is gone. If it was done, that is all. If it had been
/// woken, another receiver is told of the message in its place. Else those who are queued are
/// cleared up to it; no message comes or goes, and the senders are left alone.
pub proof fn law_receiver_gives_up<T>(v: ChannelView<T>, id: u64)
    requires
        v.recv_wakers.contains_key(id),
    ensures
        ({
            let w = v.recv_abandoned(id);
            let wakes = v.recv_abandon_wakes(id);
            let waker = v.recv_wakers[id];
            let given_up = if waker.state == 0u8 {
                v.recv_wakers.insert(id, put_to(waker, 3u8))
            } else {
                v.recv_wakers
            };
            let hits = v.recvs.clear_hits(given_up, waker.seq);
            &&& waker.state == 2u8 ==> wakes == Seq::<WakerType>::empty() && w == (ChannelView {
                recv_wakers: v.recv_wakers.remove(id),
                ..v
            })
            &&& waker.state == 0u8 || waker.state == 3u8 ==> {
                &&& w == (ChannelView {
                    recvs: v.recvs.cleared(given_up, waker.seq),
                    recv_wakers: RegistryView::moved_all(
                        hits,
                        given_up,
                        WakerState::WAKED,
                    ).remove(id),
                    ..v
                })
                &&& wakes == RegistryView::targets(hits, given_up, WakerState::WAKED)
            }
            &&& waker.state == 1u8 ==> wakes == v.announce_wakes() && w == (ChannelView {
                recv_wakers: v.announced().recv_wakers.remove(id),
                ..v.announced()
            })
        }),
{
}

/// To clear the receivers that are queued changes nothing but them.
pub proof fn law_receivers_cleared<T>(v: ChannelView<T>, seq: usize)
    ensures
        ({
            let hits = v.recvs.clear_hits(v.recv_wakers, seq);
            &&& v.recvs_cleared(seq) == (ChannelView {
                recvs: v.recvs.cleared(v.recv_wakers, seq),
                recv_wakers: RegistryView::moved_all(hits, v.recv_wakers, WakerState::WAKED),
                ..v
            })
            &&& v.recvs_clear_wakes(seq) == RegistryView::targets(
                hits,
                v.recv_wakers,
                WakerState::WAKED,
            )
        }),
{
}

} // verus!
