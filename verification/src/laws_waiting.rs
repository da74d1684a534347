//! What becomes of those who wait: nobody is forgotten, and they are served in order.

use vstd::prelude::*;

use crate::laws::Op;
use crate::locked_waker::{WakerInner, WakerState, WakerType};
use crate::model::{ChannelView, Serving};
use crate::protocol::AttemptView;
use crate::waker_registry::{RegistryKind, RegistryView};

verus! {

impl<T> ChannelView<T> {
    /// Everybody who waits is queued where the other side finds them.
    pub open spec fn all_queued(self) -> bool {
        &&& forall|id: u64| #[trigger]
            WakerInner::waits(self.send_wakers, id) ==> self.senders.entries.contains(id)
        &&& forall|id: u64| #[trigger]
            WakerInner::waits(self.recv_wakers, id) ==> self.recvs.entries.contains(id)
    }

    /// No sender waits but this one.
    pub open spec fn only_sender(self, id: u64) -> bool {
        forall|i: u64| i != id ==> !#[trigger] WakerInner::waits(self.send_wakers, i)
    }

    /// No receiver waits but this one.
    pub open spec fn only_receiver(self, id: u64) -> bool {
        forall|i: u64| i != id ==> !#[trigger] WakerInner::waits(self.recv_wakers, i)
    }
}

impl<T> Op<T> {
    /// A registry for one is used by one only, and nobody clears the registry of the
    /// receivers for the sake of one that is still waiting.
    pub open spec fn orderly(self, v: ChannelView<T>) -> bool {
        match self {
            Op::RegisterSend(id) => v.senders.kind == RegistryKind::Single ==> v.only_sender(id),
            Op::RegisterRecv(id) => v.recvs.kind == RegistryKind::Single ==> v.only_receiver(id),
            Op::AbandonSend(id) => v.senders.kind == RegistryKind::Single ==> v.only_sender(id),
            Op::AbandonRecv(id) => v.recvs.kind == RegistryKind::Single ==> v.only_receiver(id),
            Op::ClearRecvs(seq) => forall|i: u64| #[trigger]
                WakerInner::waits(v.recv_wakers, i) ==> v.recvs.kind != RegistryKind::Single
                    && v.recv_wakers[i].seq != seq,
            _ => true,
        }
    }
}

/// One who waits and is queued is the foremost, or behind the foremost.
proof fn lemma_queued_behind<P>(entries: Seq<u64>, wakers: Map<u64, WakerInner<P>>, id: u64)
    requires
        entries.contains(id),
        WakerInner::waits(wakers, id),
    ensures
        ({
            let k = RegistryView::first_index(entries, RegistryView::waits_in(wakers));
            &&& k < entries.len()
            &&& entries[k as int] == id || RegistryView::behind(entries, k).contains(id)
        }),
{
    crate::laws::lemma_next_waits(entries, wakers);
    let k = RegistryView::first_index(entries, RegistryView::waits_in(wakers));
    let i = choose|i: int| 0 <= i < entries.len() && entries[i] == id;
    assert(i >= k);
    if i > k {
        assert(RegistryView::behind(entries, k)[i - k - 1] == id);
    }
}

/// One who waits and is queued is woken when the registry is cleared, or stays
/// queued, unless it is the one for whose sake it is cleared.
proof fn lemma_cleared_behind<P>(
    registry: RegistryView,
    wakers: Map<u64, WakerInner<P>>,
    seq: usize,
    id: u64,
)
    requires
        registry.entries.contains(id),
        WakerInner::waits(wakers, id),
        registry.kind == RegistryKind::Multi ==> wakers[id].seq != seq,
        registry.kind != RegistryKind::Single,
    ensures
        registry.clear_hits(wakers, seq).contains(id) || registry.cleared(
            wakers,
            seq,
        ).entries.contains(id),
{
    let entries = registry.entries;
    let k = registry.clear_index(wakers, seq);
    crate::waker_registry::lemma_first_index(entries, RegistryView::stops_in(wakers, seq));
    let i = choose|i: int| 0 <= i < entries.len() && entries[i] == id;
    if registry.kind == RegistryKind::Multi && !registry.checking {
        if i < k {
            assert(registry.clear_hits(wakers, seq)[i] == id);
        } else if i == k {
            assert(registry.clear_hits(wakers, seq)[i] == id);
        } else {
            assert(RegistryView::behind(entries, k)[i - k - 1] == id);
        }
    }
}

proof fn lemma_announced_queued<T>(v: ChannelView<T>)
    requires
        v.all_queued(),
    ensures
        v.announced().all_queued(),
{
    let w = v.announced();
    assert forall|id: u64| #[trigger] WakerInner::waits(w.recv_wakers, id) implies
        w.recvs.entries.contains(id) by {
        assert(WakerInner::waits(v.recv_wakers, id));
        lemma_queued_behind(v.recvs.entries, v.recv_wakers, id);
    }
}

proof fn lemma_made_room_queued<T>(v: ChannelView<T>)
    requires
        WakerInner::all_unlocked(v.send_wakers),
        v.all_queued(),
    ensures
        v.made_room().all_queued(),
{
    let w = v.made_room();
    crate::laws::lemma_next_waits(v.senders.entries, v.send_wakers);
    if let Some(next) = v.next_sender() {
        if !v.full() {
            let rest = ChannelView {
                senders: v.senders.with_entries(
                    RegistryView::behind(v.senders.entries, v.send_index()),
                ),
                ..v
            };
            let taken = rest.taken_over(next);
            assert forall|id: u64| #[trigger] WakerInner::waits(taken.send_wakers, id) implies
                taken.senders.entries.contains(id) by {
                assert(WakerInner::waits(v.send_wakers, id));
                lemma_queued_behind(v.senders.entries, v.send_wakers, id);
            }
            lemma_announced_queued(taken);
        }
    }
    assert forall|id: u64| #[trigger] WakerInner::waits(w.send_wakers, id) implies
        w.senders.entries.contains(id) by {
        assert(WakerInner::waits(v.send_wakers, id));
        lemma_queued_behind(v.senders.entries, v.send_wakers, id);
    }
}

proof fn lemma_served_queued<T>(v: ChannelView<T>, id: u64)
    requires
        WakerInner::all_unlocked(v.send_wakers),
        v.all_queued(),
    ensures
        v.served(id).all_queued(),
{
    let w = v.served(id);
    if v.serving(id) == Serving::Woken {
        if !v.full() {
            let taken = v.taken_over(id);
            assert forall|i: u64| #[trigger] WakerInner::waits(taken.send_wakers, i) implies
                taken.senders.entries.contains(i) by {
                assert(WakerInner::waits(v.send_wakers, i));
            }
            lemma_announced_queued(taken);
        } else {
            assert forall|i: u64| #[trigger] WakerInner::waits(w.send_wakers, i) implies
                w.senders.entries.contains(i) by {
                assert(WakerInner::waits(v.send_wakers, i));
            }
        }
    }
}

proof fn lemma_handed_in_queued<T>(v: ChannelView<T>, id: u64)
    requires
        v.all_queued(),
        v.send_wakers.contains_key(id),
    ensures
        v.handed_in(id).all_queued(),
{
    let taken = v.taken_over(id);
    let withdrawn = ChannelView { senders: taken.senders.withdrawn(id), ..taken };
    assert forall|i: u64| #[trigger] WakerInner::waits(taken.send_wakers, i) implies
        taken.senders.entries.contains(i) && withdrawn.senders.entries.contains(i) by {
        assert(WakerInner::waits(v.send_wakers, i));
        assert(v.senders.entries.contains(i));
        if v.senders.entries == seq![id] {
            assert(seq![id].contains(i));
        }
    }
    lemma_announced_queued(taken);
    lemma_announced_queued(withdrawn);
}

proof fn lemma_shut_frees_all<T>(v: ChannelView<T>)
    requires
        v.all_queued(),
    ensures
        forall|id: u64| !#[trigger] WakerInner::waits(v.shut().send_wakers, id),
        forall|id: u64| !#[trigger] WakerInner::waits(v.shut().recv_wakers, id),
{
    let w = v.shut();
    assert forall|id: u64| !#[trigger] WakerInner::waits(w.send_wakers, id) by {
        if WakerInner::waits(w.send_wakers, id) {
            assert(WakerInner::waits(v.send_wakers, id));
        }
    }
    assert forall|id: u64| !#[trigger] WakerInner::waits(w.recv_wakers, id) by {
        if WakerInner::waits(w.recv_wakers, id) {
            assert(WakerInner::waits(v.recv_wakers, id));
        }
    }
}

proof fn lemma_registered_queued<T>(v: ChannelView<T>, id: u64)
    requires
        v.all_queued(),
    ensures
        v.send_wakers.contains_key(id) && v.senders.kind != RegistryKind::Dummy && (v.senders.kind
            == RegistryKind::Single ==> v.only_sender(id)) ==> v.send_registered(id).all_queued(),
        v.recv_wakers.contains_key(id) && v.recvs.kind != RegistryKind::Dummy && (v.recvs.kind
            == RegistryKind::Single ==> v.only_receiver(id)) ==> v.recv_registered(
            id,
        ).all_queued(),
{
    let s = v.send_registered(id);
    let r = v.recv_registered(id);
    if v.send_wakers.contains_key(id) && v.senders.kind != RegistryKind::Dummy && (v.senders.kind
        == RegistryKind::Single ==> v.only_sender(id)) {
        assert forall|i: u64| #[trigger] WakerInner::waits(s.send_wakers, i) implies
            s.senders.entries.contains(i) by {
            lemma_push_contains(v.senders.entries, id, i);
            if i != id {
                assert(WakerInner::waits(v.send_wakers, i));
            }
            assert(seq![id][0] == id);
        }
    }
    if v.recv_wakers.contains_key(id) && v.recvs.kind != RegistryKind::Dummy && (v.recvs.kind
        == RegistryKind::Single ==> v.only_receiver(id)) {
        assert forall|i: u64| #[trigger] WakerInner::waits(r.recv_wakers, i) implies
            r.recvs.entries.contains(i) by {
            lemma_push_contains(v.recvs.entries, id, i);
            if i != id {
                assert(WakerInner::waits(v.recv_wakers, i));
            }
            assert(seq![id][0] == id);
        }
    }
}

proof fn lemma_push_contains(entries: Seq<u64>, id: u64, other: u64)
    ensures
        entries.push(id).contains(id),
        entries.contains(other) ==> entries.push(id).contains(other),
{
    assert(entries.push(id)[entries.len() as int] == id);
    if entries.contains(other) {
        let i = choose|i: int| 0 <= i < entries.len() && entries[i] == other;
        assert(entries.push(id)[i] == other);
    }
}

proof fn lemma_send_abandoned_queued<T>(v: ChannelView<T>, id: u64)
    requires
        WakerInner::all_unlocked(v.send_wakers),
        v.all_queued(),
        v.send_wakers.contains_key(id),
        v.senders.kind == RegistryKind::Single ==> v.only_sender(id),
        crate::laws_seqs::told_apart(v.senders, v.send_wakers),
    ensures
        v.send_abandoned(id).all_queued(),
{
    let given_up = ChannelView {
        send_wakers: WakerInner::after_move(v.send_wakers, id, WakerState::CLOSED),
        ..v
    };
    let seq = v.send_wakers[id].seq;
    assert forall|i: u64| #[trigger] WakerInner::waits(given_up.send_wakers, i) implies
        given_up.senders.entries.contains(i) && i != id && WakerInner::waits(
        v.send_wakers,
        i,
    ) by {
        assert(WakerInner::waits(v.send_wakers, i));
    }
    lemma_made_room_queued(given_up);
    let w = v.send_abandoned(id);
    assert forall|i: u64| #[trigger] WakerInner::waits(w.send_wakers, i) implies
        w.senders.entries.contains(i) by {
        let state = given_up.send_wakers[id].state;
        if state == WakerState::CLOSED.code() {
            assert(WakerInner::waits(given_up.send_wakers, i));
            assert(crate::laws_seqs::seated(v.send_wakers, i));
            assert(crate::laws_seqs::seated(v.send_wakers, id));
            if given_up.senders.kind != RegistryKind::Single {
                lemma_cleared_behind(given_up.senders, given_up.send_wakers, seq, i);
            }
        } else if state == WakerState::DONE.code() {
            assert(WakerInner::waits(given_up.send_wakers, i));
        } else {
            assert(WakerInner::waits(given_up.made_room().send_wakers, i));
        }
    }
    assert forall|i: u64| #[trigger] WakerInner::waits(w.recv_wakers, i) implies
        w.recvs.entries.contains(i) by {
        let state = given_up.send_wakers[id].state;
        if state == WakerState::CLOSED.code() {
            assert(WakerInner::waits(v.recv_wakers, i));
        } else if state == WakerState::DONE.code() {
            assert(WakerInner::waits(v.recv_wakers, i));
        } else {
            assert(WakerInner::waits(given_up.made_room().recv_wakers, i));
        }
    }
}

proof fn lemma_recvs_cleared_queued<T>(v: ChannelView<T>, seq: usize)
    requires
        v.all_queued(),
        forall|i: u64| #[trigger]
            WakerInner::waits(v.recv_wakers, i) ==> v.recvs.kind != RegistryKind::Single && (
            v.recvs.kind == RegistryKind::Multi ==> v.recv_wakers[i].seq != seq),
    ensures
        v.recvs_cleared(seq).all_queued(),
{
    let w = v.recvs_cleared(seq);
    assert forall|i: u64| #[trigger] WakerInner::waits(w.recv_wakers, i) implies
        w.recvs.entries.contains(i) by {
        assert(WakerInner::waits(v.recv_wakers, i));
        lemma_cleared_behind(v.recvs, v.recv_wakers, seq, i);
    }
}

proof fn lemma_recv_abandoned_queued<T>(v: ChannelView<T>, id: u64)
    requires
        v.all_queued(),
        v.recv_wakers.contains_key(id),
        v.recvs.kind == RegistryKind::Single ==> v.only_receiver(id),
        crate::laws_seqs::told_apart(v.recvs, v.recv_wakers),
    ensures
        v.recv_abandoned(id).all_queued(),
{
    let given_up = ChannelView {
        recv_wakers: WakerInner::after_move(v.recv_wakers, id, WakerState::CLOSED),
        ..v
    };
    let seq = v.recv_wakers[id].seq;
    assert forall|i: u64| #[trigger] WakerInner::waits(given_up.recv_wakers, i) implies
        given_up.recvs.entries.contains(i) && i != id && WakerInner::waits(v.recv_wakers, i) by {
        assert(WakerInner::waits(v.recv_wakers, i));
    }
    lemma_announced_queued(given_up);
    let state = given_up.recv_wakers[id].state;
    if state == WakerState::CLOSED.code() {
        assert(crate::laws_seqs::seated(v.recv_wakers, id));
        assert forall|i: u64| #[trigger] WakerInner::waits(given_up.recv_wakers, i) implies
            v.recvs.kind != RegistryKind::Single && (v.recvs.kind == RegistryKind::Multi
            ==> given_up.recv_wakers[i].seq != seq) by {
            assert(crate::laws_seqs::seated(v.recv_wakers, i));
        }
        lemma_recvs_cleared_queued(given_up, seq);
    }
    let cleared = if state == WakerState::CLOSED.code() {
        given_up.recvs_cleared(seq)
    } else if state == WakerState::DONE.code() {
        given_up
    } else {
        given_up.announced()
    };
    let w = v.recv_abandoned(id);
    assert forall|i: u64| #[trigger] WakerInner::waits(w.recv_wakers, i) implies
        w.recvs.entries.contains(i) by {
        assert(WakerInner::waits(cleared.recv_wakers, i));
    }
}

/// Nobody who waits is forgotten: in orderly use, whatever is done with a channel,
/// everybody who waits stays queued where the other side finds them.
pub proof fn law_waiters_stay_queued<T>(v: ChannelView<T>, op: Op<T>)
    requires
        v.wf(),
        op.valid(v),
        op.orderly(v),
        v.all_told_apart(),
        v.all_queued(),
    ensures
        op.apply(v).all_queued(),
{
    reveal(Op::apply);
    let w = op.apply(v);
    match op {
        Op::Announce => lemma_announced_queued(v),
        Op::Serve(id) => lemma_served_queued(v, id),
        Op::MakeRoom => lemma_made_room_queued(v),
        Op::CloseTx => {
            let left = ChannelView { tx_count: RegistryView::wrapping_prev(v.tx_count), ..v };
            lemma_shut_frees_all(ChannelView { closed: true, ..left });
        },
        Op::CloseRx => {
            let left = ChannelView { rx_count: RegistryView::wrapping_prev(v.rx_count), ..v };
            lemma_shut_frees_all(ChannelView { closed: true, ..left });
        },
        Op::RegisterSend(id) => lemma_registered_queued(v, id),
        Op::RegisterRecv(id) => lemma_registered_queued(v, id),
        Op::TryAgain(id, _, _, _) | Op::TryOn(id, _) => {
            lemma_handed_in_queued(v, id);
            if w.queue == v.queue {
                assert forall|i: u64| #[trigger] WakerInner::waits(w.send_wakers, i) implies
                    w.senders.entries.contains(i) by {
                    assert(WakerInner::waits(v.send_wakers, i));
                }
            }
        },
        Op::Retry(id) => {
            let waker = v.send_wakers[id];
            let u = v.pushed(waker.payload->0).with_send_waker(
                id,
                WakerInner { payload: None, ..waker },
            );
            assert forall|i: u64| #[trigger] WakerInner::waits(u.send_wakers, i) implies
                u.senders.entries.contains(i) by {
                assert(WakerInner::waits(v.send_wakers, i));
            }
            lemma_announced_queued(u);
        },
        Op::AbandonSend(id) => lemma_send_abandoned_queued(v, id),
        Op::AbandonRecv(id) => lemma_recv_abandoned_queued(v, id),
        Op::ClearRecvs(seq) => lemma_recvs_cleared_queued(v, seq),
        _ => {
            assert forall|i: u64| #[trigger] WakerInner::waits(w.send_wakers, i) implies
                w.senders.entries.contains(i) by {
                assert(WakerInner::waits(v.send_wakers, i));
            }
            assert forall|i: u64| #[trigger] WakerInner::waits(w.recv_wakers, i) implies
                w.recvs.entries.contains(i) by {
                assert(WakerInner::waits(v.recv_wakers, i));
                assert(v.recvs.entries.contains(i));
                if let Op::RecvDone(id) = op {
                    if v.recvs.entries == seq![id] {
                        assert(seq![id].contains(i));
                    }
                }
            }
        },
    }
}

/// If a receiver waits, a message wakes one: the foremost that waits.
pub proof fn law_message_wakes_receiver<T>(v: ChannelView<T>, waiting: u64, item: T)
    requires
        v.all_queued(),
        WakerInner::waits(v.recv_wakers, waiting),
    ensures
        v.next_receiver() is Some,
        ({
            let first = v.next_receiver()->0;
            &&& WakerInner::waits(v.recv_wakers, first)
            &&& v.announce_wakes() == seq![v.recv_wakers[first].waker]
            &&& v.sent(item).recv_wakers[first] == v.recv_wakers[first].with_state(
                WakerState::WAKED,
            )
        }),
{
    lemma_queued_behind(v.recvs.entries, v.recv_wakers, waiting);
    crate::laws::lemma_next_waits(v.recvs.entries, v.recv_wakers);
}

/// If a sender waits, room serves one: the foremost that waits. Its message is in,
/// or, if the room is gone again, it is to try again; either way it is woken.
pub proof fn law_room_serves_sender<T>(v: ChannelView<T>, waiting: u64)
    requires
        v.can_serve(),
        v.all_queued(),
        WakerInner::waits(v.send_wakers, waiting),
    ensures
        v.next_sender() is Some,
        ({
            let first = v.next_sender()->0;
            let w = v.made_room();
            &&& WakerInner::waits(v.send_wakers, first)
            &&& v.room_wakes().contains(v.send_wakers[first].waker)
            &&& !v.full() ==> w.queue == v.queue.push(v.send_wakers[first].payload->0)
                && w.send_wakers[first].state == WakerState::DONE.code()
            &&& v.full() ==> w.queue == v.queue && w.send_wakers[first].state
                == WakerState::WAKED.code()
        }),
{
    lemma_queued_behind(v.senders.entries, v.send_wakers, waiting);
    crate::laws::lemma_next_waits(v.senders.entries, v.send_wakers);
    assert(v.room_wakes()[0] == v.send_wakers[v.next_sender()->0].waker);
}

/// Those who wait are served in the order in which they registered: nobody who
/// is queued ahead of the one that is served waits.
pub proof fn law_first_come_first_served<T>(v: ChannelView<T>)
    ensures
        forall|j: int|
            0 <= j < v.send_index() ==> !WakerInner::waits(
                v.send_wakers,
                #[trigger] v.senders.entries[j],
            ),
        forall|j: int|
            0 <= j < v.recv_index() ==> !WakerInner::waits(
                v.recv_wakers,
                #[trigger] v.recvs.entries[j],
            ),
{
    crate::laws::lemma_next_waits(v.senders.entries, v.send_wakers);
    crate::laws::lemma_next_waits(v.recvs.entries, v.recv_wakers);
}

/// When the last sender or the last receiver is gone, the channel is closed, and
/// nobody is left waiting. The messages that are in it stay.
pub proof fn law_closing_frees_all<T>(v: ChannelView<T>)
    requires
        v.all_queued(),
    ensures
        v.tx_count <= 1 ==> {
            &&& v.without_tx().closed
            &&& v.without_tx().queue == v.queue
            &&& forall|id: u64| !#[trigger] WakerInner::waits(v.without_tx().send_wakers, id)
            &&& forall|id: u64| !#[trigger] WakerInner::waits(v.without_tx().recv_wakers, id)
        },
        v.rx_count <= 1 ==> {
            &&& v.without_rx().closed
            &&& v.without_rx().queue == v.queue
            &&& forall|id: u64| !#[trigger] WakerInner::waits(v.without_rx().send_wakers, id)
            &&& forall|id: u64| !#[trigger] WakerInner::waits(v.without_rx().recv_wakers, id)
        },
{
    let tx = ChannelView { tx_count: RegistryView::wrapping_prev(v.tx_count), ..v };
    lemma_shut_frees_all(ChannelView { closed: true, ..tx });
    let rx = ChannelView { rx_count: RegistryView::wrapping_prev(v.rx_count), ..v };
    lemma_shut_frees_all(ChannelView { closed: true, ..rx });
}

/// A channel that is closed stays closed, and one is closed only when the last
/// sender or the last receiver goes.
pub proof fn law_closed_for_good<T>(v: ChannelView<T>, op: Op<T>)
    ensures
        v.closed ==> op.apply(v).closed,
        !v.closed && op.apply(v).closed ==> (op is CloseTx && v.tx_count <= 1) || (op is CloseRx
            && v.rx_count <= 1),
{
    reveal(Op::apply);
}

impl<T> ChannelView<T> {
    /// The channel is closed if and only if no sender or no receiver is left.
    pub open spec fn closed_by_count(self) -> bool {
        self.closed == (self.tx_count == 0 || self.rx_count == 0)
    }
}

impl<T> Op<T> {
    /// Only a side that is there leaves, and only one that is there gets a member more.
    pub open spec fn counted(self, v: ChannelView<T>) -> bool {
        match self {
            Op::AddTx(_) => v.tx_count > 0,
            Op::AddRx(_) => v.rx_count > 0,
            Op::CloseTx => v.tx_count > 0,
            Op::CloseRx => v.rx_count > 0,
            _ => true,
        }
    }
}

/// A channel is disconnected if and only if all its senders or all its receivers
/// are gone: so it is when it is made, and so it stays whatever is done with it.
pub proof fn law_disconnected_when_side_gone<T>(
    v: ChannelView<T>,
    op: Op<T>,
    bound: Option<usize>,
    senders: RegistryView,
    recvs: RegistryView,
)
    requires
        op.valid(v),
        op.counted(v),
        v.closed_by_count(),
    ensures
        op.apply(v).closed_by_count(),
        ChannelView::<T>::initial(Seq::empty(), bound, senders, recvs).closed_by_count(),
{
    if !(op is AddTx || op is AddRx || op is CloseTx || op is CloseRx) {
        crate::laws::lemma_frame(v, op);
    } else {
        reveal(Op::apply);
    }
}

/// As long as senders wait, a full channel stays full: in place of a message that is
/// taken out comes, behind all others, that of the foremost sender that waits.
pub proof fn law_room_is_filled<T>(v: ChannelView<T>, waiting: u64)
    requires
        v.sound(),
        v.can_serve(),
        v.all_queued(),
        v.full(),
        WakerInner::waits(v.send_wakers, waiting),
    ensures
        v.received().made_room().full(),
        v.received().made_room().queue == v.queue.drop_first().push(
            v.send_wakers[v.next_sender()->0].payload->0,
        ),
{
    let w = v.received();
    assert(w.all_queued());
    law_room_serves_sender(w, waiting);
}

/// While the waker of a sender is locked, nobody takes its message: neither one
/// who makes room, nor the sender itself when it goes on trying.
pub proof fn law_lock_protects_message<T>(v: ChannelView<T>, id: u64, attempt: AttemptView)
    requires
        v.send_wakers.contains_key(id),
        v.send_wakers[id].locked,
    ensures
        v.served(id) == v,
        v.serve_wakes(id) == Seq::<WakerType>::empty(),
        v.try_on(id, attempt).shared == v,
        v.try_on(id, attempt).wakes == Seq::<WakerType>::empty(),
{
}

} // verus!
