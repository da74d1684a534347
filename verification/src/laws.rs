//! Everything that can be done with a channel, and what it keeps: that the channel
//! is well-formed, that numbers are unique, that nobody who waits is disturbed.

use vstd::prelude::*;

use crate::backoff::BackoffConfig;
use crate::locked_waker::{WakerInner, WakerState, WakerType};
use crate::model::{ChannelView, Serving};
use crate::protocol::AttemptView;
use crate::waker_registry::{RegistryKind, RegistryView};

verus! {

/// What can be done with the shared state of a channel, in one critical section that
/// leaves no waker locked.
pub enum Op<T> {
    Push(T),
    Receive,
    Announce,
    Serve(u64),
    MakeRoom,
    AddTx(usize),
    AddRx(usize),
    CloseTx,
    CloseRx,
    NewSend(WakerType, T),
    NewRecv(WakerType),
    Reuse(u64, u64, T),
    RegisterSend(u64),
    RegisterRecv(u64),
    TryAgain(u64, Option<u64>, bool, BackoffConfig),
    TryOn(u64, AttemptView),
    Retry(u64),
    DropSend(u64),
    DropRecv(u64),
    AbandonSend(u64),
    AbandonRecv(u64),
    RecvDone(u64),
    ClearRecvs(usize),
}

impl<T> Op<T> {
    /// Whether the operation may be done in that state.
    pub open spec fn valid(self, v: ChannelView<T>) -> bool {
        match self {
            Op::Serve(id) => v.send_wakers.contains_key(id),
            Op::AddTx(avail) => v.tx_count + 1 + v.rx_count <= usize::MAX,
            Op::AddRx(avail) => v.tx_count + v.rx_count + 1 <= usize::MAX,
            Op::NewSend(_, _) => v.bound is Some && v.next_send < u64::MAX,
            Op::NewRecv(_) => v.next_recv < u64::MAX,
            Op::Reuse(id, _, _) => v.bound is Some && v.send_wakers.contains_key(id),
            Op::RegisterSend(id) => v.pending(id) && v.senders.kind != RegistryKind::Dummy,
            Op::RegisterRecv(id) => v.recv_wakers.contains_key(id) && v.recvs.kind
                != RegistryKind::Dummy,
            Op::TryAgain(id, _, _, _) => v.pending(id),
            Op::TryOn(id, _) => v.pending(id),
            Op::Retry(id) => v.pending(id) && v.send_wakers[id].state == WakerState::WAKED.code()
                && !v.full(),
            Op::DropSend(id) => v.send_wakers.contains_key(id),
            Op::DropRecv(id) => v.recv_wakers.contains_key(id),
            Op::AbandonSend(id) => v.send_wakers.contains_key(id),
            Op::AbandonRecv(id) => v.recv_wakers.contains_key(id),
            Op::RecvDone(id) => v.recv_wakers.contains_key(id),
            _ => true,
        }
    }

    /// The state that the operation leads to.
    #[verifier::opaque]
    pub open spec fn apply(self, v: ChannelView<T>) -> ChannelView<T> {
        match self {
            Op::Push(item) => if v.full() {
                v
            } else {
                v.pushed(item)
            },
            Op::Receive => v.received(),
            Op::Announce => v.announced(),
            Op::Serve(id) => v.served(id),
            Op::MakeRoom => v.made_room(),
            Op::AddTx(avail) => ChannelView {
                tx_count: (v.tx_count + 1) as usize,
                ..v
            }.configured(avail),
            Op::AddRx(avail) => ChannelView {
                rx_count: (v.rx_count + 1) as usize,
                ..v
            }.configured(avail),
            Op::CloseTx => v.without_tx(),
            Op::CloseRx => v.without_rx(),
            Op::NewSend(waker, item) => v.with_new_send(waker, item),
            Op::NewRecv(waker) => v.with_new_recv(waker),
            Op::Reuse(id, thread, item) => v.acquired(Some(id), thread, item),
            Op::RegisterSend(id) => v.send_registered(id),
            Op::RegisterRecv(id) => v.recv_registered(id),
            Op::TryAgain(id, ctx, fastpath, conf) => v.tried(id, ctx, fastpath, conf).shared,
            Op::TryOn(id, attempt) => v.try_on(id, attempt).shared,
            Op::Retry(id) => v.retried(id),
            Op::DropSend(id) => v.without_send_waker(id),
            Op::DropRecv(id) => v.without_recv_waker(id),
            Op::AbandonSend(id) => v.send_abandoned(id),
            Op::AbandonRecv(id) => v.recv_abandoned(id),
            Op::RecvDone(id) => v.recv_done(id),
            Op::ClearRecvs(seq) => v.recvs_cleared(seq),
        }
    }

    /// Who is woken by the operation.
    #[verifier::opaque]
    pub open spec fn wakes(self, v: ChannelView<T>) -> Seq<WakerType> {
        match self {
            Op::Announce => v.announce_wakes(),
            Op::Serve(id) => v.serve_wakes(id),
            Op::MakeRoom => v.room_wakes(),
            Op::CloseTx => if v.tx_count <= 1 {
                v.shut_wakes()
            } else {
                Seq::empty()
            },
            Op::CloseRx => if v.rx_count <= 1 {
                v.shut_wakes()
            } else {
                Seq::empty()
            },
            Op::TryAgain(id, ctx, fastpath, conf) => v.tried(id, ctx, fastpath, conf).wakes,
            Op::TryOn(id, attempt) => v.try_on(id, attempt).wakes,
            Op::Retry(id) => v.announce_wakes(),
            Op::AbandonSend(id) => v.send_abandon_wakes(id),
            Op::AbandonRecv(id) => v.recv_abandon_wakes(id),
            Op::ClearRecvs(seq) => v.recvs_clear_wakes(seq),
            _ => Seq::empty(),
        }
    }

    /// Whether the operation is one that the owner of the sender's waker does.
    pub open spec fn by_sender(self, id: u64) -> bool {
        match self {
            Op::Reuse(i, _, _) => i == id,
            Op::RegisterSend(i) => i == id,
            Op::TryAgain(i, _, _, _) => i == id,
            Op::TryOn(i, _) => i == id,
            Op::Retry(i) => i == id,
            Op::DropSend(i) => i == id,
            Op::AbandonSend(i) => i == id,
            _ => false,
        }
    }

    /// Whether the operation is one that the owner of the receiver's waker does.
    pub open spec fn by_receiver(self, id: u64) -> bool {
        match self {
            Op::RegisterRecv(i) => i == id,
            Op::DropRecv(i) => i == id,
            Op::AbandonRecv(i) => i == id,
            Op::RecvDone(i) => i == id,
            _ => false,
        }
    }
}

impl<T> ChannelView<T> {
    /// Every number that is in use was given out before.
    pub open spec fn numbered(self) -> bool {
        &&& forall|id: u64| #[trigger] self.send_wakers.contains_key(id) ==> id < self.next_send
        &&& forall|id: u64| #[trigger] self.recv_wakers.contains_key(id) ==> id < self.next_recv
        &&& forall|id: u64| #[trigger] self.senders.entries.contains(id) ==> id < self.next_send
        &&& forall|id: u64| #[trigger] self.recvs.entries.contains(id) ==> id < self.next_recv
    }
}

proof fn lemma_announced_wf<T>(v: ChannelView<T>)
    requires
        v.wf(),
    ensures
        v.announced().wf(),
{
    let w = v.announced();
    assert forall|id: u64| #[trigger] w.recv_wakers.contains_key(id) implies !w.recv_wakers[id].locked
        && w.recv_wakers[id].state <= WakerState::CLOSED.code() by {
        assert(v.recv_wakers.contains_key(id));
    }
}

proof fn lemma_with_send_waker_wf<T>(v: ChannelView<T>, id: u64, waker: WakerInner<Option<T>>)
    requires
        v.wf(),
        v.bound is Some,
        !waker.locked,
        waker.state <= WakerState::CLOSED.code(),
        waker.waiting() ==> waker.payload is Some,
        waker.state == WakerState::DONE.code() ==> waker.payload is None,
    ensures
        v.with_send_waker(id, waker).wf(),
{
    let w = v.with_send_waker(id, waker);
    assert forall|i: u64| #[trigger] w.send_wakers.contains_key(i) implies !w.send_wakers[i].locked
        && w.send_wakers[i].state <= WakerState::CLOSED.code() && (w.send_wakers[i].waiting()
        ==> w.send_wakers[i].payload is Some) && (w.send_wakers[i].state == WakerState::DONE.code()
        ==> w.send_wakers[i].payload is None) by {
        if i != id {
            assert(v.send_wakers.contains_key(i));
        }
    }
}

proof fn lemma_taken_over_wf<T>(v: ChannelView<T>, id: u64)
    requires
        v.wf(),
        v.send_wakers.contains_key(id),
        !v.full(),
    ensures
        v.taken_over(id).wf(),
{
    let waker = v.send_wakers[id];
    lemma_with_send_waker_wf(
        v.pushed(waker.payload->0),
        id,
        WakerInner { payload: None, ..waker.with_state(WakerState::DONE) },
    );
}

proof fn lemma_served_wf<T>(v: ChannelView<T>, id: u64)
    requires
        v.wf(),
    ensures
        v.served(id).wf(),
{
    if WakerInner::waits(v.send_wakers, id) {
        if v.full() {
            lemma_with_send_waker_wf(v, id, v.send_wakers[id].with_state(WakerState::WAKED));
        } else {
            lemma_taken_over_wf(v, id);
            lemma_announced_wf(v.taken_over(id));
        }
    }
}

proof fn lemma_made_room_wf<T>(v: ChannelView<T>)
    requires
        v.wf(),
    ensures
        v.made_room().wf(),
{
    let rest = ChannelView {
        senders: v.senders.with_entries(RegistryView::behind(v.senders.entries, v.send_index())),
        ..v
    };
    match v.next_sender() {
        Some(id) => lemma_served_wf(rest, id),
        None => {},
    }
}

/// Moving senders on leaves a channel well-formed.
proof fn lemma_senders_moved_wf<T>(v: ChannelView<T>, entries: Seq<u64>, state: WakerState)
    requires
        v.wf(),
        state == WakerState::WAKED || state == WakerState::CLOSED,
    ensures
        (ChannelView {
            send_wakers: RegistryView::moved_all(entries, v.send_wakers, state),
            ..v
        }).wf(),
{
    let moved = RegistryView::moved_all(entries, v.send_wakers, state);
    if v.bound is None {
        assert(moved =~= Map::<u64, WakerInner<Option<T>>>::empty());
    }
    assert forall|i: u64| #[trigger] moved.contains_key(i) implies !moved[i].locked
        && moved[i].state <= WakerState::CLOSED.code() && (moved[i].waiting()
        ==> moved[i].payload is Some) && (moved[i].state == WakerState::DONE.code()
        ==> moved[i].payload is None) by {
        assert(v.send_wakers.contains_key(i));
    }
}

/// Moving receivers on leaves a channel well-formed.
proof fn lemma_recvs_moved_wf<T>(v: ChannelView<T>, entries: Seq<u64>, state: WakerState)
    requires
        v.wf(),
        state == WakerState::WAKED || state == WakerState::CLOSED,
    ensures
        (ChannelView {
            recv_wakers: RegistryView::moved_all(entries, v.recv_wakers, state),
            ..v
        }).wf(),
{
    let moved = RegistryView::moved_all(entries, v.recv_wakers, state);
    assert forall|i: u64| #[trigger] moved.contains_key(i) implies !moved[i].locked
        && moved[i].state <= WakerState::CLOSED.code() by {
        assert(v.recv_wakers.contains_key(i));
    }
}

proof fn lemma_shut_wf<T>(v: ChannelView<T>)
    requires
        v.wf(),
    ensures
        v.shut().wf(),
{
    lemma_senders_moved_wf(v, v.senders.entries, WakerState::CLOSED);
    lemma_recvs_moved_wf(v, v.recvs.entries, WakerState::CLOSED);
}

/// A sender's waker that moves on from waiting leaves a channel well-formed.
pub(crate) proof fn lemma_sender_moves_wf<T>(v: ChannelView<T>, id: u64)
    requires
        v.wf(),
    ensures
        (ChannelView {
            send_wakers: WakerInner::after_move(v.send_wakers, id, WakerState::CLOSED),
            ..v
        }).wf(),
{
    if WakerInner::waits(v.send_wakers, id) {
        lemma_with_send_waker_wf(v, id, v.send_wakers[id].with_state(WakerState::CLOSED));
    }
}

proof fn lemma_without_send_waker_wf<T>(v: ChannelView<T>, id: u64)
    requires
        v.wf(),
    ensures
        v.without_send_waker(id).wf(),
{
    let w = v.without_send_waker(id);
    if v.bound is None {
        assert(w.send_wakers =~= v.send_wakers);
    }
    assert forall|i: u64| #[trigger] w.send_wakers.contains_key(i) implies v.send_wakers.contains_key(
        i,
    ) by {}
}

proof fn lemma_handed_in_wf<T>(v: ChannelView<T>, id: u64)
    requires
        v.wf(),
        v.send_wakers.contains_key(id),
        !v.full(),
    ensures
        v.handed_in(id).wf(),
{
    let taken = v.taken_over(id);
    lemma_taken_over_wf(v, id);
    lemma_announced_wf(taken);
    lemma_announced_wf(ChannelView { senders: taken.senders.withdrawn(id), ..taken });
}

proof fn lemma_with_recv_waker_wf<T>(v: ChannelView<T>, id: u64, waker: WakerInner<()>)
    requires
        v.wf(),
        !waker.locked,
        waker.state <= WakerState::CLOSED.code(),
    ensures
        (ChannelView { recv_wakers: v.recv_wakers.insert(id, waker), ..v }).wf(),
{
    let wakers = v.recv_wakers.insert(id, waker);
    assert forall|i: u64| #[trigger] wakers.contains_key(i) implies !wakers[i].locked
        && wakers[i].state <= WakerState::CLOSED.code() by {
        if i != id {
            assert(v.recv_wakers.contains_key(i));
        }
    }
}

proof fn lemma_send_registered_wf<T>(v: ChannelView<T>, id: u64)
    requires
        v.wf(),
        v.pending(id),
    ensures
        v.send_registered(id).wf(),
{
    if v.send_wakers[id].state == WakerState::WAKED.code() {
        let waits = v.send_wakers[id].with_state(WakerState::WAITING);
        let w = v.with_send_waker(id, waits);
        lemma_with_send_waker_wf(v, id, waits);
        lemma_with_send_waker_wf(w, id, WakerInner { seq: v.senders.next_seq, ..waits });
    }
}

proof fn lemma_recv_registered_wf<T>(v: ChannelView<T>, id: u64)
    requires
        v.wf(),
        v.recv_wakers.contains_key(id),
    ensures
        v.recv_registered(id).wf(),
{
    if v.recv_wakers[id].state == WakerState::WAKED.code() {
        let waits = v.recv_wakers[id].with_state(WakerState::WAITING);
        let w = ChannelView { recv_wakers: v.recv_wakers.insert(id, waits), ..v };
        lemma_with_recv_waker_wf(v, id, waits);
        lemma_with_recv_waker_wf(w, id, WakerInner { seq: v.recvs.next_seq, ..waits });
    }
}

proof fn lemma_tried_wf<T>(
    v: ChannelView<T>,
    id: u64,
    ctx: Option<u64>,
    fastpath: bool,
    conf: BackoffConfig,
)
    requires
        v.wf(),
        v.pending(id),
    ensures
        v.tried(id, ctx, fastpath, conf).shared.wf(),
{
    lemma_sender_moves_wf(v, id);
    if !v.full() {
        lemma_handed_in_wf(v, id);
    }
    if ctx is Some {
        lemma_with_send_waker_wf(
            v,
            id,
            WakerInner { waker: WakerType::Async(ctx->0), ..v.send_wakers[id] },
        );
    }
}

proof fn lemma_retried_wf<T>(v: ChannelView<T>, id: u64)
    requires
        v.wf(),
        v.send_wakers.contains_key(id),
        v.send_wakers[id].state == WakerState::WAKED.code(),
        !v.full(),
    ensures
        v.retried(id).wf(),
{
    let waker = v.send_wakers[id];
    let w = v.pushed(waker.payload->0);
    lemma_with_send_waker_wf(w, id, WakerInner { payload: None, ..waker });
    lemma_announced_wf(w.with_send_waker(id, WakerInner { payload: None, ..waker }));
}

proof fn lemma_send_abandoned_wf<T>(v: ChannelView<T>, id: u64)
    requires
        v.wf(),
    ensures
        v.send_abandoned(id).wf(),
{
    let given_up = ChannelView {
        send_wakers: WakerInner::after_move(v.send_wakers, id, WakerState::CLOSED),
        ..v
    };
    let seq = v.send_wakers[id].seq;
    lemma_sender_moves_wf(v, id);
    lemma_senders_moved_wf(
        given_up,
        given_up.senders.clear_hits(given_up.send_wakers, seq),
        WakerState::WAKED,
    );
    assert(given_up.senders_cleared(seq).wf());
    lemma_made_room_wf(given_up);
    lemma_without_send_waker_wf(given_up.senders_cleared(seq), id);
    lemma_without_send_waker_wf(given_up, id);
    lemma_without_send_waker_wf(given_up.made_room(), id);
}

proof fn lemma_without_recv_waker_wf<T>(v: ChannelView<T>, id: u64)
    requires
        v.wf(),
    ensures
        v.without_recv_waker(id).wf(),
{
    let w = v.without_recv_waker(id);
    assert forall|i: u64| #[trigger] w.recv_wakers.contains_key(i) implies v.recv_wakers.contains_key(
        i,
    ) by {}
}

proof fn lemma_recv_abandoned_wf<T>(v: ChannelView<T>, id: u64)
    requires
        v.wf(),
    ensures
        v.recv_abandoned(id).wf(),
{
    let given_up = ChannelView {
        recv_wakers: WakerInner::after_move(v.recv_wakers, id, WakerState::CLOSED),
        ..v
    };
    let seq = v.recv_wakers[id].seq;
    if WakerInner::waits(v.recv_wakers, id) {
        lemma_with_recv_waker_wf(v, id, v.recv_wakers[id].with_state(WakerState::CLOSED));
    }
    assert(given_up.wf());
    lemma_recvs_moved_wf(
        given_up,
        given_up.recvs.clear_hits(given_up.recv_wakers, seq),
        WakerState::WAKED,
    );
    assert(given_up.recvs_cleared(seq).wf());
    lemma_announced_wf(given_up);
    lemma_without_recv_waker_wf(given_up.recvs_cleared(seq), id);
    lemma_without_recv_waker_wf(given_up, id);
    lemma_without_recv_waker_wf(given_up.announced(), id);
}

/// Whatever is done with a channel, it stays well-formed: the bound is kept, no
/// waker is left locked, and every sender that waits has its message at hand.
pub proof fn law_well_formed<T>(v: ChannelView<T>, op: Op<T>)
    requires
        v.wf(),
        op.valid(v),
    ensures
        op.apply(v).wf(),
{
    reveal(Op::apply);
    match op {
        Op::Push(_) => {},
        Op::Receive => {},
        Op::Announce => lemma_announced_wf(v),
        Op::Serve(id) => lemma_served_wf(v, id),
        Op::MakeRoom => lemma_made_room_wf(v),
        Op::AddTx(_) => {},
        Op::AddRx(_) => {},
        Op::CloseTx => {
            let left = ChannelView { tx_count: RegistryView::wrapping_prev(v.tx_count), ..v };
            lemma_shut_wf(ChannelView { closed: true, ..left });
        },
        Op::CloseRx => {
            let left = ChannelView { rx_count: RegistryView::wrapping_prev(v.rx_count), ..v };
            lemma_shut_wf(ChannelView { closed: true, ..left });
        },
        Op::NewSend(waker, item) => {
            let next = ChannelView { next_send: (v.next_send + 1) as u64, ..v };
            lemma_with_send_waker_wf(next, v.next_send, WakerInner::fresh(waker, Some(item)));
        },
        Op::NewRecv(waker) => {
            let next = ChannelView { next_recv: (v.next_recv + 1) as u64, ..v };
            lemma_with_recv_waker_wf(next, v.next_recv, WakerInner::fresh(waker, ()));
        },
        Op::Reuse(id, thread, item) => lemma_with_send_waker_wf(
            v,
            id,
            v.send_wakers[id].reused(thread, Some(item)),
        ),
        Op::RegisterSend(id) => lemma_send_registered_wf(v, id),
        Op::RegisterRecv(id) => lemma_recv_registered_wf(v, id),
        Op::TryAgain(id, ctx, fastpath, conf) => lemma_tried_wf(v, id, ctx, fastpath, conf),
        Op::TryOn(id, attempt) => {
            if !v.full() {
                lemma_handed_in_wf(v, id);
            }
        },
        Op::Retry(id) => lemma_retried_wf(v, id),
        Op::DropSend(id) => lemma_without_send_waker_wf(v, id),
        Op::DropRecv(id) => lemma_without_recv_waker_wf(v, id),
        Op::AbandonSend(id) => lemma_send_abandoned_wf(v, id),
        Op::AbandonRecv(id) => lemma_recv_abandoned_wf(v, id),
        Op::RecvDone(id) => lemma_with_recv_waker_wf(
            v,
            id,
            v.recv_wakers[id].with_state(WakerState::DONE),
        ),
        Op::ClearRecvs(seq) => lemma_recvs_moved_wf(
            v,
            v.recvs.clear_hits(v.recv_wakers, seq),
            WakerState::WAKED,
        ),
    }
}


/// What others can do to a sender: nothing; or, if it waits, wake it, having
/// taken its message over, or told it to try again, or that the channel is closed.
pub open spec fn sender_kept<T>(
    v: ChannelView<T>,
    w: ChannelView<T>,
    wakes: Seq<WakerType>,
    id: u64,
) -> bool {
    let before = v.send_wakers[id];
    let after = w.send_wakers[id];
    &&& w.send_wakers.contains_key(id)
    &&& after == before || {
        &&& before.waiting()
        &&& wakes.contains(before.waker)
        &&& {
            ||| after == before.with_state(WakerState::WAKED)
            ||| after == before.with_state(WakerState::CLOSED)
            ||| {
                &&& after == (WakerInner { payload: None, ..before.with_state(WakerState::DONE) })
                &&& w.queue == v.queue.push(before.payload->0)
            }
        }
    }
}

/// What others can do to a receiver: nothing; or, if it waits, wake it, having
/// told it to try again, or that the channel is closed.
pub open spec fn receiver_kept<T>(
    v: ChannelView<T>,
    w: ChannelView<T>,
    wakes: Seq<WakerType>,
    id: u64,
) -> bool {
    let before = v.recv_wakers[id];
    let after = w.recv_wakers[id];
    &&& w.recv_wakers.contains_key(id)
    &&& after == before || {
        &&& before.waiting()
        &&& wakes.contains(before.waker)
        &&& {
            ||| after == before.with_state(WakerState::WAKED)
            ||| after == before.with_state(WakerState::CLOSED)
        }
    }
}

/// Whoever is moved on is woken.
proof fn lemma_targets_contain<P>(
    entries: Seq<u64>,
    wakers: Map<u64, WakerInner<P>>,
    state: WakerState,
    id: u64,
)
    requires
        entries.contains(id),
        WakerInner::waits(wakers, id),
    ensures
        RegistryView::targets(entries, wakers, state).contains(wakers[id].waker),
    decreases entries.len(),
{
    let first = WakerInner::target_of(wakers, entries[0]);
    let moved = WakerInner::after_move(wakers, entries[0], state);
    let rest = RegistryView::targets(entries.drop_first(), moved, state);
    let all = RegistryView::targets(entries, wakers, state);
    assert(all == first + rest);
    if entries[0] == id {
        assert(all[0] == wakers[id].waker);
    } else {
        let i = choose|i: int| 0 <= i < entries.len() && entries[i] == id;
        assert(entries.drop_first()[i - 1] == id);
        lemma_targets_contain(entries.drop_first(), moved, state, id);
        let j = choose|j: int| 0 <= j < rest.len() && rest[j] == wakers[id].waker;
        assert(all[first.len() + j] == wakers[id].waker);
    }
}

/// The foremost waker that waits does wait.
pub(crate) proof fn lemma_next_waits<P>(entries: Seq<u64>, wakers: Map<u64, WakerInner<P>>)
    ensures
        ({
            let k = RegistryView::first_index(entries, RegistryView::waits_in(wakers));
            &&& k <= entries.len()
            &&& k < entries.len() ==> WakerInner::waits(wakers, entries[k as int])
            &&& forall|j: int| 0 <= j < k ==> !WakerInner::waits(wakers, #[trigger] entries[j])
        }),
{
    crate::waker_registry::lemma_first_index(entries, RegistryView::waits_in(wakers));
}

proof fn lemma_announced_receiver<T>(v: ChannelView<T>, id: u64)
    requires
        v.recv_wakers.contains_key(id),
    ensures
        receiver_kept(v, v.announced(), v.announce_wakes(), id),
{
    lemma_next_waits(v.recvs.entries, v.recv_wakers);
    if v.next_receiver() == Some(id) {
        assert(v.announce_wakes()[0] == v.recv_wakers[id].waker);
    }
}

proof fn lemma_served_sender<T>(v: ChannelView<T>, served: u64, id: u64)
    requires
        v.send_wakers.contains_key(id),
    ensures
        sender_kept(v, v.served(served), v.serve_wakes(served), id),
{
    if served == id && v.serving(id) == Serving::Woken {
        assert(v.serve_wakes(id)[0] == v.send_wakers[id].waker);
    }
}

proof fn lemma_served_receiver<T>(v: ChannelView<T>, served: u64, id: u64)
    requires
        v.recv_wakers.contains_key(id),
    ensures
        receiver_kept(v, v.served(served), v.serve_wakes(served), id),
{
    if v.serving(served) == Serving::Woken && !v.full() {
        let taken = v.taken_over(served);
        lemma_announced_receiver(taken, id);
        if taken.announce_wakes().contains(v.recv_wakers[id].waker) {
            let j = choose|j: int|
                0 <= j < taken.announce_wakes().len() && taken.announce_wakes()[j]
                    == v.recv_wakers[id].waker;
            assert(v.serve_wakes(served)[j + 1] == v.recv_wakers[id].waker);
        }
    }
}

proof fn lemma_made_room_kept<T>(v: ChannelView<T>, id: u64)
    ensures
        v.send_wakers.contains_key(id) ==> sender_kept(v, v.made_room(), v.room_wakes(), id),
        v.recv_wakers.contains_key(id) ==> receiver_kept(v, v.made_room(), v.room_wakes(), id),
{
    let rest = ChannelView {
        senders: v.senders.with_entries(RegistryView::behind(v.senders.entries, v.send_index())),
        ..v
    };
    match v.next_sender() {
        Some(served) => {
            assert(rest.serve_wakes(served) == v.serve_wakes(served)) by {
                assert(rest.taken_over(served).announce_wakes() == v.taken_over(
                    served,
                ).announce_wakes());
            }
            if v.send_wakers.contains_key(id) {
                lemma_served_sender(rest, served, id);
            }
            if v.recv_wakers.contains_key(id) {
                lemma_served_receiver(rest, served, id);
            }
        },
        None => {},
    }
}

proof fn lemma_contains_sum<A>(a: Seq<A>, b: Seq<A>, x: A)
    requires
        a.contains(x) || b.contains(x),
    ensures
        (a + b).contains(x),
{
    if a.contains(x) {
        let i = choose|i: int| 0 <= i < a.len() && a[i] == x;
        assert((a + b)[i] == x);
    } else {
        let i = choose|i: int| 0 <= i < b.len() && b[i] == x;
        assert((a + b)[a.len() + i] == x);
    }
}

proof fn lemma_shut_kept<T>(v: ChannelView<T>, id: u64)
    ensures
        v.send_wakers.contains_key(id) ==> sender_kept(v, v.shut(), v.shut_wakes(), id),
        v.recv_wakers.contains_key(id) ==> receiver_kept(v, v.shut(), v.shut_wakes(), id),
{
    let recvs = RegistryView::targets(v.recvs.entries, v.recv_wakers, WakerState::CLOSED);
    let senders = RegistryView::targets(v.senders.entries, v.send_wakers, WakerState::CLOSED);
    if WakerInner::waits(v.send_wakers, id) && v.senders.entries.contains(id) {
        lemma_targets_contain(v.senders.entries, v.send_wakers, WakerState::CLOSED, id);
        lemma_contains_sum(recvs, senders, v.send_wakers[id].waker);
    }
    if WakerInner::waits(v.recv_wakers, id) && v.recvs.entries.contains(id) {
        lemma_targets_contain(v.recvs.entries, v.recv_wakers, WakerState::CLOSED, id);
        lemma_contains_sum(recvs, senders, v.recv_wakers[id].waker);
    }
}

proof fn lemma_senders_cleared_kept<T>(v: ChannelView<T>, seq: usize, id: u64)
    ensures
        v.send_wakers.contains_key(id) ==> sender_kept(
            v,
            v.senders_cleared(seq),
            v.senders_clear_wakes(seq),
            id,
        ),
{
    let hits = v.senders.clear_hits(v.send_wakers, seq);
    if WakerInner::waits(v.send_wakers, id) && hits.contains(id) {
        lemma_targets_contain(hits, v.send_wakers, WakerState::WAKED, id);
    }
}

proof fn lemma_recvs_cleared_kept<T>(v: ChannelView<T>, seq: usize, id: u64)
    ensures
        v.recv_wakers.contains_key(id) ==> receiver_kept(
            v,
            v.recvs_cleared(seq),
            v.recvs_clear_wakes(seq),
            id,
        ),
{
    let hits = v.recvs.clear_hits(v.recv_wakers, seq);
    if WakerInner::waits(v.recv_wakers, id) && hits.contains(id) {
        lemma_targets_contain(hits, v.recv_wakers, WakerState::WAKED, id);
    }
}

proof fn lemma_send_abandoned_kept<T>(v: ChannelView<T>, other: u64, id: u64)
    requires
        other != id,
    ensures
        v.send_wakers.contains_key(id) ==> sender_kept(
            v,
            v.send_abandoned(other),
            v.send_abandon_wakes(other),
            id,
        ),
{
    let given_up = ChannelView {
        send_wakers: WakerInner::after_move(v.send_wakers, other, WakerState::CLOSED),
        ..v
    };
    lemma_senders_cleared_kept(given_up, v.send_wakers[other].seq, id);
    lemma_made_room_kept(given_up, id);
}

proof fn lemma_send_abandoned_receiver<T>(v: ChannelView<T>, other: u64, id: u64)
    ensures
        v.recv_wakers.contains_key(id) ==> receiver_kept(
            v,
            v.send_abandoned(other),
            v.send_abandon_wakes(other),
            id,
        ),
{
    let given_up = ChannelView {
        send_wakers: WakerInner::after_move(v.send_wakers, other, WakerState::CLOSED),
        ..v
    };
    lemma_made_room_kept(given_up, id);
}

proof fn lemma_recv_abandoned_kept<T>(v: ChannelView<T>, other: u64, id: u64)
    requires
        other != id,
    ensures
        v.recv_wakers.contains_key(id) ==> receiver_kept(
            v,
            v.recv_abandoned(other),
            v.recv_abandon_wakes(other),
            id,
        ),
{
    let given_up = ChannelView {
        recv_wakers: WakerInner::after_move(v.recv_wakers, other, WakerState::CLOSED),
        ..v
    };
    lemma_recvs_cleared_kept(given_up, v.recv_wakers[other].seq, id);
    if v.recv_wakers.contains_key(id) {
        lemma_announced_receiver(given_up, id);
    }
}

/// Nobody disturbs a sender but to serve it. What others do leaves the message
/// with its waker, unless it is taken over, once, and put behind all others. And a
/// sender that is moved on from its wait is woken.
pub proof fn law_sender_undisturbed<T>(v: ChannelView<T>, op: Op<T>, id: u64)
    requires
        op.valid(v),
        v.numbered(),
        v.send_wakers.contains_key(id),
        !op.by_sender(id),
    ensures
        sender_kept(v, op.apply(v), op.wakes(v), id),
{
    reveal(Op::apply);
    reveal(Op::wakes);
    match op {
        Op::Serve(served) => lemma_served_sender(v, served, id),
        Op::MakeRoom => lemma_made_room_kept(v, id),
        Op::CloseTx => {
            let left = ChannelView { tx_count: RegistryView::wrapping_prev(v.tx_count), ..v };
            lemma_shut_kept(ChannelView { closed: true, ..left }, id);
        },
        Op::CloseRx => {
            let left = ChannelView { rx_count: RegistryView::wrapping_prev(v.rx_count), ..v };
            lemma_shut_kept(ChannelView { closed: true, ..left }, id);
        },
        Op::AbandonSend(other) => lemma_send_abandoned_kept(v, other, id),
        _ => {},
    }
}

/// Nobody disturbs a receiver but to wake it, and one that is moved on from its
/// wait is woken.
pub proof fn law_receiver_undisturbed<T>(v: ChannelView<T>, op: Op<T>, id: u64)
    requires
        op.valid(v),
        v.numbered(),
        v.recv_wakers.contains_key(id),
        !op.by_receiver(id),
    ensures
        receiver_kept(v, op.apply(v), op.wakes(v), id),
{
    reveal(Op::apply);
    reveal(Op::wakes);
    match op {
        Op::Announce => lemma_announced_receiver(v, id),
        Op::Serve(served) => lemma_served_receiver(v, served, id),
        Op::MakeRoom => lemma_made_room_kept(v, id),
        Op::CloseTx => {
            let left = ChannelView { tx_count: RegistryView::wrapping_prev(v.tx_count), ..v };
            lemma_shut_kept(ChannelView { closed: true, ..left }, id);
        },
        Op::CloseRx => {
            let left = ChannelView { rx_count: RegistryView::wrapping_prev(v.rx_count), ..v };
            lemma_shut_kept(ChannelView { closed: true, ..left }, id);
        },
        Op::TryAgain(other, _, _, _) => lemma_handed_in_receiver(v, other, id),
        Op::TryOn(other, _) => lemma_handed_in_receiver(v, other, id),
        Op::Retry(other) => {
            let waker = v.send_wakers[other];
            let w = v.pushed(waker.payload->0).with_send_waker(
                other,
                WakerInner { payload: None, ..waker },
            );
            lemma_announced_receiver(w, id);
        },
        Op::AbandonSend(other) => lemma_send_abandoned_receiver(v, other, id),
        Op::AbandonRecv(other) => lemma_recv_abandoned_kept(v, other, id),
        Op::ClearRecvs(seq) => lemma_recvs_cleared_kept(v, seq, id),
        _ => {},
    }
}

proof fn lemma_handed_in_receiver<T>(v: ChannelView<T>, other: u64, id: u64)
    requires
        v.recv_wakers.contains_key(id),
    ensures
        receiver_kept(v, v.handed_in(other), v.taken_over(other).announce_wakes(), id),
{
    let taken = v.taken_over(other);
    lemma_announced_receiver(taken, id);
    let withdrawn = ChannelView { senders: taken.senders.withdrawn(other), ..taken };
    lemma_announced_receiver(withdrawn, id);
    assert(withdrawn.announce_wakes() == taken.announce_wakes());
}


/// No entry comes from nowhere.
proof fn lemma_behind_subset(entries: Seq<u64>, k: nat)
    ensures
        forall|id: u64| #[trigger]
            RegistryView::behind(entries, k).contains(id) ==> entries.contains(id),
{
    let rest = RegistryView::behind(entries, k);
    assert forall|id: u64| #[trigger] rest.contains(id) implies entries.contains(id) by {
        let i = choose|i: int| 0 <= i < rest.len() && rest[i] == id;
        assert(entries[k + 1 + i] == id);
    }
}

/// What `w` has of numbers, `v` had.
spec fn no_new_numbers<T>(v: ChannelView<T>, w: ChannelView<T>) -> bool {
    &&& w.next_send == v.next_send
    &&& w.next_recv == v.next_recv
    &&& forall|id: u64| #[trigger] w.send_wakers.contains_key(id) ==> v.send_wakers.contains_key(id)
    &&& forall|id: u64| #[trigger] w.recv_wakers.contains_key(id) ==> v.recv_wakers.contains_key(id)
    &&& forall|id: u64| #[trigger]
        w.senders.entries.contains(id) ==> v.senders.entries.contains(id)
    &&& forall|id: u64| #[trigger] w.recvs.entries.contains(id) ==> v.recvs.entries.contains(id)
}

proof fn lemma_announced_numbers<T>(v: ChannelView<T>)
    ensures
        no_new_numbers(v, v.announced()),
{
    lemma_behind_subset(v.recvs.entries, v.recv_index());
    lemma_next_waits(v.recvs.entries, v.recv_wakers);
}

proof fn lemma_served_numbers<T>(v: ChannelView<T>, id: u64)
    ensures
        no_new_numbers(v, v.served(id)),
{
    lemma_announced_numbers(v.taken_over(id));
}

proof fn lemma_made_room_numbers<T>(v: ChannelView<T>)
    ensures
        no_new_numbers(v, v.made_room()),
{
    lemma_behind_subset(v.senders.entries, v.send_index());
    let rest = ChannelView {
        senders: v.senders.with_entries(RegistryView::behind(v.senders.entries, v.send_index())),
        ..v
    };
    match v.next_sender() {
        Some(id) => lemma_served_numbers(rest, id),
        None => {},
    }
}

proof fn lemma_handed_in_numbers<T>(v: ChannelView<T>, id: u64)
    requires
        v.send_wakers.contains_key(id),
    ensures
        no_new_numbers(v, v.handed_in(id)),
{
    let taken = v.taken_over(id);
    lemma_announced_numbers(taken);
    lemma_announced_numbers(ChannelView { senders: taken.senders.withdrawn(id), ..taken });
}

proof fn lemma_abandoned_numbers<T>(v: ChannelView<T>, id: u64)
    ensures
        v.send_wakers.contains_key(id) ==> no_new_numbers(v, v.send_abandoned(id)),
        v.recv_wakers.contains_key(id) ==> no_new_numbers(v, v.recv_abandoned(id)),
{
    let sender = ChannelView {
        send_wakers: WakerInner::after_move(v.send_wakers, id, WakerState::CLOSED),
        ..v
    };
    let receiver = ChannelView {
        recv_wakers: WakerInner::after_move(v.recv_wakers, id, WakerState::CLOSED),
        ..v
    };
    lemma_behind_subset(
        v.senders.entries,
        v.senders.clear_index(sender.send_wakers, v.send_wakers[id].seq),
    );
    lemma_behind_subset(
        v.recvs.entries,
        v.recvs.clear_index(receiver.recv_wakers, v.recv_wakers[id].seq),
    );
    lemma_made_room_numbers(sender);
    lemma_announced_numbers(receiver);
}

proof fn lemma_registered_numbers<T>(v: ChannelView<T>, id: u64)
    requires
        v.numbered(),
    ensures
        v.send_wakers.contains_key(id) ==> v.send_registered(id).numbered(),
        v.recv_wakers.contains_key(id) ==> v.recv_registered(id).numbered(),
{
    let s = v.send_registered(id);
    let r = v.recv_registered(id);
    assert forall|i: u64|
        v.send_wakers.contains_key(id) && #[trigger] s.senders.entries.contains(
            i,
        ) implies i < s.next_send by {
        let k = choose|k: int| 0 <= k < s.senders.entries.len() && s.senders.entries[k] == i;
        if k < v.senders.entries.len() && v.senders.entries[k] == i {
            assert(v.senders.entries.contains(i));
        } else {
            assert(i == id);
        }
    }
    assert forall|i: u64|
        v.recv_wakers.contains_key(id) && #[trigger] r.recvs.entries.contains(
            i,
        ) implies i < r.next_recv by {
        let k = choose|k: int| 0 <= k < r.recvs.entries.len() && r.recvs.entries[k] == i;
        if k < v.recvs.entries.len() && v.recvs.entries[k] == i {
            assert(v.recvs.entries.contains(i));
        } else {
            assert(i == id);
        }
    }
    assert forall|i: u64|
        v.send_wakers.contains_key(id) && #[trigger] s.send_wakers.contains_key(
            i,
        ) implies i < s.next_send by {
        assert(v.send_wakers.contains_key(i));
    }
    assert forall|i: u64|
        v.recv_wakers.contains_key(id) && #[trigger] r.recv_wakers.contains_key(
            i,
        ) implies i < r.next_recv by {
        assert(v.recv_wakers.contains_key(i));
    }
}

/// An entry of the senders' registry was there before, unless its owner just registered.
pub(crate) proof fn lemma_entries_from<T>(v: ChannelView<T>, op: Op<T>, id: u64)
    requires
        op.valid(v),
        !op.by_sender(id),
        op.apply(v).senders.entries.contains(id),
    ensures
        v.senders.entries.contains(id),
{
    reveal(Op::apply);
    let w = op.apply(v);
    match op {
        Op::Serve(other) => lemma_served_numbers(v, other),
        Op::MakeRoom => lemma_made_room_numbers(v),
        Op::RegisterSend(other) => {
            let k = choose|k: int| 0 <= k < w.senders.entries.len() && w.senders.entries[k] == id;
            assert(v.senders.entries[k] == id);
        },
        Op::TryAgain(other, _, _, _) => lemma_handed_in_numbers(v, other),
        Op::TryOn(other, _) => lemma_handed_in_numbers(v, other),
        Op::AbandonSend(other) => lemma_abandoned_numbers(v, other),
        _ => {},
    }
}

/// A waker was there before, unless it is new.
pub(crate) proof fn lemma_wakers_from<T>(v: ChannelView<T>, op: Op<T>)
    requires
        op.valid(v),
    ensures
        forall|id: u64| #[trigger]
            op.apply(v).send_wakers.contains_key(id) ==> v.send_wakers.contains_key(id) || (
            op is NewSend && id == v.next_send),
        forall|id: u64| #[trigger]
            op.apply(v).recv_wakers.contains_key(id) ==> v.recv_wakers.contains_key(id) || (
            op is NewRecv && id == v.next_recv),
{
    reveal(Op::apply);
    let w = op.apply(v);
    match op {
        Op::Announce => lemma_announced_numbers(v),
        Op::Serve(id) => lemma_served_numbers(v, id),
        Op::MakeRoom => lemma_made_room_numbers(v),
        Op::TryAgain(id, _, _, _) => lemma_handed_in_numbers(v, id),
        Op::TryOn(id, _) => lemma_handed_in_numbers(v, id),
        Op::Retry(id) => {
            let waker = v.send_wakers[id];
            lemma_announced_numbers(
                v.pushed(waker.payload->0).with_send_waker(
                    id,
                    WakerInner { payload: None, ..waker },
                ),
            );
        },
        Op::AbandonSend(id) => lemma_abandoned_numbers(v, id),
        Op::AbandonRecv(id) => lemma_abandoned_numbers(v, id),
        _ => {},
    }
}

/// Numbers are never given out twice: whatever is done with a channel, all that
/// are in use, by wakers or by entries that outlived them, were given out before.
/// So no entry refers to a waker that was created after it.
pub proof fn law_numbers_unique<T>(v: ChannelView<T>, op: Op<T>)
    requires
        op.valid(v),
        v.numbered(),
    ensures
        op.apply(v).numbered(),
{
    reveal(Op::apply);
    let w = op.apply(v);
    match op {
        Op::Announce => lemma_announced_numbers(v),
        Op::Serve(id) => lemma_served_numbers(v, id),
        Op::MakeRoom => lemma_made_room_numbers(v),
        Op::NewSend(_, _) => {
            assert forall|i: u64| #[trigger] w.send_wakers.contains_key(i) implies i
                < w.next_send by {
                if i != v.next_send {
                    assert(v.send_wakers.contains_key(i));
                }
            }
        },
        Op::NewRecv(_) => {
            assert forall|i: u64| #[trigger] w.recv_wakers.contains_key(i) implies i
                < w.next_recv by {
                if i != v.next_recv {
                    assert(v.recv_wakers.contains_key(i));
                }
            }
        },
        Op::Reuse(id, _, _) => {
            assert(no_new_numbers(v, w));
        },
        Op::RegisterSend(id) => lemma_registered_numbers(v, id),
        Op::RegisterRecv(id) => lemma_registered_numbers(v, id),
        Op::TryAgain(id, _, _, _) => {
            lemma_handed_in_numbers(v, id);
            assert(no_new_numbers(v, w));
        },
        Op::TryOn(id, _) => {
            lemma_handed_in_numbers(v, id);
            assert(no_new_numbers(v, w));
        },
        Op::Retry(id) => {
            let waker = v.send_wakers[id];
            lemma_announced_numbers(
                v.pushed(waker.payload->0).with_send_waker(
                    id,
                    WakerInner { payload: None, ..waker },
                ),
            );
            assert(no_new_numbers(v, w));
        },
        Op::AbandonSend(id) => lemma_abandoned_numbers(v, id),
        Op::AbandonRecv(id) => lemma_abandoned_numbers(v, id),
        Op::RecvDone(id) => {
            assert(no_new_numbers(v, w));
        },
        Op::ClearRecvs(seq) => {
            lemma_behind_subset(v.recvs.entries, v.recvs.clear_index(v.recv_wakers, seq));
            assert(no_new_numbers(v, w));
        },
        Op::CloseTx => {
            assert(no_new_numbers(v, w));
        },
        Op::CloseRx => {
            assert(no_new_numbers(v, w));
        },
        Op::DropSend(_) => {
            assert(no_new_numbers(v, w));
        },
        Op::DropRecv(_) => {
            assert(no_new_numbers(v, w));
        },
        _ => {},
    }
}

/// Both have the same bound, and registries for the same.
pub open spec fn same_make<T>(v: ChannelView<T>, w: ChannelView<T>) -> bool {
    &&& w.bound == v.bound
    &&& w.senders.kind == v.senders.kind
    &&& w.recvs.kind == v.recvs.kind
}

/// Both have the same number of senders and receivers, and are closed alike.
pub open spec fn same_sides<T>(v: ChannelView<T>, w: ChannelView<T>) -> bool {
    &&& w.closed == v.closed
    &&& w.tx_count == v.tx_count
    &&& w.rx_count == v.rx_count
}

spec fn same_frame<T>(v: ChannelView<T>, w: ChannelView<T>) -> bool {
    &&& same_make(v, w)
    &&& same_sides(v, w)
    &&& w.backoff_tx == v.backoff_tx
    &&& w.backoff_rx == v.backoff_rx
}

proof fn lemma_served_frame<T>(v: ChannelView<T>, id: u64)
    ensures
        same_frame(v, v.served(id)),
        same_frame(v, v.handed_in(id)),
        same_frame(v, v.retried(id)),
        same_frame(v, v.made_room()),
{
}

proof fn lemma_tried_frame<T>(v: ChannelView<T>, id: u64, task: u64, attempt: AttemptView)
    ensures
        same_frame(v, v.attempted(id, attempt).shared),
        same_frame(v, v.attempted_async(id, task, attempt).shared),
        same_frame(v, v.found_closed(id).shared),
{
    lemma_served_frame(v, id);
}

proof fn lemma_abandoned_frame<T>(v: ChannelView<T>, id: u64)
    ensures
        same_frame(v, v.send_abandoned(id)),
        same_frame(v, v.recv_abandoned(id)),
{
    let given_up = ChannelView {
        send_wakers: WakerInner::after_move(v.send_wakers, id, WakerState::CLOSED),
        ..v
    };
    lemma_served_frame(given_up, id);
}

/// Only those who come and go change the number of senders and receivers, and only
/// those who come the backoffs.
pub(crate) proof fn lemma_frame<T>(v: ChannelView<T>, op: Op<T>)
    ensures
        same_make(v, op.apply(v)),
        !(op is AddTx || op is AddRx || op is CloseTx || op is CloseRx) ==> same_sides(
            v,
            op.apply(v),
        ),
        !(op is AddTx || op is AddRx) ==> op.apply(v).backoff_tx == v.backoff_tx && op.apply(
            v,
        ).backoff_rx == v.backoff_rx,
{
    match op {
        Op::Serve(id) => {
            lemma_served_frame(v, id);
            assert(op.apply(v) == v.served(id)) by {
                reveal(Op::apply);
            }
        },
        Op::MakeRoom => {
            lemma_served_frame(v, 0);
            assert(op.apply(v) == v.made_room()) by {
                reveal(Op::apply);
            }
        },
        Op::Retry(id) => {
            lemma_served_frame(v, id);
            assert(op.apply(v) == v.retried(id)) by {
                reveal(Op::apply);
            }
        },
        Op::TryAgain(id, ctx, fastpath, conf) => {
            lemma_tried_frame(v, id, ctx->0, AttemptView::first(conf));
            assert(op.apply(v) == v.tried(id, ctx, fastpath, conf).shared) by {
                reveal(Op::apply);
            }
        },
        Op::TryOn(id, attempt) => {
            lemma_tried_frame(v, id, attempt.phase->Lock_0, attempt);
            assert(op.apply(v) == v.try_on(id, attempt).shared) by {
                reveal(Op::apply);
            }
        },
        Op::AbandonSend(id) => {
            lemma_abandoned_frame(v, id);
            assert(op.apply(v) == v.send_abandoned(id)) by {
                reveal(Op::apply);
            }
        },
        Op::AbandonRecv(id) => {
            lemma_abandoned_frame(v, id);
            assert(op.apply(v) == v.recv_abandoned(id)) by {
                reveal(Op::apply);
            }
        },
        _ => {
            reveal(Op::apply);
        },
    }
}

/// What a channel was made as it stays: its bound, and what its registries are for.
pub proof fn law_made_for_good<T>(v: ChannelView<T>, op: Op<T>)
    ensures
        same_make(v, op.apply(v)),
{
    lemma_frame(v, op);
}

impl<T> ChannelView<T> {
    /// The waits of both sides end at a step that a backoff reaches.
    pub open spec fn backoff_reached(self) -> bool {
        &&& BackoffConfig::unpacked(self.backoff_tx).limit <= crate::backoff::MAX_LIMIT
        &&& BackoffConfig::unpacked(self.backoff_rx).limit <= crate::backoff::MAX_LIMIT
    }
}

/// The backoffs that a channel publishes are ones whose wait ends: so it is when it is
/// made, and so it stays whatever is done with it.
pub proof fn law_waits_end<T>(
    v: ChannelView<T>,
    op: Op<T>,
    bound: Option<usize>,
    senders: RegistryView,
    recvs: RegistryView,
)
    requires
        v.backoff_reached(),
    ensures
        op.apply(v).backoff_reached(),
        ChannelView::<T>::initial(Seq::empty(), bound, senders, recvs).backoff_reached(),
{
    crate::backoff::law_config_round_trip(BackoffConfig::spec_default(), 0);
    match op {
        Op::AddTx(avail) => {
            reveal(Op::apply);
            crate::tuning::law_published_backoff((v.tx_count + 1) as usize, v.rx_count, avail);
            crate::tuning::law_published_backoff(v.rx_count, (v.tx_count + 1) as usize, avail);
        },
        Op::AddRx(avail) => {
            reveal(Op::apply);
            crate::tuning::law_published_backoff(v.tx_count, (v.rx_count + 1) as usize, avail);
            crate::tuning::law_published_backoff((v.rx_count + 1) as usize, v.tx_count, avail);
        },
        _ => lemma_frame(v, op),
    }
}

/// As long as no sender's waker is locked, nothing has to be put off: room can be passed
/// on, everybody can be told that the channel is closed, and any sender can give up.
pub proof fn law_nothing_put_off<T>(v: ChannelView<T>, id: u64)
    requires
        v.wf(),
        v.send_wakers.contains_key(id),
    ensures
        v.can_serve(),
        v.can_shut(),
        v.can_abandon(id),
{
    let moved = WakerInner::after_move(v.send_wakers, id, WakerState::CLOSED);
    let given_up = ChannelView { send_wakers: moved, ..v };
    lemma_next_waits(v.senders.entries, v.send_wakers);
    lemma_next_waits(given_up.senders.entries, given_up.send_wakers);
    assert forall|k: u64| #[trigger] moved.contains_key(k) implies !moved[k].locked by {
        assert(v.send_wakers.contains_key(k));
    }
    crate::waker_registry::lemma_can_wake_all(v.senders.entries, v.send_wakers);
    crate::waker_registry::lemma_can_wake_all(
        given_up.senders.clear_hits(moved, v.send_wakers[id].seq),
        moved,
    );
}

} // verus!
