//! Sequence numbers tell those who wait apart, as long as they do not run out.

use vstd::prelude::*;

use crate::laws::Op;
use crate::locked_waker::{WakerInner, WakerState};
use crate::model::ChannelView;
use crate::waker_registry::{RegistryKind, RegistryView};

verus! {

/// The owner of the waker waits under its sequence number, or did when the channel was
/// closed.
pub open spec fn seated<P>(wakers: Map<u64, WakerInner<P>>, id: u64) -> bool {
    wakers.contains_key(id) && (wakers[id].waiting() || wakers[id].state
        == WakerState::CLOSED.code())
}

/// No two wait under the same sequence number, if the registry gives any.
pub open spec fn told_apart<P>(registry: RegistryView, wakers: Map<u64, WakerInner<P>>) -> bool {
    registry.kind == RegistryKind::Multi ==> forall|a: u64, b: u64|
        #![trigger seated(wakers, a), seated(wakers, b)]
        seated(wakers, a) && seated(wakers, b) && a != b ==> wakers[a].seq != wakers[b].seq
}

/// Nobody waits under the number that is given next, nor under one to be given after it.
pub open spec fn below_next<P>(registry: RegistryView, wakers: Map<u64, WakerInner<P>>) -> bool {
    registry.kind == RegistryKind::Multi ==> forall|id: u64| #[trigger]
        seated(wakers, id) ==> wakers[id].seq < registry.next_seq
}

/// Nobody waits under the number that is given next.
pub open spec fn next_is_free<P>(registry: RegistryView, wakers: Map<u64, WakerInner<P>>) -> bool {
    registry.kind == RegistryKind::Multi ==> forall|id: u64| #[trigger]
        seated(wakers, id) ==> wakers[id].seq != registry.next_seq
}

impl<T> ChannelView<T> {
    /// Sequence numbers tell the senders that wait apart, and so the receivers.
    pub open spec fn all_told_apart(self) -> bool {
        told_apart(self.senders, self.send_wakers) && told_apart(self.recvs, self.recv_wakers)
    }

    /// Every sequence number that somebody waits under was given out before.
    pub open spec fn seqs_given(self) -> bool {
        below_next(self.senders, self.send_wakers) && below_next(self.recvs, self.recv_wakers)
    }
}

impl<T> Op<T> {
    /// Nobody has waited for so long that its sequence number comes up again.
    pub open spec fn gives_free_seq(self, v: ChannelView<T>) -> bool {
        match self {
            Op::RegisterSend(_) => next_is_free(v.senders, v.send_wakers),
            Op::RegisterRecv(_) => next_is_free(v.recvs, v.recv_wakers),
            _ => true,
        }
    }

    /// The sequence numbers do not start over.
    pub open spec fn seq_goes_up(self, v: ChannelView<T>) -> bool {
        match self {
            Op::RegisterSend(_) => v.senders.next_seq < usize::MAX,
            Op::RegisterRecv(_) => v.recvs.next_seq < usize::MAX,
            _ => true,
        }
    }
}

/// Whoever waits did so before, under the same number.
spec fn no_new_seats<P>(before: Map<u64, WakerInner<P>>, after: Map<u64, WakerInner<P>>) -> bool {
    forall|id: u64| #[trigger]
        seated(after, id) ==> seated(before, id) && after[id].seq == before[id].seq
}

/// Only those who register take a sequence number.
proof fn lemma_next_seq<T>(v: ChannelView<T>, op: Op<T>)
    ensures
        !(op is RegisterSend) ==> op.apply(v).senders.next_seq == v.senders.next_seq,
        !(op is RegisterRecv) ==> op.apply(v).recvs.next_seq == v.recvs.next_seq,
{
    reveal(Op::apply);
}

proof fn lemma_no_new_seats<T>(v: ChannelView<T>, op: Op<T>)
    requires
        v.numbered(),
        op.valid(v),
    ensures
        !(op is RegisterSend) ==> no_new_seats(v.send_wakers, op.apply(v).send_wakers),
        !(op is RegisterRecv) ==> no_new_seats(v.recv_wakers, op.apply(v).recv_wakers),
{
    let w = op.apply(v);
    crate::laws::lemma_wakers_from(v, op);
    if !(op is RegisterSend) {
        assert forall|id: u64| #[trigger] seated(w.send_wakers, id) implies seated(
            v.send_wakers,
            id,
        ) && w.send_wakers[id].seq == v.send_wakers[id].seq by {
            if op is NewSend && id == v.next_send {
                reveal(Op::apply);
            } else if op.by_sender(id) {
                reveal(Op::apply);
            } else {
                crate::laws::law_sender_undisturbed(v, op, id);
            }
        }
    }
    if !(op is RegisterRecv) {
        assert forall|id: u64| #[trigger] seated(w.recv_wakers, id) implies seated(
            v.recv_wakers,
            id,
        ) && w.recv_wakers[id].seq == v.recv_wakers[id].seq by {
            if op is NewRecv && id == v.next_recv {
                reveal(Op::apply);
            } else if op.by_receiver(id) {
                reveal(Op::apply);
            } else {
                crate::laws::law_receiver_undisturbed(v, op, id);
            }
        }
    }
}

/// One who registers waits under the number that was free.
proof fn lemma_registered_apart<P>(
    registry: RegistryView,
    wakers: Map<u64, WakerInner<P>>,
    id: u64,
)
    requires
        wakers.contains_key(id),
        told_apart(registry, wakers),
        next_is_free(registry, wakers),
    ensures
        told_apart(registry.registered(wakers, id), registry.registered_wakers(wakers, id)),
        below_next(registry, wakers) && registry.next_seq < usize::MAX ==> below_next(
            registry.registered(wakers, id),
            registry.registered_wakers(wakers, id),
        ),
{
    let after = registry.registered_wakers(wakers, id);
    assert forall|other: u64| other != id && #[trigger] seated(after, other) implies seated(
        wakers,
        other,
    ) && after[other] == wakers[other] by {}
}

/// Sequence numbers tell those who wait apart: so it is when a channel is made, and so
/// it stays whatever is done with it, unless somebody registers under a number that
/// another still waits under. As long as the numbers do not start over, there is no
/// such number.
pub proof fn law_seqs_tell_apart<T>(
    v: ChannelView<T>,
    op: Op<T>,
    bound: Option<usize>,
    senders: RegistryView,
    recvs: RegistryView,
)
    requires
        v.numbered(),
        op.valid(v),
        v.all_told_apart(),
    ensures
        op.gives_free_seq(v) ==> op.apply(v).all_told_apart(),
        v.seqs_given() ==> op.gives_free_seq(v),
        v.seqs_given() && op.seq_goes_up(v) ==> op.apply(v).seqs_given(),
        ChannelView::<T>::initial(Seq::empty(), bound, senders, recvs).all_told_apart(),
        ChannelView::<T>::initial(Seq::empty(), bound, senders, recvs).seqs_given(),
{
    let w = op.apply(v);
    lemma_next_seq(v, op);
    lemma_no_new_seats(v, op);
    crate::laws::lemma_frame(v, op);
    if let Op::RegisterSend(id) = op {
        reveal(Op::apply);
        if op.gives_free_seq(v) {
            lemma_registered_apart(v.senders, v.send_wakers, id);
        }
    }
    if let Op::RegisterRecv(id) = op {
        reveal(Op::apply);
        if op.gives_free_seq(v) {
            lemma_registered_apart(v.recvs, v.recv_wakers, id);
        }
    }
}

} // verus!
