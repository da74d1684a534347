//! What becomes of messages, whatever is done with a channel and in whatever
//! order: each is sent once or not at all, none is lost, and they stay in order.

use vstd::prelude::*;

use crate::laws::Op;
use crate::locked_waker::{WakerInner, WakerState};
use crate::model::ChannelView;

verus! {

/// The state after a number of operations, one after the other.
pub open spec fn run<T>(v: ChannelView<T>, ops: Seq<Op<T>>) -> ChannelView<T>
    decreases ops.len(),
{
    if ops.len() == 0 {
        v
    } else {
        run(ops[0].apply(v), ops.drop_first())
    }
}

/// Whether the operations may be done one after the other.
pub open spec fn runs<T>(v: ChannelView<T>, ops: Seq<Op<T>>) -> bool
    decreases ops.len(),
{
    ops.len() == 0 || (ops[0].valid(v) && runs(ops[0].apply(v), ops.drop_first()))
}

/// Whether all operations are others' than those of the owner of the sender's waker.
pub open spec fn by_others<T>(ops: Seq<Op<T>>, id: u64) -> bool {
    forall|i: int| 0 <= i < ops.len() ==> !(#[trigger] ops[i]).by_sender(id)
}

/// Whether the operation takes the sender's message over.
pub open spec fn takes_over<T>(v: ChannelView<T>, op: Op<T>, id: u64) -> bool {
    &&& WakerInner::waits(v.send_wakers, id)
    &&& op.apply(v).send_wakers[id].state == WakerState::DONE.code()
    &&& op.apply(v).queue == v.queue.push(v.send_wakers[id].payload->0)
}

/// How many of the operations take the sender's message over.
pub open spec fn times_taken<T>(v: ChannelView<T>, ops: Seq<Op<T>>, id: u64) -> nat
    decreases ops.len(),
{
    if ops.len() == 0 {
        0
    } else {
        (if takes_over(v, ops[0], id) {
            1nat
        } else {
            0
        }) + times_taken(ops[0].apply(v), ops.drop_first(), id)
    }
}

proof fn lemma_done_for_good<T>(v: ChannelView<T>, ops: Seq<Op<T>>, id: u64)
    requires
        runs(v, ops),
        by_others(ops, id),
        v.numbered(),
        v.send_wakers.contains_key(id),
        !v.send_wakers[id].waiting(),
    ensures
        times_taken(v, ops, id) == 0,
        run(v, ops).send_wakers.contains_key(id),
        run(v, ops).send_wakers[id] == v.send_wakers[id],
    decreases ops.len(),
{
    if ops.len() > 0 {
        assert(!ops[0].by_sender(id));
        crate::laws::law_sender_undisturbed(v, ops[0], id);
        crate::laws::law_numbers_unique(v, ops[0]);
        let rest = ops.drop_first();
        assert forall|i: int| 0 <= i < rest.len() implies !(#[trigger] rest[i]).by_sender(id) by {
            assert(rest[i] == ops[i + 1]);
        }
        lemma_done_for_good(ops[0].apply(v), rest, id);
    }
}

/// A message is sent once or not at all. Whatever others do while a sender waits,
/// and in whatever order, its message is taken over at most once; the sender
/// finds itself done if it was, and else finds its message where it was.
pub proof fn law_message_once<T>(v: ChannelView<T>, ops: Seq<Op<T>>, id: u64)
    requires
        runs(v, ops),
        by_others(ops, id),
        v.numbered(),
        v.pending(id),
        v.send_wakers[id].state != WakerState::DONE.code(),
    ensures
        run(v, ops).pending(id),
        times_taken(v, ops, id) <= 1,
        times_taken(v, ops, id) == 1 <==> run(v, ops).send_wakers[id].state
            == WakerState::DONE.code(),
        times_taken(v, ops, id) == 1 ==> run(v, ops).send_wakers[id].payload is None,
        times_taken(v, ops, id) == 0 ==> run(v, ops).send_wakers[id].payload
            == v.send_wakers[id].payload,
    decreases ops.len(),
{
    if ops.len() > 0 {
        assert(!ops[0].by_sender(id));
        crate::laws::law_sender_undisturbed(v, ops[0], id);
        crate::laws::law_numbers_unique(v, ops[0]);
        let w = ops[0].apply(v);
        let rest = ops.drop_first();
        assert forall|i: int| 0 <= i < rest.len() implies !(#[trigger] rest[i]).by_sender(id) by {
            assert(rest[i] == ops[i + 1]);
        }
        if w.send_wakers[id].state == WakerState::DONE.code() {
            lemma_done_for_good(w, rest, id);
        } else {
            law_message_once(w, rest, id);
        }
    }
}

/// The messages that an operation takes out.
pub open spec fn delivered_by<T>(v: ChannelView<T>, op: Op<T>) -> Seq<T> {
    if op is Receive && v.queue.len() > 0 {
        seq![v.queue[0]]
    } else {
        Seq::empty()
    }
}

/// The messages that an operation puts in: one, or none.
pub open spec fn accepted_by<T>(v: ChannelView<T>, op: Op<T>) -> Seq<T> {
    let w = op.apply(v);
    if w.queue.len() > v.queue.len() {
        seq![w.queue.last()]
    } else {
        Seq::empty()
    }
}

/// The messages that a number of operations take out, in order.
pub open spec fn delivered<T>(v: ChannelView<T>, ops: Seq<Op<T>>) -> Seq<T>
    decreases ops.len(),
{
    if ops.len() == 0 {
        Seq::empty()
    } else {
        delivered_by(v, ops[0]) + delivered(ops[0].apply(v), ops.drop_first())
    }
}

/// The messages that a number of operations put in, in order.
pub open spec fn accepted<T>(v: ChannelView<T>, ops: Seq<Op<T>>) -> Seq<T>
    decreases ops.len(),
{
    if ops.len() == 0 {
        Seq::empty()
    } else {
        accepted_by(v, ops[0]) + accepted(ops[0].apply(v), ops.drop_first())
    }
}

/// Whether a sender has the message at hand.
pub open spec fn at_hand<T>(v: ChannelView<T>, id: u64, item: T) -> bool {
    v.send_wakers.contains_key(id) && v.send_wakers[id].payload == Some(item)
}

/// A message that is put in was handed in, or a sender had it at hand.
pub proof fn law_messages_from_senders<T>(v: ChannelView<T>, op: Op<T>)
    requires
        v.sound(),
        op.valid(v),
        accepted_by(v, op).len() > 0,
    ensures
        match op {
            Op::Push(item) => accepted_by(v, op) == seq![item],
            _ => exists|id: u64| at_hand(v, id, accepted_by(v, op)[0]),
        },
{
    reveal(Op::apply);
    crate::laws::lemma_next_waits(v.senders.entries, v.send_wakers);
    match op {
        Op::Serve(id) => {
            assert(at_hand(v, id, accepted_by(v, op)[0]));
        },
        Op::MakeRoom => {
            assert(at_hand(v, v.next_sender()->0, accepted_by(v, op)[0]));
        },
        Op::TryAgain(id, _, _, _) => {
            assert(at_hand(v, id, accepted_by(v, op)[0]));
        },
        Op::TryOn(id, _) => {
            assert(at_hand(v, id, accepted_by(v, op)[0]));
        },
        Op::Retry(id) => {
            assert(at_hand(v, id, accepted_by(v, op)[0]));
        },
        Op::AbandonSend(id) => {
            let given_up = ChannelView {
                send_wakers: WakerInner::after_move(v.send_wakers, id, WakerState::CLOSED),
                ..v
            };
            crate::laws::lemma_next_waits(given_up.senders.entries, given_up.send_wakers);
            assert(at_hand(v, given_up.next_sender()->0, accepted_by(v, op)[0]));
        },
        _ => {},
    }
}

/// What one operation does to the messages: it puts one behind all others, or
/// takes the oldest out, or leaves them.
proof fn lemma_messages_in_order<T>(v: ChannelView<T>, op: Op<T>)
    ensures
        v.queue + accepted_by(v, op) == delivered_by(v, op) + op.apply(v).queue,
{
    reveal(Op::apply);
    if op is Receive && v.queue.len() > 0 {
        assert(v.queue =~= seq![v.queue[0]] + v.queue.drop_first());
    }
}

/// Messages come out in the order in which they went in, each once, and none is lost:
/// whatever is done with a channel, and in whatever order, what was in it and what
/// is put in is what is taken out and what is left.
pub proof fn law_first_in_first_out<T>(v: ChannelView<T>, ops: Seq<Op<T>>)
    ensures
        v.queue + accepted(v, ops) == delivered(v, ops) + run(v, ops).queue,
    decreases ops.len(),
{
    if ops.len() == 0 {
        assert(v.queue + accepted(v, ops) =~= delivered(v, ops) + run(v, ops).queue);
    } else {
        let w = ops[0].apply(v);
        let rest = ops.drop_first();
        lemma_messages_in_order(v, ops[0]);
        law_first_in_first_out(w, rest);
        assert(v.queue + accepted(v, ops) =~= (v.queue + accepted_by(v, ops[0])) + accepted(w, rest));
        assert((delivered_by(v, ops[0]) + w.queue) + accepted(w, rest) =~= delivered_by(v, ops[0])
            + (w.queue + accepted(w, rest)));
        assert(delivered_by(v, ops[0]) + (delivered(w, rest) + run(w, rest).queue) =~= delivered(
            v,
            ops,
        ) + run(v, ops).queue);
    }
}

} // verus!
