//! Every step of a sender is a sequence of operations on the shared state, so that
//! what holds of all operations holds of all that senders do.

use vstd::prelude::*;

use crate::laws::Op;
use crate::locked_waker::{WakerState, WakerType};
use crate::model::ChannelView;
use crate::protocol::{AttemptView, Outcome, SendView, Tried, TriedStep};
use crate::waker_registry::{RegistryKind, RegistryView};

verus! {

/// Who is woken by a number of operations, one after the other.
pub open spec fn all_wakes<T>(v: ChannelView<T>, ops: Seq<Op<T>>) -> Seq<WakerType>
    decreases ops.len(),
{
    if ops.len() == 0 {
        Seq::empty()
    } else {
        ops[0].wakes(v) + all_wakes(ops[0].apply(v), ops.drop_first())
    }
}

/// The operations may be done one after the other; they lead from one state to the
/// other, and wake these.
#[verifier::opaque]
pub open spec fn leads<T>(
    v: ChannelView<T>,
    ops: Seq<Op<T>>,
    w: ChannelView<T>,
    wakes: Seq<WakerType>,
) -> bool {
    &&& crate::laws_messages::runs(v, ops)
    &&& crate::laws_messages::run(v, ops) == w
    &&& all_wakes(v, ops) == wakes
}

/// The operations concern no sender's waker but that one.
pub open spec fn own_only<T>(ops: Seq<Op<T>>, id: u64) -> bool {
    forall|i: int, other: u64|
        0 <= i < ops.len() && other != id ==> !(#[trigger] ops[i].by_sender(other))
}

proof fn lemma_none<T>(v: ChannelView<T>, id: u64) -> (ops: Seq<Op<T>>)
    ensures
        leads(v, ops, v, Seq::empty()),
        own_only(ops, id),
{
    reveal(leads);
    Seq::empty()
}

proof fn lemma_one<T>(v: ChannelView<T>, op: Op<T>, id: u64) -> (ops: Seq<Op<T>>)
    requires
        op.valid(v),
        forall|other: u64| other != id ==> !(#[trigger] op.by_sender(other)),
    ensures
        leads(v, ops, op.apply(v), op.wakes(v)),
        own_only(ops, id),
{
    reveal(leads);
    let ops = seq![op];
    let rest = ops.drop_first();
    assert(rest.len() == 0);
    assert(crate::laws_messages::runs(op.apply(v), rest));
    assert(crate::laws_messages::run(op.apply(v), rest) == op.apply(v));
    assert(all_wakes(op.apply(v), rest) == Seq::<WakerType>::empty());
    assert(op.wakes(v) + Seq::<WakerType>::empty() == op.wakes(v));
    ops
}

proof fn lemma_then<T>(
    v: ChannelView<T>,
    first: Seq<Op<T>>,
    w: ChannelView<T>,
    first_wakes: Seq<WakerType>,
    second: Seq<Op<T>>,
    x: ChannelView<T>,
    second_wakes: Seq<WakerType>,
    id: u64,
) -> (ops: Seq<Op<T>>)
    requires
        leads(v, first, w, first_wakes),
        leads(w, second, x, second_wakes),
        own_only(first, id),
        own_only(second, id),
    ensures
        leads(v, ops, x, first_wakes + second_wakes),
        own_only(ops, id),
    decreases first.len(),
{
    reveal(leads);
    if first.len() == 0 {
        assert(first_wakes + second_wakes == second_wakes);
        second
    } else {
        let next = first[0].apply(v);
        let rest = first.drop_first();
        assert forall|i: int, other: u64| 0 <= i < rest.len() && other != id implies !(
        #[trigger] rest[i].by_sender(other)) by {
            assert(rest[i] == first[i + 1]);
            assert(!first[i + 1].by_sender(other));
        }
        let tail = lemma_then(
            next,
            rest,
            w,
            all_wakes(next, rest),
            second,
            x,
            second_wakes,
            id,
        );
        let ops = seq![first[0]] + tail;
        assert(ops[0] == first[0]);
        assert(ops.drop_first() == tail);
        assert(all_wakes(v, ops) == first_wakes + second_wakes);
        assert forall|i: int, other: u64| 0 <= i < ops.len() && other != id implies !(
        #[trigger] ops[i].by_sender(other)) by {
            if i > 0 {
                assert(ops[i] == tail[i - 1]);
                assert(!tail[i - 1].by_sender(other));
            } else {
                assert(!first[0].by_sender(other));
            }
        }
        ops
    }
}

/// Operations keep a channel well-formed, and what it was made as.
pub(crate) proof fn lemma_leads_keeps<T>(
    v: ChannelView<T>,
    ops: Seq<Op<T>>,
    w: ChannelView<T>,
    wakes: Seq<WakerType>,
)
    requires
        v.wf(),
        v.numbered(),
        leads(v, ops, w, wakes),
    ensures
        w.wf(),
        w.numbered(),
        crate::laws::same_make(v, w),
    decreases ops.len(),
{
    reveal(leads);
    if ops.len() > 0 {
        let next = ops[0].apply(v);
        crate::laws::law_well_formed(v, ops[0]);
        crate::laws::law_numbers_unique(v, ops[0]);
        crate::laws::law_made_for_good(v, ops[0]);
        lemma_leads_keeps(next, ops.drop_first(), w, all_wakes(next, ops.drop_first()));
    }
}

/// A wait that ended for good is followed by dropping the waker, or by nothing.
proof fn lemma_concluded<T>(
    v: ChannelView<T>,
    cached: Option<u64>,
    id: u64,
    wakes: Seq<WakerType>,
    state: u8,
) -> (ops: Seq<Op<T>>)
    requires
        v.send_wakers.contains_key(id),
    ensures
        leads(v, ops, v.concluded(cached, id, wakes, state).shared, Seq::empty()),
        v.concluded(cached, id, wakes, state).wakes == wakes,
        own_only(ops, id),
{
    if state == WakerState::DONE.code() && v.keeps_waker(cached, id) {
        lemma_none(v, id)
    } else {
        reveal(Op::apply);
        reveal(Op::wakes);
        lemma_one(v, Op::DropSend(id), id)
    }
}

proof fn lemma_round<T>(
    v: ChannelView<T>,
    cached: Option<u64>,
    send: SendView,
    wakes: Seq<WakerType>,
) -> (ops: Seq<Op<T>>)
    requires
        v.pending(send.waker),
        v.senders.kind != RegistryKind::Dummy,
    ensures
        own_only(ops, send.waker),
        exists|more: Seq<WakerType>| #[trigger]
            leads(v, ops, v.round(cached, send, wakes).shared, more) && v.round(
                cached,
                send,
                wakes,
            ).wakes == wakes + more,
{
    let id = send.waker;
    let state = v.send_wakers[id].state;
    let o = v.round(cached, send, wakes);
    if RegistryView::registration(state) is Err {
        let ops = lemma_concluded(v, cached, id, wakes, state);
        assert(wakes + Seq::<WakerType>::empty() == wakes);
        ops
    } else {
        let register = Op::RegisterSend(id);
        let again = Op::TryAgain(id, None, send.fastpath, send.backoff);
        let registered = v.send_registered(id);
        let tried = registered.try_again(id, send.fastpath, send.backoff);
        assert(register.apply(v) == registered && register.wakes(v) == Seq::<WakerType>::empty()
            && again.apply(registered) == tried.shared && again.wakes(registered) == tried.wakes)
            by {
            reveal(Op::apply);
            reveal(Op::wakes);
        }
        assert(registered.pending(id));
        let first = lemma_one(v, register, id);
        let second = lemma_one(registered, again, id);
        let both = lemma_then(
            v,
            first,
            registered,
            Seq::empty(),
            second,
            tried.shared,
            tried.wakes,
            id,
        );
        assert(Seq::<WakerType>::empty() + tried.wakes == tried.wakes);
        assert(tried.shared.send_wakers.contains_key(id));
        let settled = tried.step matches TriedStep::Settled(s) && s != WakerState::WAITING.code();
        if settled {
            let s = tried.step->Settled_0;
            let last = lemma_concluded(tried.shared, cached, id, wakes + tried.wakes, s);
            let ops = lemma_then(
                v,
                both,
                tried.shared,
                tried.wakes,
                last,
                o.shared,
                Seq::empty(),
                id,
            );
            assert(tried.wakes + Seq::<WakerType>::empty() == tried.wakes);
            assert(leads(v, ops, o.shared, tried.wakes));
            ops
        } else {
            assert(leads(v, both, o.shared, tried.wakes));
            both
        }
    }
}

/// What a try leaves of the waker.
spec fn settles<T>(tried: Tried<T>, id: u64) -> bool {
    &&& tried.shared.pending(id)
    &&& tried.step matches TriedStep::Settled(s) ==> s == tried.shared.send_wakers[id].state
}

proof fn lemma_second<T>(
    v: ChannelView<T>,
    op: Op<T>,
    tried: Tried<T>,
    cached: Option<u64>,
    send: SendView,
    wakes: Seq<WakerType>,
) -> (ops: Seq<Op<T>>)
    requires
        v.senders.kind != RegistryKind::Dummy,
        op.valid(v),
        forall|other: u64| other != send.waker ==> !(#[trigger] op.by_sender(other)),
        op.apply(v) == tried.shared,
        op.wakes(v) == tried.wakes,
        tried.shared.senders.kind == v.senders.kind,
        settles(tried, send.waker),
    ensures
        own_only(ops, send.waker),
        exists|more: Seq<WakerType>| #[trigger]
            leads(v, ops, tried.second(cached, send, wakes).shared, more) && tried.second(
                cached,
                send,
                wakes,
            ).wakes == wakes + more,
{
    let id = send.waker;
    let first = lemma_one(v, op, id);
    let o = tried.second(cached, send, wakes);
    match tried.step {
        TriedStep::Paused(_, _) => {
            assert(leads(v, first, o.shared, tried.wakes));
            first
        },
        TriedStep::Settled(settled) => {
            if settled >= WakerState::DONE.code() {
                let last = lemma_concluded(tried.shared, cached, id, wakes + tried.wakes, settled);
                let ops = lemma_then(
                    v,
                    first,
                    tried.shared,
                    tried.wakes,
                    last,
                    o.shared,
                    Seq::empty(),
                    id,
                );
                assert(tried.wakes + Seq::<WakerType>::empty() == tried.wakes);
                assert(leads(v, ops, o.shared, tried.wakes));
                ops
            } else {
                let prefix = wakes + tried.wakes;
                let last = lemma_round(tried.shared, cached, send, prefix);
                let more = choose|more: Seq<WakerType>| #[trigger]
                    leads(tried.shared, last, o.shared, more) && o.wakes == prefix + more;
                let ops = lemma_then(
                    v,
                    first,
                    tried.shared,
                    tried.wakes,
                    last,
                    o.shared,
                    more,
                    id,
                );
                assert(prefix + more == wakes + (tried.wakes + more));
                assert(leads(v, ops, o.shared, tried.wakes + more));
                ops
            }
        },
    }
}

proof fn lemma_decided<T>(
    v: ChannelView<T>,
    cached: Option<u64>,
    send: SendView,
    wakes: Seq<WakerType>,
) -> (ops: Seq<Op<T>>)
    requires
        v.pending(send.waker),
        v.senders.kind != RegistryKind::Dummy,
    ensures
        own_only(ops, send.waker),
        exists|more: Seq<WakerType>| #[trigger]
            leads(
                v,
                ops,
                v.decided(cached, send, wakes, v.send_wakers[send.waker].state).shared,
                more,
            ) && v.decided(cached, send, wakes, v.send_wakers[send.waker].state).wakes == wakes
                + more,
{
    let id = send.waker;
    let state = v.send_wakers[id].state;
    let o = v.decided(cached, send, wakes, state);
    if state >= WakerState::DONE.code() {
        let ops = lemma_concluded(v, cached, id, wakes, state);
        assert(wakes + Seq::<WakerType>::empty() == wakes);
        ops
    } else if state == WakerState::WAKED.code() {
        if v.full() {
            lemma_round(v, cached, send, wakes)
        } else {
            let w = v.retried(id);
            let retry = Op::Retry(id);
            assert(retry.apply(v) == w && retry.wakes(v) == v.announce_wakes()) by {
                reveal(Op::apply);
                reveal(Op::wakes);
            }
            let first = lemma_one(v, retry, id);
            assert(w.send_wakers.contains_key(id));
            let last = lemma_concluded(
                w,
                cached,
                id,
                wakes + v.announce_wakes(),
                WakerState::DONE.code(),
            );
            let ops = lemma_then(
                v,
                first,
                w,
                v.announce_wakes(),
                last,
                o.shared,
                Seq::empty(),
                id,
            );
            assert(v.announce_wakes() + Seq::<WakerType>::empty() == v.announce_wakes());
            assert(leads(v, ops, o.shared, v.announce_wakes()));
            ops
        }
    } else {
        let tried = v.try_again(id, send.fastpath, send.backoff);
        let again = Op::TryAgain(id, None, send.fastpath, send.backoff);
        assert(again.apply(v) == tried.shared && again.wakes(v) == tried.wakes) by {
            reveal(Op::apply);
            reveal(Op::wakes);
        }
        lemma_second(v, again, tried, cached, send, wakes)
    }
}

impl<T> Outcome<T> {
    /// The step is a sequence of operations of which none is another sender's.
    pub open spec fn is_made_of_own(self, v: ChannelView<T>, id: u64) -> bool {
        exists|ops: Seq<Op<T>>| #[trigger]
            leads(v, ops, self.shared, self.wakes) && own_only(ops, id)
    }
}

/// What a thread does after it was parked comes to operations of its own.
pub proof fn law_after_park_is_operations<T>(v: ChannelView<T>, cached: Option<u64>, send: SendView)
    requires
        v.pending(send.waker),
        v.senders.kind != RegistryKind::Dummy,
    ensures
        v.after_park(cached, send).is_made_of_own(v, send.waker),
{
    let o = v.after_park(cached, send);
    let ops = lemma_decided(v, cached, send, Seq::empty());
    let more = choose|more: Seq<WakerType>| #[trigger]
        leads(v, ops, o.shared, more) && o.wakes == Seq::<WakerType>::empty() + more;
    assert(o.wakes == more);
}

/// What a thread does after a pause comes to operations of its own.
pub proof fn law_after_pause_is_operations<T>(
    v: ChannelView<T>,
    cached: Option<u64>,
    send: SendView,
    attempt: AttemptView,
    registered: bool,
)
    requires
        v.pending(send.waker),
        v.senders.kind != RegistryKind::Dummy,
    ensures
        v.after_pause(cached, send, attempt, registered).is_made_of_own(v, send.waker),
{
    let id = send.waker;
    let op = Op::TryOn(id, attempt);
    let tried = v.try_on(id, attempt);
    let o = v.after_pause(cached, send, attempt, registered);
    assert(op.apply(v) == tried.shared && op.wakes(v) == tried.wakes) by {
        reveal(Op::apply);
        reveal(Op::wakes);
    }
    assert(settles(tried, id));
    if !registered {
        let ops = lemma_second(v, op, tried, cached, send, Seq::empty());
        let more = choose|more: Seq<WakerType>| #[trigger]
            leads(v, ops, o.shared, more) && o.wakes == Seq::<WakerType>::empty() + more;
        assert(o.wakes == more);
    } else {
        let first = lemma_one(v, op, id);
        let goes_on = tried.step matches TriedStep::Settled(s) && s != WakerState::WAITING.code();
        if goes_on {
            let last = lemma_decided(tried.shared, cached, send, tried.wakes);
            let more = choose|more: Seq<WakerType>| #[trigger]
                leads(tried.shared, last, o.shared, more) && o.wakes == tried.wakes + more;
            let ops = lemma_then(v, first, tried.shared, tried.wakes, last, o.shared, more, id);
            assert(leads(v, ops, o.shared, o.wakes));
        } else {
            assert(leads(v, first, o.shared, o.wakes));
        }
    }
}

/// What a thread does after it looked at the clock comes to operations of its own.
pub proof fn law_after_check_is_operations<T>(
    v: ChannelView<T>,
    cached: Option<u64>,
    send: SendView,
    left: Result<Option<u128>, ()>,
)
    requires
        v.pending(send.waker),
    ensures
        v.after_check(cached, send, left).is_made_of_own(v, send.waker),
{
    let o = v.after_check(cached, send, left);
    if left is Ok {
        let ops = lemma_none(v, send.waker);
        assert(leads(v, ops, o.shared, o.wakes));
    } else {
        let give_up = Op::AbandonSend(send.waker);
        assert(give_up.apply(v) == o.shared && give_up.wakes(v) == o.wakes) by {
            reveal(Op::apply);
            reveal(Op::wakes);
        }
        let ops = lemma_one(v, give_up, send.waker);
        assert(leads(v, ops, o.shared, o.wakes));
    }
}

/// A message that there is room for is put in, and the receivers are told.
proof fn lemma_sent<T>(v: ChannelView<T>, item: T, id: u64) -> (ops: Seq<Op<T>>)
    requires
        !v.full(),
    ensures
        leads(v, ops, v.sent(item), v.announce_wakes()),
        own_only(ops, id),
{
    let pushed = v.pushed(item);
    let push = Op::Push(item);
    let announce = Op::Announce;
    assert(push.apply(v) == pushed && push.wakes(v) == Seq::<WakerType>::empty()
        && announce.apply(pushed) == pushed.announced() && announce.wakes(pushed)
        == pushed.announce_wakes()) by {
        reveal(Op::apply);
        reveal(Op::wakes);
    }
    let first = lemma_one(v, push, id);
    let second = lemma_one(pushed, announce, id);
    assert(Seq::<WakerType>::empty() + pushed.announce_wakes() == v.announce_wakes());
    lemma_then(
        v,
        first,
        pushed,
        Seq::empty(),
        second,
        pushed.announced(),
        pushed.announce_wakes(),
        id,
    )
}

/// A message that there is no room for is put into a waker, which registers.
proof fn lemma_acquired<T>(
    v: ChannelView<T>,
    cached: Option<u64>,
    item: T,
    thread: u64,
    send: SendView,
) -> (ops: Seq<Op<T>>)
    requires
        v.bound is Some,
        v.senders.kind != RegistryKind::Dummy,
        cached is Some ==> v.send_wakers.contains_key(cached->0),
        cached is None ==> v.next_send < u64::MAX,
        send.waker == v.acquired_id(cached),
    ensures
        own_only(ops, send.waker),
        ({
            let o = v.acquired(cached, thread, item).round(None, send, Seq::empty());
            leads(v, ops, o.shared, o.wakes)
        }),
{
    let id = send.waker;
    let w = v.acquired(cached, thread, item);
    let o = w.round(None, send, Seq::empty());
    let op = match cached {
        Some(kept) => Op::Reuse(kept, thread, item),
        None => Op::NewSend(WakerType::Blocking(thread), item),
    };
    assert(op.apply(v) == w && op.wakes(v) == Seq::<WakerType>::empty()) by {
        reveal(Op::apply);
        reveal(Op::wakes);
    }
    let first = lemma_one(v, op, id);
    assert(w.pending(id));
    let last = lemma_round(w, None, send, Seq::empty());
    let more = choose|more: Seq<WakerType>| #[trigger]
        leads(w, last, o.shared, more) && o.wakes == Seq::<WakerType>::empty() + more;
    assert(Seq::<WakerType>::empty() + more == o.wakes);
    lemma_then(v, first, w, Seq::empty(), last, o.shared, more, id)
}

/// What a thread does when it starts to send comes to operations of its own.
pub proof fn law_start_is_operations<T>(
    v: ChannelView<T>,
    cached: Option<u64>,
    item: T,
    fastpath: bool,
    deadline: Option<u128>,
    thread: u64,
)
    requires
        v.queues_up(fastpath) ==> v.can_wait(cached),
        cached is Some ==> v.send_wakers.contains_key(cached->0),
    ensures
        v.send_started(cached, item, fastpath, deadline, thread).is_made_of_own(
            v,
            v.acquired_id(cached),
        ),
{
    let id = v.acquired_id(cached);
    let o = v.send_started(cached, item, fastpath, deadline, thread);
    let ops = if v.closed {
        lemma_none(v, id)
    } else if v.bound is None || (fastpath && !v.full()) {
        lemma_sent(v, item, id)
    } else {
        let send = SendView {
            waker: id,
            fastpath,
            deadline,
            backoff: crate::backoff::BackoffConfig::unpacked(v.backoff_tx),
        };
        lemma_acquired(v, cached, item, thread, send)
    };
    assert(leads(v, ops, o.shared, o.wakes));
}

} // verus!
