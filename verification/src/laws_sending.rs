//! What a thread that sends can rely on: its message is sent, or given back.

use vstd::prelude::*;

use crate::err::{SendTimeoutError, TrySendError};
use crate::laws::Op;
use crate::locked_waker::{WakerInner, WakerState, WakerType};
use crate::model::ChannelView;
use crate::protocol::{AttemptView, Outcome, SendView, StepView, TryPhase};
use crate::waker_registry::{RegistryKind, RegistryView};

verus! {

impl<T> ChannelView<T> {
    /// The waker has the message, and nobody took it.
    pub open spec fn has_message(self, id: u64, item: T) -> bool {
        &&& self.send_wakers.contains_key(id)
        &&& self.send_wakers[id].payload == Some(item)
        &&& self.send_wakers[id].state != WakerState::DONE.code()
    }

    /// The message of the waker was taken over.
    pub open spec fn message_taken(self, id: u64) -> bool {
        &&& self.send_wakers.contains_key(id)
        &&& self.send_wakers[id].payload is None
        &&& self.send_wakers[id].state == WakerState::DONE.code()
    }

    /// No wait is on for the waker, and nothing refers to it.
    pub open spec fn idle(self, id: u64) -> bool {
        &&& self.send_wakers.contains_key(id)
        &&& !self.send_wakers[id].waiting()
        &&& !self.senders.entries.contains(id)
    }
}

impl<T> Outcome<T> {
    /// The message is accounted for: it is in the channel, behind all others; or it
    /// is given back, since the receivers are gone; or it is still with its waker.
    pub open spec fn accounts_for(self, before: ChannelView<T>, item: T) -> bool {
        match self.step {
            StepView::Finished { result } => match result {
                Ok(()) => self.shared.queue == before.queue.push(item),
                Err(SendTimeoutError::Disconnected(back)) => back == item && self.shared.queue
                    == before.queue,
                Err(SendTimeoutError::Timeout(_)) => false,
            },
            StepView::Pause { send, .. } => self.shared.queue == before.queue
                && self.shared.has_message(send.waker, item),
            StepView::CheckTimeout { send } => self.shared.queue == before.queue
                && self.shared.has_message(send.waker, item),
            StepView::Park { send, .. } => self.shared.queue == before.queue
                && self.shared.has_message(send.waker, item),
        }
    }

    /// The step is for the same message on its way, which needs no lock.
    pub open spec fn goes_on_with(self, send: SendView) -> bool {
        match self.step {
            StepView::Finished { .. } => true,
            StepView::Pause { send: s, attempt, .. } => s == send && !(attempt.phase is Lock),
            StepView::CheckTimeout { send: s } => s == send,
            StepView::Park { send: s, .. } => s == send,
        }
    }

    /// Nothing is left of the waker, unless the message was sent and the waker is kept for
    /// later, and is idle and without a message.
    pub open spec fn tidy(self, id: u64) -> bool {
        match self.step {
            StepView::Finished { result } => {
                ||| !self.shared.send_wakers.contains_key(id)
                ||| {
                    &&& result is Ok
                    &&& self.cached == Some(id)
                    &&& self.shared.idle(id)
                    &&& self.shared.send_wakers[id].payload is None
                }
            },
            _ => true,
        }
    }
}

impl<T> Outcome<T> {
    /// The sender was not turned away: its message is in, or it goes on.
    pub open spec fn goes_well(self, id: u64) -> bool {
        match self.step {
            StepView::Finished { result } => result is Ok,
            _ => self.shared.send_wakers[id].state <= WakerState::WAKED.code(),
        }
    }

    /// The wakers of other senders are as before, and nobody came or went.
    pub open spec fn leaves_others(self, before: ChannelView<T>, id: u64) -> bool {
        &&& crate::laws::same_sides(before, self.shared)
        &&& forall|other: u64|
            other != id ==> (#[trigger] self.shared.send_wakers.contains_key(other)
                <==> before.send_wakers.contains_key(other))
        &&& forall|other: u64|
            other != id ==> #[trigger] self.shared.send_wakers[other] == before.send_wakers[other]
    }
}

proof fn lemma_done_tidy<T>(v: ChannelView<T>, cached: Option<u64>, id: u64, wakes: Seq<WakerType>)
    requires
        v.send_wakers.contains_key(id),
    ensures
        v.send_wakers[id].payload is None ==> v.sender_done(cached, id, wakes).tidy(id),
        v.sender_refused(cached, id, wakes).tidy(id),
        v.sender_done(cached, id, wakes).shared.queue == v.queue,
{
}

/// A round of a sender that has its message accounts for it.
proof fn lemma_round<T>(
    v: ChannelView<T>,
    cached: Option<u64>,
    send: SendView,
    wakes: Seq<WakerType>,
    item: T,
)
    requires
        v.has_message(send.waker, item),
        v.send_wakers[send.waker].state <= WakerState::CLOSED.code(),
    ensures
        v.round(cached, send, wakes).accounts_for(v, item),
        v.round(cached, send, wakes).goes_on_with(send),
        v.round(cached, send, wakes).tidy(send.waker),
        v.round(cached, send, wakes).leaves_others(v, send.waker),
        !v.closed && v.send_wakers[send.waker].state <= WakerState::WAKED.code() ==> v.round(
            cached,
            send,
            wakes,
        ).goes_well(send.waker),
{
    let id = send.waker;
    let state = v.send_wakers[id].state;
    let r = v.send_registered(id);
    if RegistryView::registration(state) is Err {
        lemma_done_tidy(v, cached, id, wakes);
    } else {
        assert(r.queue == v.queue && r.has_message(id, item) && r.send_wakers[id].waiting());
        let tried = r.try_again(id, send.fastpath, send.backoff);
        assert(tried.shared.send_wakers.contains_key(id));
        lemma_done_tidy(tried.shared, cached, id, wakes + tried.wakes);
    }
}

proof fn lemma_decided<T>(
    v: ChannelView<T>,
    cached: Option<u64>,
    send: SendView,
    wakes: Seq<WakerType>,
    item: T,
)
    requires
        v.has_message(send.waker, item),
        v.send_wakers[send.waker].state <= WakerState::CLOSED.code(),
    ensures
        ({
            let o = v.decided(cached, send, wakes, v.send_wakers[send.waker].state);
            &&& o.accounts_for(v, item) && o.goes_on_with(send) && o.tidy(send.waker)
            &&& o.leaves_others(v, send.waker)
            &&& !v.closed && v.send_wakers[send.waker].state <= WakerState::WAKED.code()
                ==> o.goes_well(send.waker)
        }),
{
    let id = send.waker;
    let state = v.send_wakers[id].state;
    if state >= WakerState::DONE.code() {
        lemma_done_tidy(v, cached, id, wakes);
    } else if state == WakerState::WAKED.code() {
        if v.full() {
            lemma_round(v, cached, send, wakes, item);
        } else {
            lemma_done_tidy(v.retried(id), cached, id, wakes + v.announce_wakes());
        }
    } else {
        lemma_second(v, cached, send, wakes, item, v.try_again(id, send.fastpath, send.backoff));
    }
}

proof fn lemma_second<T>(
    v: ChannelView<T>,
    cached: Option<u64>,
    send: SendView,
    wakes: Seq<WakerType>,
    item: T,
    tried: crate::protocol::Tried<T>,
)
    requires
        v.has_message(send.waker, item),
        v.send_wakers[send.waker].state <= WakerState::CLOSED.code(),
        tried == v.try_again(send.waker, send.fastpath, send.backoff) || exists|a: AttemptView|
            tried == #[trigger] v.try_on(send.waker, a) && !(a.phase is Lock),
    ensures
        ({
            let o = tried.second(cached, send, wakes);
            &&& o.accounts_for(v, item) && o.goes_on_with(send) && o.tidy(send.waker)
            &&& o.leaves_others(v, send.waker)
            &&& !v.closed && v.send_wakers[send.waker].state <= WakerState::WAKED.code()
                ==> o.goes_well(send.waker)
        }),
{
    let id = send.waker;
    assert(tried.shared.send_wakers.contains_key(id));
    lemma_done_tidy(tried.shared, cached, id, wakes + tried.wakes);
    if tried.shared.has_message(id, item) && tried.shared.send_wakers[id].state
        <= WakerState::CLOSED.code() {
        lemma_round(tried.shared, cached, send, wakes + tried.wakes, item);
    }
}

/// A thread that starts to send loses nothing: its message is in the channel, or it
/// is given back with the channel as it was, or it is with the waker that waits for
/// room. It is given back only by a channel that is closed. Other senders are left alone.
pub proof fn law_start_accounts<T>(
    v: ChannelView<T>,
    cached: Option<u64>,
    item: T,
    fastpath: bool,
    deadline: Option<u128>,
    thread: u64,
)
    requires
        cached is Some ==> v.send_wakers.contains_key(cached->0),
    ensures
        v.send_started(cached, item, fastpath, deadline, thread).accounts_for(v, item),
        v.closed <==> v.send_started(cached, item, fastpath, deadline, thread).step
            == (StepView::<T>::Finished { result: Err(SendTimeoutError::Disconnected(item)) }),
        v.closed ==> v.send_started(cached, item, fastpath, deadline, thread).shared == v,
        !v.closed ==> v.send_started(cached, item, fastpath, deadline, thread).goes_well(
            v.acquired_id(cached),
        ),
        v.send_started(cached, item, fastpath, deadline, thread).leaves_others(
            v,
            v.acquired_id(cached),
        ),
{
    if !v.closed && v.bound is Some && !(fastpath && !v.full()) {
        let w = v.acquired(cached, thread, item);
        let send = SendView {
            waker: v.acquired_id(cached),
            fastpath,
            deadline,
            backoff: crate::backoff::BackoffConfig::unpacked(v.backoff_tx),
        };
        assert(w.has_message(send.waker, item));
        lemma_round(w, None, send, Seq::empty(), item);
    }
}

/// What starting to send leaves of the waker: nothing, unless it is kept; or a send on
/// its way, by the deadline that was asked for.
pub(crate) proof fn lemma_start_tidy<T>(
    v: ChannelView<T>,
    cached: Option<u64>,
    item: T,
    fastpath: bool,
    deadline: Option<u128>,
    thread: u64,
)
    requires
        cached is Some ==> v.send_wakers.contains_key(cached->0),
    ensures
        ({
            let id = v.acquired_id(cached);
            let o = v.send_started(cached, item, fastpath, deadline, thread);
            &&& o.step is Finished && v.queues_up(fastpath) ==> o.tidy(id)
            &&& o.step is Finished && !v.queues_up(fastpath) ==> o.shared.send_wakers
                == v.send_wakers
            &&& !(o.step is Finished) ==> v.queues_up(fastpath)
            &&& match o.step {
                StepView::Finished { .. } => true,
                StepView::Pause { send: s, attempt, .. } => s.waker == id && s.deadline == deadline
                    && !(attempt.phase is Lock),
                StepView::CheckTimeout { send: s } => s.waker == id && s.deadline == deadline,
                StepView::Park { send: s, .. } => s.waker == id && s.deadline == deadline,
            }
        }),
{
    if v.queues_up(fastpath) {
        let w = v.acquired(cached, thread, item);
        let send = SendView {
            waker: v.acquired_id(cached),
            fastpath,
            deadline,
            backoff: crate::backoff::BackoffConfig::unpacked(v.backoff_tx),
        };
        assert(w.has_message(send.waker, item));
        lemma_round(w, None, send, Seq::empty(), item);
    }
}

/// To send is atomic. A thread that goes on with a message that is still out, after
/// a pause or after it was parked, ends with the message in the channel, behind all
/// others, or with the message given back; or its waker still has it. It never
/// ends for want of time, and as long as the channel is open it is not turned
/// away. Other senders are left alone. And once it is over, nothing is left of its
/// waker but what the sender keeps for later.
pub proof fn law_sending_accounts<T>(
    v: ChannelView<T>,
    cached: Option<u64>,
    send: SendView,
    attempt: AttemptView,
    registered: bool,
    item: T,
)
    requires
        v.sound(),
        v.has_message(send.waker, item),
        !(attempt.phase is Lock),
    ensures
        v.after_park(cached, send).accounts_for(v, item),
        v.after_park(cached, send).goes_on_with(send),
        v.after_park(cached, send).tidy(send.waker),
        v.after_pause(cached, send, attempt, registered).accounts_for(v, item),
        v.after_pause(cached, send, attempt, registered).goes_on_with(send),
        v.after_pause(cached, send, attempt, registered).tidy(send.waker),
        v.after_park(cached, send).leaves_others(v, send.waker),
        v.after_pause(cached, send, attempt, registered).leaves_others(v, send.waker),
        !v.closed && v.send_wakers[send.waker].state <= WakerState::WAKED.code() ==> {
            &&& v.after_park(cached, send).goes_well(send.waker)
            &&& v.after_pause(cached, send, attempt, registered).goes_well(send.waker)
        },
{
    let id = send.waker;
    lemma_decided(v, cached, send, Seq::empty(), item);
    let tried = v.try_on(id, attempt);
    if !registered {
        lemma_second(v, cached, send, Seq::empty(), item, tried);
    } else {
        lemma_done_tidy(tried.shared, cached, id, tried.wakes);
        if tried.shared.has_message(id, item) {
            assert(tried.shared == v);
            lemma_decided(v, cached, send, tried.wakes, item);
        }
    }
}

/// A thread whose message was taken over is done as soon as it goes on: nothing is
/// put in a second time.
pub proof fn law_taken_is_done<T>(
    v: ChannelView<T>,
    cached: Option<u64>,
    send: SendView,
    attempt: AttemptView,
    registered: bool,
)
    requires
        v.message_taken(send.waker),
        !(attempt.phase is Lock),
    ensures
        v.after_park(cached, send).step == (StepView::<T>::Finished { result: Ok(()) }),
        v.after_park(cached, send).shared.queue == v.queue,
        v.after_park(cached, send).tidy(send.waker),
        v.after_pause(cached, send, attempt, registered).step == (StepView::<T>::Finished {
            result: Ok(()),
        }),
        v.after_pause(cached, send, attempt, registered).shared.queue == v.queue,
        v.after_pause(cached, send, attempt, registered).tidy(send.waker),
        v.after_park(cached, send).leaves_others(v, send.waker),
        v.after_pause(cached, send, attempt, registered).leaves_others(v, send.waker),
        v.after_check(cached, send, Err(())).step == (StepView::<T>::Finished { result: Ok(()) }),
        v.after_check(cached, send, Err(())).shared.queue == v.queue,
{
}

/// A thread that runs out of time gets its message back, and nothing is left of its
/// waker. The message is not in the channel: what is put in, if anything, is the
/// message of another sender, which is served in its place.
pub proof fn law_timeout_gives_back<T>(
    v: ChannelView<T>,
    cached: Option<u64>,
    send: SendView,
    item: T,
)
    requires
        v.sound(),
        v.has_message(send.waker, item),
    ensures
        ({
            let o = v.after_check(cached, send, Err(()));
            &&& o.step == (StepView::Finished { result: Err(SendTimeoutError::Timeout(item)) })
            &&& !o.shared.send_wakers.contains_key(send.waker)
            &&& o.shared.queue == v.queue || exists|other: u64|
                other != send.waker && o.shared.queue == #[trigger] v.queue.push(
                    v.send_wakers[other].payload->0,
                )
        }),
{
    let given_up = ChannelView {
        send_wakers: WakerInner::after_move(v.send_wakers, send.waker, WakerState::CLOSED),
        ..v
    };
    let o = v.after_check(cached, send, Err(()));
    crate::laws::lemma_next_waits(given_up.senders.entries, given_up.send_wakers);
    if o.shared.queue != v.queue {
        let other = given_up.next_sender()->0;
        assert(other != send.waker);
        assert(o.shared.queue == v.queue.push(v.send_wakers[other].payload->0));
    }
}

/// A thread that set no deadline never runs out of time: whatever the clock says, it parks.
pub proof fn law_no_deadline_no_timeout<T>(
    v: ChannelView<T>,
    cached: Option<u64>,
    send: SendView,
    now: u128,
)
    requires
        send.deadline is None,
    ensures
        v.after_check(cached, send, crate::timeout::time_left(send.deadline, now)).step
            == (StepView::<T>::Park { timeout: None, send }),
        v.after_check(cached, send, crate::timeout::time_left(send.deadline, now)).shared == v,
{
}

/// A thread parks no longer than to its deadline, and once that is reached it does
/// not park.
pub proof fn law_parks_until_deadline<T>(
    v: ChannelView<T>,
    cached: Option<u64>,
    send: SendView,
    now: u128,
)
    requires
        send.deadline is Some,
    ensures
        match v.after_check(cached, send, crate::timeout::time_left(send.deadline, now)).step {
            StepView::Park { timeout, send: s } => timeout is Some && now + timeout->0
                == send.deadline->0 && s == send,
            StepView::Finished { .. } => now >= send.deadline->0,
            _ => false,
        },
{
}

/// A thread on the fast path waits only for a channel that is full: as long as there
/// is room, its message is in at once.
pub proof fn law_waits_only_when_full<T>(
    v: ChannelView<T>,
    cached: Option<u64>,
    item: T,
    deadline: Option<u128>,
    thread: u64,
)
    requires
        v.sound(),
        !v.closed,
        cached is Some ==> v.send_wakers.contains_key(cached->0),
    ensures
        !v.full() <==> v.send_started(cached, item, true, deadline, thread).step
            == (StepView::<T>::Finished { result: Ok(()) }),
        v.full() ==> v.send_started(cached, item, true, deadline, thread).shared.full(),
{
    if v.full() {
        let w = v.acquired(cached, thread, item);
        let id = v.acquired_id(cached);
        assert(w.send_wakers[id].payload == Some(item));
    }
}

impl<T> ChannelView<T> {
    /// A thread does what it has to do next, when the clock says `now`.
    #[verifier::opaque]
    pub open spec fn went_on(self, cached: Option<u64>, step: StepView<T>, now: u128) -> Outcome<
        T,
    > {
        match step {
            StepView::Pause { send, attempt, registered, .. } => self.after_pause(
                cached,
                send,
                attempt,
                registered,
            ),
            StepView::CheckTimeout { send } => self.after_check(
                cached,
                send,
                crate::timeout::time_left(send.deadline, now),
            ),
            StepView::Park { send, .. } => self.after_park(cached, send),
            StepView::Finished { .. } => Outcome { shared: self, cached, wakes: Seq::empty(), step },
        }
    }

    /// Where a send stands after `n` further steps with nobody else at the channel.
    /// `clock` gives the time at each step.
    pub open spec fn sent_alone(
        self,
        cached: Option<u64>,
        item: T,
        fastpath: bool,
        deadline: Option<u128>,
        thread: u64,
        clock: spec_fn(nat) -> u128,
        n: nat,
    ) -> Outcome<T>
        decreases n,
    {
        if n == 0 {
            self.send_started(cached, item, fastpath, deadline, thread)
        } else {
            let o = self.sent_alone(
                cached,
                item,
                fastpath,
                deadline,
                thread,
                clock,
                (n - 1) as nat,
            );
            o.shared.went_on(o.cached, o.step, clock((n - 1) as nat))
        }
    }

    /// What a whole send comes to with nobody else at the channel, and the messages
    /// that it leaves: it is turned away, or sent, or runs out of time.
    pub open spec fn sent_alone_result(self, item: T) -> (
        Result<(), SendTimeoutError<T>>,
        Seq<T>,
    ) {
        if self.closed {
            (Err(SendTimeoutError::Disconnected(item)), self.queue)
        } else if !self.full() {
            (Ok(()), self.queue.push(item))
        } else {
            (Err(SendTimeoutError::Timeout(item)), self.queue)
        }
    }

    /// The message of a thread that starts to send, on its way.
    spec fn send_of(
        self,
        cached: Option<u64>,
        fastpath: bool,
        deadline: Option<u128>,
    ) -> SendView {
        SendView {
            waker: self.acquired_id(cached),
            fastpath,
            deadline,
            backoff: crate::backoff::BackoffConfig::unpacked(self.backoff_tx),
        }
    }

    /// The sender waits in this state for room, and goes on with its message.
    spec fn waits_alone(self, o: Outcome<T>, send: SendView, item: T) -> bool {
        let waker = self.send_wakers[send.waker];
        &&& o.shared == self
        &&& self.send_wakers.contains_key(send.waker)
        &&& waker.waiting() && !waker.locked && waker.payload == Some(item)
        &&& !self.closed && self.full()
        &&& match o.step {
            StepView::Pause { send: s, attempt, .. } => s == send && attempt.conf == send.backoff
                && !(attempt.phase is Lock),
            StepView::CheckTimeout { send: s } => s == send,
            StepView::Park { send: s, .. } => s == send,
            StepView::Finished { .. } => false,
        }
    }
}

/// An upper bound on the steps that a sender takes before it looks at the clock for
/// the last time.
spec fn steps_left<T>(step: StepView<T>, limit: nat) -> nat {
    match step {
        StepView::Finished { .. } => 0,
        StepView::CheckTimeout { .. } => 1,
        StepView::Pause { attempt, registered, .. } => {
            let pauses: nat = if attempt.steps < limit {
                (limit - attempt.steps) as nat
            } else {
                0
            };
            if registered {
                pauses + 2
            } else {
                pauses + limit + 4
            }
        },
        StepView::Park { .. } => 2 * limit + 5,
    }
}

/// As long as the channel is full, a step of a sender that is alone changes nothing,
/// unless its time is up. Once it is, the steps that are left get fewer.
#[verifier::rlimit(30)]
proof fn lemma_alone_step<T>(r: ChannelView<T>, o: Outcome<T>, send: SendView, item: T, now: u128)
    requires
        r.waits_alone(o, send, item),
    ensures
        ({
            let next = o.shared.went_on(o.cached, o.step, now);
            &&& r.waits_alone(next, send, item) || {
                &&& next.step == (StepView::Finished {
                    result: Err(SendTimeoutError::Timeout(item)),
                })
                &&& next.shared.queue == r.queue
            }
            &&& send.backoff.limit <= crate::backoff::MAX_LIMIT && send.deadline is Some && now
                >= send.deadline->0 ==> steps_left(next.step, send.backoff.limit as nat)
                < steps_left(o.step, send.backoff.limit as nat)
        }),
{
    reveal(ChannelView::went_on);
    let id = send.waker;
    assert(r.send_registered(id) == r);
    let again = r.try_again(id, send.fastpath, send.backoff);
    assert(again.shared == r);
    match o.step {
        StepView::Pause { attempt, .. } => {
            assert(r.try_on(id, attempt) == r.watched(id, attempt));
        },
        _ => {},
    }
}

/// A sender that is alone at a full channel starts to wait.
proof fn lemma_alone_start<T>(
    v: ChannelView<T>,
    cached: Option<u64>,
    item: T,
    fastpath: bool,
    deadline: Option<u128>,
    thread: u64,
)
    requires
        v.wf(),
        !v.closed,
        v.full(),
        cached is Some ==> v.send_wakers.contains_key(cached->0),
    ensures
        ({
            let send = v.send_of(cached, fastpath, deadline);
            let o = v.send_started(cached, item, fastpath, deadline, thread);
            o.shared.waits_alone(o, send, item) && o.shared.queue == v.queue
        }),
{
    let w = v.acquired(cached, thread, item);
    let id = v.acquired_id(cached);
    assert(w.send_wakers[id].payload == Some(item) && !w.send_wakers[id].locked);
    let r = w.send_registered(id);
    assert(r.send_wakers[id].waiting() && r.send_wakers[id].payload == Some(item)
        && !r.send_wakers[id].locked);
}

/// Where a send of one who is alone stands: it waits, or it is over with the result
/// that the state it started in decides, or it is at its first pause though there is room.
#[verifier::opaque]
spec fn stands<T>(
    v: ChannelView<T>,
    send: SendView,
    item: T,
    entered: ChannelView<T>,
    o: Outcome<T>,
) -> bool {
    ||| o.step == (StepView::Finished { result: v.sent_alone_result(item).0 }) && o.shared.queue
        == v.sent_alone_result(item).1
    ||| !v.closed && v.full() && o.shared.waits_alone(o, send, item) && o.shared.queue == v.queue
    ||| {
        &&& !v.closed && !v.full()
        &&& entered.queue == v.queue && o.shared == entered
        &&& o.step matches StepView::Pause { send: s, attempt, registered, .. } && s == send
            && attempt.phase == TryPhase::Retry && registered
    }
}

/// The state in which a sender has registered.
spec fn entered<T>(
    v: ChannelView<T>,
    cached: Option<u64>,
    item: T,
    thread: u64,
) -> ChannelView<T> {
    v.acquired(cached, thread, item).send_registered(v.acquired_id(cached))
}

proof fn lemma_entered<T>(v: ChannelView<T>, cached: Option<u64>, item: T, thread: u64)
    requires
        v.wf(),
        cached is Some ==> v.send_wakers.contains_key(cached->0),
    ensures
        ({
            let r = entered(v, cached, item, thread);
            let id = v.acquired_id(cached);
            &&& r.queue == v.queue && r.bound == v.bound && r.closed == v.closed
            &&& r.send_wakers.contains_key(id)
            &&& r.send_wakers[id].waiting() && r.send_wakers[id].payload == Some(item)
            &&& !r.send_wakers[id].locked
        }),
{
    let w = v.acquired(cached, thread, item);
    let id = v.acquired_id(cached);
    assert(w.send_wakers[id].payload == Some(item) && !w.send_wakers[id].locked);
}

proof fn lemma_stands_at_start<T>(
    v: ChannelView<T>,
    cached: Option<u64>,
    item: T,
    fastpath: bool,
    deadline: Option<u128>,
    thread: u64,
)
    requires
        v.wf(),
        cached is Some ==> v.send_wakers.contains_key(cached->0),
    ensures
        stands(
            v,
            v.send_of(cached, fastpath, deadline),
            item,
            entered(v, cached, item, thread),
            v.send_started(cached, item, fastpath, deadline, thread),
        ),
{
    reveal(stands);
    if !v.closed && v.full() {
        lemma_alone_start(v, cached, item, fastpath, deadline, thread);
    } else if !v.closed {
        lemma_entered(v, cached, item, thread);
    }
}

#[verifier::rlimit(30)]
proof fn lemma_stands_on<T>(
    v: ChannelView<T>,
    cached: Option<u64>,
    item: T,
    thread: u64,
    send: SendView,
    o: Outcome<T>,
    now: u128,
)
    requires
        v.wf(),
        cached is Some ==> v.send_wakers.contains_key(cached->0),
        send.waker == v.acquired_id(cached),
        stands(v, send, item, entered(v, cached, item, thread), o),
    ensures
        stands(
            v,
            send,
            item,
            entered(v, cached, item, thread),
            o.shared.went_on(o.cached, o.step, now),
        ),
{
    reveal(stands);
    if !(o.step is Finished) && !v.closed && v.full() {
        lemma_alone_step(o.shared, o, send, item, now);
    } else {
        reveal(ChannelView::went_on);
        lemma_entered(v, cached, item, thread);
    }
}

/// Where there is no need to wait, a send is over after one step.
proof fn lemma_first_step_ends<T>(
    v: ChannelView<T>,
    cached: Option<u64>,
    item: T,
    thread: u64,
    send: SendView,
    o: Outcome<T>,
    now: u128,
)
    requires
        v.wf(),
        v.closed || !v.full(),
        cached is Some ==> v.send_wakers.contains_key(cached->0),
        send.waker == v.acquired_id(cached),
        stands(v, send, item, entered(v, cached, item, thread), o),
    ensures
        o.shared.went_on(o.cached, o.step, now).step is Finished,
{
    reveal(stands);
    reveal(ChannelView::went_on);
    lemma_entered(v, cached, item, thread);
}

proof fn lemma_alone<T>(
    v: ChannelView<T>,
    cached: Option<u64>,
    item: T,
    fastpath: bool,
    deadline: Option<u128>,
    thread: u64,
    clock: spec_fn(nat) -> u128,
    n: nat,
)
    requires
        v.wf(),
        cached is Some ==> v.send_wakers.contains_key(cached->0),
    ensures
        stands(
            v,
            v.send_of(cached, fastpath, deadline),
            item,
            entered(v, cached, item, thread),
            v.sent_alone(cached, item, fastpath, deadline, thread, clock, n),
        ),
    decreases n,
{
    if n == 0 {
        lemma_stands_at_start(v, cached, item, fastpath, deadline, thread);
    } else {
        let k = (n - 1) as nat;
        lemma_alone(v, cached, item, fastpath, deadline, thread, clock, k);
        let o = v.sent_alone(cached, item, fastpath, deadline, thread, clock, k);
        let send = v.send_of(cached, fastpath, deadline);
        lemma_stands_on(v, cached, item, thread, send, o, clock(k));
    }
}

/// With nobody else at the channel, a whole send comes to what the state it starts
/// in decides, whatever the clock says and whether or not it takes the fast path:
/// a closed channel turns it away; with room its message is behind all others; a full
/// channel is left as it is, and the message comes back when the time is up.
pub proof fn law_alone_result<T>(
    v: ChannelView<T>,
    cached: Option<u64>,
    item: T,
    fastpath: bool,
    deadline: Option<u128>,
    thread: u64,
    clock: spec_fn(nat) -> u128,
    n: nat,
)
    requires
        v.wf(),
        v.queues_up(fastpath) ==> v.can_wait(cached),
        cached is Some ==> v.send_wakers.contains_key(cached->0),
    ensures
        ({
            let o = v.sent_alone(cached, item, fastpath, deadline, thread, clock, n);
            o.step is Finished ==> {
                &&& o.step == (StepView::Finished { result: v.sent_alone_result(item).0 })
                &&& o.shared.queue == v.sent_alone_result(item).1
            }
        }),
{
    lemma_alone(v, cached, item, fastpath, deadline, thread, clock, n);
    reveal(stands);
}

/// With nobody else at the channel, a send with and a send without the fast path come
/// to the same: once both are over, they have the same result and leave the same messages.
pub proof fn law_fastpath_alike<T>(
    v: ChannelView<T>,
    cached: Option<u64>,
    item: T,
    deadline: Option<u128>,
    thread: u64,
    clock1: spec_fn(nat) -> u128,
    clock2: spec_fn(nat) -> u128,
    n1: nat,
    n2: nat,
)
    requires
        v.wf(),
        v.queues_up(false) ==> v.can_wait(cached),
        cached is Some ==> v.send_wakers.contains_key(cached->0),
    ensures
        ({
            let fast = v.sent_alone(cached, item, true, deadline, thread, clock1, n1);
            let slow = v.sent_alone(cached, item, false, deadline, thread, clock2, n2);
            fast.step is Finished && slow.step is Finished ==> fast.step == slow.step
                && fast.shared.queue == slow.shared.queue
        }),
{
    law_alone_result(v, cached, item, true, deadline, thread, clock1, n1);
    law_alone_result(v, cached, item, false, deadline, thread, clock2, n2);
}

proof fn lemma_alone_ends<T>(
    v: ChannelView<T>,
    cached: Option<u64>,
    item: T,
    fastpath: bool,
    deadline: u128,
    thread: u64,
    clock: spec_fn(nat) -> u128,
    n: nat,
    left: nat,
) -> (last: nat)
    requires
        v.wf(),
        !v.closed,
        v.full(),
        cached is Some ==> v.send_wakers.contains_key(cached->0),
        crate::backoff::BackoffConfig::unpacked(v.backoff_tx).limit <= crate::backoff::MAX_LIMIT,
        forall|k: nat| k >= n ==> #[trigger] clock(k) >= deadline,
        steps_left(
            v.sent_alone(cached, item, fastpath, Some(deadline), thread, clock, n).step,
            crate::backoff::BackoffConfig::unpacked(v.backoff_tx).limit as nat,
        ) <= left,
    ensures
        v.sent_alone(cached, item, fastpath, Some(deadline), thread, clock, last).step is Finished,
    decreases left,
{
    let o = v.sent_alone(cached, item, fastpath, Some(deadline), thread, clock, n);
    if o.step is Finished {
        n
    } else {
        let send = v.send_of(cached, fastpath, Some(deadline));
        lemma_alone(v, cached, item, fastpath, Some(deadline), thread, clock, n);
        assert(o.shared.waits_alone(o, send, item)) by {
            reveal(stands);
        }
        assert(clock(n) >= deadline);
        lemma_alone_step(o.shared, o, send, item, clock(n));
        let next = v.sent_alone(cached, item, fastpath, Some(deadline), thread, clock, n + 1);
        assert(next == o.shared.went_on(o.cached, o.step, clock(n)));
        lemma_alone_ends(
            v,
            cached,
            item,
            fastpath,
            deadline,
            thread,
            clock,
            n + 1,
            (left - 1) as nat,
        )
    }
}

/// With nobody else at the channel, a send by a deadline ends: at the latest some steps
/// after the clock has reached the deadline for good.
pub proof fn law_alone_ends<T>(
    v: ChannelView<T>,
    cached: Option<u64>,
    item: T,
    fastpath: bool,
    deadline: u128,
    thread: u64,
    clock: spec_fn(nat) -> u128,
    late: nat,
)
    requires
        v.wf(),
        v.queues_up(fastpath) ==> v.can_wait(cached),
        cached is Some ==> v.send_wakers.contains_key(cached->0),
        v.backoff_reached(),
        forall|k: nat| k >= late ==> #[trigger] clock(k) >= deadline,
    ensures
        exists|n: nat|
            (#[trigger] v.sent_alone(
                cached,
                item,
                fastpath,
                Some(deadline),
                thread,
                clock,
                n,
            )).step is Finished,
{
    if !v.closed && v.full() {
        let left = steps_left(
            v.sent_alone(cached, item, fastpath, Some(deadline), thread, clock, late).step,
            crate::backoff::BackoffConfig::unpacked(v.backoff_tx).limit as nat,
        );
        let n = lemma_alone_ends(v, cached, item, fastpath, deadline, thread, clock, late, left);
        assert(v.sent_alone(
            cached,
            item,
            fastpath,
            Some(deadline),
            thread,
            clock,
            n,
        ).step is Finished);
    } else {
        let send = v.send_of(cached, fastpath, Some(deadline));
        let o = v.sent_alone(cached, item, fastpath, Some(deadline), thread, clock, 0);
        lemma_alone(v, cached, item, fastpath, Some(deadline), thread, clock, 0);
        lemma_first_step_ends(v, cached, item, thread, send, o, clock(0));
        assert(v.sent_alone(
            cached,
            item,
            fastpath,
            Some(deadline),
            thread,
            clock,
            1,
        ).step is Finished);
    }
}

/// A send by a deadline that no clock reaches is one that does not wait: it comes to
/// what sending at once comes to, and a channel that is full counts as out of time.
pub proof fn law_no_deadline_tries_once<T>(
    v: ChannelView<T>,
    cached: Option<u64>,
    item: T,
    fastpath: bool,
    thread: u64,
)
    ensures
        ({
            let o = v.send_timed(cached, item, fastpath, None, thread);
            &&& o.shared == v.try_sent(item).0
            &&& o.wakes == v.try_send_wakes()
            &&& o.cached == cached
            &&& match v.try_sent(item).1 {
                Ok(()) => o.step == (StepView::<T>::Finished { result: Ok(()) }),
                Err(TrySendError::Full(t)) => t == item && o.step == (StepView::Finished {
                    result: Err(SendTimeoutError::Timeout(t)),
                }),
                Err(TrySendError::Disconnected(t)) => t == item && o.step == (
                StepView::Finished { result: Err(SendTimeoutError::Disconnected(t)) }),
            }
        }),
{
}

/// Once the channel is closed, no message is accepted: it is given back as it
/// came, and the channel is left alone.
pub proof fn law_closed_refuses<T>(
    v: ChannelView<T>,
    cached: Option<u64>,
    item: T,
    fastpath: bool,
    deadline: Option<u128>,
    thread: u64,
)
    requires
        v.closed,
    ensures
        v.try_sent(item) == (v, Err::<(), TrySendError<T>>(TrySendError::Disconnected(item))),
        v.send_started(cached, item, fastpath, deadline, thread).step == (StepView::Finished {
            result: Err(SendTimeoutError::Disconnected(item)),
        }),
        v.send_started(cached, item, fastpath, deadline, thread).shared == v,
        v.send_started(cached, item, fastpath, deadline, thread).wakes == Seq::<
            WakerType,
        >::empty(),
        v.send_timed(cached, item, fastpath, deadline, thread).step == (StepView::Finished {
            result: Err(SendTimeoutError::Disconnected(item)),
        }),
        v.send_timed(cached, item, fastpath, deadline, thread).shared == v,
{
}

/// A waker that a sender keeps for later stays idle, whatever others do: nobody
/// finds it, and nobody changes it.
pub proof fn law_kept_waker_idle<T>(v: ChannelView<T>, op: Op<T>, id: u64)
    requires
        op.valid(v),
        v.numbered(),
        v.idle(id),
        !op.by_sender(id),
    ensures
        op.apply(v).idle(id),
        op.apply(v).send_wakers[id] == v.send_wakers[id],
{
    crate::laws::law_sender_undisturbed(v, op, id);
    if op.apply(v).senders.entries.contains(id) {
        crate::laws::lemma_entries_from(v, op, id);
    }
}

} // verus!
