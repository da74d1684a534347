//! Wakers: what a waiting sender or receiver leaves behind, so that the other
//! side can find it and wake it.

use std::marker::PhantomData;

use vstd::prelude::*;

use crate::collections::WakerTable;

verus! {

/// Where a waker stands between registration and completion.
#[derive(Debug, Clone, Copy, PartialEq, Eq, Structural)]
pub enum WakerState {
    /// Registered: its owner waits.
    WAITING,
    /// Woken, or not registered yet: its owner has to try again.
    WAKED,
    /// Its owner's operation is done.
    DONE,
    /// The channel was closed, or the owner gave up.
    CLOSED,
}

impl WakerState {
    pub open spec fn spec_code(self) -> u8 {
        match self {
            WakerState::WAITING => 0u8,
            WakerState::WAKED => 1u8,
            WakerState::DONE => 2u8,
            WakerState::CLOSED => 3u8,
        }
    }

    /// The number by which a waker holds this state. The states are in order:
    /// whoever sees a number of at least `WAKED` need not wake the waker.
    #[verifier::when_used_as_spec(spec_code)]
    pub fn code(self) -> (code: u8)
        ensures
            code == self.spec_code(),
    {
        match self {
            WakerState::WAITING => 0u8,
            WakerState::WAKED => 1u8,
            WakerState::DONE => 2u8,
            WakerState::CLOSED => 3u8,
        }
    }
}

/// Whom a waker wakes. Tasks and threads are told apart by numbers of the caller's.
#[derive(Debug, Clone, Copy, PartialEq, Eq, Structural)]
pub enum WakerType {
    /// An asynchronous task, woken through its context.
    Async(u64),
    /// A thread, unparked.
    Blocking(u64),
}

/// The shared part of a waker. `payload` is what the owner waits to hand over.
///
/// Whom to wake is not acted on here: a method that wakes appends the target to
/// a list, and the caller wakes what the list names.
pub struct WakerInner<P> {
    pub state: u8,
    pub locked: bool,
    pub seq: usize,
    pub waker: WakerType,
    pub payload: P,
}

/// Access to a locked waker.
pub struct WakerInnerGuard<'a, P>(pub &'a mut WakerInner<P>);

impl<'a, P> WakerInnerGuard<'a, P> {
    /// Unlocks the waker.
    pub fn release(self)
        ensures
            *final(self.0) == (WakerInner { locked: false, ..*old(self.0) }),
    {
        self.0.unlock();
    }
}

impl<P> WakerInner<P> {
    /// A waker as it is created: unlocked, unregistered, without a sequence number.
    pub open spec fn fresh(waker: WakerType, payload: P) -> WakerInner<P> {
        WakerInner {
            state: WakerState::WAKED.code(),
            locked: false,
            seq: 0,
            waker,
            payload,
        }
    }

    /// Whether the owner is registered and nobody has seen to it yet.
    pub open spec fn waiting(self) -> bool {
        self.state == WakerState::WAITING.code()
    }

    pub open spec fn with_state(self, state: WakerState) -> WakerInner<P> {
        WakerInner { state: state.code(), ..self }
    }

    /// The waker after a change from `WAITING` to `state`, which any other state survives.
    pub open spec fn moved_on(self, state: WakerState) -> WakerInner<P> {
        if self.waiting() {
            self.with_state(state)
        } else {
            self
        }
    }

    /// The target, if a change from `WAITING` is to wake it.
    pub open spec fn target(self) -> Seq<WakerType> {
        if self.waiting() {
            seq![self.waker]
        } else {
            Seq::empty()
        }
    }

    /// Whether the waker can be woken by one who does not hold its lock: to wake
    /// a task takes the lock, to unpark a thread does not.
    pub open spec fn wakeable(self) -> bool {
        self.waker is Blocking || !self.locked
    }

    /// The target, as far as it is woken at once: one whose waker is locked has to wait
    /// for the lock.
    pub open spec fn reached(self) -> Seq<WakerType> {
        if self.wakeable() {
            self.target()
        } else {
            Seq::empty()
        }
    }

    pub fn new_async(task: u64, payload: P) -> (inner: Self)
        ensures
            inner == Self::fresh(WakerType::Async(task), payload),
    {
        WakerInner {
            state: WakerState::WAKED.code(),
            locked: false,
            seq: 0,
            waker: WakerType::Async(task),
            payload,
        }
    }

    pub fn new_blocking(thread: u64, payload: P) -> (inner: Self)
        ensures
            inner == Self::fresh(WakerType::Blocking(thread), payload),
    {
        WakerInner {
            state: WakerState::WAKED.code(),
            locked: false,
            seq: 0,
            waker: WakerType::Blocking(thread),
            payload,
        }
    }

    /// Has the waker wake the thread from now on.
    pub fn update_thread_handle(&mut self, thread: u64)
        ensures
            *final(self) == (WakerInner { waker: WakerType::Blocking(thread), ..*old(self) }),
    {
        self.waker = WakerType::Blocking(thread);
    }

    /// Goes from one state to another. In any other state nothing changes, and
    /// that state is the error.
    pub fn try_change_state(&mut self, cur: WakerState, new_state: WakerState) -> (result: Result<
        (),
        u8,
    >)
        ensures
            old(self).state == cur.code() ==> result is Ok && *final(self) == old(
                self,
            ).with_state(new_state),
            old(self).state != cur.code() ==> result == Err::<(), u8>(old(self).state)
                && *final(self) == *old(self),
    {
        if self.state == cur.code() {
            self.state = new_state.code();
            return Ok(());
        }
        Err(self.state)
    }

    pub fn get_state_relaxed(&self) -> (state: u8)
        ensures
            state == self.state,
    {
        self.state
    }

    pub fn set_state(&mut self, state: WakerState)
        ensures
            *final(self) == old(self).with_state(state),
    {
        self.state = state.code();
    }

    /// Gives up waiting, and returns where that leaves the owner.
    ///
    /// `CLOSED`: given up just now, or the channel is closed; the owner keeps its
    /// message, and its registration is to be cleared.
    /// `DONE`: too late, the message was taken.
    /// `WAKED`: the owner was woken; it keeps its message, and another is to be woken.
    pub fn abandon(&mut self) -> (state: u8)
        ensures
            *final(self) == old(self).moved_on(WakerState::CLOSED),
            state == final(self).state,
    {
        match self.try_change_state(WakerState::WAITING, WakerState::CLOSED) {
            Ok(()) => WakerState::CLOSED.code(),
            Err(s) => s,
        }
    }

    pub fn is_waked(&self) -> (waked: bool)
        ensures
            waked == (self.state >= WakerState::WAKED.code()),
            waked == !self.waiting(),
    {
        self.state >= WakerState::WAKED.code()
    }

    /// Tells a waiting owner that the channel is closed. If it cannot be woken at once
    /// ([`WakerInner::is_wakeable`]), that is still owed: the caller spins, and calls
    /// [`WakerInner::_wake`] until it is.
    pub fn close(&mut self, wakes: &mut Vec<WakerType>)
        ensures
            *final(self) == old(self).moved_on(WakerState::CLOSED),
            final(wakes)@ == old(wakes)@ + old(self).reached(),
    {
        if let Ok(()) = self.try_change_state(WakerState::WAITING, WakerState::CLOSED) {
            self._wake(false, wakes);
        }
    }

    /// Wakes the owner if it waits, and returns whether it did. If it cannot be woken at
    /// once ([`WakerInner::is_wakeable`]), that is still owed: the caller spins, and calls
    /// [`WakerInner::_wake`] until it is.
    pub fn wake_simple(&mut self, wakes: &mut Vec<WakerType>) -> (woken: bool)
        ensures
            woken == old(self).waiting(),
            *final(self) == old(self).moved_on(WakerState::WAKED),
            final(wakes)@ == old(wakes)@ + old(self).reached(),
    {
        if let WakerType::Blocking(thread) = self.waker {
            if self.try_change_state(WakerState::WAITING, WakerState::WAKED).is_ok() {
                wakes.push(WakerType::Blocking(thread));
                true
            } else {
                false
            }
        } else {
            match self.try_change_state(WakerState::WAITING, WakerState::WAKED) {
                Ok(()) => {
                    self._wake(false, wakes);
                    true
                },
                Err(_) => false,
            }
        }
    }

    /// Locks the waker if it is not locked. May be used where a retry is at hand.
    pub fn try_lock_weak<'a>(&'a mut self) -> (guard: Option<WakerInnerGuard<'a, P>>)
        ensures
            match guard {
                Some(g) => {
                    &&& !old(self).locked
                    &&& *g.0 == (WakerInner { locked: true, ..*old(self) })
                    &&& *final(self) == *final(g.0)
                },
                None => old(self).locked && *final(self) == *old(self),
            },
    {
        self.try_lock()
    }

    /// Locks the waker if it is not locked.
    pub fn try_lock<'a>(&'a mut self) -> (guard: Option<WakerInnerGuard<'a, P>>)
        ensures
            match guard {
                Some(g) => {
                    &&& !old(self).locked
                    &&& *g.0 == (WakerInner { locked: true, ..*old(self) })
                    &&& *final(self) == *final(g.0)
                },
                None => old(self).locked && *final(self) == *old(self),
            },
    {
        if !self.locked {
            self.locked = true;
            return Some(WakerInnerGuard(self));
        }
        None
    }

    fn unlock(&mut self)
        ensures
            *final(self) == (WakerInner { locked: false, ..*old(self) }),
    {
        self.locked = false;
    }

    pub fn is_locked(&self) -> (locked: bool)
        ensures
            locked == self.locked,
    {
        self.locked
    }

    /// Whether the waker can be woken by one who does not hold its lock.
    pub fn is_wakeable(&self) -> (wakeable: bool)
        ensures
            wakeable == self.wakeable(),
    {
        match self.waker {
            WakerType::Blocking(_) => true,
            WakerType::Async(_) => !self.locked,
        }
    }

    /// Has the waker wake the task from now on. A task that was woken for another
    /// reason may come back under another context, which the waker it left
    /// behind would not wake. Takes the lock unless the caller holds it; returns false
    /// if somebody else does, and then the caller spins, and tries again.
    pub fn check_waker(&mut self, task: u64, have_lock: bool) -> (renewed: bool)
        requires
            old(self).waker is Async,
        ensures
            renewed == (have_lock || !old(self).locked),
            *final(self) == (if renewed {
                (WakerInner { waker: WakerType::Async(task), ..*old(self) })
            } else {
                *old(self)
            }),
    {
        if have_lock {
            self.renew_task(task);
            return true;
        }
        if let Some(guard) = self.try_lock_weak() {
            guard.0.renew_task(task);
            guard.release();
            return true;
        }
        false
    }

    fn renew_task(&mut self, task: u64)
        requires
            old(self).waker is Async,
        ensures
            *final(self) == (WakerInner { waker: WakerType::Async(task), ..*old(self) }),
    {
        if let WakerType::Async(current) = self.waker {
            if current != task {
                self.waker = WakerType::Async(task);
            }
        }
    }

    /// Wakes the target, whatever the state. To wake a task, the lock is taken
    /// unless the caller holds it; returns false if somebody else does, and then the
    /// caller spins, and tries again.
    pub fn _wake(&mut self, have_lock: bool, wakes: &mut Vec<WakerType>) -> (woken: bool)
        ensures
            *final(self) == *old(self),
            woken == (have_lock || old(self).wakeable()),
            final(wakes)@ == (if woken {
                old(wakes)@.push(old(self).waker)
            } else {
                old(wakes)@
            }),
    {
        match self.waker {
            WakerType::Async(task) => {
                if have_lock {
                    wakes.push(WakerType::Async(task));
                    return true;
                }
                if let Some(guard) = self.try_lock_weak() {
                    if let WakerType::Async(current) = guard.0.waker {
                        wakes.push(WakerType::Async(current));
                    }
                    guard.release();
                    return true;
                }
                false
            },
            WakerType::Blocking(thread) => {
                wakes.push(WakerType::Blocking(thread));
                true
            },
        }
    }
}

impl<P> WakerInner<P> {
    /// Whether the number is that of a waker whose owner waits.
    pub open spec fn waits(wakers: Map<u64, Self>, id: u64) -> bool {
        wakers.contains_key(id) && wakers[id].waiting()
    }

    /// The wakers after the one of that number, if it waited, went on to `state`.
    pub open spec fn after_move(
        wakers: Map<u64, Self>,
        id: u64,
        state: WakerState,
    ) -> Map<u64, Self> {
        if Self::waits(wakers, id) {
            wakers.insert(id, wakers[id].with_state(state))
        } else {
            wakers
        }
    }

    /// The target that a move of the waker of that number wakes.
    pub open spec fn target_of(wakers: Map<u64, Self>, id: u64) -> Seq<WakerType> {
        if Self::waits(wakers, id) {
            seq![wakers[id].waker]
        } else {
            Seq::empty()
        }
    }

    /// No waker is locked. Nobody keeps a waker locked from one call to the next.
    pub open spec fn all_unlocked(wakers: Map<u64, Self>) -> bool {
        forall|id: u64| #[trigger] wakers.contains_key(id) ==> !wakers[id].locked
    }

    /// Whether clearing stops at the entry: it is that of the waker with the
    /// sequence number, or of a later one.
    pub open spec fn stops_clearing(wakers: Map<u64, Self>, id: u64, seq: usize) -> bool {
        wakers.contains_key(id) && wakers[id].seq >= seq
    }

    /// Whether the entry is that of the waker with the sequence number.
    pub open spec fn is_own(wakers: Map<u64, Self>, id: u64, seq: usize) -> bool {
        wakers.contains_key(id) && wakers[id].seq == seq
    }
}

/// Wakes the waker of that number, if it waits, and returns whether it did.
pub fn wake_weak<P>(
    wakers: &mut WakerTable<P>,
    weak: u64,
    wakes: &mut Vec<WakerType>,
) -> (woken: bool)
    requires
        old(wakers).wf(),
        WakerInner::waits(old(wakers)@, weak) ==> old(wakers)@[weak].wakeable(),
    ensures
        final(wakers).wf(),
        final(wakers).next_id() == old(wakers).next_id(),
        woken == WakerInner::waits(old(wakers)@, weak),
        final(wakers)@ == WakerInner::after_move(old(wakers)@, weak, WakerState::WAKED),
        final(wakes)@ == old(wakes)@ + WakerInner::target_of(old(wakers)@, weak),
{
    if !wakers.contains(weak) {
        return false;
    }
    let mut inner = wakers.take(weak);
    let woken = inner.wake_simple(wakes);
    wakers.put(weak, inner);
    assert(wakers@ =~= WakerInner::after_move(old(wakers)@, weak, WakerState::WAKED));
    woken
}

/// Tells the owner of the waker of that number, if it waits, that the channel is closed.
pub fn close_weak<P>(wakers: &mut WakerTable<P>, weak: u64, wakes: &mut Vec<WakerType>)
    requires
        old(wakers).wf(),
        WakerInner::waits(old(wakers)@, weak) ==> old(wakers)@[weak].wakeable(),
    ensures
        final(wakers).wf(),
        final(wakers).next_id() == old(wakers).next_id(),
        final(wakers)@ == WakerInner::after_move(old(wakers)@, weak, WakerState::CLOSED),
        final(wakes)@ == old(wakes)@ + WakerInner::target_of(old(wakers)@, weak),
{
    if wakers.contains(weak) {
        let mut inner = wakers.take(weak);
        inner.close(wakes);
        wakers.put(weak, inner);
        assert(wakers@ =~= WakerInner::after_move(old(wakers)@, weak, WakerState::CLOSED));
    }
}

/// Wakes the waker of that number unless its sequence number is `seq`. Returns
/// whether to stop there: the entry is that of the caller, or a later one.
fn clear_weak<P>(
    wakers: &mut WakerTable<P>,
    weak: u64,
    seq: usize,
    wakes: &mut Vec<WakerType>,
) -> (stop: bool)
    requires
        old(wakers).wf(),
        WakerInner::waits(old(wakers)@, weak) && !WakerInner::is_own(old(wakers)@, weak, seq)
            ==> old(wakers)@[weak].wakeable(),
    ensures
        final(wakers).wf(),
        final(wakers).next_id() == old(wakers).next_id(),
        stop == WakerInner::stops_clearing(old(wakers)@, weak, seq),
        WakerInner::is_own(old(wakers)@, weak, seq) ==> final(wakers)@ == old(wakers)@ && final(wakes)@
            == old(wakes)@,
        !WakerInner::is_own(old(wakers)@, weak, seq) ==> final(wakers)@ == WakerInner::after_move(
            old(wakers)@,
            weak,
            WakerState::WAKED,
        ) && final(wakes)@ == old(wakes)@ + WakerInner::target_of(old(wakers)@, weak),
{
    if wakers.contains(weak) {
        let own_seq: usize = wakers.get(weak).seq;
        if own_seq == seq {
            return true;
        }
        wake_weak(wakers, weak, wakes);
        return own_seq > seq;
    }
    false
}

/// Gives the waker of that number a sequence number.
fn number_waker<P>(wakers: &mut WakerTable<P>, id: u64, seq: usize)
    requires
        old(wakers).wf(),
        old(wakers)@.contains_key(id),
    ensures
        final(wakers).wf(),
        final(wakers).next_id() == old(wakers).next_id(),
        final(wakers)@ == old(wakers)@.insert(
            id,
            (WakerInner { seq, ..old(wakers)@[id] }),
        ),
{
    let mut inner = wakers.take(id);
    inner.seq = seq;
    wakers.put(id, inner);
    assert(wakers@ =~= old(wakers)@.insert(id, (WakerInner { seq, ..old(wakers)@[id] })));
}

/// Readies a used waker for another wait of a thread.
fn reuse_blocking<P>(wakers: &mut WakerTable<P>, id: u64, thread: u64, payload: P)
    requires
        old(wakers).wf(),
        old(wakers)@.contains_key(id),
    ensures
        final(wakers).wf(),
        final(wakers).next_id() == old(wakers).next_id(),
        final(wakers)@ == old(wakers)@.insert(
            id,
            old(wakers)@[id].reused(thread, payload),
        ),
{
    let mut inner = wakers.take(id);
    inner.set_state(WakerState::WAKED);
    inner.payload = payload;
    inner.update_thread_handle(thread);
    wakers.put(id, inner);
    assert(wakers@ =~= old(wakers)@.insert(id, old(wakers)@[id].reused(thread, payload)));
}

impl<P> WakerInner<P> {
    /// A used waker, readied for another wait of a thread.
    pub open spec fn reused(self, thread: u64, payload: P) -> WakerInner<P> {
        WakerInner {
            state: WakerState::WAKED.code(),
            waker: WakerType::Blocking(thread),
            payload,
            ..self
        }
    }
}

/// The owner's hold on a waker in a table. The table keeps the waker for as long
/// as its owner does; the number alone, [`WakerTrait::weak`], does not keep it.
pub trait WakerTrait: Sized {
    type Payload;

    /// The number of the waker.
    spec fn key(&self) -> u64;

    fn from_id(id: u64) -> (waker: Self)
        ensures
            waker.key() == id,
    ;

    fn weak(&self) -> (id: u64)
        ensures
            id == self.key(),
    ;

    /// Readies a used waker for another wait.
    fn update_blocking_payload(
        &self,
        wakers: &mut WakerTable<Self::Payload>,
        thread: u64,
        payload: Self::Payload,
    )
        requires
            old(wakers).wf(),
            old(wakers)@.contains_key(self.key()),
        ensures
            final(wakers).wf(),
            final(wakers).next_id() == old(wakers).next_id(),
            final(wakers)@ == old(wakers)@.insert(
                self.key(),
                old(wakers)@[self.key()].reused(thread, payload),
            ),
    ;

    fn new_async(
        wakers: &mut WakerTable<Self::Payload>,
        task: u64,
        payload: Self::Payload,
    ) -> (waker: Self)
        requires
            old(wakers).wf(),
            old(wakers).next_id() < u64::MAX,
        ensures
            final(wakers).wf(),
            waker.key() == old(wakers).next_id(),
            final(wakers).next_id() == waker.key() + 1,
            !old(wakers)@.contains_key(waker.key()),
            final(wakers)@ == old(wakers)@.insert(
                waker.key(),
                WakerInner::fresh(WakerType::Async(task), payload),
            ),
    ;

    fn new_blocking(
        wakers: &mut WakerTable<Self::Payload>,
        thread: u64,
        payload: Self::Payload,
    ) -> (waker: Self)
        requires
            old(wakers).wf(),
            old(wakers).next_id() < u64::MAX,
        ensures
            final(wakers).wf(),
            waker.key() == old(wakers).next_id(),
            final(wakers).next_id() == waker.key() + 1,
            !old(wakers)@.contains_key(waker.key()),
            final(wakers)@ == old(wakers)@.insert(
                waker.key(),
                WakerInner::fresh(WakerType::Blocking(thread), payload),
            ),
    ;

    fn get_seq(&self, wakers: &WakerTable<Self::Payload>) -> (seq: usize)
        requires
            wakers@.contains_key(self.key()),
        ensures
            seq == wakers@[self.key()].seq,
    ;

    fn set_seq(&self, wakers: &mut WakerTable<Self::Payload>, seq: usize)
        requires
            old(wakers).wf(),
            old(wakers)@.contains_key(self.key()),
        ensures
            final(wakers).wf(),
            final(wakers).next_id() == old(wakers).next_id(),
            final(wakers)@ == old(wakers)@.insert(
                self.key(),
                (WakerInner { seq, ..old(wakers)@[self.key()] }),
            ),
    ;

    fn get_state(&self, wakers: &WakerTable<Self::Payload>) -> (state: u8)
        requires
            wakers@.contains_key(self.key()),
        ensures
            state == wakers@[self.key()].state,
    ;

    /// Clears one entry of a registry: wakes the waker unless its sequence number
    /// is `seq`. Returns true to stop, false to go on searching.
    fn try_to_clear(
        wakers: &mut WakerTable<Self::Payload>,
        weak: u64,
        seq: usize,
        wakes: &mut Vec<WakerType>,
    ) -> (stop: bool)
        requires
            old(wakers).wf(),
            WakerInner::waits(old(wakers)@, weak) && !WakerInner::is_own(old(wakers)@, weak, seq)
                ==> old(wakers)@[weak].wakeable(),
        ensures
            final(wakers).wf(),
            final(wakers).next_id() == old(wakers).next_id(),
            stop == WakerInner::stops_clearing(old(wakers)@, weak, seq),
            WakerInner::is_own(old(wakers)@, weak, seq) ==> final(wakers)@ == old(wakers)@
                && final(wakes)@ == old(wakes)@,
            !WakerInner::is_own(old(wakers)@, weak, seq) ==> final(wakers)@ == WakerInner::after_move(
                old(wakers)@,
                weak,
                WakerState::WAKED,
            ) && final(wakes)@ == old(wakes)@ + WakerInner::target_of(old(wakers)@, weak),
    ;
}

/// The waker of a sender. Its payload is the message, until somebody takes it.
pub struct SendWaker<T> {
    pub id: u64,
    pub message: PhantomData<T>,
}

impl<T> WakerTrait for SendWaker<T> {
    type Payload = Option<T>;

    open spec fn key(&self) -> u64 {
        self.id
    }

    fn from_id(id: u64) -> (waker: Self) {
        SendWaker { id, message: PhantomData }
    }

    fn weak(&self) -> (id: u64) {
        self.id
    }

    fn update_blocking_payload(
        &self,
        wakers: &mut WakerTable<Option<T>>,
        thread: u64,
        payload: Option<T>,
    ) {
        reuse_blocking(wakers, self.id, thread, payload);
    }

    fn new_async(wakers: &mut WakerTable<Option<T>>, task: u64, payload: Option<T>) -> (waker: Self) {
        Self::from_id(wakers.add(WakerInner::new_async(task, payload)))
    }

    fn new_blocking(wakers: &mut WakerTable<Option<T>>, thread: u64, payload: Option<T>) -> (waker:
        Self) {
        Self::from_id(wakers.add(WakerInner::new_blocking(thread, payload)))
    }

    fn get_seq(&self, wakers: &WakerTable<Option<T>>) -> (seq: usize) {
        wakers.get(self.id).seq
    }

    fn set_seq(&self, wakers: &mut WakerTable<Option<T>>, seq: usize) {
        number_waker(wakers, self.id, seq);
    }

    fn get_state(&self, wakers: &WakerTable<Option<T>>) -> (state: u8) {
        wakers.get(self.id).state
    }

    fn try_to_clear(
        wakers: &mut WakerTable<Option<T>>,
        weak: u64,
        seq: usize,
        wakes: &mut Vec<WakerType>,
    ) -> (stop: bool) {
        clear_weak(wakers, weak, seq, wakes)
    }
}

/// The waker of a receiver, which has nothing to hand over.
pub struct RecvWaker {
    pub id: u64,
}

impl WakerTrait for RecvWaker {
    type Payload = ();

    open spec fn key(&self) -> u64 {
        self.id
    }

    fn from_id(id: u64) -> (waker: Self) {
        RecvWaker { id }
    }

    fn weak(&self) -> (id: u64) {
        self.id
    }

    fn update_blocking_payload(
        &self,
        wakers: &mut WakerTable<()>,
        thread: u64,
        payload: (),
    ) {
        reuse_blocking(wakers, self.id, thread, payload);
    }

    fn new_async(wakers: &mut WakerTable<()>, task: u64, payload: ()) -> (waker: Self) {
        Self::from_id(wakers.add(WakerInner::new_async(task, payload)))
    }

    fn new_blocking(wakers: &mut WakerTable<()>, thread: u64, payload: ()) -> (waker:
        Self) {
        Self::from_id(wakers.add(WakerInner::new_blocking(thread, payload)))
    }

    fn get_seq(&self, wakers: &WakerTable<()>) -> (seq: usize) {
        wakers.get(self.id).seq
    }

    fn set_seq(&self, wakers: &mut WakerTable<()>, seq: usize) {
        number_waker(wakers, self.id, seq);
    }

    fn get_state(&self, wakers: &WakerTable<()>) -> (state: u8) {
        wakers.get(self.id).state
    }

    fn try_to_clear(
        wakers: &mut WakerTable<()>,
        weak: u64,
        seq: usize,
        wakes: &mut Vec<WakerType>,
    ) -> (stop: bool) {
        clear_weak(wakers, weak, seq, wakes)
    }
}

/// A place for one used waker, so that its owner need not create another.
pub struct WakerCache<W: WakerTrait> {
    cell: Option<W>,
}

impl<W: WakerTrait> WakerCache<W> {
    /// The number of the waker that is kept.
    pub closed spec fn cached(self) -> Option<u64> {
        match self.cell {
            Some(waker) => Some(waker.key()),
            None => None,
        }
    }

    /// What is kept exists.
    pub open spec fn wf(self, wakers: Map<u64, WakerInner<W::Payload>>) -> bool {
        self.cached() is Some ==> wakers.contains_key(self.cached()->0)
    }

    pub fn new() -> (cache: Self)
        ensures
            cache.cached() is None,
    {
        WakerCache { cell: None }
    }

    /// A waker for a thread that is about to wait: the one that is kept, or a new one.
    pub fn new_blocking(
        &mut self,
        wakers: &mut WakerTable<W::Payload>,
        thread: u64,
        payload: W::Payload,
    ) -> (waker: W)
        requires
            old(wakers).wf(),
            old(self).wf(old(wakers)@),
            old(self).cached() is None ==> old(wakers).next_id() < u64::MAX,
        ensures
            final(wakers).wf(),
            final(self).cached() is None,
            match old(self).cached() {
                Some(id) => {
                    &&& waker.key() == id
                    &&& final(wakers).next_id() == old(wakers).next_id()
                    &&& final(wakers)@ == old(wakers)@.insert(
                        id,
                        old(wakers)@[id].reused(thread, payload),
                    )
                },
                None => {
                    &&& waker.key() == old(wakers).next_id()
                    &&& final(wakers).next_id() == waker.key() + 1
                    &&& !old(wakers)@.contains_key(waker.key())
                    &&& final(wakers)@ == old(wakers)@.insert(
                        waker.key(),
                        WakerInner::fresh(WakerType::Blocking(thread), payload),
                    )
                },
            },
    {
        if let Some(waker) = self.cell.take() {
            waker.update_blocking_payload(wakers, thread, payload);
            return waker;
        }
        W::new_blocking(wakers, thread, payload)
    }

    /// Whether a waker that is handed in is kept: its wait is over, no registry
    /// refers to it (`referred`), and there is room.
    pub open spec fn keeps(
        self,
        wakers: Map<u64, WakerInner<W::Payload>>,
        id: u64,
        referred: bool,
    ) -> bool {
        !wakers[id].waiting() && !referred && self.cached() is None
    }

    /// Hands in a waker that is no longer needed: it is kept, or else dropped.
    pub fn push(&mut self, wakers: &mut WakerTable<W::Payload>, waker: W, referred: bool)
        requires
            old(wakers).wf(),
            old(wakers)@.contains_key(waker.key()),
        ensures
            final(wakers).wf(),
            final(wakers).next_id() == old(wakers).next_id(),
            old(self).keeps(old(wakers)@, waker.key(), referred) ==> {
                &&& final(self).cached() == Some(waker.key())
                &&& final(wakers)@ == old(wakers)@
            },
            !old(self).keeps(old(wakers)@, waker.key(), referred) ==> {
                &&& final(self).cached() == old(self).cached()
                &&& final(wakers)@ == old(wakers)@.remove(waker.key())
            },
    {
        if waker.get_state(wakers) < WakerState::WAKED.code() {
            wakers.take(waker.weak());
            return;
        }
        if !referred && self.cell.is_none() {
            self.cell = Some(waker);
        } else {
            wakers.take(waker.weak());
        }
    }

    pub fn is_empty(&self) -> (empty: bool)
        ensures
            empty == (self.cached() is None),
    {
        self.cell.is_none()
    }

    /// Drops what is kept.
    pub fn clear(&mut self, wakers: &mut WakerTable<W::Payload>)
        requires
            old(wakers).wf(),
            old(self).wf(old(wakers)@),
        ensures
            final(wakers).wf(),
            final(wakers).next_id() == old(wakers).next_id(),
            final(self).cached() is None,
            final(wakers)@ == (match old(self).cached() {
                Some(id) => old(wakers)@.remove(id),
                None => old(wakers)@,
            }),
    {
        if let Some(waker) = self.cell.take() {
            wakers.take(waker.weak());
        }
    }
}

/// How many of a number of calls to wake a waker, one after the other, find it waiting.
pub open spec fn times_woken<P>(inner: WakerInner<P>, calls: nat) -> nat
    decreases calls,
{
    if calls == 0 {
        0
    } else {
        (if inner.waiting() {
            1nat
        } else {
            0
        }) + times_woken(inner.moved_on(WakerState::WAKED), (calls - 1) as nat)
    }
}

/// Of all calls that wake a waker, exactly one finds it waiting, if it waits at all: the
/// first. Closing it twice is closing it once. Either way it waits no longer.
pub proof fn law_moved_on_once<P>(inner: WakerInner<P>, calls: nat)
    ensures
        times_woken(inner, calls) == (if inner.waiting() && calls > 0 {
            1nat
        } else {
            0
        }),
        !inner.moved_on(WakerState::WAKED).waiting(),
        !inner.moved_on(WakerState::CLOSED).waiting(),
        inner.moved_on(WakerState::WAKED).reached() == Seq::<WakerType>::empty(),
        inner.moved_on(WakerState::CLOSED).moved_on(WakerState::CLOSED) == inner.moved_on(
            WakerState::CLOSED,
        ),
        inner.moved_on(WakerState::CLOSED).reached() == Seq::<WakerType>::empty(),
    decreases calls,
{
    if calls > 0 {
        law_moved_on_once(inner.moved_on(WakerState::WAKED), (calls - 1) as nat);
    }
}

/// Who is woken by one who tries to wake a target again and again. `seen` is the waker
/// as each try finds it, by which time others may have locked or unlocked it, or
/// renewed its task.
pub open spec fn woken_over<P>(seen: Seq<WakerInner<P>>) -> Seq<WakerType>
    decreases seen.len(),
{
    if seen.len() == 0 {
        Seq::empty()
    } else if seen[0].wakeable() {
        seq![seen[0].waker]
    } else {
        woken_over(seen.drop_first())
    }
}

/// A target whose waker is locked is woken exactly once: at the first try that finds the
/// waker unlocked, and as whom the waker names by then.
pub proof fn law_woken_after_unlock<P>(seen: Seq<WakerInner<P>>, n: nat)
    requires
        n < seen.len(),
        seen[n as int].wakeable(),
        forall|i: int| 0 <= i < n ==> !(#[trigger] seen[i]).wakeable(),
    ensures
        woken_over(seen) == seq![seen[n as int].waker],
    decreases n,
{
    if n > 0 {
        let rest = seen.drop_first();
        assert(!seen[0].wakeable());
        assert forall|i: int| 0 <= i < n - 1 implies !(#[trigger] rest[i]).wakeable() by {
            assert(rest[i] == seen[i + 1]);
        }
        law_woken_after_unlock(rest, (n - 1) as nat);
    }
}

} // verus!
