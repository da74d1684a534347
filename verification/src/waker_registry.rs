//! Registries: where the wakers of one side of a channel are queued for the
//! other side to find.

use std::collections::VecDeque;

use vstd::prelude::*;

use crate::collections::WakerTable;
use crate::locked_waker::{WakerInner, WakerState, WakerTrait, WakerType};

verus! {

/// How many wakers a registry is for.
#[derive(Debug, Clone, Copy, PartialEq, Eq, Structural)]
pub enum RegistryKind {
    /// The wakers of a single thread or task: the last one is all there is to know.
    Single,
    /// The wakers of several, served in the order in which they came.
    Multi,
    /// None: the side never waits.
    Dummy,
}

/// A registry, abstractly.
#[verifier::ext_equal]
pub struct RegistryView {
    pub kind: RegistryKind,
    /// The numbers of the wakers that are queued, the next to be served first.
    /// A number stays although its waker is gone, or waits no longer.
    pub entries: Seq<u64>,
    /// The sequence number that the next waker gets.
    pub next_seq: usize,
    /// Whether somebody is clearing the queue.
    pub checking: bool,
}

impl RegistryView {
    /// The index of the first number that `stop` accepts; the length if there is none.
    pub open spec fn first_index(entries: Seq<u64>, stop: spec_fn(u64) -> bool) -> nat
        decreases entries.len(),
    {
        if entries.len() == 0 {
            0
        } else if stop(entries[0]) {
            0
        } else {
            1 + Self::first_index(entries.drop_first(), stop)
        }
    }

    /// Accepts the numbers of the wakers that exist.
    pub open spec fn lives_in<P>(wakers: Map<u64, WakerInner<P>>) -> spec_fn(u64) -> bool {
        |id: u64| wakers.contains_key(id)
    }

    /// Accepts the numbers of the wakers that wait.
    pub open spec fn waits_in<P>(wakers: Map<u64, WakerInner<P>>) -> spec_fn(u64) -> bool {
        |id: u64| WakerInner::waits(wakers, id)
    }

    /// Accepts the numbers at which clearing stops.
    pub open spec fn stops_in<P>(wakers: Map<u64, WakerInner<P>>, seq: usize) -> spec_fn(u64) -> bool {
        |id: u64| WakerInner::stops_clearing(wakers, id, seq)
    }

    /// Accepts the numbers at which a search for somebody to wake stops: one that
    /// waits, or one that is as late as `seq`.
    pub open spec fn fires_in<P>(wakers: Map<u64, WakerInner<P>>, seq: usize) -> spec_fn(u64) -> bool {
        |id: u64| wakers.contains_key(id) && (wakers[id].waiting() || wakers[id].seq >= seq)
    }

    /// The wakers after each of those in `entries` that waited went on to `state`.
    pub open spec fn moved_all<P>(
        entries: Seq<u64>,
        wakers: Map<u64, WakerInner<P>>,
        state: WakerState,
    ) -> Map<u64, WakerInner<P>> {
        Map::new(
            |id: u64| wakers.contains_key(id),
            |id: u64|
                if entries.contains(id) {
                    wakers[id].moved_on(state)
                } else {
                    wakers[id]
                },
        )
    }

    /// The targets that are woken when the wakers in `entries` go on to `state` one by one.
    pub open spec fn targets<P>(
        entries: Seq<u64>,
        wakers: Map<u64, WakerInner<P>>,
        state: WakerState,
    ) -> Seq<WakerType>
        decreases entries.len(),
    {
        if entries.len() == 0 {
            Seq::empty()
        } else {
            WakerInner::target_of(wakers, entries[0]) + Self::targets(
                entries.drop_first(),
                WakerInner::after_move(wakers, entries[0], state),
                state,
            )
        }
    }

    /// Those in `entries` that wait can be woken by one who does not hold their locks.
    pub open spec fn can_wake<P>(entries: Seq<u64>, wakers: Map<u64, WakerInner<P>>) -> bool {
        forall|id: u64|
            entries.contains(id) && #[trigger] WakerInner::waits(wakers, id)
                ==> wakers[id].wakeable()
    }

    /// The entries behind index `k`.
    pub open spec fn behind(entries: Seq<u64>, k: nat) -> Seq<u64> {
        if k < entries.len() {
            entries.skip(k as int + 1)
        } else {
            Seq::empty()
        }
    }

    pub open spec fn wrapping_next(n: usize) -> usize {
        if n == usize::MAX {
            0
        } else {
            (n + 1) as usize
        }
    }

    pub open spec fn wrapping_prev(n: usize) -> usize {
        if n == 0 {
            usize::MAX
        } else {
            (n - 1) as usize
        }
    }

    pub open spec fn empty(kind: RegistryKind) -> RegistryView {
        RegistryView { kind, entries: Seq::empty(), next_seq: 0, checking: false }
    }

    pub open spec fn with_entries(self, entries: Seq<u64>) -> RegistryView {
        RegistryView { entries, ..self }
    }

    /// The registry after a waker was queued.
    pub open spec fn with_waker(self, id: u64) -> RegistryView {
        match self.kind {
            RegistryKind::Single => self.with_entries(seq![id]),
            RegistryKind::Multi => RegistryView {
                entries: self.entries.push(id),
                next_seq: Self::wrapping_next(self.next_seq),
                ..self
            },
            RegistryKind::Dummy => self,
        }
    }

    /// The wakers after one of them was queued: it got the next sequence number,
    /// if the registry gives any.
    pub open spec fn numbered<P>(self, wakers: Map<u64, WakerInner<P>>, id: u64) -> Map<
        u64,
        WakerInner<P>,
    > {
        match self.kind {
            RegistryKind::Multi => wakers.insert(
                id,
                WakerInner { seq: self.next_seq, ..wakers[id] },
            ),
            _ => wakers,
        }
    }

    /// The entry at which a search for somebody to wake ends; the length if it
    /// finds nobody.
    pub open spec fn fire_index<P>(self, wakers: Map<u64, WakerInner<P>>) -> nat {
        match self.kind {
            RegistryKind::Single => Self::first_index(self.entries, Self::lives_in(wakers)),
            RegistryKind::Multi => Self::first_index(
                self.entries,
                Self::fires_in(wakers, Self::wrapping_prev(self.next_seq)),
            ),
            RegistryKind::Dummy => self.entries.len(),
        }
    }

    /// The registry after a search for somebody to wake.
    pub open spec fn fired<P>(self, wakers: Map<u64, WakerInner<P>>) -> RegistryView {
        if self.kind == RegistryKind::Dummy {
            self
        } else {
            self.with_entries(Self::behind(self.entries, self.fire_index(wakers)))
        }
    }

    /// The entries that a search for somebody to wake acts on: one, or none.
    pub open spec fn fire_hits<P>(self, wakers: Map<u64, WakerInner<P>>) -> Seq<u64> {
        let k = self.fire_index(wakers);
        if k < self.entries.len() {
            seq![self.entries[k as int]]
        } else {
            Seq::empty()
        }
    }

    /// The entry at which clearing stops; the length if it does not.
    pub open spec fn clear_index<P>(self, wakers: Map<u64, WakerInner<P>>, seq: usize) -> nat {
        Self::first_index(self.entries, Self::stops_in(wakers, seq))
    }

    /// The entries that clearing wakes: those up to where it stops, but not the
    /// waker for whose sake it is done.
    pub open spec fn clear_hits<P>(self, wakers: Map<u64, WakerInner<P>>, seq: usize) -> Seq<u64> {
        let k = self.clear_index(wakers, seq);
        if self.kind != RegistryKind::Multi || self.checking {
            Seq::empty()
        } else if k >= self.entries.len() {
            self.entries
        } else if WakerInner::is_own(wakers, self.entries[k as int], seq) {
            self.entries.take(k as int)
        } else {
            self.entries.take(k as int + 1)
        }
    }

    /// The registry after it was cleared for the waker with the sequence number.
    pub open spec fn cleared<P>(self, wakers: Map<u64, WakerInner<P>>, seq: usize) -> RegistryView {
        match self.kind {
            RegistryKind::Single => self.with_entries(Seq::empty()),
            RegistryKind::Multi => if self.checking {
                self
            } else {
                self.with_entries(Self::behind(self.entries, self.clear_index(wakers, seq)))
            },
            RegistryKind::Dummy => self,
        }
    }

    /// The registry after a waker was cancelled.
    pub open spec fn cancelled<P>(self, wakers: Map<u64, WakerInner<P>>, id: u64) -> RegistryView {
        if !WakerInner::waits(wakers, id) {
            self
        } else {
            match self.kind {
                RegistryKind::Single => self.with_entries(Seq::empty()),
                RegistryKind::Multi => self.with_entries(Self::behind(self.entries, 0)),
                RegistryKind::Dummy => self,
            }
        }
    }

    /// The entries that the cancellation of a waker wakes: the foremost one, unless
    /// it is that of the waker.
    pub open spec fn cancel_hits<P>(self, wakers: Map<u64, WakerInner<P>>, id: u64) -> Seq<u64> {
        if self.kind == RegistryKind::Multi && WakerInner::waits(wakers, id)
            && self.entries.len() > 0 && !WakerInner::is_own(
            wakers,
            self.entries[0],
            wakers[id].seq,
        ) {
            seq![self.entries[0]]
        } else {
            Seq::empty()
        }
    }

    /// The wakers after one of them was cancelled.
    pub open spec fn cancel_wakers<P>(self, wakers: Map<u64, WakerInner<P>>, id: u64) -> Map<
        u64,
        WakerInner<P>,
    > {
        if self.kind == RegistryKind::Dummy {
            wakers
        } else {
            Self::moved_all(
                self.cancel_hits(wakers, id),
                WakerInner::after_move(wakers, id, WakerState::CLOSED),
                WakerState::WAKED,
            )
        }
    }

    /// The targets that the cancellation of a waker wakes.
    pub open spec fn cancel_targets<P>(self, wakers: Map<u64, WakerInner<P>>, id: u64) -> Seq<
        WakerType,
    > {
        Self::targets(
            self.cancel_hits(wakers, id),
            WakerInner::after_move(wakers, id, WakerState::CLOSED),
            WakerState::WAKED,
        )
    }

    /// The entries that closing the registry wakes.
    pub open spec fn close_hits<P>(self, wakers: Map<u64, WakerInner<P>>) -> Seq<u64> {
        match self.kind {
            RegistryKind::Single => self.fire_hits(wakers),
            RegistryKind::Multi => self.entries,
            RegistryKind::Dummy => Seq::empty(),
        }
    }

    /// The registry after it was closed.
    pub open spec fn closed(self) -> RegistryView {
        if self.kind == RegistryKind::Dummy {
            self
        } else {
            self.with_entries(Seq::empty())
        }
    }

    /// The foremost waker that exists, if there is one.
    pub open spec fn next_live<P>(self, wakers: Map<u64, WakerInner<P>>) -> Option<u64> {
        let k = Self::first_index(self.entries, Self::lives_in(wakers));
        if k < self.entries.len() {
            Some(self.entries[k as int])
        } else {
            None
        }
    }

    /// The registry after the foremost waker that exists was taken out, with all
    /// entries ahead of it.
    pub open spec fn popped<P>(self, wakers: Map<u64, WakerInner<P>>) -> RegistryView {
        self.with_entries(
            Self::behind(self.entries, Self::first_index(self.entries, Self::lives_in(wakers))),
        )
    }

    /// The registry after a waker asked to be registered: one that does not wait
    /// yet, and can, is queued.
    pub open spec fn registered<P>(self, wakers: Map<u64, WakerInner<P>>, id: u64) -> RegistryView {
        if wakers[id].state == WakerState::WAKED.code() {
            self.with_waker(id)
        } else {
            self
        }
    }

    /// The wakers after one of them asked to be registered.
    pub open spec fn registered_wakers<P>(self, wakers: Map<u64, WakerInner<P>>, id: u64) -> Map<
        u64,
        WakerInner<P>,
    > {
        if wakers[id].state == WakerState::WAKED.code() {
            self.numbered(wakers.insert(id, wakers[id].with_state(WakerState::WAITING)), id)
        } else {
            wakers
        }
    }

    /// What a waker in that state is told when it asks to be registered: whether
    /// it waits now; if it cannot, its state.
    pub open spec fn registration(state: u8) -> Result<(), u8> {
        if state <= WakerState::WAKED.code() {
            Ok(())
        } else {
            Err(state)
        }
    }

    /// The registry after a waker whose wait is over was withdrawn. Only a single
    /// waker is: among several the entry is left to whoever meets it.
    pub open spec fn withdrawn(self, id: u64) -> RegistryView {
        if self.kind == RegistryKind::Single && self.entries == seq![id] {
            self.with_entries(Seq::empty())
        } else {
            self
        }
    }

    /// How many wakers are queued.
    pub open spec fn reported_len(self) -> nat {
        self.entries.len()
    }
}

pub(crate) proof fn lemma_first_index(entries: Seq<u64>, stop: spec_fn(u64) -> bool)
    ensures
        RegistryView::first_index(entries, stop) <= entries.len(),
        RegistryView::first_index(entries, stop) < entries.len() ==> stop(
            entries[RegistryView::first_index(entries, stop) as int],
        ),
        forall|j: int|
            0 <= j < RegistryView::first_index(entries, stop) ==> !stop(#[trigger] entries[j]),
    decreases entries.len(),
{
    if entries.len() > 0 && !stop(entries[0]) {
        let rest = entries.drop_first();
        lemma_first_index(rest, stop);
        assert forall|j: int|
            0 <= j < RegistryView::first_index(entries, stop) implies !stop(#[trigger] entries[j]) by {
            if j > 0 {
                assert(entries[j] == rest[j - 1]);
            }
        }
    }
}

/// Two searches that accept the same numbers end at the same entry.
pub(crate) proof fn lemma_first_index_same(
    entries: Seq<u64>,
    stop1: spec_fn(u64) -> bool,
    stop2: spec_fn(u64) -> bool,
)
    requires
        forall|id: u64| #[trigger] stop1(id) == stop2(id),
    ensures
        RegistryView::first_index(entries, stop1) == RegistryView::first_index(entries, stop2),
    decreases entries.len(),
{
    if entries.len() > 0 {
        lemma_first_index_same(entries.drop_first(), stop1, stop2);
    }
}

/// A search may start behind entries that it passes over.
pub(crate) proof fn lemma_first_index_skip(
    entries: Seq<u64>,
    stop: spec_fn(u64) -> bool,
    n: nat,
)
    requires
        n <= entries.len(),
        forall|j: int| 0 <= j < n ==> !stop(#[trigger] entries[j]),
    ensures
        RegistryView::first_index(entries, stop) == n + RegistryView::first_index(
            entries.skip(n as int),
            stop,
        ),
    decreases n,
{
    if n == 0 {
        assert(entries.skip(0) =~= entries);
    } else {
        let rest = entries.drop_first();
        assert(!stop(entries[0]));
        assert forall|j: int| 0 <= j < n - 1 implies !stop(#[trigger] rest[j]) by {
            assert(rest[j] == entries[j + 1]);
        }
        lemma_first_index_skip(rest, stop, (n - 1) as nat);
        assert(rest.skip(n - 1) =~= entries.skip(n as int));
    }
}

/// Taking out the foremost waker that exists, if it does not wait, leaves the
/// foremost that does, and all behind it, where they are.
pub(crate) proof fn lemma_pop_step<P>(registry: RegistryView, wakers: Map<u64, WakerInner<P>>)
    ensures
        ({
            let entries = registry.entries;
            let rest = registry.popped(wakers).entries;
            let waits = RegistryView::waits_in(wakers);
            let k = RegistryView::first_index(entries, waits);
            match registry.next_live(wakers) {
                None => k == entries.len(),
                Some(id) => if WakerInner::waits(wakers, id) {
                    &&& k < entries.len()
                    &&& entries[k as int] == id
                    &&& RegistryView::behind(entries, k) == rest
                } else {
                    let j = RegistryView::first_index(rest, waits);
                    &&& RegistryView::behind(entries, k) == RegistryView::behind(rest, j)
                    &&& k < entries.len() <==> j < rest.len()
                    &&& k < entries.len() ==> entries[k as int] == rest[j as int]
                },
            }
        }),
        registry.next_live(wakers) is Some ==> wakers.contains_key(registry.next_live(wakers)->0)
            && registry.popped(wakers).entries.len() < registry.entries.len(),
{
    let entries = registry.entries;
    let lives = RegistryView::lives_in(wakers);
    let waits = RegistryView::waits_in(wakers);
    let l = RegistryView::first_index(entries, lives);
    lemma_first_index(entries, lives);
    lemma_first_index(entries, waits);
    assert forall|j: int| 0 <= j < l implies !waits(#[trigger] entries[j]) by {
        assert(!lives(entries[j]));
    }
    lemma_first_index_skip(entries, waits, l);
    if l < entries.len() && !waits(entries[l as int]) {
        lemma_first_index_skip(entries, waits, l + 1);
        let k = RegistryView::first_index(entries, waits);
        let rest = entries.skip(l as int + 1);
        let j = RegistryView::first_index(rest, waits);
        assert(k == l + 1 + j);
        assert(RegistryView::behind(entries, k) =~= RegistryView::behind(rest, j));
    }
}

/// Wakers that are gone make no difference to moving all on.
pub(crate) proof fn lemma_moved_skip<P>(
    entries: Seq<u64>,
    wakers: Map<u64, WakerInner<P>>,
    state: WakerState,
    n: nat,
)
    requires
        n <= entries.len(),
        forall|j: int| 0 <= j < n ==> !wakers.contains_key(#[trigger] entries[j]),
        state != WakerState::WAITING,
    ensures
        RegistryView::moved_all(entries, wakers, state) == RegistryView::moved_all(
            entries.skip(n as int),
            wakers,
            state,
        ),
        RegistryView::targets(entries, wakers, state) == RegistryView::targets(
            entries.skip(n as int),
            wakers,
            state,
        ),
    decreases n,
{
    if n == 0 {
        assert(entries.skip(0) =~= entries);
    } else {
        let rest = entries.drop_first();
        assert(!wakers.contains_key(entries[0]));
        assert forall|j: int| 0 <= j < n - 1 implies !wakers.contains_key(#[trigger] rest[j]) by {
            assert(rest[j] == entries[j + 1]);
        }
        lemma_moved_skip(rest, wakers, state, (n - 1) as nat);
        assert(rest.skip(n - 1) =~= entries.skip(n as int));
        lemma_moved_step(entries, wakers, state);
        assert(RegistryView::targets(entries, wakers, state) =~= RegistryView::targets(
            rest,
            wakers,
            state,
        ));
    }
}

/// Taking out the foremost waker that exists and moving it on leaves the same to
/// be moved on.
pub(crate) proof fn lemma_pop_move<P>(
    registry: RegistryView,
    wakers: Map<u64, WakerInner<P>>,
    state: WakerState,
)
    requires
        state != WakerState::WAITING,
    ensures
        ({
            let rest = registry.popped(wakers).entries;
            match registry.next_live(wakers) {
                Some(id) => {
                    let moved = WakerInner::after_move(wakers, id, state);
                    &&& RegistryView::moved_all(registry.entries, wakers, state)
                        == RegistryView::moved_all(rest, moved, state)
                    &&& RegistryView::targets(registry.entries, wakers, state)
                        == WakerInner::target_of(wakers, id) + RegistryView::targets(
                        rest,
                        moved,
                        state,
                    )
                },
                None => {
                    &&& RegistryView::moved_all(registry.entries, wakers, state) == wakers
                    &&& RegistryView::targets(registry.entries, wakers, state) == Seq::<
                        WakerType,
                    >::empty()
                },
            }
        }),
{
    let entries = registry.entries;
    let lives = RegistryView::lives_in(wakers);
    let l = RegistryView::first_index(entries, lives);
    lemma_first_index(entries, lives);
    assert forall|j: int| 0 <= j < l implies !wakers.contains_key(#[trigger] entries[j]) by {
        assert(!lives(entries[j]));
    }
    lemma_moved_skip(entries, wakers, state, l);
    let met = entries.skip(l as int);
    if l < entries.len() {
        assert(met[0] == entries[l as int]);
        assert(met.drop_first() =~= entries.skip(l as int + 1));
        lemma_moved_step(met, wakers, state);
    } else {
        assert(met =~= Seq::empty());
        lemma_moved_none(wakers, state);
    }
}

/// What is behind an entry is found alike after the entries in front of it are gone.
pub(crate) proof fn lemma_behind_drop(entries: Seq<u64>, k: nat)
    requires
        entries.len() > 0,
        k > 0,
    ensures
        RegistryView::behind(entries, k) == RegistryView::behind(
            entries.drop_first(),
            (k - 1) as nat,
        ),
{
    assert(RegistryView::behind(entries, k) =~= RegistryView::behind(
        entries.drop_first(),
        (k - 1) as nat,
    ));
}

pub(crate) proof fn lemma_moved_none<P>(wakers: Map<u64, WakerInner<P>>, state: WakerState)
    ensures
        RegistryView::moved_all(Seq::empty(), wakers, state) == wakers,
{
    assert(RegistryView::moved_all(Seq::empty(), wakers, state) =~= wakers);
}

pub(crate) proof fn lemma_moved_one<P>(id: u64, wakers: Map<u64, WakerInner<P>>, state: WakerState)
    ensures
        RegistryView::moved_all(seq![id], wakers, state) == WakerInner::after_move(
            wakers,
            id,
            state,
        ),
        RegistryView::targets(seq![id], wakers, state) == WakerInner::target_of(wakers, id),
{
    assert(seq![id][0] == id);
    assert(RegistryView::moved_all(seq![id], wakers, state) =~= WakerInner::after_move(
        wakers,
        id,
        state,
    ));
    reveal_with_fuel(RegistryView::targets, 2);
    assert(RegistryView::targets(seq![id], wakers, state) =~= WakerInner::target_of(wakers, id));
}

/// To move all wakers on is to move the first one on, and then the others.
pub(crate) proof fn lemma_moved_step<P>(
    entries: Seq<u64>,
    wakers: Map<u64, WakerInner<P>>,
    state: WakerState,
)
    requires
        entries.len() > 0,
        state != WakerState::WAITING,
    ensures
        RegistryView::moved_all(entries, wakers, state) == RegistryView::moved_all(
            entries.drop_first(),
            WakerInner::after_move(wakers, entries[0], state),
            state,
        ),
{
    let rest = entries.drop_first();
    let moved = WakerInner::after_move(wakers, entries[0], state);
    let left = RegistryView::moved_all(entries, wakers, state);
    let right = RegistryView::moved_all(rest, moved, state);
    assert forall|id: u64| entries.contains(id) == (id == entries[0] || rest.contains(id)) by {
        if entries.contains(id) {
            let i = choose|i: int| 0 <= i < entries.len() && entries[i] == id;
            if i > 0 {
                assert(rest[i - 1] == id);
            }
        }
        if rest.contains(id) {
            let i = choose|i: int| 0 <= i < rest.len() && rest[i] == id;
            assert(entries[i + 1] == id);
        }
    }
    assert(left =~= right);
}

/// Moving wakers on leaves them unlocked.
pub(crate) proof fn lemma_moved_unlocked<P>(
    entries: Seq<u64>,
    wakers: Map<u64, WakerInner<P>>,
    state: WakerState,
)
    requires
        WakerInner::all_unlocked(wakers),
    ensures
        WakerInner::all_unlocked(RegistryView::moved_all(entries, wakers, state)),
{
    let moved = RegistryView::moved_all(entries, wakers, state);
    assert forall|id: u64| #[trigger] moved.contains_key(id) implies !moved[id].locked by {
        assert(wakers.contains_key(id));
    }
}

/// Where no waker is locked, everybody can be woken.
pub(crate) proof fn lemma_can_wake_all<P>(entries: Seq<u64>, wakers: Map<u64, WakerInner<P>>)
    requires
        WakerInner::all_unlocked(wakers),
    ensures
        RegistryView::can_wake(entries, wakers),
{
    assert forall|id: u64| entries.contains(id) && #[trigger] WakerInner::waits(wakers, id) implies
        wakers[id].wakeable() by {
        assert(wakers.contains_key(id));
    }
}

/// If all can be woken, the first one can, and then the others.
pub(crate) proof fn lemma_can_wake_step<P>(
    entries: Seq<u64>,
    wakers: Map<u64, WakerInner<P>>,
    state: WakerState,
)
    requires
        entries.len() > 0,
        state != WakerState::WAITING,
        RegistryView::can_wake(entries, wakers),
    ensures
        WakerInner::waits(wakers, entries[0]) ==> wakers[entries[0]].wakeable(),
        RegistryView::can_wake(
            entries.drop_first(),
            WakerInner::after_move(wakers, entries[0], state),
        ),
{
    let rest = entries.drop_first();
    let moved = WakerInner::after_move(wakers, entries[0], state);
    assert(entries.contains(entries[0]));
    assert forall|id: u64| rest.contains(id) && #[trigger] WakerInner::waits(moved, id) implies
        moved[id].wakeable() by {
        let i = choose|i: int| 0 <= i < rest.len() && rest[i] == id;
        assert(entries[i + 1] == id);
        assert(WakerInner::waits(wakers, id));
    }
}

/// If all can be woken, those behind an entry can, also after that was moved on.
pub(crate) proof fn lemma_can_wake_behind<P>(
    entries: Seq<u64>,
    wakers: Map<u64, WakerInner<P>>,
    k: nat,
    id: u64,
    state: WakerState,
)
    requires
        state != WakerState::WAITING,
        RegistryView::can_wake(entries, wakers),
    ensures
        RegistryView::can_wake(
            RegistryView::behind(entries, k),
            WakerInner::after_move(wakers, id, state),
        ),
{
    let rest = RegistryView::behind(entries, k);
    let moved = WakerInner::after_move(wakers, id, state);
    assert forall|other: u64|
        rest.contains(other) && #[trigger] WakerInner::waits(moved, other) implies
        moved[other].wakeable() by {
        let i = choose|i: int| 0 <= i < rest.len() && rest[i] == other;
        assert(entries[i + k + 1] == other);
        assert(WakerInner::waits(wakers, other));
    }
}

/// To clear a registry whose foremost entry does not stop it is to wake that
/// entry, and to clear the others.
pub(crate) proof fn lemma_clear_step<P>(
    registry: RegistryView,
    wakers: Map<u64, WakerInner<P>>,
    seq: usize,
)
    requires
        registry.kind == RegistryKind::Multi,
        !registry.checking,
        registry.entries.len() > 0,
        !WakerInner::stops_clearing(wakers, registry.entries[0], seq),
    ensures
        ({
            let first = registry.entries[0];
            let rest = registry.with_entries(registry.entries.drop_first());
            let moved = WakerInner::after_move(wakers, first, WakerState::WAKED);
            &&& registry.cleared(wakers, seq) == rest.cleared(moved, seq)
            &&& registry.clear_hits(wakers, seq).len() > 0
            &&& registry.clear_hits(wakers, seq)[0] == first
            &&& registry.clear_hits(wakers, seq).drop_first() == rest.clear_hits(moved, seq)
            &&& RegistryView::moved_all(
                registry.clear_hits(wakers, seq),
                wakers,
                WakerState::WAKED,
            ) == RegistryView::moved_all(rest.clear_hits(moved, seq), moved, WakerState::WAKED)
            &&& RegistryView::targets(registry.clear_hits(wakers, seq), wakers, WakerState::WAKED)
                == WakerInner::target_of(wakers, first) + RegistryView::targets(
                rest.clear_hits(moved, seq),
                moved,
                WakerState::WAKED,
            )
        }),
{
    let first = registry.entries[0];
    let rest = registry.with_entries(registry.entries.drop_first());
    let moved = WakerInner::after_move(wakers, first, WakerState::WAKED);
    lemma_first_index_same(
        rest.entries,
        RegistryView::stops_in(wakers, seq),
        RegistryView::stops_in(moved, seq),
    );
    let k = registry.clear_index(wakers, seq);
    lemma_first_index(registry.entries, RegistryView::stops_in(wakers, seq));
    assert(k == 1 + rest.clear_index(moved, seq));
    lemma_behind_drop(registry.entries, k);
    let hits = registry.clear_hits(wakers, seq);
    if k < registry.entries.len() {
        assert(registry.entries[k as int] == rest.entries[k - 1]);
    }
    assert(hits.len() > 0 && hits[0] == first);
    assert(hits.drop_first() =~= rest.clear_hits(moved, seq));
    lemma_moved_step(hits, wakers, WakerState::WAKED);
}

/// A search for somebody to wake goes on past an entry at which it does not end.
pub(crate) proof fn lemma_fire_step<P>(registry: RegistryView, wakers: Map<u64, WakerInner<P>>)
    requires
        registry.kind == RegistryKind::Multi,
        registry.entries.len() > 0,
        !RegistryView::fires_in(wakers, RegistryView::wrapping_prev(registry.next_seq))(
            registry.entries[0],
        ),
    ensures
        ({
            let rest = registry.with_entries(registry.entries.drop_first());
            &&& registry.fired(wakers) == rest.fired(wakers)
            &&& registry.fire_hits(wakers) == rest.fire_hits(wakers)
        }),
{
    let k = registry.fire_index(wakers);
    lemma_behind_drop(registry.entries, k);
}

/// A registry of one side's wakers.
pub trait RegistryTrait {
    spec fn registry(&self) -> RegistryView;

    /// Queues a waker.
    fn reg_waker<W: WakerTrait>(&mut self, waker: &W, wakers: &mut WakerTable<W::Payload>)
        requires
            old(self).registry().kind != RegistryKind::Dummy,
            old(wakers).wf(),
            old(wakers)@.contains_key(waker.key()),
        ensures
            final(self).registry() == old(self).registry().with_waker(waker.key()),
            final(wakers).wf(),
            final(wakers).next_id() == old(wakers).next_id(),
            final(wakers)@ == old(self).registry().numbered(old(wakers)@, waker.key()),
    ;

    /// Clears entries of wakers that are gone, up to that of the waker with the
    /// sequence number, whose owner gave up. Others that are met on the way are woken.
    fn clear_wakers<W: WakerTrait>(
        &mut self,
        seq: usize,
        wakers: &mut WakerTable<W::Payload>,
        wakes: &mut Vec<WakerType>,
    )
        requires
            old(wakers).wf(),
            RegistryView::can_wake(
                old(self).registry().clear_hits(old(wakers)@, seq),
                old(wakers)@,
            ),
        ensures
            final(self).registry() == old(self).registry().cleared(old(wakers)@, seq),
            final(wakers).wf(),
            final(wakers).next_id() == old(wakers).next_id(),
            final(wakers)@ == RegistryView::moved_all(
                old(self).registry().clear_hits(old(wakers)@, seq),
                old(wakers)@,
                WakerState::WAKED,
            ),
            final(wakes)@ == old(wakes)@ + RegistryView::targets(
                old(self).registry().clear_hits(old(wakers)@, seq),
                old(wakers)@,
                WakerState::WAKED,
            ),
    ;

    /// Has a waiting owner give up, and clears an entry for it: at most the
    /// foremost one, the rest is left to whoever wakes next.
    fn cancel_waker<W: WakerTrait>(
        &mut self,
        waker: &W,
        wakers: &mut WakerTable<W::Payload>,
        wakes: &mut Vec<WakerType>,
    )
        requires
            old(wakers).wf(),
            RegistryView::can_wake(
                old(self).registry().cancel_hits(old(wakers)@, waker.key()),
                old(wakers)@,
            ),
            old(wakers)@.contains_key(waker.key()),
        ensures
            final(self).registry() == old(self).registry().cancelled(old(wakers)@, waker.key()),
            final(wakers).wf(),
            final(wakers).next_id() == old(wakers).next_id(),
            final(wakers)@ == old(self).registry().cancel_wakers(old(wakers)@, waker.key()),
            final(wakes)@ == old(wakes)@ + old(self).registry().cancel_targets(
                old(wakers)@,
                waker.key(),
            ),
    ;

    /// Wakes the foremost owner that waits. The search ends early at a waker that
    /// was the last to register, so that one that always registers again does
    /// not keep it going.
    fn fire<W: WakerTrait>(
        &mut self,
        wakers: &mut WakerTable<W::Payload>,
        wakes: &mut Vec<WakerType>,
    )
        requires
            old(wakers).wf(),
            RegistryView::can_wake(old(self).registry().fire_hits(old(wakers)@), old(wakers)@),
        ensures
            final(self).registry() == old(self).registry().fired(old(wakers)@),
            final(wakers).wf(),
            final(wakers).next_id() == old(wakers).next_id(),
            final(wakers)@ == RegistryView::moved_all(
                old(self).registry().fire_hits(old(wakers)@),
                old(wakers)@,
                WakerState::WAKED,
            ),
            final(wakes)@ == old(wakes)@ + RegistryView::targets(
                old(self).registry().fire_hits(old(wakers)@),
                old(wakers)@,
                WakerState::WAKED,
            ),
    ;

    /// Wakes everybody.
    fn close<W: WakerTrait>(
        &mut self,
        wakers: &mut WakerTable<W::Payload>,
        wakes: &mut Vec<WakerType>,
    )
        requires
            old(wakers).wf(),
            RegistryView::can_wake(old(self).registry().close_hits(old(wakers)@), old(wakers)@),
        ensures
            final(self).registry() == old(self).registry().closed(),
            final(wakers).wf(),
            final(wakers).next_id() == old(wakers).next_id(),
            final(wakers)@ == RegistryView::moved_all(
                old(self).registry().close_hits(old(wakers)@),
                old(wakers)@,
                WakerState::WAKED,
            ),
            final(wakes)@ == old(wakes)@ + RegistryView::targets(
                old(self).registry().close_hits(old(wakers)@),
                old(wakers)@,
                WakerState::WAKED,
            ),
    ;

    /// The number of wakers that are queued.
    fn len(&self) -> (len: usize)
        ensures
            len == self.registry().reported_len(),
    ;
}

/// The registry of a side that never waits, such as the senders of an unbounded channel.
pub struct RegistryDummy();

impl RegistryDummy {
    pub fn new() -> (registry: Registry)
        ensures
            registry is Dummy,
            registry.registry() == RegistryView::empty(RegistryKind::Dummy),
    {
        Registry::Dummy(RegistryDummy())
    }
}

impl RegistryTrait for RegistryDummy {
    open spec fn registry(&self) -> RegistryView {
        RegistryView::empty(RegistryKind::Dummy)
    }

    /// Never called: who never waits has no waker to register.
    fn reg_waker<W: WakerTrait>(&mut self, waker: &W, wakers: &mut WakerTable<W::Payload>) {
    }

    fn clear_wakers<W: WakerTrait>(
        &mut self,
        seq: usize,
        wakers: &mut WakerTable<W::Payload>,
        wakes: &mut Vec<WakerType>,
    ) {
        proof {
            lemma_moved_none(wakers@, WakerState::WAKED);
        }
    }

    fn cancel_waker<W: WakerTrait>(
        &mut self,
        waker: &W,
        wakers: &mut WakerTable<W::Payload>,
        wakes: &mut Vec<WakerType>,
    ) {
    }

    fn fire<W: WakerTrait>(
        &mut self,
        wakers: &mut WakerTable<W::Payload>,
        wakes: &mut Vec<WakerType>,
    ) {
        proof {
            lemma_moved_none(wakers@, WakerState::WAKED);
        }
    }

    fn close<W: WakerTrait>(
        &mut self,
        wakers: &mut WakerTable<W::Payload>,
        wakes: &mut Vec<WakerType>,
    ) {
        proof {
            lemma_moved_none(wakers@, WakerState::WAKED);
        }
    }

    fn len(&self) -> (len: usize) {
        0
    }
}

/// The registry of a side with a single thread or task.
pub struct RegistrySingle {
    cell: Option<u64>,
}

impl RegistrySingle {
    pub fn new() -> (registry: Registry)
        ensures
            registry is Single,
            registry.registry() == RegistryView::empty(RegistryKind::Single),
    {
        Registry::Single(RegistrySingle { cell: None })
    }
}

impl RegistryTrait for RegistrySingle {
    closed spec fn registry(&self) -> RegistryView {
        RegistryView::empty(RegistryKind::Single).with_entries(
            match self.cell {
                Some(id) => seq![id],
                None => Seq::empty(),
            },
        )
    }

    fn reg_waker<W: WakerTrait>(&mut self, waker: &W, wakers: &mut WakerTable<W::Payload>) {
        self.cell = Some(waker.weak());
    }

    fn clear_wakers<W: WakerTrait>(
        &mut self,
        seq: usize,
        wakers: &mut WakerTable<W::Payload>,
        wakes: &mut Vec<WakerType>,
    ) {
        // It has to be that waker: there is only one.
        self.cell = None;
        proof {
            lemma_moved_none(wakers@, WakerState::WAKED);
        }
    }

    fn cancel_waker<W: WakerTrait>(
        &mut self,
        waker: &W,
        wakers: &mut WakerTable<W::Payload>,
        wakes: &mut Vec<WakerType>,
    ) {
        let id: u64 = waker.weak();
        let mut inner = wakers.take(id);
        let changed = inner.try_change_state(WakerState::WAITING, WakerState::CLOSED);
        wakers.put(id, inner);
        proof {
            assert(wakers@ =~= WakerInner::after_move(old(wakers)@, id, WakerState::CLOSED));
            lemma_moved_none(wakers@, WakerState::WAKED);
        }
        if changed.is_err() {
            return;
        }
        // It has to be that waker: there is only one.
        self.cell = None;
    }

    fn fire<W: WakerTrait>(
        &mut self,
        wakers: &mut WakerTable<W::Payload>,
        wakes: &mut Vec<WakerType>,
    ) {
        proof {
            reveal_with_fuel(RegistryView::first_index, 2);
            lemma_moved_none(wakers@, WakerState::WAKED);
        }
        if let Some(weak) = self.cell.take() {
            proof {
                lemma_moved_one(weak, wakers@, WakerState::WAKED);
                if wakers@.contains_key(weak) {
                    assert(old(self).registry().fire_hits(wakers@) =~= seq![weak]);
                    assert(seq![weak][0] == weak);
                }
            }
            crate::locked_waker::wake_weak(wakers, weak, wakes);
        }
    }

    fn close<W: WakerTrait>(
        &mut self,
        wakers: &mut WakerTable<W::Payload>,
        wakes: &mut Vec<WakerType>,
    ) {
        proof {
            lemma_first_index(self.registry().entries, RegistryView::lives_in(wakers@));
        }
        self.fire::<W>(wakers, wakes);
    }

    fn len(&self) -> (len: usize) {
        match self.cell {
            Some(_) => 1,
            None => 0,
        }
    }
}

/// The registry of a side with several threads or tasks.
pub struct RegistryMulti {
    queue: VecDeque<u64>,
    seq: usize,
    checking: bool,
}

impl RegistryMulti {
    pub fn new() -> (registry: Registry)
        ensures
            registry is Multi,
            registry.registry() == RegistryView::empty(RegistryKind::Multi),
    {
        Registry::Multi(
            RegistryMulti { queue: VecDeque::with_capacity(32), seq: 0, checking: false },
        )
    }
}

impl RegistryTrait for RegistryMulti {
    closed spec fn registry(&self) -> RegistryView {
        RegistryView {
            kind: RegistryKind::Multi,
            entries: self.queue@,
            next_seq: self.seq,
            checking: self.checking,
        }
    }

    fn reg_waker<W: WakerTrait>(&mut self, waker: &W, wakers: &mut WakerTable<W::Payload>) {
        let seq: usize = self.seq;
        self.seq = seq.wrapping_add(1);
        waker.set_seq(wakers, seq);
        self.queue.push_back(waker.weak());
    }

    fn cancel_waker<W: WakerTrait>(
        &mut self,
        waker: &W,
        wakers: &mut WakerTable<W::Payload>,
        wakes: &mut Vec<WakerType>,
    ) {
        let id: u64 = waker.weak();
        let mut inner = wakers.take(id);
        let changed = inner.try_change_state(WakerState::WAITING, WakerState::CLOSED);
        wakers.put(id, inner);
        let ghost given_up = wakers@;
        proof {
            assert(given_up =~= WakerInner::after_move(old(wakers)@, id, WakerState::CLOSED));
            lemma_moved_none(given_up, WakerState::WAKED);
        }
        if changed.is_err() {
            return;
        }
        let seq: usize = waker.get_seq(wakers);
        if let Some(weak) = self.queue.pop_front() {
            proof {
                lemma_moved_one(weak, given_up, WakerState::WAKED);
                assert(self.queue@ =~= RegistryView::behind(old(self).queue@, 0));
                if WakerInner::waits(given_up, weak) && !WakerInner::is_own(given_up, weak, seq) {
                    assert(WakerInner::waits(old(wakers)@, weak));
                    assert(seq![weak][0] == weak);
                }
            }
            // The rest is left to whoever wakes next: one entry at most is tried.
            W::try_to_clear(wakers, weak, seq, wakes);
        } else {
            assert(RegistryView::behind(old(self).queue@, 0) =~= old(self).queue@);
        }
    }

    fn clear_wakers<W: WakerTrait>(
        &mut self,
        seq: usize,
        wakers: &mut WakerTable<W::Payload>,
        wakes: &mut Vec<WakerType>,
    ) {
        let ghost before = self.registry();
        if self.checking {
            // Somebody else is clearing.
            proof {
                lemma_moved_none(wakers@, WakerState::WAKED);
            }
            return;
        }
        self.checking = true;
        loop
            invariant_except_break
                before.kind == RegistryKind::Multi,
                !before.checking,
                self.checking,
                self.seq == before.next_seq,
                wakers.wf(),
                wakers.next_id() == old(wakers).next_id(),
                RegistryView::can_wake(
                    before.with_entries(self.queue@).clear_hits(wakers@, seq),
                    wakers@,
                ),
                before.with_entries(self.queue@).cleared(wakers@, seq) == before.cleared(
                    old(wakers)@,
                    seq,
                ),
                RegistryView::moved_all(
                    before.with_entries(self.queue@).clear_hits(wakers@, seq),
                    wakers@,
                    WakerState::WAKED,
                ) == RegistryView::moved_all(
                    before.clear_hits(old(wakers)@, seq),
                    old(wakers)@,
                    WakerState::WAKED,
                ),
                wakes@ + RegistryView::targets(
                    before.with_entries(self.queue@).clear_hits(wakers@, seq),
                    wakers@,
                    WakerState::WAKED,
                ) == old(wakes)@ + RegistryView::targets(
                    before.clear_hits(old(wakers)@, seq),
                    old(wakers)@,
                    WakerState::WAKED,
                ),
            ensures
                self.seq == before.next_seq,
                wakers.wf(),
                wakers.next_id() == old(wakers).next_id(),
                self.queue@ == before.cleared(old(wakers)@, seq).entries,
                wakers@ == RegistryView::moved_all(
                    before.clear_hits(old(wakers)@, seq),
                    old(wakers)@,
                    WakerState::WAKED,
                ),
                wakes@ == old(wakes)@ + RegistryView::targets(
                    before.clear_hits(old(wakers)@, seq),
                    old(wakers)@,
                    WakerState::WAKED,
                ),
            decreases self.queue@.len(),
        {
            let ghost registry = before.with_entries(self.queue@);
            let ghost met = wakers@;
            match self.queue.pop_front() {
                Some(weak) => {
                    proof {
                        assert(self.queue@ =~= registry.entries.drop_first());
                        lemma_moved_none(met, WakerState::WAKED);
                        lemma_moved_one(weak, met, WakerState::WAKED);
                        if !WakerInner::stops_clearing(met, weak, seq) {
                            lemma_clear_step(registry, met, seq);
                            lemma_can_wake_step(
                                registry.clear_hits(met, seq),
                                met,
                                WakerState::WAKED,
                            );
                        } else {
                            assert(registry.clear_index(met, seq) == 0);
                            assert(registry.entries.take(0) =~= Seq::empty());
                            assert(registry.entries.take(1) =~= seq![weak]);
                            assert(seq![weak][0] == weak);
                            assert(RegistryView::behind(registry.entries, 0) =~= self.queue@);
                        }
                    }
                    if W::try_to_clear(wakers, weak, seq, wakes) {
                        break;
                    }
                },
                None => {
                    proof {
                        lemma_moved_none(met, WakerState::WAKED);
                        assert(registry.entries =~= Seq::empty());
                        assert(self.queue@ =~= Seq::empty());
                    }
                    break;
                },
            }
        }
        self.checking = false;
    }

    fn fire<W: WakerTrait>(
        &mut self,
        wakers: &mut WakerTable<W::Payload>,
        wakes: &mut Vec<WakerType>,
    ) {
        let seq: usize = self.seq.wrapping_sub(1);
        let ghost before = self.registry();
        proof {
            lemma_moved_none(wakers@, WakerState::WAKED);
        }
        while self.queue.len() > 0
            invariant
                before == old(self).registry(),
                before.kind == RegistryKind::Multi,
                self.registry() == before.with_entries(self.queue@),
                seq == RegistryView::wrapping_prev(before.next_seq),
                wakers.wf(),
                wakers.next_id() == old(wakers).next_id(),
                wakers@ == old(wakers)@,
                wakes@ == old(wakes)@,
                RegistryView::can_wake(before.fire_hits(wakers@), wakers@),
                self.registry().fired(wakers@) == before.fired(wakers@),
                self.registry().fire_hits(wakers@) == before.fire_hits(wakers@),
                RegistryView::moved_all(Seq::empty(), wakers@, WakerState::WAKED) == wakers@,
            decreases self.queue@.len(),
        {
            let ghost registry = self.registry();
            if let Some(weak) = self.queue.pop_front() {
                proof {
                    assert(self.queue@ =~= registry.entries.drop_first());
                    if RegistryView::fires_in(wakers@, seq)(weak) {
                        assert(registry.fire_index(wakers@) == 0);
                        assert(self.queue@ =~= RegistryView::behind(registry.entries, 0));
                        assert(registry.fire_hits(wakers@) =~= seq![weak]);
                        assert(seq![weak][0] == weak);
                        lemma_moved_one(weak, wakers@, WakerState::WAKED);
                    } else {
                        lemma_fire_step(registry, wakers@);
                    }
                }
                if wakers.contains(weak) {
                    let waker = W::from_id(weak);
                    if crate::locked_waker::wake_weak(wakers, weak, wakes) {
                        return;
                    }
                    // The last waker to register has the latest sequence number. One
                    // that registers again whenever it is met would never let this end.
                    if waker.get_seq(wakers) >= seq {
                        return;
                    }
                }
            }
        }
        assert(self.queue@ =~= Seq::empty());
        assert(self.registry().fire_hits(wakers@) =~= Seq::empty());
    }

    fn close<W: WakerTrait>(
        &mut self,
        wakers: &mut WakerTable<W::Payload>,
        wakes: &mut Vec<WakerType>,
    ) {
        let ghost before = self.registry();
        while self.queue.len() > 0
            invariant
                before == old(self).registry(),
                self.registry() == before.with_entries(self.queue@),
                wakers.wf(),
                wakers.next_id() == old(wakers).next_id(),
                RegistryView::can_wake(self.queue@, wakers@),
                RegistryView::moved_all(self.queue@, wakers@, WakerState::WAKED)
                    == RegistryView::moved_all(before.entries, old(wakers)@, WakerState::WAKED),
                wakes@ + RegistryView::targets(self.queue@, wakers@, WakerState::WAKED) == old(
                    wakes,
                )@ + RegistryView::targets(before.entries, old(wakers)@, WakerState::WAKED),
            decreases self.queue@.len(),
        {
            let ghost entries = self.queue@;
            if let Some(weak) = self.queue.pop_front() {
                proof {
                    assert(self.queue@ =~= entries.drop_first());
                    lemma_moved_step(entries, wakers@, WakerState::WAKED);
                    lemma_can_wake_step(entries, wakers@, WakerState::WAKED);
                }
                crate::locked_waker::wake_weak(wakers, weak, wakes);
            }
        }
        proof {
            assert(self.queue@ =~= Seq::empty());
            lemma_moved_none(wakers@, WakerState::WAKED);
        }
    }

    fn len(&self) -> (len: usize) {
        self.queue.len()
    }
}

/// A registry of one kind or another.
pub enum Registry {
    Single(RegistrySingle),
    Multi(RegistryMulti),
    Dummy(RegistryDummy),
}

impl RegistryTrait for Registry {
    open spec fn registry(&self) -> RegistryView {
        match self {
            Registry::Single(r) => r.registry(),
            Registry::Multi(r) => r.registry(),
            Registry::Dummy(r) => r.registry(),
        }
    }

    fn reg_waker<W: WakerTrait>(&mut self, waker: &W, wakers: &mut WakerTable<W::Payload>) {
        match self {
            Registry::Single(r) => r.reg_waker(waker, wakers),
            Registry::Multi(r) => r.reg_waker(waker, wakers),
            Registry::Dummy(r) => r.reg_waker(waker, wakers),
        }
    }

    fn clear_wakers<W: WakerTrait>(
        &mut self,
        seq: usize,
        wakers: &mut WakerTable<W::Payload>,
        wakes: &mut Vec<WakerType>,
    ) {
        match self {
            Registry::Single(r) => r.clear_wakers::<W>(seq, wakers, wakes),
            Registry::Multi(r) => r.clear_wakers::<W>(seq, wakers, wakes),
            Registry::Dummy(r) => r.clear_wakers::<W>(seq, wakers, wakes),
        }
    }

    fn cancel_waker<W: WakerTrait>(
        &mut self,
        waker: &W,
        wakers: &mut WakerTable<W::Payload>,
        wakes: &mut Vec<WakerType>,
    ) {
        match self {
            Registry::Single(r) => r.cancel_waker(waker, wakers, wakes),
            Registry::Multi(r) => r.cancel_waker(waker, wakers, wakes),
            Registry::Dummy(r) => r.cancel_waker(waker, wakers, wakes),
        }
    }

    fn fire<W: WakerTrait>(
        &mut self,
        wakers: &mut WakerTable<W::Payload>,
        wakes: &mut Vec<WakerType>,
    ) {
        match self {
            Registry::Single(r) => r.fire::<W>(wakers, wakes),
            Registry::Multi(r) => r.fire::<W>(wakers, wakes),
            Registry::Dummy(r) => r.fire::<W>(wakers, wakes),
        }
    }

    fn close<W: WakerTrait>(
        &mut self,
        wakers: &mut WakerTable<W::Payload>,
        wakes: &mut Vec<WakerType>,
    ) {
        match self {
            Registry::Single(r) => r.close::<W>(wakers, wakes),
            Registry::Multi(r) => r.close::<W>(wakers, wakes),
            Registry::Dummy(r) => r.close::<W>(wakers, wakes),
        }
    }

    fn len(&self) -> (len: usize) {
        match self {
            Registry::Single(r) => r.len(),
            Registry::Multi(r) => r.len(),
            Registry::Dummy(r) => r.len(),
        }
    }
}

impl RegistryMulti {
    /// Takes out the foremost waker that exists.
    fn pop_live<P>(&mut self, wakers: &WakerTable<P>) -> (weak: Option<u64>)
        ensures
            weak == old(self).registry().next_live(wakers@),
            final(self).registry() == old(self).registry().popped(wakers@),
    {
        let ghost before = self.registry();
        while self.queue.len() > 0
            invariant
                before == old(self).registry(),
                self.registry() == before.with_entries(self.queue@),
                self.registry().next_live(wakers@) == before.next_live(wakers@),
                self.registry().popped(wakers@) == before.popped(wakers@),
            decreases self.queue@.len(),
        {
            let ghost registry = self.registry();
            if let Some(weak) = self.queue.pop_front() {
                proof {
                    assert(self.queue@ =~= registry.entries.drop_first());
                    let k = RegistryView::first_index(
                        registry.entries,
                        RegistryView::lives_in(wakers@),
                    );
                    if k == 0 {
                        assert(RegistryView::behind(registry.entries, 0) =~= self.queue@);
                    } else {
                        lemma_behind_drop(registry.entries, k);
                    }
                }
                if wakers.contains(weak) {
                    return Some(weak);
                }
            }
        }
        assert(self.queue@ =~= Seq::empty());
        None
    }

    /// Whether an entry refers to the waker.
    fn refers_to(&self, id: u64) -> (found: bool)
        ensures
            found == self.registry().entries.contains(id),
    {
        let mut i: usize = 0;
        while i < self.queue.len()
            invariant
                i <= self.queue@.len(),
                forall|j: int| 0 <= j < i ==> self.queue@[j] != id,
            decreases self.queue@.len() - i,
        {
            if self.queue[i] == id {
                assert(self.queue@[i as int] == id);
                return true;
            }
            i = i + 1;
        }
        false
    }
}

impl Registry {
    /// Takes out the foremost waker that exists, with all entries ahead of it.
    pub fn pop<W: WakerTrait>(&mut self, wakers: &WakerTable<W::Payload>) -> (waker: Option<W>)
        ensures
            final(self).registry() == old(self).registry().popped(wakers@),
            match waker {
                Some(w) => old(self).registry().next_live(wakers@) == Some(w.key()),
                None => old(self).registry().next_live(wakers@) is None,
            },
    {
        match self {
            Registry::Single(r) => {
                proof {
                    reveal_with_fuel(RegistryView::first_index, 2);
                }
                match r.cell.take() {
                    Some(weak) => {
                        if wakers.contains(weak) {
                            Some(W::from_id(weak))
                        } else {
                            None
                        }
                    },
                    None => None,
                }
            },
            Registry::Multi(r) => {
                match r.pop_live(wakers) {
                    Some(weak) => Some(W::from_id(weak)),
                    None => None,
                }
            },
            Registry::Dummy(_) => None,
        }
    }

    /// Registers a waker of a task that is about to wait. One that waits already
    /// stays where it is; one whose wait is over is not registered.
    pub fn reg_async<W: WakerTrait>(
        &mut self,
        waker: &W,
        wakers: &mut WakerTable<W::Payload>,
    ) -> (result: Result<(), u8>)
        requires
            old(self).registry().kind != RegistryKind::Dummy,
            old(wakers).wf(),
            old(wakers)@.contains_key(waker.key()),
        ensures
            result == RegistryView::registration(old(wakers)@[waker.key()].state),
            final(self).registry() == old(self).registry().registered(old(wakers)@, waker.key()),
            final(wakers).wf(),
            final(wakers).next_id() == old(wakers).next_id(),
            final(wakers)@ == old(self).registry().registered_wakers(old(wakers)@, waker.key()),
    {
        self.register(waker, wakers)
    }

    /// Registers a waker of a thread that is about to wait, as [`Registry::reg_async`] does.
    pub fn reg_blocking<W: WakerTrait>(
        &mut self,
        waker: &W,
        wakers: &mut WakerTable<W::Payload>,
    ) -> (result: Result<(), u8>)
        requires
            old(self).registry().kind != RegistryKind::Dummy,
            old(wakers).wf(),
            old(wakers)@.contains_key(waker.key()),
        ensures
            result == RegistryView::registration(old(wakers)@[waker.key()].state),
            final(self).registry() == old(self).registry().registered(old(wakers)@, waker.key()),
            final(wakers).wf(),
            final(wakers).next_id() == old(wakers).next_id(),
            final(wakers)@ == old(self).registry().registered_wakers(old(wakers)@, waker.key()),
    {
        self.register(waker, wakers)
    }

    fn register<W: WakerTrait>(
        &mut self,
        waker: &W,
        wakers: &mut WakerTable<W::Payload>,
    ) -> (result: Result<(), u8>)
        requires
            old(self).registry().kind != RegistryKind::Dummy,
            old(wakers).wf(),
            old(wakers)@.contains_key(waker.key()),
        ensures
            result == RegistryView::registration(old(wakers)@[waker.key()].state),
            final(self).registry() == old(self).registry().registered(old(wakers)@, waker.key()),
            final(wakers).wf(),
            final(wakers).next_id() == old(wakers).next_id(),
            final(wakers)@ == old(self).registry().registered_wakers(old(wakers)@, waker.key()),
    {
        let id: u64 = waker.weak();
        let mut inner = wakers.take(id);
        let changed = inner.try_change_state(WakerState::WAKED, WakerState::WAITING);
        wakers.put(id, inner);
        match changed {
            Ok(()) => {
                assert(wakers@ =~= old(wakers)@.insert(
                    id,
                    old(wakers)@[id].with_state(WakerState::WAITING),
                ));
                self.reg_waker(waker, wakers);
                Ok(())
            },
            Err(state) => {
                assert(wakers@ =~= old(wakers)@);
                if state == WakerState::WAITING.code() {
                    Ok(())
                } else {
                    Err(state)
                }
            },
        }
    }

    /// Withdraws a waker whose wait is over.
    pub fn withdraw<W: WakerTrait>(&mut self, waker: &W)
        ensures
            final(self).registry() == old(self).registry().withdrawn(waker.key()),
    {
        if let Registry::Single(r) = self {
            if let Some(weak) = r.cell {
                assert(r.registry().entries[0] == weak);
                if weak == waker.weak() {
                    r.cell = None;
                } else {
                    assert(seq![waker.key()][0] == waker.key());
                }
            }
        }
    }

    /// Whether no waker is queued.
    pub fn is_empty(&self) -> (empty: bool)
        ensures
            empty == (self.registry().reported_len() == 0),
    {
        self.len() == 0
    }

    /// Whether an entry refers to the waker.
    pub fn refers_to<W: WakerTrait>(&self, waker: &W) -> (found: bool)
        ensures
            found == self.registry().entries.contains(waker.key()),
    {
        match self {
            Registry::Single(r) => {
                match r.cell {
                    Some(weak) => {
                        assert(r.registry().entries[0] == weak);
                        weak == waker.weak()
                    },
                    None => false,
                }
            },
            Registry::Multi(r) => r.refers_to(waker.weak()),
            Registry::Dummy(_) => false,
        }
    }
}

} // verus!
