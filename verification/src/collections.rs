//! Containers that the channel keeps its wakers in.

use std::collections::HashMap;

use vstd::prelude::*;

use crate::locked_waker::WakerInner;

verus! {

/// The wakers of one side of a channel, by number. A waker is in the table from
/// its creation until its owner drops it. A number outlives its waker, as a weak
/// reference does: no two wakers of a table ever have the same number.
pub struct WakerTable<P> {
    wakers: HashMap<u64, WakerInner<P>>,
    next: u64,
}

impl<P> View for WakerTable<P> {
    type V = Map<u64, WakerInner<P>>;

    closed spec fn view(&self) -> Map<u64, WakerInner<P>> {
        self.wakers@
    }
}

impl<P> WakerTable<P> {
    /// The number that the next waker gets.
    pub closed spec fn next_id(self) -> u64 {
        self.next
    }

    /// Every waker's number was given out before.
    pub open spec fn wf(self) -> bool {
        forall|id: u64| #[trigger] self@.contains_key(id) ==> id < self.next_id()
    }

    pub fn new() -> (table: Self)
        ensures
            table.wf(),
            table@ == Map::<u64, WakerInner<P>>::empty(),
            table.next_id() == 0,
    {
        WakerTable { wakers: HashMap::new(), next: 0 }
    }

    /// Whether a further waker can be numbered.
    pub fn has_room(&self) -> (room: bool)
        ensures
            room == (self.next_id() < u64::MAX),
    {
        self.next < u64::MAX
    }

    /// Puts a new waker in, under a number of its own.
    pub fn add(&mut self, waker: WakerInner<P>) -> (id: u64)
        requires
            old(self).wf(),
            old(self).next_id() < u64::MAX,
        ensures
            final(self).wf(),
            id == old(self).next_id(),
            final(self).next_id() == id + 1,
            !old(self)@.contains_key(id),
            final(self)@ == old(self)@.insert(id, waker),
    {
        broadcast use vstd::std_specs::hash::group_hash_axioms;

        let id: u64 = self.next;
        self.wakers.insert(id, waker);
        self.next = id + 1;
        assert forall|k: u64| #[trigger] self@.contains_key(k) implies k < self.next_id() by {
            if k != id {
                assert(old(self)@.contains_key(k));
            }
        }
        id
    }

    /// Whether the waker of that number still exists.
    pub fn contains(&self, id: u64) -> (found: bool)
        ensures
            found == self@.contains_key(id),
    {
        broadcast use vstd::std_specs::hash::group_hash_axioms;

        self.wakers.contains_key(&id)
    }

    pub fn get(&self, id: u64) -> (waker: &WakerInner<P>)
        requires
            self@.contains_key(id),
        ensures
            *waker == self@[id],
    {
        broadcast use vstd::std_specs::hash::group_hash_axioms;

        self.wakers.get(&id).unwrap()
    }

    /// Takes a waker out, either for good or until it is put back.
    pub fn take(&mut self, id: u64) -> (waker: WakerInner<P>)
        requires
            old(self)@.contains_key(id),
        ensures
            old(self).wf() ==> final(self).wf(),
            final(self).next_id() == old(self).next_id(),
            waker == old(self)@[id],
            final(self)@ == old(self)@.remove(id),
    {
        broadcast use vstd::std_specs::hash::group_hash_axioms;

        self.wakers.remove(&id).unwrap()
    }

    /// Puts a waker back that was taken out.
    pub fn put(&mut self, id: u64, waker: WakerInner<P>)
        requires
            id < old(self).next_id(),
        ensures
            old(self).wf() ==> final(self).wf(),
            final(self).next_id() == old(self).next_id(),
            final(self)@ == old(self)@.insert(id, waker),
    {
        broadcast use vstd::std_specs::hash::group_hash_axioms;

        self.wakers.insert(id, waker);
        assert forall|k: u64| old(self).wf() && #[trigger] self@.contains_key(k) implies k
            < self.next_id() by {
            if k != id {
                assert(old(self)@.contains_key(k));
            }
        }
    }
}

} // verus!
