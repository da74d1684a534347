//! Message queues. The order of the messages is kept by the queues of the
//! `crossbeam_queue` crate, as slot numbers; the messages themselves are in
//! the slots.

use crossbeam_queue::{ArrayQueue, SegQueue};

use vstd::prelude::*;

verus! {

/// An unbounded queue of `crossbeam_queue`.
#[verifier::external_type_specification]
#[verifier::external_body]
#[verifier::reject_recursive_types(T)]
pub struct ExSegQueue<T>(crossbeam_queue::SegQueue<T>);

/// A bounded queue of `crossbeam_queue`.
#[verifier::external_type_specification]
#[verifier::external_body]
#[verifier::reject_recursive_types(T)]
pub struct ExArrayQueue<T>(crossbeam_queue::ArrayQueue<T>);

/// What an unbounded queue holds, the oldest first. The queues could be shared
/// between threads, but are not: whoever changes one has it to themselves, so
/// that what is read of it is exact.
pub uninterp spec fn list_items(queue: SegQueue<usize>) -> Seq<usize>;

/// What a bounded queue holds, the oldest first.
pub uninterp spec fn array_items(queue: ArrayQueue<usize>) -> Seq<usize>;

/// How many items a bounded queue was made for.
pub uninterp spec fn array_capacity(queue: ArrayQueue<usize>) -> usize;

/// Calls `SegQueue::new`: the queue is empty.
#[verifier::external_body]
fn list_new() -> (queue: SegQueue<usize>)
    ensures
        list_items(queue) == Seq::<usize>::empty(),
{
    SegQueue::new()
}

/// Calls `SegQueue::push`: the item is behind all others. The queue grows as needed.
#[verifier::external_body]
fn list_push(queue: &mut SegQueue<usize>, item: usize)
    ensures
        list_items(*final(queue)) == list_items(*old(queue)).push(item),
{
    queue.push(item)
}

/// Calls `SegQueue::pop`: the oldest item comes out; there is none only if the
/// queue is empty.
#[verifier::external_body]
fn list_pop(queue: &mut SegQueue<usize>) -> (item: Option<usize>)
    ensures
        match item {
            Some(i) => {
                &&& list_items(*old(queue)).len() > 0
                &&& i == list_items(*old(queue))[0]
                &&& list_items(*final(queue)) == list_items(*old(queue)).drop_first()
            },
            None => {
                &&& list_items(*old(queue)).len() == 0
                &&& list_items(*final(queue)) == list_items(*old(queue))
            },
        },
{
    queue.pop()
}

/// Calls `SegQueue::len`: the number of items.
#[verifier::external_body]
fn list_len(queue: &SegQueue<usize>) -> (len: usize)
    ensures
        len == list_items(*queue).len(),
{
    queue.len()
}

/// Calls `SegQueue::is_empty`.
#[verifier::external_body]
fn list_is_empty(queue: &SegQueue<usize>) -> (empty: bool)
    ensures
        empty == (list_items(*queue).len() == 0),
{
    queue.is_empty()
}

/// Whether a bounded queue can be made for so many items: for none it cannot,
/// and its buffer takes up to sixteen bytes for each.
pub open spec fn valid_capacity(capacity: usize) -> bool {
    0 < capacity && capacity * 16 <= isize::MAX
}

/// Calls `ArrayQueue::new`: the queue is empty, and has the capacity asked for.
/// It panics on a capacity of zero, and on one whose buffer is too large to
/// allocate.
#[verifier::external_body]
fn array_new(capacity: usize) -> (queue: ArrayQueue<usize>)
    requires
        valid_capacity(capacity),
    ensures
        array_items(queue) == Seq::<usize>::empty(),
        array_capacity(queue) == capacity,
{
    ArrayQueue::new(capacity)
}

/// Calls `ArrayQueue::push`: below the capacity the item is behind all others;
/// else it is given back.
#[verifier::external_body]
fn array_push(queue: &mut ArrayQueue<usize>, item: usize) -> (result: Result<(), usize>)
    ensures
        array_capacity(*final(queue)) == array_capacity(*old(queue)),
        match result {
            Ok(()) => {
                &&& array_items(*old(queue)).len() < array_capacity(*old(queue))
                &&& array_items(*final(queue)) == array_items(*old(queue)).push(item)
            },
            Err(i) => {
                &&& i == item
                &&& array_items(*old(queue)).len() >= array_capacity(*old(queue))
                &&& array_items(*final(queue)) == array_items(*old(queue))
            },
        },
{
    queue.push(item)
}

/// Calls `ArrayQueue::pop`: the oldest item comes out; there is none only if
/// the queue is empty.
#[verifier::external_body]
fn array_pop(queue: &mut ArrayQueue<usize>) -> (item: Option<usize>)
    ensures
        array_capacity(*final(queue)) == array_capacity(*old(queue)),
        match item {
            Some(i) => {
                &&& array_items(*old(queue)).len() > 0
                &&& i == array_items(*old(queue))[0]
                &&& array_items(*final(queue)) == array_items(*old(queue)).drop_first()
            },
            None => {
                &&& array_items(*old(queue)).len() == 0
                &&& array_items(*final(queue)) == array_items(*old(queue))
            },
        },
{
    queue.pop()
}

/// Calls `ArrayQueue::len`: the number of items.
#[verifier::external_body]
fn array_len(queue: &ArrayQueue<usize>) -> (len: usize)
    ensures
        len == array_items(*queue).len(),
{
    queue.len()
}

/// Calls `ArrayQueue::is_empty`.
#[verifier::external_body]
fn array_is_empty(queue: &ArrayQueue<usize>) -> (empty: bool)
    ensures
        empty == (array_items(*queue).len() == 0),
{
    queue.is_empty()
}

/// Calls `ArrayQueue::is_full`: there are as many items as the capacity allows.
#[verifier::external_body]
fn array_is_full(queue: &ArrayQueue<usize>) -> (full: bool)
    ensures
        full == (array_items(*queue).len() >= array_capacity(*queue)),
{
    queue.is_full()
}

/// Calls `ArrayQueue::capacity`: what the queue was made for.
#[verifier::external_body]
fn array_cap(queue: &ArrayQueue<usize>) -> (capacity: usize)
    ensures
        capacity == array_capacity(*queue),
{
    queue.capacity()
}

/// Numbered places for messages. A place that is given up is used again.
struct Slots<T> {
    slots: Vec<Option<T>>,
    free: Vec<usize>,
}

impl<T> Slots<T> {
    /// The slots hold a message for each number in `order`, and nothing else.
    spec fn holds(self, order: Seq<usize>) -> bool {
        &&& order.no_duplicates()
        &&& forall|i: int|
            0 <= i < order.len() ==> (#[trigger] order[i]) < self.slots@.len()
                && self.slots@[order[i] as int] is Some
        &&& self.free@.no_duplicates()
        &&& forall|i: int|
            0 <= i < self.free@.len() ==> (#[trigger] self.free@[i]) < self.slots@.len()
                && self.slots@[self.free@[i] as int] is None
        &&& order.len() + self.free@.len() == self.slots@.len()
    }

    /// The messages in the given order.
    spec fn contents(self, order: Seq<usize>) -> Seq<T> {
        Seq::new(order.len(), |i: int| self.slots@[order[i] as int]->0)
    }

    fn new() -> (slots: Self)
        ensures
            slots.holds(Seq::empty()),
            slots.contents(Seq::empty()) == Seq::<T>::empty(),
    {
        Slots { slots: Vec::new(), free: Vec::new() }
    }

    /// Stores a message behind all others.
    fn put(&mut self, item: T) -> (slot: usize)
        requires
            exists|order: Seq<usize>| old(self).holds(order),
        ensures
            forall|order: Seq<usize>| #[trigger]
                old(self).holds(order) ==> {
                    &&& final(self).holds(order.push(slot))
                    &&& final(self).contents(order.push(slot)) == old(self).contents(order).push(
                        item,
                    )
                },
    {
        let slot: usize = match self.free.pop() {
            Some(slot) => {
                assert(slot == old(self).free@[old(self).free@.len() - 1]);
                self.slots[slot] = Some(item);
                slot
            },
            None => {
                let slot: usize = self.slots.len();
                self.slots.push(Some(item));
                slot
            },
        };
        proof {
            assert forall|order: Seq<usize>| #[trigger] old(self).holds(order) implies self.holds(
                order.push(slot),
            ) && self.contents(order.push(slot)) == old(self).contents(order).push(item) by {
                let pushed = order.push(slot);
                let freed = old(self).free@;
                if freed.len() > 0 {
                    assert(slot == freed[freed.len() - 1]);
                    assert(old(self).slots@[slot as int] is None);
                    assert(self.slots@ == old(self).slots@.update(slot as int, Some(item)));
                    assert(self.free@ == freed.drop_last());
                    assert forall|i: int| 0 <= i < self.free@.len() implies (
                    #[trigger] self.free@[i]) < self.slots@.len()
                        && self.slots@[self.free@[i] as int] is None by {
                        assert(self.free@[i] == freed[i]);
                        assert(freed[i] != freed[freed.len() - 1]);
                    }
                } else {
                    assert(self.slots@ == old(self).slots@.push(Some(item)));
                }
                assert forall|i: int| 0 <= i < order.len() implies (#[trigger] order[i]) != slot
                    && self.slots@[order[i] as int] == old(self).slots@[order[i] as int] by {}
                assert forall|i: int, j: int|
                    0 <= i < pushed.len() && 0 <= j < pushed.len() && i != j implies pushed[i]
                    != pushed[j] by {
                    if i < order.len() {
                        assert(pushed[i] == order[i]);
                    }
                    if j < order.len() {
                        assert(pushed[j] == order[j]);
                    }
                }
                assert forall|i: int| 0 <= i < pushed.len() implies (#[trigger] pushed[i])
                    < self.slots@.len() && self.slots@[pushed[i] as int] is Some by {
                    if i < order.len() {
                        assert(pushed[i] == order[i]);
                    }
                }
                assert(self.contents(pushed) =~= old(self).contents(order).push(item));
            }
        }
        slot
    }

    /// Whether the slot has a message.
    spec fn occupied(self, slot: usize) -> bool {
        slot < self.slots@.len() && self.slots@[slot as int] is Some
    }

    /// Takes the oldest message out.
    fn take(&mut self, slot: usize) -> (item: T)
        requires
            old(self).occupied(slot),
        ensures
            forall|order: Seq<usize>| #[trigger]
                old(self).holds(order) && order.len() > 0 && order[0] == slot ==> {
                    &&& item == old(self).contents(order)[0]
                    &&& final(self).holds(order.drop_first())
                    &&& final(self).contents(order.drop_first()) == old(self).contents(
                        order,
                    ).drop_first()
                },
    {
        let taken = self.slots[slot].take();
        self.free.push(slot);
        proof {
            assert(self.slots@ == old(self).slots@.update(slot as int, None));
            assert forall|order: Seq<usize>| #[trigger]
                old(self).holds(order) && order.len() > 0 && order[0] == slot implies self.holds(
                order.drop_first(),
            ) && self.contents(order.drop_first()) == old(self).contents(order).drop_first() by {
                let rest = order.drop_first();
                assert forall|i: int| 0 <= i < rest.len() implies (#[trigger] rest[i]) != slot
                    && rest[i] == order[i + 1] by {
                    assert(order[i + 1] != order[0]);
                }
                assert forall|i: int| 0 <= i < self.free@.len() implies (#[trigger] self.free@[i])
                    < self.slots@.len() && self.slots@[self.free@[i] as int] is None by {
                    if i < old(self).free@.len() {
                        assert(self.free@[i] == old(self).free@[i]);
                    }
                }
                assert forall|i: int, j: int|
                    0 <= i < self.free@.len() && 0 <= j < self.free@.len() && i
                        != j implies self.free@[i] != self.free@[j] by {
                    if i < old(self).free@.len() {
                        assert(self.free@[i] == old(self).free@[i]);
                    }
                    if j < old(self).free@.len() {
                        assert(self.free@[j] == old(self).free@[j]);
                    }
                }
                assert(self.contents(rest) =~= old(self).contents(order).drop_first());
            }
        }
        taken.unwrap()
    }
}

/// An unbounded queue of messages.
#[verifier::reject_recursive_types(T)]
pub struct ListQueue<T> {
    order: SegQueue<usize>,
    slots: Slots<T>,
}

impl<T> View for ListQueue<T> {
    type V = Seq<T>;

    /// The messages, the oldest first.
    closed spec fn view(&self) -> Seq<T> {
        self.slots.contents(list_items(self.order))
    }
}

impl<T> ListQueue<T> {
    pub closed spec fn wf(self) -> bool {
        self.slots.holds(list_items(self.order))
    }

    pub fn new() -> (queue: Self)
        ensures
            queue.wf(),
            queue@ == Seq::<T>::empty(),
    {
        ListQueue { order: list_new(), slots: Slots::new() }
    }

    pub fn push(&mut self, item: T)
        requires
            old(self).wf(),
        ensures
            final(self).wf(),
            final(self)@ == old(self)@.push(item),
    {
        let slot: usize = self.slots.put(item);
        list_push(&mut self.order, slot);
    }

    pub fn pop(&mut self) -> (item: Option<T>)
        requires
            old(self).wf(),
        ensures
            final(self).wf(),
            old(self)@.len() > 0 ==> item == Some(old(self)@[0]) && final(self)@ == old(
                self,
            )@.drop_first(),
            old(self)@.len() == 0 ==> item is None && final(self)@ == old(self)@,
    {
        match list_pop(&mut self.order) {
            Some(slot) => {
                assert(self.slots.occupied(slot));
                Some(self.slots.take(slot))
            },
            None => None,
        }
    }

    pub fn len(&self) -> (len: usize)
        ensures
            len == self@.len(),
    {
        list_len(&self.order)
    }

    pub fn is_empty(&self) -> (empty: bool)
        ensures
            empty == (self@.len() == 0),
    {
        list_is_empty(&self.order)
    }
}

/// A bounded queue of messages.
#[verifier::reject_recursive_types(T)]
pub struct BoundedQueue<T> {
    order: ArrayQueue<usize>,
    slots: Slots<T>,
}

impl<T> View for BoundedQueue<T> {
    type V = Seq<T>;

    /// The messages, the oldest first.
    closed spec fn view(&self) -> Seq<T> {
        self.slots.contents(array_items(self.order))
    }
}

impl<T> BoundedQueue<T> {
    /// How many messages there can be.
    pub closed spec fn bound(self) -> usize {
        array_capacity(self.order)
    }

    /// Each message has its place in the order.
    pub closed spec fn consistent(self) -> bool {
        self.slots.holds(array_items(self.order))
    }

    pub open spec fn wf(self) -> bool {
        self.consistent() && self@.len() <= self.bound() && self.bound() > 0
    }

    pub fn new(bound: usize) -> (queue: Self)
        requires
            valid_capacity(bound),
        ensures
            queue.wf(),
            queue@ == Seq::<T>::empty(),
            queue.bound() == bound,
    {
        BoundedQueue { order: array_new(bound), slots: Slots::new() }
    }

    /// Puts a message behind all others; gives it back if the queue is full.
    pub fn push(&mut self, item: T) -> (result: Result<(), T>)
        requires
            old(self).wf(),
        ensures
            final(self).wf(),
            final(self).bound() == old(self).bound(),
            old(self)@.len() < old(self).bound() ==> result is Ok && final(self)@ == old(
                self,
            )@.push(item),
            old(self)@.len() == old(self).bound() ==> result == Err::<(), T>(item)
                && final(self)@ == old(self)@,
    {
        if array_is_full(&self.order) {
            return Err(item);
        }
        let slot: usize = self.slots.put(item);
        let pushed = array_push(&mut self.order, slot);
        assert(pushed is Ok);
        Ok(())
    }

    pub fn pop(&mut self) -> (item: Option<T>)
        requires
            old(self).wf(),
        ensures
            final(self).wf(),
            final(self).bound() == old(self).bound(),
            old(self)@.len() > 0 ==> item == Some(old(self)@[0]) && final(self)@ == old(
                self,
            )@.drop_first(),
            old(self)@.len() == 0 ==> item is None && final(self)@ == old(self)@,
    {
        match array_pop(&mut self.order) {
            Some(slot) => {
                assert(self.slots.occupied(slot));
                Some(self.slots.take(slot))
            },
            None => None,
        }
    }

    pub fn capacity(&self) -> (bound: usize)
        ensures
            bound == self.bound(),
    {
        array_cap(&self.order)
    }

    pub fn len(&self) -> (len: usize)
        ensures
            len == self@.len(),
    {
        array_len(&self.order)
    }

    pub fn is_empty(&self) -> (empty: bool)
        ensures
            empty == (self@.len() == 0),
    {
        array_is_empty(&self.order)
    }

    pub fn is_full(&self) -> (full: bool)
        requires
            self.wf(),
        ensures
            full == (self@.len() == self.bound()),
    {
        array_is_full(&self.order)
    }
}

} // verus!
