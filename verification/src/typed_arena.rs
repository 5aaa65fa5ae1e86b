//! A typed arena over a backing allocator, drained in allocation order.

use core::marker::PhantomData;
use vstd::layout::size_of;
use vstd::prelude::*;

use crate::block::Block;
use crate::layout::Layout;
use crate::typed_store;
use crate::typed_store::{TypedState, TypedStore};
use crate::value_list::ValueList;
use crate::UninitAllocator;

verus! {

/// An arena of values of type `T` whose slots come from an allocator of type `A`.
///
/// Several arenas can draw on one allocator, so that values of different types take up slots of
/// one region and are destroyed independently: every call that needs a slot is handed the
/// allocator, the one that the arena was made for. The arena destroys its values, newest first,
/// when it is reset or ends. The slots do not go back to the allocator; they are reclaimed when
/// the allocator is reset.
///
/// A slot is an account of memory: the arena keeps the values in cells of its own, where they
/// stay at their addresses until they leave. It reuses the cells after a reset.
pub struct TypedArena<T, A: UninitAllocator> {
    store: TypedStore<T>,
    allocator: PhantomData<A>,
}

impl<T, A: UninitAllocator> View for TypedArena<T, A> {
    type V = TypedState<T>;

    closed spec fn view(&self) -> TypedState<T> {
        self.store@
    }
}

impl<T, A: UninitAllocator> TypedArena<T, A> {
    /// Whether the cells of the arena are as they should be.
    pub closed spec fn inv(&self) -> bool {
        self.store.inv()
    }

    /// Whether the arena is in a state it can reach.
    pub open spec fn wf(&self) -> bool {
        &&& self.inv()
        &&& self@.wf()
    }

    /// Creates an arena without values, for slots of `allocator`.
    pub fn new_in(allocator: &A) -> (arena: Self)
        ensures
            arena.wf(),
            arena@ == TypedState::<T>::empty(allocator.region()),
    {
        TypedArena { store: TypedStore::new_in(allocator), allocator: PhantomData }
    }

    /// Moves `value` into the arena, where `allocator` is sure to grant a slot.
    pub fn alloc_value<'s>(&'s mut self, allocator: &mut A, value: T) -> (r: &'s mut T)
        requires
            old(self).wf(),
            old(allocator).valid(),
            old(allocator).region() == old(self)@.home,
            typed_store::can_alloc::<T, A>(*old(allocator)),
        ensures
            final(self).wf(),
            final(allocator).valid(),
            final(allocator).region() == old(allocator).region(),
            *r == value,
            typed_store::allocated(
                old(self)@,
                *old(allocator),
                value,
                final(self)@,
                *final(allocator),
                Some(*final(r)),
            ),
    {
        self.try_alloc(allocator, value).expect("TypedArena allocation failed")
    }

    /// Moves `value` into the arena, or destroys it and returns `None` where `allocator` has no
    /// slot for it.
    ///
    /// A value without size needs no slot and always succeeds.
    pub fn try_alloc<'s>(&'s mut self, allocator: &mut A, value: T) -> (r: Option<&'s mut T>)
        requires
            old(self).wf(),
            old(allocator).valid(),
            old(allocator).region() == old(self)@.home,
        ensures
            final(self).wf(),
            final(allocator).valid(),
            final(allocator).region() == old(allocator).region(),
            r matches Some(x) ==> *x == value,
            typed_store::allocated(
                old(self)@,
                *old(allocator),
                value,
                final(self)@,
                *final(allocator),
                match r {
                    Some(x) => Some(*final(x)),
                    None => None,
                },
            ),
    {
        self.store.try_alloc(allocator, value)
    }

    /// Moves `value` into the arena; [`TypedArena::try_alloc`] under another name.
    pub fn alloc_raw<'s>(&'s mut self, allocator: &mut A, value: T) -> (r: Option<&'s mut T>)
        requires
            old(self).wf(),
            old(allocator).valid(),
            old(allocator).region() == old(self)@.home,
        ensures
            final(self).wf(),
            final(allocator).valid(),
            final(allocator).region() == old(allocator).region(),
            r matches Some(x) ==> *x == value,
            typed_store::allocated(
                old(self)@,
                *old(allocator),
                value,
                final(self)@,
                *final(allocator),
                match r {
                    Some(x) => Some(*final(x)),
                    None => None,
                },
            ),
    {
        self.try_alloc(allocator, value)
    }

    /// Moves `value` into the arena, on the account of the slot that the allocator granted for
    /// it, or destroys it and returns `None` where there is none.
    pub fn place(&mut self, slot: Option<Block>, value: T) -> (r: Option<&mut T>)
        requires
            old(self).wf(),
            size_of::<T>() > 0,
            slot matches Some(block) ==> block.satisfies(Layout::spec_new::<T>())
                && block.lies_in(old(self)@.home),
        ensures
            final(self).wf(),
            match (slot, r) {
                (Some(block), Some(x)) => {
                    &&& *x == value
                    &&& final(self)@ == old(self)@.placed(block, *final(x))
                },
                (None, None) => final(self)@ == old(self)@.refused(value),
                _ => false,
            },
    {
        self.store.place(slot, value)
    }

    /// The number of values in the arena.
    pub fn len(&self) -> (r: usize)
        requires
            self.wf(),
        ensures
            r == self@.values.len(),
    {
        self.store.len()
    }

    /// Whether the arena holds no values.
    pub fn is_empty(&self) -> (r: bool)
        requires
            self.wf(),
        ensures
            r == (self@.values.len() == 0),
    {
        self.len() == 0
    }

    /// The slots on the accounts of the values, oldest first; values without size have none.
    pub fn slots(&self) -> (r: &[Block])
        ensures
            r@ == self@.slots,
    {
        self.store.slots()
    }

    /// Turns the arena into an iterator over its values, oldest first.
    ///
    /// The iterator borrows the arena's allocator, which can change only when it has ended.
    pub fn drain<'a>(self, allocator: &'a A) -> (r: DrainIter<'a, T, A>)
        requires
            self.wf(),
            allocator.region() == self@.home,
        ensures
            r.wf(),
            r@ == self@.values,
            r.dropped() == self@.dropped,
            r.allocator() == *allocator,
    {
        let mut this = self;
        DrainIter { list: this.store.take_list(), allocator }
    }

    /// Destroys all values, newest first.
    ///
    /// Their slots stay taken in the allocator. The arena is empty before the first destructor
    /// runs.
    pub fn reset(&mut self)
        requires
            old(self).wf(),
        ensures
            final(self).wf(),
            final(self)@ == old(self)@.cleared(),
    {
        self.store.reset();
    }
}

impl<T, A: UninitAllocator> Drop for TypedArena<T, A> {
    /// Destroys all values, newest first.
    fn drop(&mut self)
        ensures
            old(self).wf() ==> final(self)@.dropped == old(self)@.cleared().dropped,
        opens_invariants none
        no_unwind
    {
        self.store.destroy_all();
    }
}

/// The values of a [`TypedArena`], in allocation order.
///
/// The values that are left when the iterator ends are destroyed newest first.
pub struct DrainIter<'a, T, A: UninitAllocator> {
    list: ValueList<T>,
    allocator: &'a A,
}

impl<'a, T, A: UninitAllocator> View for DrainIter<'a, T, A> {
    type V = Seq<T>;

    /// The values to come.
    closed spec fn view(&self) -> Seq<T> {
        self.list.values()
    }
}

impl<'a, T, A: UninitAllocator> DrainIter<'a, T, A> {
    /// Whether the iterator is in a state it can reach.
    pub closed spec fn wf(&self) -> bool {
        self.list.wf()
    }

    /// The values whose destructors the arena and the iterator have run, in that order.
    pub closed spec fn dropped(&self) -> Seq<T> {
        self.list.dropped()
    }

    /// The arena's allocator, as it is while the iterator lasts.
    pub closed spec fn allocator(&self) -> A {
        *self.allocator
    }

    /// The values that the end of the iterator destroys, in that order.
    pub open spec fn destroyed_at_end(&self) -> Seq<T> {
        self@.reverse()
    }

    /// The oldest value that is left, or `None` where none is.
    pub fn next(&mut self) -> (r: Option<T>)
        requires
            old(self).wf(),
        ensures
            final(self).wf(),
            final(self).dropped() == old(self).dropped(),
            final(self).allocator() == old(self).allocator(),
            match r {
                Some(value) => old(self)@.len() > 0 && value == old(self)@[0] && final(self)@
                    == old(self)@.skip(1),
                None => old(self)@.len() == 0 && final(self)@ == old(self)@,
            },
    {
        self.list.take_first()
    }

    /// The number of values that are left, as a lower and an upper bound.
    pub fn size_hint(&self) -> (r: (usize, Option<usize>))
        requires
            self.wf(),
        ensures
            r.0 == self@.len(),
            r.1 == Some(r.0),
    {
        let n: usize = self.list.len();
        (n, Some(n))
    }

    /// The number of values that are left.
    pub fn len(&self) -> (r: usize)
        requires
            self.wf(),
        ensures
            r == self@.len(),
    {
        self.list.len()
    }
}

impl<'a, T, A: UninitAllocator> Drop for DrainIter<'a, T, A> {
    /// Destroys the values that are left, newest first.
    fn drop(&mut self)
        ensures
            old(self).wf() ==> {
                &&& final(self)@ == Seq::<T>::empty()
                &&& final(self).dropped() == old(self).dropped() + old(self).destroyed_at_end()
            },
        opens_invariants none
        no_unwind
    {
        self.list.destroy_all();
    }
}

/// What a draining iterator over `values` has left after `count` calls of
/// [`DrainIter::next`].
pub open spec fn drained<T>(values: Seq<T>, count: nat) -> Seq<T>
    decreases count,
{
    if count == 0 {
        values
    } else {
        drained(values, (count - 1) as nat).skip(1)
    }
}

/// Of a draining iterator that has yielded its first `count` values, the end destroys each of
/// the others exactly once, the newest first, and none of those that were yielded.
pub proof fn lemma_drain_end<T, A: UninitAllocator>(
    values: Seq<T>,
    count: nat,
    iter: DrainIter<'_, T, A>,
)
    requires
        count <= values.len(),
        iter@ == drained(values, count),
    ensures
        iter@ == values.skip(count as int),
        iter.destroyed_at_end().len() == values.len() - count,
        forall|i: int|
            0 <= i < values.len() - count ==> #[trigger] iter.destroyed_at_end()[i]
                == values[values.len() - 1 - i],
{
    lemma_drained(values, count);
}

/// The values that are left after `count` calls are those behind the first `count`.
proof fn lemma_drained<T>(values: Seq<T>, count: nat)
    requires
        count <= values.len(),
    ensures
        drained(values, count) == values.skip(count as int),
    decreases count,
{
    if count == 0 {
        assert(values.skip(0) =~= values);
    } else {
        lemma_drained(values, (count - 1) as nat);
        assert(values.skip(count - 1).skip(1) =~= values.skip(count as int));
    }
}

} // verus!
