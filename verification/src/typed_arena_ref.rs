//! A typed arena over a backing allocator, iterated in reverse allocation order.

use core::marker::PhantomData;
use std::collections::VecDeque;
use vstd::layout::size_of;
use vstd::prelude::*;

use crate::block::Block;
use crate::layout::Layout;
use crate::typed_store;
use crate::typed_store::{TypedState, TypedStore};
use crate::value_list::ValueList;
use crate::{SingleThreaded, UninitAllocator};

verus! {

/// An arena of values of type `T` whose slots come from an allocator of type `A`.
///
/// It keeps and destroys its values as [`TypedArena`](crate::TypedArena) does, and differs in
/// how they are visited: newest first, by reference or by value.
pub struct TypedArenaRef<T, A: UninitAllocator> {
    store: TypedStore<T>,
    allocator: PhantomData<A>,
}

impl<T, A: UninitAllocator> View for TypedArenaRef<T, A> {
    type V = TypedState<T>;

    closed spec fn view(&self) -> TypedState<T> {
        self.store@
    }
}

impl<T, A: UninitAllocator> TypedArenaRef<T, A> {
    /// Whether the cells of the arena are as they should be.
    pub closed spec fn inv(&self) -> bool {
        self.store.inv()
    }

    /// Whether the arena is in a state it can reach.
    pub open spec fn wf(&self) -> bool {
        &&& self.inv()
        &&& self@.wf()
    }

    /// Creates an arena without values, for slots of `allocator`.
    pub fn new_in(allocator: &A) -> (arena: Self)
        ensures
            arena.wf(),
            arena@ == TypedState::<T>::empty(allocator.region()),
    {
        TypedArenaRef { store: TypedStore::new_in(allocator), allocator: PhantomData }
    }

    /// Moves `value` into the arena, where `allocator` is sure to grant a slot.
    pub fn alloc_value<'s>(&'s mut self, allocator: &mut A, value: T) -> (r: &'s mut T)
        requires
            old(self).wf(),
            old(allocator).valid(),
            old(allocator).region() == old(self)@.home,
            typed_store::can_alloc::<T, A>(*old(allocator)),
        ensures
            final(self).wf(),
            final(allocator).valid(),
            final(allocator).region() == old(allocator).region(),
            *r == value,
            typed_store::allocated(
                old(self)@,
                *old(allocator),
                value,
                final(self)@,
                *final(allocator),
                Some(*final(r)),
            ),
    {
        self.try_alloc(allocator, value).expect("TypedArenaRef allocation failed")
    }

    /// Moves `value` into the arena, or destroys it and returns `None` where `allocator` has no
    /// slot for it.
    ///
    /// A value without size needs no slot and always succeeds.
    pub fn try_alloc<'s>(&'s mut self, allocator: &mut A, value: T) -> (r: Option<&'s mut T>)
        requires
            old(self).wf(),
            old(allocator).valid(),
            old(allocator).region() == old(self)@.home,
        ensures
            final(self).wf(),
            final(allocator).valid(),
            final(allocator).region() == old(allocator).region(),
            r matches Some(x) ==> *x == value,
            typed_store::allocated(
                old(self)@,
                *old(allocator),
                value,
                final(self)@,
                *final(allocator),
                match r {
                    Some(x) => Some(*final(x)),
                    None => None,
                },
            ),
    {
        self.store.try_alloc(allocator, value)
    }

    /// Moves `value` into the arena, on the account of the slot that the allocator granted for
    /// it, or destroys it and returns `None` where there is none.
    pub fn place(&mut self, slot: Option<Block>, value: T) -> (r: Option<&mut T>)
        requires
            old(self).wf(),
            size_of::<T>() > 0,
            slot matches Some(block) ==> block.satisfies(Layout::spec_new::<T>())
                && block.lies_in(old(self)@.home),
        ensures
            final(self).wf(),
            match (slot, r) {
                (Some(block), Some(x)) => {
                    &&& *x == value
                    &&& final(self)@ == old(self)@.placed(block, *final(x))
                },
                (None, None) => final(self)@ == old(self)@.refused(value),
                _ => false,
            },
    {
        self.store.place(slot, value)
    }

    /// The number of values in the arena.
    pub fn len(&self) -> (r: usize)
        requires
            self.wf(),
        ensures
            r == self@.values.len(),
    {
        self.store.len()
    }

    /// Whether the arena holds no values.
    pub fn is_empty(&self) -> (r: bool)
        requires
            self.wf(),
        ensures
            r == (self@.values.len() == 0),
    {
        self.len() == 0
    }

    /// The slots on the accounts of the values, oldest first; values without size have none.
    pub fn slots(&self) -> (r: &[Block])
        ensures
            r@ == self@.slots,
    {
        self.store.slots()
    }

    /// Destroys all values, newest first.
    ///
    /// Their slots stay taken in the allocator. The arena is empty before the first destructor
    /// runs.
    pub fn reset(&mut self)
        requires
            old(self).wf(),
        ensures
            final(self).wf(),
            final(self)@ == old(self)@.cleared(),
    {
        self.store.reset();
    }

    /// An iterator over the values by reference, newest first.
    pub fn iter(&self) -> (r: Iter<'_, T>)
        requires
            self.wf(),
        ensures
            r@ == self@.values.reverse(),
    {
        let r = Iter { rest: self.store.refs(), marker: SingleThreaded::new() };
        assert(r@ =~= self@.values.reverse());
        r
    }

    /// An iterator over the values that the arena holds now, newest first, which is handed the
    /// arena with each call and lets it take in new values between them.
    pub fn snapshot(&self) -> (r: Snapshot<T>)
        requires
            self.wf(),
        ensures
            r.wf(),
            r.values() == self@.values,
            r@ == self@.values.reverse(),
    {
        let r = Snapshot {
            oldest: 0,
            newest: self.store.len(),
            values: Ghost(self@.values),
            marker: SingleThreaded::new(),
        };
        assert(r@ =~= self@.values.reverse());
        r
    }

    /// An iterator over the values by mutable reference, newest first.
    ///
    /// What is written through the references is what the arena holds when the borrow ends.
    pub fn iter_mut(&mut self) -> (r: IterMut<'_, T>)
        requires
            old(self).wf(),
        ensures
            r@ == old(self)@.values.reverse(),
            r.rest@.len() == old(self)@.values.len(),
            forall|i: int|
                0 <= i < r.rest@.len() ==> *#[trigger] r.rest@[i] == old(self)@.values[i],
            final(self).wf(),
            final(self)@.values.len() == r.rest@.len(),
            forall|i: int|
                0 <= i < r.rest@.len() ==> #[trigger] final(self)@.values[i] == *final(r.rest@[i]),
            final(self)@.slots == old(self)@.slots,
            final(self)@.dropped == old(self)@.dropped,
            final(self)@.home == old(self)@.home,
    {
        let ghost values = self@.values;
        let r = IterMut { rest: self.store.refs_mut(), marker: SingleThreaded::new() };
        assert(r@ =~= values.reverse());
        r
    }

    /// Turns the arena into an iterator over its values, newest first.
    ///
    /// The iterator borrows the arena's allocator, which can change only when it has ended.
    pub fn into_iter<'a>(self, allocator: &'a A) -> (r: IntoIter<'a, T, A>)
        requires
            self.wf(),
            allocator.region() == self@.home,
        ensures
            r.wf(),
            r@ == self@.values.reverse(),
            r.dropped() == self@.dropped,
            r.allocator() == allocator,
    {
        let mut this = self;
        IntoIter { list: this.store.take_list(), allocator }
    }
}

impl<T, A: UninitAllocator> Drop for TypedArenaRef<T, A> {
    /// Destroys all values, newest first.
    fn drop(&mut self)
        ensures
            old(self).wf() ==> final(self)@.dropped == old(self)@.cleared().dropped,
        opens_invariants none
        no_unwind
    {
        self.store.destroy_all();
    }
}

/// The values of a [`TypedArenaRef`], newest first.
///
/// The values that are left when the iterator ends are destroyed newest first.
pub struct IntoIter<'a, T, A: UninitAllocator> {
    list: ValueList<T>,
    allocator: &'a A,
}

impl<'a, T, A: UninitAllocator> View for IntoIter<'a, T, A> {
    type V = Seq<T>;

    /// The values to come.
    closed spec fn view(&self) -> Seq<T> {
        self.list.values().reverse()
    }
}

impl<'a, T, A: UninitAllocator> IntoIter<'a, T, A> {
    /// Whether the iterator is in a state it can reach.
    pub closed spec fn wf(&self) -> bool {
        self.list.wf()
    }

    /// The values whose destructors the arena and the iterator have run, in that order.
    pub closed spec fn dropped(&self) -> Seq<T> {
        self.list.dropped()
    }

    /// The arena's allocator, as it is while the iterator lasts.
    pub closed spec fn spec_allocator(&self) -> &'a A {
        self.allocator
    }

    /// The arena's allocator.
    #[verifier::when_used_as_spec(spec_allocator)]
    pub fn allocator(&self) -> (r: &'a A)
        ensures
            r == self.allocator(),
    {
        self.allocator
    }

    /// The values that the end of the iterator destroys, in that order.
    pub open spec fn destroyed_at_end(&self) -> Seq<T> {
        self@
    }

    /// The newest value that is left, or `None` where none is.
    pub fn next(&mut self) -> (r: Option<T>)
        requires
            old(self).wf(),
        ensures
            final(self).wf(),
            final(self).dropped() == old(self).dropped(),
            final(self).allocator() == old(self).allocator(),
            match r {
                Some(value) => old(self)@.len() > 0 && value == old(self)@[0] && final(self)@
                    == old(self)@.skip(1),
                None => old(self)@.len() == 0 && final(self)@ == old(self)@,
            },
    {
        let r = self.list.take_last();
        assert(r is Some ==> self@ =~= old(self)@.skip(1));
        r
    }

    /// The oldest value that is left, or `None` where none is.
    pub fn next_back(&mut self) -> (r: Option<T>)
        requires
            old(self).wf(),
        ensures
            final(self).wf(),
            final(self).dropped() == old(self).dropped(),
            final(self).allocator() == old(self).allocator(),
            match r {
                Some(value) => old(self)@.len() > 0 && value == old(self)@.last() && final(self)@
                    == old(self)@.drop_last(),
                None => old(self)@.len() == 0 && final(self)@ == old(self)@,
            },
    {
        let r = self.list.take_first();
        assert(r is Some ==> self@ =~= old(self)@.drop_last());
        r
    }

    /// The number of values that are left, as a lower and an upper bound.
    pub fn size_hint(&self) -> (r: (usize, Option<usize>))
        requires
            self.wf(),
        ensures
            r.0 == self@.len(),
            r.1 == Some(r.0),
    {
        let n: usize = self.list.len();
        (n, Some(n))
    }
}

impl<'a, T, A: UninitAllocator> Drop for IntoIter<'a, T, A> {
    /// Destroys the values that are left, newest first.
    fn drop(&mut self)
        ensures
            old(self).wf() ==> {
                &&& final(self)@ == Seq::<T>::empty()
                &&& final(self).dropped() == old(self).dropped() + old(self).destroyed_at_end()
            },
        opens_invariants none
        no_unwind
    {
        self.list.destroy_all();
    }
}

/// References to the values of a [`TypedArenaRef`], newest first.
pub struct Iter<'s, T> {
    /// Oldest first: the next value is the last one.
    rest: VecDeque<&'s T>,
    marker: SingleThreaded,
}

impl<'s, T> View for Iter<'s, T> {
    type V = Seq<T>;

    /// The values to come.
    closed spec fn view(&self) -> Seq<T> {
        Seq::new(self.rest@.len(), |i: int| *self.rest@[self.rest@.len() - 1 - i])
    }
}

impl<'s, T> Iter<'s, T> {
    /// The newest value that is left, or `None` where none is.
    pub fn next(&mut self) -> (r: Option<&'s T>)
        ensures
            match r {
                Some(value) => old(self)@.len() > 0 && *value == old(self)@[0] && final(self)@
                    == old(self)@.skip(1),
                None => old(self)@.len() == 0 && final(self)@ == old(self)@,
            },
    {
        let r = self.rest.pop_back();
        assert(r is Some ==> self@ =~= old(self)@.skip(1));
        r
    }

    /// The oldest value that is left, or `None` where none is.
    pub fn next_back(&mut self) -> (r: Option<&'s T>)
        ensures
            match r {
                Some(value) => old(self)@.len() > 0 && *value == old(self)@.last() && final(self)@
                    == old(self)@.drop_last(),
                None => old(self)@.len() == 0 && final(self)@ == old(self)@,
            },
    {
        let r = self.rest.pop_front();
        assert(r is Some ==> self@ =~= old(self)@.drop_last());
        r
    }

    /// The number of values that are left, as a lower and an upper bound.
    pub fn size_hint(&self) -> (r: (usize, Option<usize>))
        ensures
            r.0 == self@.len(),
            r.1 == Some(r.0),
    {
        let n: usize = self.rest.len();
        (n, Some(n))
    }
}

/// References to the values that a [`TypedArenaRef`] held when the snapshot was taken, newest
/// first.
///
/// Values that come in later do not appear. The arena is not reset in between.
pub struct Snapshot<T> {
    /// The values at indices from `oldest` up to `newest` are to come.
    oldest: usize,
    newest: usize,
    values: Ghost<Seq<T>>,
    marker: SingleThreaded,
}

impl<T> View for Snapshot<T> {
    type V = Seq<T>;

    /// The values to come.
    closed spec fn view(&self) -> Seq<T> {
        self.values@.subrange(self.oldest as int, self.newest as int).reverse()
    }
}

impl<T> Snapshot<T> {
    /// Whether the snapshot is in a state it can reach.
    pub closed spec fn wf(&self) -> bool {
        self.oldest <= self.newest <= self.values@.len()
    }

    /// The values of the arena when the snapshot was taken, oldest first.
    pub closed spec fn values(&self) -> Seq<T> {
        self.values@
    }

    /// The newest value that is left, or `None` where none is.
    pub fn next<'s, A: UninitAllocator>(&mut self, arena: &'s TypedArenaRef<T, A>) -> (r: Option<
        &'s T,
    >)
        requires
            old(self).wf(),
            arena.wf(),
            old(self).values().is_prefix_of(arena@.values),
        ensures
            final(self).wf(),
            final(self).values() == old(self).values(),
            match r {
                Some(value) => old(self)@.len() > 0 && *value == old(self)@[0] && final(self)@
                    == old(self)@.skip(1),
                None => old(self)@.len() == 0 && final(self)@ == old(self)@,
            },
    {
        if self.newest == self.oldest {
            return None;
        }
        self.newest = self.newest - 1;
        assert(self@ =~= old(self)@.skip(1));
        assert(self.values()[self.newest as int] == arena@.values[self.newest as int]);
        arena.store.get(self.newest)
    }

    /// The oldest value that is left, or `None` where none is.
    pub fn next_back<'s, A: UninitAllocator>(
        &mut self,
        arena: &'s TypedArenaRef<T, A>,
    ) -> (r: Option<&'s T>)
        requires
            old(self).wf(),
            arena.wf(),
            old(self).values().is_prefix_of(arena@.values),
        ensures
            final(self).wf(),
            final(self).values() == old(self).values(),
            match r {
                Some(value) => old(self)@.len() > 0 && *value == old(self)@.last() && final(self)@
                    == old(self)@.drop_last(),
                None => old(self)@.len() == 0 && final(self)@ == old(self)@,
            },
    {
        if self.newest == self.oldest {
            return None;
        }
        let first: usize = self.oldest;
        self.oldest = first + 1;
        assert(self@ =~= old(self)@.drop_last());
        assert(self.values()[first as int] == arena@.values[first as int]);
        arena.store.get(first)
    }

    /// The number of values that are left, as a lower and an upper bound.
    pub fn size_hint(&self) -> (r: (usize, Option<usize>))
        requires
            self.wf(),
        ensures
            r.0 == self@.len(),
            r.1 == Some(r.0),
    {
        let n: usize = self.newest - self.oldest;
        (n, Some(n))
    }
}

/// Mutable references to the values of a [`TypedArenaRef`], newest first.
pub struct IterMut<'s, T> {
    /// The references to come, oldest value first: the next one is the last.
    pub rest: Vec<&'s mut T>,
    /// Keeps the iterator on one thread.
    pub marker: SingleThreaded,
}

impl<'s, T> View for IterMut<'s, T> {
    type V = Seq<T>;

    /// The values to come.
    open spec fn view(&self) -> Seq<T> {
        Seq::new(self.rest@.len(), |i: int| *self.rest@[self.rest@.len() - 1 - i])
    }
}

impl<'s, T> IterMut<'s, T> {
    /// The newest value that is left, for writing, or `None` where none is.
    pub fn next(&mut self) -> (r: Option<&'s mut T>)
        ensures
            match r {
                Some(value) => {
                    &&& old(self)@.len() > 0
                    &&& *value == old(self)@[0]
                    &&& final(self)@ == old(self)@.skip(1)
                    &&& value == old(self).rest@.last()
                    &&& final(self).rest@ == old(self).rest@.drop_last()
                    &&& forall|i: int|
                        0 <= i < final(self).rest@.len() ==> #[trigger] old(self).rest@[i]
                            == final(self).rest@[i]
                },
                None => old(self)@.len() == 0 && final(self).rest@ == old(self).rest@,
            },
    {
        let ghost all = self@;
        let r = self.rest.pop();
        assert(r is Some ==> self@ =~= all.skip(1));
        r
    }

    /// The number of values that are left, as a lower and an upper bound.
    pub fn size_hint(&self) -> (r: (usize, Option<usize>))
        ensures
            r.0 == self@.len(),
            r.1 == Some(r.0),
    {
        let n: usize = self.rest.len();
        (n, Some(n))
    }
}

/// What an iterator that was to yield `all` has left after `front` calls of `next` and `back`
/// of `next_back`.
pub open spec fn left<T>(all: Seq<T>, front: nat, back: nat) -> Seq<T> {
    all.subrange(front as int, all.len() - back)
}

/// An iterator over the values of an arena visits each of them once: from the front the newest
/// first, from the back the oldest first.
pub proof fn lemma_left<T>(values: Seq<T>, front: nat, back: nat)
    requires
        front + back < values.len(),
    ensures
        left(values.reverse(), 0, 0) == values.reverse(),
        left(values.reverse(), front, back)[0] == values[values.len() - 1 - front],
        left(values.reverse(), front, back).skip(1) == left(values.reverse(), front + 1, back),
        left(values.reverse(), front, back).last() == values[back as int],
        left(values.reverse(), front, back).drop_last() == left(
            values.reverse(),
            front,
            back + 1,
        ),
{
    let all = values.reverse();
    assert(left(all, 0, 0) =~= all);
    assert(left(all, front, back).skip(1) =~= left(all, front + 1, back));
    assert(left(all, front, back).drop_last() =~= left(all, front, back + 1));
}

/// A snapshot stays good while the arena takes in values: what it has to yield is what the
/// arena held when it was taken, and no value that came in later.
pub proof fn lemma_snapshot<T, A: UninitAllocator>(
    snapshot: Snapshot<T>,
    pre: TypedState<T>,
    pre_allocator: A,
    value: T,
    post: TypedState<T>,
    post_allocator: A,
    placed: Option<T>,
)
    requires
        snapshot.wf(),
        snapshot.values().is_prefix_of(pre.values),
        typed_store::allocated(pre, pre_allocator, value, post, post_allocator, placed),
    ensures
        snapshot.values().is_prefix_of(post.values),
        snapshot@.len() <= snapshot.values().len(),
        forall|i: int|
            0 <= i < snapshot@.len() ==> snapshot.values().contains(#[trigger] snapshot@[i]),
{
    assert(snapshot.values() =~= post.values.subrange(0, snapshot.values().len() as int));
    assert forall|i: int| 0 <= i < snapshot@.len() implies snapshot.values().contains(
        #[trigger] snapshot@[i],
    ) by {
        assert(snapshot@[i] == snapshot.values()[snapshot.newest - 1 - i]);
    }
}

/// Of an iterator that owns the values of an arena and has yielded some from either side, the
/// end destroys each of the others exactly once, the newest first, and none of those that were
/// yielded.
pub proof fn lemma_into_iter_end<T, A: UninitAllocator>(
    values: Seq<T>,
    front: nat,
    back: nat,
    iter: IntoIter<'_, T, A>,
)
    requires
        front + back <= values.len(),
        iter@ == left(values.reverse(), front, back),
    ensures
        iter.destroyed_at_end().len() == values.len() - front - back,
        forall|i: int|
            0 <= i < values.len() - front - back ==> #[trigger] iter.destroyed_at_end()[i]
                == values[values.len() - 1 - front - i],
{
}

} // verus!
