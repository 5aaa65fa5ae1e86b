//! Values of one type and the slots that an allocator granted for them.
//!
//! A slot is an account: it says which memory of the allocator a value takes up. The values
//! themselves are kept in cells of the library's own, which do not move.

use std::collections::VecDeque;
use vstd::layout::size_of;
use vstd::prelude::*;

use crate::block::Block;
use crate::layout::Layout;
use crate::value_list::ValueList;
use crate::UninitAllocator;

verus! {

/// The state of a typed arena over a backing allocator.
#[verifier::ext_equal]
#[verifier::reject_recursive_types(T)]
pub struct TypedState<T> {
    /// The live values, oldest first.
    pub values: Seq<T>,
    /// The slots that the allocator granted for the live values; values without size have none.
    pub slots: Seq<Block>,
    /// The values whose destructors the arena has run, in that order.
    pub dropped: Seq<T>,
    /// The region of the allocator that the arena was made for.
    pub home: (int, int),
}

impl<T> TypedState<T> {
    /// An arena without values, for the allocator of region `home`.
    pub open spec fn empty(home: (int, int)) -> TypedState<T> {
        TypedState { values: Seq::empty(), slots: Seq::empty(), dropped: Seq::empty(), home }
    }

    /// The state after `value` has come in, with `slot` on its account.
    pub open spec fn placed(self, slot: Block, value: T) -> TypedState<T> {
        TypedState { values: self.values.push(value), slots: self.slots.push(slot), ..self }
    }

    /// The state after `value` has come in without a slot.
    pub open spec fn placed_without_slot(self, value: T) -> TypedState<T> {
        TypedState { values: self.values.push(value), ..self }
    }

    /// The state after `value` has been refused, and thereby destroyed.
    pub open spec fn refused(self, value: T) -> TypedState<T> {
        TypedState { dropped: self.dropped.push(value), ..self }
    }

    /// The state after all values have been destroyed, newest first.
    pub open spec fn cleared(self) -> TypedState<T> {
        TypedState {
            values: Seq::empty(),
            slots: Seq::empty(),
            dropped: self.dropped + self.values.reverse(),
            ..self
        }
    }

    /// Whether every slot is one of `live`.
    pub open spec fn backed_by(self, live: Seq<Block>) -> bool {
        forall|i: int| 0 <= i < self.slots.len() ==> live.contains(#[trigger] self.slots[i])
    }

    /// What holds of every state that an arena reaches.
    pub open spec fn wf(self) -> bool {
        &&& self.slots.len() == (if size_of::<T>() == 0 {
            0
        } else {
            self.values.len()
        })
        &&& forall|i: int|
            0 <= i < self.slots.len() ==> (#[trigger] self.slots[i]).satisfies(
                Layout::spec_new::<T>(),
            ) && self.slots[i].lies_in(self.home)
    }
}

/// Whether moving `value` into an arena over `A` may be answered by `placed`, the value's final
/// contents if it came in.
///
/// A value without size needs no slot and always comes in. For any other the allocator is asked
/// for a slot of the type's layout, and its answer decides; a refused value is destroyed.
pub open spec fn allocated<T, A: UninitAllocator>(
    pre: TypedState<T>,
    pre_allocator: A,
    value: T,
    post: TypedState<T>,
    post_allocator: A,
    placed: Option<T>,
) -> bool {
    if size_of::<T>() == 0 {
        &&& placed matches Some(last) && post == pre.placed_without_slot(last)
        &&& post_allocator == pre_allocator
    } else {
        exists|slot: Option<Block>| #[trigger]
            A::alloc_step(pre_allocator, Layout::spec_new::<T>(), post_allocator, slot) && (match (
                slot,
                placed,
            ) {
                (Some(slot), Some(last)) => {
                    &&& post == pre.placed(slot, last)
                    &&& post_allocator.live() == pre_allocator.live().push(slot)
                    &&& forall|i: int|
                        0 <= i < pre_allocator.live().len() ==> slot.disjoint(
                            #[trigger] pre_allocator.live()[i],
                        )
                },
                (None, None) => {
                    &&& post == pre.refused(value)
                    &&& post_allocator.live() == pre_allocator.live()
                },
                _ => false,
            })
    }
}

/// Whether a value of type `T` comes in whatever the allocator can answer.
pub open spec fn can_alloc<T, A: UninitAllocator>(allocator: A) -> bool {
    size_of::<T>() == 0 || forall|post: A, slot: Option<Block>| #[trigger]
        A::alloc_step(allocator, Layout::spec_new::<T>(), post, slot) ==> slot is Some
}

/// The values of a typed arena with their slots.
pub(crate) struct TypedStore<T> {
    list: ValueList<T>,
    slots: Vec<Block>,
    home: Ghost<(int, int)>,
}

impl<T> View for TypedStore<T> {
    type V = TypedState<T>;

    closed spec fn view(&self) -> TypedState<T> {
        TypedState {
            values: self.list.values(),
            slots: self.slots@,
            dropped: self.list.dropped(),
            home: self.home@,
        }
    }
}

impl<T> TypedStore<T> {
    /// Whether the cells of the store are as they should be.
    pub closed spec fn inv(&self) -> bool {
        self.list.wf()
    }

    /// A store without values, for slots of `allocator`.
    pub fn new_in<A: UninitAllocator>(allocator: &A) -> (store: Self)
        ensures
            store.inv(),
            store@ == TypedState::<T>::empty(allocator.region()),
            store@.wf(),
    {
        TypedStore {
            list: ValueList::new(),
            slots: Vec::new(),
            home: Ghost(allocator.region()),
        }
    }

    /// Asks `allocator` for a slot and takes `value` in.
    pub fn try_alloc<'s, A: UninitAllocator>(
        &'s mut self,
        allocator: &mut A,
        value: T,
    ) -> (r: Option<&'s mut T>)
        requires
            old(self).inv(),
            old(self)@.wf(),
            old(allocator).valid(),
            old(allocator).region() == old(self)@.home,
        ensures
            final(self).inv(),
            final(self)@.wf(),
            final(allocator).valid(),
            final(allocator).region() == old(allocator).region(),
            r matches Some(x) ==> *x == value,
            allocated(
                old(self)@,
                *old(allocator),
                value,
                final(self)@,
                *final(allocator),
                match r {
                    Some(x) => Some(*final(x)),
                    None => None,
                },
            ),
    {
        if core::mem::size_of::<T>() == 0 {
            return Some(self.list.push(value));
        }
        let slot = allocator.try_alloc_uninit(Layout::new::<T>());
        self.place(slot, value)
    }

    /// Takes `value` in with the slot that an allocator granted, or destroys it where there is
    /// none.
    pub fn place(&mut self, slot: Option<Block>, value: T) -> (r: Option<&mut T>)
        requires
            old(self).inv(),
            old(self)@.wf(),
            size_of::<T>() > 0,
            slot matches Some(block) ==> block.satisfies(Layout::spec_new::<T>())
                && block.lies_in(old(self)@.home),
        ensures
            final(self).inv(),
            final(self)@.wf(),
            match (slot, r) {
                (Some(block), Some(x)) => {
                    &&& *x == value
                    &&& final(self)@ == old(self)@.placed(block, *final(x))
                },
                (None, None) => final(self)@ == old(self)@.refused(value),
                _ => false,
            },
    {
        match slot {
            Some(block) => {
                self.slots.push(block);
                Some(self.list.push(value))
            },
            None => {
                self.list.destroy(value);
                None
            },
        }
    }

    /// The number of values.
    pub fn len(&self) -> (r: usize)
        requires
            self.inv(),
        ensures
            r == self@.values.len(),
    {
        self.list.len()
    }

    /// The slots of the values, oldest first.
    pub fn slots(&self) -> (r: &[Block])
        ensures
            r@ == self@.slots,
    {
        self.slots.as_slice()
    }

    /// The value at `index`, counted from the oldest; `None` where there is none.
    pub fn get(&self, index: usize) -> (r: Option<&T>)
        requires
            self.inv(),
        ensures
            r == (if index < self@.values.len() {
                Some(&self@.values[index as int])
            } else {
                None
            }),
    {
        self.list.get(index)
    }

    /// References to the values, oldest first.
    pub fn refs(&self) -> (r: VecDeque<&T>)
        requires
            self.inv(),
        ensures
            r@.len() == self@.values.len(),
            forall|i: int| 0 <= i < r@.len() ==> *#[trigger] r@[i] == self@.values[i],
    {
        self.list.refs()
    }

    /// References to the values for writing, oldest first.
    pub fn refs_mut(&mut self) -> (r: Vec<&mut T>)
        requires
            old(self).inv(),
        ensures
            r@.len() == old(self)@.values.len(),
            forall|i: int| 0 <= i < r@.len() ==> *#[trigger] r@[i] == old(self)@.values[i],
            final(self).inv(),
            final(self)@.values.len() == r@.len(),
            forall|i: int|
                0 <= i < r@.len() ==> #[trigger] final(self)@.values[i] == *final(r@[i]),
            final(self)@.slots == old(self)@.slots,
            final(self)@.dropped == old(self)@.dropped,
            final(self)@.home == old(self)@.home,
    {
        self.list.refs_mut()
    }

    /// Takes the list of values out.
    pub fn take_list(&mut self) -> (r: ValueList<T>)
        requires
            old(self).inv(),
        ensures
            r.wf(),
            r.values() == old(self)@.values,
            r.dropped() == old(self)@.dropped,
            final(self).inv(),
            final(self)@ == TypedState::<T>::empty(old(self)@.home),
    {
        let mut list = ValueList::new();
        core::mem::swap(&mut list, &mut self.list);
        self.slots = Vec::new();
        list
    }

    /// Destroys all values, newest first, and closes their accounts.
    pub fn reset(&mut self)
        requires
            old(self).inv(),
        ensures
            final(self).inv(),
            final(self)@ == old(self)@.cleared(),
            final(self)@.wf(),
    {
        self.slots = Vec::new();
        self.list.clear();
    }

    /// Destroys all values, newest first, at the end of the arena.
    pub fn destroy_all(&mut self)
        ensures
            old(self).inv() ==> {
                &&& final(self)@.values == Seq::<T>::empty()
                &&& final(self)@.dropped == old(self)@.cleared().dropped
            },
        opens_invariants none
        no_unwind
    {
        self.list.destroy_all();
    }
}

/// A slot granted to one arena shares no byte with a slot of any other arena over the same
/// allocator, and the slots of all of them stay live.
pub proof fn lemma_shared_allocator<T, U, A: UninitAllocator>(
    pre: TypedState<T>,
    pre_allocator: A,
    value: T,
    post: TypedState<T>,
    post_allocator: A,
    placed: Option<T>,
    other: TypedState<U>,
)
    requires
        pre.backed_by(pre_allocator.live()),
        other.backed_by(pre_allocator.live()),
        allocated(pre, pre_allocator, value, post, post_allocator, placed),
    ensures
        post.backed_by(post_allocator.live()),
        other.backed_by(post_allocator.live()),
        forall|i: int|
            0 <= i < other.slots.len() && post.slots.len() > pre.slots.len()
                ==> post.slots.last().disjoint(#[trigger] other.slots[i]),
{
    let (before, after) = (pre_allocator.live(), post_allocator.live());
    assert forall|block: Block| before.contains(block) implies after.contains(block) by {
        let k = choose|k: int| 0 <= k < before.len() && before[k] == block;
        assert(after[k] == block);
    }
    assert forall|k: int| 0 <= k < post.slots.len() implies after.contains(
        #[trigger] post.slots[k],
    ) by {
        if k < pre.slots.len() {
            assert(before.contains(pre.slots[k]));
        } else {
            assert(after[after.len() - 1] == post.slots[k]);
        }
    }
    assert forall|i: int|
        0 <= i < other.slots.len() && post.slots.len()
            > pre.slots.len() implies post.slots.last().disjoint(#[trigger] other.slots[i]) by {
        assert(before.contains(other.slots[i]));
        let k = choose|k: int| 0 <= k < before.len() && before[k] == other.slots[i];
        assert(before[k] == other.slots[i]);
    }
}

/// A value that is moved into an arena comes in behind the others, or is destroyed and leaves
/// them as they are.
pub proof fn lemma_allocated<T, A: UninitAllocator>(
    pre: TypedState<T>,
    pre_allocator: A,
    value: T,
    post: TypedState<T>,
    post_allocator: A,
    placed: Option<T>,
)
    requires
        allocated(pre, pre_allocator, value, post, post_allocator, placed),
    ensures
        post.home == pre.home,
        match placed {
            Some(last) => {
                &&& post.values == pre.values.push(last)
                &&& post.dropped == pre.dropped
            },
            None => {
                &&& (post.values, post.slots) == (pre.values, pre.slots)
                &&& post.dropped == pre.dropped.push(value)
            },
        },
{
}

/// Every value that has a size has a slot of its layout, in the region of the allocator that
/// the arena was made for.
pub proof fn lemma_home<T>(state: TypedState<T>, i: int)
    requires
        state.wf(),
        size_of::<T>() > 0,
        0 <= i < state.values.len(),
    ensures
        i < state.slots.len(),
        state.slots[i].satisfies(Layout::spec_new::<T>()),
        state.slots[i].lies_in(state.home),
{
}

/// A reset destroys every value exactly once, the newest first, and a second one none.
pub proof fn lemma_cleared<T>(state: TypedState<T>)
    ensures
        state.cleared().values.len() == 0,
        state.cleared().dropped.len() == state.dropped.len() + state.values.len(),
        state.cleared().dropped.take(state.dropped.len() as int) == state.dropped,
        forall|i: int|
            0 <= i < state.values.len() ==> #[trigger] state.cleared().dropped[state.dropped.len()
                + i] == state.values[state.values.len() - 1 - i],
        state.cleared().cleared() == state.cleared(),
{
    assert(state.cleared().dropped.take(state.dropped.len() as int) =~= state.dropped);
    assert(state.cleared().cleared() =~= state.cleared());
}

} // verus!
