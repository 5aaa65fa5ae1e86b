//! A typed arena over reserved address space that is committed page by page.

use vstd::layout::{align_of, size_of};
use vstd::prelude::*;

use crate::align;
use crate::block::Block;
use crate::layout::Layout;
use crate::reservation;
use crate::reservation::{Reservation, ReservedState};
use crate::value_list::ValueList;

verus! {

/// The state of a [`TypedArenaLazy`].
#[verifier::ext_equal]
#[verifier::reject_recursive_types(T)]
pub struct TypedLazyState<T> {
    /// The reserved memory.
    pub memory: ReservedState,
    /// The number of values that the arena can hold.
    pub capacity: int,
    /// The live values, oldest first.
    pub values: Seq<T>,
    /// The values whose destructors the arena has run, in that order.
    pub dropped: Seq<T>,
}

impl<T> TypedLazyState<T> {
    /// An arena over a fresh reservation, without values.
    pub open spec fn fresh(base: int, capacity: int, page: int) -> TypedLazyState<T> {
        TypedLazyState {
            memory: ReservedState::fresh(base, capacity * size_of::<T>(), page),
            capacity,
            values: Seq::empty(),
            dropped: Seq::empty(),
        }
    }

    /// Whether the arena can hold one more value, as far as its capacity goes; values without
    /// size take up none of it.
    pub open spec fn has_room(self) -> bool {
        size_of::<T>() == 0 || self.values.len() < self.capacity
    }

    /// The number of values that take up capacity.
    pub open spec fn len(self) -> nat {
        if size_of::<T>() == 0 {
            0
        } else {
            self.values.len()
        }
    }

    /// The slot on the account of the value at `index`, in allocation order.
    pub open spec fn slot(self, index: int) -> Block {
        Block {
            addr: (self.memory.base + index * size_of::<T>()) as usize,
            len: size_of::<T>() as usize,
        }
    }

    /// How far, from the start of the reservation, one more value needs committed memory.
    pub open spec fn needs(self) -> int {
        if size_of::<T>() > 0 && self.has_room() {
            (self.values.len() + 1) * size_of::<T>() as int
        } else {
            0
        }
    }

    /// The state after room has been made for one more value, and whether it has, when
    /// `answer` is what the system said to committing the memory that the value misses.
    ///
    /// A value without size needs no room.
    pub open spec fn settled(self, answer: Result<(), i32>) -> (TypedLazyState<T>, bool) {
        if size_of::<T>() == 0 {
            (self, true)
        } else if self.has_room() {
            let (memory, usable) = self.memory.settled(self.needs(), answer);
            (TypedLazyState { memory, ..self }, usable)
        } else {
            (self, false)
        }
    }

    /// The state after `value` has been moved into the arena.
    pub open spec fn pushed(self, value: T) -> TypedLazyState<T> {
        TypedLazyState { values: self.values.push(value), ..self }
    }

    /// The state after `value` has been refused, and thereby destroyed.
    pub open spec fn refused(self, value: T) -> TypedLazyState<T> {
        TypedLazyState { dropped: self.dropped.push(value), ..self }
    }

    /// The state after `value` has been offered to the arena, when `answer` is what the system
    /// said and `placed` is the value's final contents if it came in; `None` where the arena
    /// does not answer so.
    pub open spec fn offered(
        self,
        value: T,
        answer: Result<(), i32>,
        placed: Option<T>,
    ) -> Option<TypedLazyState<T>> {
        let (state, usable) = self.settled(answer);
        match placed {
            Some(last) if usable => Some(state.pushed(last)),
            None if !usable => Some(state.refused(value)),
            _ => None,
        }
    }

    /// The state after all values have been destroyed, newest first.
    pub open spec fn cleared(self) -> TypedLazyState<T> {
        TypedLazyState {
            values: Seq::empty(),
            dropped: self.dropped + self.values.reverse(),
            ..self
        }
    }

    /// What holds of every state that an arena reaches.
    pub open spec fn wf(self) -> bool {
        &&& self.memory.wf()
        &&& self.memory.size == self.capacity * size_of::<T>()
        &&& self.len() <= self.capacity
        &&& self.values.len() * size_of::<T>() <= self.memory.committed
    }
}

/// A fixed-capacity arena of values of type `T` over lazily committed address space.
///
/// The address space for all values is reserved at construction. Its memory is committed in
/// whole pages as values come in, and stays committed. The arena destroys its values, newest
/// first, when it is reset or ends. `C` is the system's commit call, as in
/// [`BumpArenaLazy`](crate::BumpArenaLazy).
///
/// A slot is an account of that memory: the arena keeps the values in cells of its own, where
/// they stay at their addresses until they leave. It reuses the cells after a reset.
pub struct TypedArenaLazy<T, C> {
    list: ValueList<T>,
    capacity: usize,
    memory: Reservation<C>,
}

impl<T, C> View for TypedArenaLazy<T, C> {
    type V = TypedLazyState<T>;

    closed spec fn view(&self) -> TypedLazyState<T> {
        TypedLazyState {
            memory: self.memory@,
            capacity: self.capacity as int,
            values: self.list.values(),
            dropped: self.list.dropped(),
        }
    }
}

impl<T, C> TypedArenaLazy<T, C> {
    /// Whether the cells of the arena are as they should be.
    pub closed spec fn inv(&self) -> bool {
        self.list.wf()
    }
}

impl<T, C: Fn(usize, usize) -> Result<(), i32>> TypedArenaLazy<T, C> {
    /// The system's commit call.
    pub closed spec fn commit_pages(&self) -> C {
        self.memory.commit_pages()
    }

    /// Whether the arena is in a state it can reach.
    pub open spec fn wf(&self) -> bool {
        &&& self.inv()
        &&& self@.wf()
        &&& reservation::commits_behind(self.commit_pages(), self@.memory)
    }

    /// Whether `answer` can be what the system says when one more value comes in.
    pub open spec fn may_answer(&self, answer: Result<(), i32>) -> bool {
        reservation::may_answer(self.commit_pages(), self@.memory, self@.needs(), answer)
    }

    /// Whether moving `value` into the arena may turn `pre` into `post` and be answered by
    /// `placed`, the value's final contents if it came in: the memory that it misses is asked
    /// of the system, and its answer decides.
    pub open spec fn allocated(pre: Self, value: T, post: Self, placed: Option<T>) -> bool {
        &&& post.commit_pages() == pre.commit_pages()
        &&& exists|answer: Result<(), i32>| #[trigger]
            pre.may_answer(answer) && pre@.offered(value, answer, placed) == Some(post@)
    }

    /// Whether a value finds a place whatever the system can answer.
    pub open spec fn can_alloc(&self) -> bool {
        forall|answer: Result<(), i32>| #[trigger]
            self.may_answer(answer) ==> self@.settled(answer).1
    }

    /// Reserves memory for `capacity` values and creates an arena over it, where the
    /// reservation cannot fail.
    pub fn new<R: FnOnce(usize) -> Result<usize, i32>>(
        capacity: usize,
        page_size: usize,
        reserve: R,
        commit_pages: C,
    ) -> (arena: Self)
        requires
            page_size > 0,
            capacity * size_of::<T>() <= usize::MAX,
            capacity * size_of::<T>() == 0 || reservation::reserves(
                reserve,
                commit_pages,
                (capacity * size_of::<T>()) as usize,
                page_size,
            ),
            capacity * size_of::<T>() == 0 || reservation::always_reserves(
                reserve,
                (capacity * size_of::<T>()) as usize,
            ),
        ensures
            arena.wf(),
            arena.commit_pages() == commit_pages,
            if capacity * size_of::<T>() == 0 {
                arena@ == TypedLazyState::<T>::fresh(
                    align_of::<T>() as int,
                    capacity as int,
                    page_size as int,
                )
            } else {
                exists|base: usize| #[trigger]
                    call_ensures(
                        reserve,
                        ((capacity * size_of::<T>()) as usize,),
                        Ok::<usize, i32>(base),
                    ) && arena@ == TypedLazyState::<T>::fresh(
                        base as int,
                        capacity as int,
                        page_size as int,
                    )
            },
    {
        let r = Self::try_new(capacity, page_size, reserve, commit_pages);
        r.expect("TypedArenaLazy::new failed to reserve memory")
    }

    /// Reserves memory for `capacity` values and creates an arena over it.
    ///
    /// Fails with the system's error code where `reserve` does; for no bytes it is not asked.
    pub fn try_new<R: FnOnce(usize) -> Result<usize, i32>>(
        capacity: usize,
        page_size: usize,
        reserve: R,
        commit_pages: C,
    ) -> (r: Result<Self, i32>)
        requires
            page_size > 0,
            capacity * size_of::<T>() <= usize::MAX,
            capacity * size_of::<T>() == 0 || reservation::reserves(
                reserve,
                commit_pages,
                (capacity * size_of::<T>()) as usize,
                page_size,
            ),
        ensures
            r matches Ok(arena) ==> arena.wf() && arena.commit_pages() == commit_pages,
            if capacity * size_of::<T>() == 0 {
                r matches Ok(arena) && arena@ == TypedLazyState::<T>::fresh(
                    align_of::<T>() as int,
                    capacity as int,
                    page_size as int,
                )
            } else {
                exists|answer: Result<usize, i32>| #[trigger]
                    call_ensures(reserve, ((capacity * size_of::<T>()) as usize,), answer) && (
                    match answer {
                        Ok(base) => r matches Ok(arena) && arena@ == TypedLazyState::<T>::fresh(
                            base as int,
                            capacity as int,
                            page_size as int,
                        ),
                        Err(code) => r matches Err(e) && e == code,
                    })
            },
    {
        vstd::layout::layout_for_type_is_valid::<T>();
        let size: usize = core::mem::size_of::<T>();
        let align: usize = core::mem::align_of::<T>();
        let bytes: usize = capacity * size;
        match Reservation::try_new(bytes, align, page_size, reserve, commit_pages) {
            Ok(memory) => Ok(TypedArenaLazy { list: ValueList::new(), capacity, memory }),
            Err(code) => Err(code),
        }
    }

    /// Moves `value` into the arena, where it has room and the system commits the memory.
    pub fn alloc_value(&mut self, value: T) -> (r: &mut T)
        requires
            old(self).wf(),
            old(self).can_alloc(),
        ensures
            final(self).wf(),
            *r == value,
            Self::allocated(*old(self), value, *final(self), Some(*final(r))),
    {
        self.try_alloc(value).expect("TypedArenaLazy allocation failed")
    }

    /// Moves `value` into the arena, or destroys it and returns `None` where the arena is full,
    /// or the system refuses to commit the memory that it needs.
    ///
    /// A value without size needs no memory and takes up no capacity: it always succeeds.
    pub fn try_alloc(&mut self, value: T) -> (r: Option<&mut T>)
        requires
            old(self).wf(),
        ensures
            final(self).wf(),
            r matches Some(x) ==> *x == value,
            Self::allocated(
                *old(self),
                value,
                *final(self),
                match r {
                    Some(x) => Some(*final(x)),
                    None => None,
                },
            ),
    {
        let answer = self.memory.ask(self.needs());
        assert(self.may_answer(answer));
        self.settle(value, answer)
    }

    /// Moves `value` into the arena; [`TypedArenaLazy::try_alloc`] under another name.
    pub fn alloc_raw(&mut self, value: T) -> (r: Option<&mut T>)
        requires
            old(self).wf(),
        ensures
            final(self).wf(),
            r matches Some(x) ==> *x == value,
            Self::allocated(
                *old(self),
                value,
                *final(self),
                match r {
                    Some(x) => Some(*final(x)),
                    None => None,
                },
            ),
    {
        self.try_alloc(value)
    }

    /// The range that has to be committed before one more value finds a place; `None` where
    /// none has to, or where there is no room.
    pub fn missing(&self) -> (r: Option<Block>)
        requires
            self.wf(),
        ensures
            r == self@.memory.missing(self@.needs()),
    {
        self.memory.missing(self.needs())
    }

    /// Moves `value` into the arena, when `answer` is what the system said to committing the
    /// range that was missing.
    pub fn settle(&mut self, value: T, answer: Result<(), i32>) -> (r: Option<&mut T>)
        requires
            old(self).wf(),
        ensures
            final(self).wf(),
            final(self).commit_pages() == old(self).commit_pages(),
            r matches Some(x) ==> *x == value,
            old(self)@.offered(
                value,
                answer,
                match r {
                    Some(x) => Some(*final(x)),
                    None => None,
                },
            ) == Some(final(self)@),
    {
        if core::mem::size_of::<T>() == 0 {
            return Some(self.list.push(value));
        }
        if self.list.len() >= self.capacity {
            self.list.destroy(value);
            return None;
        }
        let end: usize = self.needs();
        if !self.memory.settle(end, answer) {
            self.list.destroy(value);
            return None;
        }
        Some(self.list.push(value))
    }

    /// How far, from the start of the reservation, one more value needs committed memory.
    fn needs(&self) -> (end: usize)
        requires
            self.wf(),
        ensures
            end == self@.needs(),
            end <= self@.memory.size,
    {
        vstd::layout::layout_for_type_is_valid::<T>();
        let size: usize = core::mem::size_of::<T>();
        let len: usize = self.list.len();
        if size == 0 || len >= self.capacity {
            return 0;
        }
        proof {
            vstd::arithmetic::mul::lemma_mul_inequality(
                len + 1,
                self.capacity as int,
                size as int,
            );
        }
        (len + 1) * size
    }

    /// The code of the last refused commit, if any was refused.
    pub fn last_os_error_code(&self) -> (r: Option<i32>)
        ensures
            r == self@.memory.last_os_error(),
    {
        self.memory.last_os_error_code()
    }

    /// The number of values in the arena that take up capacity; values without size do not.
    pub fn len(&self) -> (r: usize)
        requires
            self.wf(),
        ensures
            r == self@.len(),
    {
        if core::mem::size_of::<T>() == 0 {
            0
        } else {
            self.list.len()
        }
    }

    /// Whether no value takes up capacity.
    pub fn is_empty(&self) -> (r: bool)
        requires
            self.wf(),
        ensures
            r == (self@.len() == 0),
    {
        self.len() == 0
    }

    /// The number of values that the arena can hold.
    pub fn capacity(&self) -> (r: usize)
        ensures
            r == self@.capacity,
    {
        self.capacity
    }

    /// The number of committed bytes.
    pub fn committed(&self) -> (r: usize)
        ensures
            r == self@.memory.committed,
    {
        self.memory.committed()
    }

    /// The slot on the account of the value at `index`, in allocation order, if there is one.
    pub fn slot(&self, index: usize) -> (r: Option<Block>)
        requires
            self.wf(),
        ensures
            r == (if index < self@.len() {
                Some(self@.slot(index as int))
            } else {
                None
            }),
            r matches Some(block) ==> block.addr == self@.memory.base + index * size_of::<T>()
                && block.len == size_of::<T>() && block.end() <= self@.memory.base
                + self@.memory.committed,
    {
        if index >= self.len() {
            return None;
        }
        vstd::layout::layout_for_type_is_valid::<T>();
        let size: usize = core::mem::size_of::<T>();
        proof {
            let n = self@.values.len() as int;
            vstd::arithmetic::mul::lemma_mul_inequality(index + 1, n, size as int);
            vstd::arithmetic::mul::lemma_mul_is_distributive_add_other_way(
                size as int,
                index as int,
                1,
            );
        }
        Some(Block { addr: self.memory.base() + index * size, len: size })
    }

    /// The range to release when the arena is no longer needed; `None` if nothing is reserved.
    pub fn reservation(&self) -> (r: Option<Block>)
        ensures
            r == self@.memory.range(),
    {
        self.memory.range()
    }

    /// Destroys all values, newest first.
    ///
    /// Committed memory stays committed. The arena is empty before the first destructor runs.
    pub fn reset(&mut self)
        requires
            old(self).wf(),
        ensures
            final(self).wf(),
            final(self)@ == old(self)@.cleared(),
            final(self).commit_pages() == old(self).commit_pages(),
    {
        self.list.clear();
    }
}

impl<T, C> Drop for TypedArenaLazy<T, C> {
    /// Destroys all values, newest first.
    fn drop(&mut self)
        ensures
            old(self).inv() ==> final(self)@.dropped == old(self)@.cleared().dropped,
        opens_invariants none
        no_unwind
    {
        self.list.destroy_all();
    }
}

/// Offering a value to an arena never changes its capacity or its address, and never
/// decommits. The value comes in behind the others, or is destroyed and leaves them as they
/// are. One without size always comes in; any other is refused where the arena is full.
pub proof fn lemma_offered<T>(
    state: TypedLazyState<T>,
    value: T,
    answer: Result<(), i32>,
    placed: Option<T>,
    after: TypedLazyState<T>,
)
    requires
        state.wf(),
        state.offered(value, answer, placed) == Some(after),
    ensures
        after.wf(),
        (after.capacity, after.memory.base) == (state.capacity, state.memory.base),
        state.memory.committed <= after.memory.committed,
        match placed {
            Some(last) => {
                &&& after.values == state.values.push(last)
                &&& after.dropped == state.dropped
            },
            None => {
                &&& after.values == state.values
                &&& after.dropped == state.dropped.push(value)
            },
        },
        size_of::<T>() == 0 ==> {
            &&& placed is Some
            &&& after.memory == state.memory
            &&& after.len() == state.len()
        },
        size_of::<T>() > 0 && state.values.len() == state.capacity ==> placed is None
            && after.memory == state.memory,
{
    lemma_needs(state);
    reservation::lemma_settled(state.memory, state.needs(), answer);
}

/// One more value needs no more than what is reserved.
proof fn lemma_needs<T>(state: TypedLazyState<T>)
    requires
        state.wf(),
    ensures
        0 <= state.needs() <= state.memory.size,
{
    let size = size_of::<T>() as int;
    if size > 0 && state.has_room() {
        let n = state.values.len() as int;
        vstd::arithmetic::mul::lemma_mul_inequality(n + 1, state.capacity, size);
        vstd::arithmetic::mul::lemma_mul_nonnegative(n + 1, size);
    }
}

/// While the system grants every commit, a value is refused only where the arena is full.
pub proof fn lemma_granted<T>(state: TypedLazyState<T>)
    requires
        state.wf(),
    ensures
        state.settled(Ok(())).1 == state.has_room(),
{
    lemma_needs(state);
    reservation::lemma_granted(state.memory, state.needs());
}

/// The slots of two values share no byte.
pub proof fn lemma_slots<T>(state: TypedLazyState<T>, i: int, j: int)
    requires
        state.wf(),
        0 <= i < j < state.len(),
    ensures
        state.slot(i).disjoint(state.slot(j)),
{
    lemma_slot(state, i);
    lemma_slot(state, j);
    let size = size_of::<T>() as int;
    vstd::arithmetic::mul::lemma_mul_inequality(i + 1, j, size);
    vstd::arithmetic::mul::lemma_mul_is_distributive_add_other_way(size, i, 1);
}

/// The slot of a value is the memory at its index. It is committed, and has the alignment of
/// the type where the reservation starts with it.
pub proof fn lemma_slot<T>(state: TypedLazyState<T>, i: int)
    requires
        state.wf(),
        0 <= i < state.len(),
    ensures
        state.slot(i).addr == state.memory.base + i * size_of::<T>(),
        state.slot(i).len == size_of::<T>(),
        state.memory.base <= state.slot(i).addr,
        state.slot(i).end() <= state.memory.base + state.memory.committed,
        state.memory.base % align_of::<T>() as int == 0 ==> state.slot(i).satisfies(
            Layout::spec_new::<T>(),
        ),
{
    broadcast use vstd::layout::group_align_properties;

    let (size, align) = (size_of::<T>() as int, align_of::<T>() as int);
    let n = state.values.len() as int;
    vstd::arithmetic::mul::lemma_mul_inequality(i + 1, n, size);
    vstd::arithmetic::mul::lemma_mul_inequality(1, n, size);
    vstd::arithmetic::mul::lemma_mul_is_distributive_add_other_way(size, i, 1);
    vstd::arithmetic::mul::lemma_mul_nonnegative(i, size);
    if state.memory.base % align == 0 {
        Layout::lemma_new::<T>();
        if align > size {
            vstd::arithmetic::div_mod::lemma_small_mod(size as nat, align as nat);
        }
        align::lemma_multiple(state.memory.base, i, size, align);
    }
}

/// After a reset the arena is empty, has destroyed its values newest first, and fills the same
/// slots again without asking the system for memory that was committed before.
pub proof fn lemma_cleared<T>(state: TypedLazyState<T>)
    requires
        state.wf(),
    ensures
        state.cleared().wf(),
        state.cleared().memory == state.memory,
        state.cleared().values.len() == 0,
        state.cleared().dropped.len() == state.dropped.len() + state.values.len(),
        state.cleared().dropped.take(state.dropped.len() as int) == state.dropped,
        forall|i: int|
            0 <= i < state.values.len() ==> #[trigger] state.cleared().dropped[state.dropped.len()
                + i] == state.values[state.values.len() - 1 - i],
        state.cleared().cleared() == state.cleared(),
        forall|i: int| #[trigger] state.cleared().slot(i) == state.slot(i),
        state.values.len() > 0 ==> state.memory.missing(state.cleared().needs()) is None,
{
    assert(state.cleared().dropped.take(state.dropped.len() as int) =~= state.dropped);
    assert(state.cleared().cleared() =~= state.cleared());
    if state.values.len() > 0 {
        let size = size_of::<T>() as int;
        vstd::arithmetic::mul::lemma_mul_inequality(1, state.values.len() as int, size);
    }
}

} // verus!
