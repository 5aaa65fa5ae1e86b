//! The values that a typed arena owns, and the order in which they are destroyed.

use core::mem::ManuallyDrop;
use std::collections::VecDeque;
use vstd::prelude::*;

use crate::calls;
use crate::laws;
use crate::SingleThreaded;

verus! {

/// A place for one value, at a fixed address; what it holds is destroyed only by the list.
type Cell<T> = Box<ManuallyDrop<Option<T>>>;

/// What `cell` holds.
spec fn content<T>(cell: Cell<T>) -> Option<T> {
    (*cell)@
}

/// Values in allocation order, which are destroyed in reverse.
///
/// Every value has a cell of its own and stays at its address until it leaves the list. Cells
/// of destroyed values are kept for later ones. The list keeps a ghost record of the values
/// whose destructors it has run.
pub struct ValueList<T> {
    /// The cells in allocation order.
    cells: Vec<Cell<T>>,
    /// The values of the first `front` cells have left.
    front: usize,
    /// The number of cells.
    end: usize,
    /// Empty cells.
    spare: Vec<Cell<T>>,
    dropped: Ghost<Seq<T>>,
    marker: SingleThreaded,
}

/// The value inside `held`, for writing, by [`core::ops::DerefMut::deref_mut`].
///
/// Claims that it is the value that `held` was made from, that `held` has what is written to
/// it, and that the call does not panic.
#[verifier::external_body]
fn held_mut<V>(held: &mut ManuallyDrop<V>) -> (r: &mut V)
    ensures
        *r == old(held)@,
        final(held)@ == *final(r),
    opens_invariants none
    no_unwind
{
    core::ops::DerefMut::deref_mut(held)
}

/// The element of `cells` at `k`, for writing, by [`slice::get_mut`].
///
/// Claims what its documentation says: `None` where `k` is out of bounds, and otherwise a
/// reference to that element alone. The call does not panic.
#[verifier::external_body]
fn cell_mut<V>(cells: &mut Vec<V>, k: usize) -> (r: Option<&mut V>)
    ensures
        match r {
            Some(cell) => k < old(cells)@.len() && *cell == old(cells)@[k as int] && final(cells)@
                == old(cells)@.update(k as int, *final(cell)),
            None => k >= old(cells)@.len() && final(cells)@ == old(cells)@,
        },
    opens_invariants none
    no_unwind
{
    cells.get_mut(k)
}

/// Takes the value out of a cell.
fn take_out<T>(cell: &mut ManuallyDrop<Option<T>>) -> (r: Option<T>)
    ensures
        r == old(cell)@,
        final(cell)@ is None,
    opens_invariants none
    no_unwind
{
    let mut out: Option<T> = None;
    core::mem::swap(held_mut(cell), &mut out);
    out
}

/// References to what `cells` hold, for writing.
fn contents_mut<T>(cells: &mut [Cell<T>]) -> (r: Vec<&mut T>)
    requires
        forall|k: int|
            0 <= k < old(cells)@.len() ==> content(#[trigger] old(cells)@[k]) is Some,
    ensures
        r@.len() == old(cells)@.len() == final(cells)@.len(),
        forall|i: int|
            0 <= i < r@.len() ==> content(#[trigger] old(cells)@[i]) == Some(*r@[i]),
        forall|i: int|
            0 <= i < r@.len() ==> content(#[trigger] final(cells)@[i]) == Some(*final(r@[i])),
{
    let ghost all = cells@;
    let mut r: Vec<&mut T> = Vec::new();
    let mut rest = cells;
    while rest.len() > 0
        invariant
            forall|k: int| 0 <= k < all.len() ==> content(#[trigger] all[k]) is Some,
            r@.len() + rest@.len() == all.len(),
            rest@ == all.skip(r@.len() as int),
            forall|i: int| 0 <= i < r@.len() ==> content(#[trigger] all[i]) == Some(*r@[i]),
            final(cells)@.len() == r@.len() + final(rest)@.len(),
            final(cells)@.skip(r@.len() as int) == final(rest)@,
            forall|i: int|
                0 <= i < r@.len() ==> content(#[trigger] final(cells)@[i]) == Some(*final(r@[i])),
        decreases rest@.len(),
    {
        let ghost n = r@.len() as int;
        let (head, tail) = rest.split_at_mut(1);
        assert(final(cells)@.skip(n) == final(head)@ + final(tail)@);
        assert(final(head)@.len() == 1 ==> final(cells)@.skip(n).skip(1) =~= final(tail)@);
        assert(final(head)@.len() == 1 ==> final(cells)@.skip(n + 1) =~= final(cells)@.skip(
            n,
        ).skip(1));
        assert(final(head)@.len() == 1 ==> final(cells)@[n] == final(cells)@.skip(n)[0]);
        rest = tail;
        if let Some(cell) = head.first_mut() {
            if let Some(value) = held_mut(&mut **cell) {
                r.push(value);
            }
        }
    }
    r
}

impl<T> ValueList<T> {
    /// The values, oldest first.
    pub closed spec fn values(&self) -> Seq<T> {
        Seq::new(
            (self.end - self.front) as nat,
            |i: int| content(self.cells@[self.front + i])->0,
        )
    }

    /// The values whose destructors have run, in that order.
    pub closed spec fn dropped(&self) -> Seq<T> {
        self.dropped@
    }

    /// Whether the cells that count hold values, and all others are empty.
    pub closed spec fn wf(&self) -> bool {
        &&& self.front <= self.end == self.cells@.len()
        &&& forall|k: int|
            self.front <= k < self.end ==> content(#[trigger] self.cells@[k]) is Some
        &&& forall|k: int| 0 <= k < self.front ==> content(#[trigger] self.cells@[k]) is None
        &&& forall|k: int|
            0 <= k < self.spare@.len() ==> content(#[trigger] self.spare@[k]) is None
    }

    /// What each cell of the list holds, the idle ones last.
    pub closed spec fn contents(&self) -> Seq<Option<T>> {
        Seq::new(
            self.cells@.len() + self.spare@.len(),
            |k: int|
                if k < self.cells@.len() {
                    content(self.cells@[k])
                } else {
                    content(self.spare@[k - self.cells@.len()])
                },
        )
    }

    /// The number of cells whose values have been taken out.
    pub closed spec fn first(&self) -> nat {
        self.front as nat
    }

    /// The number of idle cells.
    pub closed spec fn idle(&self) -> nat {
        self.spare@.len()
    }

    /// A list without values.
    pub fn new() -> (list: ValueList<T>)
        ensures
            list.wf(),
            list.values() == Seq::<T>::empty(),
            list.dropped() == Seq::<T>::empty(),
    {
        ValueList {
            cells: Vec::new(),
            front: 0,
            end: 0,
            spare: Vec::new(),
            dropped: Ghost(Seq::empty()),
            marker: SingleThreaded::new(),
        }
    }

    /// The number of values.
    pub fn len(&self) -> (r: usize)
        requires
            self.wf(),
        ensures
            r == self.values().len(),
    {
        self.end - self.front
    }

    /// Appends `value`, and returns it for use in place.
    pub fn push(&mut self, value: T) -> (r: &mut T)
        requires
            old(self).wf(),
        ensures
            final(self).wf(),
            *r == value,
            final(self).values() == old(self).values().push(*final(r)),
            final(self).dropped() == old(self).dropped(),
            old(self).idle() > 0 ==> final(self).contents().len() == old(self).contents().len(),
            old(self).idle() == 0 ==> final(self).contents().len() == old(self).contents().len()
                + 1,
    {
        let cell: Cell<T> = match self.spare.pop() {
            Some(cell) => cell,
            None => Box::new(ManuallyDrop::new(None)),
        };
        let last: usize = self.cells.len();
        self.cells.push(cell);
        self.end = self.cells.len();
        held_mut(&mut *self.cells[last]).insert(value)
    }

    /// Takes the oldest value out of the list, without running its destructor.
    pub fn take_first(&mut self) -> (r: Option<T>)
        requires
            old(self).wf(),
        ensures
            final(self).wf(),
            final(self).dropped() == old(self).dropped(),
            match r {
                Some(value) => old(self).values().len() > 0 && value == old(self).values()[0]
                    && final(self).values() == old(self).values().skip(1),
                None => old(self).values().len() == 0 && final(self).values() == old(
                    self,
                ).values(),
            },
    {
        if self.front >= self.end {
            return None;
        }
        let first: usize = self.front;
        self.front = first + 1;
        let r = take_out(&mut *self.cells[first]);
        assert(self.values() =~= old(self).values().skip(1));
        r
    }

    /// Takes the newest value out of the list, without running its destructor.
    pub fn take_last(&mut self) -> (r: Option<T>)
        requires
            old(self).wf(),
        ensures
            final(self).wf(),
            final(self).dropped() == old(self).dropped(),
            match r {
                Some(value) => old(self).values().len() > 0 && value == old(self).values().last()
                    && final(self).values() == old(self).values().drop_last(),
                None => old(self).values().len() == 0 && final(self).values() == old(
                    self,
                ).values(),
            },
    {
        if self.front >= self.end {
            return None;
        }
        match self.cells.pop() {
            Some(cell) => {
                let mut cell = cell;
                self.end = self.end - 1;
                assert(self.values() =~= old(self).values().drop_last());
                take_out(&mut *cell)
            },
            None => None,
        }
    }

    /// The value at `index`, counted from the oldest; `None` where there is none.
    pub fn get(&self, index: usize) -> (r: Option<&T>)
        requires
            self.wf(),
        ensures
            r == (if index < self.values().len() {
                Some(&self.values()[index as int])
            } else {
                None
            }),
    {
        if index < self.end - self.front {
            core::ops::Deref::deref(&*self.cells[self.front + index]).as_ref()
        } else {
            None
        }
    }

    /// References to the values, oldest first.
    pub fn refs(&self) -> (r: VecDeque<&T>)
        requires
            self.wf(),
        ensures
            r@.len() == self.values().len(),
            forall|i: int| 0 <= i < r@.len() ==> *#[trigger] r@[i] == self.values()[i],
    {
        let mut r: VecDeque<&T> = VecDeque::new();
        let mut k: usize = self.front;
        while k < self.end
            invariant
                self.wf(),
                self.front <= k <= self.end,
                r@.len() == k - self.front,
                forall|i: int| 0 <= i < r@.len() ==> *#[trigger] r@[i] == self.values()[i],
            decreases self.end - k,
        {
            let held: &Option<T> = core::ops::Deref::deref(&*self.cells[k]);
            if let Some(value) = held {
                r.push_back(value);
            }
            k = k + 1;
        }
        r
    }

    /// References to the values for writing, oldest first.
    pub fn refs_mut(&mut self) -> (r: Vec<&mut T>)
        requires
            old(self).wf(),
        ensures
            r@.len() == old(self).values().len(),
            forall|i: int| 0 <= i < r@.len() ==> *#[trigger] r@[i] == old(self).values()[i],
            final(self).wf(),
            final(self).values().len() == r@.len(),
            forall|i: int|
                0 <= i < r@.len() ==> #[trigger] final(self).values()[i] == *final(r@[i]),
            final(self).dropped() == old(self).dropped(),
    {
        let ghost all = self.cells@;
        let front: usize = self.front;
        let (_, cells) = self.cells.as_mut_slice().split_at_mut(front);
        let ghost counted = cells@;
        assert(counted =~= all.skip(front as int));
        let r = contents_mut(cells);
        assert forall|i: int| 0 <= i < r@.len() implies *#[trigger] r@[i] == old(
            self,
        ).values()[i] by {
            assert(content(counted[i]) == Some(*r@[i]));
        }
        r
    }

    /// Destroys all values, newest first.
    ///
    /// The list is empty before the first destructor runs, and stays so if one panics; the
    /// values behind it are then leaked.
    pub fn destroy_all(&mut self)
        ensures
            old(self).wf() ==> {
                &&& final(self).wf()
                &&& final(self).values() == Seq::<T>::empty()
                &&& final(self).dropped() == old(self).dropped() + old(self).values().reverse()
                &&& final(self).contents().len() == old(self).contents().len()
            },
        opens_invariants none
        no_unwind
    {
        let first: usize = self.front;
        let mut k: usize = self.end;
        self.front = k;
        while k > first
            invariant
                k <= self.end,
                self.front == self.end == old(self).end,
                self.cells@.len() == old(self).cells@.len(),
                first == old(self).front,
                self.spare == old(self).spare,
                forall|j: int| 0 <= j < k ==> self.cells@[j] == old(self).cells@[j],
                forall|j: int|
                    k <= j < self.end && j < self.cells@.len() ==> content(
                        #[trigger] self.cells@[j],
                    ) is None,
                old(self).wf() ==> first <= k && self.dropped() == old(self).dropped()
                    + old(self).values().skip(k - first).reverse(),
            decreases k,
        {
            k = k - 1;
            let doomed: Option<T> = match cell_mut(&mut self.cells, k) {
                Some(cell) => take_out(&mut **cell),
                None => None,
            };
            proof {
                if let Some(value) = doomed {
                    self.dropped@ = self.dropped@.push(value);
                }
                let all = old(self).values();
                if old(self).wf() {
                    assert(all.skip(k - first).reverse() =~= all.skip(k + 1 - first).reverse().push(
                        all[k - first],
                    ));
                }
            }
        }
        assert(old(self).wf() ==> old(self).values().skip(0) =~= old(self).values());
    }

    /// Destroys all values, newest first, and keeps their cells for later ones.
    ///
    /// A cell that still holds a value, which an earlier panic left behind, is let go with it;
    /// the value stays leaked.
    pub fn clear(&mut self)
        requires
            old(self).wf(),
        ensures
            final(self).wf(),
            final(self).values() == Seq::<T>::empty(),
            final(self).dropped() == old(self).dropped() + old(self).values().reverse(),
            final(self).contents().len() == old(self).contents().len(),
            final(self).idle() == final(self).contents().len(),
    {
        self.destroy_all();
        assert(self.values().len() == 0);
        self.front = 0;
        self.end = 0;
        loop
            invariant_except_break
                self.front == self.end == 0,
                self.contents().len() == old(self).contents().len(),
                forall|k: int|
                    0 <= k < self.cells@.len() ==> content(#[trigger] self.cells@[k]) is None,
                forall|k: int|
                    0 <= k < self.spare@.len() ==> content(#[trigger] self.spare@[k]) is None,
                self.dropped() == old(self).dropped() + old(self).values().reverse(),
            ensures
                self.front == self.end == 0,
                self.cells@.len() == 0,
                self.contents().len() == old(self).contents().len(),
                forall|k: int|
                    0 <= k < self.spare@.len() ==> content(#[trigger] self.spare@[k]) is None,
                self.dropped() == old(self).dropped() + old(self).values().reverse(),
            decreases self.cells@.len(),
        {
            match self.cells.pop() {
                Some(cell) => {
                    let held: &Option<T> = core::ops::Deref::deref(&*cell);
                    if held.is_none() {
                        self.spare.push(cell);
                    }
                },
                None => break,
            }
        }
    }

    /// Runs the destructor of `value`.
    pub fn destroy(&mut self, value: T)
        ensures
            old(self).wf() ==> final(self).wf(),
            final(self).values() == old(self).values(),
            final(self).dropped() == old(self).dropped().push(value),
    {
        proof {
            self.dropped@ = self.dropped@.push(value);
        }
    }
}

impl<T> Drop for ValueList<T> {
    /// Destroys all values, newest first.
    fn drop(&mut self)
        ensures
            old(self).wf() ==> final(self).dropped() == old(self).dropped() + old(
                self,
            ).values().reverse(),
        opens_invariants none
        no_unwind
    {
        self.destroy_all();
    }
}

/// The cells that hold something are those of the values, in their order; no other cell holds a
/// value that was destroyed or taken out.
pub proof fn lemma_contents<T>(list: ValueList<T>)
    requires
        list.wf(),
    ensures
        list.first() + list.values().len() + list.idle() == list.contents().len(),
        forall|k: int|
            0 <= k < list.contents().len() ==> #[trigger] list.contents()[k] == (if list.first()
                <= k < list.first() + list.values().len() {
                Some(list.values()[k - list.first()])
            } else {
                None
            }),
{
}

/// A value is appended behind the others; none is destroyed by it, and an idle cell is used
/// where there is one.
pub proof fn law_call_push<T>(list: &mut ValueList<T>, value: T, r: &mut T)
    requires
        old(list).wf(),
    ensures
        call_requires(ValueList::<T>::push, (list, value)),
        call_ensures(ValueList::<T>::push, (list, value), r) ==> {
            &&& final(list).wf()
            &&& *old(r) == value
            &&& final(list).values() == old(list).values().push(*final(r))
            &&& final(list).dropped() == old(list).dropped()
            &&& final(list).contents().len() == old(list).contents().len() + (if old(list).idle()
                > 0 {
                0int
            } else {
                1int
            })
        },
{
}

/// Taking a value out from either side leaves the others, and runs no destructor.
pub proof fn law_call_take<T>(list: &mut ValueList<T>, r: Option<T>)
    requires
        old(list).wf(),
    ensures
        call_requires(ValueList::<T>::take_first, (list,)),
        call_ensures(ValueList::<T>::take_first, (list,), r) ==> {
            &&& final(list).wf()
            &&& final(list).dropped() == old(list).dropped()
            &&& calls::from_front(old(list).values(), final(list).values(), r)
        },
        call_requires(ValueList::<T>::take_last, (list,)),
        call_ensures(ValueList::<T>::take_last, (list,), r) ==> {
            &&& final(list).wf()
            &&& final(list).dropped() == old(list).dropped()
            &&& calls::from_back(old(list).values(), final(list).values(), r)
        },
{
}

/// Destroying all values destroys each of them once, the newest first, and loses no cell; after
/// clearing the list, every cell is idle. Destroying one that is not in the list leaves the list.
pub proof fn law_call_destroy<T>(list: &mut ValueList<T>, value: T)
    requires
        old(list).wf(),
    ensures
        call_requires(ValueList::<T>::destroy_all, (list,)),
        call_requires(ValueList::<T>::clear, (list,)),
        call_ensures(ValueList::<T>::destroy_all, (list,), ()) || call_ensures(
            ValueList::<T>::clear,
            (list,),
            (),
        ) ==> {
            &&& final(list).wf()
            &&& final(list).values().len() == 0
            &&& final(list).contents().len() == old(list).contents().len()
            &&& laws::destroyed_in_reverse(
                old(list).dropped(),
                old(list).values(),
                final(list).dropped(),
            )
        },
        call_ensures(ValueList::<T>::clear, (list,), ()) ==> {
            final(list).idle() == final(list).contents().len()
        },
        call_requires(ValueList::<T>::destroy, (list, value)),
        call_ensures(ValueList::<T>::destroy, (list, value), ()) ==> {
            &&& final(list).wf()
            &&& final(list).values() == old(list).values()
            &&& final(list).dropped() == old(list).dropped().push(value)
        },
{
}

} // verus!
