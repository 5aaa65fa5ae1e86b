//! What each call of the library demands, answers and changes, in the words of [`laws`].
//!
//! A law here takes the arguments of a call and what it answered. It says when the call may be
//! made, and what then holds of the answer and of the arena before and after. A [`TypedArenaRef`]
//! goes by the name of an arena for visits.
//!
//! [`laws`]: crate::laws

use vstd::arithmetic::power2::is_pow2;
use vstd::layout::{align_of, size_of};
use vstd::prelude::*;

use crate::block::Block;
use crate::bump_arena::BumpArena;
use crate::bump_arena_lazy::{BumpArenaLazy, LazyState};
use crate::laws;
use crate::layout::{Layout, LayoutError};
use crate::reservation::{Reservation, ReservedState};
use crate::sys;
use crate::typed_arena::{DrainIter, TypedArena};
use crate::typed_arena_lazy::{TypedArenaLazy, TypedLazyState};
use crate::typed_arena_ref::{IntoIter, Iter, IterMut, Snapshot, TypedArenaRef};
use crate::typed_store;
use crate::{AllocError, UninitAllocator};

verus! {

/// Every allocator hands out blocks of the size and alignment asked for, in its memory, apart from
/// all that are live. A block that has bytes joins the live ones; otherwise they stay.
pub proof fn law_call_allocator<A: UninitAllocator>(
    allocator: &mut A,
    layout: Layout,
    r: Option<Block>,
)
    requires
        old(allocator).valid(),
    ensures
        call_requires(A::try_alloc_uninit, (allocator, layout)),
        call_ensures(A::try_alloc_uninit, (allocator, layout), r) ==> {
            let (live, region) = (old(allocator).live(), old(allocator).region());
            &&& final(allocator).valid()
            &&& final(allocator).region() == region
            &&& A::alloc_step(*old(allocator), layout, *final(allocator), r)
            &&& r matches Some(b) ==> {
                &&& b.len == layout.size()
                &&& laws::divides(layout.align() as int, b.addr as int)
                &&& b.len > 0 ==> region.0 <= b.addr && b.addr + b.len <= region.0 + region.1
                &&& forall|i: int, x: int|
                    0 <= i < live.len() ==> !(#[trigger] laws::byte_of(live[i], x)
                        && laws::byte_of(b, x))
            }
            &&& final(allocator).live() == (match r {
                Some(b) if b.len > 0 => live.push(b),
                _ => live,
            })
        },
{
    if let Some(b) = r {
        let live = old(allocator).live();
        if forall|i: int| 0 <= i < live.len() ==> b.disjoint(#[trigger] live[i]) {
            assert forall|i: int, x: int| 0 <= i < live.len() implies !(#[trigger] laws::byte_of(
                live[i],
                x,
            ) && laws::byte_of(b, x)) by {
                assert(b.disjoint(live[i]));
            }
        }
    }
}

/// A new reservation is that of the range that the reserve call answered with; a refusal of that
/// call is the answer. For no bytes it is not asked, and the range stands at `dangling`.
pub proof fn law_call_reservation_new<
    R: FnOnce(usize) -> Result<usize, i32>,
    C: Fn(usize, usize) -> Result<(), i32>,
>(
    size: usize,
    dangling: usize,
    page: usize,
    reserve: R,
    commit: C,
    r: Result<Reservation<C>, i32>,
)
    requires
        dangling > 0,
        page > 0,
        size == 0 || laws::reserves_pages(reserve, commit, size, page),
    ensures
        call_requires(Reservation::<C>::try_new::<R>, (size, dangling, page, reserve, commit)),
        call_ensures(Reservation::<C>::try_new::<R>, (size, dangling, page, reserve, commit), r)
            ==> match r {
            Ok(memory) => {
                &&& memory.wf()
                &&& memory.commit_pages() == commit
                &&& memory@.size == size
                &&& memory@.page == page
                &&& memory@.committed == 0
                &&& memory@.os_error == 0
                &&& size == 0 ==> memory@.base == dangling
                &&& size > 0 ==> call_ensures(
                    reserve,
                    (size,),
                    Ok::<usize, i32>(memory@.base as usize),
                )
            },
            Err(code) => size > 0 && call_ensures(reserve, (size,), Err::<usize, i32>(code)),
        },
{
    if size > 0 {
        laws::law_reserves(reserve, commit, size, page);
    }
}

/// A reservation asks the commit call for the bytes up to `t`, the pages that cover what is
/// needed, where they are not committed, and tells their range. Where they are it tells none.
pub proof fn law_call_reservation_ask<C: Fn(usize, usize) -> Result<(), i32>>(
    memory: &Reservation<C>,
    end: usize,
    t: int,
    answer: Result<(), i32>,
    range: Option<Block>,
)
    requires
        memory.wf(),
        end <= memory@.size,
        laws::page_cover(end as int, memory@.page, memory@.size, t),
    ensures
        call_requires(Reservation::<C>::ask, (memory, end)),
        call_ensures(Reservation::<C>::ask, (memory, end), answer) && end > memory@.committed
            ==> laws::commit_answers(
            memory.commit_pages(),
            memory@.base,
            memory@.committed,
            t,
            answer,
        ),
        call_requires(Reservation::<C>::missing, (memory, end)),
        call_ensures(Reservation::<C>::missing, (memory, end), range) ==> match range {
            Some(b) => {
                &&& end > memory@.committed
                &&& b.addr == memory@.base + memory@.committed
                &&& laws::page_cover(
                    end as int,
                    memory@.page,
                    memory@.size,
                    b.addr + b.len - memory@.base,
                )
            },
            None => end <= memory@.committed,
        },
{
    laws::law_reserved_missing(memory@, end as int);
    if end > memory@.committed {
        laws::law_may_answer(memory.commit_pages(), memory@, end as int, answer, t);
    }
}

/// Whether a reservation turns from `before` into `after` when `end` bytes are needed and the
/// system answered with `answer`, as it should, and the bytes are `usable` then.
pub open spec fn noted(
    before: ReservedState,
    end: int,
    answer: Result<(), i32>,
    after: ReservedState,
    usable: bool,
) -> bool {
    &&& after.base == before.base
    &&& after.size == before.size
    &&& after.page == before.page
    &&& if end <= before.committed {
        usable && after == before
    } else {
        match answer {
            Ok(_) => {
                &&& usable
                &&& laws::page_cover(end, before.page, before.size, after.committed)
                &&& after.os_error == before.os_error
            },
            Err(code) => {
                &&& !usable
                &&& after.committed == before.committed
                &&& after.os_error == code
            },
        }
    }
}

/// A reservation takes note of the answer to what it asked for.
pub proof fn law_call_reservation_settle<C: Fn(usize, usize) -> Result<(), i32>>(
    memory: &mut Reservation<C>,
    end: usize,
    answer: Result<(), i32>,
    usable: bool,
)
    requires
        old(memory).wf(),
        end <= old(memory)@.size,
    ensures
        call_requires(Reservation::<C>::settle, (memory, end, answer)),
        call_ensures(Reservation::<C>::settle, (memory, end, answer), usable) ==> {
            &&& final(memory).wf()
            &&& final(memory).commit_pages() == old(memory).commit_pages()
            &&& noted(old(memory)@, end as int, answer, final(memory)@, usable)
        },
{
    if (final(memory)@, usable) == old(memory)@.settled(end as int, answer) {
        laws::law_reserved_settled(
            old(memory)@,
            end as int,
            answer,
            final(memory)@,
            usable,
        );
    }
}

/// What a reservation tells of itself: where it starts, how many bytes it has, how many of them
/// are committed, the code of the last refused commit if one was refused, and the whole range if
/// it is not empty.
pub proof fn law_call_reservation_reports<C: Fn(usize, usize) -> Result<(), i32>>(
    memory: &Reservation<C>,
    n: usize,
    code: Option<i32>,
    range: Option<Block>,
)
    requires
        memory.wf(),
    ensures
        call_requires(Reservation::<C>::base, (memory,)),
        call_ensures(Reservation::<C>::base, (memory,), n) ==> n == memory@.base,
        call_requires(Reservation::<C>::size, (memory,)),
        call_ensures(Reservation::<C>::size, (memory,), n) ==> n == memory@.size,
        call_requires(Reservation::<C>::committed, (memory,)),
        call_ensures(Reservation::<C>::committed, (memory,), n) ==> n == memory@.committed,
        call_requires(Reservation::<C>::last_os_error_code, (memory,)),
        call_ensures(Reservation::<C>::last_os_error_code, (memory,), code) ==> match code {
            Some(c) => c == memory@.os_error && c != 0,
            None => memory@.os_error == 0,
        },
        call_requires(Reservation::<C>::range, (memory,)),
        call_ensures(Reservation::<C>::range, (memory,), range) ==> match range {
            Some(b) => b.addr == memory@.base && b.len == memory@.size && b.len > 0,
            None => memory@.size == 0,
        },
{
    laws::law_reserved_reports(memory@);
}

/// A new bump arena has the bytes asked for, and nothing is handed out.
pub proof fn law_call_bump_new(capacity: usize, arena: BumpArena)
    requires
        capacity <= isize::MAX,
    ensures
        call_requires(BumpArena::new, (capacity,)),
        call_ensures(BumpArena::new, (capacity,), arena) ==> {
            &&& arena.wf()
            &&& arena@.bytes.len() == capacity
            &&& arena@.used == 0
            &&& arena@.blocks.len() == 0
        },
{
}

/// A request to a bump arena is answered by first fit, under all its names.
pub proof fn law_call_bump_alloc(arena: &mut BumpArena, layout: Layout, r: Option<Block>)
    requires
        old(arena).wf(),
        layout.valid(),
    ensures
        call_requires(BumpArena::try_alloc_uninit, (arena, layout)),
        call_requires(BumpArena::alloc_uninit_slice, (arena, layout)),
        call_ensures(BumpArena::try_alloc_uninit, (arena, layout), r) || call_ensures(
            BumpArena::alloc_uninit_slice,
            (arena, layout),
            r,
        ) ==> {
            &&& final(arena).wf()
            &&& laws::bump_answered(old(arena)@, layout, final(arena)@, r)
        },
{
    if (final(arena)@, r) == old(arena)@.serve(layout) {
        laws::law_bump_serve(old(arena)@, layout, final(arena)@, r);
    }
}

/// A request that must not fail can be made where `addr` is an aligned place for it, and is
/// answered by first fit.
pub proof fn law_call_bump_alloc_uninit(arena: &mut BumpArena, layout: Layout, addr: int, b: Block)
    requires
        old(arena).wf(),
        layout.valid(),
        layout.size() == 0 || {
            &&& laws::divides(layout.align() as int, addr)
            &&& old(arena)@.base + old(arena)@.used <= addr
            &&& addr + layout.size() <= old(arena)@.base + old(arena)@.bytes.len()
        },
    ensures
        call_requires(BumpArena::alloc_uninit, (arena, layout)),
        call_ensures(BumpArena::alloc_uninit, (arena, layout), b) ==> {
            &&& final(arena).wf()
            &&& laws::bump_answered(old(arena)@, layout, final(arena)@, Some(b))
        },
{
    if layout.size() > 0 {
        laws::law_bump_fits(old(arena)@, layout, addr);
    }
    if (final(arena)@, Some(b)) == old(arena)@.serve(layout) {
        laws::law_bump_serve(old(arena)@, layout, final(arena)@, Some(b));
    }
}

/// An allocation in a bump arena is answered by first fit, with an error where nothing fits.
pub proof fn law_call_bump_allocate(
    arena: &mut BumpArena,
    layout: Layout,
    r: Result<Block, AllocError>,
)
    requires
        old(arena).wf(),
        layout.valid(),
    ensures
        call_requires(BumpArena::allocate, (arena, layout)),
        call_ensures(BumpArena::allocate, (arena, layout), r) ==> {
            &&& final(arena).wf()
            &&& laws::bump_answered(old(arena)@, layout, final(arena)@, r.ok())
        },
{
    let (after, b) = old(arena)@.serve(layout);
    laws::law_bump_serve(old(arena)@, layout, after, b);
}

/// A reset moves the bump pointer to the start and ends all blocks; no byte changes. Giving one
/// block back does nothing.
pub proof fn law_call_bump_reset(arena: &mut BumpArena, addr: usize, layout: Layout)
    requires
        old(arena).wf(),
    ensures
        call_requires(BumpArena::reset, (arena,)),
        call_ensures(BumpArena::reset, (arena,), ()) ==> {
            &&& final(arena).wf()
            &&& final(arena)@.base == old(arena)@.base
            &&& final(arena)@.bytes == old(arena)@.bytes
            &&& final(arena)@.used == 0
            &&& final(arena)@.blocks.len() == 0
        },
        call_requires(BumpArena::deallocate, (arena, addr, layout)),
        call_ensures(BumpArena::deallocate, (arena, addr, layout), ()) ==> *final(arena) == *old(
            arena,
        ),
{
}

/// What a bump arena tells of itself: how many bytes it has, how many lie before the bump
/// pointer, and where they start.
pub proof fn law_call_bump_reports(arena: &BumpArena, r: usize)
    ensures
        call_requires(BumpArena::capacity, (arena,)),
        call_ensures(BumpArena::capacity, (arena,), r) ==> r == arena@.bytes.len(),
        call_requires(BumpArena::used, (arena,)),
        call_ensures(BumpArena::used, (arena,), r) ==> r == arena@.used,
        call_requires(BumpArena::base, (arena,)),
        call_ensures(BumpArena::base, (arena,), r) ==> r == arena@.base,
{
}

/// A block that is empty or lies below the bump pointer can be read, and holds the bytes at its
/// addresses.
pub proof fn law_call_bump_bytes(arena: &BumpArena, b: Block, r: &[u8])
    requires
        arena.wf(),
        b.len > 0 ==> arena@.base <= b.addr && b.addr + b.len <= arena@.base + arena@.used,
    ensures
        call_requires(BumpArena::bytes, (arena, b)),
        call_ensures(BumpArena::bytes, (arena, b), r) ==> {
            &&& r@.len() == b.len
            &&& forall|k: int|
                0 <= k < b.len ==> #[trigger] r@[k] == arena@.bytes[b.addr - arena@.base + k]
        },
{
    laws::law_bump_contents(arena@, b, Seq::new(b.len as nat, |k: int| 0));
}

/// A block that is empty or lies below the bump pointer can be written. What is written ends up
/// at its addresses; no other byte and nothing else changes.
pub proof fn law_call_bump_bytes_mut(arena: &mut BumpArena, b: Block, r: &mut [u8])
    requires
        old(arena).wf(),
        b.len > 0 ==> old(arena)@.base <= b.addr && b.addr + b.len <= old(arena)@.base + old(
            arena,
        )@.used,
    ensures
        call_requires(BumpArena::bytes_mut, (arena, b)),
        call_ensures(BumpArena::bytes_mut, (arena, b), r) ==> {
            &&& old(r)@.len() == b.len
            &&& forall|k: int|
                0 <= k < b.len ==> #[trigger] old(r)@[k] == old(arena)@.bytes[b.addr - old(
                    arena,
                )@.base + k]
            &&& final(r)@.len() == b.len ==> {
                let (before, after) = (old(arena)@, final(arena)@);
                &&& final(arena).wf()
                &&& after.base == before.base
                &&& after.used == before.used
                &&& after.blocks == before.blocks
                &&& after.bytes.len() == before.bytes.len()
                &&& forall|k: int|
                    0 <= k < before.bytes.len() ==> #[trigger] after.bytes[k] == (if laws::byte_of(
                        b,
                        before.base + k,
                    ) {
                        final(r)@[before.base + k - b.addr]
                    } else {
                        before.bytes[k]
                    })
            }
        },
{
    let contents = if final(r)@.len() == b.len {
        final(r)@
    } else {
        Seq::new(b.len as nat, |k: int| 0)
    };
    laws::law_bump_contents(old(arena)@, b, contents);
}

/// A block of a bump arena is grown exactly if it can be in place, and keeps its address; with
/// zeros, the bytes that it gains are zero and no other byte changes. Where it cannot, nothing
/// changes.
pub proof fn law_call_bump_grow(
    arena: &mut BumpArena,
    addr: usize,
    old_layout: Layout,
    new_layout: Layout,
    r: Result<Block, AllocError>,
)
    requires
        old(arena).wf(),
    ensures
        call_requires(BumpArena::grow, (arena, addr, old_layout, new_layout)),
        call_requires(BumpArena::grow_zeroed, (arena, addr, old_layout, new_layout)),
        call_ensures(BumpArena::grow, (arena, addr, old_layout, new_layout), r) || call_ensures(
            BumpArena::grow_zeroed,
            (arena, addr, old_layout, new_layout),
            r,
        ) ==> {
            let before = old(arena)@;
            &&& final(arena).wf()
            &&& r is Ok <==> laws::grows_in_place(
                before.base,
                before.used,
                before.bytes.len() as int,
                addr as int,
                old_layout.size() as int,
                new_layout,
            )
            &&& r matches Ok(b) ==> b == (Block { addr, len: new_layout.size() })
            &&& r is Err ==> final(arena)@ == before
        },
        call_ensures(BumpArena::grow, (arena, addr, old_layout, new_layout), r) && r is Ok
            ==> laws::bump_resized(old(arena)@, addr, new_layout.size(), final(arena)@),
        call_ensures(BumpArena::grow_zeroed, (arena, addr, old_layout, new_layout), r) && r is Ok
            ==> {
            let (before, after) = (old(arena)@, final(arena)@);
            let start = addr - before.base;
            &&& after.base == before.base
            &&& after.used == start + new_layout.size()
            &&& laws::last_replaced(before.blocks, addr, new_layout.size(), after.blocks)
            &&& after.bytes.len() == before.bytes.len()
            &&& forall|k: int|
                0 <= k < before.bytes.len() ==> #[trigger] after.bytes[k] == (if start
                    + old_layout.size() <= k < start + new_layout.size() {
                    0
                } else {
                    before.bytes[k]
                })
        },
{
    let (old_size, new_size) = (old_layout.size(), new_layout.size());
    laws::law_bump_resizable(old(arena)@, addr as int, old_size as int, new_layout);
    laws::law_bump_resized(old(arena)@, addr, new_size);
    if old(arena)@.can_grow(addr as int, old_size as int, new_layout) {
        laws::law_bump_grow_zeroed(old(arena)@, addr, old_size, new_size);
    }
}

/// A block of a bump arena is cut exactly if it can be in place, and keeps its address; no byte
/// changes. Where it cannot, nothing changes.
pub proof fn law_call_bump_shrink(
    arena: &mut BumpArena,
    addr: usize,
    old_layout: Layout,
    new_layout: Layout,
    r: Result<Block, AllocError>,
)
    requires
        old(arena).wf(),
    ensures
        call_requires(BumpArena::shrink, (arena, addr, old_layout, new_layout)),
        call_ensures(BumpArena::shrink, (arena, addr, old_layout, new_layout), r) ==> {
            &&& final(arena).wf()
            &&& r is Ok <==> laws::shrinks_in_place(
                old(arena)@.base,
                old(arena)@.used,
                addr as int,
                old_layout.size() as int,
                new_layout,
            )
            &&& match r {
                Ok(b) => {
                    &&& b == (Block { addr, len: new_layout.size() })
                    &&& laws::bump_resized(
                        old(arena)@,
                        addr,
                        new_layout.size(),
                        final(arena)@,
                    )
                },
                Err(_) => final(arena)@ == old(arena)@,
            }
        },
{
    laws::law_bump_resizable(old(arena)@, addr as int, old_layout.size() as int, new_layout);
    laws::law_bump_resized(old(arena)@, addr, new_layout.size());
}

/// Whether `state` is that of a lazy arena over the `size` bytes reserved at `base`, with
/// nothing committed and nothing handed out.
pub open spec fn lazy_untouched(state: LazyState, base: int, size: int, page: int) -> bool {
    &&& state.memory.base == base
    &&& state.memory.size == size
    &&& state.memory.page == page
    &&& state.memory.committed == 0
    &&& state.memory.os_error == 0
    &&& state.used == 0
    &&& state.blocks.len() == 0
}

/// A new lazy arena is one over the range that the reserve call answered with for the bytes
/// asked for; a refusal of that call is the answer. For no bytes it is not asked, and the arena
/// stands at the first address behind null.
pub proof fn law_call_lazy_new<
    R: FnOnce(usize) -> Result<usize, i32>,
    C: Fn(usize, usize) -> Result<(), i32>,
>(
    capacity: usize,
    page: usize,
    reserve: R,
    commit: C,
    r: Result<BumpArenaLazy<C>, i32>,
    arena: BumpArenaLazy<C>,
)
    requires
        page > 0,
        capacity == 0 || laws::reserves_pages(reserve, commit, capacity, page),
    ensures
        call_requires(BumpArenaLazy::<C>::try_new::<R>, (capacity, page, reserve, commit)),
        call_ensures(BumpArenaLazy::<C>::try_new::<R>, (capacity, page, reserve, commit), r) ==> {
            &&& r matches Ok(arena) ==> {
                &&& arena.wf()
                &&& arena.commit_pages() == commit
                &&& lazy_untouched(
                    arena@,
                    arena@.memory.base,
                    capacity as int,
                    page as int,
                )
                &&& capacity == 0 ==> arena@.memory.base == 1
                &&& capacity > 0 ==> call_ensures(
                    reserve,
                    (capacity,),
                    Ok::<usize, i32>(arena@.memory.base as usize),
                )
            }
            &&& r matches Err(code) ==> capacity > 0 && call_ensures(
                reserve,
                (capacity,),
                Err::<usize, i32>(code),
            )
        },
        capacity == 0 || (forall|answer: Result<usize, i32>| #[trigger]
            call_ensures(reserve, (capacity,), answer) ==> answer is Ok) ==> {
            &&& call_requires(BumpArenaLazy::<C>::new::<R>, (capacity, page, reserve, commit))
            &&& call_ensures(
                BumpArenaLazy::<C>::new::<R>,
                (capacity, page, reserve, commit),
                arena,
            ) ==> {
                &&& arena.wf()
                &&& arena.commit_pages() == commit
                &&& lazy_untouched(
                    arena@,
                    arena@.memory.base,
                    capacity as int,
                    page as int,
                )
                &&& capacity == 0 ==> arena@.memory.base == 1
                &&& capacity > 0 ==> call_ensures(
                    reserve,
                    (capacity,),
                    Ok::<usize, i32>(arena@.memory.base as usize),
                )
            }
        },
{
    if capacity > 0 {
        laws::law_reserves(reserve, commit, capacity, page);
    }
}

/// A request to a lazy arena is answered at its first fit, once the commit call has granted what
/// is missing there, under all its names.
pub proof fn law_call_lazy_alloc<C: Fn(usize, usize) -> Result<(), i32>>(
    arena: &mut BumpArenaLazy<C>,
    layout: Layout,
    place: Option<Block>,
    r: Option<Block>,
    q: Result<Block, AllocError>,
)
    requires
        old(arena).wf(),
        layout.valid(),
        laws::first_fit(
            old(arena)@.memory.base + old(arena)@.used,
            old(arena)@.memory.base + old(arena)@.memory.size,
            layout,
            place,
        ),
    ensures
        call_requires(BumpArenaLazy::<C>::try_alloc_uninit, (arena, layout)),
        call_requires(BumpArenaLazy::<C>::alloc_uninit_slice, (arena, layout)),
        call_requires(BumpArenaLazy::<C>::allocate, (arena, layout)),
        call_ensures(BumpArenaLazy::<C>::try_alloc_uninit, (arena, layout), r) || call_ensures(
            BumpArenaLazy::<C>::alloc_uninit_slice,
            (arena, layout),
            r,
        ) || (r == q.ok() && call_ensures(BumpArenaLazy::<C>::allocate, (arena, layout), q)) || (
        r matches Some(b) && call_ensures(BumpArenaLazy::<C>::alloc_uninit, (arena, layout), b))
            ==> {
            &&& final(arena).wf()
            &&& final(arena).commit_pages() == old(arena).commit_pages()
            &&& laws::lazy_answered(
                old(arena)@,
                old(arena).commit_pages(),
                place,
                final(arena)@,
                r,
            )
        },
{
    if BumpArenaLazy::served(*old(arena), layout, *final(arena), r) {
        laws::law_lazy_served(*old(arena), layout, *final(arena), r, place);
    }
}

/// A request that must not fail can be made of a lazy arena where `place` is its first fit and is
/// committed, or where the commit call cannot refuse the bytes up to `t`, which cover it.
pub proof fn law_call_lazy_alloc_uninit<C: Fn(usize, usize) -> Result<(), i32>>(
    arena: &mut BumpArenaLazy<C>,
    layout: Layout,
    place: Block,
    t: int,
)
    requires
        old(arena).wf(),
        layout.valid(),
        ({
            let memory = old(arena)@.memory;
            &&& laws::first_fit(
                memory.base + old(arena)@.used,
                memory.base + memory.size,
                layout,
                Some(place),
            )
            &&& place.len == 0 || place.addr + place.len <= memory.base + memory.committed || {
                &&& laws::page_cover(
                    place.addr + place.len - memory.base,
                    memory.page,
                    memory.size,
                    t,
                )
                &&& forall|answer: Result<(), i32>| #[trigger]
                    laws::commit_answers(
                        old(arena).commit_pages(),
                        memory.base,
                        memory.committed,
                        t,
                        answer,
                    ) ==> answer is Ok
            }
        }),
    ensures
        call_requires(BumpArenaLazy::<C>::alloc_uninit, (arena, layout)),
{
    laws::law_lazy_can_serve(*old(arena), layout, place, t);
}

/// What is missing for a request is told as the range from the committed end to the end of the
/// pages that hold the block at its first fit, and nothing where the block is committed, empty,
/// or has no place.
pub proof fn law_call_lazy_missing<C: Fn(usize, usize) -> Result<(), i32>>(
    arena: &BumpArenaLazy<C>,
    layout: Layout,
    place: Option<Block>,
    r: Option<Block>,
)
    requires
        arena.wf(),
        layout.valid(),
        laws::first_fit(
            arena@.memory.base + arena@.used,
            arena@.memory.base + arena@.memory.size,
            layout,
            place,
        ),
    ensures
        call_requires(BumpArenaLazy::<C>::missing, (arena, layout)),
        call_ensures(BumpArenaLazy::<C>::missing, (arena, layout), r) ==> match place {
            Some(b) if b.len > 0 && b.addr + b.len > arena@.memory.base + arena@.memory.committed =>
                match r {
                Some(range) => {
                    &&& range.addr == arena@.memory.base + arena@.memory.committed
                    &&& laws::page_cover(
                        b.addr + b.len - arena@.memory.base,
                        arena@.memory.page,
                        arena@.memory.size,
                        range.addr + range.len - arena@.memory.base,
                    )
                },
                None => false,
            },
            _ => r is None,
        },
{
    let (after, answer) = arena@.serve(layout, Ok(()));
    laws::law_lazy_serve(arena@, layout, Ok(()), after, answer, place);
    laws::law_reserved_missing(arena@.memory, arena@.needs(layout));
}

/// When the answer of the system is handed in, a block that is committed is handed out whatever
/// it is, and another exactly if the system grants; a refusal leaves its code and nothing else.
pub proof fn law_call_lazy_settle<C: Fn(usize, usize) -> Result<(), i32>>(
    arena: &mut BumpArenaLazy<C>,
    layout: Layout,
    answer: Result<(), i32>,
    place: Option<Block>,
    r: Option<Block>,
)
    requires
        old(arena).wf(),
        layout.valid(),
        laws::first_fit(
            old(arena)@.memory.base + old(arena)@.used,
            old(arena)@.memory.base + old(arena)@.memory.size,
            layout,
            place,
        ),
    ensures
        call_requires(BumpArenaLazy::<C>::settle, (arena, layout, answer)),
        call_ensures(BumpArenaLazy::<C>::settle, (arena, layout, answer), r) ==> {
            let (before, after) = (old(arena)@, final(arena)@);
            &&& final(arena).wf()
            &&& final(arena).commit_pages() == old(arena).commit_pages()
            &&& match place {
                Some(b) if b.len > 0 => {
                    let end = b.addr + b.len - before.memory.base;
                    &&& noted(before.memory, end, answer, after.memory, r is Some)
                    &&& match r {
                        Some(granted) => {
                            &&& granted == b
                            &&& after.used == end
                            &&& after.blocks == before.blocks.push(b)
                        },
                        None => after.used == before.used && after.blocks == before.blocks,
                    }
                },
                _ => r == place && after == before,
            }
        },
{
    if (final(arena)@, r) == old(arena)@.serve(layout, answer) {
        laws::law_lazy_serve(old(arena)@, layout, answer, final(arena)@, r, place);
    }
}

/// A reset moves the bump pointer to the start and ends all blocks; the memory stays reserved
/// and committed. Giving one block back does nothing.
pub proof fn law_call_lazy_reset<C: Fn(usize, usize) -> Result<(), i32>>(
    arena: &mut BumpArenaLazy<C>,
    addr: usize,
    layout: Layout,
)
    requires
        old(arena).wf(),
    ensures
        call_requires(BumpArenaLazy::<C>::reset, (arena,)),
        call_ensures(BumpArenaLazy::<C>::reset, (arena,), ()) ==> {
            &&& final(arena).wf()
            &&& final(arena).commit_pages() == old(arena).commit_pages()
            &&& final(arena)@.memory == old(arena)@.memory
            &&& final(arena)@.used == 0
            &&& final(arena)@.blocks.len() == 0
        },
        call_requires(BumpArenaLazy::<C>::deallocate, (arena, addr, layout)),
        call_ensures(BumpArenaLazy::<C>::deallocate, (arena, addr, layout), ()) ==> *final(arena)
            == *old(arena),
{
}

/// What a lazy arena tells of itself: how many bytes it reserved, how many of them lie before
/// the bump pointer, how many are committed, where they start, the code of the last refused
/// commit if one was refused, and the whole range if it is not empty.
pub proof fn law_call_lazy_reports<C: Fn(usize, usize) -> Result<(), i32>>(
    arena: &BumpArenaLazy<C>,
    n: usize,
    code: Option<i32>,
    range: Option<Block>,
)
    requires
        arena.wf(),
    ensures
        call_requires(BumpArenaLazy::<C>::capacity, (arena,)),
        call_ensures(BumpArenaLazy::<C>::capacity, (arena,), n) ==> n == arena@.memory.size,
        call_requires(BumpArenaLazy::<C>::used, (arena,)),
        call_ensures(BumpArenaLazy::<C>::used, (arena,), n) ==> n == arena@.used,
        call_requires(BumpArenaLazy::<C>::committed, (arena,)),
        call_ensures(BumpArenaLazy::<C>::committed, (arena,), n) ==> n == arena@.memory.committed,
        call_requires(BumpArenaLazy::<C>::base, (arena,)),
        call_ensures(BumpArenaLazy::<C>::base, (arena,), n) ==> n == arena@.memory.base,
        call_requires(BumpArenaLazy::<C>::last_os_error_code, (arena,)),
        call_ensures(BumpArenaLazy::<C>::last_os_error_code, (arena,), code) ==> match code {
            Some(c) => c == arena@.memory.os_error && c != 0,
            None => arena@.memory.os_error == 0,
        },
        call_requires(BumpArenaLazy::<C>::reservation, (arena,)),
        call_ensures(BumpArenaLazy::<C>::reservation, (arena,), range) ==> match range {
            Some(b) => b.addr == arena@.memory.base && b.len == arena@.memory.size && b.len > 0,
            None => arena@.memory.size == 0,
        },
{
    laws::law_reserved_reports(arena@.memory);
}

/// A block of a lazy arena is grown where it can be in place, once the commit call has granted
/// what is missing behind it, and keeps its address. The bytes that it gains are told as those
/// from its old end to its new one.
pub proof fn law_call_lazy_grow<C: Fn(usize, usize) -> Result<(), i32>>(
    arena: &mut BumpArenaLazy<C>,
    addr: usize,
    old_layout: Layout,
    new_layout: Layout,
    r: Result<Block, AllocError>,
    q: Result<(Block, Block), AllocError>,
)
    requires
        old(arena).wf(),
    ensures
        call_requires(BumpArenaLazy::<C>::grow, (arena, addr, old_layout, new_layout)),
        call_ensures(BumpArenaLazy::<C>::grow, (arena, addr, old_layout, new_layout), r) ==> {
            &&& final(arena).wf()
            &&& final(arena).commit_pages() == old(arena).commit_pages()
            &&& laws::lazy_grew(
                old(arena)@,
                old(arena).commit_pages(),
                addr,
                old_layout.size() as int,
                new_layout,
                final(arena)@,
                r.ok(),
            )
        },
        call_requires(BumpArenaLazy::<C>::grow_zeroed, (arena, addr, old_layout, new_layout)),
        call_ensures(BumpArenaLazy::<C>::grow_zeroed, (arena, addr, old_layout, new_layout), q)
            ==> {
            let block = match q {
                Ok(parts) => Some(parts.0),
                Err(_) => None,
            };
            &&& final(arena).wf()
            &&& final(arena).commit_pages() == old(arena).commit_pages()
            &&& laws::lazy_grew(
                old(arena)@,
                old(arena).commit_pages(),
                addr,
                old_layout.size() as int,
                new_layout,
                final(arena)@,
                block,
            )
            &&& q matches Ok(parts) ==> {
                &&& parts.1.addr == addr + old_layout.size()
                &&& parts.1.len == new_layout.size() - old_layout.size()
            }
        },
{
    let old_size = old_layout.size() as int;
    let block = match q {
        Ok(parts) => Some(parts.0),
        Err(_) => None,
    };
    if BumpArenaLazy::grown(*old(arena), addr, old_size, new_layout, *final(arena), r.ok()) {
        laws::law_lazy_grown(*old(arena), addr, old_size, new_layout, *final(arena), r.ok());
    }
    if BumpArenaLazy::grown(*old(arena), addr, old_size, new_layout, *final(arena), block) {
        laws::law_lazy_grown(*old(arena), addr, old_size, new_layout, *final(arena), block);
    }
}

/// A block of a lazy arena is cut exactly if it can be in place, and keeps its address; the
/// memory stays as it is. Where it cannot, nothing changes.
pub proof fn law_call_lazy_shrink<C: Fn(usize, usize) -> Result<(), i32>>(
    arena: &mut BumpArenaLazy<C>,
    addr: usize,
    old_layout: Layout,
    new_layout: Layout,
    r: Result<Block, AllocError>,
)
    requires
        old(arena).wf(),
    ensures
        call_requires(BumpArenaLazy::<C>::shrink, (arena, addr, old_layout, new_layout)),
        call_ensures(BumpArenaLazy::<C>::shrink, (arena, addr, old_layout, new_layout), r) ==> {
            let (before, after) = (old(arena)@, final(arena)@);
            &&& final(arena).wf()
            &&& final(arena).commit_pages() == old(arena).commit_pages()
            &&& after.memory == before.memory
            &&& r is Ok <==> laws::shrinks_in_place(
                before.memory.base,
                before.used,
                addr as int,
                old_layout.size() as int,
                new_layout,
            )
            &&& match r {
                Ok(b) => {
                    &&& b == (Block { addr, len: new_layout.size() })
                    &&& after.used == addr + new_layout.size() - before.memory.base
                    &&& laws::last_replaced(
                        before.blocks,
                        addr,
                        new_layout.size(),
                        after.blocks,
                    )
                },
                Err(_) => after.used == before.used && after.blocks == before.blocks,
            }
        },
{
    laws::law_lazy_resizable(old(arena)@, addr as int, old_layout.size() as int, new_layout);
    laws::law_lazy_resized(old(arena)@, addr, new_layout.size());
}

/// A new typed arena holds nothing, and is for slots of the allocator's memory.
pub proof fn law_call_typed_new<T, A: UninitAllocator>(allocator: &A, arena: TypedArena<T, A>)
    ensures
        call_requires(TypedArena::<T, A>::new_in, (allocator,)),
        call_ensures(TypedArena::<T, A>::new_in, (allocator,), arena) ==> {
            &&& arena.wf()
            &&& arena@.values.len() == 0
            &&& arena@.slots.len() == 0
            &&& arena@.dropped.len() == 0
            &&& arena@.home == allocator.region()
        },
{
}

/// A typed arena takes a value in if its slot is granted, and hands it back for use in place.
pub proof fn law_call_typed_alloc<T, A: UninitAllocator>(
    arena: &mut TypedArena<T, A>,
    allocator: &mut A,
    value: T,
    r: Option<&mut T>,
)
    requires
        old(arena).wf(),
        old(allocator).valid(),
        old(allocator).region() == old(arena)@.home,
    ensures
        call_requires(TypedArena::<T, A>::try_alloc, (arena, allocator, value)),
        call_requires(TypedArena::<T, A>::alloc_raw, (arena, allocator, value)),
        call_ensures(TypedArena::<T, A>::try_alloc, (arena, allocator, value), r) || call_ensures(
            TypedArena::<T, A>::alloc_raw,
            (arena, allocator, value),
            r,
        ) ==> {
            &&& final(arena).wf()
            &&& final(allocator).valid()
            &&& final(allocator).region() == old(allocator).region()
            &&& r matches Some(x) ==> *x == value
            &&& laws::typed_answered(
                old(arena)@,
                *old(allocator),
                value,
                final(arena)@,
                *final(allocator),
                match r {
                    Some(x) => Some(*final(x)),
                    None => None,
                },
            )
        },
{
    let placed = match r {
        Some(x) => Some(*final(x)),
        None => None,
    };
    let (before, after) = (old(arena)@, final(arena)@);
    if typed_store::allocated(before, *old(allocator), value, after, *final(allocator), placed) {
        laws::law_typed_allocated(
            before,
            *old(allocator),
            value,
            after,
            *final(allocator),
            placed,
        );
    }
}

/// A value that must come in can be moved into a typed arena where it has no size or the
/// allocator cannot refuse its slot, and comes in.
pub proof fn law_call_typed_alloc_value<T, A: UninitAllocator>(
    arena: &mut TypedArena<T, A>,
    allocator: &mut A,
    value: T,
    r: &mut T,
)
    requires
        old(arena).wf(),
        old(allocator).valid(),
        old(allocator).region() == old(arena)@.home,
        size_of::<T>() == 0 || forall|post: A, slot: Option<Block>| #[trigger]
            A::alloc_step(*old(allocator), Layout::spec_new::<T>(), post, slot) ==> slot is Some,
    ensures
        call_requires(TypedArena::<T, A>::alloc_value, (arena, allocator, value)),
        call_ensures(TypedArena::<T, A>::alloc_value, (arena, allocator, value), r) ==> {
            &&& final(arena).wf()
            &&& final(allocator).valid()
            &&& final(allocator).region() == old(allocator).region()
            &&& *old(r) == value
            &&& laws::typed_answered(
                old(arena)@,
                *old(allocator),
                value,
                final(arena)@,
                *final(allocator),
                Some(*final(r)),
            )
        },
{
    laws::law_typed_can_alloc::<T, A>(*old(allocator));
    let placed = Some(*final(r));
    let (before, after) = (old(arena)@, final(arena)@);
    if typed_store::allocated(before, *old(allocator), value, after, *final(allocator), placed) {
        laws::law_typed_allocated(
            before,
            *old(allocator),
            value,
            after,
            *final(allocator),
            placed,
        );
    }
}

/// A value that comes with the answer of an allocator is taken in with the slot, or destroyed
/// where there is none.
pub proof fn law_call_typed_place<T, A: UninitAllocator>(
    arena: &mut TypedArena<T, A>,
    slot: Option<Block>,
    value: T,
    r: Option<&mut T>,
)
    requires
        old(arena).wf(),
        size_of::<T>() > 0,
        slot matches Some(b) ==> {
            &&& b.len == size_of::<T>()
            &&& laws::divides(align_of::<T>() as int, b.addr as int)
            &&& old(arena)@.home.0 <= b.addr
            &&& b.addr + b.len <= old(arena)@.home.0 + old(arena)@.home.1
        },
    ensures
        call_requires(TypedArena::<T, A>::place, (arena, slot, value)),
        call_ensures(TypedArena::<T, A>::place, (arena, slot, value), r) ==> {
            let (before, after) = (old(arena)@, final(arena)@);
            &&& final(arena).wf()
            &&& after.home == before.home
            &&& r is Some <==> slot is Some
            &&& r matches Some(x) ==> *x == value
            &&& after.slots == (match slot {
                Some(b) => before.slots.push(b),
                None => before.slots,
            })
            &&& laws::value_offered(
                before.values,
                before.dropped,
                value,
                after.values,
                after.dropped,
                match r {
                    Some(x) => Some(*final(x)),
                    None => None,
                },
            )
        },
{
    broadcast use vstd::layout::group_align_properties;

    Layout::lemma_new::<T>();
    if align_of::<T>() > size_of::<T>() {
        vstd::arithmetic::div_mod::lemma_small_mod(size_of::<T>(), align_of::<T>());
    }
}

/// What a typed arena tells of itself: how many values it holds, whether it holds none, and their
/// slots.
pub proof fn law_call_typed_reports<T, A: UninitAllocator>(
    arena: &TypedArena<T, A>,
    n: usize,
    none: bool,
    slots: &[Block],
)
    requires
        arena.wf(),
    ensures
        call_requires(TypedArena::<T, A>::len, (arena,)),
        call_ensures(TypedArena::<T, A>::len, (arena,), n) ==> n == arena@.values.len(),
        call_requires(TypedArena::<T, A>::is_empty, (arena,)),
        call_ensures(TypedArena::<T, A>::is_empty, (arena,), none) ==> none == (arena@.values.len()
            == 0),
        call_requires(TypedArena::<T, A>::slots, (arena,)),
        call_ensures(TypedArena::<T, A>::slots, (arena,), slots) ==> slots@ == arena@.slots,
        arena@.slots.len() == (if size_of::<T>() > 0 {
            arena@.values.len()
        } else {
            0
        }),
{
}

/// A reset of a typed arena destroys its values, newest first, and ends their slots.
pub proof fn law_call_typed_reset<T, A: UninitAllocator>(arena: &mut TypedArena<T, A>)
    requires
        old(arena).wf(),
    ensures
        call_requires(TypedArena::<T, A>::reset, (arena,)),
        call_ensures(TypedArena::<T, A>::reset, (arena,), ()) ==> {
            &&& final(arena).wf()
            &&& final(arena)@.values.len() == 0
            &&& final(arena)@.slots.len() == 0
            &&& final(arena)@.home == old(arena)@.home
            &&& laws::destroyed_in_reverse(
                old(arena)@.dropped,
                old(arena)@.values,
                final(arena)@.dropped,
            )
        },
{
}

/// A new arena for visits holds nothing, and is for slots of the allocator's memory.
pub proof fn law_call_typed_ref_new<T, A: UninitAllocator>(
    allocator: &A,
    arena: TypedArenaRef<T, A>,
)
    ensures
        call_requires(TypedArenaRef::<T, A>::new_in, (allocator,)),
        call_ensures(TypedArenaRef::<T, A>::new_in, (allocator,), arena) ==> {
            &&& arena.wf()
            &&& arena@.values.len() == 0
            &&& arena@.slots.len() == 0
            &&& arena@.dropped.len() == 0
            &&& arena@.home == allocator.region()
        },
{
}

/// An arena for visits takes a value in if its slot is granted, and hands it back for use in
/// place.
pub proof fn law_call_typed_ref_alloc<T, A: UninitAllocator>(
    arena: &mut TypedArenaRef<T, A>,
    allocator: &mut A,
    value: T,
    r: Option<&mut T>,
)
    requires
        old(arena).wf(),
        old(allocator).valid(),
        old(allocator).region() == old(arena)@.home,
    ensures
        call_requires(TypedArenaRef::<T, A>::try_alloc, (arena, allocator, value)),
        call_ensures(TypedArenaRef::<T, A>::try_alloc, (arena, allocator, value), r) ==> {
            &&& final(arena).wf()
            &&& final(allocator).valid()
            &&& final(allocator).region() == old(allocator).region()
            &&& r matches Some(x) ==> *x == value
            &&& laws::typed_answered(
                old(arena)@,
                *old(allocator),
                value,
                final(arena)@,
                *final(allocator),
                match r {
                    Some(x) => Some(*final(x)),
                    None => None,
                },
            )
        },
{
    let placed = match r {
        Some(x) => Some(*final(x)),
        None => None,
    };
    let (before, after) = (old(arena)@, final(arena)@);
    if typed_store::allocated(before, *old(allocator), value, after, *final(allocator), placed) {
        laws::law_typed_allocated(
            before,
            *old(allocator),
            value,
            after,
            *final(allocator),
            placed,
        );
    }
}

/// A value that must come in can be moved into an arena for visits where it has no size or the
/// allocator cannot refuse its slot, and comes in.
pub proof fn law_call_typed_ref_alloc_value<T, A: UninitAllocator>(
    arena: &mut TypedArenaRef<T, A>,
    allocator: &mut A,
    value: T,
    r: &mut T,
)
    requires
        old(arena).wf(),
        old(allocator).valid(),
        old(allocator).region() == old(arena)@.home,
        size_of::<T>() == 0 || forall|post: A, slot: Option<Block>| #[trigger]
            A::alloc_step(*old(allocator), Layout::spec_new::<T>(), post, slot) ==> slot is Some,
    ensures
        call_requires(TypedArenaRef::<T, A>::alloc_value, (arena, allocator, value)),
        call_ensures(TypedArenaRef::<T, A>::alloc_value, (arena, allocator, value), r) ==> {
            &&& final(arena).wf()
            &&& final(allocator).valid()
            &&& final(allocator).region() == old(allocator).region()
            &&& *old(r) == value
            &&& laws::typed_answered(
                old(arena)@,
                *old(allocator),
                value,
                final(arena)@,
                *final(allocator),
                Some(*final(r)),
            )
        },
{
    laws::law_typed_can_alloc::<T, A>(*old(allocator));
    let placed = Some(*final(r));
    let (before, after) = (old(arena)@, final(arena)@);
    if typed_store::allocated(before, *old(allocator), value, after, *final(allocator), placed) {
        laws::law_typed_allocated(
            before,
            *old(allocator),
            value,
            after,
            *final(allocator),
            placed,
        );
    }
}

/// A value that comes with the answer of an allocator is taken in with the slot, or destroyed
/// where there is none.
pub proof fn law_call_typed_ref_place<T, A: UninitAllocator>(
    arena: &mut TypedArenaRef<T, A>,
    slot: Option<Block>,
    value: T,
    r: Option<&mut T>,
)
    requires
        old(arena).wf(),
        size_of::<T>() > 0,
        slot matches Some(b) ==> {
            &&& b.len == size_of::<T>()
            &&& laws::divides(align_of::<T>() as int, b.addr as int)
            &&& old(arena)@.home.0 <= b.addr
            &&& b.addr + b.len <= old(arena)@.home.0 + old(arena)@.home.1
        },
    ensures
        call_requires(TypedArenaRef::<T, A>::place, (arena, slot, value)),
        call_ensures(TypedArenaRef::<T, A>::place, (arena, slot, value), r) ==> {
            let (before, after) = (old(arena)@, final(arena)@);
            &&& final(arena).wf()
            &&& after.home == before.home
            &&& r is Some <==> slot is Some
            &&& r matches Some(x) ==> *x == value
            &&& after.slots == (match slot {
                Some(b) => before.slots.push(b),
                None => before.slots,
            })
            &&& laws::value_offered(
                before.values,
                before.dropped,
                value,
                after.values,
                after.dropped,
                match r {
                    Some(x) => Some(*final(x)),
                    None => None,
                },
            )
        },
{
    broadcast use vstd::layout::group_align_properties;

    Layout::lemma_new::<T>();
    if align_of::<T>() > size_of::<T>() {
        vstd::arithmetic::div_mod::lemma_small_mod(size_of::<T>(), align_of::<T>());
    }
}

/// What an arena for visits tells of itself: how many values it holds, whether it holds none, and
/// their slots.
pub proof fn law_call_typed_ref_reports<T, A: UninitAllocator>(
    arena: &TypedArenaRef<T, A>,
    n: usize,
    none: bool,
    slots: &[Block],
)
    requires
        arena.wf(),
    ensures
        call_requires(TypedArenaRef::<T, A>::len, (arena,)),
        call_ensures(TypedArenaRef::<T, A>::len, (arena,), n) ==> n == arena@.values.len(),
        call_requires(TypedArenaRef::<T, A>::is_empty, (arena,)),
        call_ensures(TypedArenaRef::<T, A>::is_empty, (arena,), none) ==> none == (
        arena@.values.len() == 0),
        call_requires(TypedArenaRef::<T, A>::slots, (arena,)),
        call_ensures(TypedArenaRef::<T, A>::slots, (arena,), slots) ==> slots@ == arena@.slots,
        arena@.slots.len() == (if size_of::<T>() > 0 {
            arena@.values.len()
        } else {
            0
        }),
{
}

/// A reset of an arena for visits destroys its values, newest first, and ends their slots.
pub proof fn law_call_typed_ref_reset<T, A: UninitAllocator>(arena: &mut TypedArenaRef<T, A>)
    requires
        old(arena).wf(),
    ensures
        call_requires(TypedArenaRef::<T, A>::reset, (arena,)),
        call_ensures(TypedArenaRef::<T, A>::reset, (arena,), ()) ==> {
            &&& final(arena).wf()
            &&& final(arena)@.values.len() == 0
            &&& final(arena)@.slots.len() == 0
            &&& final(arena)@.home == old(arena)@.home
            &&& laws::destroyed_in_reverse(
                old(arena)@.dropped,
                old(arena)@.values,
                final(arena)@.dropped,
            )
        },
{
}

/// Whether an iterator that had `before` to come, and then has `after`, has yielded `r` from the
/// front, as it should.
pub open spec fn from_front<T>(before: Seq<T>, after: Seq<T>, r: Option<T>) -> bool {
    match r {
        Some(value) => {
            &&& before.len() > 0
            &&& value == before[0]
            &&& after.len() == before.len() - 1
            &&& forall|i: int| 0 <= i < after.len() ==> #[trigger] after[i] == before[i + 1]
        },
        None => before.len() == 0 && after.len() == 0,
    }
}

/// Whether an iterator that had `before` to come, and then has `after`, has yielded `r` from the
/// back, as it should.
pub open spec fn from_back<T>(before: Seq<T>, after: Seq<T>, r: Option<T>) -> bool {
    match r {
        Some(value) => {
            &&& before.len() > 0
            &&& value == before[before.len() - 1]
            &&& after.len() == before.len() - 1
            &&& forall|i: int| 0 <= i < after.len() ==> #[trigger] after[i] == before[i]
        },
        None => before.len() == 0 && after.len() == 0,
    }
}

/// Whether `after` holds the same as `before`, from the last to the first.
pub open spec fn turned_round<T>(before: Seq<T>, after: Seq<T>) -> bool {
    &&& after.len() == before.len()
    &&& forall|i: int|
        0 <= i < before.len() ==> #[trigger] after[i] == before[before.len() - 1 - i]
}

/// Draining an arena yields its values in the order in which they came in.
pub proof fn law_call_drain<T, A: UninitAllocator>(
    arena: TypedArena<T, A>,
    allocator: &A,
    r: DrainIter<'_, T, A>,
)
    requires
        arena.wf(),
        allocator.region() == arena@.home,
    ensures
        call_requires(TypedArena::<T, A>::drain, (arena, allocator)),
        call_ensures(TypedArena::<T, A>::drain, (arena, allocator), r) ==> {
            &&& r.wf()
            &&& r@ == arena@.values
            &&& r.dropped() == arena@.dropped
            &&& r.allocator() == *allocator
        },
{
}

/// A draining iterator yields the oldest value that is left, and tells how many are.
pub proof fn law_call_drain_next<T, A: UninitAllocator>(
    iter: &mut DrainIter<'_, T, A>,
    r: Option<T>,
    hint: (usize, Option<usize>),
    n: usize,
)
    requires
        old(iter).wf(),
    ensures
        call_requires(DrainIter::<'_, T, A>::next, (iter,)),
        call_ensures(DrainIter::<'_, T, A>::next, (iter,), r) ==> {
            &&& final(iter).wf()
            &&& final(iter).dropped() == old(iter).dropped()
            &&& final(iter).allocator() == old(iter).allocator()
            &&& from_front(old(iter)@, final(iter)@, r)
        },
        call_requires(DrainIter::<'_, T, A>::size_hint, (&*old(iter),)),
        call_ensures(DrainIter::<'_, T, A>::size_hint, (&*old(iter),), hint) ==> hint.0 == old(
            iter,
        )@.len() && hint.1 == Some(hint.0),
        call_requires(DrainIter::<'_, T, A>::len, (&*old(iter),)),
        call_ensures(DrainIter::<'_, T, A>::len, (&*old(iter),), n) ==> n == old(iter)@.len(),
{
}

/// Visiting an arena by reference yields its values newest first, those that it holds at that
/// time.
pub proof fn law_call_visit<T, A: UninitAllocator>(
    arena: &TypedArenaRef<T, A>,
    iter: Iter<'_, T>,
    snapshot: Snapshot<T>,
)
    requires
        arena.wf(),
    ensures
        call_requires(TypedArenaRef::<T, A>::iter, (arena,)),
        call_ensures(TypedArenaRef::<T, A>::iter, (arena,), iter) ==> turned_round(
            arena@.values,
            iter@,
        ),
        call_requires(TypedArenaRef::<T, A>::snapshot, (arena,)),
        call_ensures(TypedArenaRef::<T, A>::snapshot, (arena,), snapshot) ==> {
            &&& snapshot.wf()
            &&& snapshot.values() == arena@.values
            &&& turned_round(arena@.values, snapshot@)
        },
{
}

/// Visiting an arena for writing yields its values newest first. What is written through the
/// references is what the arena holds afterwards, in the same places; nothing else changes.
pub proof fn law_call_visit_mut<T, A: UninitAllocator>(
    arena: &mut TypedArenaRef<T, A>,
    iter: IterMut<'_, T>,
)
    requires
        old(arena).wf(),
    ensures
        call_requires(TypedArenaRef::<T, A>::iter_mut, (arena,)),
        call_ensures(TypedArenaRef::<T, A>::iter_mut, (arena,), iter) ==> {
            let (before, after) = (old(arena)@, final(arena)@);
            &&& final(arena).wf()
            &&& turned_round(before.values, iter@)
            &&& iter.rest@.len() == before.values.len()
            &&& forall|i: int|
                0 <= i < before.values.len() ==> *#[trigger] iter.rest@[i] == before.values[i]
            &&& after.values.len() == before.values.len()
            &&& forall|i: int|
                0 <= i < before.values.len() ==> #[trigger] after.values[i] == *final(iter.rest@[i])
            &&& after.slots == before.slots
            &&& after.dropped == before.dropped
            &&& after.home == before.home
        },
{
}

/// Turning an arena into an iterator yields its values newest first.
pub proof fn law_call_into_iter<T, A: UninitAllocator>(
    arena: TypedArenaRef<T, A>,
    allocator: &A,
    r: IntoIter<'_, T, A>,
    a: &A,
)
    requires
        arena.wf(),
        allocator.region() == arena@.home,
    ensures
        call_requires(TypedArenaRef::<T, A>::into_iter, (arena, allocator)),
        call_ensures(TypedArenaRef::<T, A>::into_iter, (arena, allocator), r) ==> {
            &&& r.wf()
            &&& turned_round(arena@.values, r@)
            &&& r.dropped() == arena@.dropped
            &&& r.allocator() == allocator
        },
        call_requires(IntoIter::<'_, T, A>::allocator, (&r,)),
        call_ensures(IntoIter::<'_, T, A>::allocator, (&r,), a) ==> a == r.allocator(),
{
}

/// An owning iterator yields the next value from either side, runs no destructor by it, and tells
/// how many are left.
pub proof fn law_call_into_iter_next<T, A: UninitAllocator>(
    iter: &mut IntoIter<'_, T, A>,
    r: Option<T>,
    hint: (usize, Option<usize>),
)
    requires
        old(iter).wf(),
    ensures
        call_requires(IntoIter::<'_, T, A>::next, (iter,)),
        call_requires(IntoIter::<'_, T, A>::next_back, (iter,)),
        call_ensures(IntoIter::<'_, T, A>::next, (iter,), r) || call_ensures(
            IntoIter::<'_, T, A>::next_back,
            (iter,),
            r,
        ) ==> {
            &&& final(iter).wf()
            &&& final(iter).dropped() == old(iter).dropped()
            &&& final(iter).allocator() == old(iter).allocator()
        },
        call_ensures(IntoIter::<'_, T, A>::next, (iter,), r) ==> from_front(
            old(iter)@,
            final(iter)@,
            r,
        ),
        call_ensures(IntoIter::<'_, T, A>::next_back, (iter,), r) ==> from_back(
            old(iter)@,
            final(iter)@,
            r,
        ),
        call_requires(IntoIter::<'_, T, A>::size_hint, (&*old(iter),)),
        call_ensures(IntoIter::<'_, T, A>::size_hint, (&*old(iter),), hint) ==> hint.0 == old(
            iter,
        )@.len() && hint.1 == Some(hint.0),
{
}

/// An iterator by reference yields the next value from either side, and tells how many are left.
pub proof fn law_call_iter_next<'s, T>(
    iter: &mut Iter<'s, T>,
    r: Option<&'s T>,
    hint: (usize, Option<usize>),
)
    ensures
        call_requires(Iter::<'s, T>::next, (iter,)),
        call_ensures(Iter::<'s, T>::next, (iter,), r) ==> from_front(
            old(iter)@,
            final(iter)@,
            match r {
                Some(x) => Some(*x),
                None => None,
            },
        ),
        call_requires(Iter::<'s, T>::next_back, (iter,)),
        call_ensures(Iter::<'s, T>::next_back, (iter,), r) ==> from_back(
            old(iter)@,
            final(iter)@,
            match r {
                Some(x) => Some(*x),
                None => None,
            },
        ),
        call_requires(Iter::<'s, T>::size_hint, (&*old(iter),)),
        call_ensures(Iter::<'s, T>::size_hint, (&*old(iter),), hint) ==> hint.0 == old(iter)@.len()
            && hint.1 == Some(hint.0),
{
}

/// A snapshot yields the next value from either side, as long as its arena still holds the values
/// of that time, and tells how many are left.
pub proof fn law_call_snapshot_next<'s, T, A: UninitAllocator>(
    snapshot: &mut Snapshot<T>,
    arena: &'s TypedArenaRef<T, A>,
    r: Option<&'s T>,
    hint: (usize, Option<usize>),
)
    requires
        old(snapshot).wf(),
        arena.wf(),
        old(snapshot).values().len() <= arena@.values.len(),
        forall|i: int|
            0 <= i < old(snapshot).values().len() ==> #[trigger] old(snapshot).values()[i]
                == arena@.values[i],
    ensures
        call_requires(Snapshot::<T>::next::<A>, (snapshot, arena)),
        call_requires(Snapshot::<T>::next_back::<A>, (snapshot, arena)),
        call_ensures(Snapshot::<T>::next::<A>, (snapshot, arena), r) || call_ensures(
            Snapshot::<T>::next_back::<A>,
            (snapshot, arena),
            r,
        ) ==> {
            &&& final(snapshot).wf()
            &&& final(snapshot).values() == old(snapshot).values()
        },
        call_ensures(Snapshot::<T>::next::<A>, (snapshot, arena), r) ==> from_front(
            old(snapshot)@,
            final(snapshot)@,
            match r {
                Some(x) => Some(*x),
                None => None,
            },
        ),
        call_ensures(Snapshot::<T>::next_back::<A>, (snapshot, arena), r) ==> from_back(
            old(snapshot)@,
            final(snapshot)@,
            match r {
                Some(x) => Some(*x),
                None => None,
            },
        ),
        call_requires(Snapshot::<T>::size_hint, (&*old(snapshot),)),
        call_ensures(Snapshot::<T>::size_hint, (&*old(snapshot),), hint) ==> hint.0 == old(
            snapshot,
        )@.len() && hint.1 == Some(hint.0),
{
    let values = old(snapshot).values();
    assert(values =~= arena@.values.subrange(0, values.len() as int));
}

/// An iterator for writing yields the reference to the newest value that is left, leaves the
/// others as they are, and tells how many are left.
pub proof fn law_call_iter_mut_next<'s, T>(
    iter: &mut IterMut<'s, T>,
    r: Option<&'s mut T>,
    hint: (usize, Option<usize>),
)
    ensures
        call_requires(IterMut::<'s, T>::next, (iter,)),
        call_ensures(IterMut::<'s, T>::next, (iter,), r) ==> match r {
            Some(x) => {
                let (before, after) = (old(iter).rest@, final(iter).rest@);
                &&& before.len() > 0
                &&& x == before[before.len() - 1]
                &&& after.len() == before.len() - 1
                &&& forall|i: int| 0 <= i < after.len() ==> #[trigger] after[i] == before[i]
            },
            None => old(iter).rest@.len() == 0 && final(iter).rest@.len() == 0,
        },
        turned_round(
            Seq::new(old(iter).rest@.len(), |i: int| *old(iter).rest@[i]),
            old(iter)@,
        ),
        call_requires(IterMut::<'s, T>::size_hint, (&*old(iter),)),
        call_ensures(IterMut::<'s, T>::size_hint, (&*old(iter),), hint) ==> hint.0 == old(
            iter,
        ).rest@.len() && hint.1 == Some(hint.0),
{
}

/// Whether `state` is that of a lazy typed arena for `capacity` values over memory reserved at
/// `base`, with nothing committed and no values.
pub open spec fn typed_lazy_untouched<T>(
    state: TypedLazyState<T>,
    base: int,
    capacity: int,
    page: int,
) -> bool {
    &&& state.memory.base == base
    &&& state.memory.size == capacity * size_of::<T>()
    &&& state.memory.page == page
    &&& state.memory.committed == 0
    &&& state.memory.os_error == 0
    &&& state.capacity == capacity
    &&& state.values.len() == 0
    &&& state.dropped.len() == 0
}

/// A new lazy typed arena is one over the range that the reserve call answered with for the bytes
/// of all its values; a refusal of that call is the answer. For no bytes it is not asked, and the
/// arena stands at the alignment of the type.
pub proof fn law_call_typed_lazy_new<
    T,
    R: FnOnce(usize) -> Result<usize, i32>,
    C: Fn(usize, usize) -> Result<(), i32>,
>(
    capacity: usize,
    page: usize,
    reserve: R,
    commit: C,
    r: Result<TypedArenaLazy<T, C>, i32>,
    arena: TypedArenaLazy<T, C>,
)
    requires
        page > 0,
        capacity * size_of::<T>() <= usize::MAX,
        capacity * size_of::<T>() == 0 || laws::reserves_pages(
            reserve,
            commit,
            (capacity * size_of::<T>()) as usize,
            page,
        ),
    ensures
        call_requires(TypedArenaLazy::<T, C>::try_new::<R>, (capacity, page, reserve, commit)),
        call_ensures(TypedArenaLazy::<T, C>::try_new::<R>, (capacity, page, reserve, commit), r)
            ==> {
            &&& r matches Ok(arena) ==> {
                &&& arena.wf()
                &&& arena.commit_pages() == commit
                &&& typed_lazy_untouched(
                    arena@,
                    arena@.memory.base,
                    capacity as int,
                    page as int,
                )
                &&& capacity * size_of::<T>() == 0 ==> arena@.memory.base == align_of::<T>()
                &&& capacity * size_of::<T>() > 0 ==> call_ensures(
                    reserve,
                    ((capacity * size_of::<T>()) as usize,),
                    Ok::<usize, i32>(arena@.memory.base as usize),
                )
            }
            &&& r matches Err(code) ==> capacity * size_of::<T>() > 0 && call_ensures(
                reserve,
                ((capacity * size_of::<T>()) as usize,),
                Err::<usize, i32>(code),
            )
        },
        capacity * size_of::<T>() == 0 || (forall|answer: Result<usize, i32>| #[trigger]
            call_ensures(reserve, ((capacity * size_of::<T>()) as usize,), answer)
                ==> answer is Ok) ==> {
            &&& call_requires(TypedArenaLazy::<T, C>::new::<R>, (capacity, page, reserve, commit))
            &&& call_ensures(
                TypedArenaLazy::<T, C>::new::<R>,
                (capacity, page, reserve, commit),
                arena,
            ) ==> {
                &&& arena.wf()
                &&& arena.commit_pages() == commit
                &&& typed_lazy_untouched(
                    arena@,
                    arena@.memory.base,
                    capacity as int,
                    page as int,
                )
                &&& capacity * size_of::<T>() == 0 ==> arena@.memory.base == align_of::<T>()
                &&& capacity * size_of::<T>() > 0 ==> call_ensures(
                    reserve,
                    ((capacity * size_of::<T>()) as usize,),
                    Ok::<usize, i32>(arena@.memory.base as usize),
                )
            }
        },
{
    let bytes = capacity * size_of::<T>();
    vstd::arithmetic::mul::lemma_mul_nonnegative(capacity as int, size_of::<T>() as int);
    if bytes > 0 {
        laws::law_reserves(reserve, commit, bytes as usize, page);
    }
}

/// A lazy typed arena takes a value in while it has room, once the commit call has granted what
/// is missing for it, and hands it back for use in place, under all the names of the call.
pub proof fn law_call_typed_lazy_alloc<T, C: Fn(usize, usize) -> Result<(), i32>>(
    arena: &mut TypedArenaLazy<T, C>,
    value: T,
    r: Option<&mut T>,
)
    requires
        old(arena).wf(),
    ensures
        call_requires(TypedArenaLazy::<T, C>::try_alloc, (arena, value)),
        call_requires(TypedArenaLazy::<T, C>::alloc_raw, (arena, value)),
        call_ensures(TypedArenaLazy::<T, C>::try_alloc, (arena, value), r) || call_ensures(
            TypedArenaLazy::<T, C>::alloc_raw,
            (arena, value),
            r,
        ) ==> {
            &&& final(arena).wf()
            &&& final(arena).commit_pages() == old(arena).commit_pages()
            &&& r matches Some(x) ==> *x == value
            &&& laws::typed_lazy_answered(
                old(arena)@,
                old(arena).commit_pages(),
                value,
                final(arena)@,
                match r {
                    Some(x) => Some(*final(x)),
                    None => None,
                },
            )
        },
{
    let placed = match r {
        Some(x) => Some(*final(x)),
        None => None,
    };
    if TypedArenaLazy::allocated(*old(arena), value, *final(arena), placed) {
        laws::law_typed_lazy_allocated(*old(arena), value, *final(arena), placed);
    }
}

/// A value that must come in can be moved into a lazy typed arena where it has no size, or where
/// there is room and its bytes are committed, or the commit call cannot refuse those up to `t`,
/// which cover it; and it comes in.
pub proof fn law_call_typed_lazy_alloc_value<T, C: Fn(usize, usize) -> Result<(), i32>>(
    arena: &mut TypedArenaLazy<T, C>,
    value: T,
    t: int,
    r: &mut T,
)
    requires
        old(arena).wf(),
        size_of::<T>() == 0 || ({
            let memory = old(arena)@.memory;
            let end = (old(arena)@.values.len() + 1) * size_of::<T>() as int;
            &&& old(arena)@.values.len() < old(arena)@.capacity
            &&& end <= memory.committed || {
                &&& laws::page_cover(end, memory.page, memory.size, t)
                &&& forall|answer: Result<(), i32>| #[trigger]
                    laws::commit_answers(
                        old(arena).commit_pages(),
                        memory.base,
                        memory.committed,
                        t,
                        answer,
                    ) ==> answer is Ok
            }
        }),
    ensures
        call_requires(TypedArenaLazy::<T, C>::alloc_value, (arena, value)),
        call_ensures(TypedArenaLazy::<T, C>::alloc_value, (arena, value), r) ==> {
            &&& final(arena).wf()
            &&& final(arena).commit_pages() == old(arena).commit_pages()
            &&& *old(r) == value
            &&& laws::typed_lazy_answered(
                old(arena)@,
                old(arena).commit_pages(),
                value,
                final(arena)@,
                Some(*final(r)),
            )
        },
{
    laws::law_typed_lazy_can_alloc(*old(arena), t);
    let placed = Some(*final(r));
    if TypedArenaLazy::allocated(*old(arena), value, *final(arena), placed) {
        laws::law_typed_lazy_allocated(*old(arena), value, *final(arena), placed);
    }
}

/// What is missing for one more value is told as the range from the committed end to the end of
/// the pages that hold it, and nothing where its bytes are committed, it has none, or there is
/// no room.
pub proof fn law_call_typed_lazy_missing<T, C: Fn(usize, usize) -> Result<(), i32>>(
    arena: &TypedArenaLazy<T, C>,
    r: Option<Block>,
)
    requires
        arena.wf(),
    ensures
        call_requires(TypedArenaLazy::<T, C>::missing, (arena,)),
        call_ensures(TypedArenaLazy::<T, C>::missing, (arena,), r) ==> {
            let memory = arena@.memory;
            let end = (arena@.values.len() + 1) * size_of::<T>() as int;
            if size_of::<T>() > 0 && arena@.values.len() < arena@.capacity && end
                > memory.committed {
                match r {
                    Some(range) => {
                        &&& range.addr == memory.base + memory.committed
                        &&& laws::page_cover(
                            end,
                            memory.page,
                            memory.size,
                            range.addr + range.len - memory.base,
                        )
                    },
                    None => false,
                }
            } else {
                r is None
            }
        },
{
    laws::law_typed_lazy_reports(arena@, 0);
    laws::lemma_next_end(arena@);
    laws::law_reserved_missing(arena@.memory, arena@.needs());
}

/// When the answer of the system is handed in, a value without size comes in, and one that finds
/// no room is destroyed, whatever it is. Any other comes in if its bytes are committed or the
/// system grants; a refusal leaves its code, and the value is destroyed.
pub proof fn law_call_typed_lazy_settle<T, C: Fn(usize, usize) -> Result<(), i32>>(
    arena: &mut TypedArenaLazy<T, C>,
    value: T,
    answer: Result<(), i32>,
    r: Option<&mut T>,
)
    requires
        old(arena).wf(),
    ensures
        call_requires(TypedArenaLazy::<T, C>::settle, (arena, value, answer)),
        call_ensures(TypedArenaLazy::<T, C>::settle, (arena, value, answer), r) ==> {
            let (before, after) = (old(arena)@, final(arena)@);
            &&& final(arena).wf()
            &&& final(arena).commit_pages() == old(arena).commit_pages()
            &&& after.capacity == before.capacity
            &&& r matches Some(x) ==> *x == value
            &&& laws::value_offered(
                before.values,
                before.dropped,
                value,
                after.values,
                after.dropped,
                match r {
                    Some(x) => Some(*final(x)),
                    None => None,
                },
            )
            &&& if size_of::<T>() == 0 {
                r is Some && after.memory == before.memory
            } else if before.values.len() >= before.capacity {
                r is None && after.memory == before.memory
            } else {
                noted(
                    before.memory,
                    (before.values.len() + 1) * size_of::<T>() as int,
                    answer,
                    after.memory,
                    r is Some,
                )
            }
        },
{
    let placed = match r {
        Some(x) => Some(*final(x)),
        None => None,
    };
    if old(arena)@.offered(value, answer, placed) == Some(final(arena)@) {
        laws::law_typed_lazy_offered(old(arena)@, value, answer, placed, final(arena)@);
    }
}

/// What a lazy typed arena tells of itself: how many values take up capacity, whether none does,
/// how many it can hold, how many bytes are committed, the code of the last refused commit if one
/// was refused, the whole range if it is not empty, and the slot of the value at `index`.
pub proof fn law_call_typed_lazy_reports<T, C: Fn(usize, usize) -> Result<(), i32>>(
    arena: &TypedArenaLazy<T, C>,
    n: usize,
    none: bool,
    code: Option<i32>,
    index: usize,
    b: Option<Block>,
)
    requires
        arena.wf(),
    ensures
        call_requires(TypedArenaLazy::<T, C>::len, (arena,)),
        call_ensures(TypedArenaLazy::<T, C>::len, (arena,), n) ==> n == (if size_of::<T>() > 0 {
            arena@.values.len()
        } else {
            0
        }),
        call_requires(TypedArenaLazy::<T, C>::is_empty, (arena,)),
        call_ensures(TypedArenaLazy::<T, C>::is_empty, (arena,), none) ==> (none <==> size_of::<T>()
            == 0 || arena@.values.len() == 0),
        call_requires(TypedArenaLazy::<T, C>::capacity, (arena,)),
        call_ensures(TypedArenaLazy::<T, C>::capacity, (arena,), n) ==> n == arena@.capacity,
        call_requires(TypedArenaLazy::<T, C>::committed, (arena,)),
        call_ensures(TypedArenaLazy::<T, C>::committed, (arena,), n) ==> n
            == arena@.memory.committed,
        call_requires(TypedArenaLazy::<T, C>::last_os_error_code, (arena,)),
        call_ensures(TypedArenaLazy::<T, C>::last_os_error_code, (arena,), code) ==> match code {
            Some(c) => c == arena@.memory.os_error && c != 0,
            None => arena@.memory.os_error == 0,
        },
        call_requires(TypedArenaLazy::<T, C>::reservation, (arena,)),
        call_ensures(TypedArenaLazy::<T, C>::reservation, (arena,), b) ==> match b {
            Some(range) => {
                &&& range.addr == arena@.memory.base
                &&& range.len == arena@.memory.size
                &&& range.len > 0
            },
            None => arena@.memory.size == 0,
        },
        call_requires(TypedArenaLazy::<T, C>::slot, (arena, index)),
        call_ensures(TypedArenaLazy::<T, C>::slot, (arena, index), b) ==> match b {
            Some(slot) => {
                &&& size_of::<T>() > 0
                &&& index < arena@.values.len()
                &&& slot.addr == arena@.memory.base + index * size_of::<T>()
                &&& slot.len == size_of::<T>()
            },
            None => size_of::<T>() == 0 || index >= arena@.values.len(),
        },
{
    laws::law_typed_lazy_reports(arena@, index as int);
    laws::law_reserved_reports(arena@.memory);
}

/// A reset of a lazy typed arena destroys its values, newest first; the memory stays reserved and
/// committed.
pub proof fn law_call_typed_lazy_reset<T, C: Fn(usize, usize) -> Result<(), i32>>(
    arena: &mut TypedArenaLazy<T, C>,
)
    requires
        old(arena).wf(),
    ensures
        call_requires(TypedArenaLazy::<T, C>::reset, (arena,)),
        call_ensures(TypedArenaLazy::<T, C>::reset, (arena,), ()) ==> {
            &&& final(arena).wf()
            &&& final(arena).commit_pages() == old(arena).commit_pages()
            &&& final(arena)@.memory == old(arena)@.memory
            &&& final(arena)@.capacity == old(arena)@.capacity
            &&& final(arena)@.values.len() == 0
            &&& laws::destroyed_in_reverse(
                old(arena)@.dropped,
                old(arena)@.values,
                final(arena)@.dropped,
            )
        },
{
}

/// A layout is made exactly of a size and an alignment that is a power of two and leaves room for
/// the size rounded up to it, and tells both. That of a type has the type's.
pub proof fn law_call_layout<T>(
    size: usize,
    align: usize,
    r: Result<Layout, LayoutError>,
    layout: Layout,
    n: usize,
)
    ensures
        call_requires(Layout::from_size_align, (size, align)),
        call_ensures(Layout::from_size_align, (size, align), r) ==> {
            &&& r is Ok <==> is_pow2(align as int) && size <= isize::MAX - isize::MAX as int
                % align as int
            &&& r matches Ok(l) ==> l.size() == size && l.align() == align
        },
        call_requires(Layout::new::<T>, ()),
        call_ensures(Layout::new::<T>, (), layout) ==> {
            &&& layout.size() == size_of::<T>()
            &&& layout.align() == align_of::<T>()
            &&& layout == Layout::spec_new::<T>()
        },
        call_requires(Layout::size, (&layout,)),
        call_ensures(Layout::size, (&layout,), n) ==> n == layout.size(),
        call_requires(Layout::align, (&layout,)),
        call_ensures(Layout::align, (&layout,), n) ==> n == layout.align() && is_pow2(n as int),
{
}

/// What the answers of the system mean: an address is that of reserved memory unless it is null
/// or the last one; a status other than zero is a refusal; a page size is one unless it is not
/// positive.
pub proof fn law_call_sys(
    addr: usize,
    code: i32,
    status: i32,
    reserved: Result<usize, i32>,
    committed: Result<(), i32>,
    page: usize,
)
    ensures
        call_requires(sys::reserve, (addr, code)),
        call_ensures(sys::reserve, (addr, code), reserved) ==> match reserved {
            Ok(base) => base == addr && 0 < addr < usize::MAX,
            Err(c) => c == code && (addr == 0 || addr == usize::MAX),
        },
        call_requires(sys::commit, (status, code)),
        call_ensures(sys::commit, (status, code), committed) ==> match committed {
            Ok(_) => status == 0,
            Err(c) => c == code && status != 0,
        },
        call_requires(sys::page_size, (status,)),
        call_ensures(sys::page_size, (status,), page) ==> {
            &&& status > 0 ==> page == status
            &&& status <= 0 ==> page == 4096
        },
{
}

} // verus!
