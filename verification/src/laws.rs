//! What the arenas do, stated over addresses, lengths, bytes and values alone.
//!
//! The modules of the arenas say by spec functions what state follows which. The laws here hold
//! those functions to what a caller sees: which addresses a block may have, what is asked of the
//! system and when, which bytes change, which values are held and destroyed. [`calls`] holds the
//! calls to them.
//!
//! [`calls`]: crate::calls

use vstd::layout::{align_of, size_of, valid_layout};
use vstd::prelude::*;

use crate::align;
use crate::block;
use crate::block::Block;
use crate::bump_arena::{BumpArena, BumpState};
use crate::bump_arena_lazy::{BumpArenaLazy, LazyState};
use crate::layout::Layout;
use crate::reservation;
use crate::reservation::ReservedState;
use crate::typed_arena::DrainIter;
use crate::typed_arena_lazy::{TypedArenaLazy, TypedLazyState};
use crate::typed_arena_ref::IntoIter;
use crate::typed_store;
use crate::typed_store::TypedState;
use crate::UninitAllocator;

verus! {

/// Whether `m` divides `x`.
pub open spec fn divides(m: int, x: int) -> bool {
    x % m == 0
}

/// Whether `r` is where a request for `layout` goes in the memory from address `from` up to
/// `limit`: at the first aligned address, if the block ends by `limit` there, and nowhere
/// otherwise. An empty block stands at its alignment.
pub open spec fn first_fit(from: int, limit: int, layout: Layout, r: Option<Block>) -> bool {
    match r {
        Some(b) => {
            &&& b.len == layout.size()
            &&& b.len == 0 ==> b.addr == layout.align()
            &&& b.len > 0 ==> {
                &&& from <= b.addr < from + layout.align()
                &&& divides(layout.align() as int, b.addr as int)
                &&& b.addr + b.len <= limit
            }
        },
        None => {
            &&& layout.size() > 0
            &&& forall|a: int| #[trigger]
                divides(layout.align() as int, a) && from <= a ==> a + layout.size() > limit
        },
    }
}

/// Whether `t` is how much has to be committed for `end` bytes of a reservation of `size`: the
/// fewest whole pages that hold them, or all of it where the last page is cut off.
pub open spec fn page_cover(end: int, page: int, size: int, t: int) -> bool {
    &&& end <= t <= size
    &&& divides(page, t) || t == size
    &&& forall|m: int| #[trigger] divides(page, m) && end <= m <= size ==> t <= m
}

/// Whether `commit` may answer with `answer` to being asked for the `to - from` bytes that lie
/// `from` bytes behind `base`.
pub open spec fn commit_answers<C: Fn(usize, usize) -> Result<(), i32>>(
    commit: C,
    base: int,
    from: int,
    to: int,
    answer: Result<(), i32>,
) -> bool {
    call_ensures(commit, ((base + from) as usize, (to - from) as usize), answer)
}

/// Whether `after` holds the blocks of `before` that end by `addr`, and then the one of `len`
/// bytes at `addr`.
pub open spec fn last_replaced(
    before: Seq<Block>,
    addr: usize,
    len: usize,
    after: Seq<Block>,
) -> bool {
    &&& 0 < after.len() <= before.len() + 1
    &&& after.last() == (Block { addr, len })
    &&& forall|i: int|
        0 <= i < after.len() - 1 ==> #[trigger] after[i] == before[i] && before[i].addr
            + before[i].len <= addr
    &&& forall|i: int|
        after.len() - 1 <= i < before.len() ==> (#[trigger] before[i]).addr + before[i].len > addr
}

/// Whether the byte at address `x` belongs to `b`.
pub open spec fn byte_of(b: Block, x: int) -> bool {
    b.addr <= x < b.addr + b.len
}

/// Whether a bump arena turns from `before` into `after` and answers a request for `layout` with
/// `r`, as it should: by first fit behind the bump pointer. A block that is handed out moves the
/// pointer to its end and joins the live ones; nothing else changes.
pub open spec fn bump_answered(
    before: BumpState,
    layout: Layout,
    after: BumpState,
    r: Option<Block>,
) -> bool {
    &&& first_fit(before.base + before.used, before.base + before.bytes.len(), layout, r)
    &&& after.base == before.base
    &&& after.bytes == before.bytes
    &&& match r {
        Some(b) if b.len > 0 => {
            &&& after.used == b.addr + b.len - before.base
            &&& after.blocks == before.blocks.push(b)
        },
        _ => after.used == before.used && after.blocks == before.blocks,
    }
}

/// Whether a lazy arena with the commit call `commit` turns from `before` into `after` and
/// answers a request for `layout` with `r`, as it should where `place` is the first fit. Where
/// that block ends behind the committed part, the commit call was asked for the pages that are
/// missing of it, and granted them if the block was handed out, or refused them if not. Otherwise
/// nothing is committed, and a request is refused only where nothing fits.
pub open spec fn lazy_answered<C: Fn(usize, usize) -> Result<(), i32>>(
    before: LazyState,
    commit: C,
    place: Option<Block>,
    after: LazyState,
    r: Option<Block>,
) -> bool {
    &&& after.memory.base == before.memory.base
    &&& after.memory.size == before.memory.size
    &&& after.memory.page == before.memory.page
    &&& r is Some ==> r == place
    &&& match r {
        Some(b) if b.len > 0 => {
            &&& after.used == b.addr + b.len - before.memory.base
            &&& after.blocks == before.blocks.push(b)
        },
        _ => after.used == before.used && after.blocks == before.blocks,
    }
    &&& match place {
        Some(b) if b.len > 0 && b.addr + b.len > before.memory.base + before.memory.committed => {
            committed_for(
                before.memory,
                commit,
                b.addr + b.len - before.memory.base,
                after.memory,
                r is Some,
            )
        },
        _ => r == place && after.memory == before.memory,
    }
}

/// Whether a reservation with the commit call `commit` turns from `before` into `after` when
/// `end` bytes are needed and not committed, as it should: the call was asked for the pages that
/// are missing, and granted them if the bytes are `usable`, or refused them if not.
pub open spec fn committed_for<C: Fn(usize, usize) -> Result<(), i32>>(
    before: ReservedState,
    commit: C,
    end: int,
    after: ReservedState,
    usable: bool,
) -> bool {
    &&& after.base == before.base
    &&& after.size == before.size
    &&& after.page == before.page
    &&& if usable {
        &&& page_cover(end, before.page, before.size, after.committed)
        &&& commit_answers(commit, before.base, before.committed, after.committed, Ok(()))
        &&& after.os_error == before.os_error
    } else {
        &&& after.committed == before.committed
        &&& exists|t: int| #[trigger]
            page_cover(end, before.page, before.size, t) && commit_answers(
                commit,
                before.base,
                before.committed,
                t,
                Err(after.os_error),
            )
    }
}

/// Whether the block of `old_size` bytes at `addr` ends at the bump pointer of the memory of
/// `size` bytes at `base`, can have `new_layout` there, and gains bytes by it.
pub open spec fn grows_in_place(
    base: int,
    used: int,
    size: int,
    addr: int,
    old_size: int,
    new_layout: Layout,
) -> bool {
    &&& base <= addr
    &&& addr + old_size == base + used
    &&& divides(new_layout.align() as int, addr)
    &&& old_size < new_layout.size()
    &&& addr + new_layout.size() <= base + size
}

/// Whether the block of `old_size` bytes at `addr` ends at the bump pointer of the memory at
/// `base`, can have `new_layout` there, and gains no bytes by it.
pub open spec fn shrinks_in_place(
    base: int,
    used: int,
    addr: int,
    old_size: int,
    new_layout: Layout,
) -> bool {
    &&& base <= addr
    &&& addr + old_size == base + used
    &&& divides(new_layout.align() as int, addr)
    &&& new_layout.size() <= old_size
}

/// Whether a bump arena turns from `before` into `after` when the block at `addr` gets
/// `new_size` bytes, as it should: the bump pointer moves to the new end, the block is replaced
/// among the live ones, and no byte changes.
pub open spec fn bump_resized(
    before: BumpState,
    addr: usize,
    new_size: usize,
    after: BumpState,
) -> bool {
    &&& after.base == before.base
    &&& after.bytes == before.bytes
    &&& after.used == addr + new_size - before.base
    &&& last_replaced(before.blocks, addr, new_size, after.blocks)
}

/// Whether a lazy arena with the commit call `commit` turns from `before` into `after` and
/// answers with `r` when the block at `addr` is to grow, as it should: only where it can be
/// grown in place. Where its new end lies behind the committed part, the commit call was asked
/// for the pages that are missing, and granted them if the block was grown, or refused them if
/// not. Otherwise nothing is committed.
pub open spec fn lazy_grew<C: Fn(usize, usize) -> Result<(), i32>>(
    before: LazyState,
    commit: C,
    addr: usize,
    old_size: int,
    new_layout: Layout,
    after: LazyState,
    r: Option<Block>,
) -> bool {
    let grows = grows_in_place(
        before.memory.base,
        before.used,
        before.memory.size,
        addr as int,
        old_size,
        new_layout,
    );
    let end = addr + new_layout.size() - before.memory.base;
    &&& match r {
        Some(b) => {
            &&& b == (Block { addr, len: new_layout.size() })
            &&& after.used == end
            &&& last_replaced(before.blocks, addr, new_layout.size(), after.blocks)
        },
        None => after.used == before.used && after.blocks == before.blocks,
    }
    &&& if grows && end > before.memory.committed {
        committed_for(before.memory, commit, end, after.memory, r is Some)
    } else {
        (r is Some) == grows && after.memory == before.memory
    }
}

/// Whether an arena with the live `values` and the destroyed ones in `dropped` has those with
/// `_after` in their names when it was offered `value`, as it should, where `placed` is the final
/// contents of the value if it came in: it then stands behind the others, and is destroyed
/// otherwise.
pub open spec fn value_offered<T>(
    values: Seq<T>,
    dropped: Seq<T>,
    value: T,
    values_after: Seq<T>,
    dropped_after: Seq<T>,
    placed: Option<T>,
) -> bool {
    match placed {
        Some(last) => values_after == values.push(last) && dropped_after == dropped,
        None => values_after == values && dropped_after == dropped.push(value),
    }
}

/// Whether `after` holds what `before` does, and behind it `values` from the last to the first.
pub open spec fn destroyed_in_reverse<T>(before: Seq<T>, values: Seq<T>, after: Seq<T>) -> bool {
    &&& after.len() == before.len() + values.len()
    &&& forall|i: int| 0 <= i < before.len() ==> #[trigger] after[i] == before[i]
    &&& forall|i: int|
        0 <= i < values.len() ==> #[trigger] after[before.len() + i] == values[values.len() - 1
            - i]
}

/// Whether a typed arena over the allocator `A` takes in `value` as it should, where `placed` is
/// the final contents of the value if it came in. A value without size asks for no slot and
/// always comes in. Any other asks the allocator for one slot of the type's layout and for
/// nothing else, and comes in exactly if that slot is granted; it shares no byte with any block
/// that is live.
pub open spec fn typed_answered<T, A: UninitAllocator>(
    before: TypedState<T>,
    allocator: A,
    value: T,
    after: TypedState<T>,
    allocator_after: A,
    placed: Option<T>,
) -> bool {
    &&& after.home == before.home
    &&& value_offered(
        before.values,
        before.dropped,
        value,
        after.values,
        after.dropped,
        placed,
    )
    &&& size_of::<T>() == 0 ==> {
        &&& placed is Some
        &&& after.slots == before.slots
        &&& allocator_after == allocator
    }
    &&& size_of::<T>() > 0 ==> exists|slot: Option<Block>|
        {
            &&& #[trigger] A::alloc_step(
                allocator,
                Layout::spec_new::<T>(),
                allocator_after,
                slot,
            )
            &&& slot is Some <==> placed is Some
            &&& slot matches Some(b) ==> {
                &&& after.slots == before.slots.push(b)
                &&& allocator_after.live() == allocator.live().push(b)
                &&& forall|i: int, x: int|
                    0 <= i < allocator.live().len() ==> !(#[trigger] byte_of(
                        allocator.live()[i],
                        x,
                    ) && byte_of(b, x))
            }
            &&& slot is None ==> {
                &&& after.slots == before.slots
                &&& allocator_after.live() == allocator.live()
            }
        }
}

/// Whether a lazy typed arena with the commit call `commit` takes in `value` as it should, where
/// `placed` is the final contents of the value if it came in. A value without size always comes
/// in. Any other finds room exactly if fewer values are live than the capacity; where its bytes
/// are not committed, the commit call was asked for the pages that are missing, and granted them
/// if the value came in, or refused them if not.
pub open spec fn typed_lazy_answered<T, C: Fn(usize, usize) -> Result<(), i32>>(
    before: TypedLazyState<T>,
    commit: C,
    value: T,
    after: TypedLazyState<T>,
    placed: Option<T>,
) -> bool {
    let end = (before.values.len() + 1) * size_of::<T>() as int;
    &&& after.capacity == before.capacity
    &&& value_offered(
        before.values,
        before.dropped,
        value,
        after.values,
        after.dropped,
        placed,
    )
    &&& if size_of::<T>() > 0 && before.values.len() < before.capacity && end
        > before.memory.committed {
        committed_for(before.memory, commit, end, after.memory, placed is Some)
    } else {
        &&& after.memory == before.memory
        &&& placed is Some <==> size_of::<T>() == 0 || before.values.len() < before.capacity
    }
}

/// Whether `reserve` may be asked for `size` bytes, and answers only with ranges that start at a
/// page, not at null, lie in the address space, and can be committed page by page.
pub open spec fn reserves_pages<
    R: FnOnce(usize) -> Result<usize, i32>,
    C: Fn(usize, usize) -> Result<(), i32>,
>(reserve: R, commit: C, size: usize, page: usize) -> bool {
    &&& call_requires(reserve, (size,))
    &&& forall|base: usize| #[trigger]
        call_ensures(reserve, (size,), Ok::<usize, i32>(base)) ==> 0 < base && divides(
            page as int,
            base as int,
        ) && base + size <= usize::MAX
    &&& forall|base: usize, addr: usize, len: usize|
        #[trigger] call_ensures(reserve, (size,), Ok::<usize, i32>(base)) && base <= addr
            && divides(page as int, addr as int) && len > 0 && addr + len <= base + size
            ==> #[trigger] call_requires(commit, (addr, len))
}

/// What the words for blocks mean: the size and alignment of a layout, bytes in common, and the
/// place in a region.
pub proof fn law_block(a: Block, b: Block, layout: Layout, region: (int, int))
    ensures
        a.end() == a.addr + a.len,
        a.satisfies(layout) <==> a.len == layout.size() && divides(
            layout.align() as int,
            a.addr as int,
        ),
        a.disjoint(b) ==> forall|x: int| !(#[trigger] byte_of(a, x) && byte_of(b, x)),
        a.len > 0 && b.len > 0 && !a.disjoint(b) ==> exists|x: int| #[trigger]
            byte_of(a, x) && byte_of(b, x),
        a.lies_in(region) <==> (a.len > 0 ==> region.0 <= a.addr && a.addr + a.len <= region.0
            + region.1),
{
    if a.len > 0 && b.len > 0 && !a.disjoint(b) {
        let x: int = if a.addr <= b.addr {
            b.addr as int
        } else {
            a.addr as int
        };
        assert(byte_of(a, x) && byte_of(b, x));
    }
}

/// Rounding gives a multiple, and the first one.
pub proof fn law_round_up(x: int, m: int)
    requires
        m > 0,
    ensures
        x <= align::round_up(x, m) < x + m,
        divides(m, align::round_up(x, m)),
{
    align::lemma_round_up(x, m);
}

/// A bump arena answers by first fit behind its bump pointer. A block that is handed out moves
/// the pointer to its end and joins the live ones; nothing else changes.
pub proof fn law_bump_serve(
    state: BumpState,
    layout: Layout,
    after: BumpState,
    r: Option<Block>,
)
    requires
        state.wf(),
        layout.valid(),
        (after, r) == state.serve(layout),
    ensures
        bump_answered(state, layout, after, r),
{
    align::lemma_pow2_positive(layout.align());
    let (from, align) = (state.base + state.used, layout.align() as int);
    align::lemma_round_up(from, align);
    if r is None {
        assert forall|a: int| #[trigger] divides(align, a) && from <= a implies a + layout.size()
            > state.base + state.bytes.len() by {
            align::lemma_round_up_least(from, align, a);
        }
    }
}

/// What a typed arena meets in a bump arena as its allocator is the bump arena's own answer.
pub proof fn law_bump_alloc_step(
    pre: BumpArena,
    layout: Layout,
    post: BumpArena,
    r: Option<Block>,
)
    requires
        layout.valid(),
        pre.wf(),
        <BumpArena as UninitAllocator>::alloc_step(pre, layout, post, r),
    ensures
        pre.valid(),
        pre.live() == pre@.blocks,
        pre.region() == (pre@.base, pre@.bytes.len() as int),
        post.region() == pre.region(),
        bump_answered(pre@, layout, post@, r),
{
    law_bump_serve(pre@, layout, post@, r);
}

/// A request that must not fail can be made wherever an aligned place is left for it.
pub proof fn law_bump_fits(state: BumpState, layout: Layout, addr: int)
    requires
        state.wf(),
        layout.valid(),
        divides(layout.align() as int, addr),
        state.base + state.used <= addr,
        addr + layout.size() <= state.base + state.bytes.len(),
    ensures
        state.fits(layout),
        state.capacity() == state.bytes.len(),
{
    align::lemma_pow2_positive(layout.align());
    align::lemma_round_up(state.base + state.used, layout.align() as int);
    align::lemma_round_up_least(state.base + state.used, layout.align() as int, addr);
}

/// A reset moves the bump pointer to the start and ends all blocks; no byte changes.
pub proof fn law_bump_reset(state: BumpState)
    ensures
        state.reset().base == state.base,
        state.reset().bytes == state.bytes,
        state.reset().used == 0,
        state.reset().blocks.len() == 0,
{
}

/// A block can be resized in place exactly if it ends at the bump pointer and its address has
/// the new alignment; to grow, it must gain bytes and stay within the memory, to shrink, it
/// must not gain any.
pub proof fn law_bump_resizable(state: BumpState, addr: int, old_size: int, new_layout: Layout)
    requires
        state.wf(),
    ensures
        state.can_grow(addr, old_size, new_layout) <==> grows_in_place(
            state.base,
            state.used,
            state.bytes.len() as int,
            addr,
            old_size,
            new_layout,
        ),
        state.can_shrink(addr, old_size, new_layout) <==> shrinks_in_place(
            state.base,
            state.used,
            addr,
            old_size,
            new_layout,
        ),
{
}

/// Resizing a block in place moves the bump pointer to its new end, replaces it among the live
/// ones, and changes no byte.
pub proof fn law_bump_resized(state: BumpState, addr: usize, new_size: usize)
    requires
        state.wf(),
    ensures
        bump_resized(state, addr, new_size, state.resized(addr, new_size)),
{
    lemma_replaced(state.blocks, state.base, state.base + state.used, addr, new_size);
}

/// The blocks kept when the memory from `addr` on is used anew are those that end by `addr`.
pub proof fn law_ending_by(blocks: Seq<Block>, lo: int, hi: int, addr: int)
    requires
        block::packed(blocks, lo, hi),
    ensures
        ({
            let kept = block::ending_by(blocks, addr);
            &&& kept.len() <= blocks.len()
            &&& forall|i: int|
                0 <= i < kept.len() ==> #[trigger] kept[i] == blocks[i] && blocks[i].addr
                    + blocks[i].len <= addr
            &&& forall|i: int|
                kept.len() <= i < blocks.len() ==> (#[trigger] blocks[i]).addr + blocks[i].len
                    > addr
        }),
    decreases blocks.len(),
{
    block::lemma_ending_by(blocks, lo, hi, addr);
    if blocks.len() > 0 && blocks.last().addr + blocks.last().len > addr {
        let front = blocks.drop_last();
        assert(block::packed(front, lo, hi)) by {
            assert(forall|i: int| 0 <= i < front.len() ==> #[trigger] front[i] == blocks[i]);
        }
        law_ending_by(front, lo, hi, addr);
        assert forall|i: int|
            block::ending_by(blocks, addr).len() <= i < blocks.len() implies (
        #[trigger] blocks[i]).addr + blocks[i].len > addr by {
            if i < front.len() {
                assert(front[i] == blocks[i]);
            }
        }
    }
}

/// Replacing the blocks that do not end by `addr` by one there is what the words for it say.
proof fn lemma_replaced(blocks: Seq<Block>, lo: int, hi: int, addr: usize, len: usize)
    requires
        block::packed(blocks, lo, hi),
    ensures
        last_replaced(
            blocks,
            addr,
            len,
            block::ending_by(blocks, addr as int).push(Block { addr, len }),
        ),
{
    law_ending_by(blocks, lo, hi, addr as int);
    let kept = block::ending_by(blocks, addr as int);
    let after = kept.push(Block { addr, len });
    assert forall|i: int| 0 <= i < after.len() - 1 implies #[trigger] after[i] == blocks[i]
        && blocks[i].addr + blocks[i].len <= addr by {
        assert(after[i] == kept[i]);
    }
}

/// Growing a block with zeros writes zeros to the bytes that it gains and to no other: every
/// other byte of the memory, so every other live block, keeps what it held.
pub proof fn law_bump_grow_zeroed(
    state: BumpState,
    addr: usize,
    old_size: usize,
    new_size: usize,
)
    requires
        state.wf(),
        state.base <= addr,
        addr + old_size == state.base + state.used,
        old_size < new_size,
        addr + new_size <= state.base + state.bytes.len(),
    ensures
        ({
            let start = addr - state.base;
            let after = state.resized(addr, new_size).zeroed(start + old_size, start + new_size);
            &&& after.base == state.base
            &&& after.used == start + new_size
            &&& last_replaced(state.blocks, addr, new_size, after.blocks)
            &&& after.bytes.len() == state.bytes.len()
            &&& forall|k: int|
                0 <= k < state.bytes.len() ==> #[trigger] after.bytes[k] == (if start + old_size
                    <= k < start + new_size {
                    0
                } else {
                    state.bytes[k]
                })
        }),
{
    law_bump_resized(state, addr, new_size);
}

/// A block can be read and written exactly if it is empty or lies below the bump pointer. It
/// holds the bytes at its addresses, and writing to it changes these and no other.
pub proof fn law_bump_contents(state: BumpState, b: Block, contents: Seq<u8>)
    requires
        state.wf(),
        contents.len() == b.len,
    ensures
        state.holds(b) <==> (b.len > 0 ==> state.base <= b.addr && b.addr + b.len <= state.base
            + state.used),
        state.holds(b) ==> {
            let after = state.written(b, contents);
            &&& state.contents(b).len() == b.len
            &&& forall|k: int|
                0 <= k < b.len ==> #[trigger] state.contents(b)[k] == state.bytes[b.addr
                    - state.base + k]
            &&& after.base == state.base
            &&& after.used == state.used
            &&& after.blocks == state.blocks
            &&& after.bytes.len() == state.bytes.len()
            &&& forall|k: int|
                0 <= k < state.bytes.len() ==> #[trigger] after.bytes[k] == (if byte_of(
                    b,
                    state.base + k,
                ) {
                    contents[state.base + k - b.addr]
                } else {
                    state.bytes[k]
                })
        },
{
}

/// A fresh reservation has the address, size and page that it was made with, and nothing is
/// committed and no error kept.
pub proof fn law_reserved_fresh(base: int, size: int, page: int)
    ensures
        ({
            let state = ReservedState::fresh(base, size, page);
            &&& (state.base, state.size, state.page) == (base, size, page)
            &&& state.committed == 0
            &&& state.os_error == 0
        }),
{
}

/// What is missing of the first `end` bytes is the range from the committed end to the end of
/// the pages that hold them, and nothing where they are committed.
pub proof fn law_reserved_missing(state: ReservedState, end: int)
    requires
        state.wf(),
        0 <= end <= state.size,
    ensures
        match state.missing(end) {
            Some(range) => {
                &&& end > state.committed
                &&& range.addr == state.base + state.committed
                &&& range.addr + range.len <= state.base + state.size
                &&& page_cover(
                    end,
                    state.page,
                    state.size,
                    range.addr + range.len - state.base,
                )
            },
            None => end <= state.committed,
        },
{
    align::lemma_round_up(end, state.page);
    assert forall|m: int| #[trigger]
        divides(state.page, m) && end <= m <= state.size implies state.target(end) <= m by {
        align::lemma_round_up_least(end, state.page, m);
    }
}

/// Bytes that are committed are usable without the system. Others become usable exactly if the
/// system grants, with the pages that hold them; a refusal leaves its code and nothing else.
pub proof fn law_reserved_settled(
    state: ReservedState,
    end: int,
    answer: Result<(), i32>,
    after: ReservedState,
    usable: bool,
)
    requires
        state.wf(),
        0 <= end <= state.size,
        (after, usable) == state.settled(end, answer),
    ensures
        (after.base, after.size, after.page) == (state.base, state.size, state.page),
        end <= state.committed ==> usable && after == state,
        end > state.committed ==> match answer {
            Ok(_) => {
                &&& usable
                &&& page_cover(end, state.page, state.size, after.committed)
                &&& after.os_error == state.os_error
            },
            Err(code) => {
                &&& !usable
                &&& after.committed == state.committed
                &&& after.os_error == code
            },
        },
{
    align::lemma_round_up(end, state.page);
    assert forall|m: int| #[trigger]
        divides(state.page, m) && end <= m <= state.size implies state.target(end) <= m by {
        align::lemma_round_up_least(end, state.page, m);
    }
}

/// The kept code is that of the last refusal, none where it is zero. The range to release is
/// the whole reservation, none where it is empty.
pub proof fn law_reserved_reports(state: ReservedState)
    requires
        state.wf(),
    ensures
        match state.last_os_error() {
            Some(code) => code == state.os_error && code != 0,
            None => state.os_error == 0,
        },
        match state.range() {
            Some(range) => range.addr == state.base && range.len == state.size && state.size > 0,
            None => state.size == 0,
        },
{
}

/// Where bytes are missing, an answer of the system is an answer to the very range that is
/// missing.
pub proof fn law_may_answer<C: Fn(usize, usize) -> Result<(), i32>>(
    commit: C,
    state: ReservedState,
    end: int,
    answer: Result<(), i32>,
    t: int,
)
    requires
        state.wf(),
        state.committed < end <= state.size,
        page_cover(end, state.page, state.size, t),
    ensures
        reservation::may_answer(commit, state, end, answer) <==> commit_answers(
            commit,
            state.base,
            state.committed,
            t,
            answer,
        ),
{
    law_reserved_missing(state, end);
    align::lemma_round_up(end, state.page);
    let own = state.target(end);
    assert(divides(state.page, align::round_up(end, state.page)));
    assert(own == t) by {
        if divides(state.page, own) {
            assert(t <= own);
        }
    }
}

/// A reserve call is good for an arena if it can be asked, and answers with a range that starts
/// at a page, not at null, lies in the address space, and can be committed page by page.
pub proof fn law_reserves<
    R: FnOnce(usize) -> Result<usize, i32>,
    C: Fn(usize, usize) -> Result<(), i32>,
>(reserve: R, commit: C, size: usize, page: usize)
    requires
        reserves_pages(reserve, commit, size, page),
    ensures
        reservation::reserves(reserve, commit, size, page),
        (forall|answer: Result<usize, i32>| #[trigger]
            call_ensures(reserve, (size,), answer) ==> answer is Ok)
            ==> reservation::always_reserves(reserve, size),
{
}

/// A fresh lazy arena is a fresh reservation with nothing handed out.
pub proof fn law_lazy_fresh(base: int, capacity: int, page: int)
    ensures
        ({
            let state = LazyState::fresh(base, capacity, page);
            let memory = state.memory;
            &&& (memory.base, memory.size, memory.page) == (base, capacity, page)
            &&& memory.committed == 0
            &&& memory.os_error == 0
            &&& state.used == 0
            &&& state.blocks.len() == 0
            &&& (state.base(), state.capacity()) == (base, capacity)
        }),
{
}

/// In every memory there is one answer by first fit, and only one.
pub proof fn law_first_fit(
    from: int,
    limit: int,
    layout: Layout,
    p: Option<Block>,
    q: Option<Block>,
)
    requires
        layout.valid(),
        0 <= from <= limit <= usize::MAX,
    ensures
        exists|place: Option<Block>| #[trigger] first_fit(from, limit, layout, place),
        first_fit(from, limit, layout, p) && first_fit(from, limit, layout, q) ==> p == q,
{
    align::lemma_pow2_positive(layout.align());
    let align = layout.align() as int;
    let a = align::round_up(from, align);
    align::lemma_round_up(from, align);
    assert(divides(align, a));
    let place: Option<Block> = if layout.size() == 0 {
        Some(Block { addr: layout.align(), len: 0 })
    } else if a + layout.size() <= limit {
        Some(Block { addr: a as usize, len: layout.size() })
    } else {
        None
    };
    assert forall|x: int| #[trigger] divides(align, x) && from <= x implies a <= x by {
        align::lemma_round_up_least(from, align, x);
    }
    assert(first_fit(from, limit, layout, place));
    if let Some(b) = p {
        if b.len > 0 && first_fit(from, limit, layout, p) {
            lemma_same_multiple(align, a, b.addr as int);
        }
    }
    if let Some(b) = q {
        if b.len > 0 && first_fit(from, limit, layout, q) {
            lemma_same_multiple(align, a, b.addr as int);
        }
    }
}

/// A lazy arena finds the place of a block by first fit. Where the block is committed it is
/// handed out without the system. Where it is not, it is handed out exactly if the system
/// grants the pages that it misses; a refusal leaves its code and nothing else.
pub proof fn law_lazy_serve(
    state: LazyState,
    layout: Layout,
    answer: Result<(), i32>,
    after: LazyState,
    r: Option<Block>,
    place: Option<Block>,
)
    requires
        state.wf(),
        layout.valid(),
        (after, r) == state.serve(layout, answer),
        first_fit(
            state.memory.base + state.used,
            state.memory.base + state.memory.size,
            layout,
            place,
        ),
    ensures
        after.memory.base == state.memory.base,
        after.memory.size == state.memory.size,
        after.memory.page == state.memory.page,
        match place {
            Some(b) if b.len > 0 => {
                let end = b.addr + b.len - state.memory.base;
                &&& state.needs(layout) == end
                &&& end <= state.memory.committed ==> r == place && after.memory == state.memory
                &&& end > state.memory.committed && answer is Ok ==> {
                    &&& r == place
                    &&& page_cover(
                        end,
                        state.memory.page,
                        state.memory.size,
                        after.memory.committed,
                    )
                    &&& after.memory.os_error == state.memory.os_error
                }
                &&& end > state.memory.committed && answer is Err ==> {
                    &&& r is None
                    &&& after.memory.committed == state.memory.committed
                    &&& answer == Err::<(), i32>(after.memory.os_error)
                }
            },
            _ => r == place && after == state && state.needs(layout) == 0,
        },
        match r {
            Some(b) if b.len > 0 => {
                &&& after.used == b.addr + b.len - state.memory.base
                &&& after.blocks == state.blocks.push(b)
            },
            _ => after.used == state.used && after.blocks == state.blocks,
        },
{
    align::lemma_pow2_positive(layout.align());
    let (from, align) = (state.base() + state.used, layout.align() as int);
    align::lemma_round_up(from, align);
    assert(divides(align, align::round_up(from, align)));
    if let Some(b) = place {
        if layout.size() > 0 {
            align::lemma_round_up_least(from, align, b.addr as int);
            lemma_same_multiple(align, align::round_up(from, align), b.addr as int);
            assert(state.next_block(layout) == b);
            let end = b.addr + b.len - state.memory.base;
            let (memory, usable) = state.memory.settled(end, answer);
            law_reserved_settled(state.memory, end, answer, memory, usable);
        }
    } else {
        let a = align::round_up(from, align);
        assert(divides(layout.align() as int, a) && state.memory.base + state.used <= a);
        assert(!state.fits(layout));
    }
}

/// Two multiples of `m` that lie less than `m` apart are the same.
proof fn lemma_same_multiple(m: int, x: int, y: int)
    requires
        m > 0,
        divides(m, x),
        divides(m, y),
        x <= y < x + m,
    ensures
        x == y,
{
    align::lemma_round_up_least(y, m, y);
    align::lemma_round_up(x + 1, m);
    if x < y {
        vstd::arithmetic::div_mod::lemma_fundamental_div_mod(x, m);
        vstd::arithmetic::div_mod::lemma_fundamental_div_mod(y, m);
        let (p, q) = (x / m, y / m);
        assert(false) by (nonlinear_arith)
            requires
                m > 0,
                x == m * p,
                y == m * q,
                x < y < x + m,
        ;
    }
}

/// A request to a lazy arena is answered by the block at its first fit. Where that block ends
/// behind the committed part, the commit call was asked for the pages that are missing of it,
/// and granted them if the block was handed out, or refused them if not. Otherwise nothing is
/// committed, and a request is refused only where nothing fits.
pub proof fn law_lazy_served<C: Fn(usize, usize) -> Result<(), i32>>(
    pre: BumpArenaLazy<C>,
    layout: Layout,
    post: BumpArenaLazy<C>,
    r: Option<Block>,
    place: Option<Block>,
)
    requires
        pre.wf(),
        layout.valid(),
        BumpArenaLazy::served(pre, layout, post, r),
        first_fit(
            pre@.memory.base + pre@.used,
            pre@.memory.base + pre@.memory.size,
            layout,
            place,
        ),
    ensures
        post.commit_pages() == pre.commit_pages(),
        lazy_answered(pre@, pre.commit_pages(), place, post@, r),
{
    let answer = choose|answer: Result<(), i32>| #[trigger]
        pre.may_answer(pre@.needs(layout), answer) && (post@, r) == pre@.serve(layout, answer);
    law_lazy_serve(pre@, layout, answer, post@, r, place);
    if let Some(b) = place {
        if b.len > 0 && b.addr + b.len > pre@.memory.base + pre@.memory.committed {
            let end = b.addr + b.len - pre@.memory.base;
            assert(pre@.needs(layout) == end);
            lemma_asked(pre.commit_pages(), pre@.memory, end, answer);
            match answer {
                Ok(u) => assert(answer == Ok::<(), i32>(())),
                Err(code) => assert(answer == Err::<(), i32>(post@.memory.os_error)),
            }
        }
    }
}

/// Where bytes are missing, some cover by pages is what the system was asked for.
proof fn lemma_asked<C: Fn(usize, usize) -> Result<(), i32>>(
    commit: C,
    state: ReservedState,
    end: int,
    answer: Result<(), i32>,
)
    requires
        state.wf(),
        state.committed < end <= state.size,
        reservation::may_answer(commit, state, end, answer),
    ensures
        exists|t: int| #[trigger]
            page_cover(end, state.page, state.size, t) && commit_answers(
                commit,
                state.base,
                state.committed,
                t,
                answer,
            ),
        forall|t: int| #[trigger]
            page_cover(end, state.page, state.size, t) ==> commit_answers(
                commit,
                state.base,
                state.committed,
                t,
                answer,
            ),
{
    law_reserved_missing(state, end);
    let range = state.missing(end)->0;
    let own = range.addr + range.len - state.base;
    law_may_answer(commit, state, end, answer, own);
    assert forall|t: int| #[trigger]
        page_cover(end, state.page, state.size, t) implies commit_answers(
        commit,
        state.base,
        state.committed,
        t,
        answer,
    ) by {
        law_may_answer(commit, state, end, answer, t);
    }
}

/// A lazy arena as the allocator of a typed arena answers as it does itself.
pub proof fn law_lazy_alloc_step<C: Fn(usize, usize) -> Result<(), i32>>(
    pre: BumpArenaLazy<C>,
    layout: Layout,
    post: BumpArenaLazy<C>,
    r: Option<Block>,
)
    requires
        pre.wf(),
        <BumpArenaLazy<C> as UninitAllocator>::alloc_step(pre, layout, post, r),
    ensures
        pre.valid(),
        pre.live() == pre@.blocks,
        pre.region() == (pre@.memory.base, pre@.memory.size),
        BumpArenaLazy::served(pre, layout, post, r),
{
}

/// A request that must not fail can be made wherever an aligned place is left for it, and is
/// committed or cannot be refused by the system.
pub proof fn law_lazy_can_serve<C: Fn(usize, usize) -> Result<(), i32>>(
    arena: BumpArenaLazy<C>,
    layout: Layout,
    place: Block,
    t: int,
)
    requires
        arena.wf(),
        layout.valid(),
        first_fit(
            arena@.memory.base + arena@.used,
            arena@.memory.base + arena@.memory.size,
            layout,
            Some(place),
        ),
        place.len == 0 || place.addr + place.len <= arena@.memory.base + arena@.memory.committed
            || (page_cover(
            place.addr + place.len - arena@.memory.base,
            arena@.memory.page,
            arena@.memory.size,
            t,
        ) && forall|answer: Result<(), i32>| #[trigger]
            commit_answers(
                arena.commit_pages(),
                arena@.memory.base,
                arena@.memory.committed,
                t,
                answer,
            ) ==> answer is Ok),
    ensures
        arena.can_serve(layout),
{
    assert forall|answer: Result<(), i32>| #[trigger]
        arena.may_answer(arena@.needs(layout), answer) implies arena@.serve(
        layout,
        answer,
    ).1 is Some by {
        let (after, r) = arena@.serve(layout, answer);
        law_lazy_serve(arena@, layout, answer, after, r, Some(place));
        let end = place.addr + place.len - arena@.memory.base;
        if place.len > 0 && end > arena@.memory.committed {
            law_may_answer(arena.commit_pages(), arena@.memory, end, answer, t);
        }
    }
}

/// A reset moves the bump pointer to the start and ends all blocks. The memory stays reserved
/// and committed as it was, with the kept error code.
pub proof fn law_lazy_reset(state: LazyState)
    ensures
        state.reset().memory == state.memory,
        state.reset().used == 0,
        state.reset().blocks.len() == 0,
{
}

/// A block can be grown in place exactly if it ends at the bump pointer, its address has the new
/// alignment, it gains bytes, and the reservation holds them; shrunk, if it does not gain any.
pub proof fn law_lazy_resizable(state: LazyState, addr: int, old_size: int, new_layout: Layout)
    requires
        state.wf(),
    ensures
        state.can_grow(addr, old_size, new_layout) <==> grows_in_place(
            state.memory.base,
            state.used,
            state.memory.size,
            addr,
            old_size,
            new_layout,
        ),
        state.can_shrink(addr, old_size, new_layout) <==> shrinks_in_place(
            state.memory.base,
            state.used,
            addr,
            old_size,
            new_layout,
        ),
{
}

/// Resizing a block in place moves the bump pointer to its new end and replaces it among the
/// live ones; the memory stays as it is.
pub proof fn law_lazy_resized(state: LazyState, addr: usize, new_size: usize)
    requires
        state.wf(),
    ensures
        ({
            let after = state.resized(addr, new_size);
            &&& after.memory == state.memory
            &&& after.used == addr + new_size - state.memory.base
            &&& last_replaced(state.blocks, addr, new_size, after.blocks)
        }),
{
    lemma_replaced(state.blocks, state.base(), state.base() + state.used, addr, new_size);
}

/// A block of a lazy arena is grown only where it can be. Where its new end lies behind the
/// committed part, the commit call was asked for the pages that are missing, and granted them
/// if the block was grown, or refused them if not. Otherwise nothing is committed.
pub proof fn law_lazy_grown<C: Fn(usize, usize) -> Result<(), i32>>(
    pre: BumpArenaLazy<C>,
    addr: usize,
    old_size: int,
    new_layout: Layout,
    post: BumpArenaLazy<C>,
    r: Option<Block>,
)
    requires
        pre.wf(),
        BumpArenaLazy::grown(pre, addr, old_size, new_layout, post, r),
    ensures
        post.commit_pages() == pre.commit_pages(),
        lazy_grew(
            pre@,
            pre.commit_pages(),
            addr,
            old_size,
            new_layout,
            post@,
            r,
        ),
{
    let answer = choose|answer: Result<(), i32>| #[trigger]
        pre.may_answer(pre@.grow_needs(addr as int, old_size, new_layout), answer) && (post@, r)
            == pre@.grow(addr, old_size, new_layout, answer);
    law_lazy_resizable(pre@, addr as int, old_size, new_layout);
    if pre@.can_grow(addr as int, old_size, new_layout) {
        let b = Block { addr, len: new_layout.size() };
        let end = addr + new_layout.size() - pre@.memory.base;
        assert(end == b.end() - pre@.base());
        let (memory, usable) = pre@.memory.settled(end, answer);
        law_reserved_settled(pre@.memory, end, answer, memory, usable);
        lemma_replaced(
            pre@.blocks,
            pre@.memory.base,
            pre@.memory.base + pre@.used,
            addr,
            new_layout.size(),
        );
        assert(pre@.grow(addr, old_size, new_layout, answer) == pre@.settled(b, answer));
        if end > pre@.memory.committed {
            lemma_asked(pre.commit_pages(), pre@.memory, end, answer);
            match answer {
                Ok(u) => assert(answer == Ok::<(), i32>(())),
                Err(code) => assert(answer == Err::<(), i32>(post@.memory.os_error)),
            }
        }
    }
}

/// What becomes of a typed arena: an empty one holds nothing, a value comes in behind the others
/// with its slot or without, a refused one is destroyed, and a reset destroys all, newest first.
pub proof fn law_typed_states<T>(state: TypedState<T>, home: (int, int), slot: Block, value: T)
    ensures
        ({
            let empty = TypedState::<T>::empty(home);
            &&& empty.values.len() == 0
            &&& empty.slots.len() == 0
            &&& empty.dropped.len() == 0
            &&& empty.home == home
        }),
        ({
            let after = state.placed(slot, value);
            &&& after.values == state.values.push(value)
            &&& after.slots == state.slots.push(slot)
            &&& after.dropped == state.dropped
            &&& after.home == state.home
        }),
        ({
            let after = state.placed_without_slot(value);
            &&& after.values == state.values.push(value)
            &&& after.slots == state.slots
            &&& after.dropped == state.dropped
            &&& after.home == state.home
        }),
        ({
            let after = state.refused(value);
            &&& after.values == state.values
            &&& after.slots == state.slots
            &&& after.dropped == state.dropped.push(value)
            &&& after.home == state.home
        }),
        ({
            let after = state.cleared();
            &&& after.values.len() == 0
            &&& after.slots.len() == 0
            &&& after.home == state.home
            &&& destroyed_in_reverse(state.dropped, state.values, after.dropped)
        }),
{
}

/// Moving one value into a typed arena asks the allocator for one slot of the type's layout and
/// for nothing else, and the value comes in exactly if that slot is granted. The slot shares no
/// byte with any live block. A value without size asks for none and always comes in. What comes
/// in stands behind the other values; what is refused is destroyed.
pub proof fn law_typed_allocated<T, A: UninitAllocator>(
    pre: TypedState<T>,
    pre_allocator: A,
    value: T,
    post: TypedState<T>,
    post_allocator: A,
    placed: Option<T>,
)
    requires
        typed_store::allocated(pre, pre_allocator, value, post, post_allocator, placed),
    ensures
        typed_answered(pre, pre_allocator, value, post, post_allocator, placed),
{
    if size_of::<T>() > 0 {
        let slot = choose|slot: Option<Block>| #[trigger]
            A::alloc_step(pre_allocator, Layout::spec_new::<T>(), post_allocator, slot) && (match (
                slot,
                placed,
            ) {
                (Some(slot), Some(last)) => {
                    &&& post == pre.placed(slot, last)
                    &&& post_allocator.live() == pre_allocator.live().push(slot)
                    &&& forall|i: int|
                        0 <= i < pre_allocator.live().len() ==> slot.disjoint(
                            #[trigger] pre_allocator.live()[i],
                        )
                },
                (None, None) => {
                    &&& post == pre.refused(value)
                    &&& post_allocator.live() == pre_allocator.live()
                },
                _ => false,
            });
        assert(A::alloc_step(pre_allocator, Layout::spec_new::<T>(), post_allocator, slot));
        if let Some(b) = slot {
            assert forall|i: int, x: int|
                0 <= i < pre_allocator.live().len() implies !(#[trigger] byte_of(
                pre_allocator.live()[i],
                x,
            ) && byte_of(b, x)) by {
                assert(b.disjoint(pre_allocator.live()[i]));
            }
        }
    }
}

/// Over a bump arena a value with a size comes in exactly if its slot fits behind the bump
/// pointer, and takes up that one slot at the first fit.
pub proof fn law_typed_allocated_in_bump<T>(
    pre: TypedState<T>,
    pre_allocator: BumpArena,
    value: T,
    post: TypedState<T>,
    post_allocator: BumpArena,
    placed: Option<T>,
)
    requires
        pre_allocator.wf(),
        size_of::<T>() > 0,
        Layout::spec_new::<T>().valid(),
        Layout::spec_new::<T>().size() == size_of::<T>(),
        typed_store::allocated(pre, pre_allocator, value, post, post_allocator, placed),
    ensures
        ({
            let (before, after) = (pre_allocator@, post_allocator@);
            let (from, limit) = (before.base + before.used, before.base + before.bytes.len());
            &&& after.base == before.base
            &&& after.bytes == before.bytes
            &&& match placed {
                Some(last) => {
                    &&& post.slots.len() == pre.slots.len() + 1
                    &&& first_fit(
                        from,
                        limit,
                        Layout::spec_new::<T>(),
                        Some(post.slots.last()),
                    )
                    &&& after.used == post.slots.last().addr + size_of::<T>() - before.base
                    &&& after.blocks == before.blocks.push(post.slots.last())
                },
                None => {
                    &&& first_fit(from, limit, Layout::spec_new::<T>(), None)
                    &&& after.used == before.used
                    &&& after.blocks == before.blocks
                },
            }
        }),
{
    law_typed_allocated(pre, pre_allocator, value, post, post_allocator, placed);
    let slot = choose|slot: Option<Block>|
        {
            &&& #[trigger] <BumpArena as UninitAllocator>::alloc_step(
                pre_allocator,
                Layout::spec_new::<T>(),
                post_allocator,
                slot,
            )
            &&& slot is Some <==> placed is Some
            &&& slot matches Some(b) ==> post.slots == pre.slots.push(b)
        };
    law_bump_alloc_step(pre_allocator, Layout::spec_new::<T>(), post_allocator, slot);
}

/// A value comes in for sure where it has no size, or where the allocator cannot refuse a slot.
pub proof fn law_typed_can_alloc<T, A: UninitAllocator>(allocator: A)
    requires
        size_of::<T>() == 0 || forall|post: A, slot: Option<Block>| #[trigger]
            A::alloc_step(allocator, Layout::spec_new::<T>(), post, slot) ==> slot is Some,
    ensures
        typed_store::can_alloc::<T, A>(allocator),
{
}

/// The end of a draining iterator destroys the values to come in reverse, that of an owning one
/// in order: the newest first in both.
pub proof fn law_destroyed_at_end<T, A: UninitAllocator>(
    drain: DrainIter<'_, T, A>,
    owning: IntoIter<'_, T, A>,
)
    ensures
        drain.destroyed_at_end().len() == drain@.len(),
        forall|i: int|
            0 <= i < drain@.len() ==> #[trigger] drain.destroyed_at_end()[i] == drain@[drain@.len()
                - 1 - i],
        owning.destroyed_at_end().len() == owning@.len(),
        forall|i: int|
            0 <= i < owning@.len() ==> #[trigger] owning.destroyed_at_end()[i] == owning@[i],
{
}

/// A fresh lazy typed arena reserves the bytes of all its values and holds none.
pub proof fn law_typed_lazy_fresh<T>(base: int, capacity: int, page: int)
    ensures
        ({
            let state = TypedLazyState::<T>::fresh(base, capacity, page);
            let memory = state.memory;
            &&& (memory.base, memory.page) == (base, page)
            &&& memory.size == capacity * size_of::<T>()
            &&& memory.committed == 0
            &&& memory.os_error == 0
            &&& state.capacity == capacity
            &&& state.values.len() == 0
            &&& state.dropped.len() == 0
        }),
{
}

/// A value without size is always taken in. Any other finds room exactly if fewer values are
/// live than the capacity, and its bytes are committed or the system grants the pages that are
/// missing; a refusal by the system leaves its code and nothing else.
pub proof fn law_typed_lazy_settled<T>(
    state: TypedLazyState<T>,
    answer: Result<(), i32>,
    after: TypedLazyState<T>,
    usable: bool,
)
    requires
        state.wf(),
        (after, usable) == state.settled(answer),
    ensures
        after.values == state.values,
        after.dropped == state.dropped,
        after.capacity == state.capacity,
        (after.memory.base, after.memory.size, after.memory.page) == (
            state.memory.base,
            state.memory.size,
            state.memory.page,
        ),
        size_of::<T>() == 0 ==> usable && after == state,
        size_of::<T>() > 0 ==> {
            let end = (state.values.len() + 1) * size_of::<T>() as int;
            if state.values.len() >= state.capacity {
                !usable && after == state
            } else if end <= state.memory.committed {
                usable && after == state
            } else {
                match answer {
                    Ok(_) => {
                        &&& usable
                        &&& page_cover(
                            end,
                            state.memory.page,
                            state.memory.size,
                            after.memory.committed,
                        )
                        &&& after.memory.os_error == state.memory.os_error
                    },
                    Err(code) => {
                        &&& !usable
                        &&& after.memory.committed == state.memory.committed
                        &&& after.memory.os_error == code
                    },
                }
            }
        },
{
    lemma_next_end(state);
    if size_of::<T>() > 0 && state.values.len() < state.capacity {
        let end = (state.values.len() + 1) * size_of::<T>() as int;
        let (memory, ok) = state.memory.settled(end, answer);
        law_reserved_settled(state.memory, end, answer, memory, ok);
    }
}

/// The bytes of one more value lie within the reservation.
pub(crate) proof fn lemma_next_end<T>(state: TypedLazyState<T>)
    requires
        state.wf(),
    ensures
        size_of::<T>() > 0 && state.values.len() < state.capacity ==> 0 <= (state.values.len() + 1)
            * size_of::<T>() as int <= state.memory.size,
{
    let size = size_of::<T>() as int;
    let n = state.values.len() as int;
    if size > 0 && n < state.capacity {
        vstd::arithmetic::mul::lemma_mul_inequality(n + 1, state.capacity, size);
        vstd::arithmetic::mul::lemma_mul_nonnegative(n + 1, size);
    }
}

/// While the system grants every commit, a value with a size comes in exactly if fewer values
/// than the capacity are live.
pub proof fn law_typed_lazy_full<T>(state: TypedLazyState<T>)
    requires
        state.wf(),
        size_of::<T>() > 0,
    ensures
        state.settled(Ok(())).1 <==> state.values.len() < state.capacity,
        state.has_room() <==> state.values.len() < state.capacity,
{
    let (after, usable) = state.settled(Ok(()));
    law_typed_lazy_settled(state, Ok(()), after, usable);
}

/// A value that is offered to a lazy typed arena comes in behind the others, or is destroyed.
/// It comes in where it has no size, or where there is room and its bytes are or get committed.
pub proof fn law_typed_lazy_offered<T>(
    state: TypedLazyState<T>,
    value: T,
    answer: Result<(), i32>,
    placed: Option<T>,
    after: TypedLazyState<T>,
)
    requires
        state.wf(),
        state.offered(value, answer, placed) == Some(after),
    ensures
        after.capacity == state.capacity,
        (after.memory.base, after.memory.size, after.memory.page) == (
            state.memory.base,
            state.memory.size,
            state.memory.page,
        ),
        match placed {
            Some(last) => after.values == state.values.push(last) && after.dropped
                == state.dropped,
            None => after.values == state.values && after.dropped == state.dropped.push(value),
        },
        size_of::<T>() == 0 ==> placed is Some && after.memory == state.memory,
        size_of::<T>() > 0 ==> {
            let end = (state.values.len() + 1) * size_of::<T>() as int;
            if state.values.len() >= state.capacity {
                placed is None && after.memory == state.memory
            } else if end <= state.memory.committed {
                placed is Some && after.memory == state.memory
            } else {
                match answer {
                    Ok(_) => {
                        &&& placed is Some
                        &&& page_cover(
                            end,
                            state.memory.page,
                            state.memory.size,
                            after.memory.committed,
                        )
                        &&& after.memory.os_error == state.memory.os_error
                    },
                    Err(code) => {
                        &&& placed is None
                        &&& after.memory.committed == state.memory.committed
                        &&& after.memory.os_error == code
                    },
                }
            }
        },
{
    let (settled, usable) = state.settled(answer);
    law_typed_lazy_settled(state, answer, settled, usable);
}

/// Where the bytes of a value with a size are not committed and there is room, the commit call
/// of a lazy typed arena was asked for the pages that are missing, and granted them if the value
/// came in, or refused them if not. Otherwise nothing is committed, and the value is refused
/// only where the arena is full.
pub proof fn law_typed_lazy_allocated<T, C: Fn(usize, usize) -> Result<(), i32>>(
    pre: TypedArenaLazy<T, C>,
    value: T,
    post: TypedArenaLazy<T, C>,
    placed: Option<T>,
)
    requires
        pre.wf(),
        TypedArenaLazy::allocated(pre, value, post, placed),
    ensures
        post.commit_pages() == pre.commit_pages(),
        typed_lazy_answered(pre@, pre.commit_pages(), value, post@, placed),
{
    let answer = choose|answer: Result<(), i32>| #[trigger]
        pre.may_answer(answer) && pre@.offered(value, answer, placed) == Some(post@);
    law_typed_lazy_offered(pre@, value, answer, placed, post@);
    let end = (pre@.values.len() + 1) * size_of::<T>() as int;
    lemma_next_end(pre@);
    if size_of::<T>() > 0 && pre@.values.len() < pre@.capacity && end > pre@.memory.committed {
        assert(pre@.needs() == end);
        lemma_asked(pre.commit_pages(), pre@.memory, end, answer);
        match answer {
            Ok(u) => assert(answer == Ok::<(), i32>(())),
            Err(code) => assert(answer == Err::<(), i32>(post@.memory.os_error)),
        }
    }
}

/// What a lazy typed arena reports: the committed memory that one more value needs, the number
/// of values that take up capacity, and the slot of each, one behind the other from the start.
pub proof fn law_typed_lazy_reports<T>(state: TypedLazyState<T>, i: int)
    requires
        state.wf(),
    ensures
        state.needs() == (if size_of::<T>() > 0 && state.values.len() < state.capacity {
            (state.values.len() + 1) * size_of::<T>() as int
        } else {
            0
        }),
        state.len() == (if size_of::<T>() > 0 {
            state.values.len()
        } else {
            0
        }),
        size_of::<T>() > 0 && 0 <= i < state.values.len() ==> {
            &&& state.slot(i).addr == state.memory.base + i * size_of::<T>()
            &&& state.slot(i).len == size_of::<T>()
            &&& state.slot(i).addr + state.slot(i).len <= state.memory.base
                + state.memory.committed
        },
{
    if size_of::<T>() > 0 && 0 <= i < state.values.len() {
        crate::typed_arena_lazy::lemma_slot(state, i);
    }
}

/// A reset of a lazy typed arena destroys its values, newest first, and leaves the memory and
/// the capacity as they are.
pub proof fn law_typed_lazy_cleared<T>(state: TypedLazyState<T>)
    ensures
        ({
            let after = state.cleared();
            &&& after.values.len() == 0
            &&& after.memory == state.memory
            &&& after.capacity == state.capacity
            &&& destroyed_in_reverse(state.dropped, state.values, after.dropped)
        }),
{
}

/// A value comes in for sure where it has no size, or where there is room and its bytes are
/// committed or cannot be refused by the system.
pub proof fn law_typed_lazy_can_alloc<T, C: Fn(usize, usize) -> Result<(), i32>>(
    arena: TypedArenaLazy<T, C>,
    t: int,
)
    requires
        arena.wf(),
        size_of::<T>() == 0 || (arena@.values.len() < arena@.capacity && ((arena@.values.len() + 1)
            * size_of::<T>() as int <= arena@.memory.committed || (page_cover(
            (arena@.values.len() + 1) * size_of::<T>() as int,
            arena@.memory.page,
            arena@.memory.size,
            t,
        ) && forall|answer: Result<(), i32>| #[trigger]
            commit_answers(
                arena.commit_pages(),
                arena@.memory.base,
                arena@.memory.committed,
                t,
                answer,
            ) ==> answer is Ok))),
    ensures
        arena.can_alloc(),
{
    lemma_next_end(arena@);
    assert forall|answer: Result<(), i32>| #[trigger] arena.may_answer(answer) implies
        arena@.settled(answer).1 by {
        let (after, usable) = arena@.settled(answer);
        law_typed_lazy_settled(arena@, answer, after, usable);
        let end = (arena@.values.len() + 1) * size_of::<T>() as int;
        if size_of::<T>() > 0 && end > arena@.memory.committed {
            law_may_answer(arena.commit_pages(), arena@.memory, end, answer, t);
        }
    }
}

/// The answer of an allocation that can fail is its block, if it has one.
pub proof fn law_granted(r: Result<Block, crate::AllocError>)
    ensures
        match r {
            Ok(b) => crate::granted(r) == Some(b),
            Err(_) => crate::granted(r) is None,
        },
{
}

/// A layout is valid exactly if its alignment is a power of two that leaves room for its size,
/// and that of a type has the type's size and alignment.
pub proof fn law_layout<T>(layout: Layout)
    ensures
        layout.valid() <==> valid_layout(layout.size(), layout.align()),
        Layout::spec_new::<T>().size() == size_of::<T>() as usize,
        Layout::spec_new::<T>().align() == align_of::<T>() as usize,
{
    Layout::lemma_new::<T>();
}

} // verus!
