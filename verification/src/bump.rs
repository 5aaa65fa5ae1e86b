//! Where a bump pointer puts the next block, and when the last block can be resized in place.

use vstd::prelude::*;

use crate::align;
use crate::layout::Layout;

verus! {

/// The address of the next block: the first multiple of the alignment behind the bump pointer.
pub open spec fn next_addr(base: int, offset: int, layout: Layout) -> int {
    align::round_up(base + offset, layout.align() as int)
}

/// Whether a block of `layout` behind the bump pointer ends within `capacity` bytes.
pub open spec fn fits(base: int, offset: int, capacity: int, layout: Layout) -> bool {
    next_addr(base, offset, layout) + layout.size() <= base + capacity
}

/// Whether the block of `old_size` bytes at `addr` ends at the bump pointer.
pub open spec fn is_last(base: int, offset: int, addr: int, old_size: int) -> bool {
    addr >= base && addr - base + old_size == offset
}

/// Whether the block of `old_size` bytes at `addr` can be enlarged in place.
pub open spec fn can_grow(
    base: int,
    offset: int,
    capacity: int,
    addr: int,
    old_size: int,
    new_layout: Layout,
) -> bool {
    &&& is_last(base, offset, addr, old_size)
    &&& new_layout.size() > old_size
    &&& addr % new_layout.align() as int == 0
    &&& addr - base + new_layout.size() <= capacity
}

/// Whether the block of `old_size` bytes at `addr` can be cut in place.
pub open spec fn can_shrink(
    base: int,
    offset: int,
    addr: int,
    old_size: int,
    new_layout: Layout,
) -> bool {
    &&& is_last(base, offset, addr, old_size)
    &&& new_layout.size() <= old_size
    &&& addr % new_layout.align() as int == 0
}

/// The offset at which a block of `layout` starts, or `None` where none fits.
pub(crate) fn place(base: usize, offset: usize, capacity: usize, layout: Layout) -> (r: Option<
    usize,
>)
    requires
        base + capacity <= usize::MAX,
        offset <= capacity,
    ensures
        match r {
            Some(start) => fits(base as int, offset as int, capacity as int, layout) && base + start
                == next_addr(base as int, offset as int, layout) && offset <= start && start
                + layout.size() <= capacity && (base + start) % layout.align() as int == 0,
            None => !fits(base as int, offset as int, capacity as int, layout),
        },
{
    let aligned_addr: usize = match align::align_up(base + offset, layout.align()) {
        Some(aligned_addr) => aligned_addr,
        None => {
            return None;
        },
    };
    proof {
        align::lemma_round_up(base + offset, layout.align() as int);
    }
    let start: usize = aligned_addr - base;
    match start.checked_add(layout.size()) {
        Some(end) => if end > capacity {
            None
        } else {
            Some(start)
        },
        None => None,
    }
}

/// The offset of the block of `old_size` bytes at `addr`, if it ends at the bump pointer.
fn last_offset(base: usize, offset: usize, addr: usize, old_size: usize) -> (r: Option<usize>)
    ensures
        match r {
            Some(start) => is_last(base as int, offset as int, addr as int, old_size as int)
                && start == addr - base,
            None => !is_last(base as int, offset as int, addr as int, old_size as int),
        },
{
    let start: usize = match addr.checked_sub(base) {
        Some(start) => start,
        None => {
            return None;
        },
    };
    match start.checked_add(old_size) {
        Some(end) => if end == offset {
            Some(start)
        } else {
            None
        },
        None => None,
    }
}

/// The bump pointer after enlarging a block in place, or `None` where that cannot be done.
pub(crate) fn grown_offset(
    base: usize,
    offset: usize,
    capacity: usize,
    addr: usize,
    old_size: usize,
    new_layout: Layout,
) -> (r: Option<usize>)
    ensures
        match r {
            Some(end) => can_grow(
                base as int,
                offset as int,
                capacity as int,
                addr as int,
                old_size as int,
                new_layout,
            ) && end == addr - base + new_layout.size(),
            None => !can_grow(
                base as int,
                offset as int,
                capacity as int,
                addr as int,
                old_size as int,
                new_layout,
            ),
        },
{
    let start: usize = match last_offset(base, offset, addr, old_size) {
        Some(start) => start,
        None => {
            return None;
        },
    };
    let align: usize = new_layout.align();
    proof {
        align::lemma_pow2_positive(align);
    }
    if new_layout.size() <= old_size || addr % align != 0 {
        return None;
    }
    match start.checked_add(new_layout.size()) {
        Some(end) => if end > capacity {
            None
        } else {
            Some(end)
        },
        None => None,
    }
}

/// The bump pointer after cutting a block in place, or `None` where that cannot be done.
pub(crate) fn shrunk_offset(
    base: usize,
    offset: usize,
    addr: usize,
    old_size: usize,
    new_layout: Layout,
) -> (r: Option<usize>)
    ensures
        match r {
            Some(end) => can_shrink(
                base as int,
                offset as int,
                addr as int,
                old_size as int,
                new_layout,
            ) && end == addr - base + new_layout.size(),
            None => !can_shrink(
                base as int,
                offset as int,
                addr as int,
                old_size as int,
                new_layout,
            ),
        },
{
    let start: usize = match last_offset(base, offset, addr, old_size) {
        Some(start) => start,
        None => {
            return None;
        },
    };
    let align: usize = new_layout.align();
    proof {
        align::lemma_pow2_positive(align);
    }
    if new_layout.size() > old_size || addr % align != 0 {
        return None;
    }
    start.checked_add(new_layout.size())
}

} // verus!
