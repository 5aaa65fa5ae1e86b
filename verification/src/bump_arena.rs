//! A bump allocator over memory from the global allocator.

use vstd::prelude::*;

use crate::align;
use crate::block;
use crate::block::Block;
use crate::bump;
use crate::layout::Layout;
use crate::{AllocError, SingleThreaded, UninitAllocator};

verus! {

/// The state of a [`BumpArena`].
#[verifier::ext_equal]
pub struct BumpState {
    /// The address of the first byte.
    pub base: int,
    /// The bump pointer, counted from `base`.
    pub used: int,
    /// The contents of the memory.
    pub bytes: Seq<u8>,
    /// The live blocks, oldest first.
    pub blocks: Seq<Block>,
}

impl BumpState {
    /// The size of the memory.
    pub open spec fn capacity(self) -> int {
        self.bytes.len() as int
    }

    /// Whether a block of `layout` can still be placed.
    pub open spec fn fits(self, layout: Layout) -> bool {
        bump::fits(self.base, self.used, self.capacity(), layout)
    }

    /// The block that the next request for `layout` gets, if it fits.
    pub open spec fn next_block(self, layout: Layout) -> Block {
        Block {
            addr: bump::next_addr(self.base, self.used, layout) as usize,
            len: layout.size(),
        }
    }

    /// The state after a request for `layout`, and its answer.
    pub open spec fn serve(self, layout: Layout) -> (BumpState, Option<Block>) {
        if layout.size() == 0 {
            (self, Some(Block { addr: layout.align(), len: 0 }))
        } else if self.fits(layout) {
            let block = self.next_block(layout);
            (
                BumpState {
                    used: block.end() - self.base,
                    blocks: self.blocks.push(block),
                    ..self
                },
                Some(block),
            )
        } else {
            (self, None)
        }
    }

    /// The state after `reset`.
    pub open spec fn reset(self) -> BumpState {
        BumpState { used: 0, blocks: Seq::empty(), ..self }
    }

    /// Whether the block of `old_size` bytes at `addr` can be enlarged in place.
    pub open spec fn can_grow(self, addr: int, old_size: int, new_layout: Layout) -> bool {
        bump::can_grow(self.base, self.used, self.capacity(), addr, old_size, new_layout)
    }

    /// Whether the block of `old_size` bytes at `addr` can be cut in place.
    pub open spec fn can_shrink(self, addr: int, old_size: int, new_layout: Layout) -> bool {
        bump::can_shrink(self.base, self.used, addr, old_size, new_layout)
    }

    /// The state after the last block, at `addr`, has been given `new_size` bytes.
    pub open spec fn resized(self, addr: usize, new_size: usize) -> BumpState {
        BumpState {
            used: addr - self.base + new_size,
            blocks: block::ending_by(self.blocks, addr as int).push(Block { addr, len: new_size }),
            ..self
        }
    }

    /// The state with zeros in the bytes at offsets `lo` to `hi`.
    pub open spec fn zeroed(self, lo: int, hi: int) -> BumpState {
        BumpState {
            bytes: Seq::new(
                self.bytes.len(),
                |i: int| if lo <= i < hi { 0u8 } else { self.bytes[i] },
            ),
            ..self
        }
    }

    /// Whether `block` is empty or lies in the allocated part of the memory.
    pub open spec fn holds(self, block: Block) -> bool {
        block.len == 0 || (self.base <= block.addr && block.end() <= self.base + self.used)
    }

    /// The contents of `block`.
    pub open spec fn contents(self, block: Block) -> Seq<u8> {
        if block.len == 0 {
            Seq::empty()
        } else {
            self.bytes.subrange(block.addr - self.base, block.end() - self.base)
        }
    }

    /// The state with `contents` written into `block`.
    pub open spec fn written(self, block: Block, contents: Seq<u8>) -> BumpState {
        if block.len == 0 {
            self
        } else {
            BumpState {
                bytes: self.bytes.subrange(0, block.addr - self.base) + contents
                    + self.bytes.subrange(block.end() - self.base, self.capacity()),
                ..self
            }
        }
    }

    /// What holds of every state that an arena reaches.
    pub open spec fn wf(self) -> bool {
        &&& 0 < self.base
        &&& self.base + self.capacity() <= usize::MAX
        &&& 0 <= self.used <= self.capacity()
        &&& block::packed(self.blocks, self.base, self.base + self.used)
    }
}

/// A fixed-capacity bump allocator over memory from the global allocator.
///
/// The arena hands out [`Block`]s of its memory one behind the other. Its capacity is set at
/// construction and never changes, so blocks keep their addresses. What a block holds is read
/// and written through [`BumpArena::bytes`] and [`BumpArena::bytes_mut`].
pub struct BumpArena {
    memory: Vec<u8>,
    base: usize,
    offset: usize,
    blocks: Ghost<Seq<Block>>,
    marker: SingleThreaded,
}

/// The address of the buffer of `memory`, from [`Vec::as_mut_ptr`].
///
/// Claims that the buffer is not at null and lies within the address space, and that the call
/// leaves the elements as they are. Which address it is depends on the machine.
#[verifier::external_body]
fn buffer_address(memory: &mut Vec<u8>) -> (addr: usize)
    ensures
        addr > 0,
        addr + old(memory)@.len() <= usize::MAX,
        final(memory)@ == old(memory)@,
{
    memory.as_mut_ptr() as usize
}

impl View for BumpArena {
    type V = BumpState;

    closed spec fn view(&self) -> BumpState {
        BumpState {
            base: self.base as int,
            used: self.offset as int,
            bytes: self.memory@,
            blocks: self.blocks@,
        }
    }
}

impl BumpArena {
    /// Whether the arena is in a state it can reach.
    pub open spec fn wf(&self) -> bool {
        self@.wf()
    }

    /// Creates an arena of exactly `capacity` bytes.
    ///
    /// What the bytes hold before they are written is not promised.
    pub fn new(capacity: usize) -> (arena: BumpArena)
        requires
            capacity <= isize::MAX,
        ensures
            arena.wf(),
            arena@.used == 0,
            arena@.capacity() == capacity,
            arena@.bytes.len() == capacity,
            arena@.blocks == Seq::<Block>::empty(),
    {
        let mut memory: Vec<u8> = vec![0u8; capacity];
        let base: usize = buffer_address(&mut memory);
        BumpArena {
            memory,
            base,
            offset: 0,
            blocks: Ghost(Seq::empty()),
            marker: SingleThreaded::new(),
        }
    }

    /// Hands out a block that satisfies `layout`, or `None` where the rest of the memory does
    /// not hold one.
    ///
    /// A request of size zero gets an empty block and moves nothing.
    pub fn try_alloc_uninit(&mut self, layout: Layout) -> (r: Option<Block>)
        requires
            old(self).wf(),
        ensures
            final(self).wf(),
            (final(self)@, r) == old(self)@.serve(layout),
            r matches Some(block) ==> block.satisfies(layout) && final(self)@.holds(block),
    {
        let size: usize = layout.size();
        if size == 0 {
            let align: usize = layout.align();
            proof {
                align::lemma_pow2_positive(align);
                vstd::arithmetic::div_mod::lemma_mod_self_0(align as int);
            }
            return Some(Block { addr: align, len: 0 });
        }
        let start: usize = match bump::place(self.base, self.offset, self.memory.len(), layout) {
            Some(start) => start,
            None => {
                return None;
            },
        };
        let block = Block { addr: self.base + start, len: size };
        self.offset = start + size;
        proof {
            block::lemma_packed_push(
                old(self)@.blocks,
                old(self)@.base,
                old(self)@.base + old(self)@.used,
                block,
            );
            self.blocks@ = self.blocks@.push(block);
        }
        Some(block)
    }

    /// Hands out a block that satisfies `layout`; [`BumpArena::try_alloc_uninit`] under
    /// another name.
    pub fn alloc_uninit_slice(&mut self, layout: Layout) -> (r: Option<Block>)
        requires
            old(self).wf(),
        ensures
            final(self).wf(),
            (final(self)@, r) == old(self)@.serve(layout),
            r matches Some(block) ==> block.satisfies(layout) && final(self)@.holds(block),
    {
        self.try_alloc_uninit(layout)
    }

    /// Hands out a block that satisfies `layout`, where one fits.
    pub fn alloc_uninit(&mut self, layout: Layout) -> (block: Block)
        requires
            old(self).wf(),
            layout.size() == 0 || old(self)@.fits(layout),
        ensures
            final(self).wf(),
            (final(self)@, Some(block)) == old(self)@.serve(layout),
            block.satisfies(layout),
            final(self)@.holds(block),
    {
        self.try_alloc_uninit(layout).expect("BumpArena allocation failed")
    }

    /// Moves the bump pointer back to the beginning; the blocks handed out so far are dead.
    ///
    /// No destructors run: what was stored in the blocks is simply forgotten.
    pub fn reset(&mut self)
        requires
            old(self).wf(),
        ensures
            final(self).wf(),
            final(self)@ == old(self)@.reset(),
    {
        self.offset = 0;
        proof {
            self.blocks@ = Seq::empty();
        }
    }

    /// The size of the memory, in bytes.
    pub fn capacity(&self) -> (r: usize)
        ensures
            r == self@.capacity(),
    {
        self.memory.len()
    }

    /// The number of bytes up to the bump pointer.
    pub fn used(&self) -> (r: usize)
        ensures
            r == self@.used,
    {
        self.offset
    }

    /// The address of the first byte.
    pub fn base(&self) -> (r: usize)
        ensures
            r == self@.base,
    {
        self.base
    }

    /// The contents of `block`.
    pub fn bytes(&self, block: Block) -> (r: &[u8])
        requires
            self.wf(),
            self@.holds(block),
        ensures
            r@ == self@.contents(block),
    {
        if block.len == 0 {
            let r = vstd::slice::slice_subrange(self.memory.as_slice(), 0, 0);
            assert(r@ =~= Seq::empty());
            return r;
        }
        let start: usize = block.addr - self.base;
        vstd::slice::slice_subrange(self.memory.as_slice(), start, start + block.len)
    }

    /// The contents of `block`, for writing.
    pub fn bytes_mut(&mut self, block: Block) -> (r: &mut [u8])
        requires
            old(self).wf(),
            old(self)@.holds(block),
        ensures
            r@ == old(self)@.contents(block),
            final(r)@.len() == r@.len() ==> final(self).wf() && final(self)@ == old(self)@.written(
                block,
                final(r)@,
            ),
    {
        let start: usize = if block.len == 0 {
            0
        } else {
            block.addr - self.base
        };
        let (front, rest) = self.memory.as_mut_slice().split_at_mut(start);
        let (middle, back) = rest.split_at_mut(block.len);
        middle
    }

    /// Allocates a block for `layout`.
    pub fn allocate(&mut self, layout: Layout) -> (r: Result<Block, AllocError>)
        requires
            old(self).wf(),
        ensures
            final(self).wf(),
            ({
                let (state, block) = old(self)@.serve(layout);
                final(self)@ == state && r == (match block {
                    Some(block) => Ok::<Block, AllocError>(block),
                    None => Err(AllocError),
                })
            }),
            r matches Ok(block) ==> block.satisfies(layout) && final(self)@.holds(block),
    {
        match self.try_alloc_uninit(layout) {
            Some(block) => Ok(block),
            None => Err(AllocError),
        }
    }

    /// Does nothing: memory comes back only through [`BumpArena::reset`] or the arena's end.
    pub fn deallocate(&mut self, _addr: usize, _layout: Layout)
        ensures
            *final(self) == *old(self),
    {
    }

    /// Enlarges the block at `addr` in place, if it is the last one, the new size is larger,
    /// `addr` has the new alignment, and the memory suffices.
    pub fn grow(&mut self, addr: usize, old_layout: Layout, new_layout: Layout) -> (r: Result<
        Block,
        AllocError,
    >)
        requires
            old(self).wf(),
        ensures
            final(self).wf(),
            match r {
                Ok(block) => {
                    &&& old(self)@.can_grow(addr as int, old_layout.size() as int, new_layout)
                    &&& block == (Block { addr, len: new_layout.size() })
                    &&& final(self)@ == old(self)@.resized(addr, new_layout.size())
                },
                Err(_) => {
                    &&& !old(self)@.can_grow(addr as int, old_layout.size() as int, new_layout)
                    &&& final(self)@ == old(self)@
                },
            },
    {
        let grown = bump::grown_offset(
            self.base,
            self.offset,
            self.memory.len(),
            addr,
            old_layout.size(),
            new_layout,
        );
        match grown {
            Some(offset) => {
                let block = Block { addr, len: new_layout.size() };
                self.set_last(block, offset);
                Ok(block)
            },
            None => Err(AllocError),
        }
    }

    /// [`BumpArena::grow`], with zeros in the bytes that the block gains.
    pub fn grow_zeroed(&mut self, addr: usize, old_layout: Layout, new_layout: Layout) -> (r:
        Result<Block, AllocError>)
        requires
            old(self).wf(),
        ensures
            final(self).wf(),
            match r {
                Ok(block) => {
                    &&& old(self)@.can_grow(addr as int, old_layout.size() as int, new_layout)
                    &&& block == (Block { addr, len: new_layout.size() })
                    &&& final(self)@ == old(self)@.resized(addr, new_layout.size()).zeroed(
                        addr - old(self)@.base + old_layout.size(),
                        addr - old(self)@.base + new_layout.size(),
                    )
                },
                Err(_) => {
                    &&& !old(self)@.can_grow(addr as int, old_layout.size() as int, new_layout)
                    &&& final(self)@ == old(self)@
                },
            },
    {
        let block = match self.grow(addr, old_layout, new_layout) {
            Ok(block) => block,
            Err(e) => {
                return Err(e);
            },
        };
        let ghost grown = self@;
        let start: usize = addr - self.base;
        let lo: usize = start + old_layout.size();
        let hi: usize = start + new_layout.size();
        let mut i: usize = lo;
        while i < hi
            invariant
                grown.wf(),
                lo <= i <= hi <= grown.capacity(),
                self@ == grown.zeroed(lo as int, i as int),
            decreases hi - i,
        {
            self.memory[i] = 0;
            i = i + 1;
            assert(self@ =~= grown.zeroed(lo as int, i as int));
        }
        Ok(block)
    }

    /// Cuts the block at `addr` in place, if it is the last one, the new size is not larger,
    /// and `addr` has the new alignment.
    pub fn shrink(&mut self, addr: usize, old_layout: Layout, new_layout: Layout) -> (r: Result<
        Block,
        AllocError,
    >)
        requires
            old(self).wf(),
        ensures
            final(self).wf(),
            match r {
                Ok(block) => {
                    &&& old(self)@.can_shrink(addr as int, old_layout.size() as int, new_layout)
                    &&& block == (Block { addr, len: new_layout.size() })
                    &&& final(self)@ == old(self)@.resized(addr, new_layout.size())
                },
                Err(_) => {
                    &&& !old(self)@.can_shrink(addr as int, old_layout.size() as int, new_layout)
                    &&& final(self)@ == old(self)@
                },
            },
    {
        let shrunk = bump::shrunk_offset(
            self.base,
            self.offset,
            addr,
            old_layout.size(),
            new_layout,
        );
        match shrunk {
            Some(offset) => {
                let block = Block { addr, len: new_layout.size() };
                self.set_last(block, offset);
                Ok(block)
            },
            None => Err(AllocError),
        }
    }

    /// Makes `block` the last block, ending at `offset`.
    fn set_last(&mut self, block: Block, offset: usize)
        requires
            old(self).wf(),
            old(self)@.base <= block.addr,
            offset == block.end() - old(self)@.base,
            offset <= old(self)@.capacity(),
        ensures
            final(self).wf(),
            final(self)@ == old(self)@.resized(block.addr, block.len),
    {
        self.offset = offset;
        proof {
            let pre = old(self)@;
            block::lemma_ending_by(pre.blocks, pre.base, pre.base + pre.used, block.addr as int);
            let kept = block::ending_by(pre.blocks, block.addr as int);
            block::lemma_packed_push(kept, pre.base, block.addr as int, block);
            self.blocks@ = kept.push(block);
        }
    }
}

impl UninitAllocator for BumpArena {
    open spec fn valid(&self) -> bool {
        self.wf()
    }

    open spec fn live(&self) -> Seq<Block> {
        self@.blocks
    }

    open spec fn region(&self) -> (int, int) {
        (self@.base, self@.capacity())
    }

    open spec fn alloc_step(pre: Self, layout: Layout, post: Self, r: Option<Block>) -> bool {
        (post@, r) == pre@.serve(layout)
    }

    fn try_alloc_uninit(&mut self, layout: Layout) -> (r: Option<Block>) {
        let r = self.alloc_uninit_slice(layout);
        proof {
            use_type_invariant(&layout);
            let pre = old(self)@;
            lemma_serve(pre, layout);
            if let Some(block) = r {
                if block.len > 0 {
                    block::lemma_packed_push(pre.blocks, pre.base, pre.base + pre.used, block);
                }
            }
        }
        r
    }
}

/// Serving a request leaves the memory where it is and as it is, keeps every live block, and
/// moves the bump pointer only forward. A refused request, and one of size zero, moves nothing.
pub proof fn lemma_serve(state: BumpState, layout: Layout)
    requires
        state.wf(),
        layout.valid(),
    ensures
        ({
            let (after, r) = state.serve(layout);
            &&& after.wf()
            &&& after.base == state.base
            &&& after.bytes == state.bytes
            &&& state.used <= after.used
            &&& state.blocks.is_prefix_of(after.blocks)
            &&& r matches Some(block) ==> block.satisfies(layout) && after.holds(block)
            &&& (match r {
                Some(block) if layout.size() > 0 => {
                    &&& after.blocks == state.blocks.push(block)
                    &&& state.base + state.used <= block.addr
                    &&& block.end() == after.base + after.used
                },
                _ => after == state,
            })
        }),
{
    align::lemma_pow2_positive(layout.align());
    vstd::arithmetic::div_mod::lemma_mod_self_0(layout.align() as int);
    align::lemma_round_up(state.base + state.used, layout.align() as int);
    if layout.size() > 0 && state.fits(layout) {
        block::lemma_packed_push(
            state.blocks,
            state.base,
            state.base + state.used,
            state.next_block(layout),
        );
    }
}

/// A request is refused only where no aligned place behind the bump pointer holds it, and is
/// otherwise served at the first such place.
pub proof fn lemma_serve_first_place(state: BumpState, layout: Layout, addr: int)
    requires
        state.wf(),
        layout.valid(),
        layout.size() > 0,
        state.base + state.used <= addr,
        addr % layout.align() as int == 0,
        addr + layout.size() <= state.base + state.capacity(),
    ensures
        state.serve(layout).1 matches Some(block) && block.addr <= addr,
{
    align::lemma_pow2_positive(layout.align());
    align::lemma_round_up(state.base + state.used, layout.align() as int);
    align::lemma_round_up_least(state.base + state.used, layout.align() as int, addr);
}

/// A request that was refused stays refused while others are served.
pub proof fn lemma_refusal_lasts(state: BumpState, layout: Layout, other: Layout)
    requires
        state.wf(),
        layout.valid(),
        other.valid(),
        state.serve(layout).1 is None,
    ensures
        state.serve(other).0.serve(layout).1 is None,
{
    lemma_serve(state, other);
    align::lemma_pow2_positive(layout.align());
    let after = state.serve(other).0;
    let align = layout.align() as int;
    align::lemma_round_up(after.base + after.used, align);
    align::lemma_round_up_least(
        state.base + state.used,
        align,
        bump::next_addr(after.base, after.used, layout),
    );
}

/// An arena without capacity refuses every request for bytes.
pub proof fn lemma_zero_capacity(state: BumpState, layout: Layout)
    requires
        state.wf(),
        layout.valid(),
        state.capacity() == 0,
        layout.size() > 0,
    ensures
        state.serve(layout).1 is None,
{
    align::lemma_pow2_positive(layout.align());
    align::lemma_round_up(state.base + state.used, layout.align() as int);
}

/// No two live blocks share a byte, and all of them lie within the capacity.
pub proof fn lemma_live_blocks_disjoint(state: BumpState, i: int, j: int)
    requires
        state.wf(),
        0 <= i < state.blocks.len(),
        0 <= j < state.blocks.len(),
        i != j,
    ensures
        state.blocks[i].disjoint(state.blocks[j]),
        state.holds(state.blocks[i]),
        state.used <= state.capacity(),
{
    block::lemma_packed_disjoint(state.blocks, state.base, state.base + state.used);
}

/// After a reset an arena answers every request as one of the same address and capacity does
/// that has served none.
pub proof fn lemma_reset(state: BumpState, fresh: BumpState, layout: Layout)
    requires
        state.wf(),
        fresh.used == 0,
        fresh.base == state.base,
        fresh.capacity() == state.capacity(),
    ensures
        state.reset().wf(),
        state.reset().capacity() == state.capacity(),
        state.reset().serve(layout).1 == fresh.serve(layout).1,
        state.reset().serve(layout).0.used == fresh.serve(layout).0.used,
{
}

/// A block cannot be resized while a later one still has bytes.
pub proof fn lemma_resize_only_last(state: BumpState, i: int, j: int, new_layout: Layout)
    requires
        state.wf(),
        0 <= i < j < state.blocks.len(),
        state.blocks[j].len > 0,
    ensures
        !state.can_grow(state.blocks[i].addr as int, state.blocks[i].len as int, new_layout),
        !state.can_shrink(state.blocks[i].addr as int, state.blocks[i].len as int, new_layout),
{
    assert(state.blocks[i].end() <= state.blocks[j].addr);
    assert(state.blocks[j].end() <= state.base + state.used);
}

/// Resizing the last block keeps its address, its bytes as far as it still has them, and every
/// other block with its contents.
pub proof fn lemma_resize_keeps_contents(state: BumpState, new_layout: Layout)
    requires
        state.wf(),
        state.blocks.len() > 0,
        state.blocks.last().len > 0,
        ({
            let last = state.blocks.last();
            ||| state.can_grow(last.addr as int, last.len as int, new_layout)
            ||| state.can_shrink(last.addr as int, last.len as int, new_layout)
        }),
    ensures
        ({
            let last = state.blocks.last();
            let after = state.resized(last.addr, new_layout.size());
            let kept = if last.len <= new_layout.size() {
                last.len as int
            } else {
                new_layout.size() as int
            };
            &&& after.wf()
            &&& after.blocks == state.blocks.drop_last().push(
                Block { addr: last.addr, len: new_layout.size() },
            )
            &&& after.contents(after.blocks.last()).take(kept) == state.contents(last).take(kept)
            &&& forall|i: int|
                0 <= i < state.blocks.len() - 1 ==> after.contents(#[trigger] state.blocks[i])
                    == state.contents(state.blocks[i])
        }),
{
    let last = state.blocks.last();
    let n = state.blocks.len() as int;
    let after = state.resized(last.addr, new_layout.size());
    assert(state.base <= state.blocks[n - 1].addr);
    assert(state.blocks[n - 1].end() <= state.base + state.used);
    block::lemma_ending_by_last(state.blocks, state.base, state.base + state.used);
    block::lemma_ending_by(
        state.blocks,
        state.base,
        state.base + state.used,
        last.addr as int,
    );
    block::lemma_packed_push(
        state.blocks.drop_last(),
        state.base,
        last.addr as int,
        Block { addr: last.addr, len: new_layout.size() },
    );
    let kept = if last.len <= new_layout.size() {
        last.len as int
    } else {
        new_layout.size() as int
    };
    assert(after.contents(after.blocks.last()).take(kept) =~= state.contents(last).take(kept));
}

/// Shrinking a block to its old size undoes growing it.
pub proof fn lemma_grow_shrink(state: BumpState, old_layout: Layout, new_layout: Layout)
    requires
        state.wf(),
        state.blocks.len() > 0,
        state.blocks.last().len > 0,
        state.blocks.last().satisfies(old_layout),
        state.can_grow(
            state.blocks.last().addr as int,
            old_layout.size() as int,
            new_layout,
        ),
    ensures
        ({
            let addr = state.blocks.last().addr;
            let grown = state.resized(addr, new_layout.size());
            &&& grown.can_shrink(addr as int, new_layout.size() as int, old_layout)
            &&& grown.resized(addr, old_layout.size()) == state
        }),
{
    let addr = state.blocks.last().addr;
    let n = state.blocks.len() as int;
    assert(state.base <= state.blocks[n - 1].addr);
    block::lemma_ending_by_last(state.blocks, state.base, state.base + state.used);
    block::lemma_ending_by(state.blocks, state.base, state.base + state.used, addr as int);
    let grown = state.resized(addr, new_layout.size());
    block::lemma_packed_push(
        state.blocks.drop_last(),
        state.base,
        addr as int,
        grown.blocks.last(),
    );
    block::lemma_ending_by_last(grown.blocks, grown.base, grown.base + grown.used);
    assert(grown.resized(addr, old_layout.size()).blocks =~= state.blocks);
}

/// A block that is grown with zeros holds what it held before, and zeros behind it.
pub proof fn lemma_grow_zeroed(
    state: BumpState,
    addr: usize,
    old_layout: Layout,
    new_layout: Layout,
)
    requires
        state.wf(),
        state.can_grow(addr as int, old_layout.size() as int, new_layout),
    ensures
        ({
            let start = addr - state.base;
            let after = state.resized(addr, new_layout.size()).zeroed(
                start + old_layout.size(),
                start + new_layout.size(),
            );
            after.contents(Block { addr, len: new_layout.size() }) == state.contents(
                Block { addr, len: old_layout.size() },
            ) + Seq::new((new_layout.size() - old_layout.size()) as nat, |k: int| 0u8)
        }),
{
    let start = addr - state.base;
    let after = state.resized(addr, new_layout.size()).zeroed(
        start + old_layout.size(),
        start + new_layout.size(),
    );
    assert(after.contents(Block { addr, len: new_layout.size() }) =~= state.contents(
        Block { addr, len: old_layout.size() },
    ) + Seq::new((new_layout.size() - old_layout.size()) as nat, |k: int| 0u8));
}

/// Reading a block gives back what was written to it, and writing to one block changes no
/// other.
pub proof fn lemma_write_read(state: BumpState, block: Block, contents: Seq<u8>, other: Block)
    requires
        state.wf(),
        state.holds(block),
        state.holds(other),
        block.disjoint(other),
        contents.len() == block.len,
    ensures
        state.written(block, contents).wf(),
        state.written(block, contents).capacity() == state.capacity(),
        state.written(block, contents).contents(block) == contents,
        state.written(block, contents).contents(other) == state.contents(other),
{
    let after = state.written(block, contents);
    assert(after.contents(block) =~= contents);
    assert(after.contents(other) =~= state.contents(other));
}

} // verus!
