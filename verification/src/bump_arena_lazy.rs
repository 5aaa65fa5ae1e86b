//! A bump allocator over reserved address space that is committed page by page.

use vstd::prelude::*;

use crate::align;
use crate::block;
use crate::block::Block;
use crate::bump;
use crate::bump_arena::BumpState;
use crate::layout::Layout;
use crate::reservation;
use crate::reservation::{Reservation, ReservedState};
use crate::{AllocError, UninitAllocator};

verus! {

/// The state of a [`BumpArenaLazy`].
#[verifier::ext_equal]
pub struct LazyState {
    /// The reserved memory.
    pub memory: ReservedState,
    /// The bump pointer, counted from the start of the reservation.
    pub used: int,
    /// The live blocks, oldest first.
    pub blocks: Seq<Block>,
}

impl LazyState {
    /// An arena over a fresh reservation, with nothing handed out.
    pub open spec fn fresh(base: int, capacity: int, page: int) -> LazyState {
        LazyState {
            memory: ReservedState::fresh(base, capacity, page),
            used: 0,
            blocks: Seq::empty(),
        }
    }

    /// The address of the first reserved byte.
    pub open spec fn base(self) -> int {
        self.memory.base
    }

    /// The number of reserved bytes.
    pub open spec fn capacity(self) -> int {
        self.memory.size
    }

    /// Whether a block of `layout` can still be placed in the reservation.
    pub open spec fn fits(self, layout: Layout) -> bool {
        bump::fits(self.base(), self.used, self.capacity(), layout)
    }

    /// The block that the next request for `layout` gets, if it fits.
    pub open spec fn next_block(self, layout: Layout) -> Block {
        Block {
            addr: bump::next_addr(self.base(), self.used, layout) as usize,
            len: layout.size(),
        }
    }

    /// How far, from the start of the reservation, a request for `layout` needs committed
    /// memory.
    pub open spec fn needs(self, layout: Layout) -> int {
        if layout.size() > 0 && self.fits(layout) {
            self.next_block(layout).end() - self.base()
        } else {
            0
        }
    }

    /// The state after a request for `layout`, and its answer, when `answer` is what the
    /// system said to committing the memory that the block misses.
    pub open spec fn serve(self, layout: Layout, answer: Result<(), i32>) -> (
        LazyState,
        Option<Block>,
    ) {
        if layout.size() == 0 {
            (self, Some(Block { addr: layout.align(), len: 0 }))
        } else if self.fits(layout) {
            let block = self.next_block(layout);
            let (memory, usable) = self.memory.settled(block.end() - self.base(), answer);
            if usable {
                (
                    LazyState {
                        memory,
                        used: block.end() - self.base(),
                        blocks: self.blocks.push(block),
                    },
                    Some(block),
                )
            } else {
                (LazyState { memory, ..self }, None)
            }
        } else {
            (self, None)
        }
    }

    /// The state after `reset`.
    pub open spec fn reset(self) -> LazyState {
        LazyState { used: 0, blocks: Seq::empty(), ..self }
    }

    /// Whether the block of `old_size` bytes at `addr` can be enlarged within the reservation.
    pub open spec fn can_grow(self, addr: int, old_size: int, new_layout: Layout) -> bool {
        bump::can_grow(self.base(), self.used, self.capacity(), addr, old_size, new_layout)
    }

    /// Whether the block of `old_size` bytes at `addr` can be cut in place.
    pub open spec fn can_shrink(self, addr: int, old_size: int, new_layout: Layout) -> bool {
        bump::can_shrink(self.base(), self.used, addr, old_size, new_layout)
    }

    /// How far a request to enlarge the block at `addr` needs committed memory.
    pub open spec fn grow_needs(self, addr: int, old_size: int, new_layout: Layout) -> int {
        if self.can_grow(addr, old_size, new_layout) {
            addr + new_layout.size() - self.base()
        } else {
            0
        }
    }

    /// The state after `block` has replaced the last block, and the block if it has, when
    /// `answer` is what the system said to committing the memory that it misses.
    pub open spec fn settled(self, block: Block, answer: Result<(), i32>) -> (
        LazyState,
        Option<Block>,
    ) {
        let (memory, usable) = self.memory.settled(block.end() - self.base(), answer);
        if usable {
            (LazyState { memory, ..self }.resized(block.addr, block.len), Some(block))
        } else {
            (LazyState { memory, ..self }, None)
        }
    }

    /// The state after a request to enlarge the block at `addr`, and its answer, when `answer`
    /// is what the system said to committing the memory that is missing.
    pub open spec fn grow(
        self,
        addr: usize,
        old_size: int,
        new_layout: Layout,
        answer: Result<(), i32>,
    ) -> (LazyState, Option<Block>) {
        if self.can_grow(addr as int, old_size, new_layout) {
            self.settled(Block { addr, len: new_layout.size() }, answer)
        } else {
            (self, None)
        }
    }

    /// The state after the last block, at `addr`, has been given `new_size` bytes.
    pub open spec fn resized(self, addr: usize, new_size: usize) -> LazyState {
        LazyState {
            used: addr - self.base() + new_size,
            blocks: block::ending_by(self.blocks, addr as int).push(Block { addr, len: new_size }),
            ..self
        }
    }

    /// What holds of every state that an arena reaches.
    pub open spec fn wf(self) -> bool {
        &&& self.memory.wf()
        &&& 0 <= self.used <= self.memory.committed
        &&& block::packed(self.blocks, self.base(), self.base() + self.used)
    }
}

/// A fixed-capacity bump allocator over lazily committed address space.
///
/// The arena hands out [`Block`]s of a reservation one behind the other. The reservation is
/// made once and never changes, so blocks keep their addresses. Its memory is committed in
/// whole pages as the bump pointer advances, and stays committed. `C` is the system's commit
/// call: it is given the address and the length of a range that is reserved and not yet
/// committed, and answers with the system's error code if it refuses.
pub struct BumpArenaLazy<C> {
    memory: Reservation<C>,
    offset: usize,
    blocks: Ghost<Seq<Block>>,
}

impl<C> View for BumpArenaLazy<C> {
    type V = LazyState;

    closed spec fn view(&self) -> LazyState {
        LazyState { memory: self.memory@, used: self.offset as int, blocks: self.blocks@ }
    }
}

impl<C: Fn(usize, usize) -> Result<(), i32>> BumpArenaLazy<C> {
    /// The system's commit call.
    pub closed spec fn commit_pages(&self) -> C {
        self.memory.commit_pages()
    }

    /// Whether the arena is in a state it can reach.
    pub open spec fn wf(&self) -> bool {
        &&& self@.wf()
        &&& reservation::commits_behind(self.commit_pages(), self@.memory)
    }

    /// Whether `answer` can be what the system says when the first `end` bytes are needed.
    pub open spec fn may_answer(&self, end: int, answer: Result<(), i32>) -> bool {
        reservation::may_answer(self.commit_pages(), self@.memory, end, answer)
    }

    /// Whether a request for `layout` may turn `pre` into `post` and be answered by `r`: the
    /// memory that the block misses is asked of the system, and its answer decides.
    pub open spec fn served(pre: Self, layout: Layout, post: Self, r: Option<Block>) -> bool {
        &&& post.commit_pages() == pre.commit_pages()
        &&& exists|answer: Result<(), i32>| #[trigger]
            pre.may_answer(pre@.needs(layout), answer) && (post@, r) == pre@.serve(
                layout,
                answer,
            )
    }

    /// Whether a request to enlarge the block at `addr` may turn `pre` into `post` and be
    /// answered by `r`.
    pub open spec fn grown(
        pre: Self,
        addr: usize,
        old_size: int,
        new_layout: Layout,
        post: Self,
        r: Option<Block>,
    ) -> bool {
        &&& post.commit_pages() == pre.commit_pages()
        &&& exists|answer: Result<(), i32>| #[trigger]
            pre.may_answer(pre@.grow_needs(addr as int, old_size, new_layout), answer) && (post@, r)
                == pre@.grow(addr, old_size, new_layout, answer)
    }

    /// Whether a request for `layout` succeeds whatever the system can answer.
    pub open spec fn can_serve(&self, layout: Layout) -> bool {
        forall|answer: Result<(), i32>| #[trigger]
            self.may_answer(self@.needs(layout), answer) ==> self@.serve(
                layout,
                answer,
            ).1 is Some
    }

    /// Reserves `capacity` bytes and creates an arena over them, where the reservation cannot
    /// fail.
    pub fn new<R: FnOnce(usize) -> Result<usize, i32>>(
        capacity: usize,
        page_size: usize,
        reserve: R,
        commit_pages: C,
    ) -> (arena: Self)
        requires
            page_size > 0,
            capacity == 0 || reservation::reserves(reserve, commit_pages, capacity, page_size),
            capacity == 0 || reservation::always_reserves(reserve, capacity),
        ensures
            arena.wf(),
            arena.commit_pages() == commit_pages,
            if capacity == 0 {
                arena@ == LazyState::fresh(1, 0, page_size as int)
            } else {
                exists|base: usize| #[trigger]
                    call_ensures(reserve, (capacity,), Ok::<usize, i32>(base)) && arena@
                        == LazyState::fresh(base as int, capacity as int, page_size as int)
            },
    {
        let r = Self::try_new(capacity, page_size, reserve, commit_pages);
        r.expect("BumpArenaLazy::new failed to reserve memory")
    }

    /// Reserves `capacity` bytes and creates an arena over them.
    ///
    /// Fails with the system's error code where `reserve` does; for no bytes it is not asked.
    pub fn try_new<R: FnOnce(usize) -> Result<usize, i32>>(
        capacity: usize,
        page_size: usize,
        reserve: R,
        commit_pages: C,
    ) -> (r: Result<Self, i32>)
        requires
            page_size > 0,
            capacity == 0 || reservation::reserves(reserve, commit_pages, capacity, page_size),
        ensures
            r matches Ok(arena) ==> arena.wf() && arena.commit_pages() == commit_pages,
            if capacity == 0 {
                r matches Ok(arena) && arena@ == LazyState::fresh(1, 0, page_size as int)
            } else {
                exists|answer: Result<usize, i32>| #[trigger]
                    call_ensures(reserve, (capacity,), answer) && (match answer {
                        Ok(base) => r matches Ok(arena) && arena@ == LazyState::fresh(
                            base as int,
                            capacity as int,
                            page_size as int,
                        ),
                        Err(code) => r matches Err(e) && e == code,
                    })
            },
    {
        match Reservation::try_new(capacity, 1, page_size, reserve, commit_pages) {
            Ok(memory) => Ok(BumpArenaLazy { memory, offset: 0, blocks: Ghost(Seq::empty()) }),
            Err(code) => Err(code),
        }
    }

    /// Hands out a block that satisfies `layout`, or `None` where the rest of the reservation
    /// does not hold one, or the system refuses to commit the memory that it needs.
    ///
    /// A request of size zero gets an empty block and moves nothing.
    pub fn try_alloc_uninit(&mut self, layout: Layout) -> (r: Option<Block>)
        requires
            old(self).wf(),
        ensures
            final(self).wf(),
            Self::served(*old(self), layout, *final(self), r),
            r matches Some(block) ==> block.satisfies(layout),
    {
        let answer = self.memory.ask(self.needs(layout));
        assert(self.may_answer(self@.needs(layout), answer));
        self.settle(layout, answer)
    }

    /// The range that has to be committed before a request for `layout` can be served; `None`
    /// where none has to, or where the request cannot be served.
    pub fn missing(&self, layout: Layout) -> (r: Option<Block>)
        requires
            self.wf(),
        ensures
            r == self@.memory.missing(self@.needs(layout)),
    {
        self.memory.missing(self.needs(layout))
    }

    /// Serves a request for `layout`, when `answer` is what the system said to committing the
    /// range that was missing.
    pub fn settle(&mut self, layout: Layout, answer: Result<(), i32>) -> (r: Option<Block>)
        requires
            old(self).wf(),
        ensures
            final(self).wf(),
            final(self).commit_pages() == old(self).commit_pages(),
            (final(self)@, r) == old(self)@.serve(layout, answer),
            r matches Some(block) ==> block.satisfies(layout),
    {
        if layout.size() == 0 {
            let align: usize = layout.align();
            proof {
                align::lemma_pow2_positive(align);
                vstd::arithmetic::div_mod::lemma_mod_self_0(align as int);
            }
            return Some(Block { addr: align, len: 0 });
        }
        match bump::place(self.memory.base(), self.offset, self.memory.size(), layout) {
            Some(start) => {
                let block = Block { addr: self.memory.base() + start, len: layout.size() };
                proof {
                    use_type_invariant(&layout);
                    align::lemma_pow2_positive(layout.align());
                    lemma_next_block(self@, layout);
                }
                self.alloc_uninit_bump(block, answer)
            },
            None => None,
        }
    }

    /// How far, from the start of the reservation, a request for `layout` needs committed
    /// memory.
    fn needs(&self, layout: Layout) -> (end: usize)
        requires
            self.wf(),
        ensures
            end == self@.needs(layout),
            end <= self@.capacity(),
    {
        if layout.size() == 0 {
            return 0;
        }
        match bump::place(self.memory.base(), self.offset, self.memory.size(), layout) {
            Some(start) => start + layout.size(),
            None => 0,
        }
    }

    /// Hands out a block that satisfies `layout`; [`BumpArenaLazy::try_alloc_uninit`] under
    /// another name.
    pub fn alloc_uninit_slice(&mut self, layout: Layout) -> (r: Option<Block>)
        requires
            old(self).wf(),
        ensures
            final(self).wf(),
            Self::served(*old(self), layout, *final(self), r),
            r matches Some(block) ==> block.satisfies(layout),
    {
        self.try_alloc_uninit(layout)
    }

    /// Hands out a block that satisfies `layout`, where one fits and the system commits the
    /// memory that it needs.
    pub fn alloc_uninit(&mut self, layout: Layout) -> (block: Block)
        requires
            old(self).wf(),
            old(self).can_serve(layout),
        ensures
            final(self).wf(),
            Self::served(*old(self), layout, *final(self), Some(block)),
            block.satisfies(layout),
    {
        self.try_alloc_uninit(layout).expect("BumpArenaLazy allocation failed")
    }

    /// Makes `block` the last block, when `answer` is what the system said to committing the
    /// memory that it misses.
    fn alloc_uninit_bump(&mut self, block: Block, answer: Result<(), i32>) -> (r: Option<Block>)
        requires
            old(self).wf(),
            old(self)@.base() <= block.addr,
            block.end() <= old(self)@.base() + old(self)@.capacity(),
        ensures
            final(self).wf(),
            final(self).commit_pages() == old(self).commit_pages(),
            (final(self)@, r) == old(self)@.settled(block, answer),
    {
        let end: usize = block.addr - self.memory.base() + block.len;
        if !self.memory.settle(end, answer) {
            return None;
        }
        self.set_last(block, end);
        Some(block)
    }

    /// Makes `block` the last block, ending at offset `end` in committed memory.
    fn set_last(&mut self, block: Block, end: usize)
        requires
            old(self).wf(),
            old(self)@.base() <= block.addr,
            end == block.end() - old(self)@.base(),
            end <= old(self)@.memory.committed,
        ensures
            final(self).wf(),
            final(self).commit_pages() == old(self).commit_pages(),
            final(self)@ == old(self)@.resized(block.addr, block.len),
    {
        self.offset = end;
        proof {
            let pre = old(self)@;
            let addr = block.addr as int;
            block::lemma_ending_by(pre.blocks, pre.base(), pre.base() + pre.used, addr);
            let kept = block::ending_by(pre.blocks, addr);
            block::lemma_packed_push(kept, pre.base(), addr, block);
            self.blocks@ = kept.push(block);
        }
    }

    /// The code of the last refused commit, if any was refused.
    pub fn last_os_error_code(&self) -> (r: Option<i32>)
        ensures
            r == self@.memory.last_os_error(),
    {
        self.memory.last_os_error_code()
    }

    /// Moves the bump pointer back to the beginning; the blocks handed out so far are dead.
    ///
    /// Committed memory stays committed. No destructors run.
    pub fn reset(&mut self)
        requires
            old(self).wf(),
        ensures
            final(self).wf(),
            final(self)@ == old(self)@.reset(),
            final(self).commit_pages() == old(self).commit_pages(),
    {
        self.offset = 0;
        proof {
            self.blocks@ = Seq::empty();
        }
    }

    /// The size of the reservation, in bytes.
    pub fn capacity(&self) -> (r: usize)
        ensures
            r == self@.capacity(),
    {
        self.memory.size()
    }

    /// The number of bytes up to the bump pointer.
    pub fn used(&self) -> (r: usize)
        ensures
            r == self@.used,
    {
        self.offset
    }

    /// The number of committed bytes.
    pub fn committed(&self) -> (r: usize)
        ensures
            r == self@.memory.committed,
    {
        self.memory.committed()
    }

    /// The address of the first reserved byte.
    pub fn base(&self) -> (r: usize)
        ensures
            r == self@.base(),
    {
        self.memory.base()
    }

    /// The range to release when the arena is no longer needed; `None` if nothing is reserved.
    pub fn reservation(&self) -> (r: Option<Block>)
        ensures
            r == self@.memory.range(),
    {
        self.memory.range()
    }

    /// Allocates a block for `layout`.
    pub fn allocate(&mut self, layout: Layout) -> (r: Result<Block, AllocError>)
        requires
            old(self).wf(),
        ensures
            final(self).wf(),
            Self::served(*old(self), layout, *final(self), crate::granted(r)),
            r matches Ok(block) ==> block.satisfies(layout),
    {
        match self.try_alloc_uninit(layout) {
            Some(block) => Ok(block),
            None => Err(AllocError),
        }
    }

    /// Does nothing: memory comes back only through [`BumpArenaLazy::reset`] or the arena's end.
    pub fn deallocate(&mut self, _addr: usize, _layout: Layout)
        ensures
            *final(self) == *old(self),
    {
    }

    /// Enlarges the block at `addr` in place, if it is the last one, the new size is larger,
    /// `addr` has the new alignment, the reservation suffices, and the system commits the
    /// memory that is missing.
    pub fn grow(&mut self, addr: usize, old_layout: Layout, new_layout: Layout) -> (r: Result<
        Block,
        AllocError,
    >)
        requires
            old(self).wf(),
        ensures
            final(self).wf(),
            Self::grown(
                *old(self),
                addr,
                old_layout.size() as int,
                new_layout,
                *final(self),
                crate::granted(r),
            ),
    {
        let grown = bump::grown_offset(
            self.memory.base(),
            self.offset,
            self.memory.size(),
            addr,
            old_layout.size(),
            new_layout,
        );
        let ghost needs = self@.grow_needs(addr as int, old_layout.size() as int, new_layout);
        let end: usize = match grown {
            Some(end) => end,
            None => {
                assert(self.may_answer(needs, Ok(())));
                return Err(AllocError);
            },
        };
        let answer = self.memory.ask(end);
        assert(self.may_answer(needs, answer));
        match self.alloc_uninit_bump(Block { addr, len: new_layout.size() }, answer) {
            Some(block) => Ok(block),
            None => Err(AllocError),
        }
    }

    /// [`BumpArenaLazy::grow`], which also tells the bytes that the block gains.
    ///
    /// The owner of the memory has to write zeros into the second block.
    pub fn grow_zeroed(&mut self, addr: usize, old_layout: Layout, new_layout: Layout) -> (r:
        Result<(Block, Block), AllocError>)
        requires
            old(self).wf(),
        ensures
            final(self).wf(),
            Self::grown(
                *old(self),
                addr,
                old_layout.size() as int,
                new_layout,
                *final(self),
                match r {
                    Ok((block, _)) => Some(block),
                    Err(_) => None,
                },
            ),
            r matches Ok((block, tail)) ==> tail.addr == addr + old_layout.size() && tail.end()
                == block.end(),
    {
        match self.grow(addr, old_layout, new_layout) {
            Ok(block) => {
                let old_size: usize = old_layout.size();
                let tail = Block { addr: addr + old_size, len: new_layout.size() - old_size };
                Ok((block, tail))
            },
            Err(e) => Err(e),
        }
    }

    /// Cuts the block at `addr` in place, if it is the last one, the new size is not larger,
    /// and `addr` has the new alignment.
    pub fn shrink(&mut self, addr: usize, old_layout: Layout, new_layout: Layout) -> (r: Result<
        Block,
        AllocError,
    >)
        requires
            old(self).wf(),
        ensures
            final(self).wf(),
            final(self).commit_pages() == old(self).commit_pages(),
            match r {
                Ok(block) => {
                    &&& old(self)@.can_shrink(addr as int, old_layout.size() as int, new_layout)
                    &&& block == (Block { addr, len: new_layout.size() })
                    &&& final(self)@ == old(self)@.resized(addr, new_layout.size())
                },
                Err(_) => {
                    &&& !old(self)@.can_shrink(addr as int, old_layout.size() as int, new_layout)
                    &&& final(self)@ == old(self)@
                },
            },
    {
        let shrunk = bump::shrunk_offset(
            self.memory.base(),
            self.offset,
            addr,
            old_layout.size(),
            new_layout,
        );
        match shrunk {
            Some(end) => {
                let block = Block { addr, len: new_layout.size() };
                self.set_last(block, end);
                Ok(block)
            },
            None => Err(AllocError),
        }
    }
}

impl<C: Fn(usize, usize) -> Result<(), i32>> UninitAllocator for BumpArenaLazy<C> {
    open spec fn valid(&self) -> bool {
        self.wf()
    }

    open spec fn live(&self) -> Seq<Block> {
        self@.blocks
    }

    open spec fn region(&self) -> (int, int) {
        (self@.base(), self@.capacity())
    }

    open spec fn alloc_step(pre: Self, layout: Layout, post: Self, r: Option<Block>) -> bool {
        Self::served(pre, layout, post, r)
    }

    fn try_alloc_uninit(&mut self, layout: Layout) -> (r: Option<Block>) {
        let r = self.alloc_uninit_slice(layout);
        proof {
            use_type_invariant(&layout);
            let pre = old(self)@;
            let answer = choose|answer: Result<(), i32>| #[trigger]
                old(self).may_answer(pre.needs(layout), answer) && (self@, r) == pre.serve(
                    layout,
                    answer,
                );
            lemma_serve(pre, layout, answer);
            if let Some(block) = r {
                if block.len > 0 {
                    block::lemma_packed_push(
                        pre.blocks,
                        pre.base(),
                        pre.base() + pre.used,
                        block,
                    );
                }
            }
        }
        r
    }
}

/// A block behind the bump pointer leaves all earlier blocks live.
proof fn lemma_next_block(state: LazyState, layout: Layout)
    requires
        state.wf(),
        state.fits(layout),
        layout.align() > 0,
    ensures
        state.next_block(layout).addr == bump::next_addr(state.base(), state.used, layout),
        state.base() + state.used <= state.next_block(layout).addr,
        block::ending_by(state.blocks, state.next_block(layout).addr as int) == state.blocks,
        state.next_block(layout).addr as int % layout.align() as int == 0,
{
    align::lemma_round_up(state.base() + state.used, layout.align() as int);
    let n = state.blocks.len() as int;
    if n > 0 {
        assert(state.blocks[n - 1].end() <= state.base() + state.used);
    }
}

/// Serving a request never moves the reservation and never decommits, keeps every live block,
/// and moves the bump pointer only forward. A block that is handed out is committed. A refused
/// request, and one of size zero, moves nothing.
pub proof fn lemma_serve(state: LazyState, layout: Layout, answer: Result<(), i32>)
    requires
        state.wf(),
        layout.valid(),
    ensures
        ({
            let (after, r) = state.serve(layout, answer);
            &&& after.wf()
            &&& (after.base(), after.capacity()) == (state.base(), state.capacity())
            &&& state.memory.committed <= after.memory.committed
            &&& state.used <= after.used
            &&& state.blocks.is_prefix_of(after.blocks)
            &&& r matches Some(block) ==> block.satisfies(layout)
            &&& (match r {
                Some(block) if layout.size() > 0 => {
                    &&& after.blocks == state.blocks.push(block)
                    &&& state.base() + state.used <= block.addr
                    &&& block.end() == after.base() + after.used
                    &&& block.end() <= after.base() + after.memory.committed
                },
                _ => {
                    &&& (after.used, after.blocks) == (state.used, state.blocks)
                    &&& after.memory.committed == state.memory.committed
                },
            })
        }),
{
    align::lemma_pow2_positive(layout.align());
    vstd::arithmetic::div_mod::lemma_mod_self_0(layout.align() as int);
    if layout.size() > 0 && state.fits(layout) {
        let block = state.next_block(layout);
        lemma_next_block(state, layout);
        reservation::lemma_settled(state.memory, block.end() - state.base(), answer);
        block::lemma_packed_push(
            state.blocks,
            state.base(),
            state.base() + state.used,
            block,
        );
    }
}

/// An arena without capacity refuses every request for bytes, whatever the system answers.
pub proof fn lemma_zero_capacity(state: LazyState, layout: Layout, answer: Result<(), i32>)
    requires
        state.wf(),
        layout.valid(),
        state.capacity() == 0,
        layout.size() > 0,
    ensures
        state.serve(layout, answer) == (state, None::<Block>),
{
    align::lemma_pow2_positive(layout.align());
    align::lemma_round_up(state.base() + state.used, layout.align() as int);
}

/// No two live blocks share a byte, and all of them lie in committed memory.
pub proof fn lemma_live_blocks_disjoint(state: LazyState, i: int, j: int)
    requires
        state.wf(),
        0 <= i < state.blocks.len(),
        0 <= j < state.blocks.len(),
        i != j,
    ensures
        state.blocks[i].disjoint(state.blocks[j]),
        state.base() <= state.blocks[i].addr,
        state.blocks[i].end() <= state.base() + state.memory.committed,
        state.used <= state.capacity(),
{
    block::lemma_packed_disjoint(state.blocks, state.base(), state.base() + state.used);
}

/// While the system grants every commit, an arena answers requests as a
/// [`BumpArena`](crate::BumpArena) of the same address, capacity and blocks does.
pub proof fn lemma_serve_as_bump_arena(state: LazyState, bump: BumpState, layout: Layout)
    requires
        state.wf(),
        layout.valid(),
        bump.base == state.base(),
        bump.capacity() == state.capacity(),
        bump.used == state.used,
        bump.blocks == state.blocks,
    ensures
        ({
            let (after, r) = state.serve(layout, Ok(()));
            let (bump_after, bump_r) = bump.serve(layout);
            &&& r == bump_r
            &&& after.used == bump_after.used
            &&& after.blocks == bump_after.blocks
        }),
{
    align::lemma_pow2_positive(layout.align());
    if layout.size() > 0 && state.fits(layout) {
        let end = state.next_block(layout).end() - state.base();
        lemma_next_block(state, layout);
        reservation::lemma_granted(state.memory, end);
    }
}

/// After a reset an arena answers from its start again, and asks the system for nothing as far
/// as memory was committed before.
pub proof fn lemma_reset(
    state: LazyState,
    fresh: LazyState,
    layout: Layout,
    answer: Result<(), i32>,
)
    requires
        state.wf(),
        layout.valid(),
        fresh.used == 0,
        fresh.base() == state.base(),
        fresh.capacity() == state.capacity(),
        state.reset().needs(layout) <= state.memory.committed,
    ensures
        state.reset().wf(),
        state.reset().memory == state.memory,
        state.memory.missing(state.reset().needs(layout)) is None,
        state.reset().serve(layout, answer).1 == fresh.serve(layout, Ok(())).1,
{
}

/// A block cannot be resized while a later one still has bytes.
pub proof fn lemma_resize_only_last(state: LazyState, i: int, j: int, new_layout: Layout)
    requires
        state.wf(),
        0 <= i < j < state.blocks.len(),
        state.blocks[j].len > 0,
    ensures
        !state.can_grow(state.blocks[i].addr as int, state.blocks[i].len as int, new_layout),
        !state.can_shrink(state.blocks[i].addr as int, state.blocks[i].len as int, new_layout),
{
    assert(state.blocks[i].end() <= state.blocks[j].addr);
    assert(state.blocks[j].end() <= state.base() + state.used);
}

/// Growing a block keeps its address and all other blocks, whatever the system answers; where
/// it succeeds, shrinking the block to its old size undoes it but for the committed memory.
pub proof fn lemma_grow_shrink(
    state: LazyState,
    old_layout: Layout,
    new_layout: Layout,
    answer: Result<(), i32>,
)
    requires
        state.wf(),
        state.blocks.len() > 0,
        state.blocks.last().len > 0,
        state.blocks.last().satisfies(old_layout),
    ensures
        ({
            let last = state.blocks.last();
            let (grown, r) = state.grow(last.addr, old_layout.size() as int, new_layout, answer);
            match r {
                Some(block) => {
                    &&& block == (Block { addr: last.addr, len: new_layout.size() })
                    &&& grown.blocks == state.blocks.drop_last().push(block)
                    &&& grown.can_shrink(
                        last.addr as int,
                        new_layout.size() as int,
                        old_layout,
                    )
                    &&& grown.resized(last.addr, old_layout.size()) == (LazyState {
                        memory: grown.memory,
                        ..state
                    })
                },
                None => (grown.used, grown.blocks) == (state.used, state.blocks),
            }
        }),
{
    let last = state.blocks.last();
    let n = state.blocks.len() as int;
    let (grown, r) = state.grow(last.addr, old_layout.size() as int, new_layout, answer);
    if r is Some {
        let block = Block { addr: last.addr, len: new_layout.size() };
        reservation::lemma_settled(state.memory, block.end() - state.base(), answer);
        assert(state.base() <= state.blocks[n - 1].addr);
        block::lemma_ending_by_last(state.blocks, state.base(), state.base() + state.used);
        block::lemma_ending_by(
            state.blocks,
            state.base(),
            state.base() + state.used,
            last.addr as int,
        );
        block::lemma_packed_push(
            state.blocks.drop_last(),
            state.base(),
            last.addr as int,
            block,
        );
        block::lemma_ending_by_last(grown.blocks, grown.base(), grown.base() + grown.used);
        assert(grown.resized(last.addr, old_layout.size()).blocks =~= state.blocks);
    }
}

} // verus!
