//! Fixed-capacity arena allocators for single-threaded programs.
//!
//! The capacity is chosen up front and never grows, blocks and values stay at their addresses,
//! and a full arena refuses. Bump arenas ([`BumpArena`], [`BumpArenaLazy`]) hand out blocks of
//! bytes; typed arenas ([`TypedArena`], [`TypedArenaRef`], [`TypedArenaLazy`]) own values of one
//! type and destroy them in reverse allocation order. They keep the values in cells of their
//! own; a slot says which memory a value takes up, and nothing is written there.
//!
//! The lazy arenas reserve address space and commit it page by page. The system calls for that
//! are handed in by the program, and [`sys`] says what their answers mean.
//!
//! What the arenas do is stated in [`laws`], over addresses, lengths, bytes and values, and of each
//! call in [`calls`].

use core::marker::PhantomData;
use std::rc::Rc;
use vstd::prelude::*;

pub mod align;
pub mod block;
pub mod bump;
pub mod bump_arena;
pub mod bump_arena_lazy;
pub mod calls;
pub mod laws;
pub mod layout;
pub mod reservation;
pub mod sys;
pub mod typed_arena;
pub mod typed_arena_lazy;
pub mod typed_arena_ref;
pub mod typed_store;
mod value_list;

pub use block::Block;
pub use bump_arena::BumpArena;
pub use bump_arena_lazy::BumpArenaLazy;
pub use layout::{Layout, LayoutError};
pub use typed_arena::{DrainIter, TypedArena};
pub use typed_arena_lazy::TypedArenaLazy;
pub use typed_arena_ref::{IntoIter, Iter, IterMut, Snapshot, TypedArenaRef};

verus! {

/// An allocator that hands out blocks of uninitialised memory.
///
/// Implementors can serve as the backing store of a typed arena, which adds the values and
/// their destructors. Every implementor keeps these promises:
///
/// - the blocks handed out have the size and alignment asked for;
/// - no two live blocks overlap, all of them lie in one region, and blocks keep their addresses;
/// - a refused request changes nothing in the blocks that are live.
pub trait UninitAllocator: Sized {
    /// Whether the allocator is in a state it can reach.
    spec fn valid(&self) -> bool;

    /// The blocks handed out and not taken back, oldest first. Requests of size zero get none of
    /// them; a block that was cut to nothing is still one.
    spec fn live(&self) -> Seq<Block>;

    /// The memory that the allocator hands out of, by its address and its size; it never changes.
    spec fn region(&self) -> (int, int);

    /// Whether a request for `layout` may turn `pre` into `post` and be answered by `r`.
    spec fn alloc_step(pre: Self, layout: Layout, post: Self, r: Option<Block>) -> bool;

    /// Hands out a block that satisfies `layout`, or `None` if the allocator cannot.
    fn try_alloc_uninit(&mut self, layout: Layout) -> (r: Option<Block>)
        requires
            old(self).valid(),
        ensures
            final(self).valid(),
            final(self).region() == old(self).region(),
            Self::alloc_step(*old(self), layout, *final(self), r),
            r matches Some(block) ==> block.satisfies(layout) && block.lies_in(
                old(self).region(),
            ),
            match r {
                Some(block) if block.len > 0 => {
                    &&& final(self).live() == old(self).live().push(block)
                    &&& forall|i: int|
                        0 <= i < old(self).live().len() ==> block.disjoint(
                            #[trigger] old(self).live()[i],
                        )
                },
                _ => final(self).live() == old(self).live(),
            },
    ;
}

/// A field that keeps its owner on one thread.
pub struct SingleThreaded {
    marker: PhantomData<Rc<()>>,
}

impl SingleThreaded {
    /// The field.
    pub(crate) fn new() -> SingleThreaded {
        SingleThreaded { marker: PhantomData }
    }
}

/// A block could not be allocated, or not be resized in place.
#[derive(Clone, Copy, Debug, PartialEq, Eq, Structural)]
pub struct AllocError;

/// The block that `r` grants, if any.
pub open spec fn granted(r: Result<Block, AllocError>) -> Option<Block> {
    match r {
        Ok(block) => Some(block),
        Err(_) => None,
    }
}

} // verus!
