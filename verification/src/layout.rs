//! Size and alignment of a requested block.

use vstd::arithmetic::power2::is_pow2;
use vstd::layout::{align_of, size_of, valid_layout};
use vstd::prelude::*;

use crate::align::is_power_of_two;

verus! {

/// The size and alignment of a block of memory.
///
/// The alignment is a power of two, and the size, rounded up to a multiple of the alignment,
/// is at most `isize::MAX`.
#[derive(Clone, Copy, Debug, PartialEq, Eq, Structural)]
pub struct Layout {
    size: usize,
    align: usize,
}

/// The size and alignment asked for make no valid [`Layout`].
#[derive(Clone, Copy, Debug, PartialEq, Eq, Structural)]
pub struct LayoutError;

impl Layout {
    /// Whether the alignment is a power of two that leaves room for the size.
    #[verifier::type_invariant]
    pub open spec fn valid(self) -> bool {
        valid_layout(self.size(), self.align())
    }

    /// The size in bytes.
    pub closed spec fn spec_size(&self) -> usize {
        self.size
    }

    /// The alignment in bytes.
    pub closed spec fn spec_align(&self) -> usize {
        self.align
    }

    /// The layout of a `T`.
    pub closed spec fn spec_new<T>() -> Layout {
        Layout { size: size_of::<T>() as usize, align: align_of::<T>() as usize }
    }

    /// A layout of `size` bytes at a multiple of `align`.
    ///
    /// Fails where `align` is not a power of two, or `size` rounded up to a multiple of
    /// `align` exceeds `isize::MAX`.
    pub fn from_size_align(size: usize, align: usize) -> (r: Result<Layout, LayoutError>)
        ensures
            match r {
                Ok(layout) => valid_layout(size, align) && layout.size() == size && layout.align()
                    == align,
                Err(_) => !valid_layout(size, align),
            },
    {
        if !is_power_of_two(align) {
            return Err(LayoutError);
        }
        let max: usize = isize::MAX as usize;
        proof {
            reveal(is_pow2);
            vstd::arithmetic::div_mod::lemma_mod_decreases(max as nat, align as nat);
        }
        if size > max - max % align {
            return Err(LayoutError);
        }
        Ok(Layout { size, align })
    }

    /// The layout of a value of type `T`.
    pub fn new<T>() -> (r: Layout)
        ensures
            r == Layout::spec_new::<T>(),
            r.size() == size_of::<T>(),
            r.align() == align_of::<T>(),
    {
        vstd::layout::layout_for_type_is_valid::<T>();
        Layout { size: core::mem::size_of::<T>(), align: core::mem::align_of::<T>() }
    }

    /// The size in bytes.
    #[verifier::when_used_as_spec(spec_size)]
    pub fn size(&self) -> (r: usize)
        ensures
            r == self.size(),
    {
        self.size
    }

    /// The alignment in bytes.
    #[verifier::when_used_as_spec(spec_align)]
    pub fn align(&self) -> (r: usize)
        ensures
            r == self.align(),
            self.valid(),
            is_pow2(r as int),
    {
        proof {
            use_type_invariant(self);
        }
        self.align
    }

    /// The layout of a type has the size and alignment of the type.
    pub proof fn lemma_new<T>()
        ensures
            Layout::spec_new::<T>().size() == size_of::<T>() as usize,
            Layout::spec_new::<T>().align() == align_of::<T>() as usize,
    {
    }
}

} // verus!
