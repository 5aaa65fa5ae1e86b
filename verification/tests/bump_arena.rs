use linalloc::{AllocError, Block, BumpArena, Layout, UninitAllocator};

/// A growable list of `i32` that keeps its elements in a block of an arena.
struct List<'a> {
    arena: &'a mut BumpArena,
    block: Block,
    capacity: usize,
    len: usize,
}

fn array_layout(n: usize) -> Layout {
    Layout::from_size_align(n * 4, 4).unwrap()
}

impl<'a> List<'a> {
    fn with_capacity_in(capacity: usize, arena: &'a mut BumpArena) -> Self {
        let block = arena.allocate(array_layout(capacity)).unwrap();
        List { arena, block, capacity, len: 0 }
    }

    fn push(&mut self, value: i32) {
        assert!(self.len < self.capacity);
        let start = self.len * 4;
        self.arena.bytes_mut(self.block)[start..start + 4].copy_from_slice(&value.to_ne_bytes());
        self.len += 1;
    }

    fn try_reserve(&mut self, additional: usize) -> Result<(), AllocError> {
        let needed = self.len + additional;
        if needed <= self.capacity {
            return Ok(());
        }
        let capacity = needed.max(self.capacity * 2).max(4);
        let (old, new) = (array_layout(self.capacity), array_layout(capacity));
        self.block = self.arena.grow(self.block.addr, old, new)?;
        self.capacity = capacity;
        Ok(())
    }

    fn to_vec(&self) -> Vec<i32> {
        let bytes = &self.arena.bytes(self.block)[..self.len * 4];
        bytes.chunks(4).map(|c| i32::from_ne_bytes([c[0], c[1], c[2], c[3]])).collect()
    }
}

fn allocate_last_block_misaligned_to(bump: &mut BumpArena, align: usize) -> (usize, Layout) {
    let layout = Layout::from_size_align(8, 1).unwrap();
    let pad = Layout::from_size_align(1, 1).unwrap();

    for _ in 0..=align {
        let block = bump.allocate(layout).unwrap();
        if block.addr % align != 0 {
            return (block.addr, layout);
        }
        bump.allocate(pad).unwrap();
    }

    panic!("could not create a misaligned last allocation");
}

#[test]
fn bump_arena_alloc_alignment_and_length() {
    let mut bump = BumpArena::new(128);
    let base = bump.base();
    let mut prev_end = 0usize;

    for align in [1, 2, 4, 8, 16] {
        let layout = Layout::from_size_align(3, align).unwrap();
        let slice = bump.alloc_uninit_slice(layout).unwrap();
        assert_eq!(slice.addr % align, 0);
        assert_eq!(slice.len, 3);

        let start = slice.addr - base;
        let end = start + slice.len;
        assert!(end > prev_end);
        assert_eq!(bump.used(), end);
        assert!(bump.used() <= bump.capacity());
        prev_end = end;
    }
}

#[test]
fn bump_arena_alloc_no_overlap() {
    let mut bump = BumpArena::new(64);
    let a = bump.alloc_uninit_slice(Layout::from_size_align(16, 8).unwrap()).unwrap();
    let b = bump.alloc_uninit_slice(Layout::from_size_align(8, 8).unwrap()).unwrap();

    let a_end = a.addr + a.len;
    let b_end = b.addr + b.len;

    assert!(a_end <= b.addr || b_end <= a.addr);
}

#[test]
fn bump_arena_alloc_oom_does_not_advance() {
    let mut bump = BumpArena::new(16);
    let layout = Layout::from_size_align(8, 1).unwrap();
    bump.alloc_uninit_slice(layout).unwrap();
    let used_before = bump.used();

    let too_large = Layout::from_size_align(9, 1).unwrap();
    assert!(bump.alloc_uninit_slice(too_large).is_none());
    assert_eq!(bump.used(), used_before);
    assert!(bump.used() <= bump.capacity());
}

#[test]
fn bump_arena_reset_reuses_base() {
    let mut bump = BumpArena::new(32);
    let layout = Layout::from_size_align(8, 4).unwrap();
    let first = bump.alloc_uninit_slice(layout).unwrap();

    bump.reset();
    assert_eq!(bump.used(), 0);

    let second = bump.alloc_uninit_slice(layout).unwrap();
    assert_eq!(first.addr, second.addr);
}

#[test]
fn zero_capacity_rejects_nonzero_alloc_uninit_slice() {
    let mut bump = BumpArena::new(0);
    let layout = Layout::from_size_align(1, 1).unwrap();
    assert!(bump.alloc_uninit_slice(layout).is_none());
    assert_eq!(bump.used(), 0);
}

#[test]
fn bump_arena_zero_size_alloc_does_not_advance() {
    let mut bump = BumpArena::new(8);
    let layout = Layout::from_size_align(0, 8).unwrap();
    let slice = bump.alloc_uninit_slice(layout).unwrap();
    assert_eq!(slice.len, 0);
    assert_eq!(bump.used(), 0);
}

#[test]
fn bump_arena_allocator_grow_and_shrink_resize_last_allocation() {
    let mut bump = BumpArena::new(64);
    let old = Layout::from_size_align(8, 4).unwrap();
    let grown = Layout::from_size_align(16, 4).unwrap();
    let shrunk = Layout::from_size_align(4, 4).unwrap();

    let block = bump.allocate(old).unwrap();
    let start = block.addr - bump.base();
    bump.bytes_mut(block).fill(0xAB);

    let grown_block = bump.grow(block.addr, old, grown).unwrap();
    assert_eq!(grown_block.addr, block.addr);
    assert_eq!(bump.used(), start + grown.size());
    assert_eq!(bump.bytes(grown_block)[0], 0xAB);
    assert_eq!(bump.bytes(grown_block)[old.size() - 1], 0xAB);

    let shrunk_block = bump.shrink(grown_block.addr, grown, shrunk).unwrap();
    assert_eq!(shrunk_block.addr, block.addr);
    assert_eq!(bump.used(), start + shrunk.size());
}

#[test]
fn bump_arena_allocator_grow_zeroed_zeroes_new_tail() {
    let mut bump = BumpArena::new(64);
    let old = Layout::from_size_align(4, 1).unwrap();
    let grown = Layout::from_size_align(12, 1).unwrap();

    let dirty = bump.allocate(grown).unwrap();
    bump.bytes_mut(dirty).fill(0xCD);
    bump.reset();

    let block = bump.allocate(old).unwrap();
    bump.bytes_mut(block).fill(0xAB);

    let grown_block = bump.grow_zeroed(block.addr, old, grown).unwrap();
    assert_eq!(grown_block.addr, block.addr);
    for index in 0..old.size() {
        assert_eq!(bump.bytes(grown_block)[index], 0xAB);
    }
    for index in old.size()..grown.size() {
        assert_eq!(bump.bytes(grown_block)[index], 0);
    }
}

#[test]
fn bump_arena_vec_try_reserve_can_grow_inside_allocator() {
    let mut bump = BumpArena::new(64);
    let mut values = List::with_capacity_in(1, &mut bump);
    values.push(1);

    assert!(values.try_reserve(1).is_ok());
    values.push(2);

    assert_eq!(&values.to_vec(), &[1, 2]);
}

#[test]
fn bump_arena_allocator_rejects_resize_when_pointer_does_not_fit_new_alignment() {
    let mut bump = BumpArena::new(256);
    let (addr, old) = allocate_last_block_misaligned_to(&mut bump, 8);
    let used = bump.used();
    let grown = Layout::from_size_align(16, 8).unwrap();

    assert!(bump.grow(addr, old, grown).is_err());
    assert_eq!(bump.used(), used);

    let mut bump = BumpArena::new(256);
    let (addr, old) = allocate_last_block_misaligned_to(&mut bump, 8);
    let used = bump.used();
    let shrunk = Layout::from_size_align(4, 8).unwrap();

    assert!(bump.shrink(addr, old, shrunk).is_err());
    assert_eq!(bump.used(), used);
}

#[test]
fn bump_arena_new_has_the_capacity_and_nothing_used() {
    let bump = BumpArena::new(1024);
    assert_eq!(bump.capacity(), 1024);
    assert_eq!(bump.used(), 0);
}

#[test]
fn bump_arena_stores_a_u64() {
    let mut arena = BumpArena::new(128);
    let slot = arena.try_alloc_uninit(Layout::new::<u64>()).unwrap();
    assert_eq!(slot.len, 8);
    arena.bytes_mut(slot).copy_from_slice(&42u64.to_ne_bytes());
    assert_eq!(arena.bytes(slot), 42u64.to_ne_bytes());
}

#[test]
fn bump_arena_blocks_are_where_their_bytes_are() {
    let mut arena = BumpArena::new(64);
    arena.alloc_uninit(Layout::from_size_align(5, 1).unwrap());
    let block = arena.alloc_uninit(Layout::from_size_align(4, 4).unwrap());
    assert_eq!(arena.bytes(block).as_ptr() as usize, block.addr);
    assert_eq!(block.addr % 4, 0);
    let moved = arena;
    assert_eq!(moved.bytes(block).as_ptr() as usize, block.addr);
}

#[test]
fn bump_arena_blocks_do_not_share_bytes() {
    let mut arena = BumpArena::new(64);
    let layout = Layout::from_size_align(5, 1).unwrap();
    let a = arena.alloc_uninit(layout);
    let b = arena.alloc_uninit(layout);
    arena.bytes_mut(a).fill(1);
    arena.bytes_mut(b).fill(2);
    assert_eq!(arena.bytes(a), [1, 1, 1, 1, 1]);
    assert_eq!(arena.bytes(b), [2, 2, 2, 2, 2]);
}

#[test]
fn bump_arena_empty_block_has_no_bytes() {
    let mut arena = BumpArena::new(8);
    let empty = arena.alloc_uninit(Layout::from_size_align(0, 4).unwrap());
    assert_eq!(empty, Block { addr: 4, len: 0 });
    assert!(arena.bytes(empty).is_empty());
    assert!(arena.bytes_mut(empty).is_empty());
}

#[test]
fn bump_arena_fills_up_exactly() {
    let mut arena = BumpArena::new(16);
    let layout = Layout::from_size_align(8, 1).unwrap();
    let a = arena.try_alloc_uninit(layout).unwrap();
    let b = arena.try_alloc_uninit(layout).unwrap();
    assert_eq!(a.addr, arena.base());
    assert_eq!(b.addr, arena.base() + 8);
    assert_eq!(arena.used(), 16);
    assert!(arena.try_alloc_uninit(Layout::from_size_align(1, 1).unwrap()).is_none());
    assert_eq!(arena.allocate(layout), Err(AllocError));
    assert!(arena.try_alloc_uninit(Layout::from_size_align(0, 1).unwrap()).is_some());
}

#[test]
fn bump_arena_resizes_only_the_last_block() {
    let mut arena = BumpArena::new(64);
    let small = Layout::from_size_align(4, 1).unwrap();
    let large = Layout::from_size_align(8, 1).unwrap();
    let a = arena.allocate(small).unwrap();
    let b = arena.allocate(small).unwrap();
    assert_eq!(arena.grow(a.addr, small, large), Err(AllocError));
    assert_eq!(arena.grow_zeroed(a.addr, small, large), Err(AllocError));
    assert_eq!(arena.shrink(a.addr, small, small), Err(AllocError));
    assert_eq!(arena.grow(b.addr, small, large), Ok(Block { addr: b.addr, len: 8 }));
    assert_eq!(arena.used(), 12);
}

#[test]
fn bump_arena_grow_and_shrink_back_undoes() {
    let mut arena = BumpArena::new(64);
    let small = Layout::from_size_align(4, 1).unwrap();
    let large = Layout::from_size_align(40, 1).unwrap();
    let a = arena.allocate(small).unwrap();
    let used = arena.used();
    assert_eq!(arena.grow(a.addr, small, large), Ok(Block { addr: a.addr, len: 40 }));
    assert_eq!(arena.shrink(a.addr, large, small), Ok(a));
    assert_eq!(arena.used(), used);
}

#[test]
fn bump_arena_grow_needs_a_larger_size_and_room() {
    let mut arena = BumpArena::new(16);
    let old = Layout::from_size_align(8, 1).unwrap();
    let a = arena.allocate(old).unwrap();
    assert_eq!(arena.grow(a.addr, old, old), Err(AllocError));
    let nine = Layout::from_size_align(9, 1).unwrap();
    assert_eq!(arena.grow(a.addr, old, Layout::from_size_align(17, 1).unwrap()), Err(AllocError));
    assert_eq!(arena.shrink(a.addr, old, nine), Err(AllocError));
    assert_eq!(arena.grow(a.addr - 1, old, nine), Err(AllocError));
    assert_eq!(arena.used(), 8);
    assert!(arena.grow(a.addr, old, Layout::from_size_align(16, 1).unwrap()).is_ok());
}

#[test]
fn bump_arena_deallocate_does_nothing() {
    let mut arena = BumpArena::new(16);
    let layout = Layout::from_size_align(8, 1).unwrap();
    let a = arena.allocate(layout).unwrap();
    arena.bytes_mut(a).fill(7);
    arena.deallocate(a.addr, layout);
    assert_eq!(arena.used(), 8);
    assert_eq!(arena.bytes(a), [7; 8]);
}

#[test]
fn bump_arena_serves_as_uninit_allocator() {
    fn first<A: UninitAllocator>(allocator: &mut A) -> Option<Block> {
        UninitAllocator::try_alloc_uninit(allocator, Layout::from_size_align(6, 2).unwrap())
    }
    let mut arena = BumpArena::new(16);
    let block = first(&mut arena).unwrap();
    assert_eq!(block.len, 6);
    assert_eq!(block.addr % 2, 0);
    assert_eq!(arena.used(), block.addr + 6 - arena.base());
}

#[test]
fn bump_arena_refused_request_stays_refused() {
    let mut arena = BumpArena::new(16);
    let large = Layout::from_size_align(17, 1).unwrap();
    let small = Layout::from_size_align(3, 1).unwrap();
    for _ in 0..3 {
        assert_eq!(arena.try_alloc_uninit(large), None);
        arena.try_alloc_uninit(small).unwrap();
    }
}
