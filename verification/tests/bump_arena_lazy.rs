use std::cell::{Cell, RefCell};

use linalloc::{sys, AllocError, Block, BumpArena, BumpArenaLazy, Layout};

const BASE: usize = 0x10_0000;

/// An arena whose system reserves at `BASE` and grants every commit.
fn granting(capacity: usize) -> BumpArenaLazy<impl Fn(usize, usize) -> Result<(), i32>> {
    BumpArenaLazy::new(capacity, sys::page_size(4096), |_| Ok(BASE), |_, _| Ok(()))
}

/// What is stored in the memory that an arena reserved.
struct Memory(Vec<u8>);

impl Memory {
    fn bytes(&mut self, block: Block) -> &mut [u8] {
        &mut self.0[block.addr - BASE..block.addr - BASE + block.len]
    }
}

fn array_layout(n: usize) -> Layout {
    Layout::from_size_align(n * 4, 4).unwrap()
}

fn allocate_last_block_misaligned_to<C: Fn(usize, usize) -> Result<(), i32>>(
    bump: &mut BumpArenaLazy<C>,
    align: usize,
) -> (usize, Layout) {
    let layout = Layout::from_size_align(8, 1).unwrap();
    let pad = Layout::from_size_align(1, 1).unwrap();

    for _ in 0..=align {
        let block = bump.allocate(layout).unwrap();
        if block.addr % align != 0 {
            return (block.addr, layout);
        }
        bump.allocate(pad).unwrap();
    }

    panic!("could not create a misaligned last allocation");
}

#[test]
fn bump_arena_lazy_alloc_alignment_and_length() {
    let mut bump = granting(128);
    let base = bump.base();
    let mut prev_end = 0usize;

    for align in [1, 2, 4, 8, 16] {
        let layout = Layout::from_size_align(3, align).unwrap();
        let slice = bump.try_alloc_uninit(layout).unwrap();
        assert_eq!(slice.addr % align, 0);
        assert_eq!(slice.len, 3);

        let start = slice.addr - base;
        let end = start + slice.len;
        assert!(end > prev_end);
        assert_eq!(bump.used(), end);
        assert!(bump.used() <= bump.capacity());
        prev_end = end;
    }
}

#[test]
fn bump_arena_lazy_alloc_no_overlap() {
    let mut bump = granting(64);
    let a = bump.try_alloc_uninit(Layout::from_size_align(16, 8).unwrap()).unwrap();
    let b = bump.try_alloc_uninit(Layout::from_size_align(8, 8).unwrap()).unwrap();

    let a_end = a.addr + a.len;
    let b_end = b.addr + b.len;

    assert!(a_end <= b.addr || b_end <= a.addr);
}

#[test]
fn bump_arena_lazy_alloc_oom_does_not_advance() {
    let mut bump = granting(16);
    let layout = Layout::from_size_align(8, 1).unwrap();
    bump.try_alloc_uninit(layout).unwrap();
    let used_before = bump.used();

    let too_large = Layout::from_size_align(9, 1).unwrap();
    assert!(bump.try_alloc_uninit(too_large).is_none());
    assert_eq!(bump.used(), used_before);
    assert!(bump.used() <= bump.capacity());
}

#[test]
fn bump_arena_lazy_reset_reuses_base() {
    let mut bump = granting(32);
    let layout = Layout::from_size_align(8, 4).unwrap();
    let first = bump.try_alloc_uninit(layout).unwrap();

    bump.reset();
    assert_eq!(bump.used(), 0);

    let second = bump.try_alloc_uninit(layout).unwrap();
    assert_eq!(first.addr, second.addr);
}

#[test]
fn zero_capacity_rejects_nonzero_alloc_uninit() {
    let mut bump = granting(0);
    let layout = Layout::from_size_align(1, 1).unwrap();
    assert!(bump.try_alloc_uninit(layout).is_none());
    assert_eq!(bump.used(), 0);
}

#[test]
fn bump_arena_lazy_zero_size_alloc_does_not_advance() {
    let mut bump = granting(8);
    let layout = Layout::from_size_align(0, 8).unwrap();
    let slice = bump.try_alloc_uninit(layout).unwrap();
    assert_eq!(slice.len, 0);
    assert_eq!(bump.used(), 0);
}

#[test]
fn bump_arena_lazy_allocator_grow_and_shrink_resize_last_allocation() {
    let mut bump = granting(64);
    let mut memory = Memory(vec![0; 64]);
    let old = Layout::from_size_align(8, 4).unwrap();
    let grown = Layout::from_size_align(16, 4).unwrap();
    let shrunk = Layout::from_size_align(4, 4).unwrap();

    let block = bump.allocate(old).unwrap();
    let start = block.addr - bump.base();
    memory.bytes(block).fill(0xAB);

    let grown_block = bump.grow(block.addr, old, grown).unwrap();
    assert_eq!(grown_block.addr, block.addr);
    assert_eq!(bump.used(), start + grown.size());
    assert_eq!(memory.bytes(grown_block)[0], 0xAB);
    assert_eq!(memory.bytes(grown_block)[old.size() - 1], 0xAB);

    let shrunk_block = bump.shrink(grown_block.addr, grown, shrunk).unwrap();
    assert_eq!(shrunk_block.addr, block.addr);
    assert_eq!(bump.used(), start + shrunk.size());
}

#[test]
fn bump_arena_lazy_allocator_grow_zeroed_zeroes_new_tail() {
    let mut bump = granting(64);
    let mut memory = Memory(vec![0xCD; 64]);
    let old = Layout::from_size_align(4, 1).unwrap();
    let grown = Layout::from_size_align(12, 1).unwrap();

    let block = bump.allocate(old).unwrap();
    memory.bytes(block).fill(0xAB);

    let (grown_block, tail) = bump.grow_zeroed(block.addr, old, grown).unwrap();
    memory.bytes(tail).fill(0);
    assert_eq!(grown_block.addr, block.addr);
    for index in 0..old.size() {
        assert_eq!(memory.bytes(grown_block)[index], 0xAB);
    }
    for index in old.size()..grown.size() {
        assert_eq!(memory.bytes(grown_block)[index], 0);
    }
}

#[test]
fn allocator_grow_across_commit_preserves_the_block() {
    let page = sys::page_size(4096);
    let mut bump = granting(page + 64);
    let mut memory = Memory(vec![0; page + 64]);
    let old = Layout::from_size_align(page - 8, 1).unwrap();
    let grown = Layout::from_size_align(page + 16, 1).unwrap();

    let block = bump.allocate(old).unwrap();
    memory.bytes(block).fill(0xAB);
    assert_eq!(bump.used(), old.size());
    assert_eq!(bump.committed(), page);

    let grown_block = bump.grow(block.addr, old, grown).unwrap();

    assert_eq!(grown_block.addr, block.addr);
    assert_eq!(bump.used(), grown.size());
    assert!(bump.committed() >= grown.size());
    assert_eq!(memory.bytes(grown_block)[0], 0xAB);
    assert_eq!(memory.bytes(grown_block)[old.size() - 1], 0xAB);
}

#[test]
fn bump_arena_lazy_vec_try_reserve_can_grow_inside_allocator() {
    let mut bump = granting(64);
    let mut memory = Memory(vec![0; 64]);
    let block = bump.allocate(array_layout(1)).unwrap();
    memory.bytes(block).copy_from_slice(&1i32.to_ne_bytes());

    let reserved = bump.grow(block.addr, array_layout(1), array_layout(4));
    assert!(reserved.is_ok());
    let block = reserved.unwrap();
    memory.bytes(block)[4..8].copy_from_slice(&2i32.to_ne_bytes());

    let values: Vec<i32> = memory.bytes(block)[..8]
        .chunks(4)
        .map(|c| i32::from_ne_bytes([c[0], c[1], c[2], c[3]]))
        .collect();
    assert_eq!(&values, &[1, 2]);
}

#[test]
fn bump_arena_lazy_allocator_rejects_resize_when_pointer_does_not_fit_new_alignment() {
    let mut bump = granting(256);
    let (addr, old) = allocate_last_block_misaligned_to(&mut bump, 8);
    let used = bump.used();
    let grown = Layout::from_size_align(16, 8).unwrap();

    assert!(bump.grow(addr, old, grown).is_err());
    assert_eq!(bump.used(), used);

    let mut bump = granting(256);
    let (addr, old) = allocate_last_block_misaligned_to(&mut bump, 8);
    let used = bump.used();
    let shrunk = Layout::from_size_align(4, 8).unwrap();

    assert!(bump.shrink(addr, old, shrunk).is_err());
    assert_eq!(bump.used(), used);
}

#[test]
fn bump_arena_lazy_new_reserves_the_capacity() {
    let asked = Cell::new(0);
    let reserve = |size: usize| {
        asked.set(size);
        Ok(BASE)
    };
    let arena = BumpArenaLazy::new(1024, 4096, reserve, |_, _| Ok(()));
    assert_eq!(asked.get(), 1024);
    assert_eq!(arena.capacity(), 1024);
    assert_eq!(arena.used(), 0);
    assert_eq!(arena.committed(), 0);
    assert_eq!(arena.last_os_error_code(), None);
    assert_eq!(arena.reservation(), Some(Block { addr: BASE, len: 1024 }));
}

#[test]
fn bump_arena_lazy_zero_capacity_reserves_nothing() {
    let asked = Cell::new(false);
    let reserve = |_: usize| {
        asked.set(true);
        Err(12)
    };
    let arena = BumpArenaLazy::try_new(0, 4096, reserve, |_, _| Ok(()));
    assert!(!asked.get());
    assert_eq!(arena.unwrap().reservation(), None);
}

#[test]
fn bump_arena_lazy_try_new_fails_with_the_system_code() {
    let arena = BumpArenaLazy::try_new(64, 4096, |_| Err(12), |_, _| Ok(()));
    assert_eq!(arena.err(), Some(12));
}

#[test]
fn bump_arena_lazy_commits_whole_pages_once() {
    let asked = RefCell::new(Vec::new());
    let commit = |addr: usize, len: usize| {
        asked.borrow_mut().push((addr, len));
        Ok(())
    };
    let mut arena = BumpArenaLazy::new(3 * 4096 + 100, 4096, |_| Ok(BASE), commit);
    let byte = Layout::from_size_align(1, 1).unwrap();
    let page = Layout::from_size_align(4096, 1).unwrap();
    arena.alloc_uninit(byte);
    assert_eq!(arena.committed(), 4096);
    arena.alloc_uninit(byte);
    arena.alloc_uninit(page);
    assert_eq!(arena.committed(), 2 * 4096);
    arena.alloc_uninit(page);
    arena.alloc_uninit(page);
    assert_eq!(arena.committed(), 3 * 4096 + 100);
    arena.reset();
    assert_eq!(arena.committed(), 3 * 4096 + 100);
    arena.alloc_uninit(page);
    assert_eq!(
        *asked.borrow(),
        [(BASE, 4096), (BASE + 4096, 4096), (BASE + 2 * 4096, 4096), (BASE + 3 * 4096, 100)]
    );
}

#[test]
fn bump_arena_lazy_refused_commit_changes_only_the_error() {
    let code = Cell::new(12);
    let commit = |_: usize, _: usize| if code.get() == 0 { Ok(()) } else { Err(code.get()) };
    let mut arena = BumpArenaLazy::new(8192, 4096, |_| Ok(BASE), commit);
    let layout = Layout::from_size_align(16, 1).unwrap();
    assert_eq!(arena.try_alloc_uninit(layout), None);
    assert_eq!((arena.used(), arena.committed()), (0, 0));
    assert_eq!(arena.last_os_error_code(), Some(12));
    code.set(7);
    assert_eq!(arena.allocate(layout), Err(AllocError));
    assert_eq!(arena.last_os_error_code(), Some(7));
    code.set(0);
    assert_eq!(arena.alloc_uninit_slice(layout), Some(Block { addr: BASE, len: 16 }));
    assert_eq!(arena.last_os_error_code(), Some(7));
    code.set(5);
    let large = Layout::from_size_align(5000, 1).unwrap();
    assert_eq!(arena.grow(BASE, layout, large), Err(AllocError));
    assert_eq!((arena.used(), arena.committed()), (16, 4096));
    assert_eq!(arena.last_os_error_code(), Some(5));
}

#[test]
fn bump_arena_lazy_settles_what_the_system_said() {
    let mut arena = granting(8192);
    let layout = Layout::from_size_align(5000, 1).unwrap();
    assert_eq!(arena.missing(layout), Some(Block { addr: BASE, len: 8192 }));
    assert_eq!(arena.settle(layout, Err(3)), None);
    assert_eq!(arena.last_os_error_code(), Some(3));
    assert_eq!(arena.settle(layout, Ok(())), Some(Block { addr: BASE, len: 5000 }));
    assert_eq!(arena.missing(layout), None);
    assert_eq!(arena.settle(layout, Ok(())), None);
    let small = Layout::from_size_align(100, 1).unwrap();
    assert_eq!(arena.missing(small), None);
    assert_eq!(arena.settle(small, Err(4)), Some(Block { addr: BASE + 5000, len: 100 }));
    assert_eq!(arena.last_os_error_code(), Some(3));
}

#[test]
fn bump_arena_lazy_commits_no_more_than_it_reserved() {
    let page = usize::MAX / 2 + 1;
    let mut arena = BumpArenaLazy::new(100, page, |_| Ok(page), |_, _| Ok(()));
    let layout = Layout::from_size_align(10, 1).unwrap();
    assert_eq!(arena.missing(layout), Some(Block { addr: page, len: 100 }));
    assert!(arena.try_alloc_uninit(layout).is_some());
    assert_eq!(arena.committed(), 100);
}

#[test]
fn bump_arena_lazy_places_blocks_as_a_bump_arena_does() {
    let mut eager = BumpArena::new(300);
    let base = eager.base();
    let mut lazy = BumpArenaLazy::new(300, 1, |_| Ok(base), |_, _| Ok(()));
    for (size, align) in [(3, 1), (8, 8), (0, 4), (100, 2), (200, 1), (50, 32), (300, 1)] {
        let layout = Layout::from_size_align(size, align).unwrap();
        assert_eq!(lazy.try_alloc_uninit(layout), eager.try_alloc_uninit(layout));
        assert_eq!(lazy.used(), eager.used());
    }
}

#[test]
fn bump_arena_lazy_grow_and_shrink_back_undoes() {
    let mut arena = granting(64);
    let small = Layout::from_size_align(4, 1).unwrap();
    let large = Layout::from_size_align(40, 1).unwrap();
    let a = arena.allocate(small).unwrap();
    let b = arena.allocate(small).unwrap();
    assert_eq!(arena.grow(a.addr, small, large), Err(AllocError));
    assert_eq!(arena.grow(b.addr, small, large), Ok(Block { addr: b.addr, len: 40 }));
    assert_eq!(arena.shrink(b.addr, large, small), Ok(b));
    assert_eq!(arena.used(), 8);
    arena.deallocate(b.addr, small);
    assert_eq!(arena.used(), 8);
}

#[test]
fn bump_arena_lazy_keeps_no_error_after_success() {
    let mut arena = granting(128);
    arena.try_alloc_uninit(Layout::new::<u64>()).unwrap();
    assert_eq!(arena.last_os_error_code(), None);
}
