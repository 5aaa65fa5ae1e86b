use std::cell::{Cell, RefCell};
use std::ptr;
use std::sync::atomic::{AtomicU32, Ordering};

use linalloc::{Block, TypedArenaLazy};

const BASE: usize = 0x10_0000;

/// An arena whose system reserves at `BASE` and grants every commit.
fn granting<T>(capacity: usize) -> TypedArenaLazy<T, impl Fn(usize, usize) -> Result<(), i32>> {
    TypedArenaLazy::new(capacity, 4096, |_| Ok(BASE), |_, _| Ok(()))
}

// A helper that records drop order and count.
struct DropTracker<'a> {
    id: u32,
    order: &'a Cell<Vec<u32>>,
}

impl Drop for DropTracker<'_> {
    fn drop(&mut self) {
        let mut v = self.order.take();
        v.push(self.id);
        self.order.set(v);
    }
}

#[test]
fn drop_order_reverse_allocation() {
    let order = Cell::new(Vec::new());
    let mut arena = granting::<DropTracker>(10);

    arena.try_alloc(DropTracker { id: 1, order: &order }).unwrap();
    arena.try_alloc(DropTracker { id: 2, order: &order }).unwrap();
    arena.try_alloc(DropTracker { id: 3, order: &order }).unwrap();

    drop(arena);

    assert_eq!(order.take(), vec![3, 2, 1]);
}

#[test]
fn reset_drops_values_and_reuses_memory() {
    let order = Cell::new(Vec::new());

    let mut arena = granting::<DropTracker>(10);
    let ptr1 = ptr::from_mut(arena.try_alloc(DropTracker { id: 1, order: &order }).unwrap());
    let _ptr2 = ptr::from_mut(arena.try_alloc(DropTracker { id: 2, order: &order }).unwrap());

    arena.reset();

    // After reset, all previous values must have been dropped.
    assert_eq!(order.take(), vec![2, 1]);

    // New allocation reuses the first slot.
    let ptr3 = ptr::from_mut(arena.try_alloc(DropTracker { id: 3, order: &order }).unwrap());
    assert_eq!(ptr1, ptr3);

    drop(arena);
    assert_eq!(order.take(), vec![3]);
}

#[test]
fn no_double_drop_after_reset() {
    struct Counter<'a>(&'a Cell<u32>);
    impl Drop for Counter<'_> {
        fn drop(&mut self) {
            self.0.set(self.0.get() + 1);
        }
    }

    let count = Cell::new(0u32);

    let mut arena = granting::<Counter>(10);
    arena.try_alloc(Counter(&count)).unwrap();
    arena.try_alloc(Counter(&count)).unwrap();

    arena.reset();
    assert_eq!(count.get(), 2); // both dropped exactly once

    arena.try_alloc(Counter(&count)).unwrap();
    drop(arena);
    assert_eq!(count.get(), 3); // only the new one dropped
}

#[test]
fn oom_does_not_advance_offset() {
    let mut arena = granting::<u64>(1); // holds exactly 1 u64
    assert!(arena.try_alloc(1u64).is_some());
    assert_eq!(arena.len(), 1);
    assert!(arena.try_alloc(2u64).is_none());
    assert_eq!(arena.len(), 1);
}

#[test]
fn zst_does_not_advance_offset() {
    let mut arena = granting::<()>(0);
    assert!(arena.try_alloc(()).is_some());
    assert_eq!(arena.len(), 0);
    assert!(arena.try_alloc(()).is_some());
    assert_eq!(arena.len(), 0);
}

#[test]
fn allocated_value_is_valid() {
    let mut arena = granting::<String>(1);
    let s = arena.try_alloc("hello".to_string()).unwrap();
    assert_eq!(s, "hello");
    s.push_str(" world");
    assert_eq!(s, "hello world");
}

#[test]
fn typed_lazy_len_and_is_empty() {
    let mut arena = granting::<i32>(10);
    assert_eq!(arena.len(), 0);
    assert!(arena.is_empty());
    assert_eq!(arena.capacity(), 10);
    *arena.alloc_value(41) += 1;
    assert_eq!(arena.alloc_raw(1), Some(&mut 1));
    assert_eq!(arena.len(), 2);
    assert!(!arena.is_empty());
}

#[test]
fn typed_lazy_slots_lie_one_behind_the_other() {
    let mut arena = granting::<u64>(3);
    assert_eq!(arena.slot(0), None);
    arena.alloc_value(1);
    arena.alloc_value(2);
    assert_eq!(arena.slot(0), Some(Block { addr: BASE, len: 8 }));
    assert_eq!(arena.slot(1), Some(Block { addr: BASE + 8, len: 8 }));
    assert_eq!(arena.slot(2), None);
    assert_eq!(arena.reservation(), Some(Block { addr: BASE, len: 24 }));
}

#[test]
fn typed_lazy_commits_whole_pages_once() {
    let asked = RefCell::new(Vec::new());
    let commit = |addr: usize, len: usize| {
        asked.borrow_mut().push((addr, len));
        Ok(())
    };
    let mut arena = TypedArenaLazy::<u64, _>::new(5, 16, |_| Ok(BASE), commit);
    for i in 0..5u64 {
        arena.alloc_value(i);
    }
    assert_eq!(arena.committed(), 40);
    arena.reset();
    for i in 0..5u64 {
        arena.alloc_value(i);
    }
    assert_eq!(arena.try_alloc(5), None);
    assert_eq!(*asked.borrow(), [(BASE, 16), (BASE + 16, 16), (BASE + 32, 8)]);
}

#[test]
fn typed_lazy_refused_commit_changes_only_the_error() {
    let code = Cell::new(12);
    let commit = |_: usize, _: usize| if code.get() == 0 { Ok(()) } else { Err(code.get()) };
    let mut arena = TypedArenaLazy::<u32, _>::new(4, 4096, |_| Ok(BASE), commit);
    assert_eq!(arena.last_os_error_code(), None);
    assert_eq!(arena.try_alloc(1), None);
    assert_eq!((arena.len(), arena.committed()), (0, 0));
    assert_eq!(arena.last_os_error_code(), Some(12));
    code.set(0);
    assert_eq!(arena.try_alloc(1), Some(&mut 1));
    assert_eq!(arena.last_os_error_code(), Some(12));
    assert_eq!(arena.committed(), 16);
}

#[test]
fn typed_lazy_settles_what_the_system_said() {
    let mut arena = granting::<u64>(1);
    assert_eq!(arena.missing(), Some(Block { addr: BASE, len: 8 }));
    assert_eq!(arena.settle(1, Err(9)), None);
    assert_eq!(arena.last_os_error_code(), Some(9));
    assert_eq!(arena.settle(1, Ok(())), Some(&mut 1));
    assert_eq!(arena.missing(), None);
    assert_eq!(arena.settle(2, Ok(())), None);
}

#[test]
fn typed_lazy_try_new_fails_with_the_system_code() {
    let arena = TypedArenaLazy::<u64, _>::try_new(8, 4096, |_| Err(12), |_, _| Ok(()));
    assert_eq!(arena.err(), Some(12));
}

#[test]
fn typed_lazy_without_bytes_reserves_nothing() {
    let asked = Cell::new(false);
    let reserve = |_: usize| {
        asked.set(true);
        Err(12)
    };
    let units = TypedArenaLazy::<(), _>::try_new(7, 4096, &reserve, |_, _| Err(1)).unwrap();
    assert_eq!(units.capacity(), 7);
    assert_eq!(units.reservation(), None);
    let mut none = TypedArenaLazy::<u64, _>::try_new(0, 4096, &reserve, |_, _| Ok(())).unwrap();
    assert_eq!(none.try_alloc(1), None);
    assert!(!asked.get());
}

static UNIT_DROPS: AtomicU32 = AtomicU32::new(0);

struct Unit;

impl Drop for Unit {
    fn drop(&mut self) {
        UNIT_DROPS.fetch_add(1, Ordering::Relaxed);
    }
}

#[test]
fn typed_lazy_values_without_size_are_dropped() {
    let mut arena = granting::<Unit>(0);
    assert!(arena.try_alloc(Unit).is_some());
    assert!(arena.try_alloc(Unit).is_some());
    assert_eq!((arena.len(), arena.is_empty(), arena.slot(0)), (0, true, None));
    assert_eq!(UNIT_DROPS.load(Ordering::Relaxed), 0);
    arena.reset();
    assert_eq!(UNIT_DROPS.load(Ordering::Relaxed), 2);
    assert!(arena.try_alloc(Unit).is_some());
    drop(arena);
    assert_eq!(UNIT_DROPS.load(Ordering::Relaxed), 3);
}

#[test]
fn typed_lazy_reset_reuses_every_place() {
    let mut arena = granting::<u64>(100);
    let before: Vec<_> = (0..100).map(|i| ptr::from_mut(arena.alloc_value(i))).collect();
    arena.reset();
    let after: Vec<_> = (0..100).map(|i| ptr::from_mut(arena.alloc_value(i))).collect();
    assert_eq!(before, after);
}

#[test]
fn typed_lazy_refused_value_is_dropped_at_once() {
    let order = Cell::new(Vec::new());
    let mut arena = granting::<DropTracker>(1);
    arena.try_alloc(DropTracker { id: 1, order: &order }).unwrap();
    assert!(arena.try_alloc(DropTracker { id: 2, order: &order }).is_none());
    let seen = order.take();
    assert_eq!(seen, vec![2]);
    order.set(seen);
    drop(arena);
    assert_eq!(order.take(), vec![2, 1]);
}
