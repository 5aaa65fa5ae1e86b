use std::cell::RefCell;
use std::ptr;
use std::sync::atomic::{AtomicU32, Ordering};

use linalloc::{Block, BumpArena, BumpArenaLazy, Layout, TypedArena};

struct Tracker<'a> {
    id: u32,
    order: &'a RefCell<Vec<u32>>,
}

impl Drop for Tracker<'_> {
    fn drop(&mut self) {
        self.order.borrow_mut().push(self.id);
    }
}

#[test]
fn typed_arenas_share_an_allocator() {
    let mut bump = BumpArena::new(4 * 1024);
    let mut strings = TypedArena::<String, _>::new_in(&bump);
    let mut ints = TypedArena::<i32, _>::new_in(&bump);

    let s = strings.try_alloc(&mut bump, "hello".to_string()).unwrap();
    let i = ints.try_alloc(&mut bump, 42).unwrap();
    assert_eq!(*s, "hello");
    assert_eq!(*i, 42);
    strings.try_alloc(&mut bump, "again".to_string()).unwrap();

    let slots = [strings.slots()[0], ints.slots()[0], strings.slots()[1]];
    for (k, a) in slots.iter().enumerate() {
        for b in &slots[k + 1..] {
            assert!(a.addr + a.len <= b.addr || b.addr + b.len <= a.addr);
        }
    }
    drop(strings);
    drop(ints);
    bump.reset();
    assert_eq!(bump.used(), 0);
}

#[test]
fn typed_arena_readme_arenas_hold_their_values() {
    let mut bump = BumpArena::new(128);
    let mut foo_arena = TypedArena::<String, _>::new_in(&bump);
    let mut bar_arena = TypedArena::<String, _>::new_in(&bump);

    let foo = foo_arena.try_alloc(&mut bump, "foo".to_owned()).unwrap();
    let bar = bar_arena.try_alloc(&mut bump, "bar".to_owned()).unwrap();

    assert_eq!(foo, "foo");
    assert_eq!(bar, "bar");
}

#[test]
fn typed_arena_value_can_be_changed_in_place() {
    let mut bump = BumpArena::new(1024);
    let mut arena = TypedArena::<i32, _>::new_in(&bump);
    let x = arena.try_alloc(&mut bump, 42).unwrap();
    assert_eq!(*x, 42);
    *x = 43;
    assert_eq!(*arena.alloc_value(&mut bump, 1), 1);
    assert_eq!(arena.alloc_raw(&mut bump, 2), Some(&mut 2));
    let mut d = arena.drain(&bump);
    assert_eq!((d.next(), d.next(), d.next(), d.next()), (Some(43), Some(1), Some(2), None));
}

#[test]
fn typed_arena_drains_in_allocation_order() {
    let mut bump = BumpArena::new(128);
    let mut arena = TypedArena::<String, _>::new_in(&bump);
    arena.try_alloc(&mut bump, "first".to_string()).unwrap();
    arena.try_alloc(&mut bump, "second".to_string()).unwrap();

    let mut d = arena.drain(&bump);
    assert_eq!(d.len(), 2);
    assert_eq!(d.size_hint(), (2, Some(2)));
    assert_eq!(d.next(), Some("first".to_string()));
    assert_eq!(d.size_hint(), (1, Some(1)));
    assert_eq!(d.next(), Some("second".to_string()));
    assert_eq!(d.next(), None);
    assert_eq!(d.next(), None);
    assert_eq!(d.len(), 0);
}

#[test]
fn typed_arena_drops_what_is_left_of_a_drain_newest_first() {
    let order = RefCell::new(Vec::new());
    let mut bump = BumpArena::new(256);
    let mut arena = TypedArena::<Tracker, _>::new_in(&bump);
    for id in 1..=4 {
        arena.try_alloc(&mut bump, Tracker { id, order: &order }).unwrap();
    }
    let mut d = arena.drain(&bump);
    assert_eq!(d.next().map(|t| t.id), Some(1));
    assert_eq!(*order.borrow(), [1]);
    drop(d);
    assert_eq!(*order.borrow(), [1, 4, 3, 2]);
}

#[test]
fn typed_arena_reset_drops_newest_first_and_empties() {
    let order = RefCell::new(Vec::new());
    let mut bump = BumpArena::new(1024);
    let mut arena = TypedArena::<Tracker, _>::new_in(&bump);
    for id in 1..=3 {
        arena.try_alloc(&mut bump, Tracker { id, order: &order }).unwrap();
    }
    assert_eq!(arena.len(), 3);
    let used = bump.used();
    arena.reset();
    assert!(arena.is_empty());
    assert_eq!(arena.slots(), []);
    assert_eq!(*order.borrow(), [3, 2, 1]);
    assert_eq!(bump.used(), used);
    arena.try_alloc(&mut bump, Tracker { id: 9, order: &order }).unwrap();
    drop(arena);
    assert_eq!(*order.borrow(), [3, 2, 1, 9]);
}

#[test]
fn typed_arena_drops_newest_first() {
    let order = RefCell::new(Vec::new());
    let mut bump = BumpArena::new(1024);
    let mut arena = TypedArena::<Tracker, _>::new_in(&bump);
    for id in 1..=3 {
        arena.try_alloc(&mut bump, Tracker { id, order: &order }).unwrap();
    }
    drop(arena);
    assert_eq!(*order.borrow(), [3, 2, 1]);
}

#[test]
fn typed_arena_full_allocator_refuses() {
    let mut bump = BumpArena::new(7);
    let mut arena = TypedArena::<u64, _>::new_in(&bump);
    assert_eq!(arena.try_alloc(&mut bump, 1), None);
    assert_eq!(arena.len(), 0);
    assert_eq!(bump.used(), 0);
}

#[test]
fn typed_arena_value_without_size_takes_no_slot() {
    let mut bump = BumpArena::new(0);
    let mut arena = TypedArena::<(), _>::new_in(&bump);
    assert!(arena.try_alloc(&mut bump, ()).is_some());
    assert_eq!(arena.slots(), []);
    assert_eq!(arena.len(), 1);
    assert_eq!(bump.used(), 0);
    let mut d = arena.drain(&bump);
    assert_eq!((d.next(), d.next()), (Some(()), None));
}

static UNIT_DROPS: AtomicU32 = AtomicU32::new(0);

struct Unit;

impl Drop for Unit {
    fn drop(&mut self) {
        UNIT_DROPS.fetch_add(1, Ordering::Relaxed);
    }
}

#[test]
fn typed_arena_values_without_size_are_dropped() {
    let mut bump = BumpArena::new(0);
    let mut arena = TypedArena::<Unit, _>::new_in(&bump);
    for _ in 0..3 {
        assert!(arena.try_alloc(&mut bump, Unit).is_some());
    }
    assert_eq!(UNIT_DROPS.load(Ordering::Relaxed), 0);
    arena.reset();
    assert_eq!(UNIT_DROPS.load(Ordering::Relaxed), 3);
    assert!(arena.try_alloc(&mut bump, Unit).is_some());
    drop(arena);
    assert_eq!(UNIT_DROPS.load(Ordering::Relaxed), 4);
}

#[test]
fn typed_arena_refused_value_is_dropped_at_once() {
    let order = RefCell::new(Vec::new());
    let mut bump = BumpArena::new(0);
    let mut arena = TypedArena::<Tracker, _>::new_in(&bump);
    assert!(arena.try_alloc(&mut bump, Tracker { id: 7, order: &order }).is_none());
    assert_eq!(*order.borrow(), [7]);
    drop(arena);
    assert_eq!(*order.borrow(), [7]);
}

#[test]
fn typed_arena_reset_reuses_the_places() {
    let mut bump = BumpArena::new(256);
    let mut arena = TypedArena::<u64, _>::new_in(&bump);
    let first = ptr::from_mut(arena.alloc_value(&mut bump, 1));
    let second = ptr::from_mut(arena.alloc_value(&mut bump, 2));
    arena.reset();
    assert_eq!(ptr::from_mut(arena.alloc_value(&mut bump, 3)), first);
    assert_eq!(ptr::from_mut(arena.alloc_value(&mut bump, 4)), second);
}

#[test]
fn typed_arena_places_in_the_granted_slot() {
    let mut bump = BumpArena::new(64);
    let mut arena = TypedArena::<u16, BumpArena>::new_in(&bump);
    let slot = bump.alloc_uninit(Layout::new::<u16>());
    assert_eq!(arena.place(None, 5), None);
    assert_eq!(arena.place(Some(slot), 6), Some(&mut 6));
    assert_eq!(arena.slots(), [slot]);
}

#[test]
fn typed_arena_slots_have_the_layout_of_the_type() {
    let mut bump = BumpArenaLazy::new(4096, 4096, |_| Ok(0x1_0000), |_, _| Ok(()));
    bump.try_alloc_uninit(Layout::from_size_align(3, 1).unwrap()).unwrap();
    let mut arena = TypedArena::<u32, _>::new_in(&bump);
    arena.try_alloc(&mut bump, 7).unwrap();
    assert_eq!(arena.slots(), [Block { addr: 0x1_0004, len: 4 }]);
    assert_eq!(bump.used(), 8);
}

#[test]
fn typed_arena_refused_commit_refuses_the_value() {
    let mut bump = BumpArenaLazy::new(4096, 4096, |_| Ok(0x1_0000), |_, _| Err(12));
    let mut arena = TypedArena::<u32, _>::new_in(&bump);
    assert_eq!(arena.try_alloc(&mut bump, 7), None);
    assert_eq!(bump.last_os_error_code(), Some(12));
    assert!(arena.is_empty());
}
