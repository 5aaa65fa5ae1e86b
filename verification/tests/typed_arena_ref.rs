use std::cell::RefCell;
use std::ptr;

use linalloc::{BumpArena, Layout, TypedArenaRef};

struct Tracker<'a> {
    id: u32,
    order: &'a RefCell<Vec<u32>>,
}

impl Drop for Tracker<'_> {
    fn drop(&mut self) {
        self.order.borrow_mut().push(self.id);
    }
}

fn foo_bar(bump: &mut BumpArena) -> TypedArenaRef<String, BumpArena> {
    let mut arena = TypedArenaRef::<String, _>::new_in(bump);
    arena.try_alloc(bump, "foo".to_string()).unwrap();
    arena.try_alloc(bump, "bar".to_string()).unwrap();
    arena
}

#[test]
fn typed_arena_ref_into_iter_is_newest_first() {
    let mut bump = BumpArena::new(128);
    let mut iter = foo_bar(&mut bump).into_iter(&bump);
    assert_eq!(iter.size_hint(), (2, Some(2)));
    assert_eq!(iter.next(), Some("bar".to_string()));
    assert_eq!(iter.next(), Some("foo".to_string()));
    assert_eq!(iter.next(), None);
    assert_eq!(iter.size_hint(), (0, Some(0)));
}

#[test]
fn typed_arena_ref_into_iter_from_both_ends() {
    let mut bump = BumpArena::new(128);
    let mut iter = foo_bar(&mut bump).into_iter(&bump);
    assert_eq!(iter.next_back(), Some("foo".to_string())); // forward
    assert_eq!(iter.next(), Some("bar".to_string())); // LIFO
    assert_eq!(iter.next_back(), None);
}

#[test]
fn typed_arena_ref_iter_is_newest_first() {
    let mut bump = BumpArena::new(128);
    let mut arena = foo_bar(&mut bump);
    let mut iter = arena.iter();
    assert_eq!(iter.size_hint(), (2, Some(2)));
    assert_eq!(iter.next(), Some(&"bar".to_string()));
    assert_eq!(iter.next(), Some(&"foo".to_string()));
    assert_eq!(iter.next(), None);

    arena.try_alloc(&mut bump, "baz".to_string()).unwrap();
    let mut iter = arena.iter();
    assert_eq!(iter.next_back(), Some(&"foo".to_string()));
    assert_eq!(iter.next(), Some(&"baz".to_string()));
    assert_eq!(iter.size_hint(), (1, Some(1)));
    assert_eq!(iter.next_back(), Some(&"bar".to_string()));
    assert_eq!(iter.next_back(), None);
    assert_eq!(iter.next(), None);
}

#[test]
fn typed_arena_ref_iter_mut_writes_every_value() {
    let mut bump = BumpArena::new(128);
    let mut arena = foo_bar(&mut bump);
    let mut iter = arena.iter_mut();
    assert_eq!(iter.size_hint(), (2, Some(2)));
    let first = iter.next().unwrap();
    let second = iter.next().unwrap();
    assert!(iter.next().is_none());
    *first = format!("new-{first}");
    *second = format!("new-{second}");
    let mut iter = arena.iter();
    assert_eq!(iter.next(), Some(&"new-bar".to_string()));
    assert_eq!(iter.next(), Some(&"new-foo".to_string()));
}

#[test]
fn typed_arena_ref_drops_what_is_left_of_into_iter_newest_first() {
    let order = RefCell::new(Vec::new());
    let mut bump = BumpArena::new(256);
    let mut arena = TypedArenaRef::<Tracker, _>::new_in(&bump);
    for id in 1..=4 {
        arena.try_alloc(&mut bump, Tracker { id, order: &order }).unwrap();
    }
    let mut iter = arena.into_iter(&bump);
    assert_eq!(iter.next_back().map(|t| t.id), Some(1));
    drop(iter);
    assert_eq!(*order.borrow(), [1, 4, 3, 2]);
}

#[test]
fn typed_arena_ref_reset_and_drop_are_newest_first() {
    let order = RefCell::new(Vec::new());
    let mut bump = BumpArena::new(256);
    let mut arena = TypedArenaRef::<Tracker, _>::new_in(&bump);
    for id in 1..=3 {
        arena.try_alloc(&mut bump, Tracker { id, order: &order }).unwrap();
    }
    assert_eq!((arena.len(), arena.is_empty()), (3, false));
    arena.reset();
    assert_eq!((arena.len(), arena.is_empty()), (0, true));
    assert_eq!(*order.borrow(), [3, 2, 1]);
    arena.alloc_value(&mut bump, Tracker { id: 4, order: &order });
    arena.alloc_value(&mut bump, Tracker { id: 5, order: &order });
    drop(arena);
    assert_eq!(*order.borrow(), [3, 2, 1, 5, 4]);
}

#[test]
fn typed_arena_ref_refuses_and_takes_no_slot() {
    let mut bump = BumpArena::new(3);
    let mut ints = TypedArenaRef::<u32, _>::new_in(&bump);
    assert_eq!(ints.try_alloc(&mut bump, 1), None);
    assert_eq!(ints.slots(), []);
    let mut units = TypedArenaRef::<(), _>::new_in(&bump);
    assert!(units.try_alloc(&mut bump, ()).is_some());
    assert_eq!(units.slots(), []);
    assert_eq!(bump.used(), 0);
    assert_eq!(ints.place(None, 3), None);
    let mut bump = BumpArena::new(16);
    let mut ints = TypedArenaRef::<u32, _>::new_in(&bump);
    let slot = bump.alloc_uninit(Layout::new::<u32>());
    assert_eq!(ints.place(Some(slot), 2), Some(&mut 2));
    assert_eq!((ints.len(), ints.slots()), (1, [slot].as_slice()));
}

#[test]
fn typed_arena_ref_values_stay_where_they_are() {
    let mut bump = BumpArena::new(100_000);
    let mut arena = TypedArenaRef::<u64, _>::new_in(&bump);
    let mut places = Vec::new();
    for i in 0..1000 {
        places.push(ptr::from_mut(arena.alloc_value(&mut bump, i)).cast_const());
    }
    let mut iter = arena.iter();
    for place in places.iter().rev() {
        assert_eq!(ptr::from_ref(iter.next().unwrap()), *place);
    }
    assert_eq!(iter.next(), None);
}

#[test]
fn typed_arena_ref_into_iter_gives_the_allocator() {
    let mut bump = BumpArena::new(128);
    let arena = foo_bar(&mut bump);
    let used = bump.used();
    let mut iter = arena.into_iter(&bump);
    assert!(ptr::eq(iter.allocator(), &bump));
    assert!(iter.next().is_some());
    assert_eq!(iter.allocator().used(), used);
    drop(iter);
    assert_eq!(bump.used(), used);
}

#[test]
fn typed_arena_ref_snapshot_leaves_out_later_values() {
    let mut bump = BumpArena::new(256);
    let mut arena = foo_bar(&mut bump);
    let mut iter = arena.snapshot();
    assert_eq!(iter.size_hint(), (2, Some(2)));
    assert_eq!(iter.next(&arena), Some(&"bar".to_string())); // LIFO
    arena.try_alloc(&mut bump, "baz".to_string()).unwrap();
    assert_eq!(iter.next(&arena), Some(&"foo".to_string()));
    assert_eq!(iter.next(&arena), None);
    assert_eq!(iter.next_back(&arena), None);
    let mut iter = arena.snapshot();
    assert_eq!(iter.next_back(&arena), Some(&"foo".to_string()));
    assert_eq!(iter.next(&arena), Some(&"baz".to_string()));
    assert_eq!(iter.size_hint(), (1, Some(1)));
}
