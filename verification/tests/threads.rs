use linalloc::{
    BumpArena, BumpArenaLazy, DrainIter, IntoIter, Iter, IterMut, Snapshot, TypedArena,
    TypedArenaLazy, TypedArenaRef,
};

type Commit = fn(usize, usize) -> Result<(), i32>;

struct Sendable;
struct Shareable;

/// `stays` is ambiguous, and does not compile, for a type that can be sent or shared.
trait StaysOnThread<Marker> {
    fn stays() -> bool {
        true
    }
}

impl<T> StaysOnThread<()> for T {}
impl<T: Send> StaysOnThread<Sendable> for T {}
impl<T: Sync> StaysOnThread<Shareable> for T {}

#[test]
fn arenas_and_iterators_stay_on_one_thread() {
    assert!(<BumpArena as StaysOnThread<_>>::stays());
    assert!(<BumpArenaLazy<Commit> as StaysOnThread<_>>::stays());
    assert!(<TypedArena<u8, BumpArena> as StaysOnThread<_>>::stays());
    assert!(<TypedArenaRef<u8, BumpArena> as StaysOnThread<_>>::stays());
    assert!(<TypedArenaLazy<u8, Commit> as StaysOnThread<_>>::stays());
    assert!(<DrainIter<'static, u8, BumpArena> as StaysOnThread<_>>::stays());
    assert!(<IntoIter<'static, u8, BumpArena> as StaysOnThread<_>>::stays());
    assert!(<Iter<'static, u8> as StaysOnThread<_>>::stays());
    assert!(<Snapshot<u8> as StaysOnThread<_>>::stays());
    assert!(<IterMut<'static, u8> as StaysOnThread<_>>::stays());
}
