# linalloc

Fixed-capacity arena allocators for single-threaded programs, verified with Verus.

The capacity is picked up front and never grows. Blocks and values stay at their addresses. When
an arena is full, fallible allocation returns `None`.

| Type                   | What it gives                                            | Destruction  |
| ---------------------- | -------------------------------------------------------- | ------------ |
| `BumpArena`            | blocks of bytes from the global allocator                | none         |
| `BumpArenaLazy<C>`     | blocks of reserved memory, committed page by page        | none         |
| `TypedArena<T, A>`     | values with slots of a shared allocator, drained in order | newest first |
| `TypedArenaRef<T, A>`  | the same, visited newest first                           | newest first |
| `TypedArenaLazy<T, C>` | values with slots of reserved memory, committed lazily   | newest first |

A typed arena keeps every value in a cell of its own, where it stays until it leaves, and reuses
the cells after a reset. A slot is an account: it says which memory of the allocator or the
reservation the value takes up, so that capacity, alignment and disjointness hold. Nothing is
written to that memory. Values without size take up none.

## Layout

- `src/align.rs`, `src/layout.rs`, `src/block.rs`, `src/bump.rs`: rounding, sizes and alignments,
  blocks, and where a bump pointer puts the next block.
- `src/reservation.rs`: reserved memory that is committed from its start on.
- `src/bump_arena.rs`, `src/bump_arena_lazy.rs`: the bump arenas.
- `src/value_list.rs`, `src/typed_store.rs`: values with their slots, and their destruction.
- `src/typed_arena.rs`, `src/typed_arena_ref.rs`, `src/typed_arena_lazy.rs`: the typed arenas.
- `src/sys.rs`: what the answers of the operating system's memory calls mean.
- `app/`: the system calls, and all arenas for owners that share an allocator.

Each arena has a view, a plain state, and spec functions on that state say what every operation
does; the `lemma_` functions beside them prove what holds across operations. Operations that
change an arena take `&mut self`. A block is an address with a length. Arenas that draw on one
allocator are handed it with each call.

Lazy arenas are given two functions of the system, one that reserves address space and one that
commits a range of it. Their contracts hold for whatever these answer.
