//! Blocks of memory, as an address and a length.

use vstd::prelude::*;

use crate::layout::Layout;

verus! {

/// A block of `len` bytes at address `addr`.
///
/// An empty block stands for no memory: its address is only aligned, and lies in no arena.
#[derive(Clone, Copy, Debug, PartialEq, Eq, Structural)]
pub struct Block {
    pub addr: usize,
    pub len: usize,
}

impl Block {
    /// The address just behind the block.
    pub open spec fn end(self) -> int {
        self.addr + self.len
    }

    /// Whether the block has the size and alignment that `layout` asks for.
    pub open spec fn satisfies(self, layout: Layout) -> bool {
        &&& self.len == layout.size()
        &&& self.addr as int % layout.align() as int == 0
    }

    /// Whether the block is empty, or lies in the memory at address `region.0` of `region.1`
    /// bytes.
    pub open spec fn lies_in(self, region: (int, int)) -> bool {
        self.len == 0 || (region.0 <= self.addr && self.end() <= region.0 + region.1)
    }

    /// Whether no byte belongs to both blocks.
    pub open spec fn disjoint(self, other: Block) -> bool {
        self.end() <= other.addr || other.end() <= self.addr
    }
}

/// Whether the blocks lie one behind the other in `[lo, hi)`, in the order of the sequence.
pub open spec fn packed(blocks: Seq<Block>, lo: int, hi: int) -> bool {
    &&& forall|i: int|
        0 <= i < blocks.len() ==> lo <= #[trigger] blocks[i].addr && blocks[i].end() <= hi
    &&& forall|i: int, j: int|
        #![trigger blocks[i], blocks[j]]
        0 <= i < j < blocks.len() ==> blocks[i].end() <= blocks[j].addr
}

/// The longest prefix of `blocks` whose last block ends at or before `addr`.
pub open spec fn ending_by(blocks: Seq<Block>, addr: int) -> Seq<Block>
    decreases blocks.len(),
{
    if blocks.len() == 0 || blocks.last().end() <= addr {
        blocks
    } else {
        ending_by(blocks.drop_last(), addr)
    }
}

/// Packed blocks are pairwise disjoint.
pub proof fn lemma_packed_disjoint(blocks: Seq<Block>, lo: int, hi: int)
    requires
        packed(blocks, lo, hi),
    ensures
        forall|i: int, j: int|
            #![trigger blocks[i], blocks[j]]
            0 <= i < blocks.len() && 0 <= j < blocks.len() && i != j ==> blocks[i].disjoint(
                blocks[j],
            ),
{
    assert forall|i: int, j: int|
        #![trigger blocks[i], blocks[j]]
        0 <= i < blocks.len() && 0 <= j < blocks.len() && i != j implies blocks[i].disjoint(
        blocks[j],
    ) by {
        if i < j {
            assert(blocks[i].end() <= blocks[j].addr);
        } else {
            assert(blocks[j].end() <= blocks[i].addr);
        }
    }
}

/// Blocks packed below `hi` stay packed when one follows at or above `hi`.
pub(crate) proof fn lemma_packed_push(blocks: Seq<Block>, lo: int, hi: int, block: Block)
    requires
        packed(blocks, lo, hi),
        lo <= hi <= block.addr,
    ensures
        packed(blocks.push(block), lo, block.end()),
        forall|i: int| 0 <= i < blocks.len() ==> block.disjoint(#[trigger] blocks[i]),
{
    let more = blocks.push(block);
    assert forall|i: int| 0 <= i < more.len() implies lo <= #[trigger] more[i].addr
        && more[i].end() <= block.end() by {
        if i < blocks.len() {
            assert(more[i] == blocks[i]);
        }
    }
    assert forall|i: int, j: int|
        #![trigger more[i], more[j]]
        0 <= i < j < more.len() implies more[i].end() <= more[j].addr by {
        assert(more[i] == blocks[i]);
        if j < blocks.len() {
            assert(more[j] == blocks[j]);
        }
    }
}

/// The blocks that end by `addr` are packed below `addr`, and are a prefix of all.
pub(crate) proof fn lemma_ending_by(blocks: Seq<Block>, lo: int, hi: int, addr: int)
    requires
        packed(blocks, lo, hi),
    ensures
        packed(ending_by(blocks, addr), lo, addr),
        ending_by(blocks, addr).len() <= blocks.len(),
        ending_by(blocks, addr) == blocks.take(ending_by(blocks, addr).len() as int),
    decreases blocks.len(),
{
    if blocks.len() == 0 {
        assert(blocks.take(0) =~= blocks);
    } else if blocks.last().end() <= addr {
        let n = blocks.len() as int;
        assert(blocks.take(n) =~= blocks);
        assert forall|i: int| 0 <= i < n implies lo <= #[trigger] blocks[i].addr && blocks[i].end()
            <= addr by {
            if i < n - 1 {
                assert(blocks[i].end() <= blocks[n - 1].addr);
            }
        }
    } else {
        let front = blocks.drop_last();
        assert(packed(front, lo, hi)) by {
            assert forall|i: int| 0 <= i < front.len() implies lo <= #[trigger] front[i].addr
                && front[i].end() <= hi by {
                assert(front[i] == blocks[i]);
            }
            assert forall|i: int, j: int|
                #![trigger front[i], front[j]]
                0 <= i < j < front.len() implies front[i].end() <= front[j].addr by {
                assert(front[i] == blocks[i] && front[j] == blocks[j]);
            }
        }
        lemma_ending_by(front, lo, hi, addr);
        let k = ending_by(front, addr).len() as int;
        assert(blocks.take(k) =~= front.take(k));
    }
}

/// Of packed blocks, those that end by the address of the last, non-empty one are all the others.
pub(crate) proof fn lemma_ending_by_last(blocks: Seq<Block>, lo: int, hi: int)
    requires
        packed(blocks, lo, hi),
        blocks.len() > 0,
        blocks.last().len > 0,
    ensures
        ending_by(blocks, blocks.last().addr as int) == blocks.drop_last(),
{
    reveal_with_fuel(ending_by, 2);
    let front = blocks.drop_last();
    if front.len() > 0 {
        let n = blocks.len() as int;
        assert(blocks[n - 2].end() <= blocks[n - 1].addr);
        assert(front.last() == blocks[n - 2]);
    }
}

} // verus!
