//! Reserved address space that is committed page by page.

use vstd::prelude::*;

use crate::align;
use crate::block::Block;
use crate::SingleThreaded;

verus! {

/// The state of a [`Reservation`].
pub struct ReservedState {
    /// The address of the first reserved byte.
    pub base: int,
    /// The number of reserved bytes.
    pub size: int,
    /// The size of a page.
    pub page: int,
    /// The number of bytes, from `base` on, that are committed.
    pub committed: int,
    /// The code of the last refused commit, or zero.
    pub os_error: i32,
}

impl ReservedState {
    /// A fresh reservation, with nothing committed.
    pub open spec fn fresh(base: int, size: int, page: int) -> ReservedState {
        ReservedState { base, size, page, committed: 0, os_error: 0 }
    }

    /// How much has to be committed for `end` bytes: whole pages, as far as the reservation
    /// goes.
    pub open spec fn target(self, end: int) -> int {
        if align::round_up(end, self.page) <= self.size {
            align::round_up(end, self.page)
        } else {
            self.size
        }
    }

    /// The range to commit before the first `end` bytes can be used: `None` where they are
    /// committed.
    pub open spec fn missing(self, end: int) -> Option<Block> {
        if end <= self.committed {
            None
        } else {
            Some(
                Block {
                    addr: (self.base + self.committed) as usize,
                    len: (self.target(end) - self.committed) as usize,
                },
            )
        }
    }

    /// The state after the first `end` bytes were asked for, and whether they can be used,
    /// when `answer` is what the system said to committing the missing range.
    pub open spec fn settled(self, end: int, answer: Result<(), i32>) -> (ReservedState, bool) {
        if end <= self.committed {
            (self, true)
        } else {
            match answer {
                Ok(_) => (ReservedState { committed: self.target(end), ..self }, true),
                Err(code) => (ReservedState { os_error: code, ..self }, false),
            }
        }
    }

    /// The code of the last refused commit, if any was refused.
    pub open spec fn last_os_error(self) -> Option<i32> {
        if self.os_error == 0 {
            None
        } else {
            Some(self.os_error)
        }
    }

    /// The whole range, if it is not empty.
    pub open spec fn range(self) -> Option<Block> {
        if self.size > 0 {
            Some(Block { addr: self.base as usize, len: self.size as usize })
        } else {
            None
        }
    }

    /// What holds of every state that a reservation reaches.
    pub open spec fn wf(self) -> bool {
        &&& 0 < self.base
        &&& self.base + self.size <= usize::MAX
        &&& 0 < self.page <= usize::MAX
        &&& self.size == 0 || self.base % self.page == 0
        &&& 0 <= self.committed <= self.size
        &&& self.committed % self.page == 0 || self.committed == self.size
    }
}

/// Whether `commit` can be asked for every range that a reservation may still ask for: one that
/// is not empty, starts at a page, behind the committed part, and ends within the reservation.
pub open spec fn commits_behind<C: Fn(usize, usize) -> Result<(), i32>>(
    commit: C,
    state: ReservedState,
) -> bool {
    forall|addr: usize, len: usize|
        state.base + state.committed <= addr && addr as int % state.page == 0 && len > 0 && addr
            + len <= state.base + state.size ==> #[trigger] call_requires(commit, (addr, len))
}

/// Whether `answer` can be what `commit` says when the first `end` bytes are asked for.
///
/// Where no range is missing `commit` is not asked, and any answer stands for none.
pub open spec fn may_answer<C: Fn(usize, usize) -> Result<(), i32>>(
    commit: C,
    state: ReservedState,
    end: int,
    answer: Result<(), i32>,
) -> bool {
    match state.missing(end) {
        Some(range) => call_ensures(commit, (range.addr, range.len), answer),
        None => true,
    }
}

/// Whether `reserve` can be asked for `size` bytes, and a range that it answers with starts at a
/// page, not at null, lies in the address space, and can be committed by `commit`.
pub open spec fn reserves<
    R: FnOnce(usize) -> Result<usize, i32>,
    C: Fn(usize, usize) -> Result<(), i32>,
>(reserve: R, commit: C, size: usize, page: usize) -> bool {
    &&& call_requires(reserve, (size,))
    &&& forall|base: usize| #[trigger]
        call_ensures(reserve, (size,), Ok::<usize, i32>(base)) ==> {
            &&& 0 < base
            &&& base as int % page as int == 0
            &&& base + size <= usize::MAX
            &&& commits_behind(
                commit,
                ReservedState::fresh(base as int, size as int, page as int),
            )
        }
}

/// Whether `reserve` cannot refuse `size` bytes.
pub open spec fn always_reserves<R: FnOnce(usize) -> Result<usize, i32>>(
    reserve: R,
    size: usize,
) -> bool {
    forall|answer: Result<usize, i32>| #[trigger]
        call_ensures(reserve, (size,), answer) ==> answer is Ok
}

/// A range of reserved address space whose memory is committed in whole pages, from its start
/// on, as far as it is needed.
///
/// Committed memory stays committed. `C` is the system's commit call: it is given the address
/// and the length of a range that is reserved and not yet committed, and answers with the
/// system's error code if it refuses.
pub struct Reservation<C> {
    base: usize,
    size: usize,
    page_size: usize,
    commit: usize,
    last_os_error: i32,
    commit_pages: C,
    marker: SingleThreaded,
}

impl<C> View for Reservation<C> {
    type V = ReservedState;

    closed spec fn view(&self) -> ReservedState {
        ReservedState {
            base: self.base as int,
            size: self.size as int,
            page: self.page_size as int,
            committed: self.commit as int,
            os_error: self.last_os_error,
        }
    }
}

impl<C: Fn(usize, usize) -> Result<(), i32>> Reservation<C> {
    /// The system's commit call.
    pub closed spec fn commit_pages(&self) -> C {
        self.commit_pages
    }

    /// Whether the reservation is in a state it can reach.
    pub open spec fn wf(&self) -> bool {
        &&& self@.wf()
        &&& commits_behind(self.commit_pages(), self@)
    }

    /// Reserves `size` bytes.
    ///
    /// Fails with the system's error code where `reserve` does. For no bytes it is not asked,
    /// and the empty range stands at `dangling`.
    pub fn try_new<R: FnOnce(usize) -> Result<usize, i32>>(
        size: usize,
        dangling: usize,
        page_size: usize,
        reserve: R,
        commit_pages: C,
    ) -> (r: Result<Self, i32>)
        requires
            dangling > 0,
            page_size > 0,
            size == 0 || reserves(reserve, commit_pages, size, page_size),
        ensures
            r matches Ok(memory) ==> memory.wf() && memory.commit_pages() == commit_pages,
            if size == 0 {
                r matches Ok(memory) && memory@ == ReservedState::fresh(
                    dangling as int,
                    0,
                    page_size as int,
                )
            } else {
                exists|answer: Result<usize, i32>| #[trigger]
                    call_ensures(reserve, (size,), answer) && (match answer {
                        Ok(base) => r matches Ok(memory) && memory@ == ReservedState::fresh(
                            base as int,
                            size as int,
                            page_size as int,
                        ),
                        Err(code) => r matches Err(e) && e == code,
                    })
            },
    {
        let base: usize = if size == 0 {
            dangling
        } else {
            match reserve(size) {
                Ok(base) => base,
                Err(code) => {
                    return Err(code);
                },
            }
        };
        proof {
            vstd::arithmetic::div_mod::lemma_small_mod(0, page_size as nat);
        }
        Ok(
            Reservation {
                base,
                size,
                page_size,
                commit: 0,
                last_os_error: 0,
                commit_pages,
                marker: SingleThreaded::new(),
            },
        )
    }

    /// Asks the system to commit the range that the first `end` bytes miss, and returns what
    /// it said; where nothing is to be committed it is not asked.
    pub fn ask(&self, end: usize) -> (answer: Result<(), i32>)
        requires
            self.wf(),
            end <= self@.size,
        ensures
            may_answer(self.commit_pages(), self@, end as int, answer),
    {
        match self.missing(end) {
            Some(range) => (self.commit_pages)(range.addr, range.len),
            None => Ok(()),
        }
    }

    /// The range to commit before the first `end` bytes can be used: `None` where they are
    /// committed.
    pub fn missing(&self, end: usize) -> (r: Option<Block>)
        requires
            self.wf(),
            end <= self@.size,
        ensures
            r == self@.missing(end as int),
            r matches Some(range) ==> {
                &&& range.len > 0
                &&& range.addr == self@.base + self@.committed
                &&& range.addr as int % self@.page == 0
                &&& range.end() == self@.base + self@.target(end as int)
                &&& range.end() <= self@.base + self@.size
            },
    {
        if end <= self.commit {
            return None;
        }
        proof {
            align::lemma_round_up(end as int, self.page_size as int);
            lemma_missing(self@, end as int);
        }
        match align::checked_next_multiple_of(end, self.page_size) {
            Some(rounded) => {
                let needed: usize = if rounded <= self.size {
                    rounded
                } else {
                    self.size
                };
                Some(Block { addr: self.base + self.commit, len: needed - self.commit })
            },
            None => None,
        }
    }

    /// Takes note of what the system said to committing the range that the first `end` bytes
    /// miss, and returns whether they are usable.
    ///
    /// A refusal leaves everything as it was, and its code is kept.
    pub fn settle(&mut self, end: usize, answer: Result<(), i32>) -> (r: bool)
        requires
            old(self).wf(),
            end <= old(self)@.size,
        ensures
            final(self).wf(),
            final(self).commit_pages() == old(self).commit_pages(),
            (final(self)@, r) == old(self)@.settled(end as int, answer),
            r == (end <= final(self)@.committed),
    {
        if end <= self.commit {
            return true;
        }
        match self.missing(end) {
            Some(range) => {
                proof {
                    align::lemma_round_up(end as int, self.page_size as int);
                }
                match answer {
                    Ok(_) => {
                        self.commit = self.commit + range.len;
                        true
                    },
                    Err(code) => {
                        self.last_os_error = code;
                        false
                    },
                }
            },
            None => false,
        }
    }

    /// The address of the first reserved byte.
    pub fn base(&self) -> (r: usize)
        ensures
            r == self@.base,
    {
        self.base
    }

    /// The number of reserved bytes.
    pub fn size(&self) -> (r: usize)
        ensures
            r == self@.size,
    {
        self.size
    }

    /// The number of committed bytes.
    pub fn committed(&self) -> (r: usize)
        ensures
            r == self@.committed,
    {
        self.commit
    }

    /// The code of the last refused commit, if any was refused.
    pub fn last_os_error_code(&self) -> (r: Option<i32>)
        ensures
            r == self@.last_os_error(),
    {
        if self.last_os_error == 0 {
            None
        } else {
            Some(self.last_os_error)
        }
    }

    /// The whole range, if it is not empty.
    pub fn range(&self) -> (r: Option<Block>)
        ensures
            r == self@.range(),
    {
        if self.size > 0 {
            Some(Block { addr: self.base, len: self.size })
        } else {
            None
        }
    }
}

/// Asking for memory never moves or resizes the reservation and never decommits: what was
/// usable stays usable. Success means that the bytes asked for are committed, with less than a
/// page more, and only a refusal by the system changes the kept error code.
pub proof fn lemma_settled(state: ReservedState, end: int, answer: Result<(), i32>)
    requires
        state.wf(),
        0 <= end <= state.size,
    ensures
        ({
            let (after, usable) = state.settled(end, answer);
            &&& after.wf()
            &&& (after.base, after.size, after.page) == (state.base, state.size, state.page)
            &&& state.committed <= after.committed
            &&& after.committed > state.committed ==> after.committed < end + state.page
            &&& usable == (end <= after.committed)
            &&& usable ==> after.os_error == state.os_error
            &&& !usable ==> after.committed == state.committed
            &&& after.os_error != state.os_error ==> answer == Err::<(), i32>(after.os_error)
        }),
{
    align::lemma_round_up(end, state.page);
}

/// A range is asked of the system only where bytes are missing. It is not empty, starts at the
/// first byte that is not committed, at a page's start, and ends at a page's end or with the
/// reservation. Rounding to a page never leaves the address space.
pub proof fn lemma_missing(state: ReservedState, end: int)
    requires
        state.wf(),
        0 <= end <= state.size,
    ensures
        end <= state.committed ==> state.missing(end) is None,
        state.missing(end) matches Some(range) ==> {
            &&& range.len > 0
            &&& range.addr == state.base + state.committed
            &&& range.addr as int % state.page == 0
            &&& state.base + end <= range.end() <= state.base + state.size
            &&& range.end() % state.page == 0 || range.end() == state.base + state.size
            &&& align::round_up(end, state.page) <= usize::MAX
        },
{
    align::lemma_round_up(end, state.page);
    if end > state.committed {
        let (base, page) = (state.base, state.page);
        if base < page {
            vstd::arithmetic::div_mod::lemma_small_mod(base as nat, page as nat);
        }
        align::lemma_multiple(base, 1, state.committed, page);
        align::lemma_multiple(base, 1, align::round_up(end, page), page);
    }
}

/// Where the system grants what is missing, the bytes asked for become usable, and nothing is
/// missing of them any more.
pub proof fn lemma_granted(state: ReservedState, end: int)
    requires
        state.wf(),
        0 <= end <= state.size,
    ensures
        state.settled(end, Ok(())).1,
        state.settled(end, Ok(())).0.missing(end) is None,
{
    align::lemma_round_up(end, state.page);
}

} // verus!
