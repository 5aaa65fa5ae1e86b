//! What the answers of the operating system's memory calls mean.
//!
//! The calls themselves are made by the program around the library.

use vstd::prelude::*;

verus! {

/// The address that a failed mapping call returns.
pub const MAP_FAILED: usize = usize::MAX;

/// The page size to assume where the system does not tell it.
pub const DEFAULT_PAGE_SIZE: usize = 4096;

/// The outcome of a call that reserves address space, from the address it returned and the
/// system's error code.
///
/// The call has failed where the address is null or [`MAP_FAILED`].
pub fn reserve(addr: usize, os_error: i32) -> (r: Result<usize, i32>)
    ensures
        r == (if addr == 0 || addr == usize::MAX {
            Err::<usize, i32>(os_error)
        } else {
            Ok(addr)
        }),
{
    if addr == 0 || addr == MAP_FAILED {
        Err(os_error)
    } else {
        Ok(addr)
    }
}

/// The outcome of a call that commits reserved memory, from the status it returned and the
/// system's error code.
///
/// The call has succeeded where the status is zero.
pub fn commit(status: i32, os_error: i32) -> (r: Result<(), i32>)
    ensures
        r == (if status == 0 {
            Ok::<(), i32>(())
        } else {
            Err(os_error)
        }),
{
    if status == 0 {
        Ok(())
    } else {
        Err(os_error)
    }
}

/// The page size, from what the system answered; 4 KiB where the answer is no size.
pub fn page_size(answer: i32) -> (r: usize)
    ensures
        r == (if answer <= 0 {
            4096
        } else {
            answer as int
        }),
        r > 0,
{
    if answer <= 0 {
        DEFAULT_PAGE_SIZE
    } else {
        answer as usize
    }
}

} // verus!
