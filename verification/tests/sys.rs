use linalloc::reservation::Reservation;
use linalloc::{sys, Block};

#[test]
fn sys_reserve_tells_failure_by_the_address() {
    assert_eq!(sys::reserve(0x1000, 12), Ok(0x1000));
    assert_eq!(sys::reserve(0, 12), Err(12));
    assert_eq!(sys::reserve(usize::MAX, 22), Err(22));
}

#[test]
fn sys_commit_tells_failure_by_the_status() {
    assert_eq!(sys::commit(0, 12), Ok(()));
    assert_eq!(sys::commit(-1, 12), Err(12));
}

#[test]
fn sys_page_size_falls_back_to_4096() {
    assert_eq!(sys::page_size(16384), 16384);
    assert_eq!(sys::page_size(0), 4096);
    assert_eq!(sys::page_size(-1), 4096);
}

#[test]
fn reservation_commits_from_its_start_on() {
    let mut memory = Reservation::try_new(10_000, 1, 4096, |_| Ok(0x4000), |_, _| Ok(())).unwrap();
    assert_eq!(memory.missing(1), Some(Block { addr: 0x4000, len: 4096 }));
    assert_eq!(memory.ask(1), Ok(()));
    assert!(memory.settle(1, Ok(())));
    assert_eq!(memory.missing(4096), None);
    assert_eq!(memory.missing(9000), Some(Block { addr: 0x5000, len: 10_000 - 4096 }));
    assert!(!memory.settle(9000, Err(5)));
    assert_eq!((memory.committed(), memory.last_os_error_code()), (4096, Some(5)));
    assert!(memory.settle(9000, Ok(())));
    assert_eq!((memory.committed(), memory.last_os_error_code()), (10_000, Some(5)));
    assert_eq!(memory.range(), Some(Block { addr: 0x4000, len: 10_000 }));
}

#[test]
fn reservation_of_nothing_asks_nobody() {
    let memory = Reservation::try_new(0, 8, 4096, |_| Err(1), |_, _| Err(2)).unwrap();
    assert_eq!((memory.base(), memory.size(), memory.committed()), (8, 0, 0));
    assert_eq!(memory.ask(0), Ok(()));
    assert_eq!(memory.range(), None);
}
