use linalloc::{Layout, LayoutError};

#[test]
fn layout_keeps_size_and_alignment() {
    let layout = Layout::from_size_align(24, 8).unwrap();
    assert_eq!((layout.size(), layout.align()), (24, 8));
}

#[test]
fn layout_of_a_type() {
    let layout = Layout::new::<u64>();
    assert_eq!((layout.size(), layout.align()), (8, std::mem::align_of::<u64>()));
    let unit = Layout::new::<()>();
    assert_eq!((unit.size(), unit.align()), (0, 1));
}

#[test]
fn layout_rejects_bad_alignment() {
    for align in [0, 3, 6, 12, usize::MAX] {
        assert_eq!(Layout::from_size_align(8, align), Err(LayoutError));
    }
    for shift in 0..usize::BITS - 1 {
        assert!(Layout::from_size_align(0, 1 << shift).is_ok());
    }
}

#[test]
fn layout_rejects_a_size_beyond_isize_max() {
    let max = isize::MAX as usize;
    assert!(Layout::from_size_align(max, 1).is_ok());
    assert_eq!(Layout::from_size_align(max + 1, 1), Err(LayoutError));
    assert!(Layout::from_size_align(max - 7, 8).is_ok());
    assert_eq!(Layout::from_size_align(max - 6, 8), Err(LayoutError));
    assert_eq!(Layout::from_size_align(max - 6, 8).is_ok(), {
        std::alloc::Layout::from_size_align(max - 6, 8).is_ok()
    });
}
