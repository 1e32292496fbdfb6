use alloc_layout::{AllocErr, CannotReallocInPlace, Layout, LayoutErr, UnstableLayoutMethods};

fn layout(size: usize, align: usize) -> Layout {
    Layout::from_size_align(size, align).unwrap()
}

#[test]
fn padding_five_at_four() {
    assert_eq!(layout(5, 4).padding_needed_for(4), 3);
}

#[test]
fn repeat_five_at_four_three_times() {
    let (l, stride) = layout(5, 4).repeat(3).unwrap();
    assert_eq!(l.size(), 24);
    assert_eq!(l.align(), 4);
    assert_eq!(stride, 8);
}

#[test]
fn array_of_four_u32() {
    let l = Layout::array::<u32>(4).unwrap();
    assert_eq!(l.size(), 16);
    assert_eq!(l.align(), 4);
}

#[test]
fn repeat_overflow_is_an_error() {
    assert_eq!(layout(usize::MAX, 1).repeat(2), Err(LayoutErr));
}

#[test]
fn padding_of_a_multiple_is_zero() {
    assert_eq!(layout(16, 8).padding_needed_for(8), 0);
    assert_eq!(layout(0, 8).padding_needed_for(8), 0);
}

#[test]
fn padding_for_another_alignment() {
    assert_eq!(layout(5, 1).padding_needed_for(8), 3);
    assert_eq!(layout(12, 4).padding_needed_for(16), 4);
}

#[test]
fn padding_wraps_when_rounding_overflows() {
    let p = layout(usize::MAX, 1).padding_needed_for(8);
    assert_eq!(p, 1);
    assert_eq!(usize::MAX.wrapping_add(p), 0);
}

#[test]
fn padding_is_below_align_and_aligns() {
    for size in 0..200usize {
        let mut align = 1usize;
        while align <= 128 {
            let p = layout(size, 1).padding_needed_for(align);
            assert!(p < align);
            assert_eq!((size + p) % align, 0);
            align *= 2;
        }
    }
}

#[test]
fn repeat_stride_is_rounded_size() {
    for size in 0..100usize {
        let mut align = 1usize;
        while align <= 64 {
            for n in 0..10usize {
                let (l, stride) = layout(size, align).repeat(n).unwrap();
                let rounded = (size + align - 1) / align * align;
                assert_eq!(stride, rounded);
                assert_eq!(l.size(), stride * n);
                assert_eq!(l.align(), align);
            }
            align *= 2;
        }
    }
}

#[test]
fn repeat_zero_times_is_empty() {
    let (l, stride) = layout(7, 8).repeat(0).unwrap();
    assert_eq!(l.size(), 0);
    assert_eq!(l.align(), 8);
    assert_eq!(stride, 8);
}

#[test]
fn repeat_at_the_largest_count() {
    let base = layout(9, 8);
    let (l, stride) = base.repeat(usize::MAX / 16).unwrap();
    assert_eq!(stride, 16);
    assert_eq!(l.size(), usize::MAX / 16 * 16);
    assert_eq!(base.repeat(usize::MAX / 16 + 1), Err(LayoutErr));
}

#[test]
fn from_size_align_rejects_invalid_pairs() {
    assert_eq!(Layout::from_size_align(8, 0), Err(LayoutErr));
    assert_eq!(Layout::from_size_align(8, 3), Err(LayoutErr));
    assert_eq!(Layout::from_size_align(usize::MAX, 2), Err(LayoutErr));
    assert_eq!(Layout::from_size_align(usize::MAX - 7, 8).unwrap().size(), usize::MAX - 7);
}

#[test]
fn new_takes_the_natural_layout() {
    let l = Layout::new::<u64>();
    assert_eq!(l.size(), std::mem::size_of::<u64>());
    assert_eq!(l.align(), std::mem::align_of::<u64>());
}

#[test]
fn array_sizes_are_exact_products() {
    assert_eq!(Layout::array::<u8>(7).unwrap().size(), 7);
    assert_eq!(Layout::array::<[u16; 3]>(5).unwrap().size(), 30);
    assert_eq!(Layout::array::<u64>(0).unwrap().size(), 0);
    let l = Layout::array::<()>(5).unwrap();
    assert_eq!(l.size(), 0);
    assert_eq!(l.align(), 1);
}

#[test]
fn array_overflow_is_an_error() {
    assert_eq!(Layout::array::<u64>(usize::MAX), Err(LayoutErr));
}

#[test]
fn error_messages() {
    assert_eq!(AllocErr.to_string(), "memory allocation failed");
    assert_eq!(
        CannotReallocInPlace.description(),
        "cannot reallocate allocator's memory in place"
    );
    assert_eq!(
        CannotReallocInPlace.to_string(),
        "cannot reallocate allocator's memory in place"
    );
}
