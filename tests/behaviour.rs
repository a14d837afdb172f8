use bitmap_page_alloc::{
    align_down, align_up, exact_log2, is_aligned, AllocError, BitmapPageAllocator, BITMAP_CAP,
    MAX_ALIGN,
};

const PAGE: usize = 0x1000;
const SIZE_1G: usize = 0x4000_0000;

fn ready(start: usize, size: usize) -> BitmapPageAllocator<PAGE> {
    let mut a = BitmapPageAllocator::<PAGE>::new();
    a.init(start, size);
    a
}

#[test]
fn fresh_allocator_is_empty() {
    let a = BitmapPageAllocator::<PAGE>::new();
    assert_eq!(a.total_pages(), 0);
    assert_eq!(a.used_pages(), 0);
    assert_eq!(a.available_pages(), 0);
}

#[test]
fn init_keeps_only_whole_pages() {
    // [0x1001, 0x4001) holds the whole pages at 0x2000 and 0x3000.
    let mut a = ready(0x1001, 0x3000);
    assert_eq!(a.total_pages(), 2);
    assert_eq!(a.used_pages(), 0);
    assert_eq!(a.alloc_pages(1, PAGE), Ok(0x2000));
    assert_eq!(a.alloc_pages(1, PAGE), Ok(0x3000));
    assert_eq!(a.alloc_pages(1, PAGE), Err(AllocError::NoMemory));
}

#[test]
fn init_with_no_whole_page() {
    // [0x1001, 0x2000) ends on the boundary that it starts below.
    let mut a = ready(0x1001, 0xfff);
    assert_eq!(a.total_pages(), 0);
    assert_eq!(a.available_pages(), 0);
    assert_eq!(a.alloc_pages(1, PAGE), Err(AllocError::NoMemory));
}

#[test]
fn free_then_allocate_again_restores_counts() {
    let mut a = ready(0x10_0000, 0x10_0000);
    let used = a.used_pages();
    let avail = a.available_pages();
    let addr = a.alloc_pages(7, 0x4000).unwrap();
    assert_eq!(addr, 0x10_0000);
    assert_eq!(a.used_pages(), used + 7);
    a.dealloc_pages(addr, 7);
    assert_eq!(a.used_pages(), used);
    assert_eq!(a.available_pages(), avail);
}

#[test]
fn run_addresses_follow_the_alignment() {
    let mut a = ready(SIZE_1G + PAGE, 2 * SIZE_1G);
    let first = a.alloc_pages(3, PAGE).unwrap();
    assert_eq!(first, SIZE_1G + PAGE);
    let second = a.alloc_pages(2, 0x20_0000).unwrap();
    assert_eq!(second, SIZE_1G + 0x20_0000);
    assert_eq!(second % 0x20_0000, 0);
    let third = a.alloc_pages(4, SIZE_1G).unwrap();
    assert_eq!(third, 2 * SIZE_1G);
}

#[test]
fn single_page_follows_the_alignment() {
    let mut a = ready(SIZE_1G + PAGE, 2 * SIZE_1G);
    assert_eq!(a.alloc_pages(1, SIZE_1G), Ok(2 * SIZE_1G));
    assert_eq!(a.alloc_pages(1, PAGE), Ok(SIZE_1G + PAGE));
    assert_eq!(a.alloc_pages(1, 0x2000), Ok(SIZE_1G + 0x2000));
    assert_eq!(a.used_pages(), 3);
}

#[test]
fn single_page_without_an_aligned_free_page_is_no_memory() {
    let mut a = ready(0x1000, 0x1000);
    assert_eq!(a.alloc_pages(1, 0x2000), Err(AllocError::NoMemory));
    assert_eq!(a.used_pages(), 0);
    assert_eq!(a.alloc_pages(1, PAGE), Ok(0x1000));
}

#[test]
fn new_allocator_refuses_every_allocation() {
    let mut a = BitmapPageAllocator::<PAGE>::new();
    assert_eq!(a.alloc_pages(1, PAGE), Err(AllocError::NoMemory));
    assert_eq!(a.alloc_pages_at(0, 1, PAGE), Err(AllocError::NoMemory));
    assert_eq!(a.alloc_pages(0, PAGE), Err(AllocError::InvalidParam));
    a.dealloc_pages(0, 1);
    assert_eq!(a.used_pages(), 0);
}

#[test]
fn counts_always_add_up() {
    let mut a = ready(0, 0x40_0000);
    assert_eq!(a.available_pages() + a.used_pages(), a.total_pages());
    let x = a.alloc_pages(5, PAGE).unwrap();
    assert_eq!(a.available_pages() + a.used_pages(), a.total_pages());
    let _ = a.alloc_pages_at(0x20_0000, 3, PAGE).unwrap();
    assert_eq!(a.available_pages() + a.used_pages(), a.total_pages());
    a.dealloc_pages(x, 5);
    assert_eq!(a.available_pages() + a.used_pages(), a.total_pages());
    assert_eq!(a.used_pages(), 3);
}

#[test]
fn more_than_available_is_no_memory() {
    let mut a = ready(0x1000, 0x4000);
    assert_eq!(a.total_pages(), 4);
    let _ = a.alloc_pages(1, PAGE).unwrap();
    assert_eq!(a.alloc_pages(4, PAGE), Err(AllocError::NoMemory));
    assert_eq!(a.used_pages(), 1);
    assert_eq!(a.available_pages(), 3);
    assert_eq!(a.alloc_pages(3, PAGE), Ok(0x2000));
}

#[test]
fn no_aligned_run_is_no_memory() {
    // Four free pages at 0x1000..0x5000, but no two of them start at 0x8000 steps.
    let mut a = ready(0x1000, 0x4000);
    assert_eq!(a.alloc_pages(2, 0x8000), Err(AllocError::NoMemory));
    assert_eq!(a.used_pages(), 0);
    assert_eq!(a.alloc_pages(2, 0x2000), Ok(0x2000));
}

#[test]
fn alignment_above_max_is_invalid() {
    let mut a = ready(SIZE_1G + PAGE, 2 * SIZE_1G);
    assert_eq!(a.alloc_pages(1, MAX_ALIGN * 2), Err(AllocError::InvalidParam));
    assert_eq!(a.alloc_pages(10, 0x4000_0000 * 2), Err(AllocError::InvalidParam));
    assert_eq!(
        a.alloc_pages_at(2 * SIZE_1G, 1, MAX_ALIGN * 2),
        Err(AllocError::InvalidParam)
    );
    assert_eq!(a.used_pages(), 0);
}

#[test]
fn malformed_requests_are_invalid() {
    let mut a = ready(0, 0x10_0000);
    assert_eq!(a.alloc_pages(1, 0x800), Err(AllocError::InvalidParam));
    assert_eq!(a.alloc_pages(1, 0x3000), Err(AllocError::InvalidParam));
    assert_eq!(a.alloc_pages(1, 0), Err(AllocError::InvalidParam));
    assert_eq!(a.alloc_pages(0, PAGE), Err(AllocError::InvalidParam));
    assert_eq!(a.alloc_pages_at(0x1000, 0, PAGE), Err(AllocError::InvalidParam));
    assert_eq!(a.alloc_pages_at(0x1000, 1, 0x2000), Err(AllocError::InvalidParam));
    assert_eq!(a.alloc_pages_at(0x1800, 1, 0x800), Err(AllocError::InvalidParam));
    assert_eq!(a.used_pages(), 0);
}

#[test]
fn alloc_at_taken_or_outside_is_no_memory() {
    let mut a = ready(0x1000, 0x4000);
    assert_eq!(a.alloc_pages_at(0x2000, 2, PAGE), Ok(0x2000));
    assert_eq!(a.alloc_pages_at(0x3000, 1, PAGE), Err(AllocError::NoMemory));
    assert_eq!(a.alloc_pages_at(0x1000, 2, PAGE), Err(AllocError::NoMemory));
    assert_eq!(a.alloc_pages_at(0x4000, 2, PAGE), Err(AllocError::NoMemory));
    assert_eq!(a.alloc_pages_at(0, 1, PAGE), Err(AllocError::NoMemory));
    assert_eq!(a.used_pages(), 2);
    assert_eq!(a.alloc_pages_at(0x4000, 1, PAGE), Ok(0x4000));
    assert_eq!(a.used_pages(), 3);
}

#[test]
fn double_free_keeps_the_count() {
    let mut a = ready(0x1000, 0x8000);
    let addr = a.alloc_pages(3, PAGE).unwrap();
    a.dealloc_pages(addr, 3);
    assert_eq!(a.used_pages(), 0);
    a.dealloc_pages(addr, 3);
    assert_eq!(a.used_pages(), 0);
    let one = a.alloc_pages(1, PAGE).unwrap();
    a.dealloc_pages(one, 1);
    a.dealloc_pages(one, 1);
    assert_eq!(a.used_pages(), 0);
    assert_eq!(a.available_pages(), 8);
}

#[test]
fn partly_free_run_keeps_the_count() {
    let mut a = ready(0x1000, 0x8000);
    let addr = a.alloc_pages(2, PAGE).unwrap();
    assert_eq!(addr, 0x1000);
    a.dealloc_pages(addr, 3);
    assert_eq!(a.used_pages(), 2);
}

#[test]
fn free_outside_the_range_is_ignored() {
    let mut a = ready(0x10_0000, 0x4000);
    let addr = a.alloc_pages(4, PAGE).unwrap();
    a.dealloc_pages(0x1000, 1);
    a.dealloc_pages(addr, 5);
    a.dealloc_pages(0x20_0000, 2);
    assert_eq!(a.used_pages(), 4);
    a.dealloc_pages(addr, 0);
    assert_eq!(a.used_pages(), 4);
}

#[test]
fn add_memory_is_refused() {
    let mut a = ready(0x1000, 0x4000);
    assert_eq!(a.add_memory(0x10_0000, 0x1000), Err(AllocError::NoMemory));
    assert_eq!(a.total_pages(), 4);
}

#[test]
fn whole_bitmap_can_be_managed() {
    let mut a = ready(0, BITMAP_CAP * PAGE);
    assert_eq!(a.total_pages(), BITMAP_CAP);
    assert_eq!(a.alloc_pages(BITMAP_CAP, PAGE), Ok(0));
    assert_eq!(a.available_pages(), 0);
    assert_eq!(a.alloc_pages(1, PAGE), Err(AllocError::NoMemory));
    a.dealloc_pages(0, BITMAP_CAP);
    assert_eq!(a.used_pages(), 0);
}

#[test]
fn alignment_helpers() {
    assert_eq!(align_down(0x1fff, 0x1000), 0x1000);
    assert_eq!(align_down(0x2000, 0x1000), 0x2000);
    assert_eq!(align_up(0x1001, 0x1000), 0x2000);
    assert_eq!(align_up(0x1000, 0x1000), 0x1000);
    assert_eq!(align_up(0, 0x1000), 0);
    assert!(is_aligned(0x4000, 0x2000));
    assert!(!is_aligned(0x5000, 0x2000));
    assert_eq!(exact_log2(1), Some(0));
    assert_eq!(exact_log2(0x4_0000), Some(18));
    assert_eq!(exact_log2(0), None);
    assert_eq!(exact_log2(6), None);
    assert_eq!(exact_log2(1usize << 63), Some(63));
}
