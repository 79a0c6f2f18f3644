use os_kernel::frame_allocator::{FrameAllocator, FrameState, FRAME_COUNT, FRAME_SIZE};
use os_kernel::heap::{HEAP_SIZE, HEAP_START};
use os_kernel::heap_allocator::{LinkedListAllocator, HEADER_SIZE};

#[test]
fn test_frame_allocator_init() {
    let mut a = FrameAllocator::new();
    assert_eq!(a.free_count(), 16);
    assert_eq!(a.total_count(), FRAME_COUNT);
    a.init();
    assert_eq!(a.free_count(), 13);
    assert_eq!(a.state(0), FrameState::Reserved);
    assert_eq!(a.state(1), FrameState::Reserved);
    assert_eq!(a.state(2), FrameState::Reserved);
    assert_eq!(a.state(3), FrameState::Free);
}

#[test]
fn test_frame_allocator_scenario() {
    let mut a = FrameAllocator::new();
    a.init();
    let f1 = a.allocate();
    let f2 = a.allocate();
    let f3 = a.allocate();
    assert_eq!(f1, Some(3 * FRAME_SIZE));
    assert_eq!(f2, Some(4 * FRAME_SIZE));
    assert_eq!(f3, Some(5 * FRAME_SIZE));
    assert_eq!(a.free_count(), 10);
    assert!(a.free(0x600000));
    assert_eq!(a.free_count(), 11);
    // the lowest free frame is handed out again
    assert_eq!(a.allocate(), Some(0x600000));
    let mut count = 0;
    while a.allocate().is_some() {
        count += 1;
    }
    assert_eq!(count, 10);
    assert_eq!(a.free_count(), 0);
    assert_eq!(a.allocate(), None);
}

#[test]
fn test_frame_free_errors() {
    let mut a = FrameAllocator::new();
    a.init();
    // reserved frame
    assert!(!a.free(0x200000));
    // already free
    assert!(!a.free(0x600000));
    // beyond the managed memory
    assert!(!a.free(16 * FRAME_SIZE));
    assert!(!a.free(u64::MAX));
    assert_eq!(a.free_count(), 13);
    let f = a.allocate().unwrap();
    assert!(a.free(f));
    assert!(!a.free(f));
    // an address inside a used frame frees that frame
    let g = a.allocate().unwrap();
    assert!(a.free(g + 12345));
    assert_eq!(a.free_count(), 13);
}

#[test]
fn test_frame_print_stats() {
    let mut a = FrameAllocator::new();
    a.init();
    assert_eq!(a.print_stats(), b"  Frames : 13 libres / 16 total\n".to_vec());
}

#[test]
fn test_frame_print_map() {
    let mut a = FrameAllocator::new();
    a.init();
    a.allocate();
    let text = String::from_utf8(a.print_map()).unwrap();
    assert!(text.starts_with("\n=== Carte memoire (frames 2Mo) ===\n"));
    assert!(text.contains("  Frame 0 [0x0 - 0x1fffff] : RESERVE\n"));
    assert!(text.contains("  Frame 3 [0x600000 - 0x7fffff] : UTILISE\n"));
    assert!(text.contains("  Frame 15 [0x1e00000 - 0x1ffffff] : LIBRE\n"));
    assert!(text.ends_with("=== Fin carte memoire ===\n\n"));
    assert_eq!(text.lines().filter(|l| l.starts_with("  Frame ")).count(), 16);
}

fn check_conservation(h: &LinkedListAllocator) {
    let (free_b, used_b, blocks) = h.stats();
    assert_eq!(free_b + used_b + blocks * HEADER_SIZE, HEAP_SIZE as usize);
}

#[test]
fn test_heap_uninitialized() {
    let mut h = LinkedListAllocator::new();
    assert_eq!(h.allocate(64), None);
    assert!(!h.free(HEAP_START as usize + HEADER_SIZE));
    assert_eq!(h.stats(), (0, 0, 0));
}

#[test]
fn test_heap_init() {
    let mut h = LinkedListAllocator::new();
    h.init();
    assert_eq!(h.block_count(), 1);
    assert_eq!(h.stats(), (HEAP_SIZE as usize - HEADER_SIZE, 0, 1));
}

#[test]
fn test_heap_scenario() {
    let mut h = LinkedListAllocator::new();
    h.init();
    let start = HEAP_START as usize;
    let p1 = h.allocate(64).unwrap();
    let p2 = h.allocate(128).unwrap();
    let p3 = h.allocate(256).unwrap();
    assert_eq!(p1, start + HEADER_SIZE);
    assert_eq!(p2, p1 + 64 + HEADER_SIZE);
    assert_eq!(p3, p2 + 128 + HEADER_SIZE);
    assert_eq!(h.block_count(), 4);
    check_conservation(&h);
    assert_eq!(h.stats().1, 64 + 128 + 256);

    assert!(h.free(p1));
    assert!(h.free(p2));
    // p1 and p2 merged into one free block
    assert_eq!(h.block_count(), 3);
    assert_eq!(h.block(0).size, 64 + HEADER_SIZE + 128);
    assert!(h.block(0).free);
    check_conservation(&h);

    // double free refused
    assert!(!h.free(p1));
    // p2's header was merged away: refused as well
    assert!(!h.free(p2));

    // the merged block is reused first
    let p4 = h.allocate(64).unwrap();
    assert_eq!(p4, p1);
    assert!(h.free(p4));
    assert!(h.free(p3));
    assert_eq!(h.block_count(), 1);
    assert_eq!(h.stats(), (HEAP_SIZE as usize - HEADER_SIZE, 0, 1));
}

#[test]
fn test_heap_rounding_and_small_requests() {
    let mut h = LinkedListAllocator::new();
    h.init();
    let p = h.allocate(0).unwrap();
    assert_eq!(h.block(0).size, 8);
    let q = h.allocate(13).unwrap();
    assert_eq!(q, p + 8 + HEADER_SIZE);
    assert_eq!(h.block(1).size, 16);
    assert_eq!(q % 8, 0);
}

#[test]
fn test_heap_no_split_for_small_remainder() {
    let mut h = LinkedListAllocator::new();
    h.init();
    let whole = HEAP_SIZE as usize - HEADER_SIZE;
    // leaving exactly HEADER_SIZE + ALIGN bytes: the block is not split
    let p = h.allocate(whole - 32).unwrap();
    assert_eq!(h.block_count(), 1);
    assert_eq!(h.block(0).size, whole);
    assert_eq!(h.allocate(1), None);
    assert!(h.free(p));
    // leaving one more alignment unit: split
    let q = h.allocate(whole - 40).unwrap();
    assert_eq!(q, p);
    assert_eq!(h.block_count(), 2);
    assert_eq!(h.block(1).size, 16);
}

#[test]
fn test_heap_too_large() {
    let mut h = LinkedListAllocator::new();
    h.init();
    assert_eq!(h.allocate(HEAP_SIZE as usize), None);
    assert_eq!(h.block_count(), 1);
}

#[test]
fn test_heap_invalid_free() {
    let mut h = LinkedListAllocator::new();
    h.init();
    let p = h.allocate(64).unwrap();
    assert!(!h.free(0));
    assert!(!h.free(p + 8));
    assert!(!h.free(12));
    assert!(h.free(p));
}

#[test]
fn test_heap_print_map() {
    let mut h = LinkedListAllocator::new();
    h.init();
    h.allocate(64).unwrap();
    let text = String::from_utf8(h.print_map()).unwrap();
    assert_eq!(
        text,
        "\n=== Linked List Allocateur ===\n  Bloc 0 @ 0x4000000 | size=64 | UTILISE\n  Bloc 1 @ 0x4000058 | size=8388496 | LIBRE\n=== Fin linked list ===\n\n"
    );
}

#[test]
fn test_heap_huge_request_before_init() {
    let mut h = LinkedListAllocator::new();
    assert!(!h.initialized());
    assert_eq!(h.allocate(usize::MAX), None);
    assert_eq!(h.allocate(usize::MAX - 7), None);
    assert!(!h.initialized());
    assert_eq!(h.block_count(), 0);
}

#[test]
fn test_heap_largest_roundable_request() {
    let mut h = LinkedListAllocator::new();
    h.init();
    assert!(h.initialized());
    assert_eq!(h.allocate(usize::MAX - 7), None);
    assert_eq!(h.block_count(), 1);
    assert_eq!(h.stats(), (HEAP_SIZE as usize - HEADER_SIZE, 0, 1));
}

#[test]
fn test_frame_free_count_steps() {
    let mut a = FrameAllocator::new();
    a.init();
    let before = a.free_count();
    let p = a.allocate().unwrap();
    assert_eq!(a.free_count(), before - 1);
    assert!(a.free(p));
    assert_eq!(a.free_count(), before);
    assert_eq!(a.allocate(), Some(p));
    while a.allocate().is_some() {}
    assert_eq!(a.free_count(), 0);
    assert!(a.free_count() <= a.total_count());
    assert!(!a.free(0));
    assert!(!a.free(p + FRAME_SIZE * 100));
    assert_eq!(a.free_count(), 0);
}
