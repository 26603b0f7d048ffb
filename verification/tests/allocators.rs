//! Tests of the two heap allocation strategies.

use nothingos::allocator::Allocator;
use nothingos::buddy_allocator::BuddyAllocator;

#[test]
fn metadata_allocator_reuses_freed_block() {
    // a fresh heap serves two blocks, and after freeing the first, a
    // same-size request gets exactly the first block's address again
    let mut heap = Allocator::new(0x1000, 0x1000);
    let p1 = heap.allocate(16, 8).unwrap();
    let p2 = heap.allocate(32, 8).unwrap();
    assert!(p1 + 16 <= p2 || p2 + 32 <= p1, "blocks overlap: {p1:#x} {p2:#x}");
    assert!(heap.dealloc(p1, 16));
    let p3 = heap.allocate(16, 8).unwrap();
    assert_eq!(p3, p1);
}

#[test]
fn metadata_allocator_alignment() {
    let mut heap = Allocator::new(0x1001, 0x1000);
    let p = heap.allocate(8, 8).unwrap();
    assert_eq!(p % 8, 0);
    let q = heap.allocate(8, 16).unwrap();
    assert_eq!(q % 16, 0);
    // large alignments hold too: the payload is what gets aligned
    let r = heap.allocate(8, 64).unwrap();
    assert_eq!(r % 64, 0);
    let s = heap.allocate(16, 256).unwrap();
    assert_eq!(s % 256, 0);
}

#[test]
fn metadata_allocator_out_of_space() {
    let mut heap = Allocator::new(0x1000, 64);
    // 16 bytes of header and 32 bytes of payload fit, nothing more after it
    assert!(heap.allocate(32, 8).is_some());
    assert!(heap.allocate(64, 8).is_none());
}

#[test]
fn metadata_allocator_dealloc_mismatch_is_ignored() {
    let mut heap = Allocator::new(0x1000, 0x1000);
    let p = heap.allocate(16, 8).unwrap();
    // wrong size: nothing flips
    assert!(!heap.dealloc(p, 24));
    // wild pointer: nothing flips
    assert!(!heap.dealloc(0x1004, 16));
    // right size: accepted
    assert!(heap.dealloc(p, 16));
}

#[test]
fn buddy_allocator_fixture() {
    // a 256-byte region serves the reference sizes, each block aligned to
    // its size and no two blocks overlapping
    let start: u64 = 0x1000;
    let mut heap: BuddyAllocator<64> = BuddyAllocator::new(start, 256);
    let sizes: [u64; 8] = [16, 32, 16, 32, 8, 8, 16, 128];
    let mut ranges: Vec<(u64, u64)> = Vec::new();
    for &size in sizes.iter() {
        let ptr = heap.allocate(size);
        assert!(ptr.is_some(), "allocation failed for size {size}");
        let ptr = ptr.unwrap();
        assert_eq!(ptr % size, 0, "pointer {ptr:#x} not aligned to {size}");
        assert!(ptr >= start && ptr + size <= start + 256);
        ranges.push((ptr, ptr + size - 1));
    }
    for i in 0..ranges.len() {
        for j in i + 1..ranges.len() {
            let (si, ei) = ranges[i];
            let (sj, ej) = ranges[j];
            assert!(ei < sj || ej < si, "overlap: {si:#x}..{ei:#x} and {sj:#x}..{ej:#x}");
        }
    }
}

#[test]
fn buddy_allocator_exhaustion() {
    let mut heap: BuddyAllocator<64> = BuddyAllocator::new(0x2000, 64);
    assert!(heap.allocate(64).is_some());
    // every byte is counted as handed out: nothing more comes
    assert!(heap.allocate(8).is_none());
}

#[test]
fn buddy_allocator_too_large() {
    let mut heap: BuddyAllocator<64> = BuddyAllocator::new(0x2000, 64);
    // no order holds a block this large
    assert!(heap.allocate(128).is_none());
}

#[test]
fn buddy_allocator_dealloc_rejects_unaccountable_blocks() {
    let mut heap: BuddyAllocator<64> = BuddyAllocator::new(0x2000, 64);
    let p = heap.allocate(16).unwrap();
    // misaligned, out of range, oversized, or more bytes than are out
    assert!(!heap.dealloc(p + 1, 16));
    assert!(!heap.dealloc(0x100, 16));
    assert!(!heap.dealloc(0x2000, 128));
    assert!(!heap.dealloc(p, 32));
    // the block itself goes back
    assert!(heap.dealloc(p, 16));
}

#[test]
fn buddy_allocator_dealloc_accepts_block_back() {
    let mut heap: BuddyAllocator<64> = BuddyAllocator::new(0x2000, 64);
    let p = heap.allocate(16).unwrap();
    assert!(heap.dealloc(p, 16));
    // the freed block serves a same-size request again
    assert!(heap.allocate(16).is_some());
}
