//! Tests of the area frame allocator: distinct frames, exclusion ranges,
//! area hopping and exhaustion.

use nothingos::memory::area_frame_allocator::{AreaFrameAllocator, MemoryArea};
use nothingos::memory::FrameAllocator;

#[test]
fn frames_are_distinct_and_avoid_exclusions() {
    // area frames 0..=9; kernel occupies frames 2..=3, boot info frame 5
    let mut allocator = AreaFrameAllocator::new(
        2 * 4096,
        3 * 4096 + 4095,
        5 * 4096,
        5 * 4096 + 4095,
        vec![MemoryArea::new(0, 10 * 4096)],
    );
    let mut got = Vec::new();
    while let Some(frame) = allocator.allocate_frame() {
        got.push(frame.number);
    }
    // no two frames equal
    for i in 0..got.len() {
        for j in i + 1..got.len() {
            assert_ne!(got[i], got[j]);
        }
    }
    // no frame from the kernel image or the boot-information region
    for &f in got.iter() {
        assert!(!(2 <= f && f <= 3), "kernel frame {f} was handed out");
        assert_ne!(f, 5, "boot-information frame was handed out");
    }
    // everything else was handed out, lowest first
    assert_eq!(got, vec![0, 1, 4, 6, 7, 8, 9]);
}

#[test]
fn allocator_hops_between_areas() {
    let mut allocator = AreaFrameAllocator::new(
        100 * 4096,
        101 * 4096,
        200 * 4096,
        201 * 4096,
        vec![
            MemoryArea::new(8 * 4096, 2 * 4096),
            MemoryArea::new(0, 2 * 4096),
        ],
    );
    // the area with the lowest start serves first, then the next one
    let mut got = Vec::new();
    while let Some(frame) = allocator.allocate_frame() {
        got.push(frame.number);
    }
    assert_eq!(got, vec![0, 1, 8, 9]);
}

#[test]
fn exhausted_allocator_returns_none_forever() {
    let mut allocator =
        AreaFrameAllocator::new(0, 0, 0, 0, vec![MemoryArea::new(4096, 4096)]);
    assert!(allocator.allocate_frame().is_some());
    assert_eq!(allocator.allocate_frame(), None);
    assert_eq!(allocator.allocate_frame(), None);
}

#[test]
fn deallocate_frame_reclaims_nothing() {
    // frames are never reclaimed in this design
    let mut allocator =
        AreaFrameAllocator::new(0, 0, 0, 0, vec![MemoryArea::new(4096, 4096)]);
    let f = allocator.allocate_frame().unwrap();
    allocator.deallocate_frame(f);
    assert_eq!(allocator.allocate_frame(), None);
}
