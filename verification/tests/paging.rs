//! Tests of the page and frame addressing, the mapper, the active/inactive
//! protocol and the kernel remap.

use nothingos::memory::area_frame_allocator::{AreaFrameAllocator, MemoryArea};
use nothingos::memory::{Frame, FrameAllocator};
use nothingos::paging::entry::{
    ElfSectionInfo, Entry, EntryFlags, NO_EXECUTE, PRESENT, WRITABLE,
};
use nothingos::paging::recursion::{
    p1_table_page, p2_table_page, p3_table_page, table_page_address, P4_TABLE_ADDRESS,
    P4_TABLE_PAGE,
};
use nothingos::paging::remap::{kernel_bounds, remap_the_kernel, BootInformation, KernelRemapOp};
use nothingos::paging::{ActivePageTable, InactivePageTable, Page, TemporaryPage};
use nothingos::PAGE_SIZE;

fn small_allocator() -> AreaFrameAllocator {
    // one area of frames 100..=199; exclusions far away
    AreaFrameAllocator::new(
        10 * 4096,
        12 * 4096 - 1,
        0x20000,
        0x21fff,
        vec![MemoryArea::new(100 * 4096, 100 * 4096)],
    )
}

#[test]
fn page_index_decomposition() {
    let p = Page::containing_address(0o456_123_654_321 * 4096);
    assert_eq!(p.p1_index(), 0o321);
    assert_eq!(p.p2_index(), 0o654);
    assert_eq!(p.p3_index(), 0o123);
    assert_eq!(p.p4_index(), 0o456);
}

#[test]
fn page_containing_address_boundaries() {
    // the last low-half address and the first high-half address are taken
    let low = Page::containing_address(0x0000_7fff_ffff_ffff);
    assert_eq!(low.number, 0x0000_7fff_ffff_ffff / PAGE_SIZE);
    let high = Page::containing_address(0xffff_8000_0000_0000);
    assert_eq!(high.number, 0xffff_8000_0000_0000 / PAGE_SIZE);
}

#[test]
fn frame_containing_address() {
    assert_eq!(Frame::containing_address(0xb8000).number, 0xb8);
    assert_eq!(Frame::containing_address(4095).number, 0);
    assert_eq!(Frame::containing_address(4096).number, 1);
}

#[test]
fn frame_range_walks_inclusive() {
    let mut it = Frame::range_inclusive(Frame { number: 3 }, Frame { number: 5 });
    assert_eq!(it.next(), Some(Frame { number: 3 }));
    assert_eq!(it.next(), Some(Frame { number: 4 }));
    assert_eq!(it.next(), Some(Frame { number: 5 }));
    assert_eq!(it.next(), None);
}

#[test]
fn entry_flags_from_sections() {
    let code = ElfSectionInfo {
        start: 4096,
        end: 8192,
        allocated: true,
        writable: false,
        executable: true,
    };
    let data = ElfSectionInfo {
        start: 8192,
        end: 12288,
        allocated: true,
        writable: true,
        executable: false,
    };
    assert_eq!(EntryFlags::from_elf_section_flags(&code).bits, PRESENT);
    assert_eq!(
        EntryFlags::from_elf_section_flags(&data).bits,
        PRESENT | WRITABLE | NO_EXECUTE
    );
}

#[test]
fn map_then_translate_round_trip() {
    let mut allocator = small_allocator();
    let mut table = ActivePageTable::new(Frame { number: 500 });
    let page = Page::containing_address(0x4000_0000);
    let frame = Frame { number: 0xdead };
    table
        .mapper
        .map_to(page, frame, EntryFlags { bits: WRITABLE }, &mut allocator)
        .unwrap();
    // every offset inside the page lands at the frame's address plus offset
    for offset in [0u64, 1, 7, 4095] {
        let got = table.translate(0x4000_0000 + offset);
        assert_eq!(got, Some(0xdead * 4096 + offset));
    }
    // the flags stored are the requested ones plus the present flag
    let entry = table.mapper.walk_entry(page);
    assert_eq!(entry, Some((0xdead, WRITABLE | PRESENT)));
    // a neighbouring page stays unmapped
    assert_eq!(table.translate(0x4000_0000 + 4096), None);
}

#[test]
fn unmap_then_translate_none() {
    let mut allocator = small_allocator();
    let mut table = ActivePageTable::new(Frame { number: 500 });
    let page = Page::containing_address(0x4000_0000);
    let frame = Frame { number: 0x77 };
    table
        .mapper
        .map_to(page, frame, EntryFlags { bits: WRITABLE }, &mut allocator)
        .unwrap();
    assert!(table.translate(0x4000_0000).is_some());
    table.mapper.unmap(page, &mut allocator);
    assert_eq!(table.translate(0x4000_0000), None);
}

#[test]
fn map_fails_only_when_frames_run_out() {
    // an allocator with no usable area at all
    let mut empty = AreaFrameAllocator::new(0, 0, 0, 0, vec![]);
    assert_eq!(empty.allocate_frame(), None);
    let mut table = ActivePageTable::new(Frame { number: 500 });
    let page = Page::containing_address(0x4000_0000);
    let r = table
        .mapper
        .map(page, EntryFlags { bits: WRITABLE }, &mut empty);
    assert!(r.is_err());
}

#[test]
fn with_restores_recursive_slot() {
    let mut allocator = small_allocator();
    let mut active = ActivePageTable::new(Frame { number: 500 });
    let mut temp = TemporaryPage::new(Page {
        number: 0xdeadbeaf,
    });
    let new_frame = allocator.allocate_frame().unwrap();
    let mut inactive = InactivePageTable::new(new_frame, &mut active, &mut temp);
    let mut op = KernelRemapOp {
        sections: vec![],
        multiboot_start: 0x20000,
        multiboot_end: 0x21000,
        outcome: Ok(()),
    };
    active.with(&mut inactive, &mut temp, &mut op, &mut allocator);
    assert!(op.outcome.is_ok());
    // the active table's recursive slot points at its own frame again
    assert_eq!(active.mapper.recursive_slot_entry(), (500u64 << 12) | (PRESENT | WRITABLE));
}

#[test]
fn kernel_remap_maps_sections_and_video() {
    // the old top table lives in frame 2000, covered by the writable section
    let sections = vec![
        ElfSectionInfo {
            start: 10 * 4096,
            end: 12 * 4096,
            allocated: true,
            writable: false,
            executable: true,
        },
        ElfSectionInfo {
            start: 2000 * 4096,
            end: 2001 * 4096,
            allocated: true,
            writable: true,
            executable: false,
        },
        ElfSectionInfo {
            start: 50 * 4096,
            end: 51 * 4096,
            allocated: false,
            writable: true,
            executable: false,
        },
    ];
    let boot_info = BootInformation {
        sections,
        start_address: 0x20000,
        end_address: 0x22000,
    };
    let mut allocator = small_allocator();
    let active = ActivePageTable::new(Frame { number: 2000 });
    let table = remap_the_kernel(active, &mut allocator, boot_info).unwrap();
    // code section: identity mapped, executable, read-only
    assert_eq!(table.translate(10 * 4096 + 123), Some(10 * 4096 + 123));
    assert_eq!(table.translate(11 * 4096), Some(11 * 4096));
    assert_eq!(
        table.mapper.walk_entry(Page::containing_address(10 * 4096)),
        Some((10, PRESENT | PRESENT))
    );
    // VGA buffer: identity mapped and writable
    assert_eq!(table.translate(0xb8000), Some(0xb8000));
    assert_eq!(
        table.mapper.walk_entry(Page::containing_address(0xb8000)),
        Some((0xb8, WRITABLE | PRESENT))
    );
    // legacy video range
    assert_eq!(table.translate(0xa0000), Some(0xa0000));
    assert_eq!(table.translate(0xaf000 + 17), Some(0xaf000 + 17));
    // boot-information region: present
    assert_eq!(table.translate(0x20000), Some(0x20000));
    assert_eq!(table.translate(0x21fff), Some(0x21fff));
    // the not-allocated section is not mapped
    assert_eq!(table.translate(50 * 4096), None);
    // the old top table's page was unmapped and its frame reclaimed
    assert_eq!(table.translate(2000 * 4096), None);
}

#[test]
fn temporary_page_window() {
    let mut active = ActivePageTable::new(Frame { number: 500 });
    let mut temp = TemporaryPage::new(Page { number: 0x1000 });
    let addr = temp.map(Frame { number: 42 }, &mut active);
    assert_eq!(addr, 0x1000 * 4096);
    temp.unmap(&mut active);
}

#[test]
fn entry_stores_frame_and_flags() {
    let mut e = Entry::new(0);
    assert!(e.is_unused());
    assert_eq!(e.pointed_frame(), None);
    e.set(Frame { number: 0xb8 }, EntryFlags { bits: PRESENT | WRITABLE });
    assert!(!e.is_unused());
    assert_eq!(e.pointed_frame(), Some(Frame { number: 0xb8 }));
    assert_eq!(e.flags().bits, PRESENT | WRITABLE);
    e.set_unused();
    assert_eq!(e.pointed_frame(), None);
}

#[test]
fn entry_flag_operations() {
    let f = EntryFlags::empty().union(EntryFlags { bits: PRESENT });
    assert!(f.contains(EntryFlags { bits: PRESENT }));
    assert!(!f.contains(EntryFlags { bits: WRITABLE }));
    let truncated = EntryFlags::from_bits_truncate(0xffff);
    assert_eq!(truncated.bits, 0x1ff);
}

#[test]
fn page_start_address() {
    let p = Page::containing_address(0x4000_0123);
    assert_eq!(p.start_address(), 0x4000_0000);
}

#[test]
fn recursive_addresses_have_fixed_shape() {
    // the level-4 table reads itself at the top of the address space
    assert_eq!(table_page_address(P4_TABLE_PAGE), P4_TABLE_ADDRESS);
    // each synthesized page decomposes into the recursive slot plus the
    // ancestor indices
    let p3 = Page { number: p3_table_page(7) };
    assert_eq!(p3.p4_index(), 511);
    assert_eq!(p3.p3_index(), 511);
    assert_eq!(p3.p2_index(), 511);
    assert_eq!(p3.p1_index(), 7);
    let p2 = Page { number: p2_table_page(1, 2) };
    assert_eq!(p2.p2_index(), 1);
    assert_eq!(p2.p1_index(), 2);
    let p1 = Page { number: p1_table_page(1, 2, 3) };
    assert_eq!(p1.p3_index(), 1);
    assert_eq!(p1.p2_index(), 2);
    assert_eq!(p1.p1_index(), 3);
}

#[test]
fn kernel_bounds_span_all_sections() {
    let sections = vec![
        ElfSectionInfo {
            start: 0x103000,
            end: 0x105000,
            allocated: true,
            writable: true,
            executable: false,
        },
        ElfSectionInfo {
            start: 0x100000,
            end: 0x103000,
            allocated: true,
            writable: false,
            executable: true,
        },
    ];
    assert_eq!(kernel_bounds(&sections), Some((0x100000, 0x105000)));
    assert_eq!(kernel_bounds(&vec![]), None);
}
