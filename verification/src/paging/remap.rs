//! Kernel remap: build a fresh address space that identity-maps every
//! loaded ELF section, the VGA text buffer, the legacy video range and the
//! boot-information region, switch to it, and reclaim the old top table.

use vstd::prelude::*;

verus! {

use crate::PAGE_SIZE;
use crate::memory::{Frame, FrameAllocator, FRAME_LIMIT};
use crate::paging::{
    Page,
    ActivePageTable,
    InactivePageTable,
    TemporaryPage,
    MapperOp,
    spec_p4_index,
};
use crate::paging::entry::{
    entry_for,
    ElfSectionInfo,
    EntryFlags,
    PRESENT,
    WRITABLE,
    NO_EXECUTE,
    HUGE_PAGE,
    FLAGS_MASK,
};
use crate::paging::table::{StoreView, store_wf, walk, page_canonical, walks_preserved, slot_updated, lemma_low_frame_canonical};
use crate::paging::mapper::{Mapper, MapError, mapper_disjoint, levels_extend};

/// Frame of the VGA text buffer (physical address 0xb8000).
pub const VGA_FRAME: u64 = 0xb8;

/// First frame of the legacy video memory range (physical 0xA0000).
pub const VIDEO_FIRST_FRAME: u64 = 0xa0;

/// Last frame of the legacy video memory range (physical 0xAF000).
pub const VIDEO_LAST_FRAME: u64 = 0xaf;

/// The page used as scratch space while tables are built.
pub const TEMPORARY_PAGE_NUMBER: u64 = 0xdeadbeaf;

/// What the remap step consumes from the bootloader: the ELF section list
/// and the bounds of the boot-information region.
pub struct BootInformation {
    /// The kernel's ELF sections.
    pub sections: Vec<ElfSectionInfo>,
    /// First physical address of the boot-information region.
    pub start_address: u64,
    /// One past the last physical address of the boot-information region.
    pub end_address: u64,
}

/// Section `sec` spans frame `f` (only loaded sections span anything).
pub open spec fn sec_covers(sec: ElfSectionInfo, f: u64) -> bool {
    sec.allocated && sec.start / PAGE_SIZE <= f <= ((sec.end - 1) as u64) / PAGE_SIZE
}

/// The flag bits the remap gives a section's frames.
pub open spec fn remap_flags(sec: ElfSectionInfo) -> u64 {
    (if sec.allocated {
        PRESENT
    } else {
        0
    }) | (if sec.writable {
        WRITABLE
    } else {
        0
    }) | (if sec.executable {
        0
    } else {
        NO_EXECUTE
    })
}

/// Every walk of a canonical page outside `[lo, hi]` from `root`, and every
/// walk from any other level-4 root, is the same in `s1` as in `s0`.
pub open spec fn walks_preserved_outside_range(
    s0: StoreView,
    lv0: Map<u64, nat>,
    s1: StoreView,
    root: u64,
    lo: u64,
    hi: u64,
) -> bool {
    forall|r: u64, q: u64|
        s0.contains_key(r) && lv0[r] == 4 && page_canonical(q) && spec_p4_index(q) != 511 && !(r
            == root && lo <= q <= hi) ==> walk(s1, r, q) == #[trigger] walk(s0, r, q)
}

/// Identity-map every frame from `lo` to `hi` (both included) with `flags`.
///
/// Fails only when the allocator runs out of frames; even then the walks of
/// pages outside the range are untouched.
pub fn map_frame_range<A: FrameAllocator>(
    mapper: &mut Mapper,
    allocator: &mut A,
    lo: u64,
    hi: u64,
    flags: EntryFlags,
) -> (r: Result<(), MapError>)
    requires
        old(mapper).wf(),
        old(allocator).inv(),
        mapper_disjoint(*old(mapper), *old(allocator)),
        lo <= hi,
        hi < 0x8_0000_0000,
        forall|f: u64| lo <= f <= hi ==> old(mapper).walk_page(f) == None::<(u64, u64)>,
        flags.bits & FLAGS_MASK == flags.bits,
    ensures
        final(mapper).wf(),
        final(allocator).inv(),
        mapper_disjoint(*final(mapper), *final(allocator)),
        final(mapper).root() == old(mapper).root(),
        levels_extend(old(mapper).lv(), final(mapper).lv()),
        forall|g: u64| final(allocator).grantable(g) ==> old(allocator).grantable(g),
        walks_preserved_outside_range(
            old(mapper).store(),
            old(mapper).lv(),
            final(mapper).store(),
            old(mapper).root(),
            lo,
            hi,
        ),
        (match r {
            Ok(_) => forall|f: u64|
                lo <= f <= hi ==> final(mapper).walk_page(f) == Some((f, flags.bits | PRESENT)),
            Err(e) => e == MapError::FrameExhausted && (forall|g: u64|
                !final(allocator).grantable(g)),
        }),
{
    let ghost s0 = old(mapper).store();
    let ghost lv0 = old(mapper).lv();
    let ghost root = old(mapper).root();
    let mut it = crate::memory::FrameIter { start: Frame { number: lo }, end: Frame { number: hi } };
    while it.start.number <= it.end.number
        invariant
            mapper.wf(),
            allocator.inv(),
            mapper_disjoint(*mapper, *allocator),
            mapper.root() == root,
            levels_extend(lv0, mapper.lv()),
            forall|g: u64| allocator.grantable(g) ==> old(allocator).grantable(g),
            it.end.number == hi,
            hi < 0x8_0000_0000,
            lo <= it.start.number,
            it.start.number <= hi + 1,
            s0 == old(mapper).store(),
            lv0 == old(mapper).lv(),
            root == old(mapper).root(),
            store_wf(s0, lv0),
            store_wf_begin(s0, lv0, root),
            walks_preserved_outside_range(s0, lv0, mapper.store(), root, lo, hi),
            forall|f: u64|
                lo <= f < it.start.number ==> mapper.walk_page(f) == Some(
                    (f, flags.bits | PRESENT),
                ),
            forall|f: u64| it.start.number <= f <= hi ==> mapper.walk_page(f) == None::<(u64, u64)>,
            flags.bits & FLAGS_MASK == flags.bits,
        decreases hi + 1 - it.start.number,
    {
        let ghost m0 = *mapper;
        let ghost s_iter = mapper.store();
        let ghost lv_iter = mapper.lv();
        proof {
            assert(store_wf(s_iter, lv_iter));
            assert(levels_extend(lv0, lv_iter));
        }
        let frame = match it.next() {
            Some(f) => f,
            None => {
                proof {
                    assert(false);
                }
                return Err(MapError::FrameExhausted);
            },
        };
        proof {
            lemma_low_frame_canonical(frame.number);
        }
        let res = mapper.identity_map(frame, flags, allocator);
        match res {
            Ok(_) => {
                proof {
                    assert forall|rr: u64, q: u64|
                        s0.contains_key(rr) && lv0[rr] == 4 && page_canonical(q) && spec_p4_index(
                            q,
                        ) != 511 && !(rr == root && lo <= q <= hi) implies walk(
                        mapper.store(),
                        rr,
                        q,
                    ) == walk(s0, rr, q) by {
                        assert(lv0.contains_key(rr));
                        assert(lv_iter.contains_key(rr) && lv_iter[rr] == 4);
                        assert(s_iter.contains_key(rr));
                        assert(walk(mapper.store(), rr, q) == walk(s_iter, rr, q));
                    }
                    assert forall|f: u64| it.start.number <= f <= hi implies mapper.walk_page(f)
                        == None::<(u64, u64)> by {
                        lemma_low_frame_canonical(f);
                        assert(s_iter.contains_key(root) && lv_iter[root] == 4);
                        assert(walk(mapper.store(), root, f) == walk(s_iter, root, f));
                        assert(m0.walk_page(f) == None::<(u64, u64)>);
                        assert(walk(s_iter, root, f) == m0.walk_page(f));
                    }
                    assert forall|f: u64| lo <= f < it.start.number implies mapper.walk_page(f)
                        == Some((f, flags.bits | PRESENT)) by {
                        if f != frame.number {
                            lemma_low_frame_canonical(f);
                            assert(s_iter.contains_key(root) && lv_iter[root] == 4);
                            assert(walk(mapper.store(), root, f) == walk(s_iter, root, f));
                            assert(m0.walk_page(f) == Some((f, flags.bits | PRESENT)));
                            assert(walk(s_iter, root, f) == m0.walk_page(f));
                        }
                    }
                }
            },
            Err(e) => {
                proof {
                    assert forall|rr: u64, q: u64|
                        s0.contains_key(rr) && lv0[rr] == 4 && page_canonical(q) && spec_p4_index(
                            q,
                        ) != 511 && !(rr == root && lo <= q <= hi) implies walk(
                        mapper.store(),
                        rr,
                        q,
                    ) == walk(s0, rr, q) by {
                        assert(lv0.contains_key(rr));
                        assert(lv_iter.contains_key(rr) && lv_iter[rr] == 4);
                        assert(s_iter.contains_key(rr));
                        assert(walk(mapper.store(), rr, q) == walk(s_iter, rr, q));
                    }
                }
                return Err(e);
            },
        }
    }
    Ok(())
}

/// The walk-root survives in the store across the range loop.
pub open spec fn store_wf_begin(s0: StoreView, lv0: Map<u64, nat>, root: u64) -> bool {
    s0.contains_key(root) && lv0[root] == 4
}


/// Some loaded section of the list spans frame `f`.
pub open spec fn any_sec_covers(sections: Seq<ElfSectionInfo>, f: u64) -> bool {
    exists|i: int| 0 <= i < sections.len() && #[trigger] sec_covers(sections[i], f)
}

/// Some of the first `upto` sections spans frame `f`.
pub open spec fn covered_upto(sections: Seq<ElfSectionInfo>, upto: int, f: u64) -> bool {
    exists|i: int| 0 <= i < upto && #[trigger] sec_covers(sections[i], f)
}

/// The section list the remap step accepts: every loaded section is
/// page-aligned, non-empty, lies in the low canonical half, and no frame
/// belongs to two sections.
pub open spec fn sections_wf(sections: Seq<ElfSectionInfo>) -> bool {
    &&& forall|i: int|
        0 <= i < sections.len() && (#[trigger] sections[i]).allocated ==> sections[i].start
            % PAGE_SIZE == 0 && sections[i].start < sections[i].end && ((sections[i].end
            - 1) as u64) / PAGE_SIZE < 0x8_0000_0000
    &&& forall|i: int, j: int, f: u64|
        0 <= i < sections.len() && 0 <= j < sections.len() && i != j ==> !(#[trigger] sec_covers(
            sections[i],
            f,
        ) && #[trigger] sec_covers(sections[j], f))
}

/// Identity-map every frame of every loaded section, with flags derived
/// from the section's own.
pub fn map_sections<A: FrameAllocator>(
    mapper: &mut Mapper,
    allocator: &mut A,
    sections: &Vec<ElfSectionInfo>,
) -> (r: Result<(), MapError>)
    requires
        old(mapper).wf(),
        old(allocator).inv(),
        mapper_disjoint(*old(mapper), *old(allocator)),
        sections_wf(sections@),
        forall|f: u64|
            any_sec_covers(sections@, f) ==> old(mapper).walk_page(f) == None::<(u64, u64)>,
    ensures
        final(mapper).wf(),
        final(allocator).inv(),
        mapper_disjoint(*final(mapper), *final(allocator)),
        final(mapper).root() == old(mapper).root(),
        levels_extend(old(mapper).lv(), final(mapper).lv()),
        forall|g: u64| final(allocator).grantable(g) ==> old(allocator).grantable(g),
        forall|rr: u64, q: u64|
            old(mapper).store().contains_key(rr) && old(mapper).lv()[rr] == 4 && page_canonical(q)
                && spec_p4_index(q) != 511 && !(rr == old(mapper).root() && any_sec_covers(
                sections@,
                q,
            )) ==> walk(final(mapper).store(), rr, q) == #[trigger] walk(
                old(mapper).store(),
                rr,
                q,
            ),
        (match r {
            Ok(_) => forall|i: int, f: u64|
                0 <= i < sections@.len() && #[trigger] sec_covers(sections@[i], f)
                    ==> final(mapper).walk_page(f) == Some((f, remap_flags(sections@[i]) | PRESENT)),
            Err(e) => e == MapError::FrameExhausted && (forall|g: u64|
                !final(allocator).grantable(g)),
        }),
{
    let ghost s0 = old(mapper).store();
    let ghost lv0 = old(mapper).lv();
    let ghost root = old(mapper).root();
    let mut i: usize = 0;
    while i < sections.len()
        invariant
            mapper.wf(),
            allocator.inv(),
            mapper_disjoint(*mapper, *allocator),
            mapper.root() == root,
            levels_extend(lv0, mapper.lv()),
            forall|g: u64| allocator.grantable(g) ==> old(allocator).grantable(g),
            i <= sections@.len(),
            s0 == old(mapper).store(),
            lv0 == old(mapper).lv(),
            root == old(mapper).root(),
            store_wf(s0, lv0),
            store_wf_begin(s0, lv0, root),
            sections_wf(sections@),
            forall|f: u64| any_sec_covers(sections@, f) ==> walk(s0, root, f) == None::<(u64, u64)>,
            forall|rr: u64, q: u64|
                s0.contains_key(rr) && lv0[rr] == 4 && page_canonical(q) && spec_p4_index(q) != 511
                    && !(rr == root && covered_upto(sections@, i as int, q)) ==> walk(
                    mapper.store(),
                    rr,
                    q,
                ) == #[trigger] walk(s0, rr, q),
            forall|j: int, f: u64|
                0 <= j < i && #[trigger] sec_covers(sections@[j], f) ==> mapper.walk_page(f)
                    == Some((f, remap_flags(sections@[j]) | PRESENT)),
        decreases sections@.len() - i,
    {
        let sec = sections[i];
        if sec.allocated {
            let flags = EntryFlags::from_elf_section_flags(&sec);
            proof {
                let a: u64 = if sec.allocated { PRESENT } else { 0 };
                let b: u64 = if sec.writable { WRITABLE } else { 0 };
                let c: u64 = if sec.executable { 0 } else { NO_EXECUTE };
                assert((a | b | c) & 0x8000_0000_0000_01ff == (a | b | c)) by (bit_vector)
                    requires
                        (a == 0 || a == 1) && (b == 0 || b == 2) && (c == 0 || c
                            == 0x8000_0000_0000_0000),
                ;
                assert(flags.bits == remap_flags(sec));
            }
            let lo = sec.start / PAGE_SIZE;
            let hi = (sec.end - 1) / PAGE_SIZE;
            proof {
                assert(lo <= hi) by (nonlinear_arith)
                    requires
                        lo == sec.start / 4096,
                        hi == ((sec.end - 1) as u64) / 4096,
                        sec.start < sec.end,
                ;
                assert forall|f: u64| lo <= f <= hi implies mapper.walk_page(f) == None::<(
                    u64,
                    u64,
                )> by {
                    assert(sec_covers(sections@[i as int], f));
                    assert(any_sec_covers(sections@, f));
                    lemma_low_frame_canonical(f);
                    if covered_upto(sections@, i as int, f) {
                        let j = choose|j: int|
                            0 <= j < i && #[trigger] sec_covers(sections@[j], f);
                        assert(false);
                    }
                    assert(walk(mapper.store(), root, f) == walk(s0, root, f));
                }
            }
            let ghost m_before = *mapper;
            let ghost s_before = mapper.store();
            let ghost lv_before = mapper.lv();
            proof {
                assert(store_wf(s_before, lv_before));
                assert(levels_extend(lv0, lv_before));
            }
            match map_frame_range(mapper, allocator, lo, hi, flags) {
                Ok(_) => {
                    proof {
                        assert forall|rr: u64, q: u64|
                            s0.contains_key(rr) && lv0[rr] == 4 && page_canonical(q)
                                && spec_p4_index(q) != 511 && !(rr == root && covered_upto(
                                sections@,
                                i as int + 1,
                                q,
                            )) implies walk(mapper.store(), rr, q) == walk(s0, rr, q) by {
                            assert(lv0.contains_key(rr));
                            assert(lv_before.contains_key(rr) && lv_before[rr] == 4);
                            assert(s_before.contains_key(rr));
                            if rr == root && lo <= q <= hi {
                                assert(sec_covers(sections@[i as int], q));
                                assert(covered_upto(sections@, i as int + 1, q));
                                assert(false);
                            }
                            assert(walk(mapper.store(), rr, q) == walk(s_before, rr, q));
                            if rr == root && covered_upto(sections@, i as int, q) {
                                assert(covered_upto(sections@, i as int + 1, q));
                                assert(false);
                            }
                        }
                        assert forall|j: int, f: u64|
                            0 <= j < i + 1 && #[trigger] sec_covers(sections@[j], f) implies walk(
                            mapper.store(),
                            root,
                            f,
                        ) == Some((f, remap_flags(sections@[j]) | PRESENT)) by {
                            lemma_low_frame_canonical(f);
                            if j == i {
                                assert(lo <= f <= hi);
                                assert(mapper.walk_page(f) == Some((f, flags.bits | PRESENT)));
                            } else {
                                if lo <= f <= hi {
                                    assert(sec_covers(sections@[i as int], f));
                                    assert(false);
                                }
                                assert(s_before.contains_key(root) && lv_before[root] == 4);
                                assert(walk(mapper.store(), root, f) == walk(s_before, root, f));
                                assert(m_before.walk_page(f) == Some(
                                    (f, remap_flags(sections@[j]) | PRESENT),
                                ));
                                assert(walk(s_before, root, f) == m_before.walk_page(f));
                            }
                        }
                    }
                },
                Err(e) => {
                    proof {
                        assert forall|rr: u64, q: u64|
                            s0.contains_key(rr) && lv0[rr] == 4 && page_canonical(q)
                                && spec_p4_index(q) != 511 && !(rr == root && any_sec_covers(
                                sections@,
                                q,
                            )) implies walk(mapper.store(), rr, q) == walk(s0, rr, q) by {
                            assert(lv0.contains_key(rr));
                            assert(lv_before.contains_key(rr) && lv_before[rr] == 4);
                            assert(s_before.contains_key(rr));
                            if rr == root && lo <= q <= hi {
                                assert(sec_covers(sections@[i as int], q));
                                assert(any_sec_covers(sections@, q));
                                assert(false);
                            }
                            assert(walk(mapper.store(), rr, q) == walk(s_before, rr, q));
                            if rr == root && covered_upto(sections@, i as int, q) {
                                assert(any_sec_covers(sections@, q));
                                assert(false);
                            }
                        }
                    }
                    return Err(e);
                },
            }
        }
        i = i + 1;
    }
    proof {
        assert forall|rr: u64, q: u64|
            s0.contains_key(rr) && lv0[rr] == 4 && page_canonical(q) && spec_p4_index(q) != 511
                && !(rr == root && any_sec_covers(sections@, q)) implies walk(
            mapper.store(),
            rr,
            q,
        ) == walk(s0, rr, q) by {
            if rr == root && covered_upto(sections@, sections@.len() as int, q) {
                assert(any_sec_covers(sections@, q));
                assert(false);
            }
        }
    }
    Ok(())
}


/// The boot-information region spans frame `f`.
pub open spec fn mb_covers(mb_start: u64, mb_end: u64, f: u64) -> bool {
    mb_start / PAGE_SIZE <= f <= ((mb_end - 1) as u64) / PAGE_SIZE
}

/// One of the frames the kernel remap maps: a loaded section's frame, the
/// VGA text buffer, the legacy video range, or the boot-information region.
pub open spec fn remap_target(
    sections: Seq<ElfSectionInfo>,
    mb_start: u64,
    mb_end: u64,
    f: u64,
) -> bool {
    ||| any_sec_covers(sections, f)
    ||| f == VGA_FRAME
    ||| VIDEO_FIRST_FRAME <= f <= VIDEO_LAST_FRAME
    ||| mb_covers(mb_start, mb_end, f)
}

/// The work done while the new address space is exposed: identity-map the
/// loaded sections with their own flags, the VGA buffer and video range as
/// writable, and the boot-information region as present.
pub struct KernelRemapOp {
    /// The kernel's ELF sections.
    pub sections: Vec<ElfSectionInfo>,
    /// First physical address of the boot-information region.
    pub multiboot_start: u64,
    /// One past the last physical address of the boot-information region.
    pub multiboot_end: u64,
    /// Whether the mapping work completed, set by the run.
    pub outcome: Result<(), MapError>,
}

impl<A: FrameAllocator> MapperOp<A> for KernelRemapOp {
    open spec fn op_requires(&self, s: StoreView, lv: Map<u64, nat>, root: u64, a: A) -> bool {
        &&& sections_wf(self.sections@)
        &&& self.multiboot_start < self.multiboot_end
        &&& ((self.multiboot_end - 1) as u64) / PAGE_SIZE < 0x8_0000_0000
        &&& forall|f: u64|
            #[trigger] any_sec_covers(self.sections@, f) ==> f != VGA_FRAME && !(VIDEO_FIRST_FRAME
                <= f <= VIDEO_LAST_FRAME) && !mb_covers(self.multiboot_start, self.multiboot_end, f)
        &&& forall|f: u64|
            #[trigger] mb_covers(self.multiboot_start, self.multiboot_end, f) ==> f != VGA_FRAME
                && !(VIDEO_FIRST_FRAME <= f <= VIDEO_LAST_FRAME)
        &&& forall|f: u64|
            #[trigger] remap_target(self.sections@, self.multiboot_start, self.multiboot_end, f)
                ==> walk(s, root, f) == None::<(u64, u64)>
    }

    open spec fn op_ensures(
        &self,
        s0: StoreView,
        lv0: Map<u64, nat>,
        root: u64,
        a0: A,
        new_self: Self,
        s1: StoreView,
        lv1: Map<u64, nat>,
        a1: A,
    ) -> bool {
        &&& new_self.sections@ == self.sections@
        &&& new_self.multiboot_start == self.multiboot_start
        &&& new_self.multiboot_end == self.multiboot_end
        &&& (match new_self.outcome {
            Ok(_) => {
                &&& forall|i: int, f: u64|
                    0 <= i < self.sections@.len() && #[trigger] sec_covers(self.sections@[i], f)
                        ==> walk(s1, root, f) == Some((f, remap_flags(self.sections@[i]) | PRESENT))
                &&& walk(s1, root, VGA_FRAME) == Some((VGA_FRAME, WRITABLE | PRESENT))
                &&& forall|f: u64|
                    VIDEO_FIRST_FRAME <= f <= VIDEO_LAST_FRAME ==> walk(s1, root, f) == Some(
                        (f, WRITABLE | PRESENT),
                    )
                &&& forall|f: u64|
                    #[trigger] mb_covers(self.multiboot_start, self.multiboot_end, f) ==> walk(
                        s1,
                        root,
                        f,
                    ) == Some((f, PRESENT))
                &&& forall|rr: u64, q: u64|
                    s0.contains_key(rr) && lv0[rr] == 4 && page_canonical(q) && spec_p4_index(q)
                        != 511 && !(rr == root && remap_target(
                        self.sections@,
                        self.multiboot_start,
                        self.multiboot_end,
                        q,
                    )) ==> walk(s1, rr, q) == #[trigger] walk(s0, rr, q)
            },
            Err(e) => e == MapError::FrameExhausted && (forall|g: u64| !a1.grantable(g)),
        })
    }

    fn run(&mut self, mapper: &mut Mapper, allocator: &mut A) {
        let ghost s0 = mapper.store();
        let ghost lv0 = mapper.lv();
        let ghost root = mapper.root();
        let ghost secs = self.sections@;
        let ghost mbs = self.multiboot_start;
        let ghost mbe = self.multiboot_end;
        proof {
            assert forall|f: u64| any_sec_covers(secs, f) implies walk(s0, root, f) == None::<(
                u64,
                u64,
            )> by {
                assert(remap_target(secs, mbs, mbe, f));
            }
        }
        let r1 = map_sections(mapper, allocator, &self.sections);
        match r1 {
            Err(e) => {
                self.outcome = Err(e);
                return ;
            },
            Ok(_) => {},
        }
        let ghost m1 = *mapper;
        let ghost s1 = mapper.store();
        let ghost lv1 = mapper.lv();
        proof {
            assert(store_wf(s1, lv1));
            assert(levels_extend(lv0, lv1));
            assert(s1.contains_key(root) && lv1[root] == 4);
            assert(s0.contains_key(root) && lv0[root] == 4);
            lemma_low_frame_canonical(VGA_FRAME);
            crate::paging::entry::lemma_common_flags();
            assert(!any_sec_covers(secs, VGA_FRAME));
            assert(remap_target(secs, mbs, mbe, VGA_FRAME));
            assert(walk(s1, root, VGA_FRAME) == walk(s0, root, VGA_FRAME));
        }
        let r2 = map_frame_range(mapper, allocator, VGA_FRAME, VGA_FRAME, EntryFlags {
            bits: WRITABLE });
        match r2 {
            Err(e) => {
                self.outcome = Err(e);
                return ;
            },
            Ok(_) => {},
        }
        let ghost m2 = *mapper;
        let ghost s2 = mapper.store();
        let ghost lv2 = mapper.lv();
        proof {
            assert(store_wf(s2, lv2));
            assert(s2.contains_key(root) && lv2[root] == 4);
            assert forall|f: u64| VIDEO_FIRST_FRAME <= f <= VIDEO_LAST_FRAME implies mapper.walk_page(
                f,
            ) == None::<(u64, u64)> by {
                lemma_low_frame_canonical(f);
                assert(!any_sec_covers(secs, f));
                assert(remap_target(secs, mbs, mbe, f));
                assert(walk(s1, root, f) == walk(s0, root, f));
                assert(walk(s2, root, f) == walk(s1, root, f));
            }
        }
        let r3 = map_frame_range(mapper, allocator, VIDEO_FIRST_FRAME, VIDEO_LAST_FRAME, EntryFlags {
            bits: WRITABLE });
        match r3 {
            Err(e) => {
                self.outcome = Err(e);
                return ;
            },
            Ok(_) => {},
        }
        let ghost m3 = *mapper;
        let ghost s3 = mapper.store();
        let ghost lv3 = mapper.lv();
        let mb_lo = self.multiboot_start / PAGE_SIZE;
        let mb_hi = (self.multiboot_end - 1) / PAGE_SIZE;
        proof {
            assert(store_wf(s3, lv3));
            assert(s3.contains_key(root) && lv3[root] == 4);
            assert(mb_lo <= mb_hi) by (nonlinear_arith)
                requires
                    mb_lo == mbs / 4096,
                    mb_hi == ((mbe - 1) as u64) / 4096,
                    mbs < mbe,
            ;
            assert forall|f: u64| mb_lo <= f <= mb_hi implies mapper.walk_page(f) == None::<(
                u64,
                u64,
            )> by {
                lemma_low_frame_canonical(f);
                assert(mb_covers(mbs, mbe, f));
                assert(!any_sec_covers(secs, f));
                assert(f != VGA_FRAME && !(VIDEO_FIRST_FRAME <= f <= VIDEO_LAST_FRAME));
                assert(remap_target(secs, mbs, mbe, f));
                assert(walk(s1, root, f) == walk(s0, root, f));
                assert(walk(s2, root, f) == walk(s1, root, f));
                assert(walk(s3, root, f) == walk(s2, root, f));
            }
        }
        let r4 = map_frame_range(mapper, allocator, mb_lo, mb_hi, EntryFlags { bits: PRESENT });
        match r4 {
            Err(e) => {
                self.outcome = Err(e);
                return ;
            },
            Ok(_) => {},
        }
        let ghost s4 = mapper.store();
        let ghost lv4m = mapper.lv();
        proof {
            crate::paging::entry::lemma_common_flags();
            // preservation of the three earlier phases under the later ones
            assert forall|rr: u64, q: u64|
                s0.contains_key(rr) && lv0[rr] == 4 && page_canonical(q) && spec_p4_index(q) != 511
                    && !(rr == root && remap_target(secs, mbs, mbe, q)) implies walk(s4, rr, q)
                == walk(s0, rr, q) by {
                assert(lv0.contains_key(rr));
                assert(lv1.contains_key(rr) && lv1[rr] == 4 && s1.contains_key(rr));
                assert(lv2.contains_key(rr) && lv2[rr] == 4 && s2.contains_key(rr));
                assert(lv3.contains_key(rr) && lv3[rr] == 4 && s3.contains_key(rr));
                assert(walk(s1, rr, q) == walk(s0, rr, q));
                assert(walk(s2, rr, q) == walk(s1, rr, q));
                assert(walk(s3, rr, q) == walk(s2, rr, q));
                assert(walk(s4, rr, q) == walk(s3, rr, q));
            }
            // section mappings survive the three later phases
            assert forall|i: int, f: u64|
                0 <= i < secs.len() && #[trigger] sec_covers(secs[i], f) implies walk(s4, root, f)
                == Some((f, remap_flags(secs[i]) | PRESENT)) by {
                lemma_low_frame_canonical(f);
                assert(any_sec_covers(secs, f));
                assert(m1.walk_page(f) == Some((f, remap_flags(secs[i]) | PRESENT)));
                assert(walk(s1, root, f) == m1.walk_page(f));
                assert(f != VGA_FRAME && !(VIDEO_FIRST_FRAME <= f <= VIDEO_LAST_FRAME));
                assert(walk(s2, root, f) == walk(s1, root, f));
                assert(walk(s3, root, f) == walk(s2, root, f));
                if mb_lo <= f <= mb_hi {
                    assert(mb_covers(mbs, mbe, f));
                    assert(false);
                }
                assert(walk(s4, root, f) == walk(s3, root, f));
            }
            // the VGA mapping survives the video and boot-info phases
            lemma_low_frame_canonical(VGA_FRAME);
            assert(m2.walk_page(VGA_FRAME) == Some((VGA_FRAME, WRITABLE | PRESENT)));
            assert(walk(s2, root, VGA_FRAME) == m2.walk_page(VGA_FRAME));
            assert(walk(s3, root, VGA_FRAME) == walk(s2, root, VGA_FRAME));
            if mb_lo <= VGA_FRAME <= mb_hi {
                assert(mb_covers(mbs, mbe, VGA_FRAME));
                assert(false);
            }
            assert(walk(s4, root, VGA_FRAME) == walk(s3, root, VGA_FRAME));
            // the video mappings survive the boot-info phase
            assert forall|f: u64| VIDEO_FIRST_FRAME <= f <= VIDEO_LAST_FRAME implies walk(
                s4,
                root,
                f,
            ) == Some((f, WRITABLE | PRESENT)) by {
                lemma_low_frame_canonical(f);
                assert(m3.walk_page(f) == Some((f, WRITABLE | PRESENT)));
                assert(walk(s3, root, f) == m3.walk_page(f));
                if mb_lo <= f <= mb_hi {
                    assert(mb_covers(mbs, mbe, f));
                    assert(false);
                }
                assert(walk(s4, root, f) == walk(s3, root, f));
            }
            assert forall|f: u64| mb_covers(mbs, mbe, f) implies walk(s4, root, f) == Some(
                (f, PRESENT),
            ) by {
                assert(mb_lo <= f <= mb_hi);
                assert(mapper.walk_page(f) == Some((f, PRESENT | PRESENT)));
                assert(walk(s4, root, f) == mapper.walk_page(f));
            }
        }
        self.outcome = Ok(());
    }
}



/// The kernel image's bounds as boot-time setup computes them: the lowest
/// section start and the highest section end, or nothing without sections.
pub fn kernel_bounds(sections: &Vec<ElfSectionInfo>) -> (r: Option<(u64, u64)>)
    ensures
        (r is Some) == (sections@.len() > 0),
        (match r {
            Some(b) => {
                &&& forall|i: int|
                    0 <= i < sections@.len() ==> b.0 <= (#[trigger] sections@[i]).start
                        && sections@[i].end <= b.1
                &&& exists|i: int| 0 <= i < sections@.len() && (#[trigger] sections@[i]).start == b.0
                &&& exists|i: int| 0 <= i < sections@.len() && (#[trigger] sections@[i]).end == b.1
            },
            None => true,
        }),
{
    if sections.len() == 0 {
        return None;
    }
    let mut lo = sections[0].start;
    let mut hi = sections[0].end;
    let mut i: usize = 1;
    while i < sections.len()
        invariant
            1 <= i <= sections@.len(),
            forall|j: int|
                0 <= j < i ==> lo <= (#[trigger] sections@[j]).start && sections@[j].end <= hi,
            exists|j: int| 0 <= j < i && (#[trigger] sections@[j]).start == lo,
            exists|j: int| 0 <= j < i && (#[trigger] sections@[j]).end == hi,
        decreases sections@.len() - i,
    {
        let s = sections[i];
        if s.start < lo {
            lo = s.start;
        }
        if s.end > hi {
            hi = s.end;
        }
        i = i + 1;
    }
    Some((lo, hi))
}

/// Build a new address space that maps the kernel as its sections demand,
/// switch the machine to it, and reclaim the old top-level table's frame by
/// unmapping its page from the new space.
///
/// The caller hands in the currently active table (on hardware it is found
/// through the base register) and the boot information.  Every failure is
/// frame exhaustion; the kernel cannot continue without an address space,
/// so callers treat it as fatal.
pub fn remap_the_kernel<A: FrameAllocator>(
    active_table: ActivePageTable,
    allocator: &mut A,
    boot_info: BootInformation,
) -> (r: Result<ActivePageTable, MapError>)
    requires
        active_table.mapper.wf(),
        old(allocator).inv(),
        mapper_disjoint(active_table.mapper, *old(allocator)),
        active_table.mapper.root() < FRAME_LIMIT,
        sections_wf(boot_info.sections@),
        boot_info.start_address < boot_info.end_address,
        ((boot_info.end_address - 1) as u64) / PAGE_SIZE < 0x8_0000_0000,
        forall|f: u64|
            #[trigger] any_sec_covers(boot_info.sections@, f) ==> f != VGA_FRAME && !(
            VIDEO_FIRST_FRAME <= f <= VIDEO_LAST_FRAME) && !mb_covers(
                boot_info.start_address,
                boot_info.end_address,
                f,
            ),
        forall|f: u64|
            #[trigger] mb_covers(boot_info.start_address, boot_info.end_address, f) ==> f
                != VGA_FRAME && !(VIDEO_FIRST_FRAME <= f <= VIDEO_LAST_FRAME),
        any_sec_covers(boot_info.sections@, active_table.mapper.root()),
    ensures
        final(allocator).inv(),
        forall|g: u64| final(allocator).grantable(g) ==> old(allocator).grantable(g),
        (match r {
            Ok(t) => {
                &&& t.mapper.wf()
                &&& old(allocator).grantable(t.mapper.root())
                &&& t.mapper.root() != active_table.mapper.root()
                &&& forall|i: int, f: u64|
                    0 <= i < boot_info.sections@.len() && #[trigger] sec_covers(
                        boot_info.sections@[i],
                        f,
                    ) && f != active_table.mapper.root() ==> t.mapper.walk_page(f) == Some(
                        (f, remap_flags(boot_info.sections@[i]) | PRESENT),
                    )
                &&& t.mapper.walk_page(VGA_FRAME) == Some((VGA_FRAME, WRITABLE | PRESENT))
                &&& forall|f: u64|
                    VIDEO_FIRST_FRAME <= f <= VIDEO_LAST_FRAME ==> t.mapper.walk_page(f) == Some(
                        (f, WRITABLE | PRESENT),
                    )
                &&& forall|f: u64|
                    #[trigger] mb_covers(boot_info.start_address, boot_info.end_address, f)
                        ==> t.mapper.walk_page(f) == Some((f, PRESENT))
                &&& t.mapper.walk_page(active_table.mapper.root()) == None::<(u64, u64)>
            },
            Err(e) => e == MapError::FrameExhausted && (forall|g: u64|
                !final(allocator).grantable(g)),
        }),
{
    let mut active_table = active_table;
    let ghost aroot = active_table.mapper.root();
    let ghost secs = boot_info.sections@;
    let ghost mbs = boot_info.start_address;
    let ghost mbe = boot_info.end_address;
    let mut temporary_page = TemporaryPage::new(Page { number: TEMPORARY_PAGE_NUMBER });
    let frame = match allocator.allocate_frame() {
        None => {
            return Err(MapError::FrameExhausted);
        },
        Some(f) => f,
    };
    proof {
        assert(!active_table.mapper.store().contains_key(frame.number));
    }
    let mut new_table = InactivePageTable::new(frame, &mut active_table, &mut temporary_page);
    let ghost s1 = active_table.mapper.store();
    let ghost lv1 = active_table.mapper.lv();
    let ghost redirected = slot_updated(
        s1,
        aroot,
        511,
        entry_for(frame.number, PRESENT | WRITABLE),
    );
    let mut op = KernelRemapOp {
        sections: boot_info.sections,
        multiboot_start: boot_info.start_address,
        multiboot_end: boot_info.end_address,
        outcome: Ok(()),
    };
    proof {
        crate::paging::table::lemma_recursive_write(
            s1,
            lv1,
            aroot,
            entry_for(frame.number, PRESENT | WRITABLE),
        );
        assert forall|f: u64| remap_target(secs, mbs, mbe, f) implies walk(
            redirected,
            frame.number,
            f,
        ) == None::<(u64, u64)> by {
            assert(f < 0x8_0000_0000) by {
                if any_sec_covers(secs, f) {
                    let i = choose|i: int|
                        0 <= i < secs.len() && #[trigger] sec_covers(secs[i], f);
                }
            }
            lemma_low_frame_canonical(f);
            assert(s1.contains_key(frame.number) && lv1[frame.number] == 4);
            assert(walk(redirected, frame.number, f) == walk(s1, frame.number, f));
            assert(walk(s1, frame.number, f) == None::<(u64, u64)>);
        }
    }
    let ghost op0 = op;
    let ghost alloc0 = *allocator;
    active_table.with(&mut new_table, &mut temporary_page, &mut op, allocator);
    let ghost s_final_with = active_table.mapper.store();
    let ghost lv_w = active_table.mapper.lv();
    let ghost s_mid = choose|sm: StoreView|
        {
            &&& op0.op_ensures(
                redirected,
                lv1,
                frame.number,
                alloc0,
                op,
                sm,
                active_table.mapper.lv(),
                *allocator,
            )
            &&& active_table.mapper.store() == slot_updated(
                sm,
                aroot,
                511,
                entry_for(aroot, PRESENT | WRITABLE),
            )
            &&& walks_preserved(sm, active_table.mapper.lv(), active_table.mapper.store())
        };
    match op.outcome {
        Err(e) => {
            proof {
                assert(op0.op_ensures(
                    redirected,
                    lv1,
                    frame.number,
                    alloc0,
                    op,
                    s_mid,
                    lv_w,
                    *allocator,
                ));
            }
            return Err(e);
        },
        Ok(_) => {},
    }
    proof {
        assert(op0.op_ensures(redirected, lv1, frame.number, alloc0, op, s_mid, lv_w, *allocator));
        assert(lv_w[frame.number] == 4);
        assert(active_table.mapper.store().contains_key(frame.number));
        assert(frame.number != aroot);
        assert(s_mid.contains_key(frame.number)) by {
            assert(active_table.mapper.store().dom() == slot_updated(
                s_mid,
                aroot,
                511,
                entry_for(aroot, PRESENT | WRITABLE),
            ).dom());
            assert(slot_updated(s_mid, aroot, 511, entry_for(aroot, PRESENT | WRITABLE)).dom()
                =~= s_mid.dom().insert(aroot));
        }
    }
    let old_table = active_table.switch(new_table);
    let ghost old_root = old_table.p4_frame.number;
    proof {
        assert(old_root == aroot);
        assert(aroot < 0x8_0000_0000) by {
            let i = choose|i: int| 0 <= i < secs.len() && #[trigger] sec_covers(secs[i], aroot);
        }
        assert(aroot * 4096 < 0x0000_8000_0000_0000 && (aroot * 4096) as u64 / 4096 == aroot)
            by (nonlinear_arith)
            requires
                aroot < 0x8_0000_0000,
        ;
    }
    let old_p4_page = Page::containing_address(old_table.p4_frame.start_address());
    proof {
        assert(old_p4_page.number == aroot);
        lemma_low_frame_canonical(aroot);
        let i = choose|i: int| 0 <= i < secs.len() && #[trigger] sec_covers(secs[i], aroot);
        assert(walk(s_mid, frame.number, aroot) == Some(
            (aroot, remap_flags(secs[i]) | PRESENT),
        ));
        assert(s_mid.contains_key(frame.number) && lv_w[frame.number] == 4);
        assert(walk(active_table.mapper.store(), frame.number, aroot) == walk(
            s_mid,
            frame.number,
            aroot,
        ));
        let a: u64 = if secs[i].allocated { PRESENT } else { 0 };
        let b: u64 = if secs[i].writable { WRITABLE } else { 0 };
        let c: u64 = if secs[i].executable { 0 } else { NO_EXECUTE };
        assert(((a | b | c) | PRESENT) & HUGE_PAGE == 0) by (bit_vector)
            requires
                (a == 0 || a == 1) && (b == 0 || b == 2) && (c == 0 || c
                    == 0x8000_0000_0000_0000),
        ;
        assert((remap_flags(secs[i]) | PRESENT) & HUGE_PAGE == 0);
    }
    let ghost s_pre_unmap = active_table.mapper.store();
    let ghost lv_pre = active_table.mapper.lv();
    active_table.mapper.unmap(old_p4_page, allocator);
    proof {
        let t = active_table;
        assert forall|i: int, f: u64|
            0 <= i < secs.len() && #[trigger] sec_covers(secs[i], f) && f != aroot implies
        t.mapper.walk_page(f) == Some((f, remap_flags(secs[i]) | PRESENT)) by {
            assert(f < 0x8_0000_0000);
            lemma_low_frame_canonical(f);
            assert(any_sec_covers(secs, f));
            assert(walk(s_mid, frame.number, f) == Some((f, remap_flags(secs[i]) | PRESENT)));
            assert(walk(s_pre_unmap, frame.number, f) == walk(s_mid, frame.number, f));
            assert(s_pre_unmap.contains_key(frame.number) && lv_pre[frame.number] == 4);
            assert(walk(t.mapper.store(), frame.number, f) == walk(s_pre_unmap, frame.number, f));
        }
        lemma_low_frame_canonical(VGA_FRAME);
        assert(VGA_FRAME != aroot) by {
            assert(!any_sec_covers(secs, VGA_FRAME));
        }
        assert(walk(s_pre_unmap, frame.number, VGA_FRAME) == walk(s_mid, frame.number, VGA_FRAME));
        assert(walk(t.mapper.store(), frame.number, VGA_FRAME) == walk(
            s_pre_unmap,
            frame.number,
            VGA_FRAME,
        ));
        assert forall|f: u64| VIDEO_FIRST_FRAME <= f <= VIDEO_LAST_FRAME implies t.mapper.walk_page(
            f,
        ) == Some((f, WRITABLE | PRESENT)) by {
            lemma_low_frame_canonical(f);
            assert(f != aroot) by {
                assert(!any_sec_covers(secs, f) ==> f != aroot);
            }
            assert(walk(s_pre_unmap, frame.number, f) == walk(s_mid, frame.number, f));
            assert(walk(t.mapper.store(), frame.number, f) == walk(s_pre_unmap, frame.number, f));
        }
        assert forall|f: u64| mb_covers(mbs, mbe, f) implies t.mapper.walk_page(f) == Some(
            (f, PRESENT),
        ) by {
            assert(f < 0x8_0000_0000) by {
                assert(((mbe - 1) as u64) / PAGE_SIZE < 0x8_0000_0000);
            }
            lemma_low_frame_canonical(f);
            assert(f != aroot) by {
                assert(!any_sec_covers(secs, f) ==> f != aroot);
            }
            assert(walk(s_pre_unmap, frame.number, f) == walk(s_mid, frame.number, f));
            assert(walk(t.mapper.store(), frame.number, f) == walk(s_pre_unmap, frame.number, f));
        }
    }
    Ok(active_table)
}

} // verus!
