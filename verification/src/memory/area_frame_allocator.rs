//! Hands out unused physical frames from the firmware-reported memory
//! areas, never touching the kernel image or the boot-information region.

use vstd::prelude::*;

verus! {

use crate::PAGE_SIZE;
use crate::memory::{Frame, FrameAllocator, FRAME_LIMIT};

/// One usable region of physical memory as the firmware reports it.
#[derive(Debug, Clone, Copy, PartialEq, Eq, Structural)]
pub struct MemoryArea {
    /// First physical address of the area.
    pub start: u64,
    /// Length of the area in bytes.
    pub size: u64,
}

impl MemoryArea {
    /// An area from its reported start address and byte length.
    pub fn new(start: u64, size: u64) -> (a: MemoryArea)
        ensures
            a.start == start,
            a.size == size,
    {
        MemoryArea { start, size }
    }

    /// First physical address of the area.
    pub fn start_address(&self) -> (r: u64)
        ensures
            r == self.start,
    {
        self.start
    }

    /// Length of the area in bytes.
    pub fn size(&self) -> (r: u64)
        ensures
            r == self.size,
    {
        self.size
    }
}

/// The first frame of an area.
pub open spec fn area_first_frame(a: MemoryArea) -> u64 {
    a.start / PAGE_SIZE
}

/// The last frame of an area.
pub open spec fn area_last_frame(a: MemoryArea) -> u64 {
    ((a.start + a.size - 1) as u64) / PAGE_SIZE
}

/// Every area is non-empty and ends below the highest address a table
/// entry can name.
pub open spec fn areas_wf(areas: Seq<MemoryArea>) -> bool {
    forall|i: int|
        0 <= i < areas.len() ==> (#[trigger] areas[i]).size >= 1 && areas[i].start
            + areas[i].size - 1 <= 0xf_ffff_ffff_ffff
}

/// Frame `f` lies inside one of the areas.
pub open spec fn in_some_area(areas: Seq<MemoryArea>, f: u64) -> bool {
    exists|i: int|
        0 <= i < areas.len() && area_first_frame(#[trigger] areas[i]) <= f <= area_last_frame(
            areas[i],
        )
}

/// Hands out unused frames from the memory areas: a cursor walks the areas
/// in start order, hopping over the kernel image and the boot-information
/// region, both captured once at construction.
pub struct AreaFrameAllocator {
    next_free_frame: Frame,
    current_area: Option<MemoryArea>,
    areas: Vec<MemoryArea>,
    kernel_start: Frame,
    kernel_end: Frame,
    multiboot_start: Frame,
    multiboot_end: Frame,
}

impl AreaFrameAllocator {
    /// First frame of the kernel-image exclusion range.
    pub closed spec fn kernel_start_spec(&self) -> u64 {
        self.kernel_start.number
    }

    /// Last frame of the kernel-image exclusion range.
    pub closed spec fn kernel_end_spec(&self) -> u64 {
        self.kernel_end.number
    }

    /// First frame of the boot-information exclusion range.
    pub closed spec fn multiboot_start_spec(&self) -> u64 {
        self.multiboot_start.number
    }

    /// Last frame of the boot-information exclusion range.
    pub closed spec fn multiboot_end_spec(&self) -> u64 {
        self.multiboot_end.number
    }

    /// The memory areas the allocator draws from.
    pub closed spec fn areas_spec(&self) -> Seq<MemoryArea> {
        self.areas@
    }

    /// The allocation cursor.
    pub closed spec fn cursor(&self) -> u64 {
        self.next_free_frame.number
    }

    /// The allocator still has an area selected.
    pub closed spec fn has_area(&self) -> bool {
        self.current_area is Some
    }

    /// The area the cursor currently draws from.
    pub closed spec fn current_area_spec(&self) -> Option<MemoryArea> {
        self.current_area
    }

    /// Frame `f` lies in one of the allocator's exclusion ranges.
    pub open spec fn excluded(&self, f: u64) -> bool {
        ||| self.kernel_start_spec() <= f <= self.kernel_end_spec()
        ||| self.multiboot_start_spec() <= f <= self.multiboot_end_spec()
    }

    /// An allocator over `memory_areas`, excluding the kernel image and the
    /// boot-information region, with its cursor on the lowest usable area.
    pub fn new(
        kernel_start: u64,
        kernel_end: u64,
        multiboot_start: u64,
        multiboot_end: u64,
        memory_areas: Vec<MemoryArea>,
    ) -> (a: AreaFrameAllocator)
        requires
            areas_wf(memory_areas@),
        ensures
            a.inv(),
            a.areas_spec() == memory_areas@,
            a.kernel_start_spec() == kernel_start / PAGE_SIZE,
            a.kernel_end_spec() == kernel_end / PAGE_SIZE,
            a.multiboot_start_spec() == multiboot_start / PAGE_SIZE,
            a.multiboot_end_spec() == multiboot_end / PAGE_SIZE,
            (match a.current_area_spec() {
                Some(ar) => (exists|i: int|
                    0 <= i < memory_areas@.len() && memory_areas@[i] == ar) && (forall|i: int|
                    0 <= i < memory_areas@.len() ==> ar.start <= (#[trigger] memory_areas@[i]).start)
                    && a.cursor() == area_first_frame(ar),
                None => memory_areas@.len() == 0 && a.cursor() == 0,
            }),
    {
        proof {
            assert(kernel_end / 4096 <= 0xf_ffff_ffff_ffffu64 && multiboot_end / 4096
                <= 0xf_ffff_ffff_ffffu64) by (nonlinear_arith);
        }
        let mut allocator = AreaFrameAllocator {
            next_free_frame: Frame::containing_address(0),
            current_area: None,
            areas: memory_areas,
            kernel_start: Frame::containing_address(kernel_start),
            kernel_end: Frame::containing_address(kernel_end),
            multiboot_start: Frame::containing_address(multiboot_start),
            multiboot_end: Frame::containing_address(multiboot_end),
        };
        allocator.choose_next_area();
        proof {
            match allocator.current_area_spec() {
                Some(ar) => {
                    assert forall|i: int|
                        0 <= i < allocator.areas@.len() implies ar.start <= (
                    #[trigger] allocator.areas@[i]).start by {
                        assert(area_last_frame(allocator.areas@[i]) >= 0);
                    }
                },
                None => {
                    if allocator.areas@.len() > 0 {
                        assert(area_last_frame(allocator.areas@[0]) < 0);
                        assert(false);
                    }
                },
            }
        }
        allocator
    }

    /// Select the area with the lowest start address whose end is still at
    /// or past the cursor, and pull the cursor up to its first frame.
    fn choose_next_area(&mut self)
        requires
            areas_wf(old(self).areas@),
            old(self).kernel_end.number <= 0xf_ffff_ffff_ffff,
            old(self).multiboot_end.number <= 0xf_ffff_ffff_ffff,
        ensures
            final(self).areas@ == old(self).areas@,
            final(self).kernel_start == old(self).kernel_start,
            final(self).kernel_end == old(self).kernel_end,
            final(self).multiboot_start == old(self).multiboot_start,
            final(self).multiboot_end == old(self).multiboot_end,
            final(self).next_free_frame.number >= old(self).next_free_frame.number,
            final(self).inv(),
            (match final(self).current_area {
                Some(a) => {
                    &&& exists|i: int|
                        0 <= i < final(self).areas@.len() && final(self).areas@[i] == a
                    &&& area_last_frame(a) >= old(self).next_free_frame.number
                    &&& forall|i: int|
                        0 <= i < final(self).areas@.len() && area_last_frame(
                            #[trigger] final(self).areas@[i],
                        ) >= old(self).next_free_frame.number ==> a.start
                            <= final(self).areas@[i].start
                    &&& final(self).next_free_frame.number == (
                    if area_first_frame(a) > old(self).next_free_frame.number {
                        area_first_frame(a)
                    } else {
                        old(self).next_free_frame.number
                    })
                },
                None => {
                    &&& forall|i: int|
                        0 <= i < final(self).areas@.len() ==> area_last_frame(
                            #[trigger] final(self).areas@[i],
                        ) < old(self).next_free_frame.number
                    &&& final(self).next_free_frame == old(self).next_free_frame
                },
            }),
    {
        let cursor = self.next_free_frame.number;
        let mut best: Option<MemoryArea> = None;
        let mut i: usize = 0;
        while i < self.areas.len()
            invariant
                areas_wf(self.areas@),
                i <= self.areas@.len(),
                (match best {
                    Some(b) => {
                        &&& exists|k: int| 0 <= k < i && self.areas@[k] == b
                        &&& area_last_frame(b) >= cursor
                        &&& forall|k: int|
                            0 <= k < i && area_last_frame(#[trigger] self.areas@[k]) >= cursor
                                ==> b.start <= self.areas@[k].start
                    },
                    None => forall|k: int|
                        0 <= k < i ==> area_last_frame(#[trigger] self.areas@[k]) < cursor,
                }),
            decreases self.areas@.len() - i,
        {
            let area = self.areas[i];
            proof {
                assert(area.size >= 1 && area.start + area.size - 1 <= 0xf_ffff_ffff_ffff);
            }
            let last_address = area.start + area.size - 1;
            let last_frame = last_address / PAGE_SIZE;
            if last_frame >= cursor {
                match best {
                    None => {
                        best = Some(area);
                    },
                    Some(b) => {
                        if area.start < b.start {
                            best = Some(area);
                        }
                    },
                }
            }
            i = i + 1;
        }
        self.current_area = best;
        match best {
            Some(area) => {
                let start_frame = area.start / PAGE_SIZE;
                if self.next_free_frame.number < start_frame {
                    self.next_free_frame = Frame { number: start_frame };
                }
            },
            None => {},
        }
    }

    /// The allocator's areas are sane and the cursor never sits below the
    /// current area's first frame.
    pub closed spec fn inv_spec(&self) -> bool {
        &&& areas_wf(self.areas@)
        &&& self.kernel_end.number <= 0xf_ffff_ffff_ffff
        &&& self.multiboot_end.number <= 0xf_ffff_ffff_ffff
        &&& (match self.current_area {
            Some(a) => (exists|i: int| 0 <= i < self.areas@.len() && self.areas@[i] == a)
                && self.next_free_frame.number >= area_first_frame(a),
            None => forall|i: int|
                0 <= i < self.areas@.len() ==> area_last_frame(#[trigger] self.areas@[i])
                    < self.next_free_frame.number,
        })
    }
}

impl FrameAllocator for AreaFrameAllocator {
    open spec fn inv(&self) -> bool {
        self.inv_spec()
    }

    open spec fn grantable(&self, f: u64) -> bool {
        &&& self.has_area()
        &&& f >= self.cursor()
        &&& in_some_area(self.areas_spec(), f)
        &&& !self.excluded(f)
        &&& f < FRAME_LIMIT
    }

    fn allocate_frame(&mut self) -> (r: Option<Frame>)
        ensures
            final(self).areas_spec() == old(self).areas_spec(),
            final(self).kernel_start_spec() == old(self).kernel_start_spec(),
            final(self).kernel_end_spec() == old(self).kernel_end_spec(),
            final(self).multiboot_start_spec() == old(self).multiboot_start_spec(),
            final(self).multiboot_end_spec() == old(self).multiboot_end_spec(),
            final(self).cursor() >= old(self).cursor(),
            (match r {
                Some(f) => f.number >= old(self).cursor() && final(self).cursor() == f.number
                    + 1,
                None => !final(self).has_area() && (forall|i: int|
                    0 <= i < final(self).areas_spec().len() ==> area_last_frame(
                        #[trigger] final(self).areas_spec()[i],
                    ) < final(self).cursor()),
            }),
    {
        loop
            invariant
                self.inv(),
                self.areas@ == old(self).areas@,
                self.kernel_start == old(self).kernel_start,
                self.kernel_end == old(self).kernel_end,
                self.multiboot_start == old(self).multiboot_start,
                self.multiboot_end == old(self).multiboot_end,
                self.next_free_frame.number >= old(self).next_free_frame.number,
                forall|g: u64| old(self).grantable(g) <==> self.grantable(g),
            ensures
                self.inv(),
                (match self.current_area {
                    Some(_) => true,
                    None => true,
                }),
            decreases (match self.current_area {
                Some(a) => 0x10_0000_0000_0001 - area_last_frame(a) as int,
                None => 0,
            }),(match self.current_area {
                Some(a) => (if self.next_free_frame.number <= area_last_frame(a) + 1 {
                    area_last_frame(a) + 1 - self.next_free_frame.number as int
                } else {
                    0
                }),
                None => 0,
            }),
        {
            let area = match self.current_area {
                Some(a) => a,
                None => {
                    return None;
                },
            };
            let frame = Frame { number: self.next_free_frame.number };
            proof {
                assert(area.size >= 1 && area.start + area.size - 1 <= 0xf_ffff_ffff_ffff);
            }
            let current_area_last_frame = {
                let address = area.start + area.size - 1;
                Frame::containing_address(address)
            };
            if frame.number > current_area_last_frame.number {
                let ghost pre = *self;
                self.choose_next_area();
                proof {
                    lemma_choose_keeps_grantable(pre, *self);
                }
            } else if frame.number >= self.kernel_start.number && frame.number
                <= self.kernel_end.number {
                self.next_free_frame = Frame { number: self.kernel_end.number + 1 };
            } else if frame.number >= self.multiboot_start.number && frame.number
                <= self.multiboot_end.number {
                self.next_free_frame = Frame { number: self.multiboot_end.number + 1 };
            } else {
                self.next_free_frame = Frame { number: frame.number + 1 };
                proof {
                    assert(area_first_frame(area) <= frame.number <= area_last_frame(area));
                    assert(in_some_area(self.areas@, frame.number));
                    assert(frame.number < FRAME_LIMIT) by {
                        assert(area_last_frame(area) <= 0xf_ffff_ffff_ffffu64 / 4096);
                    }
                }
                return Some(frame);
            }
        }
    }

    fn deallocate_frame(&mut self, _frame: Frame)
        ensures
            *final(self) == *old(self),
    {
    }
}

/// Re-choosing the area neither adds nor removes grantable frames: an area
/// that still reaches past the cursor and starts lowest is picked, and the
/// cursor only skips frames no area holds.
proof fn lemma_choose_keeps_grantable(pre: AreaFrameAllocator, post: AreaFrameAllocator)
    requires
        pre.inv(),
        pre.has_area(),
        post.inv(),
        post.areas_spec() == pre.areas_spec(),
        post.kernel_start_spec() == pre.kernel_start_spec(),
        post.kernel_end_spec() == pre.kernel_end_spec(),
        post.multiboot_start_spec() == pre.multiboot_start_spec(),
        post.multiboot_end_spec() == pre.multiboot_end_spec(),
        post.cursor() >= pre.cursor(),
        (match post.current_area_spec() {
            Some(a) => {
                &&& area_last_frame(a) >= pre.cursor()
                &&& forall|i: int|
                    0 <= i < post.areas_spec().len() && area_last_frame(
                        #[trigger] post.areas_spec()[i],
                    ) >= pre.cursor() ==> a.start <= post.areas_spec()[i].start
                &&& post.cursor() == (if area_first_frame(a) > pre.cursor() {
                    area_first_frame(a)
                } else {
                    pre.cursor()
                })
            },
            None => forall|i: int|
                0 <= i < post.areas_spec().len() ==> area_last_frame(
                    #[trigger] post.areas_spec()[i],
                ) < pre.cursor(),
        }),
    ensures
        forall|g: u64| pre.grantable(g) <==> post.grantable(g),
{
    assert forall|g: u64| pre.grantable(g) implies post.grantable(g) by {
        let i = choose|i: int|
            0 <= i < pre.areas_spec().len() && area_first_frame(#[trigger] pre.areas_spec()[i])
                <= g <= area_last_frame(pre.areas_spec()[i]);
        match post.current_area_spec() {
            None => {
                assert(area_last_frame(pre.areas_spec()[i]) >= g >= pre.cursor());
                assert(false);
            },
            Some(a) => {
                if g < post.cursor() {
                    assert(area_first_frame(a) > pre.cursor());
                    assert(post.cursor() == area_first_frame(a));
                    assert(area_last_frame(pre.areas_spec()[i]) >= g >= pre.cursor());
                    assert(a.start <= pre.areas_spec()[i].start);
                    assert(area_first_frame(a) <= area_first_frame(pre.areas_spec()[i])) by {
                        assert(a.start / 4096 <= pre.areas_spec()[i].start / 4096) by (nonlinear_arith)
                            requires
                                a.start <= pre.areas_spec()[i].start,
                        ;
                    }
                    assert(g >= area_first_frame(pre.areas_spec()[i]));
                    assert(false);
                }
            },
        }
    }
    assert forall|g: u64| post.grantable(g) implies pre.grantable(g) by {
    }
}

/// No granted frame ever lies in the kernel-image or boot-information
/// exclusion ranges: they are ruled out of the grantable set itself.
pub proof fn lemma_grantable_avoids_exclusions(a: AreaFrameAllocator, f: u64)
    requires
        a.grantable(f),
    ensures
        !(a.kernel_start_spec() <= f <= a.kernel_end_spec()),
        !(a.multiboot_start_spec() <= f <= a.multiboot_end_spec()),
{
}

} // verus!

