//! Physical frames: fixed-size units of physical memory identified by index.

use vstd::prelude::*;

pub mod area_frame_allocator;

verus! {

use crate::PAGE_SIZE;

/// Frame indices fit in the 40 bits that a page-table entry reserves for them
/// (bits 12 to 51 of the entry hold the frame's physical address).
pub const FRAME_LIMIT: u64 = 0x100_0000_0000;

/// Identifies one 4096-byte frame of physical memory by its index
/// (physical address divided by the frame size).
#[derive(Debug, Clone, Copy, PartialEq, Eq, Structural)]
pub struct Frame {
    pub number: u64,
}

impl Frame {
    /// The frame that holds the given physical address.
    pub fn containing_address(address: u64) -> (f: Frame)
        ensures
            f.number == address / PAGE_SIZE,
    {
        Frame { number: address / PAGE_SIZE }
    }

    /// First physical address inside the frame.
    pub fn start_address(&self) -> (a: u64)
        requires
            self.number < FRAME_LIMIT,
        ensures
            a == self.number * PAGE_SIZE,
    {
        proof {
            assert(self.number * 4096 <= (FRAME_LIMIT - 1) * 4096) by (nonlinear_arith)
                requires
                    self.number < FRAME_LIMIT,
            ;
        }
        self.number * PAGE_SIZE
    }

    /// All frames from `start` to `end`, both included.
    pub fn range_inclusive(start: Frame, end: Frame) -> (it: FrameIter)
        ensures
            it.start == start,
            it.end == end,
    {
        FrameIter { start, end }
    }
}

/// Enumerates the frames of an inclusive range, one index per step.
pub struct FrameIter {
    pub start: Frame,
    pub end: Frame,
}

impl FrameIter {
    /// The next frame of the range, or `None` once the range is exhausted.
    pub fn next(&mut self) -> (r: Option<Frame>)
        requires
            old(self).end.number < u64::MAX,
        ensures
            old(self).start.number <= old(self).end.number ==> r == Some(old(self).start)
                && final(self).start.number == old(self).start.number + 1,
            old(self).start.number > old(self).end.number ==> r == None::<Frame>
                && *final(self) == *old(self),
            final(self).end == old(self).end,
    {
        if self.start.number <= self.end.number {
            let frame = self.start;
            self.start.number = self.start.number + 1;
            Some(frame)
        } else {
            None
        }
    }
}


/// Hands out unused physical frames.
///
/// `grantable` names the frames an allocator may still return.  Allocation
/// only shrinks that set and never returns the same frame twice; a frame
/// handed back through `deallocate_frame` is never granted again in this
/// design (frames are not reclaimed, a known limitation).
pub trait FrameAllocator: Sized {
    /// The allocator's own well-formedness.
    spec fn inv(&self) -> bool;

    /// True of the frames the allocator may still hand out.
    spec fn grantable(&self, frame: u64) -> bool;

    /// One unused frame, or `None` once the allocator has nothing left.
    fn allocate_frame(&mut self) -> (r: Option<Frame>)
        requires
            old(self).inv(),
        ensures
            final(self).inv(),
            forall|g: u64| final(self).grantable(g) ==> old(self).grantable(g),
            (match r {
                Some(f) => old(self).grantable(f.number) && f.number < FRAME_LIMIT
                    && !final(self).grantable(f.number),
                None => forall|g: u64| !old(self).grantable(g),
            }),
    ;

    /// Accept a frame back.  No conforming allocator grants it out again.
    fn deallocate_frame(&mut self, frame: Frame)
        requires
            old(self).inv(),
        ensures
            final(self).inv(),
            forall|g: u64| final(self).grantable(g) ==> old(self).grantable(g),
    ;
}

/// Any two frames of one allocation sequence differ, and each was grantable
/// when it was handed out: the first allocation removes its frame from the
/// grantable set, and the set only shrinks afterwards.
pub proof fn lemma_allocations_distinct<A: FrameAllocator>(a0: A, a1: A, a2: A, f1: u64, f2: u64)
    requires
        a0.grantable(f1),
        !a1.grantable(f1),
        forall|g: u64| a1.grantable(g) ==> a0.grantable(g),
        a1.grantable(f2),
        !a2.grantable(f2),
        forall|g: u64| a2.grantable(g) ==> a1.grantable(g),
    ensures
        f1 != f2,
        a0.grantable(f2),
{
}

} // verus!
