//! The metadata-tagged heap allocator: a free-list allocator whose block
//! headers live inside the managed region itself.
//!
//! Every live allocation is prefixed by a 16-byte header: a start sentinel,
//! the block size, and an end sentinel.  The pair (0xAA, 0xBB) marks an
//! allocated block, (0xCC, 0xDD) a freed one.  Freed headers are reused in
//! place and may be split, never merged.
//!
//! On hardware the region is raw mapped memory; here the allocator owns a
//! buffer that stands for it, so every byte access is checked.

use vstd::prelude::*;

verus! {

/// First virtual address of the kernel heap.
pub const HEAP_START: u64 = 0x4444_4444_0000;

/// Size of the kernel heap in bytes.
pub const HEAP_SIZE: u64 = 1000 * 1024;

/// Bytes a block header occupies: sentinel, size and padding.
pub const METADATA_SIZE: u64 = 16;

/// Start sentinel of an allocated block.
pub const ALLOC_START: u8 = 0xaa;

/// End sentinel of an allocated block.
pub const ALLOC_END: u8 = 0xbb;

/// Start sentinel of a freed block.
pub const FREE_START: u8 = 0xcc;

/// End sentinel of a freed block.
pub const FREE_END: u8 = 0xdd;

/// The u64 held little-endian in eight bytes of `s` starting at `off`.
pub open spec fn le_u64_at(s: Seq<u8>, off: int) -> u64 {
    (s[off] as u64) | (s[off + 1] as u64) << 8 | (s[off + 2] as u64) << 16 | (s[off + 3] as u64)
        << 24 | (s[off + 4] as u64) << 32 | (s[off + 5] as u64) << 40 | (s[off + 6] as u64) << 48
        | (s[off + 7] as u64) << 56
}

/// The header at buffer offset `off` marks an allocated block.
pub open spec fn header_allocated(s: Seq<u8>, off: int) -> bool {
    s[off] == ALLOC_START && s[off + 9] == ALLOC_END
}

/// The header at buffer offset `off` marks a freed block.
pub open spec fn header_freed(s: Seq<u8>, off: int) -> bool {
    s[off] == FREE_START && s[off + 9] == FREE_END
}

/// The size recorded in the header at buffer offset `off`.
pub open spec fn header_size(s: Seq<u8>, off: int) -> u64 {
    le_u64_at(s, off + 1)
}

/// `align` is a power of two.
pub open spec fn is_pow2(align: u64) -> bool {
    align >= 1 && (align & (align - 1) as u64) == 0
}


/// The byte sequence after a whole header is written at offset `off`: the
/// start sentinel, the size little-endian, and the end sentinel.
pub open spec fn with_header(s: Seq<u8>, off: int, first: u8, size: u64, last: u8) -> Seq<u8> {
    s.update(off, first).update(off + 1, (size & 0xff) as u8).update(
        off + 2,
        ((size >> 8) & 0xff) as u8,
    ).update(off + 3, ((size >> 16) & 0xff) as u8).update(
        off + 4,
        ((size >> 24) & 0xff) as u8,
    ).update(off + 5, ((size >> 32) & 0xff) as u8).update(
        off + 6,
        ((size >> 40) & 0xff) as u8,
    ).update(off + 7, ((size >> 48) & 0xff) as u8).update(
        off + 8,
        ((size >> 56) & 0xff) as u8,
    ).update(off + 9, last)
}


/// What a written header leaves in the bytes: its sentinels, its size
/// field decoding to the written size, everything else untouched.
pub proof fn lemma_with_header_fields(s: Seq<u8>, off: int, first: u8, size: u64, last: u8)
    requires
        0 <= off,
        off + 10 <= s.len(),
    ensures
        with_header(s, off, first, size, last).len() == s.len(),
        with_header(s, off, first, size, last)[off] == first,
        with_header(s, off, first, size, last)[off + 9] == last,
        header_size(with_header(s, off, first, size, last), off) == size,
        forall|i: int|
            0 <= i < s.len() && !(off <= i < off + 10) ==> with_header(
                s,
                off,
                first,
                size,
                last,
            )[i] == s[i],
{
    let z = size;
    assert(((z & 0xff) as u8 as u64) | (((z >> 8) & 0xff) as u8 as u64) << 8 | (((z >> 16)
        & 0xff) as u8 as u64) << 16 | (((z >> 24) & 0xff) as u8 as u64) << 24 | (((z >> 32)
        & 0xff) as u8 as u64) << 32 | (((z >> 40) & 0xff) as u8 as u64) << 40 | (((z >> 48)
        & 0xff) as u8 as u64) << 48 | (((z >> 56) & 0xff) as u8 as u64) << 56 == z)
        by (bit_vector);
}

/// Where a block's header goes when the scan stands at `c`: the payload
/// right after the header is aligned to `align`.
pub open spec fn spec_header_pos(c: u64, align: u64) -> u64 {
    (spec_round_up((c + METADATA_SIZE) as u64, align) - METADATA_SIZE) as u64
}

/// A whole header fits between `start` and `end` at position `hp`.
pub open spec fn header_in_range(start: u64, end: u64, hp: u64) -> bool {
    start <= hp && hp + METADATA_SIZE <= end
}

/// How the allocation scan ended.
pub enum ScanEnd {
    /// No further header: a fresh block is attempted at this position.
    Stop {
        /// The scan position the attempt starts from.
        current: u64,
        /// Where the new block's header would go.
        header_pos: u64,
    },
    /// A freed header of exactly the requested size: reused in place.
    Reuse {
        /// The scan position the match was made from.
        current: u64,
        /// The matching freed header's position.
        header_pos: u64,
    },
    /// A freed header with room to spare: the request is carved out and a
    /// freed header with the remainder size is written after it.
    Split {
        /// The scan position the match was made from.
        current: u64,
        /// The splittable freed header's position.
        header_pos: u64,
        /// The size recorded for the remainder.
        remainder: u64,
    },
}

/// The scan position an outcome carries.
pub open spec fn scan_current(e: ScanEnd) -> u64 {
    match e {
        ScanEnd::Stop { current, .. } => current,
        ScanEnd::Reuse { current, .. } => current,
        ScanEnd::Split { current, .. } => current,
    }
}

/// The header position an outcome carries.
pub open spec fn scan_header_pos(e: ScanEnd) -> u64 {
    match e {
        ScanEnd::Stop { header_pos, .. } => header_pos,
        ScanEnd::Reuse { header_pos, .. } => header_pos,
        ScanEnd::Split { header_pos, .. } => header_pos,
    }
}

/// The forward scan of the allocator, from position `c`: stop at the first
/// position without a whole valid header (or with an absurd recorded
/// size), reuse a freed header of exactly `size`, split a freed header
/// with room for the request and another header, and step over anything
/// else.
pub open spec fn scan(s: Seq<u8>, start: u64, end: u64, size: u64, align: u64, c: u64) -> ScanEnd
    decreases (if c <= end {
        (end - c) as int
    } else {
        0
    }),
{
    let hp = spec_header_pos(c, align);
    if !header_in_range(start, end, hp) {
        ScanEnd::Stop { current: c, header_pos: hp }
    } else {
        let off = (hp - start) as int;
        if !header_allocated(s, off) && !header_freed(s, off) {
            ScanEnd::Stop { current: c, header_pos: hp }
        } else {
            let h = header_size(s, off);
            if h >= 0x1_0000_0000 {
                ScanEnd::Stop { current: c, header_pos: hp }
            } else if header_freed(s, off) && h == size {
                ScanEnd::Reuse { current: c, header_pos: hp }
            } else if header_freed(s, off) && h >= size + METADATA_SIZE {
                ScanEnd::Split {
                    current: c,
                    header_pos: hp,
                    remainder: (h - (size + METADATA_SIZE)) as u64,
                }
            } else {
                let c2 = (c + METADATA_SIZE + h) as u64;
                if c2 > end || c2 <= c {
                    ScanEnd::Stop { current: c2, header_pos: spec_header_pos(c2, align) }
                } else {
                    scan(s, start, end, size, align, c2)
                }
            }
        }
    }
}

/// The bytes after the scan's own write: the split case records the
/// remainder in a freed header right after the carved-out block, when a
/// whole header still fits before the end.
pub open spec fn scan_bytes(
    s: Seq<u8>,
    start: u64,
    end: u64,
    size: u64,
    outcome: ScanEnd,
) -> Seq<u8> {
    match outcome {
        ScanEnd::Split { header_pos, remainder, .. } => {
            let sp = (header_pos + METADATA_SIZE + size) as u64;
            if sp + METADATA_SIZE <= end {
                with_header(s, sp - start, FREE_START, remainder, FREE_END)
            } else {
                s
            }
        },
        _ => s,
    }
}


/// The small powers of two pass the power-of-two test.
pub proof fn lemma_is_pow2_values()
    by (bit_vector)
    ensures
        is_pow2(1) && is_pow2(2) && is_pow2(4) && is_pow2(8) && is_pow2(16) && is_pow2(32)
            && is_pow2(64) && is_pow2(128) && is_pow2(256) && is_pow2(512) && is_pow2(1024)
            && is_pow2(2048) && is_pow2(4096) && is_pow2(8192) && is_pow2(16384) && is_pow2(
            32768,
        ) && is_pow2(65536),
{
}

/// The free-list allocator over one contiguous heap region.
pub struct Allocator {
    start: u64,
    end: u64,
    memory: Vec<u8>,
}

impl Allocator {
    /// First address of the managed region.
    pub closed spec fn start_spec(&self) -> u64 {
        self.start
    }

    /// One past the last address of the managed region.
    pub closed spec fn end_spec(&self) -> u64 {
        self.end
    }

    /// The managed bytes; index 0 sits at the region's first address.
    pub closed spec fn bytes(&self) -> Seq<u8> {
        self.memory@
    }

    /// The buffer matches the address range and the range stays below the
    /// limit that keeps address arithmetic exact.
    pub closed spec fn wf_spec(&self) -> bool {
        &&& self.start <= self.end
        &&& self.end - self.start == self.memory@.len()
        &&& self.end <= 0x10_0000_0000_0000
    }

    /// The buffer matches the address range.
    pub open spec fn wf(&self) -> bool {
        self.wf_spec()
    }

    /// A fresh allocator over `[start, start + size)`, all bytes clear.
    pub fn new(start: u64, size: u64) -> (a: Allocator)
        requires
            start + size <= 0x10_0000_0000_0000,
        ensures
            a.wf(),
            a.start_spec() == start,
            a.end_spec() == start + size,
            a.bytes().len() == size,
            forall|i: int| 0 <= i < size ==> a.bytes()[i] == 0,
    {
        let mut memory: Vec<u8> = Vec::new();
        let mut i: u64 = 0;
        while i < size
            invariant
                i <= size,
                memory@.len() == i,
                forall|j: int| 0 <= j < i ==> memory@[j] == 0,
            decreases size - i,
        {
            memory.push(0);
            i = i + 1;
        }
        Allocator { start, end: start + size, memory }
    }

    /// One byte of the region, by absolute address.
    fn read_byte(&self, addr: u64) -> (v: u8)
        requires
            self.wf(),
            self.start_spec() <= addr < self.end_spec(),
        ensures
            v == self.bytes()[addr - self.start_spec()],
    {
        let i = addr - self.start;
        let n = self.memory.len();
        proof {
            assert(i < n);
        }
        self.memory[i as usize]
    }

    /// Overwrite one byte of the region, by absolute address.
    fn write_byte(&mut self, addr: u64, v: u8)
        requires
            old(self).wf(),
            old(self).start_spec() <= addr < old(self).end_spec(),
        ensures
            final(self).wf(),
            final(self).start_spec() == old(self).start_spec(),
            final(self).end_spec() == old(self).end_spec(),
            final(self).bytes() == old(self).bytes().update(
                addr - old(self).start_spec(),
                v,
            ),
    {
        let i = addr - self.start;
        let n = self.memory.len();
        proof {
            assert(i < n);
        }
        self.memory.set(i as usize, v);
        proof {
            assert(self.memory@ =~= old(self).memory@.update(addr - old(self).start, v));
        }
    }

    /// The size field of the header at absolute address `addr`.
    fn read_header_size(&self, addr: u64) -> (v: u64)
        requires
            self.wf(),
            self.start_spec() <= addr,
            addr + METADATA_SIZE <= self.end_spec(),
        ensures
            v == header_size(self.bytes(), addr - self.start_spec()),
    {
        let b0 = self.read_byte(addr + 1) as u64;
        let b1 = self.read_byte(addr + 2) as u64;
        let b2 = self.read_byte(addr + 3) as u64;
        let b3 = self.read_byte(addr + 4) as u64;
        let b4 = self.read_byte(addr + 5) as u64;
        let b5 = self.read_byte(addr + 6) as u64;
        let b6 = self.read_byte(addr + 7) as u64;
        let b7 = self.read_byte(addr + 8) as u64;
        b0 | b1 << 8 | b2 << 16 | b3 << 24 | b4 << 32 | b5 << 40 | b6 << 48 | b7 << 56
    }

    /// Write a whole header at absolute address `addr`.
    fn write_header(&mut self, addr: u64, start_sentinel: u8, size: u64, end_sentinel: u8)
        requires
            old(self).wf(),
            old(self).start_spec() <= addr,
            addr + METADATA_SIZE <= old(self).end_spec(),
        ensures
            final(self).wf(),
            final(self).start_spec() == old(self).start_spec(),
            final(self).end_spec() == old(self).end_spec(),
            final(self).bytes() == with_header(
                old(self).bytes(),
                addr - old(self).start_spec(),
                start_sentinel,
                size,
                end_sentinel,
            ),
            final(self).bytes().len() == old(self).bytes().len(),
            final(self).bytes()[addr - old(self).start_spec()] == start_sentinel,
            final(self).bytes()[addr - old(self).start_spec() + 9] == end_sentinel,
            header_size(final(self).bytes(), addr - old(self).start_spec()) == size,
            forall|i: int|
                0 <= i < old(self).bytes().len() && !(addr - old(self).start_spec() <= i < addr
                    - old(self).start_spec() + 10) ==> final(self).bytes()[i] == old(
                    self,
                ).bytes()[i],
    {
        let base = addr;
        self.write_byte(base, start_sentinel);
        self.write_byte(base + 1, (size & 0xff) as u8);
        self.write_byte(base + 2, ((size >> 8) & 0xff) as u8);
        self.write_byte(base + 3, ((size >> 16) & 0xff) as u8);
        self.write_byte(base + 4, ((size >> 24) & 0xff) as u8);
        self.write_byte(base + 5, ((size >> 32) & 0xff) as u8);
        self.write_byte(base + 6, ((size >> 40) & 0xff) as u8);
        self.write_byte(base + 7, ((size >> 48) & 0xff) as u8);
        self.write_byte(base + 8, ((size >> 56) & 0xff) as u8);
        self.write_byte(base + 9, end_sentinel);
        proof {
            let s = self.bytes();
            let off = addr - old(self).start_spec();
            assert(s =~= with_header(old(self).bytes(), off, start_sentinel, size, end_sentinel));
            lemma_with_header_fields(old(self).bytes(), off, start_sentinel, size, end_sentinel);
        }
    }

    /// Whether a valid header of either kind sits at absolute address
    /// `addr`; positions that cannot hold a whole header are not headers.
    fn header_kind(&self, addr: u64) -> (r: Option<bool>)
        requires
            self.wf(),
        ensures
            (match r {
                Some(freed) => self.start_spec() <= addr && addr + METADATA_SIZE
                    <= self.end_spec() && (if freed {
                    header_freed(self.bytes(), addr - self.start_spec())
                } else {
                    header_allocated(self.bytes(), addr - self.start_spec())
                }),
                None => addr + METADATA_SIZE > self.end_spec() || addr < self.start_spec() || (
                !header_freed(self.bytes(), addr - self.start_spec()) && !header_allocated(
                    self.bytes(),
                    addr - self.start_spec(),
                )),
            }),
    {
        if self.end < METADATA_SIZE || addr < self.start || addr > self.end - METADATA_SIZE {
            return None;
        }
        let first = self.read_byte(addr);
        let last = self.read_byte(addr + 9);
        if first == ALLOC_START && last == ALLOC_END {
            Some(false)
        } else if first == FREE_START && last == FREE_END {
            Some(true)
        } else {
            None
        }
    }

    /// Serve an allocation of `size` bytes aligned to `align`.
    ///
    /// The region is scanned from its base exactly as `scan` describes: a
    /// freed header of exactly the requested size is reused in place; a
    /// freed header with room to spare is split, with a freed header for
    /// the remainder written right after the carved-out block; the first
    /// position without a valid header ends the scan.  When the block fits
    /// before the end, its header is written where the scan ended and the
    /// payload address - aligned to `align` - is returned; otherwise the
    /// heap is out of space.  The final bytes are exactly the old bytes
    /// with the scan's split header and the new block's header applied.
    pub fn allocate(&mut self, size: u64, align: u64) -> (r: Option<u64>)
        requires
            old(self).wf(),
            is_pow2(align),
            align <= 0x1_0000_0000,
            size < 0x1_0000_0000,
        ensures
            final(self).wf(),
            final(self).start_spec() == old(self).start_spec(),
            final(self).end_spec() == old(self).end_spec(),
            ({
                let oc = scan(
                    old(self).bytes(),
                    old(self).start_spec(),
                    old(self).end_spec(),
                    size,
                    align,
                    old(self).start_spec(),
                );
                let hp = scan_header_pos(oc);
                let mid = scan_bytes(
                    old(self).bytes(),
                    old(self).start_spec(),
                    old(self).end_spec(),
                    size,
                    oc,
                );
                let fits = hp + METADATA_SIZE + size <= old(self).end_spec();
                &&& r == (if fits {
                    Some((hp + METADATA_SIZE) as u64)
                } else {
                    None
                })
                &&& final(self).bytes() == (if fits {
                    with_header(
                        mid,
                        hp - old(self).start_spec(),
                        ALLOC_START,
                        size,
                        ALLOC_END,
                    )
                } else {
                    mid
                })
            }),
            (match r {
                Some(p) => {
                    &&& old(self).start_spec() + METADATA_SIZE <= p
                    &&& p + size <= old(self).end_spec()
                    &&& p % align == 0
                    &&& header_allocated(
                        final(self).bytes(),
                        p - METADATA_SIZE - old(self).start_spec(),
                    )
                    &&& header_size(
                        final(self).bytes(),
                        p - METADATA_SIZE - old(self).start_spec(),
                    ) == size
                },
                None => true,
            }),
            (forall|i: int| 0 <= i < old(self).bytes().len() ==> old(self).bytes()[i] == 0)
                && old(self).start_spec() + 2 * METADATA_SIZE + size + align <= old(
                self,
            ).end_spec() ==> r is Some,
    {
        let ghost s0 = old(self).bytes();
        let ghost oc = scan(
            s0,
            old(self).start_spec(),
            old(self).end_spec(),
            size,
            align,
            old(self).start_spec(),
        );
        let ghost all_zero = forall|i: int|
            0 <= i < old(self).bytes().len() ==> old(self).bytes()[i] == 0;
        let mut current_pos = self.start;
        proof {
            lemma_round_up((self.start + METADATA_SIZE) as u64, align);
        }
        let mut align_position = round_up(current_pos + METADATA_SIZE, align) - METADATA_SIZE;
        loop
            invariant_except_break
                *self == *old(self),
            invariant
                self.wf(),
                is_pow2(align),
                align <= 0x1_0000_0000,
                size < 0x1_0000_0000,
                self.start_spec() <= current_pos,
                current_pos <= 0x11_0000_0000_0000,
                align_position == spec_header_pos(current_pos, align),
                current_pos <= align_position,
                oc == scan(
                    s0,
                    self.start_spec(),
                    self.end_spec(),
                    size,
                    align,
                    current_pos,
                ),
                s0 == old(self).bytes(),
                oc == scan(
                    s0,
                    old(self).start_spec(),
                    old(self).end_spec(),
                    size,
                    align,
                    old(self).start_spec(),
                ),
                (all_zero ==> current_pos == self.start_spec()),
                all_zero == (forall|i: int|
                    0 <= i < old(self).bytes().len() ==> old(self).bytes()[i] == 0),
            ensures
                self.wf(),
                self.start_spec() == old(self).start_spec(),
                self.end_spec() == old(self).end_spec(),
                self.start_spec() <= current_pos <= align_position,
                current_pos == scan_current(oc),
                align_position == scan_header_pos(oc),
                self.bytes() == scan_bytes(s0, self.start_spec(), self.end_spec(), size, oc),
                (all_zero ==> current_pos == self.start_spec()),
            decreases 0x12_0000_0000_0000 - current_pos,
        {
            let kind = self.header_kind(align_position);
            match kind {
                None => {
                    proof {
                        assert(oc == ScanEnd::Stop {
                            current: current_pos,
                            header_pos: align_position,
                        });
                    }
                    break ;
                },
                Some(freed) => {
                    proof {
                        if all_zero {
                            let off = align_position - self.start_spec();
                            assert(old(self).bytes()[off as int] == 0);
                            assert(self.bytes()[off as int] == 0);
                            assert(false);
                        }
                    }
                    let hdr_size = self.read_header_size(align_position);
                    if hdr_size >= 0x1_0000_0000 {
                        proof {
                            assert(oc == ScanEnd::Stop {
                                current: current_pos,
                                header_pos: align_position,
                            });
                        }
                        break ;
                    }
                    if freed {
                        if hdr_size == size {
                            proof {
                                assert(oc == ScanEnd::Reuse {
                                    current: current_pos,
                                    header_pos: align_position,
                                });
                            }
                            break ;
                        } else if hdr_size >= size + METADATA_SIZE {
                            let ghost remainder = (hdr_size - (size + METADATA_SIZE)) as u64;
                            proof {
                                assert(oc == ScanEnd::Split {
                                    current: current_pos,
                                    header_pos: align_position,
                                    remainder,
                                });
                            }
                            let metadata_pos = align_position + METADATA_SIZE + size;
                            if METADATA_SIZE <= self.end && metadata_pos <= self.end
                                - METADATA_SIZE {
                                self.write_header(
                                    metadata_pos,
                                    FREE_START,
                                    hdr_size - (size + METADATA_SIZE),
                                    FREE_END,
                                );
                            }
                            proof {
                                assert(self.bytes() == scan_bytes(
                                    s0,
                                    self.start_spec(),
                                    self.end_spec(),
                                    size,
                                    oc,
                                ));
                            }
                            break ;
                        }
                    }
                    proof {
                        assert(align_position + METADATA_SIZE <= self.end_spec());
                    }
                    current_pos = current_pos + METADATA_SIZE + hdr_size;
                    proof {
                        lemma_round_up((current_pos + METADATA_SIZE) as u64, align);
                    }
                    align_position = round_up(current_pos + METADATA_SIZE, align)
                        - METADATA_SIZE;
                },
            }
        }
        if align_position <= self.end && METADATA_SIZE + size <= self.end - align_position {
            let ghost mid = self.bytes();
            self.write_header(align_position, ALLOC_START, size, ALLOC_END);
            proof {
                lemma_round_up((current_pos + METADATA_SIZE) as u64, align);
                lemma_aligned_mod((align_position + METADATA_SIZE) as u64, align);
            }
            Some(align_position + METADATA_SIZE)
        } else {
            proof {
                if all_zero && self.start_spec() + 2 * METADATA_SIZE + size + align
                    <= self.end_spec() {
                    lemma_round_up((current_pos + METADATA_SIZE) as u64, align);
                    assert(false);
                }
            }
            None
        }
    }

    /// Hand a block back: flip its header to the freed sentinels, but only
    /// when a valid allocated header sits before the pointer and the size
    /// matches; a mismatch leaves the heap untouched.
    pub fn dealloc(&mut self, ptr: u64, size: u64) -> (flipped: bool)
        requires
            old(self).wf(),
        ensures
            final(self).wf(),
            final(self).start_spec() == old(self).start_spec(),
            final(self).end_spec() == old(self).end_spec(),
            (flipped <==> ptr >= old(self).start_spec() + METADATA_SIZE && ptr
                <= old(self).end_spec() && header_allocated(
                old(self).bytes(),
                ptr - METADATA_SIZE - old(self).start_spec(),
            ) && header_size(old(self).bytes(), ptr - METADATA_SIZE - old(self).start_spec())
                == size),
            flipped ==> header_freed(
                final(self).bytes(),
                ptr - METADATA_SIZE - old(self).start_spec(),
            ) && header_size(final(self).bytes(), ptr - METADATA_SIZE - old(self).start_spec())
                == size,
            !flipped ==> *final(self) == *old(self),
    {
        if ptr < self.start + METADATA_SIZE || ptr > self.end {
            return false;
        }
        let metadata_ptr = ptr - METADATA_SIZE;
        match self.header_kind(metadata_ptr) {
            Some(false) => {
                let hdr_size = self.read_header_size(metadata_ptr);
                if hdr_size == size {
                    let recorded = self.read_header_size(metadata_ptr);
                    self.write_byte(metadata_ptr, FREE_START);
                    self.write_byte(metadata_ptr + 9, FREE_END);
                    proof {
                        assert(header_size(
                            self.bytes(),
                            metadata_ptr - self.start_spec(),
                        ) == size);
                    }
                    true
                } else {
                    false
                }
            },
            _ => false,
        }
    }

}

/// The next multiple of `align` at or above `pos`, plus nothing: the
/// mask-rounding the allocator uses.
pub open spec fn spec_round_up(pos: u64, align: u64) -> u64 {
    ((pos + (align - 1) as u64) as u64) & !((align - 1) as u64)
}

/// Executable mask-rounding, tied to its specification.
fn round_up(pos: u64, align: u64) -> (r: u64)
    requires
        is_pow2(align),
        align <= 0x1_0000_0000,
        pos <= 0x12_0000_0000_0000,
    ensures
        r == spec_round_up(pos, align),
{
    let mask = align - 1;
    proof {
        let p = pos;
        let a = align;
        assert(p + (a - 1) as u64 <= 0x12_0001_0000_0000 ==> true) by (bit_vector);
    }
    (pos + mask) & !mask
}

/// Rounding up lands between `pos` and `pos + align - 1`, on a multiple of
/// `align`.
pub proof fn lemma_round_up(pos: u64, align: u64)
    requires
        is_pow2(align),
        align <= 0x1_0000_0000,
        pos <= 0x12_0000_0000_0000,
    ensures
        pos <= spec_round_up(pos, align) <= pos + (align - 1),
        spec_round_up(pos, align) & ((align - 1) as u64) == 0,
        spec_round_up(pos, align) % align == 0,
{
    lemma_round_up_mask(pos, align);
    lemma_aligned_mod(spec_round_up(pos, align), align);
}

/// An already aligned position rounds up to itself.
pub proof fn lemma_round_up_aligned(pos: u64, align: u64)
    requires
        is_pow2(align),
        align <= 0x1_0000_0000,
        pos <= 0x12_0000_0000_0000,
        pos % align == 0,
    ensures
        spec_round_up(pos, align) == pos,
{
    lemma_round_up(pos, align);
    let r = spec_round_up(pos, align);
    assert(r == pos) by (nonlinear_arith)
        requires
            pos <= r <= pos + (align - 1),
            r % align == 0,
            pos % align == 0,
            align >= 1,
    ;
}

/// The mask form of the rounding bounds.
proof fn lemma_round_up_mask(pos: u64, align: u64)
    requires
        is_pow2(align),
        align <= 0x1_0000_0000,
        pos <= 0x12_0000_0000_0000,
    ensures
        pos <= spec_round_up(pos, align) <= pos + (align - 1),
        spec_round_up(pos, align) & ((align - 1) as u64) == 0,
{
    let p = pos;
    let a = align;
    assert((a >= 1 && (a & ((a - 1) as u64)) == 0 && a <= 0x1_0000_0000 && p
        <= 0x12_0000_0000_0000) ==> p <= (((p + (a - 1) as u64) as u64) & !((a - 1) as u64)) <= p
        + (a - 1) && ((((p + (a - 1) as u64) as u64) & !((a - 1) as u64)) & ((a - 1) as u64))
        == 0) by (bit_vector);
}


/// For a power-of-two divisor, the low-bits mask test and the modulo test
/// agree.
pub proof fn lemma_mask_is_mod(b: u64, o: u64)
    requires
        o <= 63,
    ensures
        (b & ((1u64 << o) - 1) as u64) == b % (1u64 << o),
        (1u64 << o) >= 1,
{
    vstd::bits::lemma_u64_pow2_no_overflow(o as nat);
    vstd::bits::lemma_u64_shl_is_mul(1u64, o);
    assert(1u64 << o == vstd::arithmetic::power2::pow2(o as nat));
    vstd::bits::lemma_u64_low_bits_mask_is_mod(b, o as nat);
}

/// Every power of two is some left shift of one.
pub proof fn lemma_pow2_exponent(a: u64)
    requires
        is_pow2(a),
    ensures
        exists|o: u64| o <= 63 && a == (1u64 << o),
    decreases a,
{
    if a == 1 {
        assert(1u64 == (1u64 << 0u64)) by (bit_vector);
        assert(0u64 <= 63 && a == (1u64 << 0u64));
    } else {
        assert((a & (a - 1) as u64) == 0 && a >= 1 && a != 1 ==> ((a >> 1) & ((a >> 1)
            - 1) as u64) == 0 && (a >> 1) >= 1 && (a >> 1) < a) by (bit_vector);
        lemma_pow2_exponent(a >> 1u64);
        let o = choose|o: u64| o <= 63 && (a >> 1u64) == (1u64 << o);
        assert((a & (a - 1) as u64) == 0 && a != 1 && a >= 1 && (a >> 1) == (1u64 << o) && o
            <= 63 ==> o <= 62 && a == (1u64 << ((o + 1) as u64))) by (bit_vector);
        assert(((o + 1) as u64) <= 63 && a == (1u64 << ((o + 1) as u64)));
    }
}

/// A value with the alignment's low bits clear is a multiple of it.
pub proof fn lemma_aligned_mod(p: u64, align: u64)
    requires
        is_pow2(align),
        p & ((align - 1) as u64) == 0,
    ensures
        p % align == 0,
{
    lemma_pow2_exponent(align);
    let o = choose|o: u64| o <= 63 && align == (1u64 << o);
    lemma_mask_is_mod(p, o);
}

} // verus!

