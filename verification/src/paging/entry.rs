//! One 64-bit page-table entry: a flag bitmask in the low 12 bits plus bit
//! 63, and a frame index in bits 12 to 51.

use vstd::prelude::*;

verus! {

use crate::PAGE_SIZE;
use crate::memory::{Frame, FRAME_LIMIT};

/// The entry maps a frame (or points at a lower-level table).
pub const PRESENT: u64 = 0x1;

/// Writes through the mapping are allowed.
pub const WRITABLE: u64 = 0x2;

/// User-mode code may use the mapping.
pub const USER_ACCESSIBLE: u64 = 0x4;

/// Writes go straight to memory.
pub const WRITE_THROUGH: u64 = 0x8;

/// No cache is used for the mapping.
pub const NO_CACHE: u64 = 0x10;

/// The CPU has read through the mapping.
pub const ACCESSED: u64 = 0x20;

/// The CPU has written through the mapping.
pub const DIRTY: u64 = 0x40;

/// The entry maps a large page directly instead of a lower-level table.
pub const HUGE_PAGE: u64 = 0x80;

/// The mapping survives an address-space switch.
pub const GLOBAL: u64 = 0x100;

/// No instruction fetch is allowed through the mapping.
pub const NO_EXECUTE: u64 = 0x8000_0000_0000_0000;

/// All bits an entry uses for flags.
pub const FLAGS_MASK: u64 = 0x8000_0000_0000_01ff;

/// The bits of an entry that hold the mapped frame's physical address.
pub const ADDRESS_MASK: u64 = 0x000f_ffff_ffff_f000;

/// A set of entry flags, held as the bitmask the hardware reads.
#[derive(Debug, Clone, Copy, PartialEq, Eq, Structural)]
pub struct EntryFlags {
    pub bits: u64,
}

impl EntryFlags {
    /// No flag set.
    pub fn empty() -> (f: EntryFlags)
        ensures
            f.bits == 0,
    {
        EntryFlags { bits: 0 }
    }

    /// The flags named by `bits`, with unknown bits dropped.
    pub fn from_bits_truncate(bits: u64) -> (f: EntryFlags)
        ensures
            f.bits == bits & FLAGS_MASK,
    {
        EntryFlags { bits: bits & FLAGS_MASK }
    }

    /// True when every flag of `other` is set in `self`.
    pub fn contains(&self, other: EntryFlags) -> (r: bool)
        ensures
            r == (self.bits & other.bits == other.bits),
    {
        self.bits & other.bits == other.bits
    }

    /// Both flag sets combined.
    pub fn union(self, other: EntryFlags) -> (f: EntryFlags)
        ensures
            f.bits == self.bits | other.bits,
    {
        EntryFlags { bits: self.bits | other.bits }
    }

    /// Flags for a loaded ELF section: present when the section occupies
    /// memory, writable when the section is, and no-execute unless the
    /// section holds code.
    pub fn from_elf_section_flags(section: &ElfSectionInfo) -> (f: EntryFlags)
        ensures
            f.bits == (if section.allocated {
                PRESENT
            } else {
                0
            }) | (if section.writable {
                WRITABLE
            } else {
                0
            }) | (if section.executable {
                0
            } else {
                NO_EXECUTE
            }),
    {
        let present: u64 = if section.allocated {
            PRESENT
        } else {
            0
        };
        let writable: u64 = if section.writable {
            WRITABLE
        } else {
            0
        };
        let no_execute: u64 = if section.executable {
            0
        } else {
            NO_EXECUTE
        };
        EntryFlags { bits: present | writable | no_execute }
    }
}

/// What the kernel reads of one ELF section: its virtual address range and
/// the three flags the remap step looks at.
#[derive(Debug, Clone, Copy, PartialEq, Eq, Structural)]
pub struct ElfSectionInfo {
    /// First virtual address of the section.
    pub start: u64,
    /// One past the last virtual address of the section.
    pub end: u64,
    /// The section occupies memory when loaded.
    pub allocated: bool,
    /// The section is written to at run time.
    pub writable: bool,
    /// The section holds code.
    pub executable: bool,
}

/// True when the raw entry has its present flag set.
pub open spec fn entry_present(value: u64) -> bool {
    value & PRESENT == PRESENT
}

/// True when the raw entry maps a large page directly.
pub open spec fn entry_huge(value: u64) -> bool {
    value & HUGE_PAGE == HUGE_PAGE
}

/// The frame index held in the raw entry's address bits.
pub open spec fn entry_frame(value: u64) -> u64 {
    (value & ADDRESS_MASK) >> 12
}

/// The flag bits of the raw entry.
pub open spec fn entry_flags(value: u64) -> u64 {
    value & FLAGS_MASK
}

/// The raw entry that maps `frame` with `flags`: the frame's physical
/// address (its index shifted into bits 12 and up) combined with the flags.
pub open spec fn entry_for(frame: u64, flags: u64) -> u64 {
    (frame << 12) | flags
}

/// Writing a frame index and flags into an entry stores both exactly.
pub proof fn lemma_entry_roundtrip(frame: u64, flags: u64)
    requires
        frame < FRAME_LIMIT,
        flags & FLAGS_MASK == flags,
    ensures
        entry_frame(entry_for(frame, flags)) == frame,
        entry_flags(entry_for(frame, flags)) == flags,
        entry_present(entry_for(frame, flags)) == (flags & PRESENT == PRESENT),
        entry_huge(entry_for(frame, flags)) == (flags & HUGE_PAGE == HUGE_PAGE),
{
    assert((((frame << 12) | flags) & 0x000f_ffff_ffff_f000) >> 12 == frame
        && ((frame << 12) | flags) & 0x8000_0000_0000_01ff == flags
        && ((((frame << 12) | flags) & 0x1 == 0x1) == (flags & 0x1 == 0x1))
        && ((((frame << 12) | flags) & 0x80 == 0x80) == (flags & 0x80 == 0x80))) by (bit_vector)
        requires
            frame < 0x100_0000_0000,
            flags & 0x8000_0000_0000_01ff == flags,
    ;
}

/// One slot of a page table, wrapping the raw 64-bit value.
#[derive(Debug, Clone, Copy, PartialEq, Eq, Structural)]
pub struct Entry {
    pub value: u64,
}

impl Entry {
    /// Wrap a raw entry value.
    pub fn new(value: u64) -> (e: Entry)
        ensures
            e.value == value,
    {
        Entry { value }
    }

    /// True when the slot holds nothing at all.
    pub fn is_unused(&self) -> (r: bool)
        ensures
            r == (self.value == 0),
    {
        self.value == 0
    }

    /// Clear the slot.
    pub fn set_unused(&mut self)
        ensures
            final(self).value == 0,
    {
        self.value = 0;
    }

    /// The flag bits of the slot.
    pub fn flags(&self) -> (f: EntryFlags)
        ensures
            f.bits == entry_flags(self.value),
    {
        EntryFlags::from_bits_truncate(self.value)
    }

    /// The frame the slot maps, when it is present.
    pub fn pointed_frame(&self) -> (r: Option<Frame>)
        ensures
            entry_present(self.value) ==> r == Some(Frame { number: entry_frame(self.value) }),
            !entry_present(self.value) ==> r == None::<Frame>,
    {
        proof {
            let v = self.value;
            assert((v & 0x8000_0000_0000_01ff & 0x1 == 0x1) == (v & 0x1 == 0x1)) by (bit_vector);
        }
        if self.flags().contains(EntryFlags { bits: PRESENT }) {
            Some(Frame { number: (self.value & ADDRESS_MASK) >> 12 })
        } else {
            None
        }
    }

    /// Point the slot at `frame` with `flags`.
    pub fn set(&mut self, frame: Frame, flags: EntryFlags)
        requires
            frame.number < FRAME_LIMIT,
            flags.bits & FLAGS_MASK == flags.bits,
        ensures
            final(self).value == entry_for(frame.number, flags.bits),
    {
        self.value = (frame.number << 12u64) | flags.bits;
    }
}


/// A cleared slot maps nothing.
pub proof fn lemma_zero_entry()
    by (bit_vector)
    ensures
        !entry_present(0u64),
        !entry_huge(0u64),
{
}

/// The flag combinations the mapper writes, against the masks.
pub proof fn lemma_common_flags()
    by (bit_vector)
    ensures
        (PRESENT | WRITABLE) & FLAGS_MASK == (PRESENT | WRITABLE),
        (PRESENT | WRITABLE) & PRESENT == PRESENT,
        (PRESENT | WRITABLE) & HUGE_PAGE != HUGE_PAGE,
        PRESENT & FLAGS_MASK == PRESENT,
        WRITABLE & FLAGS_MASK == WRITABLE,
        PRESENT | PRESENT == PRESENT,
        PRESENT | WRITABLE == 3u64,
{
}

/// A frame index read from an entry fits its 40 bits.
pub proof fn lemma_entry_frame_bound(e: u64)
    by (bit_vector)
    ensures
        entry_frame(e) <= 0xff_ffff_ffff,
{
}

/// A huge entry's flag bits keep the huge flag.
pub proof fn lemma_huge_flag_kept(e: u64)
    by (bit_vector)
    ensures
        entry_huge(e) ==> entry_flags(e) & HUGE_PAGE != 0,
{
}

} // verus!
