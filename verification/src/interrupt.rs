//! Interrupt vector numbers: where the remapped controller lines land in
//! the interrupt table.

use vstd::prelude::*;

verus! {

/// Vector base of the first interrupt controller.
pub const PIC_1_OFFSET: u8 = 32;

/// Vector base of the second interrupt controller.
pub const PIC_2_OFFSET: u8 = PIC_1_OFFSET + 8;

/// The hardware interrupt lines the kernel handles.
#[derive(Debug, Clone, Copy, PartialEq, Eq, Structural)]
pub enum InterruptIndex {
    /// The timer tick.
    Timer,
    /// The keyboard controller.
    Keyboard,
    /// The primary disk controller.
    PrimaryATA,
    /// The secondary disk controller.
    SecondaryATA,
}

/// The interrupt vector each line maps to.
pub open spec fn vector_of(index: InterruptIndex) -> u8 {
    match index {
        InterruptIndex::Timer => PIC_1_OFFSET,
        InterruptIndex::Keyboard => (PIC_1_OFFSET + 1) as u8,
        InterruptIndex::PrimaryATA => (PIC_1_OFFSET + 14) as u8,
        InterruptIndex::SecondaryATA => (PIC_1_OFFSET + 15) as u8,
    }
}

impl InterruptIndex {
    /// The interrupt vector of the line.
    pub fn as_u8(self) -> (r: u8)
        ensures
            r == vector_of(self),
    {
        match self {
            InterruptIndex::Timer => PIC_1_OFFSET,
            InterruptIndex::Keyboard => PIC_1_OFFSET + 1,
            InterruptIndex::PrimaryATA => PIC_1_OFFSET + 14,
            InterruptIndex::SecondaryATA => PIC_1_OFFSET + 15,
        }
    }

    /// The interrupt vector of the line, as a table index.
    pub fn as_usize(self) -> (r: usize)
        ensures
            r == vector_of(self) as usize,
    {
        self.as_u8() as usize
    }
}

} // verus!
