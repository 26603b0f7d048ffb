//! Virtual-memory core of a small kernel, rebuilt around explicit models so
//! that every rule it follows can be stated and checked.
//!
//! The crate covers physical-frame bookkeeping, the 4-level page-table walk
//! with its recursive self-mapping slot, the active/inactive table protocol
//! used while a new address space is built, the kernel remap step, and two
//! heap allocators (a metadata-tagged free list and a buddy allocator).
//! Hardware effects (register writes, translation-cache flushes, raw memory)
//! live outside the library; the library works on plain values and owned
//! buffers that stand for the machine state.
//!
//! Addresses are held as `u64` throughout: the target machine is 64-bit, and
//! canonical virtual addresses do not fit a 32-bit `usize`.

use vstd::prelude::*;

pub mod allocator;
pub mod ata;
pub mod buddy_allocator;
pub mod executor;
pub mod interrupt;
pub mod memory;
pub mod paging;
pub mod print;
pub mod toml;
pub mod ttf;

verus! {

/// One virtual page or physical frame is this many bytes.
pub const PAGE_SIZE: u64 = 4096;

/// Something the kernel's test harness can run.
pub trait Testable {
    /// Run the test.
    fn run(&self);
}

/// Run every given test in order.
pub fn test_runner<T: Testable>(tests: &[T]) {
    let mut i: usize = 0;
    while i < tests.len()
        decreases tests@.len() - i,
    {
        tests[i].run();
        i = i + 1;
    }
}

/// How the kernel asks the emulator to exit after its tests.
#[derive(Debug, Clone, Copy, PartialEq, Eq, Structural)]
pub enum QemuExitCode {
    /// All tests passed.
    Success,
    /// A test failed.
    Failed,
}

impl QemuExitCode {
    /// The value written to the emulator's exit port.
    pub fn code(self) -> (r: u32)
        ensures
            self == QemuExitCode::Success ==> r == 0x10,
            self == QemuExitCode::Failed ==> r == 0x11,
    {
        match self {
            QemuExitCode::Success => 0x10,
            QemuExitCode::Failed => 0x11,
        }
    }
}

} // verus!
