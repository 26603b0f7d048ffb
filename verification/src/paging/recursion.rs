//! The recursive-mapping address synthesis: because slot 511 of the active
//! level-4 table maps the table's own frame, every live table is reachable
//! at a virtual address computed purely from its ancestor indices, with no
//! pointer chasing.  All of that address synthesis lives here.
//!
//! A walk that passes through the recursive slot once lands on a level-3
//! table, twice on a level-2 table, three times on a level-1 table, and
//! four times on the level-4 table itself.

use vstd::prelude::*;

verus! {

use crate::PAGE_SIZE;
use crate::paging::{spec_p4_index, spec_p3_index, spec_p2_index, spec_p1_index, VirtualAddress};
use crate::paging::table::page_canonical;

/// The reserved slot of every level-4 table that maps the table itself.
pub const RECURSIVE_INDEX: u64 = 511;

/// The sign-extension bits of a page number whose top index is the
/// recursive slot: bits 36 to 51 copy the top index bit.
pub const HIGH_PAGE_BITS: u64 = 0xf_fff8_0000_0000;

/// The page through which the active level-4 table reads itself: every
/// index of its address is the recursive slot.
pub const P4_TABLE_PAGE: u64 = 0xf_ffff_ffff_ffff;

/// The level-4 table's fixed virtual address.
pub const P4_TABLE_ADDRESS: u64 = 0xffff_ffff_ffff_f000;

/// The page of the level-3 table serving level-4 slot `a`: one pass
/// through the recursive slot, then `a`.
pub fn p3_table_page(a: u64) -> (n: u64)
    requires
        a < 512,
    ensures
        spec_p4_index(n) == RECURSIVE_INDEX,
        spec_p3_index(n) == RECURSIVE_INDEX,
        spec_p2_index(n) == RECURSIVE_INDEX,
        spec_p1_index(n) == a,
        page_canonical(n),
{
    proof {
        lemma_recursive_page_fields(RECURSIVE_INDEX, RECURSIVE_INDEX, a);
    }
    HIGH_PAGE_BITS | (RECURSIVE_INDEX << 27u64) | (RECURSIVE_INDEX << 18u64) | (RECURSIVE_INDEX
        << 9u64) | a
}

/// The page of the level-2 table serving level-4 slot `a` and level-3 slot
/// `b`: two passes through the recursive slot, then `a`, `b`.
pub fn p2_table_page(a: u64, b: u64) -> (n: u64)
    requires
        a < 512,
        b < 512,
    ensures
        spec_p4_index(n) == RECURSIVE_INDEX,
        spec_p3_index(n) == RECURSIVE_INDEX,
        spec_p2_index(n) == a,
        spec_p1_index(n) == b,
        page_canonical(n),
{
    proof {
        lemma_recursive_page_fields(RECURSIVE_INDEX, a, b);
    }
    HIGH_PAGE_BITS | (RECURSIVE_INDEX << 27u64) | (RECURSIVE_INDEX << 18u64) | (a << 9u64) | b
}

/// The page of the level-1 table serving level-4 slot `a`, level-3 slot
/// `b` and level-2 slot `c`.
pub fn p1_table_page(a: u64, b: u64, c: u64) -> (n: u64)
    requires
        a < 512,
        b < 512,
        c < 512,
    ensures
        spec_p4_index(n) == RECURSIVE_INDEX,
        spec_p3_index(n) == a,
        spec_p2_index(n) == b,
        spec_p1_index(n) == c,
        page_canonical(n),
{
    proof {
        lemma_recursive_page_fields(a, b, c);
    }
    HIGH_PAGE_BITS | (RECURSIVE_INDEX << 27u64) | (a << 18u64) | (b << 9u64) | c
}

/// The virtual address a recursive-mapped table page starts at.
pub fn table_page_address(n: u64) -> (r: VirtualAddress)
    requires
        n < 0x10_0000_0000_0000,
    ensures
        r == n * PAGE_SIZE,
{
    proof {
        assert(n * 4096 <= (0x10_0000_0000_0000 - 1) * 4096) by (nonlinear_arith)
            requires
                n < 0x10_0000_0000_0000,
        ;
    }
    n * PAGE_SIZE
}

/// The four indices and canonicality of a recursive-range page built from
/// three 9-bit slots.
proof fn lemma_recursive_page_fields(x: u64, y: u64, z: u64)
    by (bit_vector)
    requires
        x < 512,
        y < 512,
        z < 512,
    ensures
        ((0xf_fff8_0000_0000u64 | (511u64 << 27) | (x << 18) | (y << 9) | z) >> 27) & 0o777
            == 511,
        ((0xf_fff8_0000_0000u64 | (511u64 << 27) | (x << 18) | (y << 9) | z) >> 18) & 0o777 == x,
        ((0xf_fff8_0000_0000u64 | (511u64 << 27) | (x << 18) | (y << 9) | z) >> 9) & 0o777 == y,
        (0xf_fff8_0000_0000u64 | (511u64 << 27) | (x << 18) | (y << 9) | z) & 0o777 == z,
        0xf_fff8_0000_0000u64 <= (0xf_fff8_0000_0000u64 | (511u64 << 27) | (x << 18) | (y << 9)
            | z) < 0x10_0000_0000_0000,
{
}

} // verus!
