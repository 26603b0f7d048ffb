//! The 4-level page-table abstraction: virtual pages, table entries, the
//! recursive self-mapping slot, and the mapper that edits a table hierarchy.

use vstd::prelude::*;

pub mod entry;
pub mod table;
pub mod mapper;
pub mod recursion;
pub mod remap;

verus! {

use crate::PAGE_SIZE;
use crate::memory::{Frame, FrameAllocator, FRAME_LIMIT};
use crate::paging::entry::{entry_for, EntryFlags, PRESENT, WRITABLE};
use crate::paging::table::{
    StoreView,
    walk,
    page_canonical,
    walks_preserved,
    walks_preserved_except,
    slot_updated,
};
use crate::paging::mapper::{Mapper, mapper_disjoint, levels_extend};

/// A physical address: a plain byte address into physical memory.
pub type PhysicalAddress = u64;

/// A virtual address: a canonical 64-bit byte address.
pub type VirtualAddress = u64;

/// Each table of the hierarchy holds this many entries.
pub const ENTRY_COUNT: u64 = 512;

/// Page numbers occupy at most 52 bits (a virtual address divided by the
/// page size).
pub const PAGE_LIMIT: u64 = 0x10_0000_0000_0000;

/// Start of the non-canonical hole: no virtual address at or above this value
/// is valid unless it is sign-extended into the high half.
pub const LOW_HALF_END: u64 = 0x0000_8000_0000_0000;

/// First address of the canonical high half.
pub const HIGH_HALF_START: u64 = 0xffff_8000_0000_0000;

/// True of the virtual addresses the hardware accepts: below the hole or
/// sign-extended above it.
pub open spec fn address_is_canonical(address: VirtualAddress) -> bool {
    address < LOW_HALF_END || address >= HIGH_HALF_START
}

/// Index into the level-4 table for a page number.
pub open spec fn spec_p4_index(number: u64) -> u64 {
    (number >> 27) & 0o777
}

/// Index into the level-3 table for a page number.
pub open spec fn spec_p3_index(number: u64) -> u64 {
    (number >> 18) & 0o777
}

/// Index into the level-2 table for a page number.
pub open spec fn spec_p2_index(number: u64) -> u64 {
    (number >> 9) & 0o777
}

/// Index into the level-1 table for a page number.
pub open spec fn spec_p1_index(number: u64) -> u64 {
    number & 0o777
}

/// Each of the four indices is a 9-bit value.
pub proof fn lemma_indices_in_range(number: u64)
    ensures
        spec_p4_index(number) < 512,
        spec_p3_index(number) < 512,
        spec_p2_index(number) < 512,
        spec_p1_index(number) < 512,
{
    assert((number >> 27) & 0o777 < 512) by (bit_vector);
    assert((number >> 18) & 0o777 < 512) by (bit_vector);
    assert((number >> 9) & 0o777 < 512) by (bit_vector);
    assert(number & 0o777 < 512) by (bit_vector);
}

/// Identifies one virtual page by index; constructed only from canonical
/// addresses.
#[derive(Debug, Clone, Copy, PartialEq, Eq, Structural)]
pub struct Page {
    pub number: u64,
}

impl Page {
    /// The page that holds the given virtual address.
    ///
    /// Every address strictly inside the non-canonical hole (between the end
    /// of the low half and the start of the high half) is refused by the
    /// precondition: such an address never names a page.
    pub fn containing_address(address: VirtualAddress) -> (p: Page)
        requires
            address_is_canonical(address),
        ensures
            p.number == address / PAGE_SIZE,
            p.number < PAGE_LIMIT,
    {
        Page { number: address / PAGE_SIZE }
    }

    /// First virtual address inside the page.
    pub fn start_address(&self) -> (a: VirtualAddress)
        requires
            self.number < PAGE_LIMIT,
        ensures
            a == self.number * PAGE_SIZE,
    {
        proof {
            assert(self.number * 4096 <= (PAGE_LIMIT - 1) * 4096) by (nonlinear_arith)
                requires
                    self.number < PAGE_LIMIT,
            ;
        }
        self.number * PAGE_SIZE
    }

    /// Index of this page's slot in the level-4 table.
    pub fn p4_index(&self) -> (i: u64)
        ensures
            i == spec_p4_index(self.number),
            i < 512,
    {
        proof {
            lemma_indices_in_range(self.number);
        }
        (self.number >> 27) & 0o777
    }

    /// Index of this page's slot in the level-3 table.
    pub fn p3_index(&self) -> (i: u64)
        ensures
            i == spec_p3_index(self.number),
            i < 512,
    {
        proof {
            lemma_indices_in_range(self.number);
        }
        (self.number >> 18) & 0o777
    }

    /// Index of this page's slot in the level-2 table.
    pub fn p2_index(&self) -> (i: u64)
        ensures
            i == spec_p2_index(self.number),
            i < 512,
    {
        proof {
            lemma_indices_in_range(self.number);
        }
        (self.number >> 9) & 0o777
    }

    /// Index of this page's slot in the level-1 table.
    pub fn p1_index(&self) -> (i: u64)
        ensures
            i == spec_p1_index(self.number),
            i < 512,
    {
        proof {
            lemma_indices_in_range(self.number);
        }
        self.number & 0o777
    }

    /// All pages from `start` to `end`, both included.
    pub fn range_inclusive(start: Page, end: Page) -> (it: PageIter)
        ensures
            it.start == start,
            it.end == end,
    {
        PageIter { start, end }
    }
}

/// Every address strictly inside the non-canonical hole fails the canonical
/// test, so `Page::containing_address` refuses it.
pub proof fn lemma_noncanonical_hole_rejected(address: VirtualAddress)
    requires
        LOW_HALF_END <= address < HIGH_HALF_START,
    ensures
        !address_is_canonical(address),
{
}

/// Enumerates the pages of an inclusive range, one index per step.
pub struct PageIter {
    pub start: Page,
    pub end: Page,
}

impl PageIter {
    /// The next page of the range, or `None` once the range is exhausted.
    pub fn next(&mut self) -> (r: Option<Page>)
        requires
            old(self).end.number < u64::MAX,
        ensures
            old(self).start.number <= old(self).end.number ==> r == Some(old(self).start)
                && final(self).start.number == old(self).start.number + 1,
            old(self).start.number > old(self).end.number ==> r == None::<Page>
                && *final(self) == *old(self),
            final(self).end == old(self).end,
    {
        if self.start.number <= self.end.number {
            let page = self.start;
            self.start.number = self.start.number + 1;
            Some(page)
        } else {
            None
        }
    }
}


/// An operation run against the mapper while an inactive hierarchy is
/// exposed through `with`: the shape the original closure takes.
///
/// `op_requires` and `op_ensures` speak over the store, levels, walk root
/// and allocator, so `with` can hand the operation a mapper whose root is
/// the inactive table.
pub trait MapperOp<A: FrameAllocator>: Sized {
    /// What the operation needs of the state it is run against.
    spec fn op_requires(&self, s: StoreView, lv: Map<u64, nat>, root: u64, a: A) -> bool;

    /// What the operation guarantees of the state it leaves behind.
    spec fn op_ensures(
        &self,
        s0: StoreView,
        lv0: Map<u64, nat>,
        root: u64,
        a0: A,
        new_self: Self,
        s1: StoreView,
        lv1: Map<u64, nat>,
        a1: A,
    ) -> bool;

    /// Run the operation against the mapper.
    fn run(&mut self, mapper: &mut Mapper, allocator: &mut A)
        requires
            old(mapper).wf(),
            old(allocator).inv(),
            mapper_disjoint(*old(mapper), *old(allocator)),
            old(self).op_requires(
                old(mapper).store(),
                old(mapper).lv(),
                old(mapper).root(),
                *old(allocator),
            ),
        ensures
            final(mapper).wf(),
            final(allocator).inv(),
            mapper_disjoint(*final(mapper), *final(allocator)),
            final(mapper).root() == old(mapper).root(),
            levels_extend(old(mapper).lv(), final(mapper).lv()),
            forall|g: u64| final(allocator).grantable(g) ==> old(allocator).grantable(g),
            old(self).op_ensures(
                old(mapper).store(),
                old(mapper).lv(),
                old(mapper).root(),
                *old(allocator),
                *final(self),
                final(mapper).store(),
                final(mapper).lv(),
                *final(allocator),
            ),
    ;
}

/// A table built or held offline, known only by the frame of its top-level
/// table; it can be switched to or temporarily exposed, never dereferenced.
pub struct InactivePageTable {
    /// The frame holding the table's level-4 structure.
    pub p4_frame: Frame,
}

impl InactivePageTable {
    /// Build a fresh inactive hierarchy in `frame`: the table is zeroed
    /// through the temporary window and its recursive slot is pointed at
    /// itself.
    pub fn new(
        frame: Frame,
        active_table: &mut ActivePageTable,
        temporary_page: &mut TemporaryPage,
    ) -> (t: InactivePageTable)
        requires
            old(active_table).mapper.wf(),
            !old(active_table).mapper.store().contains_key(frame.number),
            frame.number < FRAME_LIMIT,
            old(temporary_page).mapped is None,
            old(temporary_page).page.number < PAGE_LIMIT,
        ensures
            t.p4_frame == frame,
            final(active_table).mapper.wf(),
            final(active_table).mapper.root() == old(active_table).mapper.root(),
            final(active_table).mapper.store().contains_key(frame.number),
            final(active_table).mapper.lv()
                == old(active_table).mapper.lv().insert(frame.number, 4nat),
            final(active_table).mapper.store()[frame.number][511] == entry_for(
                frame.number,
                PRESENT | WRITABLE,
            ),
            walks_preserved(
                old(active_table).mapper.store(),
                old(active_table).mapper.lv(),
                final(active_table).mapper.store(),
            ),
            forall|q: u64|
                page_canonical(q) && spec_p4_index(q) != 511 ==> walk(
                    final(active_table).mapper.store(),
                    frame.number,
                    q,
                ) == None::<(u64, u64)>,
            forall|ff: u64|
                #[trigger] old(active_table).mapper.store().contains_key(ff)
                    ==> final(active_table).mapper.store().contains_key(ff)
                    && final(active_table).mapper.store()[ff]
                    == old(active_table).mapper.store()[ff],
            *final(temporary_page) == *old(temporary_page),
    {
        temporary_page.map_table_frame(frame, active_table);
        active_table.mapper.install_root_table(frame);
        temporary_page.unmap(active_table);
        InactivePageTable { p4_frame: frame }
    }
}

/// A single reserved virtual page used as scratch space: on hardware it maps
/// an arbitrary frame so the kernel can reach it for one operation.  In this
/// model the tables are reached through the store, so the window only tracks
/// which frame it exposes.
pub struct TemporaryPage {
    /// The reserved page.
    pub page: Page,
    /// The frame currently exposed through the window, if any.
    pub mapped: Option<Frame>,
}

impl TemporaryPage {
    /// A free window at the given reserved page.
    pub fn new(page: Page) -> (t: TemporaryPage)
        ensures
            t.page == page,
            t.mapped is None,
    {
        TemporaryPage { page, mapped: None }
    }

    /// Expose `frame` through the window and return the virtual address it
    /// is reachable at.
    pub fn map(&mut self, frame: Frame, active_table: &mut ActivePageTable) -> (a: VirtualAddress)
        requires
            old(self).mapped is None,
            old(self).page.number < PAGE_LIMIT,
        ensures
            final(self).page == old(self).page,
            final(self).mapped == Some(frame),
            a == old(self).page.number * PAGE_SIZE,
            *final(active_table) == *old(active_table),
    {
        let addr = self.page.start_address();
        self.mapped = Some(frame);
        addr
    }

    /// Expose a table frame through the window.
    pub fn map_table_frame(&mut self, frame: Frame, active_table: &mut ActivePageTable) -> (a:
        VirtualAddress)
        requires
            old(self).mapped is None,
            old(self).page.number < PAGE_LIMIT,
        ensures
            final(self).page == old(self).page,
            final(self).mapped == Some(frame),
            a == old(self).page.number * PAGE_SIZE,
            *final(active_table) == *old(active_table),
    {
        self.map(frame, active_table)
    }

    /// Close the window.
    pub fn unmap(&mut self, active_table: &mut ActivePageTable)
        requires
            old(self).mapped is Some,
        ensures
            final(self).page == old(self).page,
            final(self).mapped is None,
            *final(active_table) == *old(active_table),
    {
        self.mapped = None;
    }
}

/// The table the CPU's page-table base register points at: the hierarchy
/// every memory access is translated through.  Owns the mapper capability,
/// which is only meaningful while this table is the active one.
pub struct ActivePageTable {
    /// The mapping capability over the active hierarchy.
    pub mapper: Mapper,
}

impl ActivePageTable {
    /// The active-table view of a fresh self-mapped hierarchy in `p4_frame`.
    ///
    /// On hardware the active table is found in the base register; here the
    /// caller names the frame that register holds.
    pub fn new(p4_frame: Frame) -> (t: ActivePageTable)
        requires
            p4_frame.number < FRAME_LIMIT,
        ensures
            t.mapper.wf(),
            t.mapper.root() == p4_frame.number,
            t.mapper.store().dom() =~= Set::empty().insert(p4_frame.number),
            t.mapper.store()[p4_frame.number][511] == entry_for(
                p4_frame.number,
                PRESENT | WRITABLE,
            ),
            forall|q: u64|
                page_canonical(q) && spec_p4_index(q) != 511 ==> t.mapper.walk_page(q) == None::<(
                    u64,
                    u64,
                )>,
    {
        ActivePageTable { mapper: Mapper::new(p4_frame) }
    }

    /// The physical address the active hierarchy resolves `virtual_address`
    /// to, or nothing when the address is unmapped.
    pub fn translate(&self, virtual_address: VirtualAddress) -> (r: Option<PhysicalAddress>)
        requires
            self.mapper.wf(),
            address_is_canonical(virtual_address),
        ensures
            (match self.mapper.walk_page(virtual_address / PAGE_SIZE) {
                Some(pair) => r == Some((pair.0 * PAGE_SIZE + virtual_address % PAGE_SIZE) as u64),
                None => r == None::<PhysicalAddress>,
            }),
    {
        self.mapper.translate(virtual_address)
    }

    /// Run `op` against the mapper while the inactive table is exposed: the
    /// active table's recursive slot is pointed at the inactive table, the
    /// operation edits that hierarchy, and the slot is restored afterwards.
    ///
    /// On hardware the translation cache must be flushed right after the
    /// redirect and right after the restore; those flushes are machine
    /// effects outside this model.
    ///
    /// Whatever the operation did, the active table's recursive slot points
    /// at the active table's own frame again when `with` returns.
    pub fn with<A: FrameAllocator, O: MapperOp<A>>(
        &mut self,
        table: &mut InactivePageTable,
        temporary_page: &mut TemporaryPage,
        op: &mut O,
        allocator: &mut A,
    )
        requires
            old(self).mapper.wf(),
            old(allocator).inv(),
            mapper_disjoint(old(self).mapper, *old(allocator)),
            old(self).mapper.root() < FRAME_LIMIT,
            old(self).mapper.store().contains_key(old(table).p4_frame.number),
            old(self).mapper.lv()[old(table).p4_frame.number] == 4,
            old(table).p4_frame.number < FRAME_LIMIT,
            old(temporary_page).mapped is None,
            old(temporary_page).page.number < PAGE_LIMIT,
            old(op).op_requires(
                slot_updated(
                    old(self).mapper.store(),
                    old(self).mapper.root(),
                    511,
                    entry_for(old(table).p4_frame.number, PRESENT | WRITABLE),
                ),
                old(self).mapper.lv(),
                old(table).p4_frame.number,
                *old(allocator),
            ),
        ensures
            final(self).mapper.wf(),
            final(allocator).inv(),
            mapper_disjoint(final(self).mapper, *final(allocator)),
            final(self).mapper.root() == old(self).mapper.root(),
            levels_extend(old(self).mapper.lv(), final(self).mapper.lv()),
            forall|g: u64| final(allocator).grantable(g) ==> old(allocator).grantable(g),
            *final(table) == *old(table),
            final(temporary_page).page == old(temporary_page).page,
            final(temporary_page).mapped is None,
            final(self).mapper.store()[final(self).mapper.root()][511] == entry_for(
                old(self).mapper.root(),
                PRESENT | WRITABLE,
            ),
            (exists|s_mid: StoreView|
                {
                    &&& old(op).op_ensures(
                        slot_updated(
                            old(self).mapper.store(),
                            old(self).mapper.root(),
                            511,
                            entry_for(old(table).p4_frame.number, PRESENT | WRITABLE),
                        ),
                        old(self).mapper.lv(),
                        old(table).p4_frame.number,
                        *old(allocator),
                        *final(op),
                        s_mid,
                        final(self).mapper.lv(),
                        *final(allocator),
                    )
                    &&& final(self).mapper.store() == slot_updated(
                        s_mid,
                        old(self).mapper.root(),
                        511,
                        entry_for(old(self).mapper.root(), PRESENT | WRITABLE),
                    )
                    &&& walks_preserved(s_mid, final(self).mapper.lv(), final(self).mapper.store())
                }),
    {
        let backup = self.mapper.root_frame();
        let ghost s0 = self.mapper.store();
        let ghost lv0 = self.mapper.lv();
        temporary_page.map_table_frame(Frame { number: backup }, self);
        self.mapper.set_recursive_slot(backup, table.p4_frame);
        proof {
            assert(self.mapper.store() =~= slot_updated(
                s0,
                backup,
                511,
                entry_for(table.p4_frame.number, PRESENT | WRITABLE),
            ));
        }
        self.mapper.set_root(table.p4_frame.number);
        op.run(&mut self.mapper, allocator);
        let ghost s_mid = self.mapper.store();
        self.mapper.set_recursive_slot(backup, Frame { number: backup });
        proof {
            assert(self.mapper.store() =~= slot_updated(
                s_mid,
                backup,
                511,
                entry_for(backup, PRESENT | WRITABLE),
            ));
        }
        self.mapper.set_root(backup);
        temporary_page.unmap(self);
    }

    /// Make `new_table` the active hierarchy and hand back the previously
    /// active one as an inactive table.
    ///
    /// On hardware this is the single write of the page-table base register;
    /// that write is a machine effect outside this model.
    pub fn switch(&mut self, new_table: InactivePageTable) -> (old_table: InactivePageTable)
        requires
            old(self).mapper.wf(),
            old(self).mapper.store().contains_key(new_table.p4_frame.number),
            old(self).mapper.lv()[new_table.p4_frame.number] == 4,
        ensures
            final(self).mapper.wf(),
            final(self).mapper.root() == new_table.p4_frame.number,
            final(self).mapper.store() == old(self).mapper.store(),
            final(self).mapper.lv() == old(self).mapper.lv(),
            old_table.p4_frame.number == old(self).mapper.root(),
    {
        let old_frame = self.mapper.root_frame();
        self.mapper.set_root(new_table.p4_frame.number);
        InactivePageTable { p4_frame: Frame { number: old_frame } }
    }
}


/// Round trip: a page mapped to a frame translates to exactly that frame's
/// physical address plus the page-internal offset, for every offset inside
/// the page.
pub proof fn lemma_map_translate_round_trip(
    m: Mapper,
    page: Page,
    frame: Frame,
    flags: EntryFlags,
    offset: u64,
)
    requires
        m.wf(),
        m.walk_page(page.number) == (Some((frame.number, flags.bits | crate::paging::entry::PRESENT))),
        page.number < PAGE_LIMIT,
        frame.number < FRAME_LIMIT,
        offset < PAGE_SIZE,
    ensures
        ((page.number * PAGE_SIZE + offset) as u64) / PAGE_SIZE == page.number,
        m.walk_page(((page.number * PAGE_SIZE + offset) as u64) / PAGE_SIZE) is Some,
        m.walk_page(((page.number * PAGE_SIZE + offset) as u64) / PAGE_SIZE)->Some_0.0 * PAGE_SIZE
            + ((page.number * PAGE_SIZE + offset) as u64) % PAGE_SIZE == frame.number * PAGE_SIZE
            + offset,
{
    let n = page.number;
    assert(n * 4096 + offset < 0x10_0000_0000_0000 * 4096 && (n * 4096 + offset) / 4096 == n && (n
        * 4096 + offset) % 4096 == offset) by (nonlinear_arith)
        requires
            n < 0x10_0000_0000_0000,
            offset < 4096,
    ;
}

/// Clearing a mapped page's level-1 entry removes exactly the mapping that
/// was there: afterwards the page resolves to nothing, every other
/// canonical walk is untouched, and the frame that the cleared entry held
/// is the frame the page was mapped to (the frame `unmap` hands back to the
/// allocator; this allocator design never grants it out again).
pub proof fn lemma_unmap_removes_mapping(m: Mapper, page: Page, fr: u64, fl: u64)
    requires
        m.wf(),
        page_canonical(page.number),
        spec_p4_index(page.number) != 511,
        m.walk_page(page.number) == (Some((fr, fl))),
        fl & crate::paging::entry::HUGE_PAGE == 0,
    ensures
        crate::paging::table::walk_f1(m.store(), m.root(), page.number) is Some,
        ({
            let g = crate::paging::table::walk_f1(m.store(), m.root(), page.number)->Some_0;
            &&& crate::paging::entry::entry_frame(
                m.store()[g][spec_p1_index(page.number) as int],
            ) == fr
            &&& walk(
                crate::paging::table::leaf_updated(m.store(), page.number, g, 0u64),
                m.root(),
                page.number,
            ) == None::<(u64, u64)>
            &&& crate::paging::table::walks_preserved_except(
                m.store(),
                m.lv(),
                crate::paging::table::leaf_updated(m.store(), page.number, g, 0u64),
                m.root(),
                page.number,
            )
        }),
{
    crate::paging::table::lemma_nonhuge_walk_via_p1(
        m.store(),
        m.lv(),
        m.root(),
        page.number,
        fr,
        fl,
    );
    let g = crate::paging::table::walk_f1(m.store(), m.root(), page.number)->Some_0;
    crate::paging::table::lemma_leaf_write(m.store(), m.lv(), m.root(), page.number, g, 0u64);
    assert(!(0u64 & 0x1 == 0x1)) by (bit_vector);
}

} // verus!
