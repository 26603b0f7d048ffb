//! The mapper: edits and queries a 4-level table hierarchy held in the table
//! store, always walking from a chosen level-4 root frame.

use vstd::prelude::*;

verus! {

use std::collections::HashMap;

use crate::PAGE_SIZE;
use crate::memory::{Frame, FrameAllocator, FRAME_LIMIT};
use crate::paging::{Page, PhysicalAddress, VirtualAddress, address_is_canonical};
use crate::paging::{spec_p4_index, spec_p3_index, spec_p2_index, spec_p1_index};
use crate::paging::lemma_indices_in_range;
use crate::paging::entry::{
    entry_present,
    entry_huge,
    entry_frame,
    entry_for,
    lemma_entry_roundtrip,
    lemma_zero_entry,
    lemma_common_flags,
    lemma_entry_frame_bound,
    EntryFlags,
    PRESENT,
    WRITABLE,
    HUGE_PAGE,
    FLAGS_MASK,
    ADDRESS_MASK,
};
use crate::paging::table::{
    Table,
    lemma_install,
    StoreView,
    store_wf,
    child_slot,
    walk,
    walk_f3,
    walk_f2,
    walk_f1,
    page_canonical,
    walks_preserved,
    walks_preserved_except,
    leaf_updated,
    slot_updated,
    attach_updated,
    lemma_leaf_write,
    lemma_attach,
    lemma_recursive_write,
};

broadcast use vstd::std_specs::hash::group_hash_axioms;

/// Why a mapping operation could not complete.
#[derive(Debug, Clone, Copy, PartialEq, Eq, Structural)]
pub enum MapError {
    /// The frame allocator had no frame left for a new table or mapping.
    FrameExhausted,
}

/// The mapper's tables never hold a frame the allocator may still grant:
/// a freshly granted frame is always new to the store.
pub open spec fn mapper_disjoint<A: FrameAllocator>(m: Mapper, a: A) -> bool {
    forall|f: u64| #[trigger] m.store().contains_key(f) ==> !a.grantable(f)
}

/// Every entry of every old table is unchanged, except the named slot.
pub open spec fn entries_stable_except(s1: StoreView, s2: StoreView, t: u64, i: u64) -> bool {
    forall|f: u64, j: u64|
        s1.contains_key(f) && j < 512 && !(f == t && j == i) ==> #[trigger] s2[f][j as int]
            == s1[f][j as int]
}

/// Every table of the old store is still present, at its old level.
pub open spec fn levels_extend(older: Map<u64, nat>, newer: Map<u64, nat>) -> bool {
    forall|f: u64| #[trigger] older.contains_key(f) ==> newer.contains_key(f) && newer[f]
        == older[f]
}

/// Edits and queries one table hierarchy: the walk state the hardware would
/// hold in memory, reached here through the owned store.
pub struct Mapper {
    tables: HashMap<u64, Table>,
    p4: u64,
    levels: Ghost<Map<u64, nat>>,
}

impl Mapper {
    /// The tables, as raw entry sequences keyed by table frame.
    pub closed spec fn store(&self) -> StoreView {
        Map::new(
            |f: u64| self.tables@.contains_key(f),
            |f: u64| self.tables@[f]@,
        )
    }

    /// The level-4 frame every walk starts from.
    pub closed spec fn root(&self) -> u64 {
        self.p4
    }

    /// The ghost level of each stored table.
    pub closed spec fn lv(&self) -> Map<u64, nat> {
        self.levels@
    }

    /// The store is a well-formed forest and the root is a level-4 table.
    pub open spec fn wf(&self) -> bool {
        &&& store_wf(self.store(), self.lv())
        &&& self.store().contains_key(self.root())
        &&& self.lv()[self.root()] == 4
    }

    /// What the hierarchy currently resolves page `n` to.
    pub open spec fn walk_page(&self, n: u64) -> Option<(u64, u64)> {
        walk(self.store(), self.root(), n)
    }

    /// The frame of the level-4 table every walk starts from.
    pub fn root_frame(&self) -> (r: u64)
        ensures
            r == self.root(),
    {
        self.p4
    }

    /// A fresh hierarchy held in `p4_frame`: all slots clear except the
    /// recursive slot 511, which maps the table's own frame.
    pub fn new(p4_frame: Frame) -> (m: Mapper)
        requires
            p4_frame.number < FRAME_LIMIT,
        ensures
            m.wf(),
            m.root() == p4_frame.number,
            m.store().dom() =~= Set::empty().insert(p4_frame.number),
            m.store()[p4_frame.number][511] == entry_for(p4_frame.number, PRESENT | WRITABLE),
            forall|q: u64|
                page_canonical(q) && spec_p4_index(q) != 511 ==> m.walk_page(q) == None::<(
                    u64,
                    u64,
                )>,
    {
        proof {
            lemma_common_flags();
            lemma_entry_roundtrip(p4_frame.number, PRESENT | WRITABLE);
        }
        let mut t = Table::zeroed();
        t.entries.set(511, (p4_frame.number << 12u64) | (PRESENT | WRITABLE));
        let mut tables: HashMap<u64, Table> = HashMap::new();
        tables.insert(p4_frame.number, t);
        let m = Mapper {
            tables,
            p4: p4_frame.number,
            levels: Ghost(Map::empty().insert(p4_frame.number, 4nat)),
        };
        proof {
            let s = m.store();
            let lv = m.lv();
            assert(s.dom() =~= Set::empty().insert(p4_frame.number));
            assert(s[p4_frame.number].len() == 512);
            assert forall|f: u64, i: u64| !child_slot(s, lv, f, i) by {
                if s.contains_key(f) && i < 512 && !(lv[f] == 4 && i == 511) {
                    assert(f == p4_frame.number);
                    assert(i != 511);
                    assert(s[f][i as int] == 0u64);
                    lemma_zero_entry();
                }
            }
            assert forall|f: u64, i: u64|
                s.contains_key(f) && lv[f] == 4 && i < 512 && i != 511 && entry_present(
                    s[f][i as int],
                ) implies !entry_huge(s[f][i as int]) by {
                assert(s[f][i as int] == 0u64);
                lemma_zero_entry();
            }
            assert(store_wf(s, lv));
            assert forall|q: u64| page_canonical(q) && spec_p4_index(q) != 511 implies m.walk_page(
                q,
            ) == None::<(u64, u64)> by {
                lemma_indices_in_range(q);
                assert(s[p4_frame.number][spec_p4_index(q) as int] == 0u64);
                lemma_zero_entry();
            }
        }
        m
    }

    /// Raw entry `idx` of the stored table held in frame `f`.
    fn table_entry(&self, f: u64, idx: u64) -> (v: u64)
        requires
            self.wf(),
            self.store().contains_key(f),
            idx < 512,
        ensures
            v == self.store()[f][idx as int],
    {
        let t = self.tables.get(&f).unwrap();
        proof {
            assert(self.store()[f] == t@);
        }
        t.entries[idx as usize]
    }

    /// Overwrite raw entry `idx` of the stored table held in frame `f`.
    fn write_entry(&mut self, f: u64, idx: u64, v: u64)
        requires
            old(self).store().contains_key(f),
            old(self).store()[f].len() == 512,
            idx < 512,
        ensures
            final(self).store() =~= slot_updated(old(self).store(), f, idx, v),
            final(self).root() == old(self).root(),
            final(self).lv() == old(self).lv(),
    {
        let mut t = self.tables.remove(&f).unwrap();
        t.entries.set(idx as usize, v);
        self.tables.insert(f, t);
        proof {
            assert(self.tables@ =~= old(self).tables@.insert(f, t));
            assert(self.store() =~= slot_updated(old(self).store(), f, idx, v));
        }
    }

    /// Put a zeroed table into the store under the fresh frame `f`, at the
    /// given ghost level.
    fn install_table(&mut self, f: u64, level: Ghost<nat>)
        requires
            !old(self).store().contains_key(f),
        ensures
            final(self).store() =~= old(self).store().insert(f, Seq::new(512, |k: int| 0u64)),
            final(self).root() == old(self).root(),
            final(self).lv() == old(self).lv().insert(f, level@),
    {
        let t = Table::zeroed();
        self.tables.insert(f, t);
        proof {
            self.levels = Ghost(self.levels@.insert(f, level@));
            assert(t@ =~= Seq::new(512, |k: int| 0u64));
            assert(self.store() =~= old(self).store().insert(f, Seq::new(512, |k: int| 0u64)));
        }
    }


    /// The table one level below `parent` at slot `idx`, creating, zeroing
    /// and attaching a fresh table there when the slot is empty.
    fn ensure_table<A: FrameAllocator>(&mut self, parent: u64, idx: u64, allocator: &mut A) -> (r:
        Result<u64, MapError>)
        requires
            old(self).wf(),
            old(allocator).inv(),
            mapper_disjoint(*old(self), *old(allocator)),
            old(self).store().contains_key(parent),
            2 <= old(self).lv()[parent],
            idx < 512,
            !(old(self).lv()[parent] == 4 && idx == 511),
            !entry_present(old(self).store()[parent][idx as int]) || child_slot(
                old(self).store(),
                old(self).lv(),
                parent,
                idx,
            ),
        ensures
            final(allocator).inv(),
            forall|g: u64| final(allocator).grantable(g) ==> old(allocator).grantable(g),
            final(self).root() == old(self).root(),
            (match r {
                Ok(c) => final(self).wf() && mapper_disjoint(*final(self), *final(allocator))
                    && walks_preserved(old(self).store(), old(self).lv(), final(self).store())
                    && levels_extend(old(self).lv(), final(self).lv())
                    && child_slot(final(self).store(), final(self).lv(), parent, idx)
                    && entry_frame(final(self).store()[parent][idx as int]) == c
                    && final(self).lv()[c] == old(self).lv()[parent] - 1
                    && entries_stable_except(old(self).store(), final(self).store(), parent, idx),
                Err(e) => e == MapError::FrameExhausted && *final(self) == *old(self) && (forall|
                    g: u64,
                |
                    !final(allocator).grantable(g)),
            }),
    {
        let e = self.table_entry(parent, idx);
        if e & PRESENT == PRESENT {
            proof {
                assert(e == self.store()[parent][idx as int]);
                assert(entry_present(e));
                assert(entry_present(old(self).store()[parent][idx as int]));
                assert(child_slot(old(self).store(), old(self).lv(), parent, idx));
            }
            Ok((e & ADDRESS_MASK) >> 12u64)
        } else {
            match allocator.allocate_frame() {
                None => Err(MapError::FrameExhausted),
                Some(fr) => {
                    let ghost s0 = self.store();
                    let ghost lv0 = self.lv();
                    let ghost child_level = (lv0[parent] - 1) as nat;
                    proof {
                        assert(!s0.contains_key(fr.number));
                        lemma_install(s0, lv0, fr.number, child_level);
                    }
                    self.install_table(fr.number, Ghost(child_level));
                    proof {
                        lemma_common_flags();
                        lemma_entry_roundtrip(fr.number, PRESENT | WRITABLE);
                        lemma_attach(s0, lv0, parent, idx, fr.number);
                    }
                    self.write_entry(parent, idx, (fr.number << 12u64) | (PRESENT | WRITABLE));
                    proof {
                        assert(self.store() =~= attach_updated(s0, parent, idx, fr.number));
                        assert(self.lv() == lv0.insert(fr.number, child_level));
                        assert(self.store()[parent][idx as int] == entry_for(
                            fr.number,
                            PRESENT | WRITABLE,
                        ));
                        assert(child_slot(self.store(), self.lv(), parent, idx));
                        assert forall|f: u64, j: u64|
                            s0.contains_key(f) && j < 512 && !(f == parent && j == idx) implies #[trigger] self.store()[f][j as int]
                            == s0[f][j as int] by {
                            if f == parent {
                                assert(self.store()[f] == s0[f].update(
                                    idx as int,
                                    entry_for(fr.number, PRESENT | WRITABLE),
                                ));
                            } else {
                                assert(self.store()[f] == s0[f]);
                            }
                        }
                        assert forall|f: u64| #[trigger] self.store().contains_key(f) implies
                            !allocator.grantable(f) by {
                            if f == fr.number {
                            } else {
                                assert(s0.contains_key(f));
                            }
                        }
                    }
                    Ok(fr.number)
                },
            }
        }
    }


    /// Map `page` to `frame` with `flags`, creating intermediate tables as
    /// needed.  The page must be unmapped; on success it resolves to exactly
    /// that frame with the requested flags plus the present flag, and no
    /// other canonical page's walk changes, in any table hierarchy of the
    /// store.  Failure happens only when the allocator runs out of frames.
    pub fn map_to<A: FrameAllocator>(
        &mut self,
        page: Page,
        frame: Frame,
        flags: EntryFlags,
        allocator: &mut A,
    ) -> (r: Result<(), MapError>)
        requires
            old(self).wf(),
            old(allocator).inv(),
            mapper_disjoint(*old(self), *old(allocator)),
            page_canonical(page.number),
            spec_p4_index(page.number) != 511,
            old(self).walk_page(page.number) == None::<(u64, u64)>,
            frame.number < FRAME_LIMIT,
            flags.bits & FLAGS_MASK == flags.bits,
        ensures
            final(allocator).inv(),
            forall|g: u64| final(allocator).grantable(g) ==> old(allocator).grantable(g),
            final(self).root() == old(self).root(),
            final(self).wf(),
            mapper_disjoint(*final(self), *final(allocator)),
            levels_extend(old(self).lv(), final(self).lv()),
            (match r {
                Ok(_) => final(self).walk_page(page.number) == Some(
                    (frame.number, flags.bits | PRESENT),
                ) && walks_preserved_except(
                    old(self).store(),
                    old(self).lv(),
                    final(self).store(),
                    old(self).root(),
                    page.number,
                ),
                Err(e) => e == MapError::FrameExhausted && (forall|g: u64|
                    !final(allocator).grantable(g)) && walks_preserved(
                    old(self).store(),
                    old(self).lv(),
                    final(self).store(),
                ),
            }),
    {
        proof {
            lemma_indices_in_range(page.number);
        }
        let ghost s0 = self.store();
        let ghost lv0 = self.lv();
        let root = self.p4;
        let i4 = page.p4_index();
        let i3 = page.p3_index();
        let i2 = page.p2_index();
        let i1 = page.p1_index();
        proof {
            if entry_present(s0[root][i4 as int]) {
                assert(!entry_huge(s0[root][i4 as int]));
                assert(child_slot(s0, lv0, root, i4));
            }
        }
        let f3 = match self.ensure_table(root, i4, allocator) {
            Ok(c) => c,
            Err(e) => {
                return Err(e);
            },
        };
        let ghost s1 = self.store();
        let ghost lv1 = self.lv();
        proof {
            assert(walk(s1, root, page.number) == walk(s0, root, page.number));
            assert(s1[root][i4 as int] == s1[root][i4 as int]);
            assert(lv1[f3] == 3);
            if entry_present(s1[f3][i3 as int]) {
                if entry_huge(s1[f3][i3 as int]) {
                    assert(walk(s1, root, page.number) is Some);
                    assert(false);
                }
                assert(child_slot(s1, lv1, f3, i3));
            }
        }
        let f2 = match self.ensure_table(f3, i3, allocator) {
            Ok(c) => c,
            Err(e) => {
                proof {
                    lemma_walks_preserved_trans(s0, lv0, s1, lv1, self.store());
                }
                return Err(e);
            },
        };
        let ghost s2 = self.store();
        let ghost lv2 = self.lv();
        proof {
            assert(walk(s2, root, page.number) == walk(s1, root, page.number));
            assert(lv2[f2] == 2);
            assert(s2[root][i4 as int] == s1[root][i4 as int]);
            assert(child_slot(s2, lv2, root, i4));
            if entry_present(s2[f2][i2 as int]) {
                if entry_huge(s2[f2][i2 as int]) {
                    assert(entry_frame(s2[root][i4 as int]) == f3);
                    assert(entry_frame(s2[f3][i3 as int]) == f2);
                    assert(walk(s2, root, page.number) is Some);
                    assert(false);
                }
                assert(child_slot(s2, lv2, f2, i2));
            }
        }
        let f1 = match self.ensure_table(f2, i2, allocator) {
            Ok(c) => c,
            Err(e) => {
                proof {
                    lemma_walks_preserved_trans(s0, lv0, s1, lv1, s2);
                    lemma_walks_preserved_trans(s0, lv0, s2, lv2, self.store());
                }
                return Err(e);
            },
        };
        let ghost s3 = self.store();
        let ghost lv3 = self.lv();
        proof {
            assert(walk(s3, root, page.number) == walk(s2, root, page.number));
            assert(lv3[f1] == 1);
            assert(s3[root][i4 as int] == s2[root][i4 as int]);
            assert(s3[f3][i3 as int] == s2[f3][i3 as int]);
            assert(entry_frame(s3[root][i4 as int]) == f3);
            assert(entry_frame(s3[f3][i3 as int]) == f2);
            assert(entry_frame(s3[f2][i2 as int]) == f1);
            assert(child_slot(s3, lv3, root, i4));
            assert(child_slot(s3, lv3, f3, i3));
            assert(child_slot(s3, lv3, f2, i2));
            assert(walk_f3(s3, root, page.number) == Some(f3));
            assert(walk_f2(s3, root, page.number) == Some(f2));
            assert(walk_f1(s3, root, page.number) == Some(f1));
            assert(!entry_present(s3[f1][i1 as int]));
            let fb: u64 = flags.bits;
            assert((fb | PRESENT) & 0x8000_0000_0000_01ff == (fb | PRESENT) && (fb | PRESENT)
                & PRESENT == PRESENT) by (bit_vector)
                requires
                    fb & 0x8000_0000_0000_01ff == fb,
            ;
            lemma_entry_roundtrip(frame.number, flags.bits | PRESENT);
            lemma_leaf_write(
                s3,
                lv3,
                root,
                page.number,
                f1,
                entry_for(frame.number, flags.bits | PRESENT),
            );
        }
        self.write_entry(f1, i1, (frame.number << 12u64) | (flags.bits | PRESENT));
        proof {
            assert(self.store() =~= leaf_updated(
                s3,
                page.number,
                f1,
                entry_for(frame.number, flags.bits | PRESENT),
            ));
            assert(self.walk_page(page.number) == Some((frame.number, flags.bits | PRESENT)));
            lemma_walks_preserved_trans(s0, lv0, s1, lv1, s2);
            lemma_walks_preserved_trans(s0, lv0, s2, lv2, s3);
            assert forall|rr: u64, q: u64|
                s0.contains_key(rr) && lv0[rr] == 4 && page_canonical(q) && spec_p4_index(q)
                    != 511 && !(rr == root && q == page.number) implies walk(self.store(), rr, q)
                == walk(s0, rr, q) by {
                assert(s3.contains_key(rr) && lv3[rr] == 4);
                assert(walk(self.store(), rr, q) == walk(s3, rr, q));
                assert(walk(s3, rr, q) == walk(s0, rr, q));
            }
        }
        Ok(())
    }


    /// Map the page at the frame's own address to that frame: virtual and
    /// physical address coincide.
    pub fn identity_map<A: FrameAllocator>(
        &mut self,
        frame: Frame,
        flags: EntryFlags,
        allocator: &mut A,
    ) -> (r: Result<(), MapError>)
        requires
            old(self).wf(),
            old(allocator).inv(),
            mapper_disjoint(*old(self), *old(allocator)),
            frame.number < 0x8_0000_0000,
            old(self).walk_page(frame.number) == None::<(u64, u64)>,
            flags.bits & FLAGS_MASK == flags.bits,
        ensures
            final(allocator).inv(),
            forall|g: u64| final(allocator).grantable(g) ==> old(allocator).grantable(g),
            final(self).root() == old(self).root(),
            final(self).wf(),
            mapper_disjoint(*final(self), *final(allocator)),
            levels_extend(old(self).lv(), final(self).lv()),
            (match r {
                Ok(_) => final(self).walk_page(frame.number) == Some(
                    (frame.number, flags.bits | PRESENT),
                ) && walks_preserved_except(
                    old(self).store(),
                    old(self).lv(),
                    final(self).store(),
                    old(self).root(),
                    frame.number,
                ),
                Err(e) => e == MapError::FrameExhausted && (forall|g: u64|
                    !final(allocator).grantable(g)) && walks_preserved(
                    old(self).store(),
                    old(self).lv(),
                    final(self).store(),
                ),
            }),
    {
        proof {
            let n = frame.number;
            crate::paging::table::lemma_low_frame_canonical(n);
            assert(n * 4096 < 0x0000_8000_0000_0000) by (nonlinear_arith)
                requires
                    n < 0x8_0000_0000,
            ;
            assert((n * 4096) as u64 / 4096 == n) by (nonlinear_arith)
                requires
                    n < 0x8_0000_0000,
            ;
        }
        let page = Page::containing_address(frame.start_address());
        self.map_to(page, frame, flags, allocator)
    }

    /// Map `page` to some fresh frame from the allocator.
    pub fn map<A: FrameAllocator>(
        &mut self,
        page: Page,
        flags: EntryFlags,
        allocator: &mut A,
    ) -> (r: Result<(), MapError>)
        requires
            old(self).wf(),
            old(allocator).inv(),
            mapper_disjoint(*old(self), *old(allocator)),
            page_canonical(page.number),
            spec_p4_index(page.number) != 511,
            old(self).walk_page(page.number) == None::<(u64, u64)>,
            flags.bits & FLAGS_MASK == flags.bits,
        ensures
            final(allocator).inv(),
            forall|g: u64| final(allocator).grantable(g) ==> old(allocator).grantable(g),
            final(self).root() == old(self).root(),
            final(self).wf(),
            mapper_disjoint(*final(self), *final(allocator)),
            levels_extend(old(self).lv(), final(self).lv()),
            (match r {
                Ok(_) => final(self).walk_page(page.number) is Some && final(self).walk_page(
                    page.number,
                )->Some_0.1 == flags.bits | PRESENT && old(allocator).grantable(
                    final(self).walk_page(page.number)->Some_0.0,
                ) && walks_preserved_except(
                    old(self).store(),
                    old(self).lv(),
                    final(self).store(),
                    old(self).root(),
                    page.number,
                ),
                Err(e) => e == MapError::FrameExhausted && (forall|g: u64|
                    !final(allocator).grantable(g)) && walks_preserved(
                    old(self).store(),
                    old(self).lv(),
                    final(self).store(),
                ),
            }),
    {
        match allocator.allocate_frame() {
            None => Err(MapError::FrameExhausted),
            Some(frame) => self.map_to(page, frame, flags, allocator),
        }
    }

    /// Remove `page`'s mapping: clear its level-1 entry and hand the frame
    /// it mapped back to the allocator.  Afterwards the page resolves to
    /// nothing; no other canonical walk changes.
    pub fn unmap<A: FrameAllocator>(&mut self, page: Page, allocator: &mut A)
        requires
            old(self).wf(),
            old(allocator).inv(),
            mapper_disjoint(*old(self), *old(allocator)),
            page_canonical(page.number),
            spec_p4_index(page.number) != 511,
            old(self).walk_page(page.number) is Some,
            old(self).walk_page(page.number)->Some_0.1 & HUGE_PAGE == 0,
        ensures
            final(allocator).inv(),
            forall|g: u64| final(allocator).grantable(g) ==> old(allocator).grantable(g),
            final(self).root() == old(self).root(),
            final(self).wf(),
            mapper_disjoint(*final(self), *final(allocator)),
            final(self).lv() == old(self).lv(),
            final(self).walk_page(page.number) == None::<(u64, u64)>,
            walks_preserved_except(
                old(self).store(),
                old(self).lv(),
                final(self).store(),
                old(self).root(),
                page.number,
            ),
    {
        proof {
            lemma_indices_in_range(page.number);
            let w = self.walk_page(page.number);
            crate::paging::table::lemma_nonhuge_walk_via_p1(
                self.store(),
                self.lv(),
                self.root(),
                page.number,
                w->Some_0.0,
                w->Some_0.1,
            );
        }
        let ghost s0 = self.store();
        let ghost lv0 = self.lv();
        let root = self.p4;
        let i4 = page.p4_index();
        let i3 = page.p3_index();
        let i2 = page.p2_index();
        let i1 = page.p1_index();
        let e4 = self.table_entry(root, i4);
        let f3 = (e4 & ADDRESS_MASK) >> 12u64;
        proof {
            assert(child_slot(s0, lv0, root, i4));
        }
        let e3 = self.table_entry(f3, i3);
        let f2 = (e3 & ADDRESS_MASK) >> 12u64;
        proof {
            assert(child_slot(s0, lv0, f3, i3));
        }
        let e2 = self.table_entry(f2, i2);
        let f1 = (e2 & ADDRESS_MASK) >> 12u64;
        proof {
            assert(child_slot(s0, lv0, f2, i2));
            assert(walk_f1(s0, root, page.number) == Some(f1));
        }
        let e1 = self.table_entry(f1, i1);
        let freed = (e1 & ADDRESS_MASK) >> 12u64;
        proof {
            lemma_leaf_write(s0, lv0, root, page.number, f1, 0u64);
            lemma_zero_entry();
        }
        self.write_entry(f1, i1, 0);
        proof {
            assert(self.store() =~= leaf_updated(s0, page.number, f1, 0u64));
        }
        allocator.deallocate_frame(Frame { number: freed });
    }

    /// Point the recursive slot (511) of the level-4 table held in `t` at
    /// `target`: the write through which one hierarchy temporarily exposes
    /// another, and through which it is restored.
    pub(crate) fn set_recursive_slot(&mut self, t: u64, target: Frame)
        requires
            old(self).wf(),
            old(self).store().contains_key(t),
            old(self).lv()[t] == 4,
            target.number < FRAME_LIMIT,
        ensures
            final(self).wf(),
            final(self).root() == old(self).root(),
            final(self).lv() == old(self).lv(),
            final(self).store().dom() =~= old(self).store().dom(),
            final(self).store()[t] == old(self).store()[t].update(
                511,
                entry_for(target.number, PRESENT | WRITABLE),
            ),
            final(self).store()[t][511] == entry_for(target.number, PRESENT | WRITABLE),
            forall|f: u64|
                old(self).store().contains_key(f) && f != t ==> final(self).store()[f]
                    == #[trigger] old(self).store()[f],
            walks_preserved(old(self).store(), old(self).lv(), final(self).store()),
    {
        let ghost s0 = self.store();
        let ghost lv0 = self.lv();
        let v = (target.number << 12u64) | (PRESENT | WRITABLE);
        proof {
            lemma_common_flags();
            lemma_entry_roundtrip(target.number, PRESENT | WRITABLE);
            lemma_recursive_write(s0, lv0, t, entry_for(target.number, PRESENT | WRITABLE));
        }
        self.write_entry(t, 511, v);
        proof {
            assert(self.store() =~= slot_updated(
                s0,
                t,
                511,
                entry_for(target.number, PRESENT | WRITABLE),
            ));
        }
    }

    /// Switch which level-4 table the walks start from.
    pub(crate) fn set_root(&mut self, r: u64)
        requires
            old(self).wf(),
            old(self).store().contains_key(r),
            old(self).lv()[r] == 4,
        ensures
            final(self).wf(),
            final(self).root() == r,
            final(self).store() == old(self).store(),
            final(self).lv() == old(self).lv(),
    {
        self.p4 = r;
    }

    /// Put a fresh zeroed level-4 table into the store under `f` and map its
    /// recursive slot to itself.  Walks from the new table all resolve to
    /// nothing; no existing walk changes.
    pub(crate) fn install_root_table(&mut self, f: Frame)
        requires
            old(self).wf(),
            !old(self).store().contains_key(f.number),
            f.number < FRAME_LIMIT,
        ensures
            final(self).wf(),
            final(self).root() == old(self).root(),
            final(self).store().contains_key(f.number),
            final(self).lv() == old(self).lv().insert(f.number, 4nat),
            final(self).store()[f.number][511] == entry_for(f.number, PRESENT | WRITABLE),
            walks_preserved(old(self).store(), old(self).lv(), final(self).store()),
            forall|q: u64|
                page_canonical(q) && spec_p4_index(q) != 511 ==> walk(
                    final(self).store(),
                    f.number,
                    q,
                ) == None::<(u64, u64)>,
            forall|ff: u64|
                #[trigger] old(self).store().contains_key(ff) ==> final(self).store().contains_key(
                    ff,
                ) && final(self).store()[ff] == old(self).store()[ff],
    {
        let ghost s0 = self.store();
        let ghost lv0 = self.lv();
        proof {
            lemma_install(s0, lv0, f.number, 4nat);
        }
        self.install_table(f.number, Ghost(4nat));
        let ghost s1 = self.store();
        let ghost lv1 = self.lv();
        proof {
            assert(s1 =~= s0.insert(f.number, Seq::new(512, |k: int| 0u64)));
            lemma_common_flags();
            lemma_entry_roundtrip(f.number, PRESENT | WRITABLE);
            lemma_recursive_write(s1, lv1, f.number, entry_for(f.number, PRESENT | WRITABLE));
        }
        self.write_entry(f.number, 511, (f.number << 12u64) | (PRESENT | WRITABLE));
        proof {
            assert(self.store() =~= slot_updated(
                s1,
                f.number,
                511,
                entry_for(f.number, PRESENT | WRITABLE),
            ));
            lemma_walks_preserved_trans(s0, lv0, s1, lv1, self.store());
            assert forall|q: u64| page_canonical(q) && spec_p4_index(q) != 511 implies walk(
                self.store(),
                f.number,
                q,
            ) == None::<(u64, u64)> by {
                assert(walk(self.store(), f.number, q) == walk(s1, f.number, q));
            }
        }
    }


    /// The raw recursive-slot entry of the active level-4 table.
    pub fn recursive_slot_entry(&self) -> (v: u64)
        requires
            self.wf(),
        ensures
            v == self.store()[self.root()][511],
    {
        self.table_entry(self.p4, 511)
    }

    /// The frame and flag bits page `page` resolves to, or nothing: the
    /// walk with the deciding entry's flags kept.
    pub fn walk_entry(&self, page: Page) -> (r: Option<(u64, u64)>)
        requires
            self.wf(),
        ensures
            r == self.walk_page(page.number),
    {
        proof {
            lemma_indices_in_range(page.number);
        }
        let i4 = page.p4_index();
        let i3 = page.p3_index();
        let i2 = page.p2_index();
        let i1 = page.p1_index();
        let root = self.p4;
        let e4 = self.table_entry(root, i4);
        if e4 & PRESENT != PRESENT || e4 & HUGE_PAGE == HUGE_PAGE {
            return None;
        }
        let f3 = (e4 & ADDRESS_MASK) >> 12u64;
        if !self.tables.contains_key(&f3) {
            return None;
        }
        let e3 = self.table_entry(f3, i3);
        if e3 & PRESENT != PRESENT {
            return None;
        }
        if e3 & HUGE_PAGE == HUGE_PAGE {
            let start = (e3 & ADDRESS_MASK) >> 12u64;
            proof {
                lemma_entry_frame_bound(e3);
            }
            return Some((start + i2 * 512 + i1, e3 & FLAGS_MASK));
        }
        let f2 = (e3 & ADDRESS_MASK) >> 12u64;
        if !self.tables.contains_key(&f2) {
            return None;
        }
        let e2 = self.table_entry(f2, i2);
        if e2 & PRESENT != PRESENT {
            return None;
        }
        if e2 & HUGE_PAGE == HUGE_PAGE {
            let start = (e2 & ADDRESS_MASK) >> 12u64;
            proof {
                lemma_entry_frame_bound(e2);
            }
            return Some((start + i1, e2 & FLAGS_MASK));
        }
        let f1 = (e2 & ADDRESS_MASK) >> 12u64;
        if !self.tables.contains_key(&f1) {
            return None;
        }
        let e1 = self.table_entry(f1, i1);
        if e1 & PRESENT != PRESENT {
            return None;
        }
        Some(((e1 & ADDRESS_MASK) >> 12u64, e1 & FLAGS_MASK))
    }

    /// The frame page `page` is mapped to, walking the hierarchy the way the
    /// hardware does, huge mappings included.
    pub fn translate_page(&self, page: Page) -> (r: Option<Frame>)
        requires
            self.wf(),
        ensures
            (match self.walk_page(page.number) {
                Some(pair) => r == Some(Frame { number: pair.0 }),
                None => r == None::<Frame>,
            }),
    {
        proof {
            lemma_indices_in_range(page.number);
        }
        let i4 = page.p4_index();
        let i3 = page.p3_index();
        let i2 = page.p2_index();
        let i1 = page.p1_index();
        let root = self.p4;
        let e4 = self.table_entry(root, i4);
        if e4 & PRESENT != PRESENT || e4 & HUGE_PAGE == HUGE_PAGE {
            return None;
        }
        let f3 = (e4 & ADDRESS_MASK) >> 12u64;
        if !self.tables.contains_key(&f3) {
            return None;
        }
        let e3 = self.table_entry(f3, i3);
        if e3 & PRESENT != PRESENT {
            return None;
        }
        if e3 & HUGE_PAGE == HUGE_PAGE {
            let start = (e3 & ADDRESS_MASK) >> 12u64;
            proof {
                lemma_entry_frame_bound(e3);
            }
            return Some(Frame { number: start + i2 * 512 + i1 });
        }
        let f2 = (e3 & ADDRESS_MASK) >> 12u64;
        if !self.tables.contains_key(&f2) {
            return None;
        }
        let e2 = self.table_entry(f2, i2);
        if e2 & PRESENT != PRESENT {
            return None;
        }
        if e2 & HUGE_PAGE == HUGE_PAGE {
            let start = (e2 & ADDRESS_MASK) >> 12u64;
            proof {
                lemma_entry_frame_bound(e2);
            }
            return Some(Frame { number: start + i1 });
        }
        let f1 = (e2 & ADDRESS_MASK) >> 12u64;
        if !self.tables.contains_key(&f1) {
            return None;
        }
        let e1 = self.table_entry(f1, i1);
        if e1 & PRESENT != PRESENT {
            return None;
        }
        Some(Frame { number: (e1 & ADDRESS_MASK) >> 12u64 })
    }

    /// The physical address `virtual_address` resolves to: the mapped
    /// frame's start plus the page-internal offset.
    pub fn translate(&self, virtual_address: VirtualAddress) -> (r: Option<PhysicalAddress>)
        requires
            self.wf(),
            address_is_canonical(virtual_address),
        ensures
            (match self.walk_page(virtual_address / PAGE_SIZE) {
                Some(pair) => r == Some((pair.0 * PAGE_SIZE + virtual_address % PAGE_SIZE) as u64),
                None => r == None::<PhysicalAddress>,
            }),
    {
        let offset = virtual_address % PAGE_SIZE;
        let page = Page::containing_address(virtual_address);
        match self.translate_page(page) {
            Some(frame) => {
                proof {
                    lemma_walk_frame_bound(self.store(), self.root(), page.number);
                    assert(frame.number * 4096 + offset < 0x2_0000_0000_0000 * 4096)
                        by (nonlinear_arith)
                        requires
                            frame.number < 0x2_0000_0000_0000,
                            offset < 4096,
                    ;
                }
                Some(frame.number * PAGE_SIZE + offset)
            },
            None => None,
        }
    }
}

/// Any frame a walk resolves to is below 2^49: the entry's 40 address bits
/// plus what the huge-page cases add.
pub proof fn lemma_walk_frame_bound(s: StoreView, root: u64, n: u64)
    ensures
        (match walk(s, root, n) {
            Some(pair) => pair.0 < 0x2_0000_0000_0000,
            None => true,
        }),
{
    if walk(s, root, n) is Some {
        lemma_indices_in_range(n);
        let e4 = s[root][spec_p4_index(n) as int];
        let e3 = s[entry_frame(e4)][spec_p3_index(n) as int];
        lemma_entry_frame_bound(e3);
        if entry_present(e3) && entry_huge(e3) {
        } else {
            let e2 = s[entry_frame(e3)][spec_p2_index(n) as int];
            lemma_entry_frame_bound(e2);
            if entry_present(e2) && entry_huge(e2) {
            } else {
                let e1 = s[entry_frame(e2)][spec_p1_index(n) as int];
                lemma_entry_frame_bound(e1);
            }
        }
    }
}


/// Walk preservation composes across intermediate stores, because level-4
/// roots and their levels survive every step.
pub proof fn lemma_walks_preserved_trans(
    s0: StoreView,
    lv0: Map<u64, nat>,
    s1: StoreView,
    lv1: Map<u64, nat>,
    s2: StoreView,
)
    requires
        walks_preserved(s0, lv0, s1),
        walks_preserved(s1, lv1, s2),
        forall|f: u64| #[trigger] s0.contains_key(f) ==> s1.contains_key(f),
        forall|f: u64| #[trigger] lv0.contains_key(f) ==> lv1.contains_key(f) && lv1[f] == lv0[f],
        lv0.dom() == s0.dom(),
        lv1.dom() == s1.dom(),
    ensures
        walks_preserved(s0, lv0, s2),
{
    assert forall|r: u64, q: u64|
        s0.contains_key(r) && lv0[r] == 4 && page_canonical(q) && spec_p4_index(q) != 511 implies
        walk(s2, r, q) == walk(s0, r, q) by {
        assert(s1.contains_key(r) && lv1[r] == 4);
        assert(walk(s1, r, q) == walk(s0, r, q));
        assert(walk(s2, r, q) == walk(s1, r, q));
    }
}

} // verus!
