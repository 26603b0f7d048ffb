//! The table hierarchy as data: a store of 512-entry tables keyed by the
//! physical frame that holds each one, a four-step walk over that store, and
//! the lemmas that say which walks a single entry write can change.
//!
//! On hardware the tables live in physical memory and are reached through
//! the recursive slot; here the store is the capability that stands for that
//! memory, so every read and write of a table goes through one checked type.

use vstd::prelude::*;

verus! {

use crate::paging::entry::{entry_present, entry_huge, entry_frame, entry_flags, entry_for};
use crate::paging::entry::{PRESENT, WRITABLE, HUGE_PAGE};
use crate::memory::FRAME_LIMIT;
use crate::paging::{spec_p4_index, spec_p3_index, spec_p2_index, spec_p1_index};

/// The page numbers that arise from canonical addresses: the bits above the
/// four table indices are a sign extension of the top index bit.
pub open spec fn page_canonical(number: u64) -> bool {
    number < 0x8_0000_0000 || (0xf_fff8_0000_0000 <= number < 0x10_0000_0000_0000)
}

/// Two canonical page numbers with the same four indices are the same page.
pub proof fn lemma_canonical_indices_injective(p: u64, q: u64)
    requires
        page_canonical(p),
        page_canonical(q),
        spec_p4_index(p) == spec_p4_index(q),
        spec_p3_index(p) == spec_p3_index(q),
        spec_p2_index(p) == spec_p2_index(q),
        spec_p1_index(p) == spec_p1_index(q),
    ensures
        p == q,
{
    assert((p < 0x8_0000_0000 || (0xf_fff8_0000_0000 <= p < 0x10_0000_0000_0000))
        && (q < 0x8_0000_0000 || (0xf_fff8_0000_0000 <= q < 0x10_0000_0000_0000))
        && (p >> 27) & 0o777 == (q >> 27) & 0o777
        && (p >> 18) & 0o777 == (q >> 18) & 0o777
        && (p >> 9) & 0o777 == (q >> 9) & 0o777
        && p & 0o777 == q & 0o777 ==> p == q) by (bit_vector);
}

/// One page table: 512 raw entries.
#[derive(Debug)]
pub struct Table {
    pub entries: Vec<u64>,
}

impl Table {
    /// The entries as a sequence.
    pub open spec fn view(&self) -> Seq<u64> {
        self.entries@
    }

    /// A table whose 512 entries are all clear.
    pub fn zeroed() -> (t: Table)
        ensures
            t@.len() == 512,
            forall|i: int| 0 <= i < 512 ==> t@[i] == 0,
    {
        let mut entries: Vec<u64> = Vec::new();
        let mut i: usize = 0;
        while i < 512
            invariant
                i <= 512,
                entries@.len() == i,
                forall|j: int| 0 <= j < i ==> entries@[j] == 0,
            decreases 512 - i,
        {
            entries.push(0);
            i = i + 1;
        }
        Table { entries }
    }
}

/// The store that holds every live table, keyed by table frame, next to the
/// ghost level (4 down to 1) assigned to each table.
pub type StoreView = Map<u64, Seq<u64>>;

/// Entry `i` of table `f` points at a lower-level table: it is present, not
/// huge, and is not the reserved recursive slot (511) of a level-4 table.
pub open spec fn child_slot(s: StoreView, lv: Map<u64, nat>, f: u64, i: u64) -> bool {
    &&& s.contains_key(f)
    &&& lv[f] >= 2
    &&& i < 512
    &&& !(lv[f] == 4 && i == 511)
    &&& entry_present(s[f][i as int])
    &&& !entry_huge(s[f][i as int])
}

/// Well-formedness of the table forest.
///
/// Levels cover exactly the stored tables; every table has 512 entries; every
/// child pointer goes one level down to a stored table; no two child slots
/// point at the same table; and huge entries respect their alignment.
pub open spec fn store_wf(s: StoreView, lv: Map<u64, nat>) -> bool {
    &&& lv.dom() == s.dom()
    &&& forall|f: u64| #[trigger] s.contains_key(f) ==> s[f].len() == 512 && 1 <= lv[f] <= 4
    &&& forall|f: u64, i: u64| #[trigger] child_slot(s, lv, f, i) ==> {
        &&& s.contains_key(entry_frame(s[f][i as int]))
        &&& lv[entry_frame(s[f][i as int])] == lv[f] - 1
    }
    &&& forall|f: u64, i: u64, g: u64, j: u64|
        #[trigger] child_slot(s, lv, f, i) && #[trigger] child_slot(s, lv, g, j) && (f != g || i
            != j) ==> entry_frame(s[f][i as int]) != entry_frame(s[g][j as int])
    &&& forall|f: u64, i: u64|
        s.contains_key(f) && lv[f] == 3 && i < 512 && entry_present(#[trigger] s[f][i as int])
            && entry_huge(s[f][i as int]) ==> entry_frame(s[f][i as int]) % 0x40000 == 0
    &&& forall|f: u64, i: u64|
        s.contains_key(f) && lv[f] == 2 && i < 512 && entry_present(#[trigger] s[f][i as int])
            && entry_huge(s[f][i as int]) ==> entry_frame(s[f][i as int]) % 512 == 0
    &&& forall|f: u64, i: u64|
        s.contains_key(f) && lv[f] == 4 && i < 512 && i != 511 && entry_present(
            #[trigger] s[f][i as int],
        ) ==> !entry_huge(s[f][i as int])
}

/// The level-3 table on the walk for page `n` from `root`, if the level-4
/// entry descends.
pub open spec fn walk_f3(s: StoreView, root: u64, n: u64) -> Option<u64> {
    if s.contains_key(root) {
        let e4 = s[root][spec_p4_index(n) as int];
        if entry_present(e4) && !entry_huge(e4) && s.contains_key(entry_frame(e4)) {
            Some(entry_frame(e4))
        } else {
            None
        }
    } else {
        None
    }
}

/// The level-2 table on the walk for page `n`, if the level-3 entry descends.
pub open spec fn walk_f2(s: StoreView, root: u64, n: u64) -> Option<u64> {
    match walk_f3(s, root, n) {
        Some(f3) => {
            let e3 = s[f3][spec_p3_index(n) as int];
            if entry_present(e3) && !entry_huge(e3) && s.contains_key(entry_frame(e3)) {
                Some(entry_frame(e3))
            } else {
                None
            }
        },
        None => None,
    }
}

/// The level-1 table on the walk for page `n`, if the level-2 entry descends.
pub open spec fn walk_f1(s: StoreView, root: u64, n: u64) -> Option<u64> {
    match walk_f2(s, root, n) {
        Some(f2) => {
            let e2 = s[f2][spec_p2_index(n) as int];
            if entry_present(e2) && !entry_huge(e2) && s.contains_key(entry_frame(e2)) {
                Some(entry_frame(e2))
            } else {
                None
            }
        },
        None => None,
    }
}

/// What the four-step walk resolves page `n` to from `root`: the mapped
/// frame and the flag bits of the entry that decided, or nothing.
///
/// A present huge entry at level 3 or 2 maps the page directly, with the
/// remaining indices added to the large frame's index.
pub open spec fn walk(s: StoreView, root: u64, n: u64) -> Option<(u64, u64)> {
    if !s.contains_key(root) {
        None
    } else {
        let e4 = s[root][spec_p4_index(n) as int];
        if !(entry_present(e4) && !entry_huge(e4) && s.contains_key(entry_frame(e4))) {
            None
        } else {
            let e3 = s[entry_frame(e4)][spec_p3_index(n) as int];
            if !entry_present(e3) {
                None
            } else if entry_huge(e3) {
                Some(
                    (
                        (entry_frame(e3) + spec_p2_index(n) * 512 + spec_p1_index(n)) as u64,
                        entry_flags(e3),
                    ),
                )
            } else if !s.contains_key(entry_frame(e3)) {
                None
            } else {
                let e2 = s[entry_frame(e3)][spec_p2_index(n) as int];
                if !entry_present(e2) {
                    None
                } else if entry_huge(e2) {
                    Some(((entry_frame(e2) + spec_p1_index(n)) as u64, entry_flags(e2)))
                } else if !s.contains_key(entry_frame(e2)) {
                    None
                } else {
                    let e1 = s[entry_frame(e2)][spec_p1_index(n) as int];
                    if entry_present(e1) {
                        Some((entry_frame(e1), entry_flags(e1)))
                    } else {
                        None
                    }
                }
            }
        }
    }
}


/// The walk of every canonical page (other than `p` from `root`) is the same
/// in `s2` as in `s1`, from every level-4 root.  Pages whose top index is the
/// reserved recursive slot are not covered: their walks read slot 511.
pub open spec fn walks_preserved_except(
    s1: StoreView,
    lv1: Map<u64, nat>,
    s2: StoreView,
    root: u64,
    p: u64,
) -> bool {
    forall|r: u64, q: u64|
        s1.contains_key(r) && lv1[r] == 4 && page_canonical(q) && spec_p4_index(q) != 511 && !(r
            == root && q == p) ==> walk(s2, r, q) == #[trigger] walk(s1, r, q)
}

/// The walk of every canonical page is the same in `s2` as in `s1`, from
/// every level-4 root.
pub open spec fn walks_preserved(s1: StoreView, lv1: Map<u64, nat>, s2: StoreView) -> bool {
    forall|r: u64, q: u64|
        s1.contains_key(r) && lv1[r] == 4 && page_canonical(q) && spec_p4_index(q) != 511
            ==> walk(s2, r, q) == #[trigger] walk(s1, r, q)
}

/// The store after page `p`'s level-1 entry (held in table `g`) is set
/// to the raw value `v`.
pub open spec fn leaf_updated(s: StoreView, p: u64, g: u64, v: u64) -> StoreView {
    s.insert(g, s[g].update(spec_p1_index(p) as int, v))
}

/// What a walk resolves to when it ends at a level-1 entry holding `v`.
pub open spec fn leaf_walk_result(v: u64) -> Option<(u64, u64)> {
    if entry_present(v) {
        Some((entry_frame(v), entry_flags(v)))
    } else {
        None
    }
}

/// Writing the level-1 entry of page `p` changes `p`'s walk to exactly the
/// written value and no other canonical walk, and keeps the store well
/// formed.
pub proof fn lemma_leaf_write(s: StoreView, lv: Map<u64, nat>, root: u64, p: u64, g: u64, v: u64)
    requires
        store_wf(s, lv),
        s.contains_key(root),
        lv[root] == 4,
        page_canonical(p),
        spec_p4_index(p) != 511,
        walk_f1(s, root, p) == (Some(g)),
    ensures
        store_wf(leaf_updated(s, p, g, v), lv),
        walks_preserved_except(s, lv, leaf_updated(s, p, g, v), root, p),
        walk(leaf_updated(s, p, g, v), root, p) == leaf_walk_result(v),
        walk_f1(leaf_updated(s, p, g, v), root, p) == (Some(g)),
{
    let s2 = s.insert(g, s[g].update(spec_p1_index(p) as int, v));
    crate::paging::lemma_indices_in_range(p);
    let i4 = spec_p4_index(p);
    let i3 = spec_p3_index(p);
    let i2 = spec_p2_index(p);
    let i1 = spec_p1_index(p);
    let e4 = s[root][i4 as int];
    let f3 = entry_frame(e4);
    let e3 = s[f3][i3 as int];
    let f2 = entry_frame(e3);
    let e2 = s[f2][i2 as int];
    assert(child_slot(s, lv, root, i4));
    assert(lv[f3] == 3);
    assert(child_slot(s, lv, f3, i3));
    assert(lv[f2] == 2);
    assert(child_slot(s, lv, f2, i2));
    assert(entry_frame(e2) == g);
    assert(lv[g] == 1);
    assert(s2.dom() =~= s.dom());
    assert(s2[g].len() == 512);
    assert forall|f: u64, i: u64| #[trigger] child_slot(s2, lv, f, i) implies child_slot(
        s,
        lv,
        f,
        i,
    ) && s2[f][i as int] == s[f][i as int] by {
        assert(f != g);
    }
    assert forall|f: u64, i: u64| #[trigger] child_slot(s, lv, f, i) implies child_slot(
        s2,
        lv,
        f,
        i,
    ) by {
        assert(f != g);
    }
    assert(store_wf(s2, lv));
    assert forall|r: u64, q: u64|
        s.contains_key(r) && lv[r] == 4 && page_canonical(q) && spec_p4_index(q) != 511 && !(r
            == root && q == p) implies walk(s2, r, q) == walk(s, r, q) by {
        crate::paging::lemma_indices_in_range(q);
        let j4 = spec_p4_index(q);
        let j3 = spec_p3_index(q);
        let j2 = spec_p2_index(q);
        let j1 = spec_p1_index(q);
        assert(r != g);
        assert(s2[r] == s[r]);
        let e4q = s[r][j4 as int];
        if entry_present(e4q) && !entry_huge(e4q) && s.contains_key(entry_frame(e4q)) {
            assert(child_slot(s, lv, r, j4));
            let f3q = entry_frame(e4q);
            assert(lv[f3q] == 3);
            assert(f3q != g);
            assert(s2[f3q] == s[f3q]);
            let e3q = s[f3q][j3 as int];
            if entry_present(e3q) && !entry_huge(e3q) && s.contains_key(entry_frame(e3q)) {
                assert(child_slot(s, lv, f3q, j3));
                let f2q = entry_frame(e3q);
                assert(lv[f2q] == 2);
                assert(f2q != g);
                assert(s2[f2q] == s[f2q]);
                let e2q = s[f2q][j2 as int];
                if entry_present(e2q) && !entry_huge(e2q) && s.contains_key(entry_frame(e2q)) {
                    assert(child_slot(s, lv, f2q, j2));
                    let f1q = entry_frame(e2q);
                    if f1q == g {
                        assert(f2q == f2 && j2 == i2);
                        assert(f3q == f3 && j3 == i3);
                        assert(r == root && j4 == i4);
                        if j1 == i1 {
                            lemma_canonical_indices_injective(p, q);
                            assert(false);
                        }
                        assert(s2[g][j1 as int] == s[g][j1 as int]);
                    } else {
                        assert(s2[f1q] == s[f1q]);
                    }
                }
            }
        }
    }
    assert(s2[root] == s[root]);
    assert(s2[f3] == s[f3]);
    assert(s2[f2] == s[f2]);
    assert(s2[g][i1 as int] == v);
}


/// The store after slot `i` of table `t` is set to the raw value `v`.
pub open spec fn slot_updated(s: StoreView, t: u64, i: u64, v: u64) -> StoreView {
    s.insert(t, s[t].update(i as int, v))
}

/// The store after a fresh zeroed table `c` is attached under `parent` at
/// slot `idx`, the way table creation writes it: the parent entry set to
/// present and writable.
pub open spec fn attach_updated(s: StoreView, parent: u64, idx: u64, c: u64) -> StoreView {
    slot_updated(s, parent, idx, entry_for(c, PRESENT | WRITABLE)).insert(
        c,
        Seq::new(512, |k: int| 0u64),
    )
}

/// Attaching a fresh zeroed table keeps the store well formed and changes no
/// canonical walk: every path that reaches the new entry found nothing
/// before and finds only clear entries after.
pub proof fn lemma_attach(s: StoreView, lv: Map<u64, nat>, parent: u64, idx: u64, c: u64)
    requires
        store_wf(s, lv),
        s.contains_key(parent),
        2 <= lv[parent],
        idx < 512,
        !(lv[parent] == 4 && idx == 511),
        !entry_present(s[parent][idx as int]),
        !s.contains_key(c),
        c < FRAME_LIMIT,
    ensures
        store_wf(attach_updated(s, parent, idx, c), lv.insert(c, (lv[parent] - 1) as nat)),
        walks_preserved(s, lv, attach_updated(s, parent, idx, c)),
        attach_updated(s, parent, idx, c).dom() =~= s.dom().insert(c),
        attach_updated(s, parent, idx, c)[parent] == s[parent].update(
            idx as int,
            entry_for(c, PRESENT | WRITABLE),
        ),
        forall|f: u64|
            s.contains_key(f) && f != parent ==> attach_updated(s, parent, idx, c)[f] == #[trigger] s[f],
        attach_updated(s, parent, idx, c)[c] == Seq::new(512, |k: int| 0u64),
{
    let s2 = attach_updated(s, parent, idx, c);
    let lv2 = lv.insert(c, (lv[parent] - 1) as nat);
    let ve = entry_for(c, PRESENT | WRITABLE);
    crate::paging::entry::lemma_common_flags();
    crate::paging::entry::lemma_entry_roundtrip(c, PRESENT | WRITABLE);
    assert(entry_present(ve) && !entry_huge(ve) && entry_frame(ve) == c);
    assert(s2.dom() =~= s.dom().insert(c));
    assert(c != parent);
    assert(s2[c] == Seq::new(512, |k: int| 0u64));
    assert(s2[c].len() == 512);
    assert forall|k: u64| k < 512 implies !entry_present(s2[c][k as int]) by {
        assert(s2[c][k as int] == 0u64);
        crate::paging::entry::lemma_zero_entry();
    }
    assert forall|f: u64, i: u64| #[trigger] child_slot(s2, lv2, f, i) implies ({
        &&& s2.contains_key(entry_frame(s2[f][i as int]))
        &&& lv2[entry_frame(s2[f][i as int])] == lv2[f] - 1
    }) by {
        if f == c {
            assert(!entry_present(s2[c][i as int]));
            assert(false);
        } else if f == parent && i == idx {
            assert(entry_frame(s2[f][i as int]) == c);
        } else {
            assert(s2[f][i as int] == s[f][i as int]);
            assert(child_slot(s, lv, f, i));
            assert(entry_frame(s[f][i as int]) != c);
        }
    }
    assert forall|f: u64, i: u64, g: u64, j: u64|
        #[trigger] child_slot(s2, lv2, f, i) && #[trigger] child_slot(s2, lv2, g, j) && (f != g
            || i != j) implies entry_frame(s2[f][i as int]) != entry_frame(s2[g][j as int]) by {
        if f == parent && i == idx {
            if !(g == parent && j == idx) {
                assert(g != c);
                assert(s2[g][j as int] == s[g][j as int]);
                assert(child_slot(s, lv, g, j));
                assert(entry_frame(s[g][j as int]) != c);
            }
        } else if g == parent && j == idx {
            assert(f != c);
            assert(s2[f][i as int] == s[f][i as int]);
            assert(child_slot(s, lv, f, i));
            assert(entry_frame(s[f][i as int]) != c);
        } else {
            assert(f != c && g != c);
            assert(child_slot(s, lv, f, i) && child_slot(s, lv, g, j));
        }
    }
    assert(store_wf(s2, lv2));
    assert forall|r: u64, q: u64|
        s.contains_key(r) && lv[r] == 4 && page_canonical(q) && spec_p4_index(q) != 511 implies
        walk(s2, r, q) == walk(s, r, q) by {
        crate::paging::lemma_indices_in_range(q);
        let j4 = spec_p4_index(q);
        let j3 = spec_p3_index(q);
        let j2 = spec_p2_index(q);
        let j1 = spec_p1_index(q);
        assert(r != c);
        if r == parent && j4 == idx {
            assert(!entry_present(s[r][j4 as int]));
            assert(s2[r][j4 as int] == ve);
            assert(s2[c][j3 as int] == 0u64);
            crate::paging::entry::lemma_zero_entry();
        } else {
            assert(s2[r][j4 as int] == s[r][j4 as int]);
            let e4q = s[r][j4 as int];
            if entry_present(e4q) && !entry_huge(e4q) && s.contains_key(entry_frame(e4q)) {
                assert(child_slot(s, lv, r, j4));
                let f3q = entry_frame(e4q);
                assert(f3q != c);
                assert(lv2[f3q] == 3 && lv[f3q] == 3);
                if f3q == parent && j3 == idx {
                    assert(!entry_present(s[f3q][j3 as int]));
                    assert(s2[f3q][j3 as int] == ve);
                    assert(s2[c][j2 as int] == 0u64);
                    crate::paging::entry::lemma_zero_entry();
                } else {
                    assert(s2[f3q][j3 as int] == s[f3q][j3 as int]);
                    let e3q = s[f3q][j3 as int];
                    if entry_present(e3q) && !entry_huge(e3q) && s.contains_key(entry_frame(e3q)) {
                        assert(child_slot(s, lv, f3q, j3));
                        let f2q = entry_frame(e3q);
                        assert(f2q != c);
                        assert(lv[f2q] == 2);
                        if f2q == parent && j2 == idx {
                            assert(!entry_present(s[f2q][j2 as int]));
                            assert(s2[f2q][j2 as int] == ve);
                            assert(s2[c][j1 as int] == 0u64);
                            crate::paging::entry::lemma_zero_entry();
                        } else {
                            assert(s2[f2q][j2 as int] == s[f2q][j2 as int]);
                            let e2q = s[f2q][j2 as int];
                            if entry_present(e2q) && !entry_huge(e2q) && s.contains_key(
                                entry_frame(e2q),
                            ) {
                                assert(child_slot(s, lv, f2q, j2));
                                let f1q = entry_frame(e2q);
                                assert(f1q != c);
                                assert(lv[f1q] == 1);
                                assert(f1q != parent);
                                assert(s2[f1q][j1 as int] == s[f1q][j1 as int]);
                            }
                        }
                    }
                }
            }
        }
    }
}

/// Writing the reserved recursive slot (511) of a level-4 table keeps the
/// store well formed and changes no canonical walk: no walk of a page whose
/// top index differs from 511 ever reads that slot.
pub proof fn lemma_recursive_write(s: StoreView, lv: Map<u64, nat>, t: u64, v: u64)
    requires
        store_wf(s, lv),
        s.contains_key(t),
        lv[t] == 4,
    ensures
        store_wf(slot_updated(s, t, 511, v), lv),
        walks_preserved(s, lv, slot_updated(s, t, 511, v)),
        slot_updated(s, t, 511, v).dom() =~= s.dom(),
        slot_updated(s, t, 511, v)[t] == s[t].update(511, v),
        forall|f: u64|
            s.contains_key(f) && f != t ==> slot_updated(s, t, 511, v)[f] == #[trigger] s[f],
{
    let s2 = slot_updated(s, t, 511, v);
    assert(s2.dom() =~= s.dom());
    assert(s2[t].len() == 512);
    assert forall|f: u64, i: u64| #[trigger] child_slot(s2, lv, f, i) implies child_slot(s, lv, f, i)
        && s2[f][i as int] == s[f][i as int] by {
        if f == t {
            assert(i != 511);
        }
    }
    assert forall|f: u64, i: u64| #[trigger] child_slot(s, lv, f, i) implies child_slot(s2, lv, f, i)
        by {
        if f == t {
            assert(i != 511);
        }
    }
    assert(store_wf(s2, lv));
    assert forall|r: u64, q: u64|
        s.contains_key(r) && lv[r] == 4 && page_canonical(q) && spec_p4_index(q) != 511 implies
        walk(s2, r, q) == walk(s, r, q) by {
        crate::paging::lemma_indices_in_range(q);
        let j4 = spec_p4_index(q);
        let j3 = spec_p3_index(q);
        let j2 = spec_p2_index(q);
        let j1 = spec_p1_index(q);
        assert(s2[r][j4 as int] == s[r][j4 as int]);
        let e4q = s[r][j4 as int];
        if entry_present(e4q) && !entry_huge(e4q) && s.contains_key(entry_frame(e4q)) {
            assert(child_slot(s, lv, r, j4));
            let f3q = entry_frame(e4q);
            assert(lv[f3q] == 3 && f3q != t);
            assert(s2[f3q] == s[f3q]);
            let e3q = s[f3q][j3 as int];
            if entry_present(e3q) && !entry_huge(e3q) && s.contains_key(entry_frame(e3q)) {
                assert(child_slot(s, lv, f3q, j3));
                let f2q = entry_frame(e3q);
                assert(lv[f2q] == 2 && f2q != t);
                assert(s2[f2q] == s[f2q]);
                let e2q = s[f2q][j2 as int];
                if entry_present(e2q) && !entry_huge(e2q) && s.contains_key(entry_frame(e2q)) {
                    assert(child_slot(s, lv, f2q, j2));
                    let f1q = entry_frame(e2q);
                    assert(lv[f1q] == 1 && f1q != t);
                    assert(s2[f1q] == s[f1q]);
                }
            }
        }
    }
}

/// A walk that resolved without the huge flag went through a level-1 table:
/// that table's entry for the page holds exactly the resolved frame and
/// flags.
pub proof fn lemma_nonhuge_walk_via_p1(
    s: StoreView,
    lv: Map<u64, nat>,
    root: u64,
    n: u64,
    fr: u64,
    fl: u64,
)
    requires
        store_wf(s, lv),
        walk(s, root, n) == (Some((fr, fl))),
        fl & HUGE_PAGE == 0,
    ensures
        walk_f1(s, root, n).is_some(),
        entry_present(s[walk_f1(s, root, n)->Some_0][spec_p1_index(n) as int]),
        entry_frame(s[walk_f1(s, root, n)->Some_0][spec_p1_index(n) as int]) == fr,
        entry_flags(s[walk_f1(s, root, n)->Some_0][spec_p1_index(n) as int]) == fl,
{
    let e4 = s[root][spec_p4_index(n) as int];
    let e3 = s[entry_frame(e4)][spec_p3_index(n) as int];
    if entry_present(e3) && entry_huge(e3) {
        crate::paging::entry::lemma_huge_flag_kept(e3);
        assert(false);
    }
    let e2 = s[entry_frame(e3)][spec_p2_index(n) as int];
    if entry_present(e2) && entry_huge(e2) {
        crate::paging::entry::lemma_huge_flag_kept(e2);
        assert(false);
    }
}


/// Inserting a fresh zeroed table that nothing references keeps the store
/// well formed and changes no canonical walk; walks from the new table
/// itself all resolve to nothing.
pub proof fn lemma_install(s: StoreView, lv: Map<u64, nat>, c: u64, level: nat)
    requires
        store_wf(s, lv),
        !s.contains_key(c),
        1 <= level <= 4,
    ensures
        store_wf(s.insert(c, Seq::new(512, |k: int| 0u64)), lv.insert(c, level)),
        walks_preserved(s, lv, s.insert(c, Seq::new(512, |k: int| 0u64))),
        forall|q: u64|
            page_canonical(q) && spec_p4_index(q) != 511 ==> walk(
                s.insert(c, Seq::new(512, |k: int| 0u64)),
                c,
                q,
            ) == None::<(u64, u64)>,
{
    let s2 = s.insert(c, Seq::new(512, |k: int| 0u64));
    let lv2 = lv.insert(c, level);
    assert(s2.dom() =~= s.dom().insert(c));
    assert(lv2.dom() =~= lv.dom().insert(c));
    assert(s2[c].len() == 512);
    assert forall|k: u64| k < 512 implies !entry_present(s2[c][k as int]) by {
        assert(s2[c][k as int] == 0u64);
        crate::paging::entry::lemma_zero_entry();
    }
    assert forall|f: u64, i: u64| #[trigger] child_slot(s2, lv2, f, i) implies child_slot(s, lv, f, i)
        && s2[f][i as int] == s[f][i as int] by {
        if f == c {
            assert(!entry_present(s2[c][i as int]));
            assert(false);
        }
    }
    assert forall|f: u64, i: u64| #[trigger] child_slot(s, lv, f, i) implies child_slot(s2, lv2, f, i)
        by {
        assert(f != c);
    }
    assert forall|f: u64, i: u64| #[trigger] child_slot(s2, lv2, f, i) implies ({
        &&& s2.contains_key(entry_frame(s2[f][i as int]))
        &&& lv2[entry_frame(s2[f][i as int])] == lv2[f] - 1
    }) by {
        assert(child_slot(s, lv, f, i));
        assert(entry_frame(s[f][i as int]) != c);
    }
    assert(store_wf(s2, lv2));
    assert forall|r: u64, q: u64|
        s.contains_key(r) && lv[r] == 4 && page_canonical(q) && spec_p4_index(q) != 511 implies
        walk(s2, r, q) == walk(s, r, q) by {
        crate::paging::lemma_indices_in_range(q);
        let j4 = spec_p4_index(q);
        let j3 = spec_p3_index(q);
        let j2 = spec_p2_index(q);
        let j1 = spec_p1_index(q);
        assert(r != c);
        assert(s2[r] == s[r]);
        let e4q = s[r][j4 as int];
        if entry_present(e4q) && !entry_huge(e4q) {
            assert(child_slot(s, lv, r, j4));
            let f3q = entry_frame(e4q);
            assert(f3q != c);
            assert(s.contains_key(f3q) && s2[f3q] == s[f3q]);
            let e3q = s[f3q][j3 as int];
            if entry_present(e3q) && !entry_huge(e3q) {
                assert(child_slot(s, lv, f3q, j3));
                let f2q = entry_frame(e3q);
                assert(f2q != c);
                assert(s.contains_key(f2q) && s2[f2q] == s[f2q]);
                let e2q = s[f2q][j2 as int];
                if entry_present(e2q) && !entry_huge(e2q) {
                    assert(child_slot(s, lv, f2q, j2));
                    let f1q = entry_frame(e2q);
                    assert(f1q != c);
                    assert(s.contains_key(f1q) && s2[f1q] == s[f1q]);
                }
            }
        }
    }
    assert forall|q: u64| page_canonical(q) && spec_p4_index(q) != 511 implies walk(s2, c, q)
        == None::<(u64, u64)> by {
        crate::paging::lemma_indices_in_range(q);
        assert(s2[c][spec_p4_index(q) as int] == 0u64);
        crate::paging::entry::lemma_zero_entry();
    }
}


/// Frames below the low canonical boundary are canonical pages whose top
/// index is never the recursive slot.
pub proof fn lemma_low_frame_canonical(f: u64)
    by (bit_vector)
    ensures
        f < 0x8_0000_0000 ==> page_canonical(f) && spec_p4_index(f) != 511,
{
}

} // verus!
