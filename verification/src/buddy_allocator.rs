//! The buddy allocator: power-of-two blocks held on one free list per
//! order, each list threaded through the free memory itself.
//!
//! On hardware a free block's first bytes hold the link to the next free
//! block; here each list holds the block addresses, so the links are
//! checked data.  Construction seeds the top order with the whole region;
//! allocation splits blocks downward one order at a time.

use vstd::prelude::*;

verus! {

use crate::allocator::{is_pow2, lemma_mask_is_mod};

/// A block of order-index `k` (size `1 << (k + 1)`) is aligned to its size
/// and lies inside the managed region.
pub open spec fn block_ok(start: u64, max_mem: u64, k: int, b: u64) -> bool {
    &&& (1u64 << ((k + 1) as u64)) <= max_mem
    &&& start <= b
    &&& b + (1u64 << ((k + 1) as u64)) <= start + max_mem
    &&& b & ((1u64 << ((k + 1) as u64)) - 1) as u64 == 0
}


/// The byte size of a block held on the list with order index `k`.
pub open spec fn block_len(k: int) -> u64 {
    1u64 << ((k + 1) as u64)
}

/// The ranges `[a, a + la)` and `[b, b + lb)` share no byte.
pub open spec fn ranges_disjoint(a: u64, la: u64, b: u64, lb: u64) -> bool {
    a + la <= b || b + lb <= a
}

/// The range `[a, a + la)` lies inside `[b, b + lb)`.
pub open spec fn range_within(a: u64, la: u64, b: u64, lb: u64) -> bool {
    b <= a && a + la <= b + lb
}

/// Power-of-two allocator with `ORDER` free lists; list `k` holds free
/// blocks of `1 << (k + 1)` bytes.
pub struct BuddyAllocator<const ORDER: usize> {
    free_lists: Vec<Vec<u64>>,
    max_mem: u64,
    allocated: u64,
    start: u64,
}

impl<const ORDER: usize> BuddyAllocator<ORDER> {
    /// The free lists as sequences of block addresses.
    pub closed spec fn lists(&self) -> Seq<Seq<u64>> {
        Seq::new(self.free_lists@.len(), |k: int| self.free_lists@[k]@)
    }

    /// First address of the managed region.
    pub closed spec fn start_spec(&self) -> u64 {
        self.start
    }

    /// Size of the managed region in bytes.
    pub closed spec fn max_mem_spec(&self) -> u64 {
        self.max_mem
    }

    /// Bytes counted as handed out.
    pub closed spec fn allocated_spec(&self) -> u64 {
        self.allocated
    }

    /// When a handed-back block is taken onto a free list: its order has a
    /// list, bytes are counted as out, and the block is aligned and inside
    /// the region.
    pub open spec fn accepts_back(&self, ptr: u64, size: u64) -> bool {
        &&& exists|o: u64|
            size == (1u64 << o) && 1 <= o <= 62 && ((o - 1) as int) < (ORDER as int)
        &&& self.allocated_spec() >= size
        &&& ptr % size == 0
        &&& self.start_spec() <= ptr
        &&& size <= self.max_mem_spec()
        &&& ptr <= self.start_spec() + (self.max_mem_spec() - size)
    }

    /// No two distinct free blocks share a byte.
    pub open spec fn free_disjoint(&self) -> bool {
        forall|k1: int, j1: int, k2: int, j2: int|
            0 <= k1 < ORDER && k1 <= 62 && 0 <= j1 < self.lists()[k1].len() && 0 <= k2 < ORDER
                && k2 <= 62 && 0 <= j2 < self.lists()[k2].len() && (k1 != k2 || j1 != j2)
                ==> ranges_disjoint(
                #[trigger] self.lists()[k1][j1],
                block_len(k1),
                #[trigger] self.lists()[k2][j2],
                block_len(k2),
            )
    }

    /// The range `[b, b + l)` lies inside one of the free blocks.
    pub open spec fn within_some_free_block(&self, b: u64, l: u64) -> bool {
        exists|k: int, j: int|
            0 <= k < ORDER && k <= 62 && 0 <= j < self.lists()[k].len() && range_within(
                b,
                l,
                #[trigger] self.lists()[k][j],
                block_len(k),
            )
    }

    /// How one allocation reshapes the free lists: the head `p` of the
    /// first non-empty list at or above the requested order comes off, and
    /// each order walked down on the way gains the upper half of the block
    /// split at that step.
    pub open spec fn allocate_shape(
        &self,
        post: BuddyAllocator<ORDER>,
        size: u64,
        o: u64,
        k0: int,
        p: u64,
    ) -> bool {
        &&& size == (1u64 << o)
        &&& 1 <= o <= 63
        &&& o - 1 <= k0 < ORDER
        &&& k0 <= 62
        &&& (forall|j: int| o - 1 <= j < k0 ==> (#[trigger] self.lists()[j]).len() == 0)
        &&& self.lists()[k0].len() > 0
        &&& p == self.lists()[k0][0]
        &&& post.lists()[k0] == self.lists()[k0].drop_first()
        &&& (forall|j: int|
            o - 1 <= j < k0 ==> #[trigger] post.lists()[j] == (seq![
                (p + (1u64 << ((j + 1) as u64))) as u64,
            ]))
        &&& (forall|j: int|
            0 <= j < ORDER && !(o - 1 <= j <= k0) ==> #[trigger] post.lists()[j]
                == self.lists()[j])
    }

    /// There are `ORDER` lists; every listed block is aligned to its size
    /// and inside the region; lists whose order cannot fit a 64-bit size
    /// are empty.
    pub closed spec fn wf_spec(&self) -> bool {
        &&& self.free_lists@.len() == ORDER
        &&& is_pow2(self.max_mem)
        &&& self.start & (self.max_mem - 1) as u64 == 0
        &&& self.start + self.max_mem <= u64::MAX
        &&& forall|k: int, j: int|
            0 <= k < ORDER && k <= 62 && 0 <= j < self.free_lists@[k]@.len() ==> block_ok(
                self.start,
                self.max_mem,
                k,
                #[trigger] self.free_lists@[k]@[j],
            )
        &&& forall|k: int| 63 <= k < ORDER ==> (#[trigger] self.free_lists@[k]@).len() == 0
    }

    /// The allocator's well-formedness.
    pub open spec fn wf(&self) -> bool {
        self.wf_spec()
    }

    /// A buddy allocator over the `max_mem` bytes at `start_addr`, with the
    /// single top-order block covering the whole region.
    ///
    /// On hardware construction also zeroes the region; the model holds no
    /// region bytes, so only the list state is built.
    pub fn new(start_addr: u64, max_mem: u64) -> (a: BuddyAllocator<ORDER>)
        requires
            is_pow2(max_mem),
            max_mem >= 2,
            start_addr & (max_mem - 1) as u64 == 0,
            start_addr + max_mem <= u64::MAX,
            exists|o: u64| max_mem == (1u64 << o) && 0 < o <= 63 && o - 1 < ORDER,
        ensures
            a.wf(),
            a.start_spec() == start_addr,
            a.max_mem_spec() == max_mem,
            a.allocated_spec() == 0,
            a.lists().len() == ORDER,
            forall|k: int|
                0 <= k < ORDER && k <= 62 && (1u64 << ((k + 1) as u64)) == max_mem
                    ==> a.lists()[k] == (seq![start_addr]),
            forall|k: int|
                0 <= k < ORDER && !(k <= 62 && (1u64 << ((k + 1) as u64)) == max_mem) ==> (
                #[trigger] a.lists()[k]).len() == 0,
            exists|k: int|
                0 <= k < ORDER && k <= 62 && #[trigger] (1u64 << ((k + 1) as u64)) == max_mem,
            a.free_disjoint(),
    {
        let order = order_of(max_mem);
        let mut free_lists: Vec<Vec<u64>> = Vec::new();
        let mut i: usize = 0;
        while i < ORDER
            invariant
                i <= ORDER,
                free_lists@.len() == i,
                forall|k: int| 0 <= k < i ==> (#[trigger] free_lists@[k]@).len() == 0,
            decreases ORDER - i,
        {
            free_lists.push(Vec::new());
            i = i + 1;
        }
        proof {
            let o = choose|o: u64| max_mem == (1u64 << o) && 0 < o <= 63 && o - 1 < ORDER;
            assert((1u64 << order) == (1u64 << o) && 0 < o <= 63 && order <= 63 ==> order == o
                && order >= 1) by (bit_vector);
        }
        let idx = (order - 1) as usize;
        let mut seed = free_lists.remove(idx);
        seed.push(start_addr);
        free_lists.insert(idx, seed);
        let a = BuddyAllocator { free_lists, max_mem, allocated: 0, start: start_addr };
        proof {
            let m = max_mem;
            let sa = start_addr;
            assert(a.free_lists@[idx as int]@ =~= seq![start_addr]);
            assert(a.lists()[idx as int] =~= seq![start_addr]);
            assert forall|k: int, j: int|
                0 <= k < ORDER && k <= 62 && 0 <= j < a.free_lists@[k]@.len() implies block_ok(
                sa,
                m,
                k,
                #[trigger] a.free_lists@[k]@[j],
            ) by {
                if k == idx {
                    assert((k + 1) as u64 == order);
                    assert(block_ok(sa, m, k, start_addr)) by {
                        assert(m >= 2);
                    }
                    assert(a.free_lists@[k]@[j] == start_addr);
                } else {
                    assert(a.free_lists@[k]@.len() == 0);
                }
            }
            assert forall|k: int| 63 <= k < ORDER implies (#[trigger] a.free_lists@[k]@).len()
                == 0 by {
                assert(k != idx);
                assert(a.free_lists@[k]@.len() == 0);
            }
            assert forall|k: int|
                0 <= k < ORDER && k <= 62 && (1u64 << ((k + 1) as u64)) == max_mem implies
            a.lists()[k] == (seq![start_addr]) by {
                lemma_shift_injective((k + 1) as u64, order);
                assert(k == idx);
                assert(a.lists()[k] =~= seq![start_addr]);
            }
            assert forall|k: int|
                0 <= k < ORDER && !(k <= 62 && (1u64 << ((k + 1) as u64)) == max_mem) implies (
            #[trigger] a.lists()[k]).len() == 0 by {
                if k == idx {
                    assert((1u64 << ((k + 1) as u64)) == max_mem);
                    assert(false);
                }
                assert(a.free_lists@[k]@.len() == 0);
            }
            assert(0 <= idx < ORDER && idx <= 62 && (1u64 << ((idx + 1) as u64)) == max_mem);
        }
        a
    }

    /// Serve a power-of-two allocation.
    ///
    /// The free lists are scanned from the requested order upward; the
    /// first block found is split down one order at a time until a block of
    /// the requested size exists, which is removed and returned.  Nothing
    /// is returned once the counted bytes reach the region size or when no
    /// large-enough block is free.
    pub fn allocate(&mut self, size: u64) -> (r: Option<u64>)
        requires
            old(self).wf(),
            is_pow2(size),
            size >= 2,
        ensures
            final(self).wf(),
            final(self).start_spec() == old(self).start_spec(),
            final(self).max_mem_spec() == old(self).max_mem_spec(),
            (match r {
                Some(p) => {
                    &&& p % size == 0
                    &&& old(self).start_spec() <= p
                    &&& p + size <= old(self).start_spec() + old(self).max_mem_spec()
                    &&& final(self).allocated_spec() == old(self).allocated_spec() + size
                    &&& (exists|o: u64, k0: int|
                        old(self).allocate_shape(*final(self), size, o, k0, p))
                    &&& old(self).within_some_free_block(p, size)
                    &&& (old(self).free_disjoint() ==> final(self).free_disjoint())
                    &&& (old(self).free_disjoint() ==> forall|k: int, j: int|
                        0 <= k < ORDER && k <= 62 && 0 <= j < final(self).lists()[k].len()
                            ==> ranges_disjoint(
                            p,
                            size,
                            #[trigger] final(self).lists()[k][j],
                            block_len(k),
                        ))
                    &&& (forall|k: int, j: int|
                        0 <= k < ORDER && k <= 62 && 0 <= j < final(self).lists()[k].len()
                            ==> old(self).within_some_free_block(
                            #[trigger] final(self).lists()[k][j],
                            block_len(k),
                        ))
                },
                None => final(self).allocated_spec() == old(self).allocated_spec()
                    && *final(self) == *old(self),
            }),
            (old(self).allocated_spec() < old(self).max_mem_spec() && exists|k: int|
                0 <= k < ORDER && (1u64 << ((k + 1) as u64)) >= size && old(self).lists()[k].len()
                    > 0) ==> r is Some,
    {
        if self.allocated >= self.max_mem {
            return None;
        }
        let order = order_of(size);
        proof {
            assert((1u64 << order) >= 2 && order <= 63 ==> order >= 1) by (bit_vector);
        }
        if order - 1 >= ORDER as u64 {
            proof {
                assert forall|k: int|
                    0 <= k < ORDER && (1u64 << ((k + 1) as u64)) >= size && self.lists()[k].len()
                        > 0 implies false by {
                    let ku = k as u64;
                    if k <= 62 {
                        assert((1u64 << ((ku + 1) as u64)) >= (1u64 << order) && ku + 1 <= 63
                            && order <= 63 ==> ku + 1 >= order) by (bit_vector);
                        assert(k >= order - 1);
                        assert(false);
                    } else {
                        assert(self.free_lists@[k]@.len() == 0);
                        assert(self.lists()[k].len() == 0);
                    }
                }
            }
            return None;
        }
        let base = (order - 1) as usize;
        let mut idx = base;
        let mut found: usize = ORDER;
        while idx < ORDER
            invariant_except_break
                found == ORDER,
            invariant
                base <= idx <= ORDER,
                self.wf(),
                *self == *old(self),
                found == ORDER || (base <= found < ORDER && self.lists()[found as int].len() > 0
                    && found == idx),
                forall|k: int| base <= k < idx ==> (#[trigger] self.lists()[k]).len() == 0,
            ensures
                self.wf(),
                *self == *old(self),
                base <= idx <= ORDER,
                (found == ORDER ==> forall|k: int|
                    base <= k < ORDER ==> (#[trigger] self.lists()[k]).len() == 0),
                (found < ORDER ==> base <= found < ORDER && self.lists()[found as int].len() > 0
                    && (forall|k: int|
                    base <= k < found ==> (#[trigger] self.lists()[k]).len() == 0)),
            decreases ORDER - idx,
        {
            if self.free_lists[idx].len() > 0 {
                found = idx;
                break ;
            }
            idx = idx + 1;
        }
        if found == ORDER {
            proof {
                assert forall|k: int|
                    0 <= k < ORDER && (1u64 << ((k + 1) as u64)) >= size && self.lists()[k].len()
                        > 0 implies false by {
                    let ku = k as u64;
                    if k <= 62 {
                        assert((1u64 << ((ku + 1) as u64)) >= (1u64 << order) && ku + 1 <= 63
                            && order <= 63 ==> ku + 1 >= order) by (bit_vector);
                        assert(k >= order - 1);
                        assert(self.lists()[k].len() == 0);
                        assert(false);
                    } else {
                        assert(self.free_lists@[k]@.len() == 0);
                        assert(self.lists()[k].len() == 0);
                    }
                }
            }
            return None;
        }
        let ghost g0 = *self;
        let ghost p0 = self.lists()[found as int][0];
        proof {
            if found >= 63 {
                assert(g0.free_lists@[found as int]@.len() == 0);
                assert(false);
            }
        }
        let mut k = found;
        while k > base
            invariant
                self.wf(),
                self.start_spec() == old(self).start_spec(),
                self.max_mem_spec() == old(self).max_mem_spec(),
                self.allocated_spec() == old(self).allocated_spec(),
                base <= k <= found < ORDER,
                found <= 62,
                self.lists()[k as int].len() > 0,
                base == order - 1,
                size == (1u64 << order),
                1 <= order <= 63,
                g0.lists().len() == ORDER,
                g0.lists()[found as int].len() > 0,
                p0 == g0.lists()[found as int][0],
                forall|j: int| base <= j < found ==> (#[trigger] g0.lists()[j]).len() == 0,
                (k == found ==> *self == g0),
                (k < found ==> self.lists()[found as int] == g0.lists()[
                    found as int].drop_first()),
                (k < found ==> forall|j: int|
                    k < j < found ==> #[trigger] self.lists()[j] == (seq![
                        (p0 + (1u64 << ((j + 1) as u64))) as u64,
                    ])),
                (k < found ==> self.lists()[k as int] == (seq![
                    p0,
                    (p0 + (1u64 << ((k + 1) as u64))) as u64,
                ])),
                (k < found ==> forall|j: int|
                    0 <= j < ORDER && !(k <= j <= found) ==> #[trigger] self.lists()[j]
                        == g0.lists()[j]),
            decreases k,
        {
            let ghost pre = *self;
            proof {
                if k >= 63 {
                    assert(pre.free_lists@[k as int]@.len() == 0);
                    assert(false);
                }
                assert(block_ok(
                    pre.start_spec(),
                    pre.max_mem_spec(),
                    k as int,
                    pre.free_lists@[k as int]@[0],
                ));
            }
            let mut list = self.free_lists.remove(k);
            let block = list.remove(0);
            self.free_lists.insert(k, list);
            proof {
                assert(self.free_lists@ =~= pre.free_lists@.update(k as int, list));
                assert(block == pre.free_lists@[k as int]@[0]);
            }
            let half = 1u64 << (k as u64);
            proof {
                let kk = k as u64;
                let b = block;
                assert((b & ((1u64 << ((kk + 1) as u64)) - 1) as u64 == 0 && kk <= 62 && 2
                    <= (1u64 << ((kk + 1) as u64))) ==> (b & ((1u64 << kk) - 1) as u64 == 0 && ((b
                    + (1u64 << kk)) as u64) & ((1u64 << kk) - 1) as u64 == 0 && (1u64 << ((kk
                    + 1) as u64)) == (1u64 << kk) + (1u64 << kk) && 1u64 <= (1u64 << kk)))
                    by (bit_vector);
                assert(2 <= (1u64 << ((kk + 1) as u64))) by (bit_vector)
                    requires
                        kk <= 62,
                ;
            }
            let ghost mid = *self;
            let mut lower = self.free_lists.remove(k - 1);
            lower.push(block);
            lower.push(block + half);
            self.free_lists.insert(k - 1, lower);
            proof {
                assert(self.free_lists@ =~= mid.free_lists@.update(k - 1, lower));
                let sa = self.start_spec();
                let m = self.max_mem_spec();
                assert(block_ok(sa, m, k - 1, block));
                assert(block_ok(sa, m, k - 1, (block + half) as u64));
                assert forall|kk: int, j: int|
                    0 <= kk < ORDER && kk <= 62 && 0 <= j < self.free_lists@[kk]@.len() implies
                block_ok(sa, m, kk, self.free_lists@[kk]@[j]) by {
                    if kk == k - 1 {
                        let n = mid.free_lists@[kk]@.len();
                        if j < n {
                            assert(self.free_lists@[kk]@[j] == pre.free_lists@[kk]@[j]);
                            assert(block_ok(sa, m, kk, pre.free_lists@[kk]@[j]));
                        } else if j == n {
                            assert(self.free_lists@[kk]@[j] == block);
                        } else {
                            assert(self.free_lists@[kk]@[j] == (block + half) as u64);
                        }
                    } else if kk == k {
                        assert(self.free_lists@[kk]@[j] == pre.free_lists@[kk]@[j + 1]);
                        assert(block_ok(sa, m, kk, pre.free_lists@[kk]@[j + 1]));
                    } else {
                        assert(self.free_lists@[kk]@ == pre.free_lists@[kk]@);
                        assert(block_ok(sa, m, kk, pre.free_lists@[kk]@[j]));
                    }
                }
                assert forall|kk: int| 63 <= kk < ORDER implies (
                #[trigger] self.free_lists@[kk]@).len() == 0 by {
                    assert(self.free_lists@[kk]@ == pre.free_lists@[kk]@);
                }
                assert(self.lists()[k - 1].len() > 0);
                if k == found {
                    assert(pre.lists()[k as int][0] == p0);
                } else {
                    assert(pre.lists()[k as int] == (seq![
                        p0,
                        (p0 + (1u64 << ((k + 1) as u64))) as u64,
                    ]));
                    assert(pre.lists()[k as int][0] == p0);
                }
                assert(block == p0);
                assert(pre.lists()[k - 1].len() == 0) by {
                    if k < found {
                        assert(pre.lists()[k - 1] == g0.lists()[k - 1]);
                    }
                    assert(g0.lists()[k - 1].len() == 0);
                }
                assert(self.lists()[k - 1] =~= seq![
                    p0,
                    (p0 + (1u64 << (k as u64))) as u64,
                ]);
                if k == found {
                    assert(self.lists()[found as int] =~= g0.lists()[
                        found as int].drop_first());
                } else {
                    assert(self.lists()[k as int] =~= seq![
                        (p0 + (1u64 << ((k + 1) as u64))) as u64,
                    ]);
                    assert(self.lists()[found as int] == pre.lists()[found as int]);
                }
                assert forall|j: int| k < j < found implies #[trigger] self.lists()[j] == (seq![
                    (p0 + (1u64 << ((j + 1) as u64))) as u64,
                ]) by {
                    assert(self.lists()[j] == pre.lists()[j]);
                }
                assert forall|j: int|
                    0 <= j < ORDER && !(k - 1 <= j <= found) implies #[trigger] self.lists()[j]
                    == g0.lists()[j] by {
                    assert(self.lists()[j] == pre.lists()[j]);
                }
            }
            k = k - 1;
        }
        let ghost pre2 = *self;
        proof {
            if base >= 63 {
                assert(pre2.free_lists@[base as int]@.len() == 0);
                assert(false);
            }
            assert(block_ok(
                pre2.start_spec(),
                pre2.max_mem_spec(),
                base as int,
                pre2.free_lists@[base as int]@[0],
            ));
        }
        let mut list = self.free_lists.remove(base);
        let block = list.remove(0);
        self.free_lists.insert(base, list);
        proof {
            assert(self.free_lists@ =~= pre2.free_lists@.update(base as int, list));
            assert(block == pre2.free_lists@[base as int]@[0]);
            let sa = self.start_spec();
            let m = self.max_mem_spec();
            assert(block_ok(sa, m, base as int, block));
            let b = block;
            let o = order;
            lemma_mask_is_mod(b, o);
            assert forall|kk: int, j: int|
                0 <= kk < ORDER && kk <= 62 && 0 <= j < self.free_lists@[kk]@.len() implies
            block_ok(sa, m, kk, self.free_lists@[kk]@[j]) by {
                if kk == base {
                    assert(self.free_lists@[kk]@[j] == pre2.free_lists@[kk]@[j + 1]);
                    assert(block_ok(sa, m, kk, pre2.free_lists@[kk]@[j + 1]));
                } else {
                    assert(self.free_lists@[kk]@ == pre2.free_lists@[kk]@);
                    assert(block_ok(sa, m, kk, pre2.free_lists@[kk]@[j]));
                }
            }
            assert forall|kk: int| 63 <= kk < ORDER implies (
            #[trigger] self.free_lists@[kk]@).len() == 0 by {
                assert(self.free_lists@[kk]@ == pre2.free_lists@[kk]@);
            }
            assert(self.max_mem_spec() >= (1u64 << order)) by {
                assert(block_ok(sa, m, base as int, block));
                assert(base as u64 + 1 == order);
            }
        }
        proof {
            let m = self.max_mem_spec();
            assert((m & (m - 1) as u64) == 0 && m >= 1 ==> m <= 0x8000_0000_0000_0000u64)
                by (bit_vector);
            assert(self.allocated_spec() < m);
            assert(size <= m);
            assert(block == p0) by {
                if found > base {
                    assert(pre2.lists()[base as int] == (seq![
                        p0,
                        (p0 + (1u64 << ((base + 1) as u64))) as u64,
                    ]));
                }
                assert(pre2.lists()[base as int][0] == p0);
            }
            assert(g0.allocate_shape(
                BuddyAllocator {
                    free_lists: self.free_lists,
                    max_mem: self.max_mem,
                    allocated: (self.allocated + size) as u64,
                    start: self.start,
                },
                size,
                order,
                found as int,
                p0,
            )) by {
                let post = BuddyAllocator::<ORDER> {
                    free_lists: self.free_lists,
                    max_mem: self.max_mem,
                    allocated: (self.allocated + size) as u64,
                    start: self.start,
                };
                assert(post.lists() == self.lists());
                if found == base {
                    assert(pre2 == g0);
                    assert(post.lists()[found as int] =~= g0.lists()[
                        found as int].drop_first());
                } else {
                    assert(post.lists()[base as int] =~= seq![
                        (p0 + (1u64 << ((base + 1) as u64))) as u64,
                    ]);
                    assert(post.lists()[found as int] == pre2.lists()[found as int]);
                }
                assert forall|j: int| order - 1 <= j < found implies #[trigger] post.lists()[j]
                    == (seq![(p0 + (1u64 << ((j + 1) as u64))) as u64]) by {
                    if j != base {
                        assert(post.lists()[j] == pre2.lists()[j]);
                    }
                }
                assert forall|j: int|
                    0 <= j < ORDER && !(order - 1 <= j <= found) implies #[trigger] post.lists()[
                j] == g0.lists()[j] by {
                    assert(post.lists()[j] == pre2.lists()[j]);
                }
            }
            lemma_allocate_ranges(
                g0,
                BuddyAllocator {
                    free_lists: self.free_lists,
                    max_mem: self.max_mem,
                    allocated: (self.allocated + size) as u64,
                    start: self.start,
                },
                size,
                order,
                found as int,
                p0,
            );
        }
        self.allocated = self.allocated + size;
        Some(block)
    }

    /// Hand a power-of-two block back by pushing it onto the free list of
    /// its order, without merging buddies.  A block the allocator cannot
    /// account for (out of range, misaligned, too large, or more bytes than
    /// are out) is refused and nothing changes.
    pub fn dealloc(&mut self, ptr: u64, size: u64) -> (accepted: bool)
        requires
            old(self).wf(),
            is_pow2(size),
            size >= 2,
        ensures
            final(self).wf(),
            final(self).start_spec() == old(self).start_spec(),
            final(self).max_mem_spec() == old(self).max_mem_spec(),
            accepted == old(self).accepts_back(ptr, size),
            accepted ==> final(self).allocated_spec() == old(self).allocated_spec() - size
                && (exists|o: u64|
                size == (1u64 << o) && final(self).lists() == old(self).lists().update(
                    (o - 1) as int,
                    old(self).lists()[(o - 1) as int].push(ptr),
                )),
            !accepted ==> *final(self) == *old(self),
    {
        let order = order_of(size);
        proof {
            assert((1u64 << order) >= 2 ==> order >= 1) by (bit_vector);
        }
        if order - 1 >= ORDER as u64 || order > 62 {
            proof {
                if old(self).accepts_back(ptr, size) {
                    let o2 = choose|o: u64|
                        size == (1u64 << o) && 1 <= o <= 62 && ((o - 1) as int) < (ORDER as int);
                    lemma_shift_injective(order, o2);
                    assert(false);
                }
            }
            return false;
        }
        if self.allocated < size {
            return false;
        }
        if ptr % size != 0 || ptr < self.start {
            return false;
        }
        let limit = self.max_mem;
        if size > limit || ptr > self.start + (limit - size) {
            return false;
        }
        let ghost pre = *self;
        let base = (order - 1) as usize;
        let mut list = self.free_lists.remove(base);
        list.push(ptr);
        self.free_lists.insert(base, list);
        self.allocated = self.allocated - size;
        proof {
            lemma_mask_is_mod(ptr, order);
            assert(block_ok(self.start_spec(), self.max_mem_spec(), base as int, ptr));
            assert(pre.accepts_back(ptr, size)) by {
                assert(size == (1u64 << order) && 1 <= order <= 62 && ((order - 1) as int) < (
                ORDER as int));
            }
            assert(self.free_lists@ =~= pre.free_lists@.update(base as int, list));
            assert(self.lists() =~= pre.lists().update(
                base as int,
                pre.lists()[base as int].push(ptr),
            ));
            assert(size == (1u64 << order) && self.lists() == pre.lists().update(
                (order - 1) as int,
                pre.lists()[(order - 1) as int].push(ptr),
            ));
        }
        true
    }

}

/// The order of a power of two: `size == 1 << order_of(size)`.
fn order_of(size: u64) -> (o: u64)
    requires
        is_pow2(size),
    ensures
        size == (1u64 << o),
        o <= 63,
{
    let mut v = size;
    let mut o: u64 = 0;
    proof {
        assert((size << 0u64) == size && ((size << 0u64) >> 0u64) == size) by (bit_vector);
    }
    while v > 1
        invariant
            v >= 1,
            is_pow2(v),
            o <= 63,
            size == (v << o) && ((v << o) >> o) == v,
        decreases v,
    {
        proof {
            let vv = v;
            let oo = o;
            assert((vv & (vv - 1) as u64) == 0 && vv > 1 && oo <= 63 && ((vv << oo) >> oo) == vv
                ==> ((vv >> 1) << ((oo + 1) as u64)) == (vv << oo) && (((vv >> 1) << ((oo
                + 1) as u64)) >> ((oo + 1) as u64)) == (vv >> 1) && ((vv >> 1) & ((vv >> 1)
                - 1) as u64) == 0 && (vv >> 1) >= 1 && oo + 1 <= 63 && (vv >> 1) < vv)
                by (bit_vector);
        }
        v = v >> 1u64;
        o = o + 1;
    }
    proof {
        let vv = v;
        let oo = o;
        assert(vv == 1 ==> (vv << oo) == (1u64 << oo)) by (bit_vector);
    }
    o
}



/// Equal powers of two have equal exponents.
proof fn lemma_shift_injective(a: u64, b: u64)
    by (bit_vector)
    requires
        (1u64 << a) == (1u64 << b),
        a <= 63,
        b <= 63,
    ensures
        a == b,
{
}


/// A power of two never shrinks when its exponent grows.
proof fn lemma_shift_monotone(x: u64, y: u64)
    by (bit_vector)
    requires
        x <= y,
        y <= 63,
    ensures
        (1u64 << x) <= (1u64 << y),
{
}

/// Doubling a power of two raises its exponent by one.
proof fn lemma_shift_double(x: u64)
    by (bit_vector)
    requires
        x <= 62,
    ensures
        (1u64 << ((x + 1) as u64)) == (1u64 << x) + (1u64 << x),
{
}

/// What one allocation does to the free ranges: the returned block and
/// every split-off half lie inside the block that came off the list, so
/// free blocks stay pairwise disjoint, the returned range lay inside an
/// old free block, misses every remaining free block, and every remaining
/// free block lies inside an old one.
pub proof fn lemma_allocate_ranges<const ORDER: usize>(
    a: BuddyAllocator<ORDER>,
    b: BuddyAllocator<ORDER>,
    size: u64,
    o: u64,
    k0: int,
    p: u64,
)
    requires
        a.wf(),
        a.allocate_shape(b, size, o, k0, p),
    ensures
        a.within_some_free_block(p, size),
        a.free_disjoint() ==> b.free_disjoint(),
        a.free_disjoint() ==> forall|k: int, j: int|
            0 <= k < ORDER && k <= 62 && 0 <= j < b.lists()[k].len() ==> ranges_disjoint(
                p,
                size,
                #[trigger] b.lists()[k][j],
                block_len(k),
            ),
        forall|k: int, j: int|
            0 <= k < ORDER && k <= 62 && 0 <= j < b.lists()[k].len()
                ==> a.within_some_free_block(#[trigger] b.lists()[k][j], block_len(k)),
{
    let big = block_len(k0);
    assert(block_ok(a.start_spec(), a.max_mem_spec(), k0, p)) by {
        assert(a.free_lists@[k0]@[0] == p);
    }
    assert(p + big <= a.start_spec() + a.max_mem_spec() <= u64::MAX);
    lemma_shift_monotone(o, (k0 + 1) as u64);
    assert(size <= big);
    assert forall|j: int| o - 1 <= j < k0 implies ({
        &&& (p + (1u64 << ((j + 1) as u64))) as u64 == p + (1u64 << ((j + 1) as u64))
        &&& p + size <= (p + (1u64 << ((j + 1) as u64))) as u64
        &&& range_within(
            (p + (1u64 << ((j + 1) as u64))) as u64,
            block_len(j),
            p,
            big,
        )
    }) by {
        lemma_shift_monotone((j + 1) as u64, (k0 + 1) as u64);
        lemma_shift_double((j + 1) as u64);
        lemma_shift_monotone((j + 2) as u64, (k0 + 1) as u64);
        lemma_shift_monotone(o, (j + 1) as u64);
    }
    assert(a.within_some_free_block(p, size)) by {
        assert(range_within(p, size, a.lists()[k0][0], block_len(k0)));
    }
    if a.free_disjoint() {
        assert forall|k1: int, j1: int, k2: int, j2: int|
            0 <= k1 < ORDER && k1 <= 62 && 0 <= j1 < b.lists()[k1].len() && 0 <= k2 < ORDER && k2
                <= 62 && 0 <= j2 < b.lists()[k2].len() && (k1 != k2 || j1 != j2) implies
        ranges_disjoint(
            #[trigger] b.lists()[k1][j1],
            block_len(k1),
            #[trigger] b.lists()[k2][j2],
            block_len(k2),
        ) by {
            lemma_one_block(a, b, size, o, k0, p, k1, j1);
            lemma_one_block(a, b, size, o, k0, p, k2, j2);
            if o - 1 <= k1 < k0 && o - 1 <= k2 < k0 {
                if k1 < k2 {
                    lemma_shift_double((k1 + 1) as u64);
                    lemma_shift_monotone((k1 + 2) as u64, (k2 + 1) as u64);
                } else {
                    lemma_shift_double((k2 + 1) as u64);
                    lemma_shift_monotone((k2 + 2) as u64, (k1 + 1) as u64);
                }
            }
        }
        assert forall|k: int, j: int|
            0 <= k < ORDER && k <= 62 && 0 <= j < b.lists()[k].len() implies ranges_disjoint(
            p,
            size,
            #[trigger] b.lists()[k][j],
            block_len(k),
        ) by {
            lemma_one_block(a, b, size, o, k0, p, k, j);
        }
    }
    assert forall|k: int, j: int|
        0 <= k < ORDER && k <= 62 && 0 <= j < b.lists()[k].len() implies a.within_some_free_block(
        #[trigger] b.lists()[k][j],
        block_len(k),
    ) by {
        lemma_one_block(a, b, size, o, k0, p, k, j);
        if o - 1 <= k < k0 {
            assert(range_within(b.lists()[k][j], block_len(k), a.lists()[k0][0], block_len(k0)));
        } else if k == k0 {
            assert(range_within(
                b.lists()[k][j],
                block_len(k),
                a.lists()[k0][j + 1],
                block_len(k0),
            ));
        } else {
            assert(range_within(b.lists()[k][j], block_len(k), a.lists()[k][j], block_len(k)));
        }
    }
}

/// Each remaining free block is either an untouched old block, a survivor
/// of the popped list, or a split-off half inside the popped block.
proof fn lemma_one_block<const ORDER: usize>(
    a: BuddyAllocator<ORDER>,
    b: BuddyAllocator<ORDER>,
    size: u64,
    o: u64,
    k0: int,
    p: u64,
    k: int,
    j: int,
)
    requires
        a.wf(),
        a.allocate_shape(b, size, o, k0, p),
        0 <= k < ORDER,
        k <= 62,
        0 <= j < b.lists()[k].len(),
    ensures
        (o - 1 <= k < k0 ==> j == 0 && b.lists()[k][j] == p + (1u64 << ((k + 1) as u64))
            && range_within(b.lists()[k][j], block_len(k), p, block_len(k0)) && p + size
            <= b.lists()[k][j]),
        (k == k0 ==> 0 <= j + 1 < a.lists()[k0].len() && b.lists()[k][j] == a.lists()[k0][j + 1]),
        (!(o - 1 <= k <= k0) ==> b.lists()[k][j] == a.lists()[k][j] && j < a.lists()[k].len()),
        (a.free_disjoint() && !(o - 1 <= k < k0) ==> ranges_disjoint(
            p,
            block_len(k0),
            b.lists()[k][j],
            block_len(k),
        )),
{
    assert(block_ok(a.start_spec(), a.max_mem_spec(), k0, p)) by {
        assert(a.free_lists@[k0]@[0] == p);
    }
    if o - 1 <= k < k0 {
        assert(b.lists()[k] == (seq![(p + (1u64 << ((k + 1) as u64))) as u64]));
        lemma_shift_monotone((k + 1) as u64, (k0 + 1) as u64);
        lemma_shift_double((k + 1) as u64);
        lemma_shift_monotone((k + 2) as u64, (k0 + 1) as u64);
        lemma_shift_monotone(o, (k + 1) as u64);
    } else if k == k0 {
        assert(b.lists()[k0] == a.lists()[k0].drop_first());
        if a.free_disjoint() && j + 1 != 0 {
            assert(ranges_disjoint(
                a.lists()[k0][0],
                block_len(k0),
                a.lists()[k0][j + 1],
                block_len(k0),
            ));
        }
    } else {
        assert(b.lists()[k] == a.lists()[k]);
        if a.free_disjoint() && (k != k0 || j != 0) {
            assert(ranges_disjoint(
                a.lists()[k0][0],
                block_len(k0),
                a.lists()[k][j],
                block_len(k),
            ));
        }
    }
}

} // verus!
