//! The memory pool: one contiguous buffer that is registered for remote
//! access, sub-allocated at aligned offsets, first fit over a free list of
//! released blocks and then from a high-water mark.
use crate::error::KvError;
use crate::protocol::{
    addr_rkey_view, DescriptorView, DomainAddress, MemoryRegionDescriptor, MemoryRegionHandle,
    MemoryRegionRemoteKey,
};
use crate::sums::{lemma_map_sum_empty, lemma_map_sum_insert, map_sum};
use vstd::arithmetic::div_mod::{lemma_fundamental_div_mod, lemma_mod_multiples_basic};
use vstd::prelude::*;

verus! {

/// Pool sizing: total bytes, and the alignment of every handed-out offset.
#[derive(Clone, Debug)]
pub struct MemoryPoolConfig {
    pub size: usize,
    pub alignment: usize,
}

impl Default for MemoryPoolConfig {
    /// One gibibyte, page aligned.
    fn default() -> (r: Self)
        ensures
            r.size == 1024 * 1024 * 1024,
            r.alignment == 4096,
    {
        MemoryPoolConfig { size: 1024 * 1024 * 1024, alignment: 4096 }
    }
}

/// A window of the pool reserved by `allocate` and owned by its holder until
/// it is handed back to `deallocate`.
#[derive(Clone, Copy, Debug, PartialEq, Eq, Structural)]
pub struct PoolAllocation {
    pub offset: usize,
    pub size: usize,
}

/// Pool occupancy: buffer size, bytes held by live allocations, and what
/// remains allocatable.
#[derive(Clone, Copy, Debug, PartialEq, Eq, Structural)]
pub struct PoolStats {
    pub total: usize,
    pub used: usize,
    pub available: usize,
}

/// `b` with the bytes from `off` on replaced by `d`.
pub open spec fn overwrite(b: Seq<u8>, off: int, d: Seq<u8>) -> Seq<u8> {
    Seq::new(b.len(), |k: int| if off <= k < off + d.len() { d[k - off] } else { b[k] })
}

/// Overwriting leaves every range outside the written one as it was.
pub proof fn lemma_overwrite_outside(b: Seq<u8>, off: int, d: Seq<u8>, x: int, l: int)
    requires
        0 <= off,
        off + d.len() <= b.len(),
        0 <= x,
        0 <= l,
        x + l <= b.len(),
        x + l <= off || off + d.len() <= x || d.len() == 0 || l == 0,
    ensures
        overwrite(b, off, d).subrange(x, x + l) == b.subrange(x, x + l),
{
    assert(overwrite(b, off, d).subrange(x, x + l) =~= b.subrange(x, x + l));
}

/// Overwriting puts the written bytes in place.
pub proof fn lemma_overwrite_inside(b: Seq<u8>, off: int, d: Seq<u8>)
    requires
        0 <= off,
        off + d.len() <= b.len(),
    ensures
        overwrite(b, off, d).subrange(off, off + d.len()) == d,
        overwrite(b, off, d).len() == b.len(),
{
    assert(overwrite(b, off, d).subrange(off, off + d.len()) =~= d);
}

/// The per-domain list of a freshly registered region: the i-th domain's
/// address with remote key i.
pub open spec fn registered_list(addrs: Seq<DomainAddress>) -> Seq<(Seq<u8>, u64)> {
    Seq::new(addrs.len(), |i: int| (addrs[i]@, i as u64))
}

/// `n` rounded up to a multiple of `a`.
pub open spec fn align_up(n: nat, a: nat) -> nat
    recommends
        a > 0,
{
    if n % a == 0 {
        n
    } else {
        (n + (a - n % a)) as nat
    }
}

/// The bytes that an allocation of `size` holds in a pool aligned to `a`.
pub open spec fn footprint(size: nat, a: nat) -> nat {
    align_up(size, a)
}

/// Two byte ranges share no byte.
pub open spec fn disjoint(o1: int, l1: int, o2: int, l2: int) -> bool {
    o1 + l1 <= o2 || o2 + l2 <= o1
}

/// The total size of a list of (offset, size) blocks.
pub open spec fn blocks_total(s: Seq<(usize, usize)>) -> nat
    decreases s.len(),
{
    if s.len() == 0 {
        0
    } else {
        (blocks_total(s.drop_last()) + s.last().1) as nat
    }
}

/// Facts about rounding up below an aligned bound.
pub proof fn lemma_align_up(n: nat, a: nat, m: nat)
    requires
        a > 0,
        m % a == 0,
        n <= m,
    ensures
        align_up(n, a) % a == 0,
        n <= align_up(n, a) <= m,
        n == 0 <==> align_up(n, a) == 0,
{
    let q = n / a;
    let r = n % a;
    let qm = m / a;
    lemma_fundamental_div_mod(n as int, a as int);
    lemma_fundamental_div_mod(m as int, a as int);
    if r != 0 {
        assert(q < qm) by (nonlinear_arith)
            requires
                n == a * q + r,
                m == a * qm,
                0 < r,
                n <= m,
                a > 0,
        ;
        assert(a * (q + 1) <= a * qm) by (nonlinear_arith)
            requires
                q < qm,
                a > 0,
        ;
        assert(align_up(n, a) == a * (q + 1)) by (nonlinear_arith)
            requires
                n == a * q + r,
                align_up(n, a) == n + (a - r),
        ;
        lemma_mod_multiples_basic((q + 1) as int, a as int);
        assert((q + 1) * a == a * (q + 1)) by (nonlinear_arith);
    }
}

proof fn lemma_blocks_total_update(s: Seq<(usize, usize)>, i: int, x: (usize, usize))
    requires
        0 <= i < s.len(),
    ensures
        blocks_total(s.update(i, x)) + s[i].1 == blocks_total(s) + x.1,
    decreases s.len(),
{
    if i == s.len() - 1 {
        assert(s.update(i, x).drop_last() =~= s.drop_last());
    } else {
        assert(s.update(i, x).drop_last() =~= s.drop_last().update(i, x));
        lemma_blocks_total_update(s.drop_last(), i, x);
    }
}

proof fn lemma_blocks_total_remove(s: Seq<(usize, usize)>, i: int)
    requires
        0 <= i < s.len(),
    ensures
        blocks_total(s.remove(i)) + s[i].1 == blocks_total(s),
    decreases s.len(),
{
    if i == s.len() - 1 {
        assert(s.remove(i) =~= s.drop_last());
    } else {
        assert(s.remove(i).drop_last() =~= s.drop_last().remove(i));
        lemma_blocks_total_remove(s.drop_last(), i);
    }
}

proof fn lemma_blocks_total_insert(s: Seq<(usize, usize)>, i: int, x: (usize, usize))
    requires
        0 <= i <= s.len(),
    ensures
        blocks_total(s.insert(i, x)) == blocks_total(s) + x.1,
    decreases s.len(),
{
    if i == s.len() {
        assert(s.insert(i, x).drop_last() =~= s);
    } else {
        assert(s.insert(i, x).drop_last() =~= s.drop_last().insert(i, x));
        lemma_blocks_total_insert(s.drop_last(), i, x);
    }
}

/// Sub-allocator of one pool: a high-water mark, and a free list of
/// released blocks ordered by offset. Each block, free or handed out, holds
/// a multiple of the alignment.
pub struct BumpAllocator {
    offset: usize,
    capacity: usize,
    alignment: usize,
    free_list: Vec<(usize, usize)>,
    free_bytes: usize,
    live: Ghost<Map<int, nat>>,
}

impl BumpAllocator {
    /// The high-water mark: every block lies below it.
    pub closed spec fn high_water(&self) -> nat {
        self.offset as nat
    }

    /// The bytes that can ever be handed out: the pool's size rounded down to
    /// the alignment.
    pub closed spec fn capacity_spec(&self) -> nat {
        self.capacity as nat
    }

    pub closed spec fn alignment_spec(&self) -> nat {
        self.alignment as nat
    }

    /// Released blocks, as (offset, size), in increasing offset order.
    pub closed spec fn free_blocks(&self) -> Seq<(usize, usize)> {
        self.free_list@
    }

    /// Blocks handed out and not yet released, offset to footprint.
    pub closed spec fn live(&self) -> Map<int, nat> {
        self.live@
    }

    pub closed spec fn wf(&self) -> bool {
        let a = self.alignment as int;
        let fl = self.free_list@;
        let live = self.live@;
        &&& a > 0
        &&& self.capacity % self.alignment == 0
        &&& self.offset % self.alignment == 0
        &&& self.offset <= self.capacity
        &&& live.dom().finite()
        &&& self.free_bytes == blocks_total(fl)
        &&& self.free_bytes + map_sum(live) == self.offset
        &&& forall|i: int|
            0 <= i < fl.len() ==> {
                &&& #[trigger] fl[i].0 % self.alignment == 0
                &&& fl[i].1 % self.alignment == 0
                &&& fl[i].1 > 0
                &&& fl[i].0 + fl[i].1 <= self.offset
            }
        &&& forall|i: int, j: int| 0 <= i < j < fl.len() ==> #[trigger] fl[i].0 + fl[i].1 <= #[trigger] fl[j].0
        &&& forall|o: int|
            #[trigger] live.contains_key(o) ==> {
                &&& o >= 0
                &&& o % a == 0
                &&& (live[o] as int) % a == 0
                &&& live[o] > 0
                &&& o + live[o] <= self.offset
            }
        &&& forall|o1: int, o2: int|
            #[trigger] live.contains_key(o1) && #[trigger] live.contains_key(o2) && o1 != o2 ==> disjoint(
                o1,
                live[o1] as int,
                o2,
                live[o2] as int,
            )
        &&& forall|i: int, o: int|
            0 <= i < fl.len() && #[trigger] live.contains_key(o) ==> disjoint(
                #[trigger] fl[i].0 as int,
                fl[i].1 as int,
                o,
                live[o] as int,
            )
    }

    /// Some free block, or the space above the high-water mark, holds
    /// `size` bytes.
    pub open spec fn can_fit(&self, size: nat) -> bool {
        (exists|i: int| 0 <= i < self.free_blocks().len() && self.free_blocks()[i].1 >= size)
            || self.high_water() + size <= self.capacity_spec()
    }

    /// `off` is where first fit places `size` bytes, and `next` is the
    /// allocator after it: the first free block (in offset order) that holds
    /// them gives up its front, keeping the rest free; else the bytes come
    /// from the high-water mark, which rises by their footprint.
    pub open spec fn first_fit_outcome(&self, size: nat, off: int, next: BumpAllocator) -> bool {
        let fp = footprint(size, self.alignment_spec());
        let fl = self.free_blocks();
        ||| exists|i: int|
            0 <= i < fl.len() && fl[i].1 >= size && (forall|j: int| 0 <= j < i ==> fl[j].1 < size) && off
                == fl[i].0 && next.high_water() == self.high_water() && next.free_blocks() == (if fl[i].1 > fp {
                fl.update(i, ((fl[i].0 + fp) as usize, (fl[i].1 - fp) as usize))
            } else {
                fl.remove(i)
            })
        ||| (forall|i: int| 0 <= i < fl.len() ==> fl[i].1 < size) && off == self.high_water()
            && next.free_blocks() == fl && next.high_water() == self.high_water() + fp
    }

    /// What `allocate(size)` returning `r` leaves as `next`.
    pub open spec fn allocate_post(&self, size: nat, r: Option<usize>, next: BumpAllocator) -> bool {
        let a = self.alignment_spec();
        let fp = footprint(size, a);
        &&& next.alignment_spec() == a
        &&& next.capacity_spec() == self.capacity_spec()
        &&& r is Some <==> self.can_fit(size)
        &&& match r {
            Some(off) => {
                &&& off as int % a as int == 0
                &&& off + size <= self.capacity_spec()
                &&& self.first_fit_outcome(size, off as int, next)
                &&& size > 0 ==> forall|o: int|
                    #[trigger] self.live().contains_key(o) ==> disjoint(
                        off as int,
                        fp as int,
                        o,
                        self.live()[o] as int,
                    )
                &&& size > 0 ==> !self.live().contains_key(off as int)
                &&& size > 0 ==> next.live() == self.live().insert(off as int, fp)
                &&& size == 0 ==> next.live() == self.live()
            },
            None => next == *self,
        }
    }

    /// What `deallocate(offset, size)` leaves as `next`: the block joins the
    /// free list at its place and leaves the live blocks.
    pub open spec fn deallocate_post(&self, offset: usize, size: nat, next: BumpAllocator) -> bool {
        let fp = footprint(size, self.alignment_spec());
        &&& next.alignment_spec() == self.alignment_spec()
        &&& next.capacity_spec() == self.capacity_spec()
        &&& next.high_water() == self.high_water()
        &&& size > 0 ==> next.live() == self.live().remove(offset as int)
        &&& size > 0 ==> exists|p: int|
            0 <= p <= self.free_blocks().len() && next.free_blocks() == #[trigger] self.free_blocks().insert(
                p,
                (offset, fp as usize),
            )
        &&& size == 0 ==> next == *self
    }

    /// Facts that hold of every well-formed allocator.
    pub proof fn lemma_wf(&self)
        requires
            self.wf(),
        ensures
            self.alignment_spec() > 0,
            self.capacity_spec() % self.alignment_spec() == 0,
            self.high_water() % self.alignment_spec() == 0,
            self.high_water() <= self.capacity_spec(),
            self.live().dom().finite(),
            forall|i: int|
                0 <= i < self.free_blocks().len() ==> {
                    &&& #[trigger] self.free_blocks()[i].1 > 0
                    &&& self.free_blocks()[i].1 as int % self.alignment_spec() as int == 0
                    &&& self.free_blocks()[i].0 + self.free_blocks()[i].1 <= self.high_water()
                },
            forall|o: int|
                #[trigger] self.live().contains_key(o) ==> o >= 0 && o % self.alignment_spec() as int == 0
                    && self.live()[o] > 0 && o + self.live()[o] <= self.high_water(),
            forall|o1: int, o2: int|
                #[trigger] self.live().contains_key(o1) && #[trigger] self.live().contains_key(o2) && o1 != o2
                    ==> disjoint(o1, self.live()[o1] as int, o2, self.live()[o2] as int),
    {
        assert forall|i: int| 0 <= i < self.free_blocks().len() implies {
            &&& #[trigger] self.free_blocks()[i].1 > 0
            &&& self.free_blocks()[i].1 as int % self.alignment_spec() as int == 0
            &&& self.free_blocks()[i].0 + self.free_blocks()[i].1 <= self.high_water()
        } by {
            assert(self.free_list@[i].0 % self.alignment == 0);
        }
    }

    /// The bytes held by live blocks.
    pub open spec fn used_spec(&self) -> nat {
        map_sum(self.live())
    }

    /// An allocator for `capacity` bytes rounded down to a multiple of
    /// `alignment`, with nothing handed out.
    pub fn new(capacity: usize, alignment: usize) -> (r: Self)
        requires
            alignment > 0,
        ensures
            r.wf(),
            r.alignment_spec() == alignment,
            r.capacity_spec() == capacity as int / alignment as int * alignment as int,
            r.high_water() == 0,
            r.free_blocks().len() == 0,
            r.live() == Map::<int, nat>::empty(),
    {
        proof {
            lemma_fundamental_div_mod(capacity as int, alignment as int);
            assert(capacity % alignment <= capacity) by (nonlinear_arith)
                requires
                    capacity == alignment * (capacity / alignment) + capacity % alignment,
                    alignment > 0,
            ;
        }
        let usable = capacity - capacity % alignment;
        proof {
            lemma_map_sum_empty::<int>();
            lemma_fundamental_div_mod(capacity as int, alignment as int);
            lemma_mod_multiples_basic((capacity / alignment) as int, alignment as int);
            assert(usable == (capacity / alignment) as int * alignment) by (nonlinear_arith)
                requires
                    capacity == alignment * (capacity / alignment) + capacity % alignment,
                    usable == capacity - capacity % alignment,
            ;
            assert(blocks_total(Seq::<(usize, usize)>::empty()) == 0);
            assert(usable % alignment == 0);
        }
        let r = BumpAllocator {
            offset: 0,
            capacity: usable,
            alignment,
            free_list: Vec::new(),
            free_bytes: 0,
            live: Ghost(Map::empty()),
        };
        assert(r.free_list@ =~= Seq::<(usize, usize)>::empty());
        assert(r.live@.dom().finite());
        assert(r.free_bytes + map_sum(r.live@) == r.offset);
        r
    }

    /// Rounds `size` up to the alignment; `size` fits below an aligned bound.
    fn round_up(&self, size: usize, bound: usize) -> (r: usize)
        requires
            self.wf(),
            size <= bound,
            bound as int % self.alignment_spec() as int == 0,
        ensures
            r == align_up(size as nat, self.alignment_spec()),
            r as int % self.alignment_spec() as int == 0,
            size <= r <= bound,
            size == 0 <==> r == 0,
    {
        proof {
            lemma_align_up(size as nat, self.alignment as nat, bound as nat);
        }
        let rem = size % self.alignment;
        if rem == 0 {
            size
        } else {
            size + (self.alignment - rem)
        }
    }

    /// Reserves `size` bytes: the first free block (by offset) that holds
    /// them, else the space at the high-water mark. `None` when neither has
    /// room.
    pub fn allocate(&mut self, size: usize) -> (r: Option<usize>)
        requires
            old(self).wf(),
        ensures
            final(self).wf(),
            old(self).allocate_post(size as nat, r, *final(self)),
    {
        let ghost a = self.alignment as nat;
        let ghost s0 = *self;
        let ghost fl0 = self.free_list@;
        let ghost live0 = self.live@;
        if size > self.capacity {
            proof {
                assert forall|i: int| 0 <= i < fl0.len() implies fl0[i].1 < size by {
                    assert(fl0[i].0 + fl0[i].1 <= self.offset);
                }
            }
            return None;
        }
        let mut i: usize = 0;
        while i < self.free_list.len() && self.free_list[i].1 < size
            invariant
                self.wf(),
                self.free_list@ == fl0,
                size <= self.capacity,
                i <= self.free_list.len(),
                forall|j: int| 0 <= j < i ==> self.free_list@[j].1 < size,
            decreases self.free_list.len() - i,
        {
            i += 1;
        }
        if i < self.free_list.len() {
            let (off, block) = self.free_list[i];
            assert(0 <= i < s0.free_blocks().len() && s0.free_blocks()[i as int].1 >= size);
            let fp = self.round_up(size, block);
            proof {
                assert(fl0[i as int].0 % self.alignment == 0);
                lemma_blocks_total_remove(fl0, i as int);
                if size > 0 {
                    assert(!live0.contains_key(off as int)) by {
                        if live0.contains_key(off as int) {
                            assert(disjoint(fl0[i as int].0 as int, fl0[i as int].1 as int, off as int, live0[off as int] as int));
                        }
                    }
                    lemma_map_sum_insert(live0, off as int, fp as nat);
                }
            }
            if fp < block {
                proof {
                    lemma_blocks_total_update(fl0, i as int, ((off + fp) as usize, (block - fp) as usize));
                }
                self.free_list.set(i, (off + fp, block - fp));
            } else {
                self.free_list.remove(i);
            }
            self.free_bytes = self.free_bytes - fp;
            if size > 0 {
                self.live = Ghost(self.live@.insert(off as int, fp as nat));
            }
            proof {
                let fl = self.free_list@;
                let live = self.live@;
                assert forall|p: int, q: int| 0 <= p < q < fl.len() implies #[trigger] fl[p].0 + fl[p].1 <= #[trigger] fl[q].0 by {
                    if fp < block {
                        assert(fl0[p].0 + fl0[p].1 <= fl0[q].0);
                    } else {
                        if p < i {
                            if q < i {
                                assert(fl[q] == fl0[q]);
                            } else {
                                assert(fl[q] == fl0[q + 1]);
                                assert(fl0[p].0 + fl0[p].1 <= fl0[q + 1].0);
                            }
                        } else {
                            assert(fl[p] == fl0[p + 1]);
                            assert(fl[q] == fl0[q + 1]);
                            assert(fl0[p + 1].0 + fl0[p + 1].1 <= fl0[q + 1].0);
                        }
                    }
                }
                assert forall|p: int| 0 <= p < fl.len() implies {
                    &&& #[trigger] fl[p].0 % self.alignment == 0
                    &&& fl[p].1 % self.alignment == 0
                    &&& fl[p].1 > 0
                    &&& fl[p].0 + fl[p].1 <= self.offset
                } by {
                    if fp < block {
                        if p == i {
                            lemma_mod_sum(off as int, fp as int, a as int);
                            lemma_mod_diff(block as int, fp as int, a as int);
                        } else {
                            assert(fl[p] == fl0[p]);
                        }
                    } else {
                        if p < i {
                            assert(fl[p] == fl0[p]);
                        } else {
                            assert(fl[p] == fl0[p + 1]);
                        }
                    }
                }
                assert forall|p: int, o: int| 0 <= p < fl.len() && #[trigger] live.contains_key(o) implies disjoint(
                    #[trigger] fl[p].0 as int,
                    fl[p].1 as int,
                    o,
                    live[o] as int,
                ) by {
                    let src: int = if fp < block || p < i { p } else { p + 1 };
                    if !(fp < block && p == i) {
                        assert(fl[p] == fl0[src]);
                        if o == off as int && size > 0 {
                            assert(fl0[i as int].0 + fl0[i as int].1 <= fl0[src].0 || fl0[src].0 + fl0[src].1 <= fl0[i as int].0) by {
                                if src < i {
                                    assert(fl0[src].0 + fl0[src].1 <= fl0[i as int].0);
                                } else {
                                    assert(fl0[i as int].0 + fl0[i as int].1 <= fl0[src].0);
                                }
                            }
                        } else {
                            assert(live0.contains_key(o));
                        }
                    } else {
                        if !(o == off as int && size > 0) {
                            assert(live0.contains_key(o));
                            assert(disjoint(fl0[i as int].0 as int, fl0[i as int].1 as int, o, live0[o] as int));
                        }
                    }
                }
                assert forall|o1: int, o2: int|
                    #[trigger] live.contains_key(o1) && #[trigger] live.contains_key(o2) && o1 != o2 implies disjoint(
                    o1,
                    live[o1] as int,
                    o2,
                    live[o2] as int,
                ) by {
                    if size > 0 && o1 == off as int {
                        assert(live0.contains_key(o2));
                        assert(disjoint(fl0[i as int].0 as int, fl0[i as int].1 as int, o2, live0[o2] as int));
                    } else if size > 0 && o2 == off as int {
                        assert(live0.contains_key(o1));
                        assert(disjoint(fl0[i as int].0 as int, fl0[i as int].1 as int, o1, live0[o1] as int));
                    } else {
                        assert(live0.contains_key(o1) && live0.contains_key(o2));
                    }
                }
                assert forall|o: int| #[trigger] live.contains_key(o) implies {
                    &&& o >= 0
                    &&& o % (self.alignment as int) == 0
                    &&& (live[o] as int) % (self.alignment as int) == 0
                    &&& live[o] > 0
                    &&& o + live[o] <= self.offset
                } by {
                    if !(size > 0 && o == off as int) {
                        assert(live0.contains_key(o));
                    }
                }
            }
            return Some(off);
        }
        if size > self.capacity - self.offset {
            return None;
        }
        let off = self.offset;
        proof {
            lemma_mod_diff(self.capacity as int, self.offset as int, a as int);
        }
        let fp = self.round_up(size, self.capacity - self.offset);
        proof {
            if size > 0 {
                assert(!live0.contains_key(off as int)) by {
                    if live0.contains_key(off as int) {
                        assert(off + live0[off as int] <= self.offset);
                    }
                }
                lemma_map_sum_insert(live0, off as int, fp as nat);
            }
            lemma_mod_sum(off as int, fp as int, a as int);
        }
        self.offset = off + fp;
        if size > 0 {
            self.live = Ghost(self.live@.insert(off as int, fp as nat));
        }
        proof {
            let live = self.live@;
            assert forall|o1: int, o2: int|
                #[trigger] live.contains_key(o1) && #[trigger] live.contains_key(o2) && o1 != o2 implies disjoint(
                o1,
                live[o1] as int,
                o2,
                live[o2] as int,
            ) by {
                if size > 0 && o1 == off as int {
                    assert(live0.contains_key(o2));
                } else if size > 0 && o2 == off as int {
                    assert(live0.contains_key(o1));
                } else {
                    assert(live0.contains_key(o1) && live0.contains_key(o2));
                }
            }
            assert forall|p: int, o: int| 0 <= p < fl0.len() && #[trigger] live.contains_key(o) implies disjoint(
                #[trigger] fl0[p].0 as int,
                fl0[p].1 as int,
                o,
                live[o] as int,
            ) by {
                if !(size > 0 && o == off as int) {
                    assert(live0.contains_key(o));
                }
            }
            assert forall|o: int| #[trigger] live.contains_key(o) implies {
                &&& o >= 0
                &&& o % (self.alignment as int) == 0
                &&& (live[o] as int) % (self.alignment as int) == 0
                &&& live[o] > 0
                &&& o + live[o] <= self.offset
            } by {
                if !(size > 0 && o == off as int) {
                    assert(live0.contains_key(o));
                }
            }
        }
        Some(off)
    }

    /// Returns a block to the free list, at its place in offset order. A
    /// block of size 0 holds nothing and is not recorded.
    pub fn deallocate(&mut self, offset: usize, size: usize)
        requires
            old(self).wf(),
            size > 0 ==> old(self).live().contains_key(offset as int),
            size > 0 ==> old(self).live()[offset as int] == footprint(size as nat, old(self).alignment_spec()),
        ensures
            final(self).wf(),
            old(self).deallocate_post(offset, size as nat, *final(self)),
    {
        if size == 0 {
            return;
        }
        let ghost a = self.alignment as int;
        let ghost s0 = *self;
        let ghost fl0 = self.free_list@;
        let ghost live0 = self.live@;
        proof {
            assert(live0.contains_key(offset as int));
            lemma_align_up_ge(size as nat, a as nat);
            lemma_mod_diff(self.offset as int, offset as int, a);
        }
        let fp = self.round_up(size, self.offset - offset);
        let mut p: usize = 0;
        while p < self.free_list.len() && self.free_list[p].0 < offset
            invariant
                self.wf(),
                self.free_list@ == fl0,
                p <= self.free_list.len(),
                forall|j: int| 0 <= j < p ==> self.free_list@[j].0 < offset,
            decreases self.free_list.len() - p,
        {
            p += 1;
        }
        proof {
            if p < fl0.len() {
                assert(fl0[p as int].0 != offset) by {
                    assert(disjoint(fl0[p as int].0 as int, fl0[p as int].1 as int, offset as int, live0[offset as int] as int));
                }
            }
            lemma_blocks_total_insert(fl0, p as int, (offset, fp));
            lemma_map_sum_insert(live0, offset as int, 0);
        }
        self.free_list.insert(p, (offset, fp));
        self.free_bytes = self.free_bytes + fp;
        self.live = Ghost(self.live@.remove(offset as int));
        proof {
            let fl = self.free_list@;
            let live = self.live@;
            let pi = p as int;
            assert(fl == fl0.insert(pi, (offset, fp)));
            assert(s0.free_blocks().insert(pi, (offset, footprint(size as nat, s0.alignment_spec()) as usize))
                == self.free_blocks());
            assert forall|i: int, j: int| 0 <= i < j < fl.len() implies #[trigger] fl[i].0 + fl[i].1 <= #[trigger] fl[j].0 by {
                if j < pi {
                    assert(fl[i] == fl0[i] && fl[j] == fl0[j]);
                } else if j == pi {
                    assert(fl[i] == fl0[i]);
                    assert(fl0[i].0 < offset);
                    assert(disjoint(fl0[i].0 as int, fl0[i].1 as int, offset as int, live0[offset as int] as int));
                } else if i == pi {
                    assert(fl[j] == fl0[j - 1]);
                    assert(fl0[pi].0 > offset);
                    if j - 1 > pi {
                        assert(fl0[pi].0 + fl0[pi].1 <= fl0[j - 1].0);
                    }
                    assert(disjoint(fl0[j - 1].0 as int, fl0[j - 1].1 as int, offset as int, live0[offset as int] as int));
                } else if i < pi {
                    assert(fl[i] == fl0[i] && fl[j] == fl0[j - 1]);
                    assert(fl0[i].0 + fl0[i].1 <= fl0[j - 1].0);
                } else {
                    assert(fl[i] == fl0[i - 1] && fl[j] == fl0[j - 1]);
                    assert(fl0[i - 1].0 + fl0[i - 1].1 <= fl0[j - 1].0);
                }
            }
            assert forall|i: int| 0 <= i < fl.len() implies {
                &&& #[trigger] fl[i].0 % self.alignment == 0
                &&& fl[i].1 % self.alignment == 0
                &&& fl[i].1 > 0
                &&& fl[i].0 + fl[i].1 <= self.offset
            } by {
                if i < pi {
                    assert(fl[i] == fl0[i]);
                } else if i > pi {
                    assert(fl[i] == fl0[i - 1]);
                }
            }
            assert forall|i: int, o: int| 0 <= i < fl.len() && #[trigger] live.contains_key(o) implies disjoint(
                #[trigger] fl[i].0 as int,
                fl[i].1 as int,
                o,
                live[o] as int,
            ) by {
                assert(live0.contains_key(o));
                if i < pi {
                    assert(fl[i] == fl0[i]);
                } else if i > pi {
                    assert(fl[i] == fl0[i - 1]);
                }
            }
            assert forall|o1: int, o2: int|
                #[trigger] live.contains_key(o1) && #[trigger] live.contains_key(o2) && o1 != o2 implies disjoint(
                o1,
                live[o1] as int,
                o2,
                live[o2] as int,
            ) by {
                assert(live0.contains_key(o1) && live0.contains_key(o2));
            }
            assert forall|o: int| #[trigger] live.contains_key(o) implies {
                &&& o >= 0
                &&& o % (self.alignment as int) == 0
                &&& (live[o] as int) % (self.alignment as int) == 0
                &&& live[o] > 0
                &&& o + live[o] <= self.offset
            } by {
                assert(live0.contains_key(o));
            }
        }
    }

    /// Bytes held by live blocks.
    pub fn used(&self) -> (r: usize)
        requires
            self.wf(),
        ensures
            r == self.used_spec(),
    {
        self.offset - self.free_bytes
    }

    /// Bytes that are not held by a live block.
    pub fn available(&self) -> (r: usize)
        requires
            self.wf(),
        ensures
            r == self.capacity_spec() - self.used_spec(),
    {
        self.capacity - (self.offset - self.free_bytes)
    }
}

pub proof fn lemma_align_up_ge(n: nat, a: nat)
    requires
        a > 0,
    ensures
        n <= align_up(n, a),
{
    vstd::arithmetic::div_mod::lemma_mod_bound(n as int, a as int);
}

proof fn lemma_mod_sum(x: int, y: int, a: int)
    requires
        a > 0,
        x % a == 0,
        y % a == 0,
    ensures
        (x + y) % a == 0,
{
    lemma_fundamental_div_mod(x, a);
    lemma_fundamental_div_mod(y, a);
    lemma_mod_multiples_basic(x / a + y / a, a);
    assert((x / a + y / a) * a == x + y) by (nonlinear_arith)
        requires
            x == a * (x / a),
            y == a * (y / a),
    ;
}

proof fn lemma_mod_diff(x: int, y: int, a: int)
    requires
        a > 0,
        x % a == 0,
        y % a == 0,
    ensures
        (x - y) % a == 0,
{
    lemma_fundamental_div_mod(x, a);
    lemma_fundamental_div_mod(y, a);
    lemma_mod_multiples_basic(x / a - y / a, a);
    assert((x / a - y / a) * a == x - y) by (nonlinear_arith)
        requires
            x == a * (x / a),
            y == a * (y / a),
    ;
}

/// Relies on `Vec::as_ptr`: the address of the buffer's first byte, as an
/// integer. The allocator decides it, so nothing is stated of it.
#[verifier::external_body]
fn buffer_address(buffer: &Vec<u8>) -> u64 {
    buffer.as_ptr() as u64
}

/// One contiguous buffer registered for remote access, with its local
/// handle, its remote descriptor and the allocator of its bytes.
pub struct MemoryPool {
    buffer: Vec<u8>,
    handle: MemoryRegionHandle,
    descriptor: MemoryRegionDescriptor,
    allocator: BumpAllocator,
}

impl MemoryPool {
    /// The buffer's bytes.
    pub closed spec fn bytes(&self) -> Seq<u8> {
        self.buffer@
    }

    /// The allocator's state.
    pub closed spec fn allocator_spec(&self) -> BumpAllocator {
        self.allocator
    }

    pub open spec fn live(&self) -> Map<int, nat> {
        self.allocator_spec().live()
    }

    pub open spec fn alignment(&self) -> nat {
        self.allocator_spec().alignment_spec()
    }

    pub open spec fn used_spec(&self) -> nat {
        self.allocator_spec().used_spec()
    }

    pub closed spec fn descriptor_spec(&self) -> DescriptorView {
        self.descriptor@
    }

    pub closed spec fn handle_spec(&self) -> MemoryRegionHandle {
        self.handle
    }

    pub closed spec fn wf(&self) -> bool {
        &&& self.allocator.wf()
        &&& self.allocator.capacity_spec() <= self.buffer@.len()
        &&& self.allocator.capacity_spec() == self.buffer@.len() as int / self.allocator.alignment_spec() as int
            * self.allocator.alignment_spec() as int
        &&& self.handle.len == self.buffer@.len()
        &&& self.descriptor@.ptr == self.handle.ptr
    }

    /// A zeroed pool of `config.size` bytes, registered with one remote key
    /// per domain address (the i-th address gets key i).
    pub fn new(config: MemoryPoolConfig, node_id: u32, domain_addresses: Vec<DomainAddress>) -> (r: Result<
        Self,
        KvError,
    >)
        requires
            config.alignment > 0,
        ensures
            r is Ok,
            r matches Ok(p) && {
                &&& p.wf()
                &&& p.bytes() == Seq::new(config.size as nat, |k: int| 0u8)
                &&& p.alignment() == config.alignment
                &&& p.allocator_spec().capacity_spec() == config.size as int / config.alignment as int
                    * config.alignment as int
                &&& p.allocator_spec().high_water() == 0
                &&& p.allocator_spec().free_blocks().len() == 0
                &&& p.live() == Map::<int, nat>::empty()
                &&& p.used_spec() == 0
                &&& p.descriptor_spec().addr_rkey_list == registered_list(domain_addresses@)
                &&& p.handle_spec().len == config.size
                &&& p.descriptor_spec().ptr == p.handle_spec().ptr
            },
    {
        let buffer = vec![0u8; config.size];
        let ptr = buffer_address(&buffer);
        let handle = MemoryRegionHandle::new(ptr, config.size);
        let mut list: Vec<(DomainAddress, MemoryRegionRemoteKey)> = Vec::new();
        let mut i: usize = 0;
        while i < domain_addresses.len()
            invariant
                i <= domain_addresses.len(),
                list@.len() == i,
                forall|k: int|
                    0 <= k < i ==> #[trigger] addr_rkey_view(list@[k]) == (domain_addresses@[k]@, k as u64),
            decreases domain_addresses.len() - i,
        {
            let addr = domain_addresses[i].clone();
            list.push((addr, MemoryRegionRemoteKey(i as u64)));
            i += 1;
        }
        let ghost mapped = list@.map_values(|p: (DomainAddress, MemoryRegionRemoteKey)| addr_rkey_view(p));
        assert(mapped =~= registered_list(domain_addresses@));
        let descriptor = MemoryRegionDescriptor::new(ptr, list);
        let allocator = BumpAllocator::new(config.size, config.alignment);
        proof {
            lemma_map_sum_empty::<int>();
            assert(buffer@ =~= Seq::new(config.size as nat, |k: int| 0u8));
            vstd::arithmetic::div_mod::lemma_fundamental_div_mod(config.size as int, config.alignment as int);
            vstd::arithmetic::div_mod::lemma_mod_bound(config.size as int, config.alignment as int);
            assert(config.size as int / config.alignment as int * config.alignment as int <= config.size) by (
            nonlinear_arith)
                requires
                    config.size == config.alignment * (config.size as int / config.alignment as int) + config.size
                        % config.alignment,
                    config.size % config.alignment >= 0,
            ;
        }
        let pool = MemoryPool { buffer, handle, descriptor, allocator };
        Ok(pool)
    }

    /// Reserves `size` bytes at an aligned offset, first fit; fails with
    /// `PoolExhausted` when no free block and no space above the high-water
    /// mark holds them.
    pub fn allocate(&mut self, size: usize) -> (r: Result<PoolAllocation, KvError>)
        requires
            old(self).wf(),
        ensures
            final(self).wf(),
            final(self).bytes() == old(self).bytes(),
            final(self).alignment() == old(self).alignment(),
            final(self).descriptor_spec() == old(self).descriptor_spec(),
            final(self).handle_spec() == old(self).handle_spec(),
            r is Ok <==> old(self).allocator_spec().can_fit(size as nat),
            old(self).allocator_spec().allocate_post(
                size as nat,
                match r {
                    Ok(a) => Some(a.offset),
                    Err(_) => None,
                },
                final(self).allocator_spec(),
            ),
            match r {
                Ok(a) => {
                    &&& a.size == size
                    &&& a.offset as int % old(self).alignment() as int == 0
                    &&& a.offset + size <= old(self).bytes().len()
                    &&& size > 0 ==> !old(self).live().contains_key(a.offset as int)
                    &&& size > 0 ==> final(self).live() == old(self).live().insert(
                        a.offset as int,
                        footprint(size as nat, old(self).alignment()),
                    )
                    &&& size > 0 ==> forall|o: int|
                        #[trigger] old(self).live().contains_key(o) ==> disjoint(
                            a.offset as int,
                            footprint(size as nat, old(self).alignment()) as int,
                            o,
                            old(self).live()[o] as int,
                        )
                    &&& size == 0 ==> final(self).live() == old(self).live()
                },
                Err(e) => e == KvError::PoolExhausted && *final(self) == *old(self),
            },
    {
        match self.allocator.allocate(size) {
            Some(offset) => Ok(PoolAllocation { offset, size }),
            None => Err(KvError::PoolExhausted),
        }
    }

    /// Hands a live allocation back to the allocator.
    pub fn deallocate(&mut self, allocation: &PoolAllocation)
        requires
            old(self).wf(),
            allocation.size > 0 ==> old(self).live().contains_key(allocation.offset as int),
            allocation.size > 0 ==> old(self).live()[allocation.offset as int] == footprint(
                allocation.size as nat,
                old(self).alignment(),
            ),
        ensures
            final(self).wf(),
            final(self).bytes() == old(self).bytes(),
            final(self).alignment() == old(self).alignment(),
            final(self).descriptor_spec() == old(self).descriptor_spec(),
            final(self).handle_spec() == old(self).handle_spec(),
            allocation.size > 0 ==> final(self).live() == old(self).live().remove(allocation.offset as int),
            allocation.size == 0 ==> final(self).live() == old(self).live(),
            old(self).allocator_spec().deallocate_post(
                allocation.offset,
                allocation.size as nat,
                final(self).allocator_spec(),
            ),
    {
        self.allocator.deallocate(allocation.offset, allocation.size);
    }

    /// Copies `data` into the buffer at `offset`; fails with `Internal`, and
    /// changes nothing, when the range passes the end of the buffer.
    pub fn write(&mut self, offset: usize, data: &[u8]) -> (r: Result<(), KvError>)
        requires
            old(self).wf(),
        ensures
            final(self).wf(),
            final(self).allocator_spec() == old(self).allocator_spec(),
            final(self).descriptor_spec() == old(self).descriptor_spec(),
            final(self).handle_spec() == old(self).handle_spec(),
            r is Ok <==> offset + data@.len() <= old(self).bytes().len(),
            r is Ok ==> final(self).bytes() == overwrite(old(self).bytes(), offset as int, data@),
            r is Err ==> r == Err::<(), KvError>(KvError::Internal) && final(self).bytes() == old(self).bytes(),
    {
        if offset > self.buffer.len() || data.len() > self.buffer.len() - offset {
            return Err(KvError::Internal);
        }
        let ghost b0 = self.buffer@;
        let mut k: usize = 0;
        while k < data.len()
            invariant
                self.wf(),
                self.allocator == old(self).allocator,
                self.descriptor@ == old(self).descriptor@,
                self.handle == old(self).handle,
                offset + data@.len() <= self.buffer@.len(),
                b0 == old(self).buffer@,
                k <= data@.len(),
                self.buffer@.len() == b0.len(),
                forall|j: int|
                    0 <= j < b0.len() ==> #[trigger] self.buffer@[j] == if offset <= j < offset + k {
                        data@[j - offset]
                    } else {
                        b0[j]
                    },
            decreases data@.len() - k,
        {
            self.buffer.set(offset + k, data[k]);
            k += 1;
        }
        assert(self.buffer@ =~= overwrite(b0, offset as int, data@));
        Ok(())
    }

    /// The `len` bytes at `offset`; fails with `Internal` when the range
    /// passes the end of the buffer.
    pub fn read(&self, offset: usize, len: usize) -> (r: Result<&[u8], KvError>)
        requires
            self.wf(),
        ensures
            r is Ok <==> offset + len <= self.bytes().len(),
            r matches Ok(s) ==> s@ == self.bytes().subrange(offset as int, offset + len),
            r matches Err(e) ==> e == KvError::Internal,
    {
        if offset > self.buffer.len() || len > self.buffer.len() - offset {
            return Err(KvError::Internal);
        }
        Ok(vstd::slice::slice_subrange(self.buffer.as_slice(), offset, offset + len))
    }

    /// The buffer's length fits a `usize`, and live blocks lie inside it.
    pub proof fn lemma_bounds(&self)
        requires
            self.wf(),
        ensures
            self.bytes().len() <= usize::MAX,
            self.alignment() > 0,
            self.allocator_spec().wf(),
            self.allocator_spec().capacity_spec() <= self.bytes().len(),
            self.allocator_spec().capacity_spec() == self.bytes().len() as int / self.alignment() as int
                * self.alignment() as int,
            self.descriptor_spec().ptr == self.handle_spec().ptr,
            self.handle_spec().len == self.bytes().len(),
            self.live().dom().finite(),
            forall|o: int| #[trigger]
                self.live().contains_key(o) ==> o >= 0 && o + self.live()[o] <= self.bytes().len(),
    {
        self.allocator.lemma_wf();
    }

    /// The local handle of the registered buffer.
    pub fn handle(&self) -> (r: MemoryRegionHandle)
        ensures
            r == self.handle_spec(),
    {
        self.handle
    }

    /// The descriptor that peers use to write into the buffer.
    pub fn descriptor(&self) -> (r: &MemoryRegionDescriptor)
        ensures
            r@ == self.descriptor_spec(),
    {
        &self.descriptor
    }

    /// Buffer size, bytes held by live allocations, and what remains.
    pub fn stats(&self) -> (r: PoolStats)
        requires
            self.wf(),
        ensures
            r.total == self.bytes().len(),
            r.used == self.used_spec(),
            r.available == self.allocator_spec().capacity_spec() - self.used_spec(),
            r.used + r.available == r.total as int / self.alignment() as int * self.alignment() as int,
    {
        PoolStats { total: self.buffer.len(), used: self.allocator.used(), available: self.allocator.available() }
    }

    /// The whole buffer.
    pub fn buffer(&self) -> (r: &[u8])
        ensures
            r@ == self.bytes(),
    {
        self.buffer.as_slice()
    }
}

} // verus!
