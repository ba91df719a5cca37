//! A pool of fixed-size blocks whose availability a bitmap tracks (a set
//! bit marks a free block).
use vstd::prelude::*;
use crate::bitmap::{Bitmap, in_window};
use crate::memory::address::VirtAddr;
use crate::vmem::PageSize;
use crate::vmem::pages::calc_pages_reqd;
use crate::common::bitindex::{calc_bitindex_size_in_pages, calc_bitindex_size_in_usize, bitindex_words};

verus! {

/// A pool of `capacity` blocks of `block_size` bytes from `start` on.
pub struct MemoryPool {
    name: &'static str,
    page_size: PageSize,
    block_size: usize,
    capacity: usize,
    start: VirtAddr,
    bitmap: Bitmap,
    bitmap_vaddr: VirtAddr,
}

impl MemoryPool {
    /// The availability map.
    pub closed spec fn map(&self) -> Bitmap {
        self.bitmap
    }

    /// The first block's address.
    pub closed spec fn start_addr(&self) -> usize {
        self.start.0
    }

    /// The block size.
    pub closed spec fn block(&self) -> usize {
        self.block_size
    }

    /// The number of blocks.
    pub closed spec fn cap(&self) -> usize {
        self.capacity
    }

    /// The pool's name.
    pub closed spec fn label(&self) -> &'static str {
        self.name
    }

    /// Where the availability map lives.
    pub closed spec fn map_addr(&self) -> VirtAddr {
        self.bitmap_vaddr
    }

    /// The map is well formed and every block it can name has an address
    /// that a machine word can hold.
    pub closed spec fn wf(&self) -> bool {
        &&& self.bitmap.wf()
        &&& self.start.0 + self.bitmap.n_bits() * self.block_size <= usize::MAX
    }

    /// The address of block `i`.
    pub open spec fn block_addr(&self, i: int) -> int {
        self.start_addr() + i * self.block()
    }

    /// What one allocation of `size` bytes does: nothing when `size` is
    /// larger than a block or no block is free; otherwise the lowest free
    /// block is marked used and its address returned.
    pub open spec fn alloc_post(o: &MemoryPool, n: &MemoryPool, size: usize, r: Option<VirtAddr>) -> bool {
        &&& n.wf()
        &&& n.start_addr() == o.start_addr()
        &&& n.block() == o.block()
        &&& n.cap() == o.cap()
        &&& n.label() == o.label()
        &&& n.map_addr() == o.map_addr()
        &&& n.map().n_words() == o.map().n_words()
        &&& n.map().cap() == o.map().cap()
        &&& if size > o.block() {
            r.is_none() && n.map() == o.map()
        } else {
            match r {
                None => n.map() == o.map() && forall|q: int| 0 <= q < o.map().n_bits() ==> !#[trigger] o.map().bit(q),
                Some(a) => exists|i: int| {
                    &&& 0 <= i < o.map().n_bits()
                    &&& #[trigger] o.map().bit(i)
                    &&& (forall|q: int| 0 <= q < i ==> !#[trigger] o.map().bit(q))
                    &&& a.0 == o.block_addr(i)
                    &&& (forall|q: int| 0 <= q < n.map().n_bits() ==> #[trigger] n.map().bit(q) == (q != i && o.map().bit(q)))
                    &&& n.map().free() == o.map().free() + 1
                },
            }
        }
    }

    /// Bitmap pages needed for `capacity` blocks.
    pub fn calc_bitmap_size_in_pages(capacity: usize) -> (r: usize)
        requires
            capacity + usize::BITS - 1 <= usize::MAX,
            bitindex_words(capacity as nat) * (usize::BITS / 8) + 4096 - 1 <= usize::MAX,
        ensures
            r == (bitindex_words(capacity as nat) * (usize::BITS / 8) + 4096 - 1) as nat / 4096,
    {
        calc_bitindex_size_in_pages(capacity, PageSize::Small)
    }

    /// Bitmap words needed for `capacity` blocks.
    pub fn calc_bitmap_size_in_usize(capacity: usize) -> (r: usize)
        requires
            capacity + usize::BITS - 1 <= usize::MAX,
        ensures
            r == bitindex_words(capacity as nat),
    {
        calc_bitindex_size_in_usize(capacity)
    }

    /// Bytes of `capacity` blocks of `block_size` bytes.
    pub fn calc_size_in_bytes(capacity: usize, block_size: usize) -> (r: usize)
        requires
            block_size * capacity <= usize::MAX,
        ensures
            r == block_size * capacity,
    {
        block_size * capacity
    }

    /// Pages of `page_size` holding `capacity` blocks of `block_size` bytes.
    pub fn calc_size_in_pages(capacity: usize, block_size: usize, page_size: PageSize) -> (r: usize)
        requires
            capacity * block_size + page_size.size() - 1 <= usize::MAX,
        ensures
            r == (capacity * block_size + page_size.size() - 1) / page_size.size() as int,
    {
        assert(capacity * block_size <= usize::MAX) by (nonlinear_arith)
            requires capacity * block_size + page_size.size() - 1 <= usize::MAX, page_size.size() >= 1;
        calc_pages_reqd(capacity * block_size, page_size)
    }

    /// A pool description; its map is empty until `init`.
    pub fn new(
        name: &'static str,
        page_size: PageSize,
        block_size: usize,
        capacity: usize,
        start: VirtAddr,
        bitmap_start: VirtAddr,
    ) -> (r: MemoryPool)
        ensures
            r.wf(),
            r.label() == name,
            r.block() == block_size,
            r.cap() == capacity,
            r.start_addr() == start.0,
            r.map_addr() == bitmap_start,
            r.map().n_words() == 0,
    {
        let bitmap = Bitmap::new();
        assert(bitmap.n_bits() * block_size == 0) by (nonlinear_arith)
            requires bitmap.n_bits() == 0;
        MemoryPool {
            name,
            page_size,
            block_size,
            capacity,
            start,
            bitmap,
            bitmap_vaddr: bitmap_start,
        }
    }

    /// Finishes setting the pool up once its blocks are mapped: given the
    /// address the mapping gave (none when it failed), sizes the map for the
    /// capacity at the map address and marks every block free; returns the
    /// mapping's address.
    pub fn init(&mut self, mapped: Option<VirtAddr>) -> (r: Option<VirtAddr>)
        requires
            old(self).wf(),
            old(self).cap() + 63 <= usize::MAX,
            ((old(self).cap() + 63) / 64) * 64 <= usize::MAX,
            old(self).start_addr() + ((old(self).cap() + 63) / 64) * 64 * old(self).block() <= usize::MAX,
        ensures
            r == mapped,
            final(self).wf(),
            final(self).start_addr() == old(self).start_addr(),
            final(self).block() == old(self).block(),
            final(self).cap() == old(self).cap(),
            final(self).label() == old(self).label(),
            final(self).map_addr() == old(self).map_addr(),
            mapped.is_none() ==> final(self).map() == old(self).map(),
            mapped.is_some() ==> {
                &&& final(self).map().n_words() == (old(self).cap() + 63) / 64
                &&& final(self).map().cap() == old(self).cap()
                &&& final(self).map().free() == 0
                &&& forall|q: int| 0 <= q < final(self).map().n_bits() ==> #[trigger] final(self).map().bit(q)
            },
    {
        match mapped {
            Some(_) => {
                self.bitmap.init(self.capacity, self.bitmap_vaddr, self.bitmap_vaddr, true);
                self.bitmap.set_all();
                mapped
            },
            None => None,
        }
    }

    /// The pool's name.
    pub fn name(&self) -> (r: &'static str)
        ensures
            r == self.label(),
    {
        self.name
    }

    /// Whether `internal_dealloc(ptr, ..)` may be called: blocks have a
    /// size, `ptr` lies at or above the first block and names a block the
    /// map holds, and the map counts a block handed out.
    pub fn can_dealloc(&self, ptr: usize) -> (r: bool)
        requires
            self.wf(),
        ensures
            r == (self.block() > 0 && self.start_addr() <= ptr
                && (ptr - self.start_addr()) / (self.block() as int) < self.map().n_bits() && self.map().free() >= 1),
    {
        if self.block_size == 0 || ptr < self.start.0 {
            return false;
        }
        let n = self.bitmap.size_in_uintn();
        proof { self.bitmap.lemma_bits_fit(); }
        (ptr - self.start.0) / self.block_size < n * 64 && self.bitmap.bit_clear_count() >= 1
    }

    /// The block size.
    pub fn block_size(&self) -> (r: usize)
        ensures
            r == self.block(),
    {
        self.block_size
    }

    /// Hands out the lowest free block for a request of `size` bytes.
    pub fn internal_alloc(&mut self, size: usize) -> (r: Option<VirtAddr>)
        requires
            old(self).wf(),
            old(self).map().free() < usize::MAX,
        ensures
            MemoryPool::alloc_post(old(self), final(self), size, r),
    {
        if size > self.block_size {
            return None;
        }
        let free_idx = self.bitmap.find_first_set();
        match free_idx {
            Some(i) => {
                proof {
                    assert(in_window(i as int, 0, self.bitmap.n_words() as int, 0, 64));
                    assert forall|q: int| 0 <= q < i implies !#[trigger] self.bitmap.bit(q) by {
                        assert(in_window(q, 0, self.bitmap.n_words() as int, 0, 64));
                    }
                    assert(i * self.block_size <= self.bitmap.n_bits() * self.block_size) by (nonlinear_arith)
                        requires i < self.bitmap.n_bits();
                }
                let free_addr = self.start.0 + i * self.block_size;
                self.bitmap.clear(i);
                Some(VirtAddr(free_addr))
            },
            None => {
                proof {
                    assert forall|q: int| 0 <= q < self.bitmap.n_bits() implies !#[trigger] self.bitmap.bit(q) by {
                        assert(in_window(q, 0, self.bitmap.n_words() as int, 0, 64));
                    }
                }
                None
            },
        }
    }

    /// Takes back the block at address `ptr`: its index, the offset from
    /// the start divided by the block size, is marked free again. The block's
    /// bytes are not part of this model.
    pub fn internal_dealloc(&mut self, ptr: usize, size: usize) -> (r: bool)
        requires
            old(self).wf(),
            old(self).block() > 0,
            old(self).start_addr() <= ptr,
            (ptr - old(self).start_addr()) / (old(self).block() as int) < old(self).map().n_bits(),
            old(self).map().free() >= 1,
        ensures
            r,
            final(self).wf(),
            final(self).start_addr() == old(self).start_addr(),
            final(self).block() == old(self).block(),
            final(self).cap() == old(self).cap(),
            final(self).label() == old(self).label(),
            final(self).map_addr() == old(self).map_addr(),
            final(self).map().n_words() == old(self).map().n_words(),
            final(self).map().cap() == old(self).map().cap(),
            final(self).map().free() == old(self).map().free() - 1,
            forall|q: int| 0 <= q < final(self).map().n_bits() ==> #[trigger] final(self).map().bit(q)
                == (q == (ptr - old(self).start_addr()) / (old(self).block() as int) || old(self).map().bit(q)),
    {
        let dealloc_idx = (ptr - self.start.0) / self.block_size;
        self.bitmap.set(dealloc_idx);
        true
    }

    /// As `internal_alloc`; the block's bytes, which the caller zeroes, are
    /// not part of this model.
    pub fn internal_alloc_zeroed(&mut self, size: usize) -> (r: Option<VirtAddr>)
        requires
            old(self).wf(),
            old(self).map().free() < usize::MAX,
        ensures
            MemoryPool::alloc_post(old(self), final(self), size, r),
    {
        self.internal_alloc(size)
    }

    /// Pools do not move blocks: the block stays where it is.
    pub fn internal_realloc(&self, ptr: usize, old_size: usize, new_size: usize) -> (r: Option<VirtAddr>)
        ensures
            r == Some(VirtAddr(ptr)),
    {
        Some(VirtAddr(ptr))
    }

    /// The number of blocks.
    pub fn capacity(&self) -> (r: usize)
        ensures
            r == self.cap(),
    {
        self.capacity
    }

    /// The map's free-unit counter, which counts the blocks handed out.
    pub fn used(&self) -> (r: usize)
        ensures
            r == self.map().free(),
    {
        self.bitmap.bit_clear_count()
    }

    /// The map's capacity less its free-unit counter.
    pub fn free(&self) -> (r: usize)
        requires
            self.map().free() <= self.map().cap(),
        ensures
            r == self.map().cap() - self.map().free(),
    {
        self.bitmap.bit_set_count()
    }
}

/// Two allocations in a row never hand out the same block.
pub proof fn lemma_alloc_twice_distinct(
    p0: &MemoryPool,
    p1: &MemoryPool,
    p2: &MemoryPool,
    size1: usize,
    size2: usize,
    a1: VirtAddr,
    a2: VirtAddr,
)
    requires
        p0.wf(),
        p0.block() > 0,
        MemoryPool::alloc_post(p0, p1, size1, Some(a1)),
        MemoryPool::alloc_post(p1, p2, size2, Some(a2)),
    ensures
        a1 != a2,
{
    let i = choose|i: int| {
        &&& 0 <= i < p0.map().n_bits()
        &&& #[trigger] p0.map().bit(i)
        &&& (forall|q: int| 0 <= q < i ==> !#[trigger] p0.map().bit(q))
        &&& a1.0 == p0.block_addr(i)
        &&& (forall|q: int| 0 <= q < p1.map().n_bits() ==> #[trigger] p1.map().bit(q) == (q != i && p0.map().bit(q)))
        &&& p1.map().free() == p0.map().free() + 1
    };
    let j = choose|j: int| {
        &&& 0 <= j < p1.map().n_bits()
        &&& #[trigger] p1.map().bit(j)
        &&& (forall|q: int| 0 <= q < j ==> !#[trigger] p1.map().bit(q))
        &&& a2.0 == p1.block_addr(j)
        &&& (forall|q: int| 0 <= q < p2.map().n_bits() ==> #[trigger] p2.map().bit(q) == (q != j && p1.map().bit(q)))
        &&& p2.map().free() == p1.map().free() + 1
    };
    assert(p1.map().bit(j));
    assert(j != i);
    if a1 == a2 {
        assert(i * p0.block() == j * p0.block());
        assert(i == j) by (nonlinear_arith)
            requires i * p0.block() == j * p0.block(), p0.block() > 0;
    }
}

} // verus!
