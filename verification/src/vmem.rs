//! Page sizes, page arithmetic and address-space bookkeeping for x86-64.
use vstd::prelude::*;
use crate::common::{is_pow2, lemma_pow2_mask, lemma_sizes_are_pow2, nebulae_test_pattern, nebulae_test_pattern_spec, USIZE_4K, USIZE_2M, USIZE_1G, MEMORY_DEFAULT_PAGE_USIZE, MEMORY_DEFAULT_SHIFT};
use crate::memory::address::{PhysAddr, MemAddr};
use crate::permissions::Owner;
use crate::genesis::{entry_fits, MemMapEntry, MEMORY_TYPE_CONVENTIONAL};

pub mod pages;
pub mod walk;
pub mod pagealloc;

verus! {

pub const PAGING_PRESENT: usize = 0x1;
pub const PAGING_WRITEABLE: usize = 0x2;
pub const PAGING_USERMODE: usize = 0x4;
pub const PAGING_WRITETHROUGH: usize = 0x8;
pub const PAGING_CACHE_DISABLE: usize = 0x10;
pub const PAGING_ACCESSED: usize = 0x20;
pub const PAGING_DIRTY: usize = 0x40;
pub const PAGING_IS_PAGE_FRAME: usize = 0x80;
pub const PAGING_IS_PAGE_FRAME_BIT: usize = 7;
pub const PAGING_GLOBAL: usize = 0x100;
pub const PAGING_PCID_CR3_MASK: usize = 0x0FFF;

/// The page sizes of x86-64: 4 KiB, 2 MiB and 1 GiB.
#[derive(Debug, Copy, Clone, PartialEq, Eq, Structural)]
pub enum PageSize {
    Small,
    Medium,
    Huge,
}

impl PageSize {
    /// The size in bytes.
    pub open spec fn size(self) -> usize {
        match self {
            PageSize::Small => USIZE_4K,
            PageSize::Medium => USIZE_2M,
            PageSize::Huge => USIZE_1G,
        }
    }

    /// The size in bytes.
    pub fn into_bits(self) -> (r: usize)
        ensures
            r == self.size(),
    {
        match self {
            PageSize::Small => USIZE_4K,
            PageSize::Medium => USIZE_2M,
            PageSize::Huge => USIZE_1G,
        }
    }

    /// The page size with `value` bytes; any other value gives the small size.
    pub fn from_bits(value: usize) -> (r: PageSize)
        ensures
            value == USIZE_4K ==> r == PageSize::Small,
            value == USIZE_2M ==> r == PageSize::Medium,
            value == USIZE_1G ==> r == PageSize::Huge,
            value != USIZE_4K && value != USIZE_2M && value != USIZE_1G ==> r == PageSize::Small,
    {
        if value == USIZE_4K {
            PageSize::Small
        } else if value == USIZE_2M {
            PageSize::Medium
        } else if value == USIZE_1G {
            PageSize::Huge
        } else {
            PageSize::Small
        }
    }

    /// The size in bytes.
    pub fn as_const_usize(&self) -> (r: usize)
        ensures
            r == self.size(),
    {
        self.into_bits()
    }
}

/// Every page size is a positive power of two.
pub proof fn lemma_page_size_pow2(p: PageSize)
    ensures
        is_pow2(p.size()),
        p.size() > 0,
        p.size() % USIZE_4K == 0,
{
    lemma_sizes_are_pow2();
    lemma_pow2_mask(p.size());
}

/// Decoding the size of a page size gives the page size back.
pub proof fn lemma_page_size_round_trip(p: PageSize)
    ensures
        PageSize::from_bits_spec(p.size()) == p,
{
}

impl PageSize {
    /// What `from_bits` returns.
    pub open spec fn from_bits_spec(value: usize) -> PageSize {
        if value == USIZE_4K {
            PageSize::Small
        } else if value == USIZE_2M {
            PageSize::Medium
        } else if value == USIZE_1G {
            PageSize::Huge
        } else {
            PageSize::Small
        }
    }
}

/// A virtual address space: its page-table root and the value it loads into
/// the page-table base register.
pub struct Vas {
    pub cr3: PhysAddr,
    pub base_page_table: Option<PhysAddr>,
    pub owner: Owner,
}

/// The default-size pages of the block of entry `e`, in order.
pub open spec fn entry_pages(e: MemMapEntry) -> Seq<PhysAddr> {
    Seq::new(e.page_count as usize as nat, |i: int| PhysAddr((e.phys_start as usize + i * 4096) as usize))
}

/// The pages of the entries of `entries` that are not conventional memory,
/// entry by entry and in order within each.
pub open spec fn reserved_pages_of(entries: Seq<MemMapEntry>) -> Seq<PhysAddr>
    decreases entries.len(),
{
    if entries.len() == 0 {
        Seq::empty()
    } else {
        reserved_pages_of(entries.drop_last()) + if entries.last().ty != MEMORY_TYPE_CONVENTIONAL {
            entry_pages(entries.last())
        } else {
            Seq::empty()
        }
    }
}

impl Vas {
    /// The pages to identity-map from a memory map: every page of every
    /// block that is not conventional memory, in map order. The caller maps
    /// each one, owned by the firmware.
    pub fn identity_map_based_on_memory_map(&self, entries: &[MemMapEntry]) -> (r: Vec<PhysAddr>)
        requires
            forall|k: int| 0 <= k < entries@.len() ==> #[trigger] entry_fits(entries@[k]),
        ensures
            r@ == reserved_pages_of(entries@),
    {
        let mut v: Vec<PhysAddr> = Vec::new();
        let mut i: usize = 0;
        while i < entries.len()
            invariant
                i <= entries@.len(),
                forall|k: int| 0 <= k < entries@.len() ==> #[trigger] entry_fits(entries@[k]),
                v@ == reserved_pages_of(entries@.take(i as int)),
            decreases entries@.len() - i,
        {
            let e = entries[i];
            proof {
                assert(entries@.take(i + 1).drop_last() =~= entries@.take(i as int));
                assert(entries@.take(i + 1).last() == e);
                assert(entry_fits(entries@[i as int]));
            }
            if e.ty != MEMORY_TYPE_CONVENTIONAL {
                let start = e.phys_start as usize;
                let n = e.page_count as usize;
                let ghost v0 = v@;
                let mut j: usize = 0;
                while j < n
                    invariant
                        j <= n,
                        n == e.page_count as usize,
                        start == e.phys_start as usize,
                        start + n * 4096 <= usize::MAX,
                        v@ == v0 + entry_pages(e).take(j as int),
                    decreases n - j,
                {
                    assert(start + j * 4096 + 4096 <= start + n * 4096) by (nonlinear_arith)
                        requires j < n;
                    let ghost before = v@;
                    v.push(PhysAddr(start + j * MEMORY_DEFAULT_PAGE_USIZE));
                    proof {
                        assert(entry_pages(e).take(j + 1) =~= entry_pages(e).take(j as int).push(PhysAddr((start + j * 4096) as usize)));
                        assert(v@ =~= v0 + entry_pages(e).take(j + 1));
                    }
                    j = j + 1;
                }
                proof {
                    assert(entry_pages(e).take(n as int) =~= entry_pages(e));
                }
            } else {
                proof { assert(v@ =~= v@ + Seq::<PhysAddr>::empty()); }
            }
            i = i + 1;
        }
        proof { assert(entries@.take(entries@.len() as int) =~= entries@); }
        v
    }

    /// An address space with no page table yet.
    pub fn new() -> (r: Vas)
        ensures
            r.cr3.0 == 0,
            r.base_page_table.is_none(),
            r.owner == Owner::Memory,
    {
        Vas { cr3: PhysAddr(0), base_page_table: None, owner: Owner::Memory }
    }

    /// Sets the register value to the page-table address with write-through
    /// caching requested, and returns it.
    pub fn init_cr3(&mut self) -> (r: PhysAddr)
        requires
            old(self).base_page_table.is_some(),
        ensures
            r.0 == old(self).base_page_table.unwrap().0 | PAGING_WRITETHROUGH,
            final(self).cr3 == r,
            final(self).base_page_table == old(self).base_page_table,
            final(self).owner == old(self).owner,
    {
        let mut p = self.base_page_table.unwrap();
        p.inner_or(PAGING_WRITETHROUGH);
        self.cr3 = p;
        p
    }

    /// Prepares a switch to this address space: sets up the register value
    /// and returns what the caller loads into the page-table base register.
    pub fn switch_to(&mut self) -> (r: usize)
        requires
            old(self).base_page_table.is_some(),
        ensures
            r == old(self).base_page_table.unwrap().0 | PAGING_WRITETHROUGH,
            r != 0,
            final(self).cr3.0 == r,
            final(self).base_page_table == old(self).base_page_table,
    {
        let p = self.init_cr3();
        let base = self.base_page_table.unwrap().0;
        let v = p.0;
        assert(v != 0) by (bit_vector)
            requires v == base | 8usize;
        v
    }
}

} // verus!
