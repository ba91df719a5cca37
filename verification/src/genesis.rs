//! Bringing memory management up from the firmware's memory map: sizing the
//! buffer the map is read into, finding the largest and smallest blocks of
//! conventional memory, placing the genesis block, sizing the frame
//! allocator's storage, and the default page records. Asking the firmware for
//! the map and for memory is left to the caller.
use vstd::prelude::*;
use crate::common::{align_down, is_pow2, lemma_sizes_are_pow2, MEMORY_DEFAULT_PAGE_USIZE};
use crate::common::bitindex::{bitindex_words, calc_bitindex_size_in_pages};
use crate::memory::address::PhysAddr;
use crate::permissions::Owner;
use crate::vmem::PageSize;
use crate::vmem::pages::{bytes_to_pages, calc_pages_reqd, PageInfo, PageStatus};

verus! {

/// The memory type of conventional, usable memory.
pub const MEMORY_TYPE_CONVENTIONAL: u32 = 7;

/// One entry of the firmware's memory map.
#[derive(Clone, Copy, Debug, PartialEq, Eq, Structural)]
pub struct MemMapEntry {
    pub ty: u32,
    pub phys_start: u64,
    pub page_count: u64,
    pub att: u64,
}

/// The pages of a buffer that holds a memory map of `map_size` bytes, with
/// one page more when fewer than `spare` more descriptors of `descr_size`
/// bytes would still fit.
pub fn memory_map_pages(map_size: usize, descr_size: usize, spare: usize) -> (r: usize)
    requires
        map_size + 4095 <= usize::MAX,
        spare * descr_size <= usize::MAX,
    ensures
        ({
            let pages = (map_size + 4095) / 4096;
            r == if pages * 4096 - map_size < spare * descr_size { pages + 1 } else { pages }
        }),
{
    let (pages, _) = bytes_to_pages(map_size, PageSize::Small);
    assert(pages * 4096 >= map_size && pages * 4096 <= map_size + 4095) by (nonlinear_arith)
        requires pages == (map_size + 4095) / 4096;
    if pages * 4096 - map_size < spare * descr_size {
        pages + 1
    } else {
        pages
    }
}

/// What a pass over the memory map found of conventional memory: the
/// largest and smallest blocks, the pages counted and the highest end of a
/// block counted, the top of physical memory.
#[derive(Clone, Copy, Debug, PartialEq, Eq, Structural)]
pub struct ConvScan {
    pub largest: PhysAddr,
    pub largest_size: usize,
    pub smallest: PhysAddr,
    pub smallest_size: usize,
    pub conv_pages: usize,
    pub max_phys: usize,
}

/// The block of entry `e` fits below the top of the address space.
pub open spec fn entry_fits(e: MemMapEntry) -> bool {
    (e.phys_start as usize) + (e.page_count as usize) * 4096 <= usize::MAX
}

/// The conventional pages of `entries`.
pub open spec fn conv_pages_of(entries: Seq<MemMapEntry>) -> int
    decreases entries.len(),
{
    if entries.len() == 0 {
        0
    } else {
        conv_pages_of(entries.drop_last()) + if entries.last().ty == MEMORY_TYPE_CONVENTIONAL { entries.last().page_count as usize as int } else { 0 }
    }
}

/// `s` after entry `e`: a conventional block larger than the largest so far
/// becomes the largest, one smaller than the smallest so far the smallest;
/// when `counting`, its pages are counted and its end, when higher than the
/// highest so far, becomes the highest end.
pub open spec fn scan_entry(s: ConvScan, e: MemMapEntry, counting: bool) -> ConvScan {
    if e.ty == MEMORY_TYPE_CONVENTIONAL {
        let start = e.phys_start as usize;
        let pb = ((e.page_count as usize) * 4096) as usize;
        let s1 = if counting {
            ConvScan { max_phys: if start + pb > s.max_phys { (start + pb) as usize } else { s.max_phys },
                conv_pages: (s.conv_pages + (e.page_count as usize)) as usize, ..s }
        } else {
            s
        };
        let s2 = if pb > s1.largest_size { ConvScan { largest: PhysAddr(start), largest_size: pb, ..s1 } } else { s1 };
        if pb < s2.smallest_size { ConvScan { smallest: PhysAddr(start), smallest_size: pb, ..s2 } } else { s2 }
    } else {
        s
    }
}

/// `s` after the entries of `entries`, in order.
pub open spec fn scan_all(s: ConvScan, entries: Seq<MemMapEntry>, counting: bool) -> ConvScan
    decreases entries.len(),
{
    if entries.len() == 0 {
        s
    } else {
        scan_entry(scan_all(s, entries.drop_last(), counting), entries.last(), counting)
    }
}

/// The genesis block's frame: the last page of the one conventional block
/// when the largest and smallest coincide; otherwise the last page of the
/// smallest when the largest starts on a page boundary, and the page the
/// largest starts in when it does not.
pub open spec fn genesis_spec(s: ConvScan) -> PhysAddr {
    if s.largest == s.smallest {
        let end = (s.largest.0 + s.largest_size - 1) as usize;
        PhysAddr((end - end % 4096) as usize)
    } else if s.largest.0 % 4096 == 0 {
        let end = (s.smallest.0 + s.smallest_size - 1) as usize;
        PhysAddr((end - end % 4096) as usize)
    } else {
        PhysAddr((s.largest.0 - s.largest.0 % 4096) as usize)
    }
}

impl ConvScan {
    /// Nothing scanned yet: the largest block is empty at 0, the smallest
    /// as large as can be at the top.
    pub fn new() -> (r: ConvScan)
        ensures
            r == (ConvScan { largest: PhysAddr(0), largest_size: 0, smallest: PhysAddr(usize::MAX), smallest_size: usize::MAX, conv_pages: 0, max_phys: 0 }),
    {
        ConvScan { largest: PhysAddr(0), largest_size: 0, smallest: PhysAddr(usize::MAX), smallest_size: usize::MAX, conv_pages: 0, max_phys: 0 }
    }

    /// Passes over `entries`; `counting` also counts the conventional pages
    /// and records the highest end of a conventional block.
    pub fn scan(&mut self, entries: &[MemMapEntry], counting: bool)
        requires
            forall|k: int| 0 <= k < entries@.len() && entries@[k].ty == MEMORY_TYPE_CONVENTIONAL ==> #[trigger] entry_fits(entries@[k]),
            counting ==> old(self).conv_pages + conv_pages_of(entries@) <= usize::MAX,
        ensures
            *final(self) == scan_all(*old(self), entries@, counting),
    {
        let mut i: usize = 0;
        while i < entries.len()
            invariant
                i <= entries@.len(),
                forall|k: int| 0 <= k < entries@.len() && entries@[k].ty == MEMORY_TYPE_CONVENTIONAL ==> #[trigger] entry_fits(entries@[k]),
                counting ==> old(self).conv_pages + conv_pages_of(entries@) <= usize::MAX,
                *self == scan_all(*old(self), entries@.take(i as int), counting),
                counting ==> self.conv_pages == old(self).conv_pages + conv_pages_of(entries@.take(i as int)),
            decreases entries@.len() - i,
        {
            let e = entries[i];
            proof {
                assert(entries@.take(i + 1).drop_last() =~= entries@.take(i as int));
                assert(entries@.take(i + 1).last() == e);
                lemma_conv_pages_prefix(entries@, i as int + 1);
            }
            if e.ty == MEMORY_TYPE_CONVENTIONAL {
                let start = e.phys_start as usize;
                let count = e.page_count as usize;
                proof { assert(entry_fits(entries@[i as int])); }
                let pb = count * MEMORY_DEFAULT_PAGE_USIZE;
                if counting {
                    if start + pb > self.max_phys {
                        self.max_phys = start + pb;
                    }
                    self.conv_pages = self.conv_pages + count;
                }
                if pb > self.largest_size {
                    self.largest = PhysAddr(start);
                    self.largest_size = pb;
                }
                if pb < self.smallest_size {
                    self.smallest = PhysAddr(start);
                    self.smallest_size = pb;
                }
            }
            i = i + 1;
        }
        proof { assert(entries@.take(entries@.len() as int) =~= entries@); }
    }

    /// Where the genesis block goes (see `genesis_spec`).
    pub fn genesis_block(&self) -> (r: PhysAddr)
        requires
            self.largest == self.smallest ==> 1 <= self.largest.0 + self.largest_size <= usize::MAX,
            self.largest != self.smallest && self.largest.0 % 4096 == 0 ==> 1 <= self.smallest.0 + self.smallest_size <= usize::MAX,
        ensures
            r == genesis_spec(*self),
    {
        proof { lemma_sizes_are_pow2(); }
        if self.largest.0 == self.smallest.0 {
            PhysAddr(align_down(self.largest.0 + self.largest_size - 1, MEMORY_DEFAULT_PAGE_USIZE))
        } else if self.largest.0 % MEMORY_DEFAULT_PAGE_USIZE == 0 {
            PhysAddr(align_down(self.smallest.0 + self.smallest_size - 1, MEMORY_DEFAULT_PAGE_USIZE))
        } else {
            PhysAddr(align_down(self.largest.0, MEMORY_DEFAULT_PAGE_USIZE))
        }
    }
}

/// The conventional pages of a prefix grow by the last entry's.
proof fn lemma_conv_pages_prefix(entries: Seq<MemMapEntry>, n: int)
    requires
        0 < n <= entries.len(),
    ensures
        conv_pages_of(entries.take(n)) == conv_pages_of(entries.take(n - 1))
            + if entries[n - 1].ty == MEMORY_TYPE_CONVENTIONAL { entries[n - 1].page_count as usize as int } else { 0 },
        conv_pages_of(entries.take(n)) <= conv_pages_of(entries),
    decreases entries.len(),
{
    assert(entries.take(n).drop_last() =~= entries.take(n - 1));
    lemma_conv_pages_monotone(entries, n);
}

/// The conventional pages of a prefix are at most those of the whole.
proof fn lemma_conv_pages_monotone(entries: Seq<MemMapEntry>, n: int)
    requires
        0 <= n <= entries.len(),
    ensures
        0 <= conv_pages_of(entries.take(n)) <= conv_pages_of(entries),
    decreases entries.len(),
{
    if n == entries.len() {
        assert(entries.take(n) =~= entries);
        lemma_conv_pages_nonneg(entries);
    } else {
        lemma_conv_pages_monotone(entries.drop_last(), n);
        assert(entries.drop_last().take(n) =~= entries.take(n));
    }
}

/// Page counts are never negative.
proof fn lemma_conv_pages_nonneg(entries: Seq<MemMapEntry>)
    ensures
        conv_pages_of(entries) >= 0,
    decreases entries.len(),
{
    if entries.len() > 0 {
        lemma_conv_pages_nonneg(entries.drop_last());
    }
}

/// The genesis block's entry function: it hands the value it is given
/// straight back, and any function of this signature may take its place.
pub fn nebulae(let_the_magic_in: usize) -> (r: usize)
    ensures
        r == let_the_magic_in,
{
    let kernel = let_the_magic_in;
    kernel
}

/// The storage the frame allocator needs for a physical range ending at
/// `max_phys`, in default-size pages: one page record per page, a bitmap of
/// one bit per page, and one region descriptor per page.
#[derive(Clone, Copy, Debug, PartialEq, Eq, Structural)]
pub struct AllocatorFootprint {
    pub total_pages: usize,
    pub page_info_pages: usize,
    pub bitmap_pages: usize,
    pub storage_pages: usize,
}

/// Sizes the frame allocator's storage for a physical range ending at
/// `max_phys`, with page records of `page_info_size` bytes and region
/// descriptors of `descr_size` bytes.
pub fn allocator_footprint(max_phys: usize, page_info_size: usize, descr_size: usize) -> (r: AllocatorFootprint)
    requires
        max_phys + 4095 <= usize::MAX,
        page_info_size * ((max_phys + 4095) / 4096) + 4095 <= usize::MAX,
        ((max_phys + 4095) / 4096) * descr_size + 4095 <= usize::MAX,
        (max_phys + 4095) / 4096 + usize::BITS - 1 <= usize::MAX,
        bitindex_words(((max_phys + 4095) / 4096) as nat) * (usize::BITS / 8) + 4095 <= usize::MAX,
    ensures
        r.total_pages == (max_phys + 4095) / 4096,
        r.page_info_pages == (page_info_size * r.total_pages + 4095) / 4096,
        r.bitmap_pages == (bitindex_words(r.total_pages as nat) * (usize::BITS / 8) + 4095) as nat / 4096,
        r.storage_pages == (r.total_pages * descr_size + 4095) / 4096,
{
    let total_pages = calc_pages_reqd(max_phys, PageSize::Small);
    assert(page_info_size * total_pages <= usize::MAX && total_pages * descr_size <= usize::MAX) by (nonlinear_arith)
        requires
            page_info_size * total_pages + 4095 <= usize::MAX,
            total_pages * descr_size + 4095 <= usize::MAX;
    let page_info_pages = calc_pages_reqd(page_info_size * total_pages, PageSize::Small);
    let bitmap_pages = calc_bitindex_size_in_pages(total_pages, PageSize::Small);
    let storage_pages = calc_pages_reqd(total_pages * descr_size, PageSize::Small);
    AllocatorFootprint { total_pages, page_info_pages, bitmap_pages, storage_pages }
}

/// The default record of page `i`: a free default-size page of conventional
/// memory at `i * 4096`, owned by nobody.
pub open spec fn default_record(i: int) -> PageInfo {
    PageInfo {
        phys_base: PhysAddr((i * 4096) as usize),
        size: 4096,
        uefi_flags: 0,
        status: PageStatus::Free,
        owner: Owner::Nobody,
        purpose: MEMORY_TYPE_CONVENTIONAL,
        flags: 0,
        page_size: PageSize::Small,
    }
}

/// The record of page `i` with status `status`: a default-size page of
/// conventional memory at `i * 4096`, owned by nobody.
pub open spec fn record_with_status(i: int, status: PageStatus) -> PageInfo {
    PageInfo { status, ..default_record(i) }
}

/// The records of `total_pages` pages, each with status `status` (see
/// `record_with_status`).
pub fn page_info_with_status(total_pages: usize, status: PageStatus) -> (r: Vec<PageInfo>)
    requires
        total_pages * 4096 <= usize::MAX,
    ensures
        r@.len() == total_pages,
        forall|i: int| 0 <= i < total_pages ==> #[trigger] r@[i] == record_with_status(i, status),
{
    let mut v: Vec<PageInfo> = Vec::new();
    let mut p: usize = 0;
    let mut i: usize = 0;
    while i < total_pages
        invariant
            i <= total_pages,
            total_pages * 4096 <= usize::MAX,
            p == i * 4096,
            v@.len() == i,
            forall|k: int| 0 <= k < i ==> #[trigger] v@[k] == record_with_status(k, status),
        decreases total_pages - i,
    {
        assert((i + 1) * 4096 <= total_pages * 4096) by (nonlinear_arith)
            requires i < total_pages;
        v.push(PageInfo {
            phys_base: PhysAddr(p),
            size: MEMORY_DEFAULT_PAGE_USIZE,
            uefi_flags: 0,
            status,
            owner: Owner::Nobody,
            purpose: MEMORY_TYPE_CONVENTIONAL,
            flags: 0,
            page_size: PageSize::Small,
        });
        p = p + MEMORY_DEFAULT_PAGE_USIZE;
        i = i + 1;
    }
    v
}

/// The default records of `total_pages` pages: every page free.
pub fn default_page_info(total_pages: usize) -> (r: Vec<PageInfo>)
    requires
        total_pages * 4096 <= usize::MAX,
    ensures
        r@.len() == total_pages,
        forall|i: int| 0 <= i < total_pages ==> #[trigger] r@[i] == default_record(i),
{
    let r = page_info_with_status(total_pages, PageStatus::Free);
    proof {
        assert forall|i: int| 0 <= i < total_pages implies #[trigger] r@[i] == default_record(i) by {
            assert(r@[i] == record_with_status(i, PageStatus::Free));
        }
    }
    r
}

/// The records the boot path starts from when it denies by default:
/// every page reserved until the memory map frees it.
pub fn reserved_page_info(total_pages: usize) -> (r: Vec<PageInfo>)
    requires
        total_pages * 4096 <= usize::MAX,
    ensures
        r@.len() == total_pages,
        forall|i: int| 0 <= i < total_pages ==> #[trigger] r@[i] == record_with_status(i, PageStatus::Reserved),
{
    page_info_with_status(total_pages, PageStatus::Reserved)
}

/// The size of the block of entry `e`.
pub open spec fn block_bytes(e: MemMapEntry) -> usize {
    ((e.page_count as usize) * 4096) as usize
}

/// A pass finds the extremes: the largest block it ends with is at least as
/// large as every conventional block it passed and as the largest it started
/// with, and the smallest at most as large as each of those.
pub proof fn lemma_scan_extremes(s: ConvScan, entries: Seq<MemMapEntry>, counting: bool)
    ensures
        scan_all(s, entries, counting).largest_size >= s.largest_size,
        scan_all(s, entries, counting).smallest_size <= s.smallest_size,
        forall|k: int| 0 <= k < entries.len() && entries[k].ty == MEMORY_TYPE_CONVENTIONAL ==> {
            &&& scan_all(s, entries, counting).largest_size >= block_bytes(#[trigger] entries[k])
            &&& scan_all(s, entries, counting).smallest_size <= block_bytes(entries[k])
        },
    decreases entries.len(),
{
    if entries.len() > 0 {
        lemma_scan_extremes(s, entries.drop_last(), counting);
        assert forall|k: int| 0 <= k < entries.len() && entries[k].ty == MEMORY_TYPE_CONVENTIONAL implies {
            &&& scan_all(s, entries, counting).largest_size >= block_bytes(#[trigger] entries[k])
            &&& scan_all(s, entries, counting).smallest_size <= block_bytes(entries[k])
        } by {
            if k < entries.len() - 1 {
                assert(entries.drop_last()[k] == entries[k]);
            }
        }
    }
}

/// A counting pass finds the top of physical memory: the highest end it
/// ends with is at least the one it started with and the end of every
/// conventional block it passed, and it is one of those.
pub proof fn lemma_scan_top(s: ConvScan, entries: Seq<MemMapEntry>)
    requires
        forall|k: int| 0 <= k < entries.len() && entries[k].ty == MEMORY_TYPE_CONVENTIONAL ==> #[trigger] entry_fits(entries[k]),
    ensures
        scan_all(s, entries, true).max_phys >= s.max_phys,
        forall|k: int| 0 <= k < entries.len() && entries[k].ty == MEMORY_TYPE_CONVENTIONAL ==>
            scan_all(s, entries, true).max_phys >= (#[trigger] entries[k]).phys_start as usize + block_bytes(entries[k]),
        scan_all(s, entries, true).max_phys == s.max_phys || exists|k: int| 0 <= k < entries.len()
            && (#[trigger] entries[k]).ty == MEMORY_TYPE_CONVENTIONAL
            && scan_all(s, entries, true).max_phys == entries[k].phys_start as usize + block_bytes(entries[k]),
    decreases entries.len(),
{
    if entries.len() > 0 {
        let init = entries.drop_last();
        assert forall|k: int| 0 <= k < init.len() && init[k].ty == MEMORY_TYPE_CONVENTIONAL implies #[trigger] entry_fits(init[k]) by {
            assert(init[k] == entries[k]);
        }
        lemma_scan_top(s, init);
        let last = entries.last();
        if last.ty == MEMORY_TYPE_CONVENTIONAL {
            assert(entry_fits(entries[entries.len() - 1]));
        }
        assert forall|k: int| 0 <= k < entries.len() && entries[k].ty == MEMORY_TYPE_CONVENTIONAL implies
            scan_all(s, entries, true).max_phys >= (#[trigger] entries[k]).phys_start as usize + block_bytes(entries[k]) by {
            if k < entries.len() - 1 {
                assert(init[k] == entries[k]);
            }
        }
        if scan_all(s, entries, true).max_phys != s.max_phys {
            if scan_all(s, entries, true).max_phys == scan_all(s, init, true).max_phys {
                let k = choose|k: int| 0 <= k < init.len() && (#[trigger] init[k]).ty == MEMORY_TYPE_CONVENTIONAL
                    && scan_all(s, init, true).max_phys == init[k].phys_start as usize + block_bytes(init[k]);
                assert(init[k] == entries[k]);
            } else {
                assert(entries[entries.len() - 1] == last);
            }
        }
    }
}

} // verus!
