//! Conversions between byte counts, page counts and page indexes.
use vstd::prelude::*;
use crate::common::{is_pow2, lemma_pow2_mask, lemma_sizes_are_pow2, nebulae_test_pattern, nebulae_test_pattern_spec, USIZE_4K, USIZE_2M, USIZE_1G, MEMORY_DEFAULT_PAGE_USIZE, MEMORY_DEFAULT_SHIFT};
use crate::vmem::PageSize;
use crate::memory::address::MemAddr;

verus! {

/// Per-page allocation state.
#[derive(Debug, Copy, Clone, PartialEq, Eq, Structural)]
pub enum PageStatus {
    Free,
    Reserved,
    Alloc,
}

/// Bookkeeping for one physical page.
#[derive(Clone, Copy)]
pub struct PageInfo {
    pub phys_base: crate::memory::address::PhysAddr,
    pub size: usize,
    pub uefi_flags: usize,
    pub status: PageStatus,
    pub owner: crate::permissions::Owner,
    pub purpose: u32,
    pub flags: usize,
    pub page_size: PageSize,
}

/// Bytes in `page_count` pages of `page_size`.
pub fn pages_to_bytes(page_count: usize, page_size: PageSize) -> (r: usize)
    requires
        page_count * page_size.size() <= usize::MAX,
    ensures
        r == page_count * page_size.size(),
{
    page_count * page_size.into_bits()
}

/// Pages of `page_size` needed for `bytes` (rounded up), and whether `bytes`
/// is a whole number of such pages.
pub fn bytes_to_pages(bytes: usize, page_size: PageSize) -> (r: (usize, bool))
    requires
        bytes + page_size.size() - 1 <= usize::MAX,
    ensures
        r.0 == (bytes + page_size.size() - 1) / page_size.size() as int,
        r.1 == (bytes % page_size.size() == 0),
{
    let ps = page_size.into_bits();
    let page_count = (bytes + (ps - 1)) / ps;
    let remainder = bytes % ps;
    (page_count, remainder == 0)
}

/// Pages of `page_size` needed to hold `size` bytes.
pub fn calc_pages_reqd(size: usize, page_size: PageSize) -> (r: usize)
    requires
        size + page_size.size() - 1 <= usize::MAX,
    ensures
        r == (size + page_size.size() - 1) / page_size.size() as int,
        r * page_size.size() >= size,
        (r - 1) * page_size.size() < size || r == 0,
{
    let ps = page_size.into_bits();
    let r = (size + (ps - 1)) / ps;
    assert(r * ps >= size && ((r - 1) * ps < size || r == 0)) by (nonlinear_arith)
        requires
            ps > 0,
            r == (size + ps - 1) / ps as int;
    r
}

/// The default-size page index of the byte address `raw`.
pub fn usize_to_page_index(raw: usize) -> (r: usize)
    ensures
        r == raw / MEMORY_DEFAULT_PAGE_USIZE,
{
    assert(raw >> 12usize == raw / 4096usize) by (bit_vector);
    raw >> MEMORY_DEFAULT_SHIFT
}

/// The default-size page index of the address `addr`.
pub fn addr_to_page_index<T: MemAddr>(addr: T) -> (r: usize)
    ensures
        r == addr.addr() / MEMORY_DEFAULT_PAGE_USIZE,
{
    usize_to_page_index(addr.inner())
}

} // verus!
