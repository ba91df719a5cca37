//! Physical and virtual addresses, and the alignment operations on them.
use vstd::prelude::*;
use crate::common::{is_pow2, lemma_pow2_mask, lemma_sizes_are_pow2, nebulae_test_pattern, nebulae_test_pattern_spec, USIZE_4K, USIZE_2M, USIZE_1G, MEMORY_DEFAULT_PAGE_USIZE, MEMORY_DEFAULT_SHIFT};
use crate::vmem::PageSize;
use vstd::layout::size_of;

verus! {

pub const ALIGN_MASK_4K: usize = !0xFFFusize;
pub const ALIGN_MASK_16K: usize = !0x3FFFusize;
pub const ALIGN_MASK_64K: usize = !0xFFFFusize;
pub const ALIGN_MASK_2M: usize = !0x1F_FFFFusize;
pub const ALIGN_MASK_4M: usize = !0x3F_FFFFusize;
pub const ALIGN_MASK_1G: usize = !0x3FFF_FFFFusize;

/// The canonical-address mask for 4 KiB pages (48-bit physical addresses;
/// on a 32-bit target the upper half falls away).
pub open spec fn align_canon_4k_spec() -> usize {
    0x0000_FFFF_FFFF_F000u64 as usize
}

/// The canonical-address mask for 2 MiB pages.
pub open spec fn align_canon_2m_spec() -> usize {
    0x0000_FFFF_FFE0_0000u64 as usize
}

/// The canonical-address mask for 1 GiB pages.
pub open spec fn align_canon_1g_spec() -> usize {
    0x0000_FFFF_C000_0000u64 as usize
}

/// Returns the canonical-address mask for 4 KiB pages.
pub fn align_canon_4k_mask() -> (r: usize)
    ensures
        r == align_canon_4k_spec(),
{
    0x0000_FFFF_FFFF_F000u64 as usize
}

/// Returns the canonical-address mask for 2 MiB pages.
pub fn align_canon_2m_mask() -> (r: usize)
    ensures
        r == align_canon_2m_spec(),
{
    0x0000_FFFF_FFE0_0000u64 as usize
}

/// Returns the canonical-address mask for 1 GiB pages.
pub fn align_canon_1g_mask() -> (r: usize)
    ensures
        r == align_canon_1g_spec(),
{
    0x0000_FFFF_C000_0000u64 as usize
}

/// The four page-table indexes (levels 4 to 1) that translate `a`.
pub open spec fn page_table_indexes(a: usize) -> (usize, usize, usize, usize) {
    (
        ((a as u64 & 0x7F80_0000_0000u64) >> 39u64) as usize,
        ((a as u64 & 0x007F_C000_0000u64) >> 30u64) as usize,
        ((a as u64 & 0x0000_3FE0_0000u64) >> 21u64) as usize,
        ((a as u64 & 0x0000_001F_F000u64) >> 12u64) as usize,
    )
}

/// A type that holds a machine address.
pub trait MemAddr: Sized {
    /// The address held.
    spec fn addr(&self) -> usize;

    /// The address held.
    fn inner(&self) -> (r: usize)
        ensures
            r == self.addr();

    /// The null address.
    fn new() -> (r: Self)
        ensures
            r.addr() == 0;

    /// A copy of `item`.
    fn new_from(item: Self) -> (r: Self)
        ensures
            r.addr() == item.addr();

    /// The address `item`.
    fn new_from_usize(item: usize) -> (r: Self)
        ensures
            r.addr() == item;

    /// The page-map level 4, page-directory-pointer, page-directory and
    /// page-table indexes of this address; each is below 512.
    fn get_page_table_indexes(&self) -> (r: (usize, usize, usize, usize))
        ensures
            r == page_table_indexes(self.addr()),
            r.0 < 512 && r.1 < 512 && r.2 < 512 && r.3 < 512,
    {
        let a = self.inner() as u64;
        let pml4_idx = (a & 0x7F80_0000_0000u64) >> 39u64;
        let pdpt_idx = (a & 0x007F_C000_0000u64) >> 30u64;
        let pd_idx = (a & 0x0000_3FE0_0000u64) >> 21u64;
        let pt_idx = (a & 0x0000_001F_F000u64) >> 12u64;
        assert(pml4_idx < 512 && pdpt_idx < 512 && pd_idx < 512 && pt_idx < 512) by (bit_vector)
            requires
                pml4_idx == (a & 0x7F80_0000_0000u64) >> 39u64,
                pdpt_idx == (a & 0x007F_C000_0000u64) >> 30u64,
                pd_idx == (a & 0x0000_3FE0_0000u64) >> 21u64,
                pt_idx == (a & 0x0000_001F_F000u64) >> 12u64;
        (pml4_idx as usize, pdpt_idx as usize, pd_idx as usize, pt_idx as usize)
    }
}

/// Alignment operations on a machine address.
pub trait Align: MemAddr {
    /// The address with everything outside the canonical 4 KiB frame bits cleared.
    fn align_canon_default(&self) -> (r: Self)
        ensures
            r.addr() == self.addr() & align_canon_4k_spec(),
    {
        Self::new_from_usize(self.inner() & align_canon_4k_mask())
    }

    /// Whether the address has no bits outside the canonical 4 KiB frame bits.
    fn is_aligned_canon_default(&self) -> (r: bool)
        ensures
            r == (self.addr() == self.addr() & align_canon_4k_spec()),
    {
        self.inner() == self.inner() & align_canon_4k_mask()
    }

    /// The address with everything outside the canonical 4 KiB frame bits cleared.
    fn align_canon_4k(&self) -> (r: Self)
        ensures
            r.addr() == self.addr() & align_canon_4k_spec(),
    {
        Self::new_from_usize(self.inner() & align_canon_4k_mask())
    }

    /// Whether the address has no bits outside the canonical 4 KiB frame bits.
    fn is_aligned_canon_4k(&self) -> (r: bool)
        ensures
            r == (self.addr() == self.addr() & align_canon_4k_spec()),
    {
        self.inner() == self.inner() & align_canon_4k_mask()
    }

    /// The address rounded down to 4 KiB.
    fn align_4k(&self) -> (r: Self)
        ensures
            r.addr() == self.addr() - self.addr() % USIZE_4K,
    {
        let a = self.inner();
        assert(a & !0xFFFusize == a - a % 4096) by (bit_vector);
        Self::new_from_usize(a & ALIGN_MASK_4K)
    }

    /// Whether the address is a multiple of 4 KiB.
    fn is_aligned_4k(&self) -> (r: bool)
        ensures
            r == (self.addr() % USIZE_4K == 0),
    {
        self.inner() % USIZE_4K == 0
    }

    /// The address with everything outside the canonical 2 MiB frame bits cleared.
    fn align_canon_2m(&self) -> (r: Self)
        ensures
            r.addr() == self.addr() & align_canon_2m_spec(),
    {
        Self::new_from_usize(self.inner() & align_canon_2m_mask())
    }

    /// Whether the address has no bits outside the canonical 2 MiB frame bits.
    fn is_aligned_canon_2m(&self) -> (r: bool)
        ensures
            r == (self.addr() == self.addr() & align_canon_2m_spec()),
    {
        self.inner() == self.inner() & align_canon_2m_mask()
    }

    /// The address rounded down to 2 MiB.
    fn align_2m(&self) -> (r: Self)
        ensures
            r.addr() == self.addr() - self.addr() % USIZE_2M,
    {
        let a = self.inner();
        assert(a & !0x1F_FFFFusize == a - a % 0x20_0000) by (bit_vector);
        Self::new_from_usize(a & ALIGN_MASK_2M)
    }

    /// Whether the address is a multiple of 2 MiB.
    fn is_aligned_2m(&self) -> (r: bool)
        ensures
            r == (self.addr() % USIZE_2M == 0),
    {
        self.inner() % USIZE_2M == 0
    }

    /// The address with everything outside the canonical 1 GiB frame bits cleared.
    fn align_canon_1g(&self) -> (r: Self)
        ensures
            r.addr() == self.addr() & align_canon_1g_spec(),
    {
        Self::new_from_usize(self.inner() & align_canon_1g_mask())
    }

    /// Whether the address has no bits outside the canonical 1 GiB frame bits.
    fn is_aligned_canon_1g(&self) -> (r: bool)
        ensures
            r == (self.addr() == self.addr() & align_canon_1g_spec()),
    {
        self.inner() == self.inner() & align_canon_1g_mask()
    }

    /// The address rounded down to 1 GiB.
    fn align_1g(&self) -> (r: Self)
        ensures
            r.addr() == self.addr() - self.addr() % USIZE_1G,
    {
        let a = self.inner();
        assert(a & !0x3FFF_FFFFusize == a - a % 0x4000_0000) by (bit_vector);
        Self::new_from_usize(a & ALIGN_MASK_1G)
    }

    /// Whether the address is a multiple of 1 GiB.
    fn is_aligned_1g(&self) -> (r: bool)
        ensures
            r == (self.addr() % USIZE_1G == 0),
    {
        self.inner() % USIZE_1G == 0
    }

    /// Whether the address is a multiple of the default page size.
    fn is_default_page_aligned(&self) -> (r: bool)
        ensures
            r == (self.addr() % MEMORY_DEFAULT_PAGE_USIZE == 0),
    {
        self.inner() % MEMORY_DEFAULT_PAGE_USIZE == 0
    }

    /// Whether the address is a multiple of the default page size.
    fn is_default_page_size_aligned(&self) -> (r: bool)
        ensures
            r == (self.addr() % MEMORY_DEFAULT_PAGE_USIZE == 0),
    {
        self.inner() % MEMORY_DEFAULT_PAGE_USIZE == 0
    }

    /// Whether the address suits a page larger than the default one, that
    /// is, whether it is a multiple of 2 MiB.
    fn is_page_aligned_greater_than_default(&self) -> (r: bool)
        ensures
            r == (self.addr() % USIZE_2M == 0),
    {
        self.inner() % USIZE_2M == 0
    }

    /// The address rounded up to a multiple of the power of two `alignment`.
    fn align_up(&self, alignment: usize) -> (r: Self)
        requires
            is_pow2(alignment),
            self.addr() + alignment - 1 <= usize::MAX,
        ensures
            r.addr() % alignment == 0,
            self.addr() <= r.addr(),
            r.addr() < self.addr() + alignment,
    {
        Self::new_from_usize(crate::common::align_up(self.inner(), alignment))
    }

    /// The address rounded down to a multiple of the power of two `alignment`.
    fn align_down(&self, alignment: usize) -> (r: Self)
        requires
            is_pow2(alignment),
        ensures
            r.addr() == self.addr() - self.addr() % alignment,
    {
        Self::new_from_usize(crate::common::align_down(self.inner(), alignment))
    }

    /// Whether the address is a multiple of `alignment`.
    fn is_aligned(&self, alignment: usize) -> (r: bool)
        requires
            alignment > 0,
        ensures
            r == (self.addr() % alignment == 0),
    {
        self.inner() % alignment == 0
    }
}

impl MemAddr for usize {
    open spec fn addr(&self) -> usize {
        *self
    }

    fn inner(&self) -> (r: usize) {
        *self
    }

    fn new() -> (r: usize) {
        0
    }

    fn new_from(item: usize) -> (r: usize) {
        item
    }

    fn new_from_usize(item: usize) -> (r: usize) {
        item
    }
}

impl Align for usize {}

/// A physical address.
#[derive(PartialEq, Eq, PartialOrd, Ord, Copy, Clone, Debug, Structural)]
pub struct PhysAddr(pub usize);

/// A virtual address.
#[derive(PartialEq, Eq, PartialOrd, Ord, Copy, Clone, Debug, Structural)]
pub struct VirtAddr(pub usize);

impl MemAddr for PhysAddr {
    open spec fn addr(&self) -> usize {
        self.0
    }

    fn inner(&self) -> (r: usize) {
        self.0
    }

    fn new() -> (r: PhysAddr) {
        PhysAddr(0)
    }

    fn new_from(item: PhysAddr) -> (r: PhysAddr) {
        PhysAddr(item.0)
    }

    fn new_from_usize(item: usize) -> (r: PhysAddr) {
        PhysAddr(item)
    }
}

impl Align for PhysAddr {}

impl MemAddr for VirtAddr {
    open spec fn addr(&self) -> usize {
        self.0
    }

    fn inner(&self) -> (r: usize) {
        self.0
    }

    fn new() -> (r: VirtAddr) {
        VirtAddr(0)
    }

    fn new_from(item: VirtAddr) -> (r: VirtAddr) {
        VirtAddr(item.0)
    }

    fn new_from_usize(item: usize) -> (r: VirtAddr) {
        VirtAddr(item)
    }
}

impl Align for VirtAddr {}

impl PhysAddr {
    /// Whether this is the null address or the platform test pattern.
    pub fn is_null(&self) -> (r: bool)
        ensures
            r == (self.0 == 0 || self.0 == nebulae_test_pattern_spec()),
    {
        self.0 == 0 || self.0 == nebulae_test_pattern()
    }

    /// The address as a number.
    pub fn as_const_usize(&self) -> (r: usize)
        ensures
            r == self.0,
    {
        self.0
    }

    /// Masks the address with `mask` and returns the new address.
    pub fn inner_and(&mut self, mask: usize) -> (r: PhysAddr)
        ensures
            final(self).0 == old(self).0 & mask,
            r == *final(self),
    {
        self.0 = self.0 & mask;
        *self
    }

    /// Sets the bits of `mask` in the address and returns the new address.
    pub fn inner_or(&mut self, mask: usize) -> (r: PhysAddr)
        ensures
            final(self).0 == old(self).0 | mask,
            r == *final(self),
    {
        self.0 = self.0 | mask;
        *self
    }

    /// Flips the bits of `mask` in the address and returns the new address.
    pub fn inner_xor(&mut self, mask: usize) -> (r: PhysAddr)
        ensures
            final(self).0 == old(self).0 ^ mask,
            r == *final(self),
    {
        self.0 = self.0 ^ mask;
        *self
    }

    /// Complements every bit of the address and returns the new address.
    pub fn inner_bitnot(&mut self) -> (r: PhysAddr)
        ensures
            final(self).0 == !old(self).0,
            r == *final(self),
    {
        self.0 = !self.0;
        *self
    }

    /// Adds `x` to the address and returns the new address.
    pub fn inner_add(&mut self, x: usize) -> (r: PhysAddr)
        requires
            old(self).0 + x <= usize::MAX,
        ensures
            final(self).0 == old(self).0 + x,
            r == *final(self),
    {
        self.0 = self.0 + x;
        *self
    }

    /// Subtracts `x` from the address and returns the new address.
    pub fn inner_sub(&mut self, x: usize) -> (r: PhysAddr)
        requires
            old(self).0 >= x,
        ensures
            final(self).0 == old(self).0 - x,
            r == *final(self),
    {
        self.0 = self.0 - x;
        *self
    }

    /// Advances the address past `n` values of type `T`.
    pub fn inner_inc_by_type<T>(&mut self, n: usize) -> (r: PhysAddr)
        requires
            old(self).0 + size_of::<T>() * n <= usize::MAX,
        ensures
            final(self).0 == old(self).0 + size_of::<T>() * n,
            r == *final(self),
    {
        let sz = core::mem::size_of::<T>();
        assert(sz * n <= usize::MAX) by (nonlinear_arith)
            requires
                sz * n + self.0 <= usize::MAX,
                self.0 >= 0;
        self.0 = self.0 + sz * n;
        *self
    }

    /// Moves the address back by `n` values of type `T`.
    pub fn inner_dec_by_type<T>(&mut self, n: usize) -> (r: PhysAddr)
        requires
            old(self).0 >= size_of::<T>() * n,
        ensures
            final(self).0 == old(self).0 - size_of::<T>() * n,
            r == *final(self),
    {
        let sz = core::mem::size_of::<T>();
        assert(sz * n <= usize::MAX) by (nonlinear_arith)
            requires
                sz * n <= self.0,
                self.0 <= usize::MAX;
        self.0 = self.0 - sz * n;
        *self
    }

    /// Advances the address by `n` bytes.
    pub fn inner_inc(&mut self, n: usize) -> (r: PhysAddr)
        requires
            old(self).0 + n <= usize::MAX,
        ensures
            final(self).0 == old(self).0 + n,
            r == *final(self),
    {
        self.0 = self.0 + n;
        *self
    }

    /// Moves the address back by `n` bytes.
    pub fn inner_dec(&mut self, n: usize) -> (r: PhysAddr)
        requires
            old(self).0 >= n,
        ensures
            final(self).0 == old(self).0 - n,
            r == *final(self),
    {
        self.0 = self.0 - n;
        *self
    }

    /// Advances the address by one page of `page_size`.
    pub fn inner_inc_by_page_size(&mut self, page_size: PageSize) -> (r: PhysAddr)
        requires
            old(self).0 + page_size.size() <= usize::MAX,
        ensures
            final(self).0 == old(self).0 + page_size.size(),
            r == *final(self),
    {
        self.0 = self.0 + page_size.into_bits();
        *self
    }

    /// Moves the address back by one page of `page_size`.
    pub fn inner_dec_by_page_size(&mut self, page_size: PageSize) -> (r: PhysAddr)
        requires
            old(self).0 >= page_size.size(),
        ensures
            final(self).0 == old(self).0 - page_size.size(),
            r == *final(self),
    {
        self.0 = self.0 - page_size.into_bits();
        *self
    }

    /// Advances the address by one default-size page.
    pub fn inner_inc_by_default_page_size(&mut self) -> (r: PhysAddr)
        requires
            old(self).0 + MEMORY_DEFAULT_PAGE_USIZE <= usize::MAX,
        ensures
            final(self).0 == old(self).0 + MEMORY_DEFAULT_PAGE_USIZE,
            r == *final(self),
    {
        self.0 = self.0 + MEMORY_DEFAULT_PAGE_USIZE;
        *self
    }
}

impl VirtAddr {
    /// Whether this is the null address or the platform test pattern.
    pub fn is_null(&self) -> (r: bool)
        ensures
            r == (self.0 == 0 || self.0 == nebulae_test_pattern_spec()),
    {
        self.0 == 0 || self.0 == nebulae_test_pattern()
    }

    /// The address as a number.
    pub fn as_const_usize(&self) -> (r: usize)
        ensures
            r == self.0,
    {
        self.0
    }

    /// Masks the address with `mask` and returns the new address.
    pub fn inner_and(&mut self, mask: usize) -> (r: VirtAddr)
        ensures
            final(self).0 == old(self).0 & mask,
            r == *final(self),
    {
        self.0 = self.0 & mask;
        *self
    }

    /// Sets the bits of `mask` in the address and returns the new address.
    pub fn inner_or(&mut self, mask: usize) -> (r: VirtAddr)
        ensures
            final(self).0 == old(self).0 | mask,
            r == *final(self),
    {
        self.0 = self.0 | mask;
        *self
    }

    /// Flips the bits of `mask` in the address and returns the new address.
    pub fn inner_xor(&mut self, mask: usize) -> (r: VirtAddr)
        ensures
            final(self).0 == old(self).0 ^ mask,
            r == *final(self),
    {
        self.0 = self.0 ^ mask;
        *self
    }

    /// Complements every bit of the address and returns the new address.
    pub fn inner_bitnot(&mut self) -> (r: VirtAddr)
        ensures
            final(self).0 == !old(self).0,
            r == *final(self),
    {
        self.0 = !self.0;
        *self
    }

    /// Adds `x` to the address and returns the new address.
    pub fn inner_add(&mut self, x: usize) -> (r: VirtAddr)
        requires
            old(self).0 + x <= usize::MAX,
        ensures
            final(self).0 == old(self).0 + x,
            r == *final(self),
    {
        self.0 = self.0 + x;
        *self
    }

    /// Subtracts `x` from the address and returns the new address.
    pub fn inner_sub(&mut self, x: usize) -> (r: VirtAddr)
        requires
            old(self).0 >= x,
        ensures
            final(self).0 == old(self).0 - x,
            r == *final(self),
    {
        self.0 = self.0 - x;
        *self
    }

    /// Advances the address past `n` values of type `T`.
    pub fn inner_inc_by_type<T>(&mut self, n: usize) -> (r: VirtAddr)
        requires
            old(self).0 + size_of::<T>() * n <= usize::MAX,
        ensures
            final(self).0 == old(self).0 + size_of::<T>() * n,
            r == *final(self),
    {
        let sz = core::mem::size_of::<T>();
        assert(sz * n <= usize::MAX) by (nonlinear_arith)
            requires
                sz * n + self.0 <= usize::MAX,
                self.0 >= 0;
        self.0 = self.0 + sz * n;
        *self
    }

    /// Moves the address back by `n` values of type `T`.
    pub fn inner_dec_by_type<T>(&mut self, n: usize) -> (r: VirtAddr)
        requires
            old(self).0 >= size_of::<T>() * n,
        ensures
            final(self).0 == old(self).0 - size_of::<T>() * n,
            r == *final(self),
    {
        let sz = core::mem::size_of::<T>();
        assert(sz * n <= usize::MAX) by (nonlinear_arith)
            requires
                sz * n <= self.0,
                self.0 <= usize::MAX;
        self.0 = self.0 - sz * n;
        *self
    }

    /// Advances the address by `n` bytes.
    pub fn inner_inc(&mut self, n: usize) -> (r: VirtAddr)
        requires
            old(self).0 + n <= usize::MAX,
        ensures
            final(self).0 == old(self).0 + n,
            r == *final(self),
    {
        self.0 = self.0 + n;
        *self
    }

    /// Moves the address back by `n` bytes.
    pub fn inner_dec(&mut self, n: usize) -> (r: VirtAddr)
        requires
            old(self).0 >= n,
        ensures
            final(self).0 == old(self).0 - n,
            r == *final(self),
    {
        self.0 = self.0 - n;
        *self
    }

    /// Advances the address by one page of `page_size`.
    pub fn inner_inc_by_page_size(&mut self, page_size: PageSize) -> (r: VirtAddr)
        requires
            old(self).0 + page_size.size() <= usize::MAX,
        ensures
            final(self).0 == old(self).0 + page_size.size(),
            r == *final(self),
    {
        self.0 = self.0 + page_size.into_bits();
        *self
    }

    /// Moves the address back by one page of `page_size`.
    pub fn inner_dec_by_page_size(&mut self, page_size: PageSize) -> (r: VirtAddr)
        requires
            old(self).0 >= page_size.size(),
        ensures
            final(self).0 == old(self).0 - page_size.size(),
            r == *final(self),
    {
        self.0 = self.0 - page_size.into_bits();
        *self
    }

    /// Advances the address by one default-size page.
    pub fn inner_inc_by_default_page_size(&mut self) -> (r: VirtAddr)
        requires
            old(self).0 + MEMORY_DEFAULT_PAGE_USIZE <= usize::MAX,
        ensures
            final(self).0 == old(self).0 + MEMORY_DEFAULT_PAGE_USIZE,
            r == *final(self),
    {
        self.0 = self.0 + MEMORY_DEFAULT_PAGE_USIZE;
        *self
    }
}

/// Reading a number as a physical address.
pub trait AsPhys {
    /// The address this value names.
    spec fn phys_of(&self) -> usize;

    /// This value as a physical address.
    fn as_phys(&self) -> (r: PhysAddr)
        ensures
            r.0 == self.phys_of();
}

/// Reading a number as a virtual address.
pub trait AsVirt {
    /// The address this value names.
    spec fn virt_of(&self) -> usize;

    /// This value as a virtual address.
    fn as_virt(&self) -> (r: VirtAddr)
        ensures
            r.0 == self.virt_of();
}

impl AsPhys for usize {
    open spec fn phys_of(&self) -> usize {
        *self
    }

    fn as_phys(&self) -> (r: PhysAddr) {
        PhysAddr(*self)
    }
}

impl AsVirt for usize {
    open spec fn virt_of(&self) -> usize {
        *self
    }

    fn as_virt(&self) -> (r: VirtAddr) {
        VirtAddr(*self)
    }
}

impl AsPhys for u64 {
    open spec fn phys_of(&self) -> usize {
        *self as usize
    }

    fn as_phys(&self) -> (r: PhysAddr) {
        PhysAddr(*self as usize)
    }
}

impl AsVirt for u64 {
    open spec fn virt_of(&self) -> usize {
        *self as usize
    }

    fn as_virt(&self) -> (r: VirtAddr) {
        VirtAddr(*self as usize)
    }
}

impl crate::common::AsUsize for PhysAddr {
    open spec fn usize_of(&self) -> usize {
        self.0
    }

    fn as_usize(&self) -> (r: usize) {
        self.0
    }
}

impl crate::common::AsUsize for VirtAddr {
    open spec fn usize_of(&self) -> usize {
        self.0
    }

    fn as_usize(&self) -> (r: usize) {
        self.0
    }
}

impl crate::bit::Bitmask for PhysAddr {
    open spec fn masked(&self, mask: usize) -> PhysAddr {
        PhysAddr(self.0 & mask)
    }

    fn bitmask(&self, mask: usize) -> (r: PhysAddr) {
        PhysAddr(crate::common::ubit::apply_mask(self.0, mask))
    }
}

impl crate::bit::Bitmask for VirtAddr {
    open spec fn masked(&self, mask: usize) -> VirtAddr {
        VirtAddr(self.0 & mask)
    }

    fn bitmask(&self, mask: usize) -> (r: VirtAddr) {
        VirtAddr(self.0 & mask)
    }
}

impl From<usize> for PhysAddr {
    fn from(item: usize) -> (r: PhysAddr) {
        PhysAddr(item)
    }
}

impl vstd::std_specs::convert::FromSpecImpl<usize> for PhysAddr {
    open spec fn obeys_from_spec() -> bool {
        true
    }

    open spec fn from_spec(v: usize) -> PhysAddr {
        PhysAddr(v)
    }
}

impl From<usize> for VirtAddr {
    fn from(item: usize) -> (r: VirtAddr) {
        VirtAddr(item)
    }
}

impl vstd::std_specs::convert::FromSpecImpl<usize> for VirtAddr {
    open spec fn obeys_from_spec() -> bool {
        true
    }

    open spec fn from_spec(v: usize) -> VirtAddr {
        VirtAddr(v)
    }
}

impl From<PhysAddr> for usize {
    fn from(item: PhysAddr) -> (r: usize) {
        item.0
    }
}

impl vstd::std_specs::convert::FromSpecImpl<PhysAddr> for usize {
    open spec fn obeys_from_spec() -> bool {
        true
    }

    open spec fn from_spec(v: PhysAddr) -> usize {
        v.0
    }
}

impl From<PhysAddr> for VirtAddr {
    fn from(item: PhysAddr) -> (r: VirtAddr) {
        VirtAddr(item.0)
    }
}

impl vstd::std_specs::convert::FromSpecImpl<PhysAddr> for VirtAddr {
    open spec fn obeys_from_spec() -> bool {
        true
    }

    open spec fn from_spec(v: PhysAddr) -> VirtAddr {
        VirtAddr(v.0)
    }
}

/// The 64-bit word with the byte `b` in every byte.
pub open spec fn byte_fill(b: u8) -> u64 {
    ((b as u64) * 0x0101_0101_0101_0101u64) as u64
}

/// A byte value to fill memory with.
#[derive(Debug, Copy, Clone, PartialEq, Eq, Structural)]
pub enum BytePattern {
    ZeroZero,
    Custom(u8),
    FF,
}

impl BytePattern {
    /// The byte value of a pattern.
    pub open spec fn bits(self) -> u8 {
        match self {
            BytePattern::ZeroZero => 0,
            BytePattern::Custom(x) => x,
            BytePattern::FF => 255,
        }
    }

    /// The pattern a byte value decodes to.
    pub open spec fn of_bits(value: u8) -> BytePattern {
        if value == 0 {
            BytePattern::ZeroZero
        } else if value == 255 {
            BytePattern::FF
        } else {
            BytePattern::Custom(value)
        }
    }

    /// The byte value of the pattern.
    pub fn into_bits(self) -> (r: u8)
        ensures
            r == self.bits(),
    {
        match self {
            BytePattern::ZeroZero => 0,
            BytePattern::Custom(x) => x,
            BytePattern::FF => u8::MAX,
        }
    }

    /// The pattern for the byte `value`.
    pub fn from_bits(value: u8) -> (r: BytePattern)
        ensures
            r == BytePattern::of_bits(value),
    {
        if value == 0 {
            BytePattern::ZeroZero
        } else if value == u8::MAX {
            BytePattern::FF
        } else {
            BytePattern::Custom(value)
        }
    }

    /// The machine word with the pattern's byte in every byte.
    pub fn as_usize_pattern(&self) -> (r: usize)
        ensures
            r == byte_fill(self.bits()) as usize,
            forall|k: u64| k < 8 ==> #[trigger] ((byte_fill(self.bits()) >> ((8 * k) as u64)) & 0xFF)
                == self.bits() as u64,
    {
        let b = self.into_bits() as u64;
        let mut ret: u64 = 0;
        ret = ret | b;
        ret = ret | (b << 8u64);
        ret = ret | (b << 16u64);
        ret = ret | (b << 24u64);
        ret = ret | (b << 32u64);
        ret = ret | (b << 40u64);
        ret = ret | (b << 48u64);
        ret = ret | (b << 56u64);
        assert(ret == (b * 0x0101_0101_0101_0101u64) as u64) by (bit_vector)
            requires
                b < 256,
                ret == 0u64 | b | (b << 8u64) | (b << 16u64) | (b << 24u64) | (b << 32u64) | (b << 40u64)
                    | (b << 48u64) | (b << 56u64);
        assert forall|k: u64| k < 8 implies #[trigger] ((byte_fill(self.bits()) >> ((8 * k) as u64)) & 0xFF) == b by {
            let f = byte_fill(self.bits());
            assert(((f >> ((8 * k) as u64)) & 0xFF) == b) by (bit_vector)
                requires b < 256, k < 8, f == (b * 0x0101_0101_0101_0101u64) as u64;
        }
        ret as usize
    }
}

impl crate::common::AsUsize for BytePattern {
    open spec fn usize_of(&self) -> usize {
        self.bits() as usize
    }

    fn as_usize(&self) -> (r: usize) {
        self.into_bits() as usize
    }
}

/// Decoding then encoding a byte gives the byte back; encoding then decoding
/// a pattern gives it back unless it is a custom pattern spelling one of the
/// named bytes.
pub proof fn lemma_byte_pattern_round_trip(value: u8, p: BytePattern)
    ensures
        BytePattern::of_bits(value).bits() == value,
        !(p matches BytePattern::Custom(x) && (x == 0 || x == 255)) ==> BytePattern::of_bits(p.bits())
            == p,
{
}

} // verus!
