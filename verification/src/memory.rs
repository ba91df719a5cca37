//! Memory blocks and units, and fill patterns.
use vstd::prelude::*;
use crate::memory::address::{MemAddr, Align};
use crate::vmem::PageSize;
use crate::common::{USIZE_4K, USIZE_2M, USIZE_1G};

pub mod address;

verus! {

/// A run of memory: a base address and a size in bytes.
pub struct MemBlock<T: MemAddr> {
    pub base_addr: T,
    pub size: usize,
}

impl<T: MemAddr> MemBlock<T> {
    /// An empty block at the null address.
    pub fn new() -> (r: Self)
        ensures
            r.base_addr.addr() == 0,
            r.size == 0,
    {
        MemBlock { base_addr: T::new(), size: 0 }
    }

    /// A block with the base and size of `item`.
    pub fn new_from(item: Self) -> (r: Self)
        ensures
            r.base_addr.addr() == item.base_addr.addr(),
            r.size == item.size,
    {
        MemBlock { base_addr: T::new_from(item.base_addr), size: item.size }
    }

    /// A block at address `base` of `size` bytes.
    pub fn new_with<A: MemAddr>(base: A, size: usize) -> (r: Self)
        ensures
            r.base_addr.addr() == base.addr(),
            r.size == size,
    {
        MemBlock { base_addr: T::new_from_usize(base.inner()), size }
    }

    /// Whether `addr` lies inside the block.
    pub fn contains_addr<A: MemAddr>(&self, addr: A) -> (r: bool)
        requires
            self.base_addr.addr() + self.size <= usize::MAX,
        ensures
            r == (self.base_addr.addr() <= addr.addr() && addr.addr() < self.base_addr.addr()
                + self.size),
    {
        let a = addr.inner();
        let base = self.base_addr.inner();
        a >= base && a < base + self.size
    }
}

/// A unit of memory handed out or given back: a base address and a size in
/// bytes.
pub struct MemoryUnit<T: Align> {
    pub base: T,
    pub size: usize,
}

/// Whether `a` is a multiple of the page size `p`.
pub open spec fn page_aligned(a: usize, p: PageSize) -> bool {
    a % p.size() == 0
}

impl<T: Align> MemoryUnit<T> {
    /// An empty unit at the null address.
    pub fn new() -> (r: Self)
        ensures
            r.base.addr() == 0,
            r.size == 0,
    {
        MemoryUnit { base: T::new(), size: 0 }
    }

    /// A unit with the base and size of `item`.
    pub fn new_from(item: Self) -> (r: Self)
        ensures
            r.base.addr() == item.base.addr(),
            r.size == item.size,
    {
        MemoryUnit { base: T::new_from(item.base), size: item.size }
    }

    /// A unit at address `base` of `size` bytes.
    pub fn new_with<A: MemAddr>(base: A, size: usize) -> (r: Self)
        ensures
            r.base.addr() == base.addr(),
            r.size == size,
    {
        MemoryUnit { base: T::new_from_usize(base.inner()), size }
    }

    /// Whether the base address is a multiple of `page_size`.
    pub fn is_addr_page_aligned(&self, page_size: PageSize) -> (r: bool)
        ensures
            r == page_aligned(self.base.addr(), page_size),
    {
        match page_size {
            PageSize::Small => self.base.is_aligned_4k(),
            PageSize::Medium => self.base.is_aligned_2m(),
            PageSize::Huge => self.base.is_aligned_1g(),
        }
    }

    /// The number of pages of `page_size` the unit covers: the size divided
    /// by the page size, plus one more when the base address is not a
    /// multiple of the page size.
    pub fn page_count(&self, page_size: PageSize) -> (r: usize)
        ensures
            page_aligned(self.base.addr(), page_size) ==> r == self.size / page_size.size(),
            !page_aligned(self.base.addr(), page_size) ==> r == self.size / page_size.size() + 1,
    {
        let ps = page_size.into_bits();
        if self.is_addr_page_aligned(page_size) {
            self.size / ps
        } else {
            assert(self.size / ps < usize::MAX) by (nonlinear_arith)
                requires ps >= 4096, self.size <= usize::MAX;
            self.size / ps + 1
        }
    }

    /// The last address inside the unit.
    pub fn max_addr(&self) -> (r: usize)
        requires
            1 <= self.base.addr() + self.size <= usize::MAX,
        ensures
            r == self.base.addr() + self.size - 1,
    {
        self.base.inner() + self.size - 1
    }
}

/// A byte value to fill memory with.
#[derive(Debug, Copy, Clone, PartialEq, Eq, Structural)]
pub enum BitPattern {
    ZeroZero,
    Custom(u8),
    FF,
}

impl BitPattern {
    /// The byte value of a pattern.
    pub open spec fn bits(self) -> u8 {
        match self {
            BitPattern::ZeroZero => 0,
            BitPattern::FF => 255,
            BitPattern::Custom(x) => x,
        }
    }

    /// The pattern a byte value decodes to.
    pub open spec fn of_bits(value: u8) -> BitPattern {
        if value == 0 {
            BitPattern::ZeroZero
        } else if value == 255 {
            BitPattern::FF
        } else {
            BitPattern::Custom(value)
        }
    }

    /// The byte value of the pattern.
    pub fn into_bits(self) -> (r: u8)
        ensures
            r == self.bits(),
    {
        match self {
            BitPattern::ZeroZero => 0,
            BitPattern::FF => u8::MAX,
            BitPattern::Custom(x) => x,
        }
    }

    /// The pattern for the byte `value`.
    pub fn from_bits(value: u8) -> (r: BitPattern)
        ensures
            r == BitPattern::of_bits(value),
    {
        if value == 0 {
            BitPattern::ZeroZero
        } else if value == u8::MAX {
            BitPattern::FF
        } else {
            BitPattern::Custom(value)
        }
    }
}

/// Decoding then encoding a byte gives the byte back; encoding then decoding
/// a pattern gives it back unless it is a custom pattern spelling one of the
/// named bytes.
pub proof fn lemma_bit_pattern_round_trip(value: u8, p: BitPattern)
    ensures
        BitPattern::of_bits(value).bits() == value,
        !(p matches BitPattern::Custom(x) && (x == 0 || x == 255)) ==> BitPattern::of_bits(p.bits())
            == p,
{
}

} // verus!
