//! The page sizes and page tables of the 32-bit x86 layout.
use vstd::prelude::*;
use crate::common::{USIZE_4K, USIZE_4M};

verus! {

/// The page sizes: 4 KiB and 4 MiB.
#[derive(Debug, Copy, Clone, PartialEq, Eq, Structural)]
pub enum PageSize {
    Small,
    Medium,
}

impl PageSize {
    /// The size in bytes.
    pub open spec fn size(self) -> usize {
        match self {
            PageSize::Small => USIZE_4K,
            PageSize::Medium => USIZE_4M,
        }
    }

    /// The size in bytes.
    pub fn into_bits(self) -> (r: usize)
        ensures
            r == self.size(),
    {
        match self {
            PageSize::Small => USIZE_4K,
            PageSize::Medium => USIZE_4M,
        }
    }

    /// The page size with `value` bytes; any other value gives the small size.
    pub fn from_bits(value: usize) -> (r: PageSize)
        ensures
            value == USIZE_4K ==> r == PageSize::Small,
            value == USIZE_4M ==> r == PageSize::Medium,
            value != USIZE_4K && value != USIZE_4M ==> r == PageSize::Small,
    {
        if value == USIZE_4K {
            PageSize::Small
        } else if value == USIZE_4M {
            PageSize::Medium
        } else {
            PageSize::Small
        }
    }
}

/// Decoding the size of a page size gives the page size back.
pub proof fn lemma_page_size_round_trip(p: PageSize)
    ensures
        PageSize::from_bits_spec(p.size()) == p,
{
}

impl PageSize {
    /// What `from_bits` returns.
    pub open spec fn from_bits_spec(value: usize) -> PageSize {
        if value == USIZE_4K {
            PageSize::Small
        } else if value == USIZE_4M {
            PageSize::Medium
        } else {
            PageSize::Small
        }
    }
}

/// A page directory or page table: 1024 entries, each a frame address with
/// flag bits.
pub struct PageTable {
    pub entries: [crate::memory::address::PhysAddr; 1024],
}

} // verus!
