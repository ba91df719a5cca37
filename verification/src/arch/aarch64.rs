//! The page sizes of this architecture, its translation tables, its bit
//! count, and its serial port.
pub mod serial;

use vstd::prelude::*;
use crate::common::{USIZE_4K, USIZE_16K, USIZE_64K};
use crate::common::ubit::{count_ones_below, ones};

verus! {

/// The page sizes: 4 KiB, 16 KiB and 64 KiB.
#[derive(Debug, Copy, Clone, PartialEq, Eq, Structural)]
pub enum PageSize {
    Small,
    Medium,
    Large,
}

impl PageSize {
    /// The size in bytes.
    pub open spec fn size(self) -> usize {
        match self {
            PageSize::Small => USIZE_4K,
            PageSize::Medium => USIZE_16K,
            PageSize::Large => USIZE_64K,
        }
    }

    /// The size in bytes.
    pub fn into_bits(self) -> (r: usize)
        ensures
            r == self.size(),
    {
        match self {
            PageSize::Small => USIZE_4K,
            PageSize::Medium => USIZE_16K,
            PageSize::Large => USIZE_64K,
        }
    }

    /// The page size with `value` bytes; any other value gives the small size.
    pub fn from_bits(value: usize) -> (r: PageSize)
        ensures
            value == USIZE_4K ==> r == PageSize::Small,
            value == USIZE_16K ==> r == PageSize::Medium,
            value == USIZE_64K ==> r == PageSize::Large,
            value != USIZE_4K && value != USIZE_16K && value != USIZE_64K ==> r == PageSize::Small,
    {
        if value == USIZE_4K {
            PageSize::Small
        } else if value == USIZE_16K {
            PageSize::Medium
        } else if value == USIZE_64K {
            PageSize::Large
        } else {
            PageSize::Small
        }
    }
}

/// Decoding the size of a page size gives the page size back.
pub proof fn lemma_page_size_round_trip(p: PageSize)
    ensures
        PageSize::from_bits_spec(p.size()) == p,
{
}

impl PageSize {
    /// What `from_bits` returns.
    pub open spec fn from_bits_spec(value: usize) -> PageSize {
        if value == USIZE_4K {
            PageSize::Small
        } else if value == USIZE_16K {
            PageSize::Medium
        } else if value == USIZE_64K {
            PageSize::Large
        } else {
            PageSize::Small
        }
    }
}

/// The number of set bits in `value`.
pub fn aarch_popcount(value: usize) -> (r: usize)
    ensures
        r == ones(value, usize::BITS as nat),
{
    count_ones_below(value, usize::BITS as usize)
}

/// A translation table: 512 descriptors.
pub struct PageTable {
    pub entries: [usize; 512],
}

} // verus!
