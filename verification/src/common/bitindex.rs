//! Sizing of bit-index structures.
use vstd::prelude::*;
use crate::vmem::PageSize;
use crate::common::machine_ubits;
use crate::common::machine_ubytes;

verus! {

/// Machine words needed to hold `capacity` bits.
pub open spec fn bitindex_words(capacity: nat) -> nat {
    (capacity + usize::BITS - 1) as nat / usize::BITS as nat
}

/// Machine words needed to hold `capacity` bits: the ceiling of
/// `capacity / usize::BITS`.
pub fn calc_bitindex_size_in_usize(capacity: usize) -> (r: usize)
    requires
        capacity + usize::BITS - 1 <= usize::MAX,
    ensures
        r == bitindex_words(capacity as nat),
{
    let bits = machine_ubits();
    (capacity + (bits - 1)) / bits
}

/// Bytes needed to hold `capacity` bits in whole machine words.
pub fn calc_bitindex_size_in_bytes(capacity: usize) -> (r: usize)
    requires
        capacity + usize::BITS - 1 <= usize::MAX,
    ensures
        r == bitindex_words(capacity as nat) * (usize::BITS / 8),
{
    let words = calc_bitindex_size_in_usize(capacity);
    let bytes = machine_ubytes();
    assert(words * bytes <= usize::MAX) by (nonlinear_arith)
        requires
            words == (capacity + usize::BITS - 1) as nat / usize::BITS as nat,
            usize::BITS == 32 || usize::BITS == 64,
            bytes == usize::BITS / 8,
            capacity + usize::BITS - 1 <= usize::MAX;
    words * bytes
}

/// Pages of `page_size` needed to hold `capacity` bits.
pub fn calc_bitindex_size_in_pages(capacity: usize, page_size: PageSize) -> (r: usize)
    requires
        capacity + usize::BITS - 1 <= usize::MAX,
        bitindex_words(capacity as nat) * (usize::BITS / 8) + page_size.size() - 1 <= usize::MAX,
    ensures
        r == (bitindex_words(capacity as nat) * (usize::BITS / 8) + page_size.size() - 1) as nat
            / page_size.size() as nat,
{
    let ps = page_size.as_const_usize();
    (calc_bitindex_size_in_bytes(capacity) + (ps - 1)) / ps
}

/// Bytes left over in the last page of a bit index of `capacity` bits.
pub fn calc_wasted_bytes(capacity: usize, page_size: PageSize) -> (r: usize)
    requires
        capacity + usize::BITS - 1 <= usize::MAX,
        bitindex_words(capacity as nat) * (usize::BITS / 8) + page_size.size() - 1 <= usize::MAX,
    ensures
        ({
            let bytes = bitindex_words(capacity as nat) * (usize::BITS / 8);
            let pages = (bytes + page_size.size() - 1) as nat / page_size.size() as nat;
            r == pages * page_size.size() - bytes
        }),
{
    let ps = page_size.as_const_usize();
    let bytes = calc_bitindex_size_in_bytes(capacity);
    let pages = calc_bitindex_size_in_pages(capacity, page_size);
    assert(pages * ps <= bytes + ps - 1 && bytes <= pages * ps) by (nonlinear_arith)
        requires
            ps > 0,
            pages == (bytes + ps - 1) as nat / ps as nat;
    pages * ps - bytes
}

/// The word index and the bit position in that word of bit `index`.
pub fn calc_bitindex_and_bitpos(index: usize) -> (r: (usize, usize))
    ensures
        r.0 == index / usize::BITS as usize,
        r.1 == index % usize::BITS as usize,
{
    let bits = machine_ubits();
    (index / bits, index % bits)
}

} // verus!
