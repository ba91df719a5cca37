//! Bit counting and bit scans of a machine word, and the operand of the
//! descriptor-table register instructions.
use vstd::prelude::*;
use crate::bitfacts::lemma_scan_shifts;
use crate::common::ubit::{bit_at, count_ones_below, ones};

verus! {

/// The number of set bits in the low 32 bits of `value`.
pub fn x86_popcount(value: usize) -> (r: usize)
    ensures
        r == ones(value, 32),
{
    count_ones_below(value, 32)
}

/// The position of the lowest set bit of `input`.
pub fn x86_bsf(input: usize) -> (r: usize)
    requires
        input > 0,
    ensures
        r < usize::BITS,
        bit_at(input, r),
        forall|j: usize| j < r ==> !bit_at(input, j),
{
    proof { lemma_scan_shifts(); }
    let mut v = input;
    let mut i: usize = 0;
    assert(input >> 0usize == input);
    while v & 1 != 1
        invariant
            i < usize::BITS,
            v == input >> i,
            v != 0,
            forall|j: usize| j < i ==> !bit_at(input, j),
        decreases usize::BITS - i,
    {
        proof { lemma_scan_shifts(); }
        assert(v >> 1usize != 0);
        assert(i + 1 < usize::BITS) by {
            if i + 1 == usize::BITS {
                assert((input >> i) <= 1);
            }
        }
        assert((input >> i) >> 1usize == input >> ((i + 1) as usize));
        v = v >> 1;
        i = i + 1;
    }
    i
}

/// The position of the highest set bit of `input`.
pub fn x86_bsr(input: usize) -> (r: usize)
    requires
        input > 0,
    ensures
        r < usize::BITS,
        bit_at(input, r),
        forall|j: usize| r < j < usize::BITS ==> !bit_at(input, j),
{
    proof { lemma_scan_shifts(); }
    let mut v = input;
    let mut i: usize = 0;
    assert(input >> 0usize == input);
    while v > 1
        invariant
            i < usize::BITS,
            v == input >> i,
            v >= 1,
        decreases usize::BITS - i,
    {
        proof { lemma_scan_shifts(); }
        assert(i + 1 < usize::BITS && (input >> i) >> 1usize >= 1);
        assert((input >> i) >> 1usize == input >> ((i + 1) as usize));
        v = v >> 1;
        i = i + 1;
    }
    assert(v & 1 == 1);
    assert forall|j: usize| i < j < usize::BITS implies !bit_at(input, j) by {
        assert(((input >> j) & 1) == 0);
    }
    i
}

/// The operand of the descriptor-table register loads and stores: the
/// table's limit and base address.
#[derive(Clone, Copy, Debug, PartialEq, Eq, Structural)]
pub struct DescriptorTablePtr {
    pub limit: u16,
    pub base: usize,
}

} // verus!
