//! Facts about single bits of machine words, for every width the library
//! uses.
use vstd::prelude::*;

verus! {

/// Testing a bit by masking agrees with shifting it down to bit zero.
pub proof fn lemma_mask_tests()
    by (bit_vector)
    ensures
        forall|n: u8, b: u8| b < 8 ==> ((#[trigger] (n & (1u8 << b)) == (1u8 << b)) == ((n >> b) & 1 == 1)
            && ((n & (1u8 << b)) == 0) == !((n >> b) & 1 == 1)),
        forall|n: u16, b: u16| b < 16 ==> ((#[trigger] (n & (1u16 << b)) == (1u16 << b)) == ((n >> b) & 1 == 1)
            && ((n & (1u16 << b)) == 0) == !((n >> b) & 1 == 1)),
        forall|n: u32, b: u32| b < 32 ==> ((#[trigger] (n & (1u32 << b)) == (1u32 << b)) == ((n >> b) & 1 == 1)
            && ((n & (1u32 << b)) == 0) == !((n >> b) & 1 == 1)),
        forall|n: u64, b: u64| b < 64 ==> ((#[trigger] (n & (1u64 << b)) == (1u64 << b)) == ((n >> b) & 1 == 1)
            && ((n & (1u64 << b)) == 0) == !((n >> b) & 1 == 1)),
        forall|n: usize, b: usize| b < usize::BITS ==> ((#[trigger] (n & (1usize << b)) == (1usize << b)) == ((n >> b) & 1 == 1)
            && ((n & (1usize << b)) == 0) == !((n >> b) & 1 == 1)),
{
}

/// Setting bit `b` makes it one, clearing it makes it zero, and neither
/// touches any other bit.
pub proof fn lemma_set_clear_shifts()
    by (bit_vector)
    ensures
        forall|n: u32, b: u32, k: u32| b < 32 && k < 32 ==>
            (((#[trigger] ((n | (1u32 << b)) >> k)) & 1 == 1) <==> (k == b || (n >> k) & 1 == 1)),
        forall|n: u32, b: u32, k: u32| b < 32 && k < 32 ==>
            (((#[trigger] ((n & !(1u32 << b)) >> k)) & 1 == 1) <==> (k != b && (n >> k) & 1 == 1)),
        forall|n: u64, b: u64, k: u64| b < 64 && k < 64 ==>
            (((#[trigger] ((n | (1u64 << b)) >> k)) & 1 == 1) <==> (k == b || (n >> k) & 1 == 1)),
        forall|n: u64, b: u64, k: u64| b < 64 && k < 64 ==>
            (((#[trigger] ((n & !(1u64 << b)) >> k)) & 1 == 1) <==> (k != b && (n >> k) & 1 == 1)),
        forall|n: usize, b: usize, k: usize| b < usize::BITS && k < usize::BITS ==>
            (((#[trigger] ((n | (1usize << b)) >> k)) & 1 == 1) <==> (k == b || (n >> k) & 1 == 1)),
        forall|n: usize, b: usize, k: usize| b < usize::BITS && k < usize::BITS ==>
            (((#[trigger] ((n & !(1usize << b)) >> k)) & 1 == 1) <==> (k != b && (n >> k) & 1 == 1)),
        forall|n: usize, b: usize| #[trigger] ((n | (1usize << b)) & !(1usize << b)) == n & !(1usize << b),
        forall|n: usize, b: usize| #[trigger] ((n & !(1usize << b)) | (1usize << b)) == n | (1usize << b),
{
}

/// Scanning a word one bit at a time: shifting by nothing leaves it;
/// shifting by one more is shifting the shifted word by one; a nonzero word
/// with bit zero clear stays nonzero when shifted; 1 has bit zero set; a word shifted to 1 has no higher bits; a word still at 2
/// or more can be shifted once more.
pub proof fn lemma_scan_shifts()
    by (bit_vector)
    ensures
        forall|x: usize, i: usize| i + 1 < usize::BITS ==> #[trigger] ((x >> i) >> 1usize) == x >> ((i + 1) as usize),
        forall|v: usize| v != 0 && v & 1 != 1 ==> #[trigger] (v >> 1usize) != 0,
        forall|v: usize| v == 1 ==> #[trigger] (v & 1) == 1,
        forall|x: usize| #[trigger] (x >> 0usize) == x,
        forall|x: usize, i: usize| i + 1 == usize::BITS ==> #[trigger] (x >> i) <= 1,
        forall|x: usize, i: usize, j: usize| #[trigger] (x >> i) == 1 && i < j && j < usize::BITS ==> #[trigger] ((x >> j) & 1) == 0,
        forall|x: usize, i: usize| i < usize::BITS && (x >> i) >= 2 ==> i + 1 < usize::BITS && #[trigger] ((x >> i) >> 1usize) >= 1,
{
}

} // verus!
