//! Single-bit and mask helpers on `usize` values.
use vstd::prelude::*;

verus! {

/// Whether bit `k` of `n` is one.
pub open spec fn bit_at(n: usize, k: usize) -> bool {
    (n >> k) & 1 == 1
}

/// The value with only bit `bit` set.
pub fn bit(bit_idx: usize) -> (r: usize)
    requires
        bit_idx < usize::BITS,
    ensures
        r == (1 as usize) << (bit_idx as usize),
{
    (1 as usize) << (bit_idx as usize)
}

/// `n` with bit `bit` set.
pub fn set_bit(n: usize, bit_idx: usize) -> (r: usize)
    requires
        bit_idx < usize::BITS,
    ensures
        r == n | ((1 as usize) << (bit_idx as usize)),
{
    n | ((1 as usize) << (bit_idx as usize))
}

/// `n` with bit `bit` cleared.
pub fn clear_bit(n: usize, bit_idx: usize) -> (r: usize)
    requires
        bit_idx < usize::BITS,
    ensures
        r == n & !((1 as usize) << (bit_idx as usize)),
{
    n & !((1 as usize) << (bit_idx as usize))
}

/// Whether bit `bit` of `n` is one.
pub fn is_bit_set(n: usize, bit_idx: usize) -> (r: bool)
    requires
        bit_idx < usize::BITS,
    ensures
        r == bit_at(n, bit_idx as usize),
{
    let b = bit_idx as usize;
    proof {
        crate::bitfacts::lemma_mask_tests();
        assert(((n & (1usize << b)) == 0) == !((n >> b) & 1 == 1));
    }
    (n & ((1 as usize) << b)) != 0
}

/// Whether bit `bit` of `n` is zero.
pub fn is_bit_clear(n: usize, bit_idx: usize) -> (r: bool)
    requires
        bit_idx < usize::BITS,
    ensures
        r == !bit_at(n, bit_idx as usize),
{
    let b = bit_idx as usize;
    proof {
        crate::bitfacts::lemma_mask_tests();
        assert(((n & (1usize << b)) == 0) == !((n >> b) & 1 == 1));
    }
    (n & ((1 as usize) << b)) == 0
}

/// `n` masked by `mask`.
pub fn apply_mask(n: usize, mask: usize) -> (r: usize)
    ensures
        r == n & mask,
{
    n & mask
}

/// The mask whose ones are exactly the bits `start..=end`.
pub fn create_bitmask(start: usize, end: usize) -> (r: usize)
    requires
        start <= end,
        end < usize::BITS,
        end - start + 1 < usize::BITS,
    ensures
        forall|k: usize| k < usize::BITS ==> (bit_at(r, k) <==> (start <= k && k <= end)),
{
    let s = start as usize;
    let e = end as usize;
    let w = e - s + 1;
    assert((1 as usize) << w >= 1) by (bit_vector)
        requires w < usize::BITS;
    let r = (((1 as usize) << w) - 1) << s;
    assert forall|k: usize| k < usize::BITS implies (bit_at(r, k) <==> (s <= k && k <= e)) by {
        assert(((r >> k) & 1 == 1) <==> (s <= k && k <= e)) by (bit_vector)
            requires
                s <= e,
                e < usize::BITS,
                k < usize::BITS,
                w == e - s + 1,
                w < usize::BITS,
                r == ((((1 as usize) << w) - 1) as usize) << s;
    }
    r
}

/// Setting bit `b` makes it one and leaves every other bit alone.
pub proof fn lemma_set_bit(n: usize, b: usize)
    requires
        b < usize::BITS,
    ensures
        forall|k: usize| k < usize::BITS ==> (#[trigger] bit_at(n | ((1 as usize) << b), k) <==> (k == b || bit_at(n, k))),
{
    assert forall|k: usize| k < usize::BITS implies (#[trigger] bit_at(n | ((1 as usize) << b), k) <==> (k == b || bit_at(n, k))) by {
        crate::bitfacts::lemma_set_clear_shifts();
        assert((((n | (1usize << b)) >> k) & 1 == 1) <==> (k == b || (n >> k) & 1 == 1));
    }
}

/// Clearing bit `b` makes it zero and leaves every other bit alone.
pub proof fn lemma_clear_bit(n: usize, b: usize)
    requires
        b < usize::BITS,
    ensures
        forall|k: usize| k < usize::BITS ==> (#[trigger] bit_at(n & !((1 as usize) << b), k) <==> (k != b && bit_at(n, k))),
{
    assert forall|k: usize| k < usize::BITS implies (#[trigger] bit_at(n & !((1 as usize) << b), k) <==> (k != b && bit_at(n, k))) by {
        crate::bitfacts::lemma_set_clear_shifts();
        assert((((n & !(1usize << b)) >> k) & 1 == 1) <==> (k != b && (n >> k) & 1 == 1));
    }
}

/// The number of set bits among the low `n` bits of `x`.
pub open spec fn ones(x: usize, n: nat) -> nat
    decreases n,
{
    if n == 0 {
        0
    } else {
        ones(x, (n - 1) as nat) + if bit_at(x, (n - 1) as usize) { 1nat } else { 0nat }
    }
}

/// Counts the set bits among the low `width` bits of `value`.
pub fn count_ones_below(value: usize, width: usize) -> (r: usize)
    requires
        width <= usize::BITS,
    ensures
        r == ones(value, width as nat),
        r <= width,
{
    let mut count: usize = 0;
    let mut i: usize = 0;
    while i < width
        invariant
            i <= width <= usize::BITS,
            count == ones(value, i as nat),
            count <= i,
        decreases width - i,
    {
        if (value >> i) & 1 == 1 {
            count = count + 1;
        }
        i = i + 1;
    }
    count
}

} // verus!
