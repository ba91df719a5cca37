//! Single-bit and mask helpers on `u64` values.
use vstd::prelude::*;

verus! {

/// Whether bit `k` of `n` is one.
pub open spec fn bit_at(n: u64, k: u64) -> bool {
    (n >> k) & 1 == 1
}

/// The value with only bit `bit` set.
pub fn bit(bit_idx: usize) -> (r: u64)
    requires
        bit_idx < u64::BITS,
    ensures
        r == (1 as u64) << (bit_idx as u64),
{
    (1 as u64) << (bit_idx as u64)
}

/// `n` with bit `bit` set.
pub fn set_bit(n: u64, bit_idx: usize) -> (r: u64)
    requires
        bit_idx < u64::BITS,
    ensures
        r == n | ((1 as u64) << (bit_idx as u64)),
{
    n | ((1 as u64) << (bit_idx as u64))
}

/// `n` with bit `bit` cleared.
pub fn clear_bit(n: u64, bit_idx: usize) -> (r: u64)
    requires
        bit_idx < u64::BITS,
    ensures
        r == n & !((1 as u64) << (bit_idx as u64)),
{
    n & !((1 as u64) << (bit_idx as u64))
}

/// Whether bit `bit` of `n` is one.
pub fn is_bit_set(n: u64, bit_idx: usize) -> (r: bool)
    requires
        bit_idx < u64::BITS,
    ensures
        r == bit_at(n, bit_idx as u64),
{
    let b = bit_idx as u64;
    proof {
        crate::bitfacts::lemma_mask_tests();
        assert(((n & (1u64 << b)) == 0) == !((n >> b) & 1 == 1));
    }
    (n & ((1 as u64) << b)) != 0
}

/// Whether bit `bit` of `n` is zero.
pub fn is_bit_clear(n: u64, bit_idx: usize) -> (r: bool)
    requires
        bit_idx < u64::BITS,
    ensures
        r == !bit_at(n, bit_idx as u64),
{
    let b = bit_idx as u64;
    proof {
        crate::bitfacts::lemma_mask_tests();
        assert(((n & (1u64 << b)) == 0) == !((n >> b) & 1 == 1));
    }
    (n & ((1 as u64) << b)) == 0
}

/// `n` masked by `mask`.
pub fn apply_mask(n: u64, mask: u64) -> (r: u64)
    ensures
        r == n & mask,
{
    n & mask
}

/// The mask whose ones are exactly the bits `start..=end`.
pub fn create_bitmask(start: usize, end: usize) -> (r: u64)
    requires
        start <= end,
        end < u64::BITS,
        end - start + 1 < u64::BITS,
    ensures
        forall|k: u64| k < u64::BITS ==> (bit_at(r, k) <==> (start <= k && k <= end)),
{
    let s = start as u64;
    let e = end as u64;
    let w = e - s + 1;
    assert((1 as u64) << w >= 1) by {
        vstd::bits::lemma_u64_pow2_no_overflow(w as nat);
        vstd::bits::lemma_u64_shl_is_mul(1, w);
    }
    let r = (((1 as u64) << w) - 1) << s;
    assert forall|k: u64| k < u64::BITS implies (bit_at(r, k) <==> (s <= k && k <= e)) by {
        assert(((r >> k) & 1 == 1) <==> (s <= k && k <= e)) by (bit_vector)
            requires
                s <= e,
                e < u64::BITS,
                k < u64::BITS,
                w == e - s + 1,
                w < u64::BITS,
                r == ((((1 as u64) << w) - 1) as u64) << s;
    }
    r
}

/// Setting bit `b` makes it one and leaves every other bit alone.
pub proof fn lemma_set_bit(n: u64, b: u64)
    requires
        b < u64::BITS,
    ensures
        forall|k: u64| k < u64::BITS ==> (#[trigger] bit_at(n | ((1 as u64) << b), k) <==> (k == b || bit_at(n, k))),
{
    assert forall|k: u64| k < u64::BITS implies (#[trigger] bit_at(n | ((1 as u64) << b), k) <==> (k == b || bit_at(n, k))) by {
        crate::bitfacts::lemma_set_clear_shifts();
        assert((((n | (1u64 << b)) >> k) & 1 == 1) <==> (k == b || (n >> k) & 1 == 1));
    }
}

/// Clearing bit `b` makes it zero and leaves every other bit alone.
pub proof fn lemma_clear_bit(n: u64, b: u64)
    requires
        b < u64::BITS,
    ensures
        forall|k: u64| k < u64::BITS ==> (#[trigger] bit_at(n & !((1 as u64) << b), k) <==> (k != b && bit_at(n, k))),
{
    assert forall|k: u64| k < u64::BITS implies (#[trigger] bit_at(n & !((1 as u64) << b), k) <==> (k != b && bit_at(n, k))) by {
        crate::bitfacts::lemma_set_clear_shifts();
        assert((((n & !(1u64 << b)) >> k) & 1 == 1) <==> (k != b && (n >> k) & 1 == 1));
    }
}

} // verus!
